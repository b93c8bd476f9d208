//! The syntax of `.test` files and the parser that reads it.
//!
//! A file is read line by line (a line ends at `\n`; a `\r` before it is
//! dropped). After its leading blanks (spaces and tabs), a line is
//!
//! - empty: ignored;
//! - `# ...`: a comment, ignored;
//! - `[name]`: starts the test case `name`;
//! - `{name} = value`: sets a variable, only in front of the first test case;
//! - an instruction: an optional process number (decimal, at most 255), one of
//!   the identifiers `$ < > r ^ ?`, then the payload (one space after the
//!   identifier is dropped). Instructions belong to the test case above them.
//!
//! A `$` payload may start with `{var}` (then the command follows after blanks),
//! a `?` payload is an optional `<` or `>` followed by an `i32` in decimal, and
//! a `^` payload is exactly one character.
use vstd::prelude::*;

use crate::common::{option_view, ExitCodeModifier};
use crate::text::{
    all_digits, chars_of, decimal_at_most, decimal_value, lemma_span_len_facts, lemma_span_len_is,
    span_end, span_len, string_of, trim_start, CharClass,
};

verus! {

/// What makes a line of a `.test` file unreadable.
#[derive(Clone, Copy, Debug, PartialEq, Eq, Structural)]
pub enum ParseErrorKind {
    /// A line starts with `[` but does not end with `]`.
    MalformedHeader,
    /// A `{name}` is not closed, has an empty name, or a definition lacks `=`.
    MalformedVariable,
    /// A line is not one of the known forms.
    UnknownInstruction,
    /// A process number exceeds 255.
    ProcessNumberOutOfRange,
    /// The payload of `?` is not an optionally compared `i32`.
    InvalidExitCode,
    /// The payload of `^` is not exactly one character.
    InvalidControlChar,
    /// An instruction stands in front of the first test case.
    InstructionOutsideTestCase,
    /// A variable is set after the first test case has started.
    VariableAfterTestCase,
}

/// An unreadable line: its number (the first line is 1) and what is wrong.
#[derive(Clone, Copy, Debug, PartialEq, Eq, Structural)]
pub struct ParseError {
    pub line: usize,
    pub kind: ParseErrorKind,
}

/// A variable definition as it was read.
#[derive(Debug)]
pub struct ParsedVariable {
    pub name: String,
    pub value: String,
}

/// An instruction line as it was read.
#[derive(Debug)]
pub struct ParsedInstruction {
    /// The digits in front of the identifier, if any.
    pub process_number: Option<String>,
    pub identifier: char,
    pub payload: String,
}

/// A test case as it was read.
#[derive(Debug)]
pub struct ParsedTestCase {
    pub name: String,
    pub instructions: Vec<ParsedInstruction>,
}

/// A whole file as it was read: its variable definitions and its test cases.
#[derive(Debug)]
pub struct ParsedSuite {
    pub variables: Vec<ParsedVariable>,
    pub test_cases: Vec<ParsedTestCase>,
}

pub struct VariableSyntax {
    pub name: Seq<char>,
    pub value: Seq<char>,
}

pub struct InstructionSyntax {
    pub process_number: Option<Seq<char>>,
    pub identifier: char,
    pub payload: Seq<char>,
}

pub struct TestCaseSyntax {
    pub name: Seq<char>,
    pub instructions: Seq<InstructionSyntax>,
}

pub struct SuiteSyntax {
    pub variables: Seq<VariableSyntax>,
    pub test_cases: Seq<TestCaseSyntax>,
}

impl View for ParsedVariable {
    type V = VariableSyntax;

    open spec fn view(&self) -> VariableSyntax {
        VariableSyntax { name: self.name@, value: self.value@ }
    }
}

impl View for ParsedInstruction {
    type V = InstructionSyntax;

    open spec fn view(&self) -> InstructionSyntax {
        InstructionSyntax {
            process_number: option_view(self.process_number),
            identifier: self.identifier,
            payload: self.payload@,
        }
    }
}

impl View for ParsedTestCase {
    type V = TestCaseSyntax;

    open spec fn view(&self) -> TestCaseSyntax {
        TestCaseSyntax {
            name: self.name@,
            instructions: self.instructions@.map_values(|i: ParsedInstruction| i@),
        }
    }
}

impl View for ParsedSuite {
    type V = SuiteSyntax;

    open spec fn view(&self) -> SuiteSyntax {
        SuiteSyntax {
            variables: self.variables@.map_values(|v: ParsedVariable| v@),
            test_cases: self.test_cases@.map_values(|c: ParsedTestCase| c@),
        }
    }
}

/// The kinds of line.
pub enum LineSyntax {
    Blank,
    Comment,
    Header(Seq<char>),
    Variable(VariableSyntax),
    Instruction(InstructionSyntax),
}

pub open spec fn is_identifier(c: char) -> bool {
    c == '$' || c == '<' || c == '>' || c == 'r' || c == '^' || c == '?'
}

/// `{name} = value`, where `t` starts with `{`.
pub open spec fn variable_definition(t: Seq<char>) -> Option<VariableSyntax> {
    let body = t.drop_first();
    let k = span_len(body, CharClass::Except('}'));
    if k == 0 || k >= body.len() {
        None
    } else {
        let r = trim_start(body.skip(k + 1int));
        if r.len() == 0 || r[0] != '=' {
            None
        } else {
            Some(VariableSyntax { name: body.take(k as int), value: trim_start(r.drop_first()) })
        }
    }
}

/// The variable and the command of a `$` payload.
pub open spec fn launch_parts(p: Seq<char>) -> Option<(Option<Seq<char>>, Seq<char>)> {
    if p.len() > 0 && p[0] == '{' {
        let body = p.drop_first();
        let k = span_len(body, CharClass::Except('}'));
        if k == 0 || k >= body.len() {
            None
        } else {
            Some((Some(body.take(k as int)), trim_start(body.skip(k + 1int))))
        }
    } else {
        Some((None, p))
    }
}

/// The comparison and the exit code of a `?` payload.
pub open spec fn exit_code_parts(p: Seq<char>) -> Option<(ExitCodeModifier, int)> {
    let m = if p.len() > 0 && p[0] == '<' {
        ExitCodeModifier::LessThan
    } else if p.len() > 0 && p[0] == '>' {
        ExitCodeModifier::MoreThan
    } else {
        ExitCodeModifier::Equals
    };
    let r = if m == ExitCodeModifier::Equals {
        p
    } else {
        p.drop_first()
    };
    let neg = r.len() > 0 && r[0] == '-';
    let digits = if neg {
        r.drop_first()
    } else {
        r
    };
    if digits.len() == 0 || !all_digits(digits) {
        None
    } else {
        let v: int = if neg {
            -(decimal_value(digits) as int)
        } else {
            decimal_value(digits) as int
        };
        if i32::MIN <= v && v <= i32::MAX {
            Some((m, v))
        } else {
            None
        }
    }
}

/// What is wrong with the payload `p` of the identifier `c`, if anything.
pub open spec fn payload_error(c: char, p: Seq<char>) -> Option<ParseErrorKind> {
    if c == '$' && launch_parts(p) is None {
        Some(ParseErrorKind::MalformedVariable)
    } else if c == '?' && exit_code_parts(p) is None {
        Some(ParseErrorKind::InvalidExitCode)
    } else if c == '^' && p.len() != 1 {
        Some(ParseErrorKind::InvalidControlChar)
    } else {
        None
    }
}

/// An instruction line `t` (without leading blanks).
pub open spec fn instruction_line(t: Seq<char>) -> Result<InstructionSyntax, ParseErrorKind> {
    let d = span_len(t, CharClass::Digit);
    if d >= t.len() || !is_identifier(t[d as int]) {
        Err(ParseErrorKind::UnknownInstruction)
    } else if d > 0 && decimal_value(t.take(d as int)) > 255 {
        Err(ParseErrorKind::ProcessNumberOutOfRange)
    } else {
        let rest = t.skip(d + 1int);
        let payload = if rest.len() > 0 && rest[0] == ' ' {
            rest.drop_first()
        } else {
            rest
        };
        match payload_error(t[d as int], payload) {
            Some(e) => Err(e),
            None => Ok(
                InstructionSyntax {
                    process_number: if d > 0 {
                        Some(t.take(d as int))
                    } else {
                        None
                    },
                    identifier: t[d as int],
                    payload,
                },
            ),
        }
    }
}

/// What a line (without its line break) is.
pub open spec fn classify_line(line: Seq<char>) -> Result<LineSyntax, ParseErrorKind> {
    let t = trim_start(line);
    if t.len() == 0 {
        Ok(LineSyntax::Blank)
    } else if t[0] == '#' {
        Ok(LineSyntax::Comment)
    } else if t[0] == '[' {
        if t.len() >= 2 && t.last() == ']' {
            Ok(LineSyntax::Header(t.subrange(1, t.len() - 1)))
        } else {
            Err(ParseErrorKind::MalformedHeader)
        }
    } else if t[0] == '{' {
        match variable_definition(t) {
            Some(v) => Ok(LineSyntax::Variable(v)),
            None => Err(ParseErrorKind::MalformedVariable),
        }
    } else {
        match instruction_line(t) {
            Ok(i) => Ok(LineSyntax::Instruction(i)),
            Err(e) => Err(e),
        }
    }
}

/// Where the reading of a file stands: the variables and the closed test
/// cases so far, and the test case that is still open.
#[verifier::ext_equal]
pub struct ParseState {
    pub variables: Seq<VariableSyntax>,
    pub test_cases: Seq<TestCaseSyntax>,
    pub current: Option<TestCaseSyntax>,
}

pub open spec fn initial_state() -> ParseState {
    ParseState { variables: Seq::empty(), test_cases: Seq::empty(), current: None }
}

/// The test cases of `st`, the open one closed.
pub open spec fn closed_cases(st: ParseState) -> Seq<TestCaseSyntax> {
    match st.current {
        Some(c) => st.test_cases.push(c),
        None => st.test_cases,
    }
}

/// `line` without a trailing carriage return.
pub open spec fn strip_cr(line: Seq<char>) -> Seq<char> {
    if line.len() > 0 && line.last() == '\r' {
        line.drop_last()
    } else {
        line
    }
}

/// Reads the line `line`, whose number is `line_no`, on top of `st`.
pub open spec fn add_line(st: ParseState, line: Seq<char>, line_no: nat) -> Result<ParseState, ParseError> {
    match classify_line(line) {
        Err(kind) => Err(ParseError { line: line_no as usize, kind }),
        Ok(LineSyntax::Blank) => Ok(st),
        Ok(LineSyntax::Comment) => Ok(st),
        Ok(LineSyntax::Header(name)) => Ok(
            ParseState {
                variables: st.variables,
                test_cases: closed_cases(st),
                current: Some(TestCaseSyntax { name, instructions: Seq::empty() }),
            },
        ),
        Ok(LineSyntax::Variable(v)) => if st.current is Some {
            Err(ParseError { line: line_no as usize, kind: ParseErrorKind::VariableAfterTestCase })
        } else {
            Ok(ParseState { variables: st.variables.push(v), test_cases: st.test_cases, current: None })
        },
        Ok(LineSyntax::Instruction(i)) => match st.current {
            None => Err(
                ParseError { line: line_no as usize, kind: ParseErrorKind::InstructionOutsideTestCase },
            ),
            Some(c) => Ok(
                ParseState {
                    variables: st.variables,
                    test_cases: st.test_cases,
                    current: Some(
                        TestCaseSyntax { name: c.name, instructions: c.instructions.push(i) },
                    ),
                },
            ),
        },
    }
}

/// Reads the text `rest`, whose first line has the number `line_index + 1`,
/// on top of `st`.
pub open spec fn parse_rest(st: ParseState, rest: Seq<char>, line_index: nat) -> Result<
    ParseState,
    ParseError,
>
    decreases rest.len(),
{
    let k = span_len(rest, CharClass::Except('\n'));
    match add_line(st, strip_cr(rest.take(k as int)), line_index + 1) {
        Err(e) => Err(e),
        Ok(next) => if k < rest.len() {
            proof {
                lemma_span_len_facts(rest, CharClass::Except('\n'));
            }
            parse_rest(next, rest.skip(k + 1int), line_index + 1)
        } else {
            Ok(next)
        },
    }
}

/// The syntax of the file `input`, or the first unreadable line.
pub open spec fn parse_pairs(input: Seq<char>) -> Result<SuiteSyntax, ParseError> {
    match parse_rest(initial_state(), input, 0) {
        Ok(st) => Ok(SuiteSyntax { variables: st.variables, test_cases: closed_cases(st) }),
        Err(e) => Err(e),
    }
}

/// Every instruction payload of `s` has the form that its identifier asks for.
pub open spec fn instruction_wf(i: InstructionSyntax) -> bool {
    &&& is_identifier(i.identifier)
    &&& payload_error(i.identifier, i.payload) is None
    &&& match i.process_number {
        Some(d) => d.len() > 0 && all_digits(d) && decimal_value(d) <= 255,
        None => true,
    }
}

pub open spec fn test_case_wf(c: TestCaseSyntax) -> bool {
    forall|j: int| 0 <= j < c.instructions.len() ==> instruction_wf(#[trigger] c.instructions[j])
}

pub open spec fn suite_wf(s: SuiteSyntax) -> bool {
    forall|j: int| 0 <= j < s.test_cases.len() ==> test_case_wf(#[trigger] s.test_cases[j])
}

pub open spec fn pairs_result_view(r: Result<ParsedSuite, ParseError>) -> Result<SuiteSyntax, ParseError> {
    match r {
        Ok(p) => Ok(p@),
        Err(e) => Err(e),
    }
}


/// A line as it was read.
enum Line {
    Blank,
    Comment,
    Header(String),
    Variable(ParsedVariable),
    Instruction(ParsedInstruction),
}

spec fn line_result_view(r: Result<Line, ParseErrorKind>) -> Result<LineSyntax, ParseErrorKind> {
    match r {
        Ok(Line::Blank) => Ok(LineSyntax::Blank),
        Ok(Line::Comment) => Ok(LineSyntax::Comment),
        Ok(Line::Header(name)) => Ok(LineSyntax::Header(name@)),
        Ok(Line::Variable(v)) => Ok(LineSyntax::Variable(v@)),
        Ok(Line::Instruction(i)) => Ok(LineSyntax::Instruction(i@)),
        Err(e) => Err(e),
    }
}

/// `all_digits` holds exactly where the run of digits covers the whole text.
proof fn lemma_all_digits_span(s: Seq<char>)
    ensures
        all_digits(s) <==> span_len(s, CharClass::Digit) == s.len(),
{
    lemma_span_len_facts(s, CharClass::Digit);
    if span_len(s, CharClass::Digit) < s.len() {
        let k = span_len(s, CharClass::Digit) as int;
        assert(!crate::text::is_digit(s[k]));
    }
}

/// Reads `{name} = value` from `chars[lo..hi]`, which starts with `{`.
fn read_variable_definition(chars: &Vec<char>, lo: usize, hi: usize) -> (r: Option<ParsedVariable>)
    requires
        lo < hi <= chars@.len(),
        chars@[lo as int] == '{',
    ensures
        match r {
            Some(v) => variable_definition(chars@.subrange(lo as int, hi as int)) == Some(v@),
            None => variable_definition(chars@.subrange(lo as int, hi as int)) is None,
        },
{
    let ghost t = chars@.subrange(lo as int, hi as int);
    let ghost body = t.drop_first();
    assert(body =~= chars@.subrange(lo + 1, hi as int));
    let close = span_end(chars, lo + 1, hi, CharClass::Except('}'));
    if close == lo + 1 || close >= hi {
        return None;
    }
    let ghost k = close - (lo + 1);
    assert(body.skip(k + 1int) =~= chars@.subrange(close + 1, hi as int));
    let r_lo = span_end(chars, close + 1, hi, CharClass::Blank);
    assert(trim_start(body.skip(k + 1int)) =~= chars@.subrange(r_lo as int, hi as int));
    if r_lo >= hi || chars[r_lo] != '=' {
        return None;
    }
    let v_lo = span_end(chars, r_lo + 1, hi, CharClass::Blank);
    assert(chars@.subrange(r_lo as int, hi as int).drop_first() =~= chars@.subrange(r_lo + 1, hi as int));
    assert(trim_start(chars@.subrange(r_lo + 1, hi as int)) =~= chars@.subrange(v_lo as int, hi as int));
    assert(body.take(k) =~= chars@.subrange(lo + 1, close as int));
    let name = string_of(chars, lo + 1, close);
    let value = string_of(chars, v_lo, hi);
    Some(ParsedVariable { name, value })
}

/// Reads the variable and the command of a `$` payload `chars[lo..hi]`: the
/// range of the variable's name, if there is one, and where the command starts.
pub(crate) fn read_launch_parts(chars: &Vec<char>, lo: usize, hi: usize) -> (r: Option<(Option<(usize, usize)>, usize)>)
    requires
        lo <= hi <= chars@.len(),
    ensures
        match r {
            None => launch_parts(chars@.subrange(lo as int, hi as int)) is None,
            Some((var, cmd)) => {
                &&& lo <= cmd <= hi
                &&& launch_parts(chars@.subrange(lo as int, hi as int)) matches Some((v, c))
                &&& c == chars@.subrange(cmd as int, hi as int)
                &&& match var {
                    Some((a, b)) => lo <= a <= b <= hi && v == Some(chars@.subrange(a as int, b as int)),
                    None => v is None,
                }
            },
        },
{
    let ghost p = chars@.subrange(lo as int, hi as int);
    if lo < hi && chars[lo] == '{' {
        let ghost body = p.drop_first();
        assert(body =~= chars@.subrange(lo + 1, hi as int));
        let close = span_end(chars, lo + 1, hi, CharClass::Except('}'));
        if close == lo + 1 || close >= hi {
            return None;
        }
        let ghost k = close - (lo + 1);
        assert(body.skip(k + 1int) =~= chars@.subrange(close + 1, hi as int));
        let cmd = span_end(chars, close + 1, hi, CharClass::Blank);
        assert(trim_start(body.skip(k + 1int)) =~= chars@.subrange(cmd as int, hi as int));
        assert(body.take(k) =~= chars@.subrange(lo + 1, close as int));
        Some((Some((lo + 1, close)), cmd))
    } else {
        Some((None, lo))
    }
}

/// Reads the comparison and the exit code of a `?` payload `chars[lo..hi]`.
pub(crate) fn read_exit_code(chars: &Vec<char>, lo: usize, hi: usize) -> (r: Option<(ExitCodeModifier, i32)>)
    requires
        lo <= hi <= chars@.len(),
    ensures
        match r {
            Some((m, v)) => exit_code_parts(chars@.subrange(lo as int, hi as int)) == Some((m, v as int)),
            None => exit_code_parts(chars@.subrange(lo as int, hi as int)) is None,
        },
{
    let ghost p = chars@.subrange(lo as int, hi as int);
    let (m, r_lo) = if lo < hi && chars[lo] == '<' {
        (ExitCodeModifier::LessThan, lo + 1)
    } else if lo < hi && chars[lo] == '>' {
        (ExitCodeModifier::MoreThan, lo + 1)
    } else {
        (ExitCodeModifier::Equals, lo)
    };
    let ghost r = if m == ExitCodeModifier::Equals { p } else { p.drop_first() };
    assert(r =~= chars@.subrange(r_lo as int, hi as int));
    let neg = r_lo < hi && chars[r_lo] == '-';
    let d_lo = if neg { r_lo + 1 } else { r_lo };
    let ghost digits = if neg { r.drop_first() } else { r };
    assert(digits =~= chars@.subrange(d_lo as int, hi as int));
    let d_end = span_end(chars, d_lo, hi, CharClass::Digit);
    proof {
        lemma_all_digits_span(digits);
    }
    if d_lo == hi || d_end != hi {
        return None;
    }
    match decimal_at_most(chars, d_lo, hi, 2147483648) {
        None => None,
        Some(v) => {
            if neg {
                Some((m, (0 - (v as i64)) as i32))
            } else if v <= 2147483647 {
                Some((m, v as i32))
            } else {
                None
            }
        },
    }
}

fn is_identifier_exec(c: char) -> (b: bool)
    ensures
        b == is_identifier(c),
{
    c == '$' || c == '<' || c == '>' || c == 'r' || c == '^' || c == '?'
}

/// Reads the instruction line `chars[lo..hi]` (without leading blanks).
fn read_instruction(chars: &Vec<char>, lo: usize, hi: usize) -> (r: Result<ParsedInstruction, ParseErrorKind>)
    requires
        lo <= hi <= chars@.len(),
    ensures
        match r {
            Ok(i) => instruction_line(chars@.subrange(lo as int, hi as int)) == Ok::<InstructionSyntax, ParseErrorKind>(i@),
            Err(e) => instruction_line(chars@.subrange(lo as int, hi as int)) == Err::<InstructionSyntax, ParseErrorKind>(e),
        },
{
    let ghost t = chars@.subrange(lo as int, hi as int);
    let d_end = span_end(chars, lo, hi, CharClass::Digit);
    let ghost d = d_end - lo;
    if d_end >= hi {
        return Err(ParseErrorKind::UnknownInstruction);
    }
    assert(t[d] == chars@[d_end as int]);
    let id = chars[d_end];
    if !is_identifier_exec(id) {
        return Err(ParseErrorKind::UnknownInstruction);
    }
    proof {
        lemma_span_len_facts(t, CharClass::Digit);
        assert(t.take(d) =~= chars@.subrange(lo as int, d_end as int));
        assert forall|j: int| 0 <= j < t.take(d).len() implies #[trigger] crate::text::is_digit(t.take(d)[j]) by {
            assert(t.take(d)[j] == t[j]);
            assert(crate::text::in_class(CharClass::Digit, t[j]));
        }
    }
    if d_end > lo {
        if decimal_at_most(chars, lo, d_end, 255).is_none() {
            return Err(ParseErrorKind::ProcessNumberOutOfRange);
        }
    }
    let ghost rest = t.skip(d + 1int);
    assert(rest =~= chars@.subrange(d_end + 1, hi as int));
    let p_lo = if d_end + 1 < hi && chars[d_end + 1] == ' ' {
        d_end + 2
    } else {
        d_end + 1
    };
    let ghost payload = if rest.len() > 0 && rest[0] == ' ' { rest.drop_first() } else { rest };
    assert(payload =~= chars@.subrange(p_lo as int, hi as int));
    if id == '$' && read_launch_parts(chars, p_lo, hi).is_none() {
        return Err(ParseErrorKind::MalformedVariable);
    }
    if id == '?' && read_exit_code(chars, p_lo, hi).is_none() {
        return Err(ParseErrorKind::InvalidExitCode);
    }
    if id == '^' && hi - p_lo != 1 {
        return Err(ParseErrorKind::InvalidControlChar);
    }
    let process_number = if d_end > lo {
        Some(string_of(chars, lo, d_end))
    } else {
        None
    };
    let payload_text = string_of(chars, p_lo, hi);
    Ok(ParsedInstruction { process_number, identifier: id, payload: payload_text })
}

/// Reads the line `chars[lo..hi]` (without its line break).
fn read_line(chars: &Vec<char>, lo: usize, hi: usize) -> (r: Result<Line, ParseErrorKind>)
    requires
        lo <= hi <= chars@.len(),
    ensures
        line_result_view(r) == classify_line(chars@.subrange(lo as int, hi as int)),
        r is Err ==> lo < hi,
{
    let ghost line = chars@.subrange(lo as int, hi as int);
    let t_lo = span_end(chars, lo, hi, CharClass::Blank);
    let ghost t = trim_start(line);
    assert(t =~= chars@.subrange(t_lo as int, hi as int));
    if t_lo == hi {
        return Ok(Line::Blank);
    }
    let c = chars[t_lo];
    assert(t[0] == c);
    if c == '#' {
        Ok(Line::Comment)
    } else if c == '[' {
        if hi - t_lo >= 2 && chars[hi - 1] == ']' {
            assert(t.subrange(1, t.len() - 1) =~= chars@.subrange(t_lo + 1, hi - 1));
            Ok(Line::Header(string_of(chars, t_lo + 1, hi - 1)))
        } else {
            Err(ParseErrorKind::MalformedHeader)
        }
    } else if c == '{' {
        match read_variable_definition(chars, t_lo, hi) {
            Some(v) => Ok(Line::Variable(v)),
            None => Err(ParseErrorKind::MalformedVariable),
        }
    } else {
        match read_instruction(chars, t_lo, hi) {
            Ok(i) => Ok(Line::Instruction(i)),
            Err(e) => Err(e),
        }
    }
}


pub open spec fn state_view(
    variables: Seq<ParsedVariable>,
    test_cases: Seq<ParsedTestCase>,
    current: Option<ParsedTestCase>,
) -> ParseState {
    ParseState {
        variables: variables.map_values(|v: ParsedVariable| v@),
        test_cases: test_cases.map_values(|c: ParsedTestCase| c@),
        current: match current {
            Some(c) => Some(c@),
            None => None,
        },
    }
}

/// The parser of `.test` files.
pub struct TestFileParser;

impl TestFileParser {
    /// Reads the file `input`: its variable definitions and its test cases,
    /// or the first line that cannot be read.
    pub fn parse(input: &str) -> (r: Result<ParsedSuite, ParseError>)
        ensures
            pairs_result_view(r) == parse_pairs(input@),
    {
        let chars = chars_of(input);
        let len = chars.len();
        let mut variables: Vec<ParsedVariable> = Vec::new();
        let mut test_cases: Vec<ParsedTestCase> = Vec::new();
        let mut current: Option<ParsedTestCase> = None;
        let mut pos: usize = 0;
        let mut line_index: usize = 0;
        proof {
            assert(chars@.skip(0) =~= chars@);
            assert(state_view(variables@, test_cases@, current) =~= initial_state());
        }
        loop
            invariant
                len == chars@.len(),
                chars@ == input@,
                pos <= len,
                line_index <= pos,
                parse_rest(state_view(variables@, test_cases@, current), chars@.skip(pos as int), line_index as nat)
                    == parse_rest(initial_state(), input@, 0),
            decreases len - pos,
        {
            let ghost st = state_view(variables@, test_cases@, current);
            let ghost rest = chars@.skip(pos as int);
            assert(rest =~= chars@.subrange(pos as int, len as int));
            let end = span_end(&chars, pos, len, CharClass::Except('\n'));
            let ghost k = end - pos;
            assert(rest.take(k) =~= chars@.subrange(pos as int, end as int));
            let content_end = if end > pos && chars[end - 1] == '\r' {
                end - 1
            } else {
                end
            };
            assert(strip_cr(rest.take(k)) =~= chars@.subrange(pos as int, content_end as int));
            let ghost line_no = line_index + 1;
            let line = match read_line(&chars, pos, content_end) {
                Ok(line) => line,
                Err(kind) => {
                    return Err(ParseError { line: line_index + 1, kind });
                },
            };
            match line {
                Line::Blank => {},
                Line::Comment => {},
                Line::Header(name) => {
                    let previous = current.take();
                    match previous {
                        Some(c) => {
                            test_cases.push(c);
                        },
                        None => {},
                    }
                    current = Some(ParsedTestCase { name, instructions: Vec::new() });
                    proof {
                        assert(current.unwrap()@.instructions =~= Seq::<InstructionSyntax>::empty());
                        assert(test_cases@.map_values(|c: ParsedTestCase| c@) =~= closed_cases(st));
                    }
                },
                Line::Variable(v) => {
                    if current.is_some() {
                        return Err(ParseError { line: line_index + 1, kind: ParseErrorKind::VariableAfterTestCase });
                    }
                    variables.push(v);
                    proof {
                        assert(variables@.map_values(|v: ParsedVariable| v@) =~= st.variables.push(v@));
                    }
                },
                Line::Instruction(i) => {
                    match &mut current {
                        Some(c) => {
                            let ghost before = c.instructions@;
                            c.instructions.push(i);
                            proof {
                                assert(c.instructions@.map_values(|x: ParsedInstruction| x@)
                                    =~= before.map_values(|x: ParsedInstruction| x@).push(i@));
                            }
                        },
                        None => {
                            return Err(ParseError { line: line_index + 1, kind: ParseErrorKind::InstructionOutsideTestCase });
                        },
                    }
                },
            }
            if end >= len {
                let mut cases = test_cases;
                match current {
                    Some(c) => {
                        cases.push(c);
                    },
                    None => {},
                }
                let suite = ParsedSuite { variables, test_cases: cases };
                proof {
                    assert(suite@.test_cases =~= closed_cases(state_view(variables@, test_cases@, current)));
                }
                return Ok(suite);
            }
            assert(rest.skip(k + 1int) =~= chars@.skip(end + 1int));
            pos = end + 1;
            line_index = line_index + 1;
        }
    }
}

/// The syntax of the file `input`, which must be readable.
pub fn get_pairs(input: &str) -> (p: ParsedSuite)
    requires
        parse_pairs(input@) is Ok,
    ensures
        parse_pairs(input@) == Ok::<SuiteSyntax, ParseError>(p@),
{
    match TestFileParser::parse(input) {
        Ok(p) => p,
        Err(_) => {
            proof {
                assert(false);
            }
            ParsedSuite { variables: Vec::new(), test_cases: Vec::new() }
        },
    }
}


pub open spec fn state_wf(st: ParseState) -> bool {
    &&& forall|j: int| 0 <= j < st.test_cases.len() ==> test_case_wf(#[trigger] st.test_cases[j])
    &&& match st.current {
        Some(c) => test_case_wf(c),
        None => true,
    }
}

proof fn lemma_instruction_line_wf(t: Seq<char>)
    ensures
        instruction_line(t) matches Ok(i) ==> instruction_wf(i),
{
    lemma_span_len_facts(t, CharClass::Digit);
    let d = span_len(t, CharClass::Digit) as int;
    if d > 0 && d < t.len() {
        assert forall|j: int| 0 <= j < t.take(d).len() implies #[trigger] crate::text::is_digit(t.take(d)[j]) by {
            assert(t.take(d)[j] == t[j]);
            assert(crate::text::in_class(CharClass::Digit, t[j]));
        }
    }
}

proof fn lemma_add_line_wf(st: ParseState, line: Seq<char>, line_no: nat)
    requires
        state_wf(st),
    ensures
        add_line(st, line, line_no) matches Ok(next) ==> state_wf(next),
{
    lemma_instruction_line_wf(trim_start(line));
    if let Ok(next) = add_line(st, line, line_no) {
        match classify_line(line) {
            Ok(LineSyntax::Header(name)) => {
                assert forall|j: int| 0 <= j < next.test_cases.len() implies test_case_wf(
                    #[trigger] next.test_cases[j],
                ) by {
                    if j < st.test_cases.len() {
                        assert(next.test_cases[j] == st.test_cases[j]);
                    }
                }
            },
            Ok(LineSyntax::Instruction(i)) => {
                let c = st.current.unwrap();
                let nc = next.current.unwrap();
                assert forall|j: int| 0 <= j < nc.instructions.len() implies instruction_wf(
                    #[trigger] nc.instructions[j],
                ) by {
                    if j < c.instructions.len() {
                        assert(nc.instructions[j] == c.instructions[j]);
                    }
                }
            },
            _ => {},
        }
    }
}

proof fn lemma_parse_rest_wf(st: ParseState, rest: Seq<char>, line_index: nat)
    requires
        state_wf(st),
    ensures
        parse_rest(st, rest, line_index) matches Ok(end) ==> state_wf(end),
    decreases rest.len(),
{
    let k = span_len(rest, CharClass::Except('\n'));
    lemma_span_len_facts(rest, CharClass::Except('\n'));
    lemma_add_line_wf(st, strip_cr(rest.take(k as int)), line_index + 1);
    if let Ok(next) = add_line(st, strip_cr(rest.take(k as int)), line_index + 1) {
        if k < rest.len() {
            lemma_parse_rest_wf(next, rest.skip(k + 1int), line_index + 1);
        }
    }
}

/// Every instruction that the parser reads has the form that its identifier
/// asks for.
pub proof fn lemma_parse_pairs_wf(input: Seq<char>)
    ensures
        parse_pairs(input) matches Ok(s) ==> suite_wf(s),
{
    lemma_parse_rest_wf(initial_state(), input, 0);
    if let Ok(st) = parse_rest(initial_state(), input, 0) {
        let s = parse_pairs(input)->Ok_0;
        assert forall|j: int| 0 <= j < s.test_cases.len() implies test_case_wf(#[trigger] s.test_cases[j]) by {
            if j < st.test_cases.len() {
                assert(s.test_cases[j] == st.test_cases[j]);
            }
        }
    }
}


/// A blank or comment line: no line break in it, and nothing but blanks or
/// `#` as its first character after leading blanks.
pub open spec fn is_ignored_line(c: Seq<char>) -> bool {
    &&& forall|i: int| 0 <= i < c.len() ==> c[i] != '\n'
    &&& (trim_start(c).len() == 0 || trim_start(c)[0] == '#')
}

/// `a` is made of whole lines: it is empty or ends with a line break.
pub open spec fn whole_lines(a: Seq<char>) -> bool {
    a.len() == 0 || a.last() == '\n'
}

/// Two outcomes of reading agree: both succeed with the same result, or both
/// fail for the same reason (the line numbers may differ).
pub open spec fn same_outcome<T>(x: Result<T, ParseError>, y: Result<T, ParseError>) -> bool {
    match (x, y) {
        (Ok(a), Ok(b)) => a == b,
        (Err(e1), Err(e2)) => e1.kind == e2.kind,
        _ => false,
    }
}

/// Reading does not depend on the number of the first line, but for the line
/// numbers in errors.
proof fn lemma_parse_rest_line_shift(st: ParseState, rest: Seq<char>, i1: nat, i2: nat)
    ensures
        same_outcome(parse_rest(st, rest, i1), parse_rest(st, rest, i2)),
    decreases rest.len(),
{
    let k = span_len(rest, CharClass::Except('\n'));
    lemma_span_len_facts(rest, CharClass::Except('\n'));
    let line = strip_cr(rest.take(k as int));
    if let Ok(next) = add_line(st, line, i1 + 1) {
        if k < rest.len() {
            lemma_parse_rest_line_shift(next, rest.skip(k + 1int), i1 + 1, i2 + 1);
        }
    }
}

/// A blank or comment line stays one when a trailing carriage return is
/// removed.
proof fn lemma_comment_strip_cr(c: Seq<char>)
    requires
        is_ignored_line(c),
    ensures
        classify_line(strip_cr(c)) matches Ok(LineSyntax::Blank) || classify_line(strip_cr(c)) matches Ok(
            LineSyntax::Comment,
        ),
{
    lemma_span_len_facts(c, CharClass::Blank);
    let p = span_len(c, CharClass::Blank) as int;
    if p == c.len() {
        if c.len() > 0 {
            assert(crate::text::in_class(CharClass::Blank, c[c.len() - 1]));
        }
    } else if c.len() > 0 && c.last() == '\r' {
        assert(c[p] == '#');
        let d = c.drop_last();
        assert(p < d.len());
        assert forall|j: int| 0 <= j < p implies crate::text::in_class(CharClass::Blank, #[trigger] d[j]) by {
            assert(d[j] == c[j]);
        }
        lemma_span_len_is(d, CharClass::Blank, p);
        assert(trim_start(d)[0] == d[p]);
    } else {
        assert(c[p] == '#');
    }
}

/// Reading a blank or comment line and then `b` is reading `b`, one line
/// further on.
proof fn lemma_comment_first(st: ParseState, c: Seq<char>, b: Seq<char>, li: nat)
    requires
        is_ignored_line(c),
    ensures
        parse_rest(st, c + seq!['\n'] + b, li) == parse_rest(st, b, li + 1),
{
    let rest = c + seq!['\n'] + b;
    assert forall|j: int| 0 <= j < c.len() implies crate::text::in_class(
        CharClass::Except('\n'),
        #[trigger] rest[j],
    ) by {
        assert(rest[j] == c[j]);
    }
    assert(rest[c.len() as int] == '\n');
    lemma_span_len_is(rest, CharClass::Except('\n'), c.len() as int);
    assert(rest.take(c.len() as int) =~= c);
    lemma_comment_strip_cr(c);
    assert(rest.skip(c.len() + 1int) =~= b);
}

proof fn lemma_comment_inserted(st: ParseState, a: Seq<char>, c: Seq<char>, b: Seq<char>, li: nat)
    requires
        whole_lines(a),
        is_ignored_line(c),
    ensures
        same_outcome(parse_rest(st, a + (c + seq!['\n'] + b), li), parse_rest(st, a + b, li)),
    decreases a.len(),
{
    let x = c + seq!['\n'] + b;
    if a.len() == 0 {
        assert(a + x =~= x);
        assert(a + b =~= b);
        lemma_comment_first(st, c, b, li);
        lemma_parse_rest_line_shift(st, b, li + 1, li);
    } else {
        lemma_span_len_facts(a, CharClass::Except('\n'));
        let k = span_len(a, CharClass::Except('\n')) as int;
        assert(k < a.len()) by {
            if k == a.len() {
                assert(crate::text::in_class(CharClass::Except('\n'), a[a.len() - 1]));
            }
        }
        let ax = a + x;
        let ab = a + b;
        assert forall|j: int| 0 <= j < k implies crate::text::in_class(CharClass::Except('\n'), #[trigger] ax[j]) by {
            assert(ax[j] == a[j]);
        }
        assert forall|j: int| 0 <= j < k implies crate::text::in_class(CharClass::Except('\n'), #[trigger] ab[j]) by {
            assert(ab[j] == a[j]);
        }
        assert(ax[k] == a[k]);
        assert(ab[k] == a[k]);
        lemma_span_len_is(ax, CharClass::Except('\n'), k);
        lemma_span_len_is(ab, CharClass::Except('\n'), k);
        assert(ax.take(k) =~= a.take(k));
        assert(ab.take(k) =~= a.take(k));
        let a2 = a.skip(k + 1);
        assert(ax.skip(k + 1) =~= a2 + x);
        assert(ab.skip(k + 1) =~= a2 + b);
        if a2.len() > 0 {
            assert(a2.last() == a.last());
        }
        if let Ok(next) = add_line(st, strip_cr(a.take(k)), li + 1) {
            lemma_comment_inserted(next, a2, c, b, li + 1);
        }
    }
}

/// Blank and comment lines are ignored: inserting one between whole lines
/// leaves the result of reading unchanged (but for the line numbers in errors).
pub proof fn lemma_ignored_lines(a: Seq<char>, c: Seq<char>, b: Seq<char>)
    requires
        whole_lines(a),
        is_ignored_line(c),
    ensures
        same_outcome(parse_pairs(a + (c + seq!['\n'] + b)), parse_pairs(a + b)),
{
    lemma_comment_inserted(initial_state(), a, c, b, 0);
}


/// An empty line is blank.
proof fn lemma_empty_line_blank(line: Seq<char>)
    ensures
        line.len() == 0 ==> classify_line(line) matches Ok(LineSyntax::Blank),
{
    if line.len() == 0 {
        lemma_span_len_facts(line, CharClass::Blank);
        assert(trim_start(line).len() == 0);
    }
}

proof fn lemma_parse_rest_error_line(st: ParseState, rest: Seq<char>, li: nat)
    requires
        li + rest.len() <= usize::MAX,
    ensures
        parse_rest(st, rest, li) matches Err(e) ==> li + 1 <= e.line <= li + rest.len(),
    decreases rest.len(),
{
    let k = span_len(rest, CharClass::Except('\n'));
    lemma_span_len_facts(rest, CharClass::Except('\n'));
    let line = strip_cr(rest.take(k as int));
    lemma_empty_line_blank(line);
    match add_line(st, line, li + 1) {
        Err(e) => {
            assert(line.len() <= k);
            assert(line.len() > 0);
        },
        Ok(next) => {
            if k < rest.len() {
                lemma_parse_rest_error_line(next, rest.skip(k + 1int), li + 1);
            }
        },
    }
}

/// An unreadable file is reported with the number of a line that it has:
/// at least 1, and no more than the number of its characters.
pub proof fn lemma_error_line_exists(input: Seq<char>)
    requires
        input.len() <= usize::MAX,
    ensures
        parse_pairs(input) matches Err(e) ==> 1 <= e.line <= input.len(),
{
    lemma_parse_rest_error_line(initial_state(), input, 0);
}


proof fn lemma_final_line_break(st: ParseState, a: Seq<char>, l: Seq<char>, li: nat)
    requires
        whole_lines(a),
        forall|i: int| 0 <= i < l.len() ==> l[i] != '\n',
    ensures
        parse_rest(st, a + l, li) == parse_rest(st, a + (l + seq!['\n']), li),
    decreases a.len(),
{
    let x = l + seq!['\n'];
    if a.len() == 0 {
        assert(a + l =~= l);
        assert(a + x =~= x);
        assert forall|j: int| 0 <= j < l.len() implies crate::text::in_class(
            CharClass::Except('\n'),
            #[trigger] l[j],
        ) by {}
        lemma_span_len_is(l, CharClass::Except('\n'), l.len() as int);
        assert forall|j: int| 0 <= j < l.len() implies crate::text::in_class(
            CharClass::Except('\n'),
            #[trigger] x[j],
        ) by {
            assert(x[j] == l[j]);
        }
        assert(x[l.len() as int] == '\n');
        lemma_span_len_is(x, CharClass::Except('\n'), l.len() as int);
        assert(l.take(l.len() as int) =~= l);
        assert(x.take(l.len() as int) =~= l);
        assert(x.skip(l.len() + 1int) =~= Seq::<char>::empty());
        let e = Seq::<char>::empty();
        lemma_span_len_is(e, CharClass::Except('\n'), 0);
        assert(e.take(0) =~= e);
        assert(strip_cr(e.take(0)) =~= e);
        lemma_empty_line_blank(e);
        if let Ok(next) = add_line(st, strip_cr(l), li + 1) {
            assert(add_line(next, strip_cr(e.take(0)), li + 2) == Ok::<ParseState, ParseError>(next));
            assert(parse_rest(next, e, li + 1) == Ok::<ParseState, ParseError>(next));
        }
    } else {
        lemma_span_len_facts(a, CharClass::Except('\n'));
        let k = span_len(a, CharClass::Except('\n')) as int;
        assert(k < a.len()) by {
            if k == a.len() {
                assert(crate::text::in_class(CharClass::Except('\n'), a[a.len() - 1]));
            }
        }
        let al = a + l;
        let ax = a + x;
        assert forall|j: int| 0 <= j < k implies crate::text::in_class(CharClass::Except('\n'), #[trigger] al[j]) by {
            assert(al[j] == a[j]);
        }
        assert forall|j: int| 0 <= j < k implies crate::text::in_class(CharClass::Except('\n'), #[trigger] ax[j]) by {
            assert(ax[j] == a[j]);
        }
        assert(al[k] == a[k]);
        assert(ax[k] == a[k]);
        lemma_span_len_is(al, CharClass::Except('\n'), k);
        lemma_span_len_is(ax, CharClass::Except('\n'), k);
        assert(al.take(k) =~= a.take(k));
        assert(ax.take(k) =~= a.take(k));
        let a2 = a.skip(k + 1);
        assert(al.skip(k + 1) =~= a2 + l);
        assert(ax.skip(k + 1) =~= a2 + x);
        if a2.len() > 0 {
            assert(a2.last() == a.last());
        }
        if let Ok(next) = add_line(st, strip_cr(a.take(k)), li + 1) {
            lemma_final_line_break(next, a2, l, li + 1);
        }
    }
}

/// The last line of a file is read whether or not a line break ends it:
/// a file and the same file with a line break added read alike.
pub proof fn lemma_final_line_read(a: Seq<char>, l: Seq<char>)
    requires
        whole_lines(a),
        forall|i: int| 0 <= i < l.len() ==> l[i] != '\n',
    ensures
        parse_pairs(a + l) == parse_pairs(a + (l + seq!['\n'])),
{
    lemma_final_line_break(initial_state(), a, l, 0);
}


/// What the payload of `?` asks for: digits alone ask for exactly their
/// number (negative after `-`), digits after `<` for a code below it, digits
/// after `>` for a code above it.
pub proof fn lemma_exit_code_payloads(d: Seq<char>)
    requires
        d.len() > 0,
        all_digits(d),
        decimal_value(d) <= i32::MAX,
    ensures
        exit_code_parts(d) == Some((ExitCodeModifier::Equals, decimal_value(d) as int)),
        exit_code_parts(seq!['<'] + d) == Some((ExitCodeModifier::LessThan, decimal_value(d) as int)),
        exit_code_parts(seq!['>'] + d) == Some((ExitCodeModifier::MoreThan, decimal_value(d) as int)),
        exit_code_parts(seq!['-'] + d) == Some((ExitCodeModifier::Equals, -(decimal_value(d) as int))),
{
    assert(crate::text::is_digit(d[0]));
    assert((seq!['<'] + d).drop_first() =~= d);
    assert((seq!['>'] + d).drop_first() =~= d);
    assert((seq!['-'] + d).drop_first() =~= d);
}

} // verus!
