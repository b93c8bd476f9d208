//! From the syntax of a `.test` file to its test suite, and the printable
//! parse tree.
use vstd::prelude::*;

use crate::common::{
    assignments_map, ExitCodeModifier, Instruction, InstructionView, ProcessID, TestCase,
    TestCaseView, TestSuite, TestSuiteView, Variables,
};
use crate::grammar::{
    is_ignored_line, lemma_ignored_lines, same_outcome, whole_lines, exit_code_parts, instruction_line, instruction_wf, is_identifier, launch_parts, parse_pairs,
    payload_error, InstructionSyntax, ParseError, ParsedInstruction, ParsedSuite, ParsedTestCase,
    ParsedVariable, SuiteSyntax, TestCaseSyntax, TestFileParser, VariableSyntax, suite_wf,
    test_case_wf,
};
use crate::text::{
    lemma_span_len_facts, lemma_span_len_is, span_len, CharClass, all_digits, append_all, append_spaces, append_str, chars_of, decimal_at_most, decimal_value,
    spaces, string_from, string_of,
};

verus! {

/// The kind of an instruction, as its identifier tells it.
#[derive(Clone, Copy, Debug, PartialEq, Eq, Structural)]
pub enum InstructionType {
    LaunchProcess,
    PutStdin,
    ExpectStdout,
    ExpectRegex,
    SendControlCharacter,
    ExpectExitCode,
}

/// The kind of instruction that the identifier `c` stands for.
pub open spec fn instruction_type_of(c: char) -> InstructionType {
    if c == '$' {
        InstructionType::LaunchProcess
    } else if c == '<' {
        InstructionType::PutStdin
    } else if c == '>' {
        InstructionType::ExpectStdout
    } else if c == 'r' {
        InstructionType::ExpectRegex
    } else if c == '^' {
        InstructionType::SendControlCharacter
    } else {
        InstructionType::ExpectExitCode
    }
}

/// The process that an instruction line addresses: its number, or 0 where it
/// has none.
pub open spec fn process_id_of(s: InstructionSyntax) -> ProcessID {
    match s.process_number {
        Some(d) => decimal_value(d) as u8,
        None => 0,
    }
}

/// The instruction that an instruction line stands for.
pub open spec fn instruction_of(s: InstructionSyntax) -> InstructionView {
    let process_id = process_id_of(s);
    match instruction_type_of(s.identifier) {
        InstructionType::LaunchProcess => {
            let (variable, string) = launch_parts(s.payload).unwrap();
            InstructionView::LaunchProcess { variable, string, process_id }
        },
        InstructionType::PutStdin => InstructionView::SendStdin { string: s.payload, process_id },
        InstructionType::ExpectStdout => InstructionView::ExpectStdout { string: s.payload, process_id },
        InstructionType::ExpectRegex => InstructionView::ExpectRegex { string: s.payload, process_id },
        InstructionType::SendControlCharacter => InstructionView::SendControlChar {
            character: s.payload[0],
            process_id,
        },
        InstructionType::ExpectExitCode => {
            let (modifier, exit_code) = exit_code_parts(s.payload).unwrap();
            InstructionView::ExpectExitCode { modifier, exit_code: exit_code as i32, process_id }
        },
    }
}

pub open spec fn test_case_of(c: TestCaseSyntax) -> TestCaseView {
    TestCaseView { name: c.name, instructions: c.instructions.map_values(|i: InstructionSyntax| instruction_of(i)) }
}

pub open spec fn variable_assignment(v: VariableSyntax) -> (Seq<char>, Seq<char>) {
    (v.name, v.value)
}

/// The name that every parsed suite gets.
pub open spec fn suite_name() -> Seq<char> {
    "hardcoded lol"@
}

/// The test suite that the syntax `s` stands for.
pub open spec fn suite_of(s: SuiteSyntax) -> TestSuiteView {
    TestSuiteView {
        name: suite_name(),
        test_cases: s.test_cases.map_values(|c: TestCaseSyntax| test_case_of(c)),
        variables: assignments_map(s.variables.map_values(|v: VariableSyntax| variable_assignment(v))),
    }
}

/// The test suite that the file `input` describes, or its first unreadable line.
pub open spec fn parse_result(input: Seq<char>) -> Result<TestSuiteView, ParseError> {
    match parse_pairs(input) {
        Ok(s) => Ok(suite_of(s)),
        Err(e) => Err(e),
    }
}

pub open spec fn suite_result_view(r: Result<TestSuite, ParseError>) -> Result<TestSuiteView, ParseError> {
    match r {
        Ok(t) => Ok(t@),
        Err(e) => Err(e),
    }
}

impl InstructionType {
    /// The kind of instruction that the identifier `c` stands for.
    pub fn parse_from(c: char) -> (t: InstructionType)
        requires
            is_identifier(c),
        ensures
            t == instruction_type_of(c),
    {
        if c == '$' {
            InstructionType::LaunchProcess
        } else if c == '<' {
            InstructionType::PutStdin
        } else if c == '>' {
            InstructionType::ExpectStdout
        } else if c == 'r' {
            InstructionType::ExpectRegex
        } else if c == '^' {
            InstructionType::SendControlCharacter
        } else {
            InstructionType::ExpectExitCode
        }
    }
}

impl Instruction {
    /// The instruction that a well-formed instruction line stands for.
    pub fn parse_from(pair: &ParsedInstruction) -> (i: Instruction)
        requires
            instruction_wf(pair@),
        ensures
            i@ == instruction_of(pair@),
    {
        let process_id: u8 = match &pair.process_number {
            Some(digits) => {
                let d = chars_of(digits.as_str());
                assert(d@.subrange(0, d@.len() as int) =~= d@);
                match decimal_at_most(&d, 0, d.len(), 255) {
                    Some(v) => v as u8,
                    None => 0,
                }
            },
            None => 0,
        };
        let payload = chars_of(pair.payload.as_str());
        let len = payload.len();
        assert(payload@.subrange(0, len as int) =~= payload@);
        match InstructionType::parse_from(pair.identifier) {
            InstructionType::LaunchProcess => {
                match read_launch(&payload) {
                    Some((variable, string)) => Instruction::LaunchProcess { variable, string, process_id },
                    None => {
                        proof {
                            assert(false);
                        }
                        Instruction::LaunchProcess { variable: None, string: pair.payload.clone(), process_id }
                    },
                }
            },
            InstructionType::PutStdin => Instruction::SendStdin { string: pair.payload.clone(), process_id },
            InstructionType::ExpectStdout => Instruction::ExpectStdout { string: pair.payload.clone(), process_id },
            InstructionType::ExpectRegex => Instruction::ExpectRegex { string: pair.payload.clone(), process_id },
            InstructionType::SendControlCharacter => {
                Instruction::SendControlChar { character: payload[0], process_id }
            },
            InstructionType::ExpectExitCode => {
                match crate::grammar::read_exit_code(&payload, 0, len) {
                    Some((modifier, exit_code)) => Instruction::ExpectExitCode { modifier, exit_code, process_id },
                    None => {
                        proof {
                            assert(false);
                        }
                        Instruction::ExpectExitCode { modifier: ExitCodeModifier::Equals, exit_code: 0, process_id }
                    },
                }
            },
        }
    }
}

/// The variable and the command of the `$` payload `payload`.
fn read_launch(payload: &Vec<char>) -> (r: Option<(Option<String>, String)>)
    ensures
        match r {
            Some((v, c)) => launch_parts(payload@) == Some((crate::common::option_view(v), c@)),
            None => launch_parts(payload@) is None,
        },
{
    let len = payload.len();
    assert(payload@.subrange(0, len as int) =~= payload@);
    match crate::grammar::read_launch_parts(payload, 0, len) {
        None => None,
        Some((var, cmd)) => {
            let variable = match var {
                Some((a, b)) => Some(string_of(payload, a, b)),
                None => None,
            };
            Some((variable, string_of(payload, cmd, len)))
        },
    }
}

impl TestCase {
    /// The test case that a well-formed test case syntax stands for.
    pub fn parse_from(pair: &ParsedTestCase) -> (c: TestCase)
        requires
            test_case_wf(pair@),
        ensures
            c@ == test_case_of(pair@),
    {
        let mut instructions: Vec<Instruction> = Vec::new();
        let n = pair.instructions.len();
        let mut i: usize = 0;
        while i < n
            invariant
                n == pair.instructions@.len(),
                i <= n,
                test_case_wf(pair@),
                instructions@.map_values(|x: Instruction| x@) =~= pair@.instructions.take(i as int).map_values(
                    |s: InstructionSyntax| instruction_of(s),
                ),
            decreases n - i,
        {
            assert(pair@.instructions[i as int] == pair.instructions@[i as int]@);
            let ins = Instruction::parse_from(&pair.instructions[i]);
            let ghost prev = instructions@;
            instructions.push(ins);
            proof {
                let f = |x: Instruction| x@;
                let g = |s: InstructionSyntax| instruction_of(s);
                assert(instructions@.map_values(f) =~= prev.map_values(f).push(ins@));
                assert(pair@.instructions.take(i + 1).map_values(g) =~= pair@.instructions.take(
                    i as int,
                ).map_values(g).push(g(pair@.instructions[i as int])));
            }
            i = i + 1;
        }
        assert(pair@.instructions.take(n as int) =~= pair@.instructions);
        TestCase { name: pair.name.clone(), instructions }
    }
}

impl TestSuite {
    /// The test suite that a well-formed file syntax stands for.
    pub fn parse_from(pair: &ParsedSuite) -> (t: TestSuite)
        requires
            suite_wf(pair@),
        ensures
            t@ == suite_of(pair@),
    {
        let mut test_cases: Vec<TestCase> = Vec::new();
        let n = pair.test_cases.len();
        let mut i: usize = 0;
        while i < n
            invariant
                n == pair.test_cases@.len(),
                i <= n,
                suite_wf(pair@),
                test_cases@.map_values(|x: TestCase| x@) =~= pair@.test_cases.take(i as int).map_values(
                    |s: TestCaseSyntax| test_case_of(s),
                ),
            decreases n - i,
        {
            assert(pair@.test_cases[i as int] == pair.test_cases@[i as int]@);
            let case = TestCase::parse_from(&pair.test_cases[i]);
            let ghost prev = test_cases@;
            test_cases.push(case);
            proof {
                let f = |x: TestCase| x@;
                let g = |s: TestCaseSyntax| test_case_of(s);
                assert(test_cases@.map_values(f) =~= prev.map_values(f).push(case@));
                assert(pair@.test_cases.take(i + 1).map_values(g) =~= pair@.test_cases.take(
                    i as int,
                ).map_values(g).push(g(pair@.test_cases[i as int])));
            }
            i = i + 1;
        }
        assert(pair@.test_cases.take(n as int) =~= pair@.test_cases);
        let ghost assigned = pair@.variables.map_values(|v: VariableSyntax| variable_assignment(v));
        let mut variables = Variables::new();
        let m = pair.variables.len();
        let mut j: usize = 0;
        assert(assigned.take(0) =~= Seq::<(Seq<char>, Seq<char>)>::empty());
        while j < m
            invariant
                m == pair.variables@.len(),
                j <= m,
                assigned == pair@.variables.map_values(|v: VariableSyntax| variable_assignment(v)),
                variables@ == assignments_map(assigned.take(j as int)),
            decreases m - j,
        {
            let v = &pair.variables[j];
            assert(assigned[j as int] == (v.name@, v.value@));
            variables.set(v.name.clone(), v.value.clone());
            j = j + 1;
            assert(assigned.take(j as int).drop_last() =~= assigned.take(j - 1));
        }
        assert(assigned.take(m as int) =~= assigned);
        TestSuite { name: "hardcoded lol".to_owned(), test_cases, variables }
    }
}


/// Reads the file `input` into its test suite, or reports its first
/// unreadable line.
pub fn parse_to_ast(input: &str) -> (r: Result<TestSuite, ParseError>)
    ensures
        suite_result_view(r) == parse_result(input@),
{
    let pairs = TestFileParser::parse(input)?;
    proof {
        crate::grammar::lemma_parse_pairs_wf(input@);
    }
    Ok(TestSuite::parse_from(&pairs))
}

/// Reads the file `input` into its test suite, or reports its first
/// unreadable line.
pub fn parse(input: &str) -> (r: Result<TestSuite, ParseError>)
    ensures
        suite_result_view(r) == parse_result(input@),
{
    parse_to_ast(input)
}


/// The nodes of the parse tree.
#[derive(Clone, Copy, Debug, PartialEq, Eq, Structural)]
pub enum Rule {
    TestSuite,
    VariableDefinition,
    VariableName,
    VariableValue,
    TestCase,
    TestCaseName,
    Instruction,
    ProcessNumber,
    InstructionIdentifier,
    IdentifierLaunch,
    IdentifierStdin,
    IdentifierStdout,
    IdentifierRegex,
    IdentifierControlChar,
    IdentifierExitCode,
    Payload,
}

pub open spec fn rule_name(r: Rule) -> Seq<char> {
    match r {
        Rule::TestSuite => "TestSuite"@,
        Rule::VariableDefinition => "VariableDefinition"@,
        Rule::VariableName => "VariableName"@,
        Rule::VariableValue => "VariableValue"@,
        Rule::TestCase => "TestCase"@,
        Rule::TestCaseName => "TestCaseName"@,
        Rule::Instruction => "Instruction"@,
        Rule::ProcessNumber => "ProcessNumber"@,
        Rule::InstructionIdentifier => "InstructionIdentifier"@,
        Rule::IdentifierLaunch => "IdentifierLaunch"@,
        Rule::IdentifierStdin => "IdentifierStdin"@,
        Rule::IdentifierStdout => "IdentifierStdout"@,
        Rule::IdentifierRegex => "IdentifierRegex"@,
        Rule::IdentifierControlChar => "IdentifierControlChar"@,
        Rule::IdentifierExitCode => "IdentifierExitCode"@,
        Rule::Payload => "Payload"@,
    }
}

impl Rule {
    /// The name of the rule, as the tree shows it.
    pub fn name(&self) -> (s: &'static str)
        ensures
            s@ == rule_name(*self),
    {
        match self {
            Rule::TestSuite => "TestSuite",
            Rule::VariableDefinition => "VariableDefinition",
            Rule::VariableName => "VariableName",
            Rule::VariableValue => "VariableValue",
            Rule::TestCase => "TestCase",
            Rule::TestCaseName => "TestCaseName",
            Rule::Instruction => "Instruction",
            Rule::ProcessNumber => "ProcessNumber",
            Rule::InstructionIdentifier => "InstructionIdentifier",
            Rule::IdentifierLaunch => "IdentifierLaunch",
            Rule::IdentifierStdin => "IdentifierStdin",
            Rule::IdentifierStdout => "IdentifierStdout",
            Rule::IdentifierRegex => "IdentifierRegex",
            Rule::IdentifierControlChar => "IdentifierControlChar",
            Rule::IdentifierExitCode => "IdentifierExitCode",
            Rule::Payload => "Payload",
        }
    }
}

/// The rule of the identifier `c`.
pub open spec fn identifier_rule(c: char) -> Rule {
    match instruction_type_of(c) {
        InstructionType::LaunchProcess => Rule::IdentifierLaunch,
        InstructionType::PutStdin => Rule::IdentifierStdin,
        InstructionType::ExpectStdout => Rule::IdentifierStdout,
        InstructionType::ExpectRegex => Rule::IdentifierRegex,
        InstructionType::SendControlCharacter => Rule::IdentifierControlChar,
        InstructionType::ExpectExitCode => Rule::IdentifierExitCode,
    }
}

/// One line of the tree: two spaces per level of depth, the rule's name and,
/// for a leaf, `: ` and its text.
pub open spec fn tree_line(depth: nat, rule: Rule, leaf: Option<Seq<char>>) -> Seq<char> {
    spaces(2 * depth) + rule_name(rule) + match leaf {
        Some(text) => seq![':', ' '] + text,
        None => Seq::empty(),
    } + seq!['\n']
}

/// The texts of `parts`, one after the other.
pub open spec fn concat_all(parts: Seq<Seq<char>>) -> Seq<char>
    decreases parts.len(),
{
    if parts.len() == 0 {
        Seq::empty()
    } else {
        concat_all(parts.drop_last()) + parts.last()
    }
}

pub open spec fn render_variable(v: VariableSyntax) -> Seq<char> {
    tree_line(1, Rule::VariableDefinition, None) + tree_line(2, Rule::VariableName, Some(v.name))
        + tree_line(2, Rule::VariableValue, Some(v.value))
}

pub open spec fn render_instruction(i: InstructionSyntax) -> Seq<char> {
    tree_line(2, Rule::Instruction, None) + match i.process_number {
        Some(d) => tree_line(3, Rule::ProcessNumber, Some(d)),
        None => Seq::empty(),
    } + tree_line(3, Rule::InstructionIdentifier, None) + tree_line(
        4,
        identifier_rule(i.identifier),
        Some(seq![i.identifier]),
    ) + tree_line(3, Rule::Payload, Some(i.payload))
}

pub open spec fn render_test_case(c: TestCaseSyntax) -> Seq<char> {
    tree_line(1, Rule::TestCase, None) + tree_line(2, Rule::TestCaseName, Some(c.name)) + concat_all(
        c.instructions.map_values(|i: InstructionSyntax| render_instruction(i)),
    )
}

/// The parse tree of a file, one node per line, children below their
/// parent and indented one level deeper.
pub open spec fn render_suite(s: SuiteSyntax) -> Seq<char> {
    tree_line(0, Rule::TestSuite, None) + concat_all(
        s.variables.map_values(|v: VariableSyntax| render_variable(v)),
    ) + concat_all(s.test_cases.map_values(|c: TestCaseSyntax| render_test_case(c)))
}

/// A node of the parse tree: its rule, its text and its children, in order.
/// Only the text of a node without children is shown; the inner nodes of a
/// file's tree carry no text of their own, but for the root, whose text is
/// the whole file.
pub struct TreeNode {
    pub rule: Rule,
    pub text: Seq<char>,
    pub children: Seq<TreeNode>,
}

/// A node and, below it, its children one level deeper: a line for the node
/// (with `: ` and its text where it has no children), then its children in
/// order.
pub open spec fn render_node(n: TreeNode, depth: nat) -> Seq<char>
    decreases n, 1nat,
{
    tree_line(
        depth,
        n.rule,
        if n.children.len() == 0 {
            Some(n.text)
        } else {
            None
        },
    ) + render_forest(n.children, depth + 1)
}

/// The nodes `ns`, one after the other, each at `depth`.
pub open spec fn render_forest(ns: Seq<TreeNode>, depth: nat) -> Seq<char>
    decreases ns, 0nat,
{
    if ns.len() == 0 {
        Seq::empty()
    } else {
        render_forest(ns.drop_last(), depth) + render_node(ns.last(), depth)
    }
}

pub open spec fn leaf(rule: Rule, text: Seq<char>) -> TreeNode {
    TreeNode { rule, text, children: Seq::empty() }
}

pub open spec fn variable_node(v: VariableSyntax) -> TreeNode {
    TreeNode {
        rule: Rule::VariableDefinition,
        text: Seq::empty(),
        children: seq![leaf(Rule::VariableName, v.name), leaf(Rule::VariableValue, v.value)],
    }
}

pub open spec fn process_number_nodes(i: InstructionSyntax) -> Seq<TreeNode> {
    match i.process_number {
        Some(d) => seq![leaf(Rule::ProcessNumber, d)],
        None => Seq::empty(),
    }
}

pub open spec fn identifier_node(i: InstructionSyntax) -> TreeNode {
    TreeNode {
        rule: Rule::InstructionIdentifier,
        text: Seq::empty(),
        children: seq![leaf(identifier_rule(i.identifier), seq![i.identifier])],
    }
}

pub open spec fn instruction_node(i: InstructionSyntax) -> TreeNode {
    TreeNode {
        rule: Rule::Instruction,
        text: Seq::empty(),
        children: process_number_nodes(i) + seq![identifier_node(i), leaf(Rule::Payload, i.payload)],
    }
}

pub open spec fn test_case_node(c: TestCaseSyntax) -> TreeNode {
    TreeNode {
        rule: Rule::TestCase,
        text: Seq::empty(),
        children: seq![leaf(Rule::TestCaseName, c.name)] + c.instructions.map_values(
            |i: InstructionSyntax| instruction_node(i),
        ),
    }
}

/// The parse tree of the file `input`, whose syntax is `s`.
pub open spec fn parse_tree(s: SuiteSyntax, input: Seq<char>) -> TreeNode {
    TreeNode {
        rule: Rule::TestSuite,
        text: input,
        children: s.variables.map_values(|v: VariableSyntax| variable_node(v)) + s.test_cases.map_values(
            |c: TestCaseSyntax| test_case_node(c),
        ),
    }
}

/// The tree text of a file: its root alone, with the file's text, where it
/// has neither variables nor test cases.
pub open spec fn render_file(s: SuiteSyntax, input: Seq<char>) -> Seq<char> {
    if s.variables.len() == 0 && s.test_cases.len() == 0 {
        tree_line(0, Rule::TestSuite, Some(input))
    } else {
        render_suite(s)
    }
}

proof fn lemma_render_leaf(rule: Rule, text: Seq<char>, depth: nat)
    ensures
        render_node(leaf(rule, text), depth) == tree_line(depth, rule, Some(text)),
{
    assert(render_forest(Seq::<TreeNode>::empty(), depth + 1) == Seq::<char>::empty());
    assert(render_node(leaf(rule, text), depth) =~= tree_line(depth, rule, Some(text)));
}

proof fn lemma_render_pair(x: TreeNode, y: TreeNode, depth: nat)
    ensures
        render_forest(seq![x, y], depth) == render_node(x, depth) + render_node(y, depth),
{
    assert(seq![x, y].drop_last() =~= seq![x]);
    assert(seq![x].drop_last() =~= Seq::<TreeNode>::empty());
    assert(seq![x].last() == x);
    assert(render_forest(Seq::<TreeNode>::empty(), depth) == Seq::<char>::empty());
    assert(render_forest(seq![x], depth) =~= render_node(x, depth));
}

proof fn lemma_render_single(x: TreeNode, depth: nat)
    ensures
        render_forest(seq![x], depth) == render_node(x, depth),
{
    assert(seq![x].drop_last() =~= Seq::<TreeNode>::empty());
    assert(seq![x].last() == x);
    assert(render_forest(Seq::<TreeNode>::empty(), depth) == Seq::<char>::empty());
    assert(render_forest(seq![x], depth) =~= render_node(x, depth));
}

proof fn lemma_render_forest_concat(a: Seq<TreeNode>, b: Seq<TreeNode>, depth: nat)
    ensures
        render_forest(a + b, depth) == render_forest(a, depth) + render_forest(b, depth),
    decreases b.len(),
{
    if b.len() == 0 {
        assert(a + b =~= a);
        assert(render_forest(a, depth) + render_forest(b, depth) =~= render_forest(a, depth));
    } else {
        assert((a + b).drop_last() =~= a + b.drop_last());
        assert((a + b).last() == b.last());
        lemma_render_forest_concat(a, b.drop_last(), depth);
        assert(render_forest(a + b, depth) =~= render_forest(a, depth) + render_forest(b, depth));
    }
}

proof fn lemma_render_variable_node(v: VariableSyntax)
    ensures
        render_node(variable_node(v), 1) == render_variable(v),
{
    lemma_render_pair(leaf(Rule::VariableName, v.name), leaf(Rule::VariableValue, v.value), 2);
    lemma_render_leaf(Rule::VariableName, v.name, 2);
    lemma_render_leaf(Rule::VariableValue, v.value, 2);
    assert(render_node(variable_node(v), 1) =~= render_variable(v));
}

proof fn lemma_render_instruction_node(i: InstructionSyntax)
    ensures
        render_node(instruction_node(i), 2) == render_instruction(i),
{
    let id = identifier_node(i);
    let pay = leaf(Rule::Payload, i.payload);
    lemma_render_forest_concat(process_number_nodes(i), seq![id, pay], 3);
    lemma_render_pair(id, pay, 3);
    lemma_render_single(leaf(identifier_rule(i.identifier), seq![i.identifier]), 4);
    lemma_render_leaf(identifier_rule(i.identifier), seq![i.identifier], 4);
    lemma_render_leaf(Rule::Payload, i.payload, 3);
    let pn_text = match i.process_number {
        Some(d) => tree_line(3, Rule::ProcessNumber, Some(d)),
        None => Seq::empty(),
    };
    match i.process_number {
        Some(d) => {
            lemma_render_single(leaf(Rule::ProcessNumber, d), 3);
            lemma_render_leaf(Rule::ProcessNumber, d, 3);
        },
        None => {
            assert(render_forest(process_number_nodes(i), 3) =~= Seq::<char>::empty());
        },
    }
    assert(render_forest(process_number_nodes(i), 3) == pn_text);
    assert(render_node(id, 3) =~= tree_line(3, Rule::InstructionIdentifier, None) + tree_line(
        4,
        identifier_rule(i.identifier),
        Some(seq![i.identifier]),
    ));
    assert(instruction_node(i).children.len() >= 2);
    assert(render_node(instruction_node(i), 2) =~= render_instruction(i));
}

proof fn lemma_render_instructions(is: Seq<InstructionSyntax>)
    ensures
        render_forest(is.map_values(|i: InstructionSyntax| instruction_node(i)), 2) == concat_all(
            is.map_values(|i: InstructionSyntax| render_instruction(i)),
        ),
    decreases is.len(),
{
    let f = |i: InstructionSyntax| instruction_node(i);
    let g = |i: InstructionSyntax| render_instruction(i);
    if is.len() == 0 {
        assert(is.map_values(f) =~= Seq::<TreeNode>::empty());
        assert(is.map_values(g) =~= Seq::<Seq<char>>::empty());
    } else {
        lemma_render_instructions(is.drop_last());
        assert(is.map_values(f).drop_last() =~= is.drop_last().map_values(f));
        assert(is.map_values(g).drop_last() =~= is.drop_last().map_values(g));
        lemma_render_instruction_node(is.last());
    }
}

proof fn lemma_render_test_case_node(c: TestCaseSyntax)
    ensures
        render_node(test_case_node(c), 1) == render_test_case(c),
{
    let name = leaf(Rule::TestCaseName, c.name);
    let rest = c.instructions.map_values(|i: InstructionSyntax| instruction_node(i));
    lemma_render_forest_concat(seq![name], rest, 2);
    lemma_render_single(name, 2);
    lemma_render_leaf(Rule::TestCaseName, c.name, 2);
    lemma_render_instructions(c.instructions);
    assert(test_case_node(c).children.len() >= 1);
    assert(render_node(test_case_node(c), 1) =~= render_test_case(c));
}

proof fn lemma_render_variables(vs: Seq<VariableSyntax>)
    ensures
        render_forest(vs.map_values(|v: VariableSyntax| variable_node(v)), 1) == concat_all(
            vs.map_values(|v: VariableSyntax| render_variable(v)),
        ),
    decreases vs.len(),
{
    let f = |v: VariableSyntax| variable_node(v);
    let g = |v: VariableSyntax| render_variable(v);
    if vs.len() == 0 {
        assert(vs.map_values(f) =~= Seq::<TreeNode>::empty());
        assert(vs.map_values(g) =~= Seq::<Seq<char>>::empty());
    } else {
        lemma_render_variables(vs.drop_last());
        assert(vs.map_values(f).drop_last() =~= vs.drop_last().map_values(f));
        assert(vs.map_values(g).drop_last() =~= vs.drop_last().map_values(g));
        lemma_render_variable_node(vs.last());
    }
}

proof fn lemma_render_test_cases(cs: Seq<TestCaseSyntax>)
    ensures
        render_forest(cs.map_values(|c: TestCaseSyntax| test_case_node(c)), 1) == concat_all(
            cs.map_values(|c: TestCaseSyntax| render_test_case(c)),
        ),
    decreases cs.len(),
{
    let f = |c: TestCaseSyntax| test_case_node(c);
    let g = |c: TestCaseSyntax| render_test_case(c);
    if cs.len() == 0 {
        assert(cs.map_values(f) =~= Seq::<TreeNode>::empty());
        assert(cs.map_values(g) =~= Seq::<Seq<char>>::empty());
    } else {
        lemma_render_test_cases(cs.drop_last());
        assert(cs.map_values(f).drop_last() =~= cs.drop_last().map_values(f));
        assert(cs.map_values(g).drop_last() =~= cs.drop_last().map_values(g));
        lemma_render_test_case_node(cs.last());
    }
}

/// The tree text of a file is its parse tree, rendered by the general rule:
/// one line per node in pre-order, two spaces of indentation per level, and
/// `: ` and the text after each node without children.
pub proof fn lemma_render_file_is_tree(s: SuiteSyntax, input: Seq<char>)
    ensures
        render_file(s, input) == render_node(parse_tree(s, input), 0),
{
    let vn = s.variables.map_values(|v: VariableSyntax| variable_node(v));
    let cn = s.test_cases.map_values(|c: TestCaseSyntax| test_case_node(c));
    lemma_render_forest_concat(vn, cn, 1);
    lemma_render_variables(s.variables);
    lemma_render_test_cases(s.test_cases);
    if s.variables.len() == 0 && s.test_cases.len() == 0 {
        assert(vn + cn =~= Seq::<TreeNode>::empty());
        assert(render_forest(Seq::<TreeNode>::empty(), 1) == Seq::<char>::empty());
        assert(render_node(parse_tree(s, input), 0) =~= render_file(s, input));
    } else {
        assert((vn + cn).len() > 0);
        assert(render_node(parse_tree(s, input), 0) =~= render_file(s, input));
    }
}

fn push_tree_line(out: &mut Vec<char>, depth: usize, rule: Rule, leaf: Option<&String>)
    requires
        depth <= 4,
    ensures
        final(out)@ == old(out)@ + tree_line(depth as nat, rule, match leaf {
            Some(t) => Some(t@),
            None => None,
        }),
{
    append_spaces(out, 2 * depth);
    append_str(out, rule.name());
    match leaf {
        Some(text) => {
            out.push(':');
            out.push(' ');
            append_str(out, text.as_str());
        },
        None => {},
    }
    out.push('\n');
    proof {
        let leaf_view = match leaf {
            Some(t) => Some(t@),
            None => None,
        };
        assert(out@ =~= old(out)@ + tree_line(depth as nat, rule, leaf_view));
    }
}

fn identifier_rule_exec(c: char) -> (r: Rule)
    ensures
        r == identifier_rule(c),
{
    if c == '$' {
        Rule::IdentifierLaunch
    } else if c == '<' {
        Rule::IdentifierStdin
    } else if c == '>' {
        Rule::IdentifierStdout
    } else if c == 'r' {
        Rule::IdentifierRegex
    } else if c == '^' {
        Rule::IdentifierControlChar
    } else {
        Rule::IdentifierExitCode
    }
}

fn render_instruction_into(out: &mut Vec<char>, i: &ParsedInstruction)
    ensures
        final(out)@ == old(out)@ + render_instruction(i@),
{
    push_tree_line(out, 2, Rule::Instruction, None);
    match &i.process_number {
        Some(d) => push_tree_line(out, 3, Rule::ProcessNumber, Some(d)),
        None => {},
    }
    push_tree_line(out, 3, Rule::InstructionIdentifier, None);
    let mut id = String::new();
    crate::text::push_char(&mut id, i.identifier);
    assert(id@ =~= seq![i.identifier]);
    push_tree_line(out, 4, identifier_rule_exec(i.identifier), Some(&id));
    push_tree_line(out, 3, Rule::Payload, Some(&i.payload));
    assert(out@ =~= old(out)@ + render_instruction(i@));
}

fn render_test_case_into(out: &mut Vec<char>, c: &ParsedTestCase)
    ensures
        final(out)@ == old(out)@ + render_test_case(c@),
{
    push_tree_line(out, 1, Rule::TestCase, None);
    push_tree_line(out, 2, Rule::TestCaseName, Some(&c.name));
    let ghost head = out@;
    let ghost parts = c@.instructions.map_values(|i: InstructionSyntax| render_instruction(i));
    let n = c.instructions.len();
    let mut j: usize = 0;
    assert(parts.take(0) =~= Seq::<Seq<char>>::empty());
    assert(head =~= head + concat_all(parts.take(0)));
    while j < n
        invariant
            n == c.instructions@.len(),
            j <= n,
            parts == c@.instructions.map_values(|i: InstructionSyntax| render_instruction(i)),
            out@ == head + concat_all(parts.take(j as int)),
        decreases n - j,
    {
        render_instruction_into(out, &c.instructions[j]);
        assert(parts.take(j + 1).drop_last() =~= parts.take(j as int));
        assert(parts[j as int] == render_instruction(c.instructions@[j as int]@));
        j = j + 1;
        assert(out@ =~= head + concat_all(parts.take(j as int)));
    }
    assert(parts.take(n as int) =~= parts);
    assert(out@ =~= old(out)@ + render_test_case(c@));
}

fn render_suite_into(out: &mut Vec<char>, s: &ParsedSuite)
    ensures
        final(out)@ == old(out)@ + render_suite(s@),
{
    push_tree_line(out, 0, Rule::TestSuite, None);
    let ghost head = out@;
    let ghost vparts = s@.variables.map_values(|v: VariableSyntax| render_variable(v));
    let m = s.variables.len();
    let mut j: usize = 0;
    assert(vparts.take(0) =~= Seq::<Seq<char>>::empty());
    assert(head =~= head + concat_all(vparts.take(0)));
    while j < m
        invariant
            m == s.variables@.len(),
            j <= m,
            vparts == s@.variables.map_values(|v: VariableSyntax| render_variable(v)),
            out@ == head + concat_all(vparts.take(j as int)),
        decreases m - j,
    {
        let v = &s.variables[j];
        push_tree_line(out, 1, Rule::VariableDefinition, None);
        push_tree_line(out, 2, Rule::VariableName, Some(&v.name));
        push_tree_line(out, 2, Rule::VariableValue, Some(&v.value));
        assert(vparts.take(j + 1).drop_last() =~= vparts.take(j as int));
        assert(vparts[j as int] == render_variable(s.variables@[j as int]@));
        j = j + 1;
        assert(out@ =~= head + concat_all(vparts.take(j as int)));
    }
    assert(vparts.take(m as int) =~= vparts);
    let ghost mid = out@;
    let ghost cparts = s@.test_cases.map_values(|c: TestCaseSyntax| render_test_case(c));
    let n = s.test_cases.len();
    let mut i: usize = 0;
    assert(cparts.take(0) =~= Seq::<Seq<char>>::empty());
    assert(mid =~= mid + concat_all(cparts.take(0)));
    while i < n
        invariant
            n == s.test_cases@.len(),
            i <= n,
            cparts == s@.test_cases.map_values(|c: TestCaseSyntax| render_test_case(c)),
            out@ == mid + concat_all(cparts.take(i as int)),
        decreases n - i,
    {
        render_test_case_into(out, &s.test_cases[i]);
        assert(cparts.take(i + 1).drop_last() =~= cparts.take(i as int));
        assert(cparts[i as int] == render_test_case(s.test_cases@[i as int]@));
        i = i + 1;
        assert(out@ =~= mid + concat_all(cparts.take(i as int)));
    }
    assert(cparts.take(n as int) =~= cparts);
    assert(out@ =~= old(out)@ + render_suite(s@));
}

/// The parse tree of the file `input`, as text to be printed: one node per
/// line, indented two spaces per level, leaves followed by `: ` and their
/// text. Reports the first unreadable line instead where there is one.
pub fn print_tree(input: &str) -> (r: Result<String, ParseError>)
    ensures
        match r {
            Ok(text) => parse_pairs(input@) matches Ok(s) && text@ == render_node(parse_tree(s, input@), 0),
            Err(e) => parse_pairs(input@) == Err::<SuiteSyntax, ParseError>(e),
        },
{
    let pairs = TestFileParser::parse(input)?;
    let mut out: Vec<char> = Vec::new();
    if pairs.variables.len() == 0 && pairs.test_cases.len() == 0 {
        let whole = input.to_owned();
        push_tree_line(&mut out, 0, Rule::TestSuite, Some(&whole));
    } else {
        render_suite_into(&mut out, &pairs);
    }
    assert(out@ =~= render_file(pairs@, input@));
    proof {
        lemma_render_file_is_tree(pairs@, input@);
    }
    Ok(string_from(&out))
}


/// Blank and comment lines are ignored: inserting one between whole lines of
/// a file leaves its test suite unchanged (but for the line numbers in errors).
pub proof fn lemma_ignored_lines_in_suite(a: Seq<char>, c: Seq<char>, b: Seq<char>)
    requires
        whole_lines(a),
        is_ignored_line(c),
    ensures
        same_outcome(parse_result(a + (c + seq!['\n'] + b)), parse_result(a + b)),
{
    lemma_ignored_lines(a, c, b);
}

/// An instruction without a process number is addressed to process 0: the
/// line `t` and the line `0t` stand for the same instruction, and one is
/// rejected exactly where the other is, for the same reason.
pub proof fn lemma_default_process_zero(t: Seq<char>)
    requires
        t.len() > 0,
        is_identifier(t[0]),
    ensures
        match (instruction_line(seq!['0'] + t), instruction_line(t)) {
            (Ok(i0), Ok(i)) => instruction_of(i0) == instruction_of(i),
            (Err(e0), Err(e)) => e0 == e,
            _ => false,
        },
{
    let z = seq!['0'] + t;
    assert(!crate::text::is_digit(t[0]));
    lemma_span_len_is(t, CharClass::Digit, 0);
    assert(z[1] == t[0]);
    assert(crate::text::in_class(CharClass::Digit, z[0]));
    lemma_span_len_is(z, CharClass::Digit, 1);
    assert(z.take(1) =~= seq!['0']);
    let zero = seq!['0'];
    assert(zero.drop_last() =~= Seq::<char>::empty());
    assert(zero.last() == '0');
    assert(decimal_value(Seq::<char>::empty()) == 0);
    assert(decimal_value(zero) == 0);
    assert(z.skip(2) =~= t.skip(1));
}


/// Reading a file into its test suite and printing its tree succeed on the
/// same files and report the same unreadable line.
pub proof fn lemma_tree_and_suite_agree(input: Seq<char>)
    ensures
        parse_result(input) is Ok <==> parse_pairs(input) is Ok,
        parse_result(input) matches Err(e) ==> parse_pairs(input) == Err::<SuiteSyntax, ParseError>(e),
{
}


/// Each identifier is shown in the tree under the rule of its kind: `$`
/// launches, `<` writes to standard input, `>` expects standard output, `r`
/// expects a match, `^` sends a control character, `?` checks an exit code.
pub proof fn lemma_identifier_rules()
    ensures
        identifier_rule('$') == Rule::IdentifierLaunch,
        identifier_rule('<') == Rule::IdentifierStdin,
        identifier_rule('>') == Rule::IdentifierStdout,
        identifier_rule('r') == Rule::IdentifierRegex,
        identifier_rule('^') == Rule::IdentifierControlChar,
        identifier_rule('?') == Rule::IdentifierExitCode,
{
}

/// The identifier of an instruction line decides its instruction: `<` writes
/// the payload to the input of its process, `>` expects the payload, `r`
/// expects a match of the payload, `^` sends the payload's one character, and
/// the rule that the tree shows for the identifier names that same kind.
pub proof fn lemma_identifier_decides_instruction(s: InstructionSyntax)
    requires
        instruction_wf(s),
    ensures
        s.identifier == '<' ==> instruction_of(s) == (InstructionView::SendStdin {
            string: s.payload,
            process_id: process_id_of(s),
        }),
        s.identifier == '>' ==> instruction_of(s) == (InstructionView::ExpectStdout {
            string: s.payload,
            process_id: process_id_of(s),
        }),
        s.identifier == 'r' ==> instruction_of(s) == (InstructionView::ExpectRegex {
            string: s.payload,
            process_id: process_id_of(s),
        }),
        s.identifier == '^' ==> instruction_of(s) == (InstructionView::SendControlChar {
            character: s.payload[0],
            process_id: process_id_of(s),
        }),
        s.identifier == '$' ==> instruction_of(s) is LaunchProcess,
        s.identifier == '?' ==> instruction_of(s) is ExpectExitCode,
        (identifier_rule(s.identifier) == Rule::IdentifierLaunch) == (instruction_of(s) is LaunchProcess),
        (identifier_rule(s.identifier) == Rule::IdentifierStdin) == (instruction_of(s) is SendStdin),
        (identifier_rule(s.identifier) == Rule::IdentifierStdout) == (instruction_of(s) is ExpectStdout),
        (identifier_rule(s.identifier) == Rule::IdentifierRegex) == (instruction_of(s) is ExpectRegex),
        (identifier_rule(s.identifier) == Rule::IdentifierControlChar) == (instruction_of(s) is SendControlChar),
        (identifier_rule(s.identifier) == Rule::IdentifierExitCode) == (instruction_of(s) is ExpectExitCode),
        instruction_of(s).process_id() == process_id_of(s),
{
}

} // verus!
