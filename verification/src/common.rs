//! The test suite model: suites, test cases, instructions and variables.
use vstd::prelude::*;

verus! {

pub type ProcessID = u8;

pub type ExitCode = i32;

/// How an expected exit code is compared with the actual one.
#[derive(Clone, Copy, Debug, PartialEq, Eq, Structural)]
pub enum ExitCodeModifier {
    Equals,
    LessThan,
    MoreThan,
}

/// Whether the exit code `actual` passes the check `modifier expected`.
pub open spec fn exit_code_passes(modifier: ExitCodeModifier, actual: int, expected: int) -> bool {
    match modifier {
        ExitCodeModifier::Equals => actual == expected,
        ExitCodeModifier::LessThan => actual < expected,
        ExitCodeModifier::MoreThan => actual > expected,
    }
}

impl ExitCodeModifier {
    /// Whether the exit code `actual` passes this check against `expected`.
    pub fn passes(&self, actual: ExitCode, expected: ExitCode) -> (b: bool)
        ensures
            b == exit_code_passes(*self, actual as int, expected as int),
    {
        match self {
            ExitCodeModifier::Equals => actual == expected,
            ExitCodeModifier::LessThan => actual < expected,
            ExitCodeModifier::MoreThan => actual > expected,
        }
    }
}

/// A single step of a test case, addressed to one of its processes.
#[derive(Debug, Clone)]
pub enum Instruction {
    LaunchProcess { variable: Option<String>, string: String, process_id: ProcessID },
    SendStdin { string: String, process_id: ProcessID },
    ExpectStdout { string: String, process_id: ProcessID },
    ExpectRegex { string: String, process_id: ProcessID },
    SendControlChar { character: char, process_id: ProcessID },
    ExpectExitCode { modifier: ExitCodeModifier, exit_code: ExitCode, process_id: ProcessID },
}

/// An instruction, its text taken as characters.
#[verifier::ext_equal]
pub enum InstructionView {
    LaunchProcess { variable: Option<Seq<char>>, string: Seq<char>, process_id: ProcessID },
    SendStdin { string: Seq<char>, process_id: ProcessID },
    ExpectStdout { string: Seq<char>, process_id: ProcessID },
    ExpectRegex { string: Seq<char>, process_id: ProcessID },
    SendControlChar { character: char, process_id: ProcessID },
    ExpectExitCode { modifier: ExitCodeModifier, exit_code: ExitCode, process_id: ProcessID },
}

pub open spec fn option_view(o: Option<String>) -> Option<Seq<char>> {
    match o {
        Some(s) => Some(s@),
        None => None,
    }
}

impl View for Instruction {
    type V = InstructionView;

    open spec fn view(&self) -> InstructionView {
        match self {
            Instruction::LaunchProcess { variable, string, process_id } => InstructionView::LaunchProcess {
                variable: option_view(*variable),
                string: string@,
                process_id: *process_id,
            },
            Instruction::SendStdin { string, process_id } => InstructionView::SendStdin {
                string: string@,
                process_id: *process_id,
            },
            Instruction::ExpectStdout { string, process_id } => InstructionView::ExpectStdout {
                string: string@,
                process_id: *process_id,
            },
            Instruction::ExpectRegex { string, process_id } => InstructionView::ExpectRegex {
                string: string@,
                process_id: *process_id,
            },
            Instruction::SendControlChar { character, process_id } => InstructionView::SendControlChar {
                character: *character,
                process_id: *process_id,
            },
            Instruction::ExpectExitCode { modifier, exit_code, process_id } => InstructionView::ExpectExitCode {
                modifier: *modifier,
                exit_code: *exit_code,
                process_id: *process_id,
            },
        }
    }
}

impl InstructionView {
    /// The process that the instruction is addressed to.
    pub open spec fn process_id(self) -> ProcessID {
        match self {
            InstructionView::LaunchProcess { process_id, .. } => process_id,
            InstructionView::SendStdin { process_id, .. } => process_id,
            InstructionView::ExpectStdout { process_id, .. } => process_id,
            InstructionView::ExpectRegex { process_id, .. } => process_id,
            InstructionView::SendControlChar { process_id, .. } => process_id,
            InstructionView::ExpectExitCode { process_id, .. } => process_id,
        }
    }
}

fn duplicate_option(o: &Option<String>) -> (c: Option<String>)
    ensures
        option_view(c) == option_view(*o),
{
    match o {
        Some(s) => Some(s.clone()),
        None => None,
    }
}

impl Instruction {
    /// An equal instruction.
    pub fn duplicate(&self) -> (i: Instruction)
        ensures
            i@ == self@,
    {
        match self {
            Instruction::LaunchProcess { variable, string, process_id } => Instruction::LaunchProcess {
                variable: duplicate_option(variable),
                string: string.clone(),
                process_id: *process_id,
            },
            Instruction::SendStdin { string, process_id } => Instruction::SendStdin {
                string: string.clone(),
                process_id: *process_id,
            },
            Instruction::ExpectStdout { string, process_id } => Instruction::ExpectStdout {
                string: string.clone(),
                process_id: *process_id,
            },
            Instruction::ExpectRegex { string, process_id } => Instruction::ExpectRegex {
                string: string.clone(),
                process_id: *process_id,
            },
            Instruction::SendControlChar { character, process_id } => Instruction::SendControlChar {
                character: *character,
                process_id: *process_id,
            },
            Instruction::ExpectExitCode { modifier, exit_code, process_id } => Instruction::ExpectExitCode {
                modifier: *modifier,
                exit_code: *exit_code,
                process_id: *process_id,
            },
        }
    }

    /// The process that the instruction is addressed to.
    pub fn process_id(&self) -> (p: ProcessID)
        ensures
            p == self@.process_id(),
    {
        match self {
            Instruction::LaunchProcess { process_id, .. } => *process_id,
            Instruction::SendStdin { process_id, .. } => *process_id,
            Instruction::ExpectStdout { process_id, .. } => *process_id,
            Instruction::ExpectRegex { process_id, .. } => *process_id,
            Instruction::SendControlChar { process_id, .. } => *process_id,
            Instruction::ExpectExitCode { process_id, .. } => *process_id,
        }
    }
}

/// A single test case
#[derive(Debug, Clone)]
pub struct TestCase {
    pub name: String,
    pub instructions: Vec<Instruction>,
}

impl TestCase {
    /// An equal test case.
    pub fn duplicate(&self) -> (c: TestCase)
        ensures
            c@ == self@,
    {
        let mut instructions: Vec<Instruction> = Vec::new();
        let n = self.instructions.len();
        let mut i: usize = 0;
        while i < n
            invariant
                n == self.instructions@.len(),
                i <= n,
                instructions@.map_values(|x: Instruction| x@) =~= self.instructions@.take(i as int).map_values(
                    |x: Instruction| x@,
                ),
            decreases n - i,
        {
            let ins = self.instructions[i].duplicate();
            let ghost prev = instructions@;
            instructions.push(ins);
            proof {
                let f = |x: Instruction| x@;
                assert(instructions@.map_values(f) =~= prev.map_values(f).push(ins@));
                assert(self.instructions@.take(i + 1).map_values(f) =~= self.instructions@.take(
                    i as int,
                ).map_values(f).push(f(self.instructions@[i as int])));
            }
            i = i + 1;
        }
        assert(self.instructions@.take(n as int) =~= self.instructions@);
        TestCase { name: self.name.clone(), instructions }
    }
}

#[verifier::ext_equal]
pub struct TestCaseView {
    pub name: Seq<char>,
    pub instructions: Seq<InstructionView>,
}

impl View for TestCase {
    type V = TestCaseView;

    open spec fn view(&self) -> TestCaseView {
        TestCaseView {
            name: self.name@,
            instructions: self.instructions@.map_values(|i: Instruction| i@),
        }
    }
}

/// A collection of all test cases in a file
#[derive(Debug)]
pub struct TestSuite {
    pub name: String,
    pub test_cases: Vec<TestCase>,
    pub variables: Variables,
}

#[verifier::ext_equal]
pub struct TestSuiteView {
    pub name: Seq<char>,
    pub test_cases: Seq<TestCaseView>,
    pub variables: Map<Seq<char>, Seq<char>>,
}

impl View for TestSuite {
    type V = TestSuiteView;

    open spec fn view(&self) -> TestSuiteView {
        TestSuiteView {
            name: self.name@,
            test_cases: self.test_cases@.map_values(|c: TestCase| c@),
            variables: self.variables@,
        }
    }
}

/// The map that a run of assignments leaves: each assignment binds its name
/// to its value, a later one overriding an earlier one of the same name.
pub open spec fn assignments_map(s: Seq<(Seq<char>, Seq<char>)>) -> Map<Seq<char>, Seq<char>>
    decreases s.len(),
{
    if s.len() == 0 {
        Map::empty()
    } else {
        assignments_map(s.drop_last()).insert(s.last().0, s.last().1)
    }
}

/// Named values that launch instructions can refer to as `{name}`.
#[derive(Debug)]
pub struct Variables {
    assignments: Vec<(String, String)>,
}

pub open spec fn assignment_view(a: (String, String)) -> (Seq<char>, Seq<char>) {
    (a.0@, a.1@)
}

impl View for Variables {
    type V = Map<Seq<char>, Seq<char>>;

    closed spec fn view(&self) -> Map<Seq<char>, Seq<char>> {
        assignments_map(self.assignments@.map_values(|a: (String, String)| assignment_view(a)))
    }
}

/// Where no assignment after position `i` names `k`, the binding of `k` is
/// the one that the first `i` assignments leave.
proof fn lemma_assignments_suffix_free(s: Seq<(Seq<char>, Seq<char>)>, i: int, k: Seq<char>)
    requires
        0 <= i <= s.len(),
        forall|j: int| i <= j < s.len() ==> (#[trigger] s[j]).0 != k,
    ensures
        assignments_map(s).dom().contains(k) == assignments_map(s.take(i)).dom().contains(k),
        assignments_map(s).dom().contains(k) ==> assignments_map(s)[k] == assignments_map(
            s.take(i),
        )[k],
    decreases s.len(),
{
    if i == s.len() {
        assert(s.take(i) =~= s);
    } else {
        assert(s[s.len() - 1].0 != k);
        lemma_assignments_suffix_free(s.drop_last(), i, k);
        assert(s.drop_last().take(i) =~= s.take(i));
    }
}

impl Variables {
    /// No variable is set.
    pub fn new() -> (v: Variables)
        ensures
            v@ == Map::<Seq<char>, Seq<char>>::empty(),
    {
        let v = Variables { assignments: Vec::new() };
        assert(v.assignments@.map_values(|a: (String, String)| assignment_view(a)) =~= Seq::<
            (Seq<char>, Seq<char>),
        >::empty());
        v
    }

    /// Sets `name` to `value`, replacing an earlier value of `name`.
    pub fn set(&mut self, name: String, value: String)
        ensures
            final(self)@ == old(self)@.insert(name@, value@),
    {
        let ghost before = self.assignments@.map_values(|a: (String, String)| assignment_view(a));
        self.assignments.push((name, value));
        proof {
            let after = self.assignments@.map_values(|a: (String, String)| assignment_view(a));
            assert(after.drop_last() =~= before);
        }
    }

    /// The value of `name`, if it is set.
    pub fn get(&self, name: &String) -> (r: Option<String>)
        ensures
            match r {
                Some(v) => self@.dom().contains(name@) && v@ == self@[name@],
                None => !self@.dom().contains(name@),
            },
    {
        let ghost s = self.assignments@.map_values(|a: (String, String)| assignment_view(a));
        let mut i = self.assignments.len();
        while i > 0
            invariant
                i <= self.assignments@.len(),
                s == self.assignments@.map_values(|a: (String, String)| assignment_view(a)),
                forall|j: int| i <= j < s.len() ==> (#[trigger] s[j]).0 != name@,
            decreases i,
        {
            let entry = &self.assignments[i - 1];
            assert(s[i - 1] == assignment_view(*entry));
            if entry.0 == *name {
                proof {
                    lemma_assignments_suffix_free(s, i as int, name@);
                    assert(s.take(i as int).drop_last() =~= s.take(i - 1));
                }
                return Some(entry.1.clone());
            }
            i = i - 1;
        }
        proof {
            lemma_assignments_suffix_free(s, 0, name@);
            assert(s.take(0) =~= Seq::<(Seq<char>, Seq<char>)>::empty());
        }
        None
    }

    /// A copy of these variables.
    pub fn copy(&self) -> (v: Variables)
        ensures
            v@ == self@,
    {
        let mut assignments: Vec<(String, String)> = Vec::new();
        let n = self.assignments.len();
        let mut i: usize = 0;
        while i < n
            invariant
                n == self.assignments@.len(),
                i <= n,
                assignments@.map_values(|a: (String, String)| assignment_view(a)) =~= self.assignments@.take(
                    i as int,
                ).map_values(|a: (String, String)| assignment_view(a)),
            decreases n - i,
        {
            let entry = &self.assignments[i];
            let ghost prev = assignments@;
            assignments.push((entry.0.clone(), entry.1.clone()));
            proof {
                let f = |a: (String, String)| assignment_view(a);
                assert(assignments@.map_values(f) =~= prev.map_values(f).push(f(*entry)));
                assert(self.assignments@.take(i + 1).map_values(f) =~= self.assignments@.take(
                    i as int,
                ).map_values(f).push(f(self.assignments@[i as int])));
            }
            i = i + 1;
        }
        assert(self.assignments@.take(n as int) =~= self.assignments@);
        Variables { assignments }
    }

    /// Sets every variable that `other` sets to its value there; the others
    /// keep their values.
    pub fn override_with(&mut self, other: &Variables)
        ensures
            final(self)@ == old(self)@.union_prefer_right(other@),
    {
        let ghost start = self@;
        let ghost o = other.assignments@.map_values(|a: (String, String)| assignment_view(a));
        let mut i: usize = 0;
        assert(o.take(0) =~= Seq::<(Seq<char>, Seq<char>)>::empty());
        assert(start.union_prefer_right(assignments_map(o.take(0))) =~= start);
        while i < other.assignments.len()
            invariant
                i <= other.assignments@.len(),
                o == other.assignments@.map_values(|a: (String, String)| assignment_view(a)),
                self@ == start.union_prefer_right(assignments_map(o.take(i as int))),
            decreases other.assignments@.len() - i,
        {
            let entry = &other.assignments[i];
            assert(o[i as int] == assignment_view(*entry));
            self.set(entry.0.clone(), entry.1.clone());
            i = i + 1;
            assert(o.take(i as int).drop_last() =~= o.take(i - 1));
            assert(self@ =~= start.union_prefer_right(assignments_map(o.take(i as int))));
        }
        assert(o.take(i as int) =~= o);
    }
}


/// Reading a variable after setting it gives the value set; the other
/// variables keep their values.
pub proof fn lemma_get_after_set(before: Map<Seq<char>, Seq<char>>, name: Seq<char>, value: Seq<char>, other: Seq<char>)
    requires
        other != name,
    ensures
        before.insert(name, value).contains_key(name),
        before.insert(name, value)[name] == value,
        before.insert(name, value).contains_key(other) == before.contains_key(other),
        before.contains_key(other) ==> before.insert(name, value)[other] == before[other],
{
}

/// Variables given from outside take precedence over those set in a file:
/// after the override, a variable has its outside value where one is given,
/// and its own value otherwise.
pub proof fn lemma_override_precedence(
    file: Map<Seq<char>, Seq<char>>,
    outside: Map<Seq<char>, Seq<char>>,
    name: Seq<char>,
)
    ensures
        outside.contains_key(name) ==> file.union_prefer_right(outside)[name] == outside[name],
        !outside.contains_key(name) && file.contains_key(name) ==> file.union_prefer_right(outside)[name]
            == file[name],
        file.union_prefer_right(outside).contains_key(name) == (file.contains_key(name)
            || outside.contains_key(name)),
{
}


/// What the three checks of an exit code mean: `? n` asks for exactly `n`,
/// `? <n` for any code below `n`, `? >n` for any code above `n`.
pub proof fn lemma_exit_code_checks(actual: int, expected: int)
    ensures
        exit_code_passes(ExitCodeModifier::Equals, actual, expected) <==> actual == expected,
        exit_code_passes(ExitCodeModifier::LessThan, actual, expected) <==> actual < expected,
        exit_code_passes(ExitCodeModifier::MoreThan, actual, expected) <==> actual > expected,
        exit_code_passes(ExitCodeModifier::LessThan, actual, expected) ==> !exit_code_passes(
            ExitCodeModifier::MoreThan,
            actual,
            expected,
        ),
{
}

} // verus!
