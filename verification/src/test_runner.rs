//! Running test cases: the decisions of the runner, as a state machine that
//! is told what its processes did and answers with what to do next.
//!
//! The driver asks for the first action with `RunnerEvent::Start`, performs
//! each action it gets and reports how it went, until it gets
//! `RunnerAction::Finish`. A whole suite is run the same way through
//! `TestSuiteRunner::step`, which runs the test cases one after the other
//! and closes with the count of passed ones.
use vstd::prelude::*;

use crate::common::{
    exit_code_passes, option_view, ExitCode, ExitCodeModifier, Instruction, InstructionView,
    ProcessID, TestCase, TestSuite, TestSuiteView, Variables,
};
use crate::text::{
    append_all, append_spaces, append_str, chars_of, decimal_chars, decimal_digits, spaces,
    string_from,
};

verus! {

/// Why a test case failed.
#[derive(Debug, PartialEq, Eq)]
pub enum TestRunnerError {
    ProgramDoesNotExist,
    InvalidProcess,
    WrongExitCode,
    ProgramStoppedEarly,
    SegFault,
    InvalidControlChar,
    Timeout,
    UninitializedVariable,
    /// A process could not be driven; the text describes the failure.
    ExpectrlError(String),
    /// The state of a process could not be read; the text describes the failure.
    NixError(String),
    /// Input or output failed; the text describes the failure.
    IOError(String),
}

impl TestRunnerError {
    /// An equal error.
    pub fn duplicate(&self) -> (e: TestRunnerError)
        ensures
            e == *self,
    {
        match self {
            TestRunnerError::ProgramDoesNotExist => TestRunnerError::ProgramDoesNotExist,
            TestRunnerError::InvalidProcess => TestRunnerError::InvalidProcess,
            TestRunnerError::WrongExitCode => TestRunnerError::WrongExitCode,
            TestRunnerError::ProgramStoppedEarly => TestRunnerError::ProgramStoppedEarly,
            TestRunnerError::SegFault => TestRunnerError::SegFault,
            TestRunnerError::InvalidControlChar => TestRunnerError::InvalidControlChar,
            TestRunnerError::Timeout => TestRunnerError::Timeout,
            TestRunnerError::UninitializedVariable => TestRunnerError::UninitializedVariable,
            TestRunnerError::ExpectrlError(s) => TestRunnerError::ExpectrlError(s.clone()),
            TestRunnerError::NixError(s) => TestRunnerError::NixError(s.clone()),
            TestRunnerError::IOError(s) => TestRunnerError::IOError(s.clone()),
        }
    }
}

fn duplicate_result(r: &Result<(), TestRunnerError>) -> (c: Result<(), TestRunnerError>)
    ensures
        c == *r,
{
    match r {
        Ok(u) => Ok(*u),
        Err(e) => Err(e.duplicate()),
    }
}

/// What became of a process when it was last looked at.
#[derive(Debug, Clone, Copy, PartialEq, Eq, Structural)]
pub enum ProcessStatus {
    /// It ended with this exit code.
    Exited(ExitCode),
    StillAlive,
    Continued,
    /// It was killed by a segmentation fault.
    Segfaulted,
    /// It stopped in any other way.
    Stopped,
}

/// What the driver reports to the runner.
#[derive(Debug)]
pub enum RunnerEvent {
    /// Nothing has happened yet: the run begins.
    Start,
    /// The last action succeeded.
    Completed,
    /// The last launch failed; `io` tells whether the failure was one of input
    /// or output (the program cannot be run).
    LaunchFailed { io: bool, message: String },
    /// The last action failed.
    Failed(TestRunnerError),
    /// The awaited process was looked at, `elapsed_ms` milliseconds after the
    /// wait for it began.
    Polled { status: ProcessStatus, elapsed_ms: u64 },
}

/// What the runner asks the driver to do.
#[derive(Debug)]
pub enum RunnerAction {
    /// Start `command` as the process `process_id`.
    Launch { process_id: ProcessID, command: String },
    /// Write `string` and a line break to the input of the process.
    SendLine { process_id: ProcessID, string: String },
    /// Wait until the process has printed `string`.
    Expect { process_id: ProcessID, string: String },
    /// Wait until the process has printed something that matches `pattern`.
    ExpectRegex { process_id: ProcessID, pattern: String },
    /// Send the control character `character` to the process.
    SendControl { process_id: ProcessID, character: char },
    /// Look at the state of the process. `first` is set on the first look
    /// of an exit code check, when the wait for the process begins; on a later
    /// look the driver pauses briefly first.
    PollExit { process_id: ProcessID, first: bool },
    /// The test case is over, with this result.
    Finish(Result<(), TestRunnerError>),
}

#[verifier::ext_equal]
pub enum ActionView {
    Launch { process_id: ProcessID, command: Seq<char> },
    SendLine { process_id: ProcessID, string: Seq<char> },
    Expect { process_id: ProcessID, string: Seq<char> },
    ExpectRegex { process_id: ProcessID, pattern: Seq<char> },
    SendControl { process_id: ProcessID, character: char },
    PollExit { process_id: ProcessID, first: bool },
    Finish(Result<(), TestRunnerError>),
}

impl View for RunnerAction {
    type V = ActionView;

    open spec fn view(&self) -> ActionView {
        match self {
            RunnerAction::Launch { process_id, command } => ActionView::Launch {
                process_id: *process_id,
                command: command@,
            },
            RunnerAction::SendLine { process_id, string } => ActionView::SendLine {
                process_id: *process_id,
                string: string@,
            },
            RunnerAction::Expect { process_id, string } => ActionView::Expect {
                process_id: *process_id,
                string: string@,
            },
            RunnerAction::ExpectRegex { process_id, pattern } => ActionView::ExpectRegex {
                process_id: *process_id,
                pattern: pattern@,
            },
            RunnerAction::SendControl { process_id, character } => ActionView::SendControl {
                process_id: *process_id,
                character: *character,
            },
            RunnerAction::PollExit { process_id, first } => ActionView::PollExit {
                process_id: *process_id,
                first: *first,
            },
            RunnerAction::Finish(r) => ActionView::Finish(*r),
        }
    }
}

/// Where a run stands.
#[derive(Debug)]
pub enum Phase {
    /// Nothing has been asked yet.
    Ready,
    /// The action for the current instruction was asked for; its outcome is awaited.
    Awaiting,
    /// The test case is over.
    Done(Result<(), TestRunnerError>),
}

#[verifier::ext_equal]
pub struct RunnerView {
    pub instructions: Seq<InstructionView>,
    pub timeout_ms: u64,
    /// The processes launched so far.
    pub processes: Set<ProcessID>,
    pub variables: Map<Seq<char>, Seq<char>>,
    /// The instruction at hand.
    pub next: nat,
    pub phase: Phase,
}

/// The command that a launch runs: the value of its variable, a space and
/// its text where it names a variable; `None` where that variable is not set.
pub open spec fn launch_command(
    variable: Option<Seq<char>>,
    string: Seq<char>,
    variables: Map<Seq<char>, Seq<char>>,
) -> Option<Seq<char>> {
    match variable {
        None => Some(string),
        Some(v) => if variables.contains_key(v) {
            Some(variables[v] + seq![' '] + string)
        } else {
            None
        },
    }
}

/// The action that carries out an instruction addressed to a running process.
pub open spec fn io_action(i: InstructionView) -> ActionView {
    match i {
        InstructionView::SendStdin { string, process_id } => ActionView::SendLine { process_id, string },
        InstructionView::ExpectStdout { string, process_id } => ActionView::Expect { process_id, string },
        InstructionView::ExpectRegex { string, process_id } => ActionView::ExpectRegex {
            process_id,
            pattern: string,
        },
        InstructionView::SendControlChar { character, process_id } => ActionView::SendControl {
            process_id,
            character,
        },
        InstructionView::ExpectExitCode { process_id, .. } => ActionView::PollExit { process_id, first: true },
        InstructionView::LaunchProcess { process_id, .. } => ActionView::PollExit { process_id, first: true },
    }
}

pub open spec fn with_phase(r: RunnerView, phase: Phase) -> RunnerView {
    RunnerView { phase, ..r }
}

/// Ends the run with `result`.
pub open spec fn finish(r: RunnerView, result: Result<(), TestRunnerError>) -> (RunnerView, ActionView) {
    (with_phase(r, Phase::Done(result)), ActionView::Finish(result))
}

/// Asks for the instruction at hand: the run succeeds where none is left; it
/// fails where a launch names a variable that is not set, or where another
/// instruction addresses a process that was never launched.
pub open spec fn issue(r: RunnerView) -> (RunnerView, ActionView) {
    if r.next >= r.instructions.len() {
        finish(r, Ok(()))
    } else {
        match r.instructions[r.next as int] {
            InstructionView::LaunchProcess { variable, string, process_id } => match launch_command(
                variable,
                string,
                r.variables,
            ) {
                None => finish(r, Err(TestRunnerError::UninitializedVariable)),
                Some(command) => (with_phase(r, Phase::Awaiting), ActionView::Launch { process_id, command }),
            },
            i => if r.processes.contains(i.process_id()) {
                (with_phase(r, Phase::Awaiting), io_action(i))
            } else {
                finish(r, Err(TestRunnerError::InvalidProcess))
            },
        }
    }
}

/// Moves on to the next instruction, the current one done.
pub open spec fn advance(r: RunnerView) -> RunnerView {
    RunnerView { next: r.next + 1, phase: Phase::Ready, ..r }
}

/// The outcome of waiting for a process to end with an exit code that passes
/// `modifier expected`: a passing code moves on to the next instruction.
pub open spec fn exit_outcome(
    r: RunnerView,
    modifier: ExitCodeModifier,
    expected: ExitCode,
    process_id: ProcessID,
    status: ProcessStatus,
    elapsed_ms: u64,
) -> (RunnerView, ActionView) {
    match status {
        ProcessStatus::Exited(code) => if exit_code_passes(modifier, code as int, expected as int) {
            issue(advance(r))
        } else {
            finish(r, Err(TestRunnerError::WrongExitCode))
        },
        ProcessStatus::StillAlive | ProcessStatus::Continued => if elapsed_ms > r.timeout_ms {
            finish(r, Err(TestRunnerError::Timeout))
        } else {
            (r, ActionView::PollExit { process_id, first: false })
        },
        ProcessStatus::Segfaulted => finish(r, Err(TestRunnerError::SegFault)),
        ProcessStatus::Stopped => finish(r, Err(TestRunnerError::ProgramStoppedEarly)),
    }
}

/// One step of a run: the state after `e` and the action to take next.
/// An event that does not answer the awaited action leaves the run as it is
/// and the same action is asked for again.
pub open spec fn step(r: RunnerView, e: RunnerEvent) -> (RunnerView, ActionView) {
    match r.phase {
        Phase::Done(result) => (r, ActionView::Finish(result)),
        Phase::Ready => issue(r),
        Phase::Awaiting => match r.instructions[r.next as int] {
            InstructionView::LaunchProcess { process_id, .. } => match e {
                RunnerEvent::Completed => issue(
                    RunnerView { processes: r.processes.insert(process_id), ..advance(r) },
                ),
                RunnerEvent::LaunchFailed { io, message } => finish(
                    r,
                    Err(
                        if io {
                            TestRunnerError::ProgramDoesNotExist
                        } else {
                            TestRunnerError::ExpectrlError(message)
                        },
                    ),
                ),
                RunnerEvent::Failed(err) => finish(r, Err(err)),
                _ => issue(r),
            },
            InstructionView::ExpectExitCode { modifier, exit_code, process_id } => match e {
                RunnerEvent::Polled { status, elapsed_ms } => exit_outcome(
                    r,
                    modifier,
                    exit_code,
                    process_id,
                    status,
                    elapsed_ms,
                ),
                RunnerEvent::Failed(err) => finish(r, Err(err)),
                _ => issue(r),
            },
            _ => match e {
                RunnerEvent::Completed => issue(advance(r)),
                RunnerEvent::Failed(err) => finish(r, Err(err)),
                _ => issue(r),
            },
        },
    }
}

/// The runner of one test case.
pub struct TestRunner {
    test_case: TestCase,
    timeout_ms: u64,
    processes: Vec<ProcessID>,
    variables: Variables,
    next: usize,
    phase: Phase,
}

impl View for TestRunner {
    type V = RunnerView;

    closed spec fn view(&self) -> RunnerView {
        RunnerView {
            instructions: self.test_case@.instructions,
            timeout_ms: self.timeout_ms,
            processes: self.processes@.to_set(),
            variables: self.variables@,
            next: self.next as nat,
            phase: self.phase,
        }
    }
}

/// The state of a run before it begins.
pub open spec fn initial_runner(
    instructions: Seq<InstructionView>,
    variables: Map<Seq<char>, Seq<char>>,
) -> RunnerView {
    RunnerView {
        instructions,
        timeout_ms: 3000,
        processes: Set::empty(),
        variables,
        next: 0,
        phase: Phase::Ready,
    }
}

/// While the outcome of an instruction is awaited, the instruction is one of
/// the test case's and, unless it is a launch, its process has been launched.
pub open spec fn runner_wf(r: RunnerView) -> bool {
    &&& r.next <= r.instructions.len()
    &&& r.phase is Awaiting ==> {
        &&& r.next < r.instructions.len()
        &&& !(r.instructions[r.next as int] is LaunchProcess) ==> r.processes.contains(
            r.instructions[r.next as int].process_id(),
        )
    }
}

impl TestRunner {
    #[verifier::type_invariant]
    closed spec fn inv(&self) -> bool {
        &&& self.next <= self.test_case.instructions@.len()
        &&& self.phase is Awaiting ==> self.next < self.test_case.instructions@.len()
    }

    /// The runner of `test_case`, with the variables `variables` and a wait of
    /// at most 3 seconds for a process to end.
    pub fn new(test_case: TestCase, variables: &Variables) -> (r: TestRunner)
        ensures
            r@ == initial_runner(test_case@.instructions, variables@),
            runner_wf(r@),
    {
        let r = TestRunner {
            test_case,
            timeout_ms: 3000,
            processes: Vec::new(),
            variables: variables.copy(),
            next: 0,
            phase: Phase::Ready,
        };
        assert(r@.processes =~= Set::<ProcessID>::empty());
        r
    }

    /// Whether the process `p` has been launched.
    fn launched(&self, p: ProcessID) -> (b: bool)
        ensures
            b == self@.processes.contains(p),
    {
        let mut i: usize = 0;
        while i < self.processes.len()
            invariant
                i <= self.processes@.len(),
                forall|j: int| 0 <= j < i ==> self.processes@[j] != p,
            decreases self.processes@.len() - i,
        {
            if self.processes[i] == p {
                assert(self.processes@.to_set().contains(p));
                return true;
            }
            i = i + 1;
        }
        proof {
            if self.processes@.to_set().contains(p) {
                let k = choose|k: int| 0 <= k < self.processes@.len() && self.processes@[k] == p;
                assert(self.processes@[k] == p);
            }
        }
        false
    }

    fn finish_with(&mut self, result: Result<(), TestRunnerError>) -> (a: RunnerAction)
        ensures
            (final(self)@, a@) == finish(old(self)@, result),
    {
        proof {
            use_type_invariant(&*self);
        }
        self.phase = Phase::Done(duplicate_result(&result));
        RunnerAction::Finish(result)
    }

    /// Asks for the instruction at hand.
    fn issue(&mut self) -> (a: RunnerAction)
        requires
            !(old(self)@.phase is Awaiting) || old(self)@.next < old(self)@.instructions.len(),
        ensures
            (final(self)@, a@) == issue(old(self)@),
    {
        proof {
            use_type_invariant(&*self);
        }
        if self.next >= self.test_case.instructions.len() {
            return self.finish_with(Ok(()));
        }
        let ghost iv = self.test_case.instructions@[self.next as int]@;
        assert(self@.instructions[self.next as int] == iv);
        match &self.test_case.instructions[self.next] {
            Instruction::LaunchProcess { variable, string, process_id } => {
                let pid = *process_id;
                let command = match variable {
                    None => string.clone(),
                    Some(name) => match self.variables.get(name) {
                        None => {
                            return self.finish_with(Err(TestRunnerError::UninitializedVariable));
                        },
                        Some(value) => {
                            let mut out: Vec<char> = chars_of(value.as_str());
                            out.push(' ');
                            let tail = chars_of(string.as_str());
                            append_all(&mut out, &tail);
                            string_from(&out)
                        },
                    },
                };
                self.phase = Phase::Awaiting;
                RunnerAction::Launch { process_id: pid, command }
            },
            Instruction::SendStdin { string, process_id } => {
                let pid = *process_id;
                let string = string.clone();
                if !self.launched(pid) {
                    return self.finish_with(Err(TestRunnerError::InvalidProcess));
                }
                self.phase = Phase::Awaiting;
                RunnerAction::SendLine { process_id: pid, string }
            },
            Instruction::ExpectStdout { string, process_id } => {
                let pid = *process_id;
                let string = string.clone();
                if !self.launched(pid) {
                    return self.finish_with(Err(TestRunnerError::InvalidProcess));
                }
                self.phase = Phase::Awaiting;
                RunnerAction::Expect { process_id: pid, string }
            },
            Instruction::ExpectRegex { string, process_id } => {
                let pid = *process_id;
                let pattern = string.clone();
                if !self.launched(pid) {
                    return self.finish_with(Err(TestRunnerError::InvalidProcess));
                }
                self.phase = Phase::Awaiting;
                RunnerAction::ExpectRegex { process_id: pid, pattern }
            },
            Instruction::SendControlChar { character, process_id } => {
                let pid = *process_id;
                let character = *character;
                if !self.launched(pid) {
                    return self.finish_with(Err(TestRunnerError::InvalidProcess));
                }
                self.phase = Phase::Awaiting;
                RunnerAction::SendControl { process_id: pid, character }
            },
            Instruction::ExpectExitCode { process_id, .. } => {
                let pid = *process_id;
                if !self.launched(pid) {
                    return self.finish_with(Err(TestRunnerError::InvalidProcess));
                }
                self.phase = Phase::Awaiting;
                RunnerAction::PollExit { process_id: pid, first: true }
            },
        }
    }

    /// Takes the outcome `event` of the last action and says what to do next.
    pub fn step(&mut self, event: RunnerEvent) -> (a: RunnerAction)
        ensures
            (final(self)@, a@) == step(old(self)@, event),
    {
        proof {
            use_type_invariant(&*self);
        }
        match &self.phase {
            Phase::Done(result) => {
                return RunnerAction::Finish(duplicate_result(result));
            },
            Phase::Ready => {
                return self.issue();
            },
            Phase::Awaiting => {},
        }
        let next = self.next;
        let count = self.test_case.instructions.len();
        assert(next < count);
        assert(self@.instructions[self.next as int] == self.test_case.instructions@[self.next as int]@);
        match &self.test_case.instructions[self.next] {
            Instruction::LaunchProcess { process_id, .. } => {
                let pid = *process_id;
                match event {
                    RunnerEvent::Completed => {
                        let ghost before = self.processes@;
                        if !self.launched(pid) {
                            let mut procs: Vec<ProcessID> = Vec::new();
                            std::mem::swap(&mut procs, &mut self.processes);
                            procs.push(pid);
                            self.processes = procs;
                            proof {
                                assert(self.processes@ =~= before + seq![pid]);
                                Seq::lemma_to_set_insert_commutes(before, pid);
                            }
                        } else {
                            assert(before.to_set().insert(pid) =~= before.to_set());
                        }
                        self.phase = Phase::Ready;
                        self.next = next + 1;
                        self.issue()
                    },
                    RunnerEvent::LaunchFailed { io, message } => {
                        if io {
                            self.finish_with(Err(TestRunnerError::ProgramDoesNotExist))
                        } else {
                            self.finish_with(Err(TestRunnerError::ExpectrlError(message)))
                        }
                    },
                    RunnerEvent::Failed(err) => self.finish_with(Err(err)),
                    _ => self.issue(),
                }
            },
            Instruction::ExpectExitCode { modifier, exit_code, process_id } => {
                let modifier = *modifier;
                let expected = *exit_code;
                let pid = *process_id;
                match event {
                    RunnerEvent::Polled { status, elapsed_ms } => match status {
                        ProcessStatus::Exited(code) => {
                            if modifier.passes(code, expected) {
                                self.phase = Phase::Ready;
                                self.next = next + 1;
                                self.issue()
                            } else {
                                self.finish_with(Err(TestRunnerError::WrongExitCode))
                            }
                        },
                        ProcessStatus::StillAlive | ProcessStatus::Continued => {
                            if elapsed_ms > self.timeout_ms {
                                self.finish_with(Err(TestRunnerError::Timeout))
                            } else {
                                RunnerAction::PollExit { process_id: pid, first: false }
                            }
                        },
                        ProcessStatus::Segfaulted => self.finish_with(Err(TestRunnerError::SegFault)),
                        ProcessStatus::Stopped => self.finish_with(Err(TestRunnerError::ProgramStoppedEarly)),
                    },
                    RunnerEvent::Failed(err) => self.finish_with(Err(err)),
                    _ => self.issue(),
                }
            },
            _ => {
                match event {
                    RunnerEvent::Completed => {
                        self.phase = Phase::Ready;
                        self.next = next + 1;
                        self.issue()
                    },
                    RunnerEvent::Failed(err) => self.finish_with(Err(err)),
                    _ => self.issue(),
                }
            },
        }
    }
}


/// The width that the name of a running test case is padded to.
pub open spec fn label_width() -> nat {
    50
}

/// `s`, padded with spaces to at least `width` characters.
pub open spec fn pad_to(s: Seq<char>, width: nat) -> Seq<char> {
    if s.len() < width {
        s + spaces((width - s.len()) as nat)
    } else {
        s
    }
}

/// The line shown while the test case `name` runs.
pub open spec fn running_label(name: Seq<char>) -> Seq<char> {
    pad_to("Running ["@ + name + "]:"@, label_width())
}

/// The number of passed test cases among `results`.
pub open spec fn count_passed(results: Seq<Result<(), TestRunnerError>>) -> nat
    decreases results.len(),
{
    if results.len() == 0 {
        0
    } else {
        count_passed(results.drop_last()) + if results.last() is Ok {
            1nat
        } else {
            0nat
        }
    }
}

/// The closing line of a suite run: `passed/total Successfull tests.`
pub open spec fn summary_text(passed: nat, total: nat) -> Seq<char> {
    decimal_digits(passed) + "/"@ + decimal_digits(total) + " Successfull tests."@
}

/// Where the run of a suite stands.
#[derive(Debug, Clone, Copy, PartialEq, Eq, Structural)]
pub enum SuitePhase {
    /// Between two test cases (or before the first): the next one begins, or
    /// the closing line follows where none is left.
    Between,
    /// A test case runs.
    Running,
    /// The closing line has been given.
    Over,
}

/// What the driver of a suite run reports.
#[derive(Debug)]
pub enum SuiteEvent {
    /// The last action was done; go on.
    Next,
    /// The outcome of the last action that a test case asked for.
    Case(RunnerEvent),
}

/// What a suite run asks the driver to do.
#[derive(Debug)]
pub enum SuiteAction {
    /// The test case at `index` begins, with fresh processes: show `label`.
    Begin { index: usize, label: String },
    /// Carry out this action of the running test case and report its outcome.
    Perform(RunnerAction),
    /// The test case at `index` is over with `result`.
    Report { index: usize, result: Result<(), TestRunnerError> },
    /// Every test case has run: show this closing line.
    Summary(String),
    /// Nothing is left to do.
    Finished,
}

pub enum SuiteActionView {
    Begin { index: nat, label: Seq<char> },
    Perform(ActionView),
    Report { index: nat, result: Result<(), TestRunnerError> },
    Summary(Seq<char>),
    Finished,
}

impl View for SuiteAction {
    type V = SuiteActionView;

    open spec fn view(&self) -> SuiteActionView {
        match self {
            SuiteAction::Begin { index, label } => SuiteActionView::Begin { index: *index as nat, label: label@ },
            SuiteAction::Perform(a) => SuiteActionView::Perform(a@),
            SuiteAction::Report { index, result } => SuiteActionView::Report { index: *index as nat, result: *result },
            SuiteAction::Summary(s) => SuiteActionView::Summary(s@),
            SuiteAction::Finished => SuiteActionView::Finished,
        }
    }
}

/// A suite run: the suite, where the run stands, the run of the current test
/// case, and the results of the test cases that are over, in order.
#[verifier::ext_equal]
pub struct SuiteRunView {
    pub suite: TestSuiteView,
    pub phase: SuitePhase,
    pub runner: Option<RunnerView>,
    pub results: Seq<Result<(), TestRunnerError>>,
}

/// One step of a suite run: the state after `e` and the action to take next.
/// The test cases run one after the other, each once and with a fresh
/// runner; the result of each is recorded when it is over; the closing line
/// counts the passed ones.
pub open spec fn suite_step(s: SuiteRunView, e: SuiteEvent) -> (SuiteRunView, SuiteActionView) {
    match s.phase {
        SuitePhase::Over => (s, SuiteActionView::Finished),
        SuitePhase::Between => if s.results.len() < s.suite.test_cases.len() {
            let i = s.results.len() as int;
            (
                SuiteRunView {
                    phase: SuitePhase::Running,
                    runner: Some(initial_runner(s.suite.test_cases[i].instructions, s.suite.variables)),
                    ..s
                },
                SuiteActionView::Begin { index: i as nat, label: running_label(s.suite.test_cases[i].name) },
            )
        } else {
            (
                SuiteRunView { phase: SuitePhase::Over, ..s },
                SuiteActionView::Summary(summary_text(count_passed(s.results), s.suite.test_cases.len())),
            )
        },
        SuitePhase::Running => {
            let event = match e {
                SuiteEvent::Case(ev) => ev,
                SuiteEvent::Next => RunnerEvent::Start,
            };
            let (r2, a) = step(s.runner->Some_0, event);
            match a {
                ActionView::Finish(result) => (
                    SuiteRunView {
                        phase: SuitePhase::Between,
                        runner: Some(r2),
                        results: s.results.push(result),
                        ..s
                    },
                    SuiteActionView::Report { index: s.results.len(), result },
                ),
                _ => (SuiteRunView { runner: Some(r2), ..s }, SuiteActionView::Perform(a)),
            }
        },
    }
}

/// A suite run is consistent: no more results than test cases, and while a
/// test case runs, its runner is well-formed and runs the next test case.
pub open spec fn suite_run_wf(s: SuiteRunView) -> bool {
    &&& s.results.len() <= s.suite.test_cases.len()
    &&& s.phase is Running ==> {
        &&& s.results.len() < s.suite.test_cases.len()
        &&& s.runner is Some
        &&& runner_wf(s.runner->Some_0)
        &&& s.runner->Some_0.instructions == s.suite.test_cases[s.results.len() as int].instructions
    }
}

/// Runs the test cases of a suite, one after the other.
pub struct TestSuiteRunner {
    test_suite: TestSuite,
    phase: SuitePhase,
    current: Option<TestRunner>,
    /// The count of passed test cases, and the results so far.
    progress: (SuiteTally, Ghost<Seq<Result<(), TestRunnerError>>>),
}

impl View for TestSuiteRunner {
    type V = SuiteRunView;

    closed spec fn view(&self) -> SuiteRunView {
        SuiteRunView {
            suite: self.test_suite@,
            phase: self.phase,
            runner: match self.current {
                Some(r) => Some(r@),
                None => None,
            },
            results: self.progress.1@,
        }
    }
}

impl TestSuiteRunner {
    #[verifier::type_invariant]
    closed spec fn inv(&self) -> bool {
        &&& suite_run_wf(self@)
        &&& self.progress.0.total() == self.test_suite.test_cases@.len()
        &&& self.progress.0.recorded() == self.progress.1@.len()
        &&& self.progress.0.successes() == count_passed(self.progress.1@)
    }

    /// A run of `test_suite` that has not begun.
    pub fn new(test_suite: TestSuite) -> (r: TestSuiteRunner)
        ensures
            r@ == (SuiteRunView {
                suite: test_suite@,
                phase: SuitePhase::Between,
                runner: None,
                results: Seq::empty(),
            }),
    {
        let n = test_suite.test_cases.len();
        let tally = SuiteTally::new(n);
        TestSuiteRunner {
            test_suite,
            phase: SuitePhase::Between,
            current: None,
            progress: (tally, Ghost(Seq::empty())),
        }
    }

    /// Sets the variables of `variables` over those of the suite: a variable
    /// set in both takes its value from `variables`.
    pub fn override_variables(&mut self, variables: &Variables)
        ensures
            final(self)@ == (SuiteRunView {
                suite: TestSuiteView {
                    variables: old(self)@.suite.variables.union_prefer_right(variables@),
                    ..old(self)@.suite
                },
                ..old(self)@
            }),
    {
        proof {
            use_type_invariant(&*self);
        }
        let mut vars = Variables::new();
        std::mem::swap(&mut vars, &mut self.test_suite.variables);
        vars.override_with(variables);
        self.test_suite.variables = vars;
    }

    /// The number of test cases.
    pub fn test_case_count(&self) -> (n: usize)
        ensures
            n == self@.suite.test_cases.len(),
    {
        self.test_suite.test_cases.len()
    }

    /// A fresh runner of the test case at `index`, with the suite's variables.
    pub fn runner(&self, index: usize) -> (r: TestRunner)
        requires
            index < self@.suite.test_cases.len(),
        ensures
            r@ == initial_runner(self@.suite.test_cases[index as int].instructions, self@.suite.variables),
    {
        let case = self.test_suite.test_cases[index].duplicate();
        TestRunner::new(case, &self.test_suite.variables)
    }

    /// The line shown while the test case at `index` runs: `Running [name]:`,
    /// padded with spaces to 50 characters.
    pub fn running_label(&self, index: usize) -> (s: String)
        requires
            index < self@.suite.test_cases.len(),
        ensures
            s@ == running_label(self@.suite.test_cases[index as int].name),
    {
        let mut out: Vec<char> = Vec::new();
        append_str(&mut out, "Running [");
        append_str(&mut out, self.test_suite.test_cases[index].name.as_str());
        append_str(&mut out, "]:");
        let ghost text = out@;
        assert(text =~= "Running ["@ + self@.suite.test_cases[index as int].name + "]:"@);
        if out.len() < 50 {
            let pad = 50 - out.len();
            append_spaces(&mut out, pad);
        }
        string_from(&out)
    }

    /// Takes the outcome `event` of the last action and says what to do next.
    pub fn step(&mut self, event: SuiteEvent) -> (a: SuiteAction)
        ensures
            (final(self)@, a@) == suite_step(old(self)@, event),
    {
        proof {
            use_type_invariant(&*self);
        }
        match self.phase {
            SuitePhase::Over => SuiteAction::Finished,
            SuitePhase::Between => {
                let index = self.progress.0.recorded_count();
                if index < self.test_suite.test_cases.len() {
                    let runner = self.runner(index);
                    let label = self.running_label(index);
                    self.current = Some(runner);
                    self.phase = SuitePhase::Running;
                    SuiteAction::Begin { index, label }
                } else {
                    let text = self.progress.0.summary();
                    self.phase = SuitePhase::Over;
                    SuiteAction::Summary(text)
                }
            },
            SuitePhase::Running => {
                let ev = match event {
                    SuiteEvent::Case(ev) => ev,
                    SuiteEvent::Next => RunnerEvent::Start,
                };
                self.phase = SuitePhase::Between;
                let mut current: Option<TestRunner> = None;
                std::mem::swap(&mut current, &mut self.current);
                let mut runner = match current {
                    Some(r) => r,
                    None => {
                        proof {
                            assert(false);
                        }
                        return SuiteAction::Finished;
                    },
                };
                proof {
                    lemma_step_discipline(runner@, ev);
                }
                let action = runner.step(ev);
                match action {
                    RunnerAction::Finish(result) => {
                        let index = self.progress.0.recorded_count();
                        let passed = result.is_ok();
                        let n = self.test_suite.test_cases.len();
                        let mut progress = (SuiteTally::new(n), Ghost(Seq::empty()));
                        std::mem::swap(&mut progress, &mut self.progress);
                        let ghost before = progress.1@;
                        progress.0.record(passed);
                        progress.1 = Ghost(before.push(result));
                        proof {
                            assert(before.push(result).drop_last() =~= before);
                        }
                        self.progress = progress;
                        self.current = Some(runner);
                        SuiteAction::Report { index, result }
                    },
                    other => {
                        self.current = Some(runner);
                        self.phase = SuitePhase::Running;
                        SuiteAction::Perform(other)
                    },
                }
            },
        }
    }
}

/// Each step keeps a suite run consistent. The test cases begin in order,
/// each with a fresh runner; a result is recorded only when the running test
/// case is over, as the result of that test case; the record of results only
/// grows; the suite itself does not change.
pub proof fn lemma_suite_step(s: SuiteRunView, e: SuiteEvent)
    requires
        suite_run_wf(s),
    ensures
        ({
            let (s2, a) = suite_step(s, e);
            &&& suite_run_wf(s2)
            &&& s2.suite == s.suite
            &&& (s2.results == s.results || s2.results == s.results.push(s2.results.last()))
            &&& (a matches SuiteActionView::Begin { index, .. } ==> {
                &&& index == s.results.len()
                &&& s2.results == s.results
                &&& s2.runner == Some(
                    initial_runner(s.suite.test_cases[index as int].instructions, s.suite.variables),
                )
            })
            &&& (a matches SuiteActionView::Report { index, result } ==> {
                &&& s.phase is Running
                &&& index == s.results.len()
                &&& s2.results == s.results.push(result)
                &&& s2.phase is Between
            })
            &&& (s2.results.len() > s.results.len() ==> a is Report)
        }),
{
    if s.phase is Running {
        let event = match e {
            SuiteEvent::Case(ev) => ev,
            SuiteEvent::Next => RunnerEvent::Start,
        };
        lemma_step_discipline(s.runner->Some_0, event);
    }
}

/// The closing line is given only once every test case has run, and it
/// counts the passed ones out of all of them.
pub proof fn lemma_summary_counts(s: SuiteRunView, e: SuiteEvent)
    requires
        suite_run_wf(s),
    ensures
        suite_step(s, e).1 matches SuiteActionView::Summary(text) ==> {
            &&& s.results.len() == s.suite.test_cases.len()
            &&& text == summary_text(count_passed(s.results), s.suite.test_cases.len())
            &&& count_passed(s.results) <= s.suite.test_cases.len()
        },
{
    lemma_count_passed_bound(s.results);
}

/// No more test cases pass than were run.
pub proof fn lemma_count_passed_bound(results: Seq<Result<(), TestRunnerError>>)
    ensures
        count_passed(results) <= results.len(),
    decreases results.len(),
{
    if results.len() > 0 {
        lemma_count_passed_bound(results.drop_last());
    }
}

/// The count of passed test cases out of those run.
pub struct SuiteTally {
    successes: usize,
    recorded: usize,
    total: usize,
}

impl SuiteTally {
    #[verifier::type_invariant]
    closed spec fn inv(&self) -> bool {
        self.successes <= self.recorded <= self.total
    }

    pub closed spec fn successes(&self) -> nat {
        self.successes as nat
    }

    pub closed spec fn recorded(&self) -> nat {
        self.recorded as nat
    }

    pub closed spec fn total(&self) -> nat {
        self.total as nat
    }

    /// A tally for `total` test cases, none run yet.
    pub fn new(total: usize) -> (t: SuiteTally)
        ensures
            t.successes() == 0,
            t.recorded() == 0,
            t.total() == total,
    {
        SuiteTally { successes: 0, recorded: 0, total }
    }

    /// The number of test cases recorded so far.
    pub fn recorded_count(&self) -> (n: usize)
        ensures
            n == self.recorded(),
    {
        self.recorded
    }

    /// The number of test cases that the tally is for.
    pub fn total_count(&self) -> (n: usize)
        ensures
            n == self.total(),
    {
        self.total
    }

    /// The number of test cases that passed so far.
    pub fn success_count(&self) -> (n: usize)
        ensures
            n == self.successes(),
            n <= self.recorded() <= self.total(),
    {
        proof {
            use_type_invariant(self);
        }
        self.successes
    }

    /// Records the result of one more test case.
    pub fn record(&mut self, passed: bool)
        requires
            old(self).recorded() < old(self).total(),
        ensures
            final(self).successes() == old(self).successes() + if passed { 1nat } else { 0nat },
            final(self).recorded() == old(self).recorded() + 1,
            final(self).total() == old(self).total(),
    {
        proof {
            use_type_invariant(&*self);
        }
        let successes = if passed { self.successes + 1 } else { self.successes };
        let recorded = self.recorded + 1;
        *self = SuiteTally { successes, recorded, total: self.total };
    }

    /// The closing line: `passed/total Successfull tests.`
    pub fn summary(&self) -> (s: String)
        ensures
            s@ == decimal_digits(self.successes()) + "/"@ + decimal_digits(self.total())
                + " Successfull tests."@,
    {
        let mut out = decimal_chars(self.successes);
        append_str(&mut out, "/");
        let total = decimal_chars(self.total);
        append_all(&mut out, &total);
        append_str(&mut out, " Successfull tests.");
        string_from(&out)
    }
}


/// Whether `a` addresses a process that is among `launched` (launches and
/// the end of a run address none).
pub open spec fn addresses_launched(a: ActionView, launched: Set<ProcessID>) -> bool {
    match a {
        ActionView::SendLine { process_id, .. } => launched.contains(process_id),
        ActionView::Expect { process_id, .. } => launched.contains(process_id),
        ActionView::ExpectRegex { process_id, .. } => launched.contains(process_id),
        ActionView::SendControl { process_id, .. } => launched.contains(process_id),
        ActionView::PollExit { process_id, .. } => launched.contains(process_id),
        _ => true,
    }
}

/// Every step keeps the run well-formed, asks nothing of a process that was
/// not launched, never goes back to an earlier instruction, never forgets a
/// launched process, and keeps the instructions, variables and time limit.
pub proof fn lemma_step_discipline(r: RunnerView, e: RunnerEvent)
    requires
        runner_wf(r),
    ensures
        ({
            let (r2, a) = step(r, e);
            &&& runner_wf(r2)
            &&& addresses_launched(a, r2.processes)
            &&& r.next <= r2.next
            &&& r.processes.subset_of(r2.processes)
            &&& r2.instructions == r.instructions
            &&& r2.variables == r.variables
            &&& r2.timeout_ms == r.timeout_ms
        }),
{
    match r.phase {
        Phase::Done(_) => {
            assert(r.processes.subset_of(r.processes));
        },
        Phase::Ready => lemma_issue_discipline(r),
        Phase::Awaiting => {
            lemma_issue_discipline(r);
            lemma_issue_discipline(advance(r));
            match r.instructions[r.next as int] {
                InstructionView::LaunchProcess { process_id, .. } => {
                    let r1 = RunnerView { processes: r.processes.insert(process_id), ..advance(r) };
                    lemma_issue_discipline(r1);
                },
                _ => {},
            }
        },
    }
}

proof fn lemma_issue_discipline(r: RunnerView)
    requires
        r.next <= r.instructions.len(),
    ensures
        ({
            let (r2, a) = issue(r);
            &&& runner_wf(r2)
            &&& addresses_launched(a, r2.processes)
            &&& r2.next == r.next
            &&& r2.processes == r.processes
            &&& r2.instructions == r.instructions
            &&& r2.variables == r.variables
            &&& r2.timeout_ms == r.timeout_ms
        }),
{
    if r.next < r.instructions.len() {
        let i = r.instructions[r.next as int];
        match i {
            InstructionView::LaunchProcess { .. } => {},
            _ => {
                if r.processes.contains(i.process_id()) {
                    assert(addresses_launched(io_action(i), r.processes));
                }
            },
        }
    }
}

/// A finished run stays finished: whatever is reported, it answers with the
/// same result and does not change.
pub proof fn lemma_finished_is_final(r: RunnerView, e: RunnerEvent)
    requires
        r.phase is Done,
    ensures
        step(r, e) == (r, ActionView::Finish(r.phase->Done_0)),
{
}

/// A run passes only where every instruction was carried out: an exit code
/// check that passes moves on to the instructions after it.
pub proof fn lemma_pass_means_done(r: RunnerView, e: RunnerEvent)
    requires
        runner_wf(r),
        !(r.phase is Done),
        step(r, e).1 == ActionView::Finish(Ok(())),
    ensures
        step(r, e).0.next == step(r, e).0.instructions.len(),
{
}

/// An exit code that is looked at settles the check: a code that passes moves
/// on to the next instruction (as if that instruction were at hand), one that
/// does not ends the test case with `WrongExitCode`.
pub proof fn lemma_exit_check(r: RunnerView, code: ExitCode, elapsed_ms: u64)
    requires
        runner_wf(r),
        r.phase is Awaiting,
        r.instructions[r.next as int] is ExpectExitCode,
    ensures
        ({
            let (modifier, expected) = match r.instructions[r.next as int] {
                InstructionView::ExpectExitCode { modifier, exit_code, .. } => (modifier, exit_code),
                _ => (ExitCodeModifier::Equals, 0i32),
            };
            let outcome = step(r, RunnerEvent::Polled { status: ProcessStatus::Exited(code), elapsed_ms });
            if exit_code_passes(modifier, code as int, expected as int) {
                outcome == issue(advance(r))
            } else {
                outcome == finish(r, Err(TestRunnerError::WrongExitCode))
            }
        }),
{
}

/// A process that is still running is looked at again until the time limit
/// has passed; after that the test case fails with `Timeout`.
pub proof fn lemma_wait_until_timeout(r: RunnerView, elapsed_ms: u64)
    requires
        runner_wf(r),
        r.phase is Awaiting,
        r.instructions[r.next as int] is ExpectExitCode,
    ensures
        ({
            let (r2, a) = step(r, RunnerEvent::Polled { status: ProcessStatus::StillAlive, elapsed_ms });
            if elapsed_ms > r.timeout_ms {
                a == ActionView::Finish(Err(TestRunnerError::Timeout))
            } else {
                r2 == r && a == (ActionView::PollExit {
                    process_id: r.instructions[r.next as int].process_id(),
                    first: false,
                })
            }
        }),
{
}


/// A failure reported for the awaited action ends the test case at once with
/// that failure, whatever the instruction: the run stays at the failing
/// instruction and nothing after it is carried out.
pub proof fn lemma_failure_ends_test_case(r: RunnerView, err: TestRunnerError)
    requires
        runner_wf(r),
        r.phase is Awaiting,
    ensures
        step(r, RunnerEvent::Failed(err)).1 == ActionView::Finish(Err(err)),
        step(r, RunnerEvent::Failed(err)).0.phase == Phase::Done(Err(err)),
        step(r, RunnerEvent::Failed(err)).0.next == r.next,
        step(r, RunnerEvent::Failed(err)).0.processes == r.processes,
{
}

/// A success reported for the awaited action of an instruction other than an
/// exit code check moves on to exactly the next instruction; a launch also
/// adds its process to the launched ones.
pub proof fn lemma_completion_moves_on(r: RunnerView)
    requires
        runner_wf(r),
        r.phase is Awaiting,
        !(r.instructions[r.next as int] is ExpectExitCode),
    ensures
        step(r, RunnerEvent::Completed).0.next == r.next + 1,
        step(r, RunnerEvent::Completed).0.processes == if r.instructions[r.next as int] is LaunchProcess {
            r.processes.insert(r.instructions[r.next as int].process_id())
        } else {
            r.processes
        },
{
}

} // verus!
