use ttt::common::{ExitCodeModifier, Variables};
use ttt::test_parser::parse_to_ast;
use ttt::test_runner::{
    ProcessStatus, RunnerAction, RunnerEvent, SuiteAction, SuiteEvent, SuiteTally, TestRunner, TestRunnerError,
    TestSuiteRunner,
};

fn runner_for(input: &str) -> TestRunner {
    let suite = parse_to_ast(input).unwrap();
    TestSuiteRunner::new(suite).runner(0)
}

fn exited(code: i32) -> RunnerEvent {
    RunnerEvent::Polled { status: ProcessStatus::Exited(code), elapsed_ms: 5 }
}

/// Runs `runner`, answering every launch, send and expectation with success
/// and every look at a process with `status`.
fn run_with(mut runner: TestRunner, status: ProcessStatus) -> (Result<(), TestRunnerError>, usize) {
    let mut event = RunnerEvent::Start;
    let mut steps = 0;
    loop {
        let action = runner.step(event);
        if let RunnerAction::Finish(r) = action {
            return (r, steps);
        }
        steps += 1;
        event = match action {
            RunnerAction::PollExit { .. } => RunnerEvent::Polled { status, elapsed_ms: 5 },
            _ => RunnerEvent::Completed,
        };
    }
}

#[test]
fn empty_test_case_passes() {
    let (r, steps) = run_with(runner_for("[T]\n"), ProcessStatus::Exited(0));
    assert_eq!(r, Ok(()));
    assert_eq!(steps, 0);
}

#[test]
fn exit_code_comparisons() {
    assert_eq!(run_with(runner_for("[T]\n$ a\n? 0\n"), ProcessStatus::Exited(0)).0, Ok(()));
    assert_eq!(run_with(runner_for("[T]\n$ a\n? 0\n"), ProcessStatus::Exited(1)).0, Err(TestRunnerError::WrongExitCode));
    assert_eq!(run_with(runner_for("[T]\n$ a\n? <3\n"), ProcessStatus::Exited(2)).0, Ok(()));
    assert_eq!(run_with(runner_for("[T]\n$ a\n? <3\n"), ProcessStatus::Exited(3)).0, Err(TestRunnerError::WrongExitCode));
    assert_eq!(run_with(runner_for("[T]\n$ a\n? >1\n"), ProcessStatus::Exited(2)).0, Ok(()));
    assert_eq!(run_with(runner_for("[T]\n$ a\n? >1\n"), ProcessStatus::Exited(1)).0, Err(TestRunnerError::WrongExitCode));
}

#[test]
fn modifier_passes() {
    assert!(ExitCodeModifier::Equals.passes(4, 4));
    assert!(!ExitCodeModifier::Equals.passes(4, 5));
    assert!(ExitCodeModifier::LessThan.passes(2, 3));
    assert!(!ExitCodeModifier::LessThan.passes(3, 3));
    assert!(ExitCodeModifier::MoreThan.passes(4, 3));
    assert!(!ExitCodeModifier::MoreThan.passes(3, 3));
}

#[test]
fn exit_code_check_continues() {
    // The instructions after a passed exit code check are carried out too.
    let (r, steps) = run_with(runner_for("[T]\n$ a\n? 0\n> more\n? 1\n"), ProcessStatus::Exited(0));
    assert_eq!(r, Err(TestRunnerError::WrongExitCode));
    assert_eq!(steps, 4);
    let (r, steps) = run_with(runner_for("[T]\n$ a\n? 0\n> more\n? 0\n"), ProcessStatus::Exited(0));
    assert_eq!(r, Ok(()));
    assert_eq!(steps, 4);
    let (r, _) = run_with(runner_for("[T]\n$ true\n? 0\n1> x\n"), ProcessStatus::Exited(0));
    assert_eq!(r, Err(TestRunnerError::InvalidProcess));
}

#[test]
fn abnormal_ends() {
    assert_eq!(run_with(runner_for("[T]\n$ a\n? 0\n"), ProcessStatus::Segfaulted).0, Err(TestRunnerError::SegFault));
    assert_eq!(run_with(runner_for("[T]\n$ a\n? 0\n"), ProcessStatus::Stopped).0, Err(TestRunnerError::ProgramStoppedEarly));
}

#[test]
fn waiting_until_the_time_limit() {
    let mut runner = runner_for("[T]\n$ a\n? 0\n");
    assert!(matches!(runner.step(RunnerEvent::Start), RunnerAction::Launch { .. }));
    assert!(matches!(runner.step(RunnerEvent::Completed), RunnerAction::PollExit { process_id: 0, first: true }));
    let still = |ms| RunnerEvent::Polled { status: ProcessStatus::StillAlive, elapsed_ms: ms };
    assert!(matches!(runner.step(still(100)), RunnerAction::PollExit { process_id: 0, first: false }));
    assert!(matches!(
        runner.step(RunnerEvent::Polled { status: ProcessStatus::Continued, elapsed_ms: 3000 }),
        RunnerAction::PollExit { process_id: 0, first: false }
    ));
    match runner.step(still(3001)) {
        RunnerAction::Finish(r) => assert_eq!(r, Err(TestRunnerError::Timeout)),
        other => panic!("unexpected action {:?}", other),
    }
}

#[test]
fn unlaunched_process_is_invalid() {
    let mut runner = runner_for("[T]\n$ a\n1> foo\n");
    assert!(matches!(runner.step(RunnerEvent::Start), RunnerAction::Launch { process_id: 0, .. }));
    match runner.step(RunnerEvent::Completed) {
        RunnerAction::Finish(r) => assert_eq!(r, Err(TestRunnerError::InvalidProcess)),
        other => panic!("unexpected action {:?}", other),
    }
}

#[test]
fn variables_in_launch_commands() {
    let suite = parse_to_ast("{program_name} = echo\n[T]\n$ {program_name} blub\n").unwrap();
    let mut runner = TestSuiteRunner::new(suite).runner(0);
    match runner.step(RunnerEvent::Start) {
        RunnerAction::Launch { process_id, command } => {
            assert_eq!(process_id, 0);
            assert_eq!(command, "echo blub");
        }
        other => panic!("unexpected action {:?}", other),
    }
}

#[test]
fn missing_variable_fails() {
    let mut runner = runner_for("[T]\n$ {program_name} blub\n");
    match runner.step(RunnerEvent::Start) {
        RunnerAction::Finish(r) => assert_eq!(r, Err(TestRunnerError::UninitializedVariable)),
        other => panic!("unexpected action {:?}", other),
    }
}

#[test]
fn variables_given_from_outside_override() {
    let suite = parse_to_ast("{program_name} = echo\n{other} = x\n[T]\n$ {program_name} blub\n$ {other}\n").unwrap();
    let mut outside = Variables::new();
    outside.set("program_name".to_string(), "printf".to_string());
    let mut suite_runner = TestSuiteRunner::new(suite);
    suite_runner.override_variables(&outside);
    let mut runner = suite_runner.runner(0);
    match runner.step(RunnerEvent::Start) {
        RunnerAction::Launch { command, .. } => assert_eq!(command, "printf blub"),
        other => panic!("unexpected action {:?}", other),
    }
    match runner.step(RunnerEvent::Completed) {
        RunnerAction::Launch { command, .. } => assert_eq!(command, "x "),
        other => panic!("unexpected action {:?}", other),
    }
}

#[test]
fn launch_failures() {
    let mut runner = runner_for("[T]\n$ nonexistent\n");
    runner.step(RunnerEvent::Start);
    match runner.step(RunnerEvent::LaunchFailed { io: true, message: "not found".to_string() }) {
        RunnerAction::Finish(r) => assert_eq!(r, Err(TestRunnerError::ProgramDoesNotExist)),
        other => panic!("unexpected action {:?}", other),
    }
    let mut runner = runner_for("[T]\n$ \"unclosed\n");
    runner.step(RunnerEvent::Start);
    match runner.step(RunnerEvent::LaunchFailed { io: false, message: "parse".to_string() }) {
        RunnerAction::Finish(r) => assert_eq!(r, Err(TestRunnerError::ExpectrlError("parse".to_string()))),
        other => panic!("unexpected action {:?}", other),
    }
}

#[test]
fn failures_are_reported() {
    let mut runner = runner_for("[T]\n$ cat\n< x\n");
    runner.step(RunnerEvent::Start);
    assert!(matches!(runner.step(RunnerEvent::Completed), RunnerAction::SendLine { process_id: 0, .. }));
    match runner.step(RunnerEvent::Failed(TestRunnerError::IOError("broken pipe".to_string()))) {
        RunnerAction::Finish(r) => assert_eq!(r, Err(TestRunnerError::IOError("broken pipe".to_string()))),
        other => panic!("unexpected action {:?}", other),
    }
    // A finished run stays finished.
    match runner.step(RunnerEvent::Completed) {
        RunnerAction::Finish(r) => assert_eq!(r, Err(TestRunnerError::IOError("broken pipe".to_string()))),
        other => panic!("unexpected action {:?}", other),
    }
}

#[test]
fn unanswered_events_ask_again() {
    let mut runner = runner_for("[T]\n$ cat\n> x\n");
    runner.step(RunnerEvent::Start);
    match runner.step(RunnerEvent::Polled { status: ProcessStatus::Exited(0), elapsed_ms: 0 }) {
        RunnerAction::Launch { process_id, command } => {
            assert_eq!(process_id, 0);
            assert_eq!(command, "cat");
        }
        other => panic!("unexpected action {:?}", other),
    }
    runner.step(RunnerEvent::Completed);
    match runner.step(RunnerEvent::Start) {
        RunnerAction::Expect { process_id, string } => {
            assert_eq!(process_id, 0);
            assert_eq!(string, "x");
        }
        other => panic!("unexpected action {:?}", other),
    }
}

#[test]
fn each_action_kind() {
    let mut runner = runner_for("[T]\n2$ cat\n2< in\n2> out\n2r o.t\n2^ C\n2? 0\n");
    assert!(matches!(runner.step(RunnerEvent::Start), RunnerAction::Launch { process_id: 2, .. }));
    assert!(matches!(runner.step(RunnerEvent::Completed), RunnerAction::SendLine { process_id: 2, ref string } if string == "in"));
    assert!(matches!(runner.step(RunnerEvent::Completed), RunnerAction::Expect { process_id: 2, ref string } if string == "out"));
    assert!(matches!(runner.step(RunnerEvent::Completed), RunnerAction::ExpectRegex { process_id: 2, ref pattern } if pattern == "o.t"));
    assert!(matches!(runner.step(RunnerEvent::Completed), RunnerAction::SendControl { process_id: 2, character: 'C' }));
    assert!(matches!(runner.step(RunnerEvent::Completed), RunnerAction::PollExit { process_id: 2, first: true }));
    assert!(matches!(runner.step(exited(0)), RunnerAction::Finish(Ok(()))));
}

#[test]
fn relaunch_keeps_process() {
    let (r, _) = run_with(runner_for("[T]\n$ a\n$ b\n> x\n"), ProcessStatus::Exited(0));
    assert_eq!(r, Ok(()));
}

#[test]
fn running_labels_are_padded() {
    let suite = parse_to_ast("[Test 1]\n[A very long test case name that goes on and on and on]\n").unwrap();
    let runner = TestSuiteRunner::new(suite);
    assert_eq!(runner.test_case_count(), 2);
    let label = runner.running_label(0);
    assert_eq!(label.chars().count(), 50);
    assert!(label.starts_with("Running [Test 1]:"));
    assert_eq!(label.trim_end(), "Running [Test 1]:");
    assert_eq!(runner.running_label(1), "Running [A very long test case name that goes on and on and on]:");
}

#[test]
fn tally_summary() {
    let mut tally = SuiteTally::new(3);
    tally.record(true);
    tally.record(false);
    tally.record(true);
    assert_eq!(tally.success_count(), 2);
    assert_eq!(tally.recorded_count(), 3);
    assert_eq!(tally.total_count(), 3);
    assert_eq!(tally.summary(), "2/3 Successfull tests.");
    assert_eq!(SuiteTally::new(0).summary(), "0/0 Successfull tests.");
    let mut big = SuiteTally::new(1234);
    big.record(true);
    assert_eq!(big.summary(), "1/1234 Successfull tests.");
}

#[test]
fn variables_get_after_set() {
    let mut v = Variables::new();
    assert_eq!(v.get(&"a".to_string()), None);
    v.set("a".to_string(), "1".to_string());
    v.set("b".to_string(), "2".to_string());
    v.set("a".to_string(), "3".to_string());
    assert_eq!(v.get(&"a".to_string()), Some("3".to_string()));
    assert_eq!(v.get(&"b".to_string()), Some("2".to_string()));
    let c = v.copy();
    assert_eq!(c.get(&"a".to_string()), Some("3".to_string()));
    let mut base = Variables::new();
    base.set("b".to_string(), "old".to_string());
    base.set("z".to_string(), "keep".to_string());
    base.override_with(&v);
    assert_eq!(base.get(&"b".to_string()), Some("2".to_string()));
    assert_eq!(base.get(&"z".to_string()), Some("keep".to_string()));
    assert_eq!(base.get(&"a".to_string()), Some("3".to_string()));
}

/// Drives a whole suite run, answering launches, sends and expectations with
/// success and every look at a process with its exit code from `codes`.
fn run_suite(input: &str, codes: &[i32]) -> Vec<String> {
    let suite = parse_to_ast(input).unwrap();
    let mut run = TestSuiteRunner::new(suite);
    let mut log = Vec::new();
    let mut event = SuiteEvent::Next;
    let mut polls = 0;
    loop {
        match run.step(event) {
            SuiteAction::Begin { index, label } => {
                log.push(format!("begin {} {}", index, label.trim_end()));
                event = SuiteEvent::Next;
            }
            SuiteAction::Perform(RunnerAction::PollExit { .. }) => {
                let code = codes[polls];
                polls += 1;
                event = SuiteEvent::Case(RunnerEvent::Polled { status: ProcessStatus::Exited(code), elapsed_ms: 1 });
            }
            SuiteAction::Perform(_) => event = SuiteEvent::Case(RunnerEvent::Completed),
            SuiteAction::Report { index, result } => {
                log.push(format!("report {} {:?}", index, result));
                event = SuiteEvent::Next;
            }
            SuiteAction::Summary(text) => {
                log.push(text);
                event = SuiteEvent::Next;
            }
            SuiteAction::Finished => break,
        }
    }
    log
}

#[test]
fn suite_runs_each_case_once_in_order() {
    let log = run_suite("[A]\n$ a\n? 0\n[B]\n$ b\n? 0\n[C]\n", &[0, 3]);
    assert_eq!(
        log,
        vec![
            "begin 0 Running [A]:".to_string(),
            "report 0 Ok(())".to_string(),
            "begin 1 Running [B]:".to_string(),
            "report 1 Err(WrongExitCode)".to_string(),
            "begin 2 Running [C]:".to_string(),
            "report 2 Ok(())".to_string(),
            "2/3 Successfull tests.".to_string(),
        ]
    );
}

#[test]
fn empty_suite_summary() {
    assert_eq!(run_suite("", &[]), vec!["0/0 Successfull tests.".to_string()]);
}

#[test]
fn cases_start_with_fresh_processes() {
    // Process 0 of the first test case is not known to the second one.
    let log = run_suite("[A]\n$ a\n[B]\n> x\n", &[]);
    assert_eq!(log[3], "report 1 Err(InvalidProcess)".to_string());
    assert_eq!(log[4], "1/2 Successfull tests.".to_string());
}
