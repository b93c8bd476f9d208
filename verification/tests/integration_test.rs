use ttt::common::{ExitCodeModifier, Instruction};
use ttt::test_parser;
use ttt::test_runner::{ProcessStatus, RunnerAction, RunnerEvent, TestSuiteRunner};

/// Answers each action as a well-behaved process would: launches, sends and
/// expectations succeed, and processes exit with code 0.
fn answer(action: &RunnerAction) -> RunnerEvent {
    match action {
        RunnerAction::PollExit { .. } => RunnerEvent::Polled { status: ProcessStatus::Exited(0), elapsed_ms: 10 },
        _ => RunnerEvent::Completed,
    }
}

#[test]
fn sample_test() {
    let test_data = "[Test 1]\n\
                            $ echo blub\n\
                            > blub\n\
                            ? 0\n";

    let test_suite = test_parser::parse(test_data).unwrap();
    assert_eq!(test_suite.test_cases.len(), 1);
    assert_eq!(test_suite.test_cases[0].name, "Test 1");

    let runner = TestSuiteRunner::new(test_suite);
    let mut case = runner.runner(0);
    let mut event = RunnerEvent::Start;
    let mut actions = Vec::new();
    let result = loop {
        let action = case.step(event);
        if let RunnerAction::Finish(r) = action {
            break r;
        }
        event = answer(&action);
        actions.push(action);
    };
    assert_eq!(result, Ok(()));
    assert_eq!(actions.len(), 3);
    match &actions[0] {
        RunnerAction::Launch { process_id, command } => {
            assert_eq!(*process_id, 0);
            assert_eq!(command, "echo blub");
        }
        other => panic!("unexpected action {:?}", other),
    }
    match &actions[1] {
        RunnerAction::Expect { process_id, string } => {
            assert_eq!(*process_id, 0);
            assert_eq!(string, "blub");
        }
        other => panic!("unexpected action {:?}", other),
    }
    assert!(matches!(actions[2], RunnerAction::PollExit { process_id: 0, first: true }));
}

#[test]
fn use_each_instruction() {
    let test_data = "[Test 2]\n\
    0$ echo blub\n\
    0> blub\n\
    1$ cat\n\
    1< foo bar\n\
    1r foo bar\n\
    1^ d\n\
    1? 0\n";

    let test_suite = test_parser::parse(test_data).unwrap();
    let instructions = &test_suite.test_cases[0].instructions;
    assert_eq!(instructions.len(), 7);
    assert!(matches!(&instructions[0], Instruction::LaunchProcess { variable: None, string, process_id: 0 } if string == "echo blub"));
    assert!(matches!(&instructions[1], Instruction::ExpectStdout { string, process_id: 0 } if string == "blub"));
    assert!(matches!(&instructions[2], Instruction::LaunchProcess { variable: None, string, process_id: 1 } if string == "cat"));
    assert!(matches!(&instructions[3], Instruction::SendStdin { string, process_id: 1 } if string == "foo bar"));
    assert!(matches!(&instructions[4], Instruction::ExpectRegex { string, process_id: 1 } if string == "foo bar"));
    assert!(matches!(&instructions[5], Instruction::SendControlChar { character: 'd', process_id: 1 }));
    assert!(matches!(
        &instructions[6],
        Instruction::ExpectExitCode { modifier: ExitCodeModifier::Equals, exit_code: 0, process_id: 1 }
    ));

    let runner = TestSuiteRunner::new(test_suite);
    let mut case = runner.runner(0);
    let mut event = RunnerEvent::Start;
    let mut count = 0;
    let result = loop {
        let action = case.step(event);
        if let RunnerAction::Finish(r) = action {
            break r;
        }
        event = answer(&action);
        count += 1;
    };
    assert_eq!(result, Ok(()));
    assert_eq!(count, 7);
}
