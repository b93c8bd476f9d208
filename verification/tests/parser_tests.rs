use ttt::ast::{InstructionNode, TestCaseNode, TestSuiteNode};
use ttt::common::{ExitCodeModifier, Instruction};
use ttt::grammar::{get_pairs, ParseError, ParseErrorKind, TestFileParser};
use ttt::test_parser::{parse, parse_to_ast, print_tree, InstructionType};

fn kind_at(input: &str) -> (usize, ParseErrorKind) {
    let e: ParseError = parse_to_ast(input).unwrap_err();
    (e.line, e.kind)
}

#[test]
fn empty_file_has_no_test_cases() {
    let suite = parse_to_ast("").unwrap();
    assert_eq!(suite.test_cases.len(), 0);
    assert_eq!(suite.name, "hardcoded lol");
}

#[test]
fn comments_and_blank_lines_are_ignored() {
    let with = parse_to_ast("# first\n[A]\n\n  # inside\n$ echo foo\n\n").unwrap();
    let without = parse_to_ast("[A]\n$ echo foo\n").unwrap();
    assert_eq!(with.test_cases.len(), 1);
    assert_eq!(with.test_cases[0].name, without.test_cases[0].name);
    assert_eq!(with.test_cases[0].instructions.len(), 1);
    assert!(matches!(&with.test_cases[0].instructions[0],
        Instruction::LaunchProcess { variable: None, string, process_id: 0 } if string == "echo foo"));
}

#[test]
fn several_test_cases() {
    let suite = parse_to_ast("[Test 1]\n$ echo foo\n> foo\n? 0\n\n[Test 2]\n$ uname\nr (l|L)inux\n? 0\n").unwrap();
    assert_eq!(suite.test_cases.len(), 2);
    assert_eq!(suite.test_cases[0].name, "Test 1");
    assert_eq!(suite.test_cases[1].name, "Test 2");
    assert_eq!(suite.test_cases[1].instructions.len(), 3);
    assert!(matches!(&suite.test_cases[1].instructions[1],
        Instruction::ExpectRegex { string, process_id: 0 } if string == "(l|L)inux"));
}

#[test]
fn empty_test_case_name() {
    let suite = parse_to_ast("[]\n").unwrap();
    assert_eq!(suite.test_cases[0].name, "");
}

#[test]
fn variables_before_first_test_case() {
    let suite = parse_to_ast("{program_name} = echo\n\n[Test Variable]\n$ {program_name} blub\n> blub\n? 0\n").unwrap();
    assert_eq!(suite.variables.get(&"program_name".to_string()), Some("echo".to_string()));
    assert_eq!(suite.variables.get(&"other".to_string()), None);
    assert!(matches!(&suite.test_cases[0].instructions[0],
        Instruction::LaunchProcess { variable: Some(v), string, process_id: 0 } if v == "program_name" && string == "blub"));
}

#[test]
fn later_variable_definition_wins() {
    let suite = parse_to_ast("{x} = one\n{x}=two\n").unwrap();
    assert_eq!(suite.variables.get(&"x".to_string()), Some("two".to_string()));
}

#[test]
fn variable_reference_without_value() {
    let suite = parse_to_ast("[T]\n3$ {server_path} 1337\n").unwrap();
    assert!(matches!(&suite.test_cases[0].instructions[0],
        Instruction::LaunchProcess { variable: Some(v), string, process_id: 3 } if v == "server_path" && string == "1337"));
}

#[test]
fn variable_after_test_case_is_rejected() {
    assert_eq!(kind_at("[T]\n{x} = y\n"), (2, ParseErrorKind::VariableAfterTestCase));
}

#[test]
fn instruction_outside_test_case_is_rejected() {
    assert_eq!(kind_at("# c\n$ echo\n"), (2, ParseErrorKind::InstructionOutsideTestCase));
}

#[test]
fn malformed_header_is_rejected() {
    assert_eq!(kind_at("[Test 1\n"), (1, ParseErrorKind::MalformedHeader));
    assert_eq!(kind_at("[\n"), (1, ParseErrorKind::MalformedHeader));
}

#[test]
fn malformed_variables_are_rejected() {
    assert_eq!(kind_at("{x = y\n"), (1, ParseErrorKind::MalformedVariable));
    assert_eq!(kind_at("{} = y\n"), (1, ParseErrorKind::MalformedVariable));
    assert_eq!(kind_at("{x} y\n"), (1, ParseErrorKind::MalformedVariable));
    assert_eq!(kind_at("[T]\n$ {prog arg\n"), (2, ParseErrorKind::MalformedVariable));
}

#[test]
fn unknown_instruction_is_rejected() {
    assert_eq!(kind_at("[T]\nx foo\n"), (2, ParseErrorKind::UnknownInstruction));
    assert_eq!(kind_at("[T]\n12\n"), (2, ParseErrorKind::UnknownInstruction));
}

#[test]
fn process_numbers() {
    let suite = parse_to_ast("[T]\n255$ a\n007> b\n").unwrap();
    assert_eq!(suite.test_cases[0].instructions[0].process_id(), 255);
    assert_eq!(suite.test_cases[0].instructions[1].process_id(), 7);
    assert_eq!(kind_at("[T]\n256$ a\n"), (2, ParseErrorKind::ProcessNumberOutOfRange));
    assert_eq!(kind_at("[T]\n99999999999999999999$ a\n"), (2, ParseErrorKind::ProcessNumberOutOfRange));
}

#[test]
fn exit_codes() {
    let suite = parse_to_ast("[T]\n? 0\n? <3\n? >1\n? -1\n? -2147483648\n? 2147483647\n").unwrap();
    let expected = [
        (ExitCodeModifier::Equals, 0),
        (ExitCodeModifier::LessThan, 3),
        (ExitCodeModifier::MoreThan, 1),
        (ExitCodeModifier::Equals, -1),
        (ExitCodeModifier::Equals, i32::MIN),
        (ExitCodeModifier::Equals, i32::MAX),
    ];
    for (i, (m, c)) in expected.iter().enumerate() {
        match &suite.test_cases[0].instructions[i] {
            Instruction::ExpectExitCode { modifier, exit_code, process_id } => {
                assert_eq!(modifier, m);
                assert_eq!(exit_code, c);
                assert_eq!(*process_id, 0);
            }
            other => panic!("unexpected instruction {:?}", other),
        }
    }
    assert_eq!(kind_at("[T]\n? abc\n"), (2, ParseErrorKind::InvalidExitCode));
    assert_eq!(kind_at("[T]\n? 2147483648\n"), (2, ParseErrorKind::InvalidExitCode));
    assert_eq!(kind_at("[T]\n?\n"), (2, ParseErrorKind::InvalidExitCode));
    assert_eq!(kind_at("[T]\n? <\n"), (2, ParseErrorKind::InvalidExitCode));
}

#[test]
fn control_characters() {
    let suite = parse_to_ast("[T]\n^ C\n1^ D\n").unwrap();
    assert!(matches!(&suite.test_cases[0].instructions[0], Instruction::SendControlChar { character: 'C', process_id: 0 }));
    assert!(matches!(&suite.test_cases[0].instructions[1], Instruction::SendControlChar { character: 'D', process_id: 1 }));
    assert_eq!(kind_at("[T]\n^ CD\n"), (2, ParseErrorKind::InvalidControlChar));
    assert_eq!(kind_at("[T]\n^\n"), (2, ParseErrorKind::InvalidControlChar));
}

#[test]
fn one_space_after_identifier_is_dropped() {
    let suite = parse_to_ast("[T]\n>  two spaces\n>none\n< \n").unwrap();
    assert!(matches!(&suite.test_cases[0].instructions[0], Instruction::ExpectStdout { string, .. } if string == " two spaces"));
    assert!(matches!(&suite.test_cases[0].instructions[1], Instruction::ExpectStdout { string, .. } if string == "none"));
    assert!(matches!(&suite.test_cases[0].instructions[2], Instruction::SendStdin { string, .. } if string == ""));
}

#[test]
fn carriage_returns_are_dropped() {
    let suite = parse_to_ast("[T]\r\n$ echo foo\r\n> foo\r\n").unwrap();
    assert_eq!(suite.test_cases[0].name, "T");
    assert!(matches!(&suite.test_cases[0].instructions[0],
        Instruction::LaunchProcess { string, .. } if string == "echo foo"));
}

#[test]
fn non_ascii_text() {
    let suite = parse_to_ast("[Tëst ✓]\n> grüße\n").unwrap();
    assert_eq!(suite.test_cases[0].name, "Tëst ✓");
    assert!(matches!(&suite.test_cases[0].instructions[0], Instruction::ExpectStdout { string, .. } if string == "grüße"));
}

#[test]
fn parse_and_parse_to_ast_agree() {
    let input = "[A]\n$ echo\n";
    let a = parse(input).unwrap();
    let b = parse_to_ast(input).unwrap();
    assert_eq!(a.test_cases[0].name, b.test_cases[0].name);
    assert_eq!(parse("[A\n").unwrap_err(), parse_to_ast("[A\n").unwrap_err());
}

#[test]
fn pairs_keep_the_raw_text() {
    let pairs = TestFileParser::parse("{v} = x y\n[A]\n12$ {v} z\n").unwrap();
    assert_eq!(pairs.variables.len(), 1);
    assert_eq!(pairs.variables[0].name, "v");
    assert_eq!(pairs.variables[0].value, "x y");
    let ins = &pairs.test_cases[0].instructions[0];
    assert_eq!(ins.process_number.as_deref(), Some("12"));
    assert_eq!(ins.identifier, '$');
    assert_eq!(ins.payload, "{v} z");
    let again = get_pairs("[A]\n$ b\n");
    assert_eq!(again.test_cases[0].instructions[0].payload, "b");
}

#[test]
fn instruction_types() {
    assert_eq!(InstructionType::parse_from('$'), InstructionType::LaunchProcess);
    assert_eq!(InstructionType::parse_from('<'), InstructionType::PutStdin);
    assert_eq!(InstructionType::parse_from('>'), InstructionType::ExpectStdout);
    assert_eq!(InstructionType::parse_from('r'), InstructionType::ExpectRegex);
    assert_eq!(InstructionType::parse_from('^'), InstructionType::SendControlCharacter);
    assert_eq!(InstructionType::parse_from('?'), InstructionType::ExpectExitCode);
}

#[test]
fn tree_of_a_file() {
    let tree = print_tree("{p} = echo\n[T]\n1$ {p} x\n? <2\n").unwrap();
    let lines = [
        "TestSuite",
        "  VariableDefinition",
        "    VariableName: p",
        "    VariableValue: echo",
        "  TestCase",
        "    TestCaseName: T",
        "    Instruction",
        "      ProcessNumber: 1",
        "      InstructionIdentifier",
        "        IdentifierLaunch: $",
        "      Payload: {p} x",
        "    Instruction",
        "      InstructionIdentifier",
        "        IdentifierExitCode: ?",
        "      Payload: <2",
    ];
    let mut expected = String::new();
    for l in lines.iter() {
        expected.push_str(l);
        expected.push('\n');
    }
    assert_eq!(tree, expected);
}

#[test]
fn tree_of_an_unreadable_file() {
    assert_eq!(print_tree("[T]\nq\n").unwrap_err(), ParseError { line: 2, kind: ParseErrorKind::UnknownInstruction });
}

#[test]
fn node_tree() {
    let pairs = get_pairs("[One]\n3$ a\n[Two]\n");
    let (node, trace) = TestSuiteNode::parse_from(&pairs);
    assert_eq!(trace, "TestCase\nTestCase\n");
    match node {
        TestSuiteNode::TestCases(cases) => {
            assert_eq!(cases.len(), 2);
            assert!(matches!(&cases[0], TestCaseNode::Name(n) if n == "One"));
            assert!(matches!(&cases[1], TestCaseNode::Name(n) if n == "Two"));
        }
    }
    let ins = &pairs.test_cases[0].instructions[0];
    assert!(matches!(InstructionNode::parse_from(ins), InstructionNode::ProcessNumber(3)));
    let plain = get_pairs("[A]\n> x\n");
    assert!(matches!(InstructionNode::parse_from(&plain.test_cases[0].instructions[0]),
        InstructionNode::InstructionIdentifier(s) if s == ">"));
}

#[test]
fn missing_process_number_means_zero() {
    let a = parse_to_ast("[T]\n0$ echo a\n0? <2\n").unwrap();
    let b = parse_to_ast("[T]\n$ echo a\n? <2\n").unwrap();
    for i in 0..2 {
        assert_eq!(a.test_cases[0].instructions[i].process_id(), 0);
        assert_eq!(
            format!("{:?}", a.test_cases[0].instructions[i]),
            format!("{:?}", b.test_cases[0].instructions[i])
        );
    }
    assert_eq!(kind_at("[T]\n0^ ab\n"), kind_at("[T]\n^ ab\n"));
}

#[test]
fn tree_and_suite_report_the_same_error() {
    for input in ["[T]\n? x\n", "$ a\n", "[T\n", "[T]\n{v} = 1\n"] {
        assert_eq!(print_tree(input).unwrap_err(), parse_to_ast(input).unwrap_err());
    }
    assert!(print_tree("[T]\n$ a\n").is_ok());
}

#[test]
fn error_lines_exist() {
    let input = "\n\n[T]\n\n$ ok\nbad line\n";
    let e = parse_to_ast(input).unwrap_err();
    assert_eq!(e, ParseError { line: 6, kind: ParseErrorKind::UnknownInstruction });
    assert!(e.line >= 1 && e.line <= input.chars().count());
}

#[test]
fn variables_only_in_launch_instructions() {
    let suite = parse_to_ast("[T]\n> {x}\n< {x} y\n").unwrap();
    assert!(matches!(&suite.test_cases[0].instructions[0], Instruction::ExpectStdout { string, .. } if string == "{x}"));
    assert!(matches!(&suite.test_cases[0].instructions[1], Instruction::SendStdin { string, .. } if string == "{x} y"));
}

#[test]
fn tree_of_an_empty_file() {
    assert_eq!(print_tree("").unwrap(), "TestSuite: \n");
    assert_eq!(print_tree("# only\n").unwrap(), "TestSuite: # only\n\n");
}

#[test]
fn node_trace_of_a_file_without_test_cases() {
    let (node, trace) = TestSuiteNode::parse_from(&get_pairs("{v} = 1\n"));
    assert_eq!(trace, "");
    assert!(matches!(node, TestSuiteNode::TestCases(cases) if cases.is_empty()));
}
