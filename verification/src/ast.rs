//! A node tree over the syntax of a `.test` file, one node per first part.
use vstd::prelude::*;

use crate::grammar::{instruction_wf, InstructionSyntax, ParsedInstruction, ParsedSuite, ParsedTestCase, SuiteSyntax, TestCaseSyntax};
use crate::test_parser::{instruction_of, process_id_of, rule_name, Rule};
use crate::text::{append_str, chars_of, decimal_at_most, decimal_value, push_char, string_from};

verus! {

#[derive(Debug)]
pub enum TestSuiteNode {
    TestCases(Vec<TestCaseNode>),
}

#[derive(Debug)]
pub enum TestCaseNode {
    Name(String),
    Instructions(Vec<InstructionNode>),
}

#[derive(Debug)]
pub enum InstructionNode {
    ProcessNumber(u8),
    InstructionIdentifier(String),
    Payload(String),
}

pub enum InstructionNodeView {
    ProcessNumber(u8),
    InstructionIdentifier(Seq<char>),
    Payload(Seq<char>),
}

pub enum TestCaseNodeView {
    Name(Seq<char>),
    Instructions(Seq<InstructionNodeView>),
}

pub enum TestSuiteNodeView {
    TestCases(Seq<TestCaseNodeView>),
}

impl View for InstructionNode {
    type V = InstructionNodeView;

    open spec fn view(&self) -> InstructionNodeView {
        match self {
            InstructionNode::ProcessNumber(n) => InstructionNodeView::ProcessNumber(*n),
            InstructionNode::InstructionIdentifier(s) => InstructionNodeView::InstructionIdentifier(s@),
            InstructionNode::Payload(s) => InstructionNodeView::Payload(s@),
        }
    }
}

impl View for TestCaseNode {
    type V = TestCaseNodeView;

    open spec fn view(&self) -> TestCaseNodeView {
        match self {
            TestCaseNode::Name(s) => TestCaseNodeView::Name(s@),
            TestCaseNode::Instructions(v) => TestCaseNodeView::Instructions(
                v@.map_values(|i: InstructionNode| i@),
            ),
        }
    }
}

impl View for TestSuiteNode {
    type V = TestSuiteNodeView;

    open spec fn view(&self) -> TestSuiteNodeView {
        match self {
            TestSuiteNode::TestCases(v) => TestSuiteNodeView::TestCases(
                v@.map_values(|c: TestCaseNode| c@),
            ),
        }
    }
}

/// The node of an instruction: its first part, which is the process number
/// where the line has one and the identifier otherwise.
pub open spec fn instruction_node_of(s: InstructionSyntax) -> InstructionNodeView {
    match s.process_number {
        Some(d) => InstructionNodeView::ProcessNumber(decimal_value(d) as u8),
        None => InstructionNodeView::InstructionIdentifier(seq![s.identifier]),
    }
}

/// The node of a test case: its first part, its name.
pub open spec fn test_case_node_of(c: TestCaseSyntax) -> TestCaseNodeView {
    TestCaseNodeView::Name(c.name)
}

/// The node of a file: the nodes of its test cases.
pub open spec fn suite_node_of(s: SuiteSyntax) -> TestSuiteNodeView {
    TestSuiteNodeView::TestCases(s.test_cases.map_values(|c: TestCaseSyntax| test_case_node_of(c)))
}

impl InstructionNode {
    /// The node of a well-formed instruction line.
    pub fn parse_from(pair: &ParsedInstruction) -> (n: InstructionNode)
        requires
            instruction_wf(pair@),
        ensures
            n@ == instruction_node_of(pair@),
    {
        match &pair.process_number {
            Some(digits) => {
                let d = chars_of(digits.as_str());
                assert(d@.subrange(0, d@.len() as int) =~= d@);
                match decimal_at_most(&d, 0, d.len(), 255) {
                    Some(v) => InstructionNode::ProcessNumber(v as u8),
                    None => InstructionNode::ProcessNumber(0),
                }
            },
            None => {
                let mut id = String::new();
                push_char(&mut id, pair.identifier);
                assert(id@ =~= seq![pair.identifier]);
                InstructionNode::InstructionIdentifier(id)
            },
        }
    }
}

impl TestCaseNode {
    /// The node of a test case.
    pub fn parse_from(pair: &ParsedTestCase) -> (n: TestCaseNode)
        ensures
            n@ == test_case_node_of(pair@),
    {
        TestCaseNode::Name(pair.name.clone())
    }
}

/// The trace of reading the nodes of `count` test cases: the rule of each,
/// `TestCase`, on a line of its own.
pub open spec fn test_case_trace(count: nat) -> Seq<char>
    decreases count,
{
    if count == 0 {
        Seq::empty()
    } else {
        test_case_trace((count - 1) as nat) + rule_name(Rule::TestCase) + seq!['\n']
    }
}

impl TestSuiteNode {
    /// The node of a file, and the trace of reading it: the rule of each of
    /// its parts (each a test case) on a line of its own, for the caller to
    /// show.
    pub fn parse_from(pairs: &ParsedSuite) -> (r: (TestSuiteNode, String))
        ensures
            r.0@ == suite_node_of(pairs@),
            r.1@ == test_case_trace(pairs@.test_cases.len()),
    {
        let mut trace: Vec<char> = Vec::new();
        let mut nodes: Vec<TestCaseNode> = Vec::new();
        let count = pairs.test_cases.len();
        let mut i: usize = 0;
        while i < count
            invariant
                count == pairs.test_cases@.len(),
                i <= count,
                nodes@.map_values(|c: TestCaseNode| c@) =~= pairs@.test_cases.take(i as int).map_values(
                    |c: TestCaseSyntax| test_case_node_of(c),
                ),
                trace@ == test_case_trace(i as nat),
            decreases count - i,
        {
            append_str(&mut trace, Rule::TestCase.name());
            trace.push('\n');
            assert(trace@ =~= test_case_trace((i + 1) as nat));
            let node = TestCaseNode::parse_from(&pairs.test_cases[i]);
            let ghost prev = nodes@;
            nodes.push(node);
            proof {
                let f = |c: TestCaseNode| c@;
                let g = |c: TestCaseSyntax| test_case_node_of(c);
                assert(nodes@.map_values(f) =~= prev.map_values(f).push(node@));
                assert(pairs@.test_cases[i as int] == pairs.test_cases@[i as int]@);
                assert(pairs@.test_cases.take(i + 1).map_values(g) =~= pairs@.test_cases.take(
                    i as int,
                ).map_values(g).push(g(pairs@.test_cases[i as int])));
            }
            i = i + 1;
        }
        assert(pairs@.test_cases.take(count as int) =~= pairs@.test_cases);
        (TestSuiteNode::TestCases(nodes), string_from(&trace))
    }
}


/// The process number node of an instruction carries the whole number that
/// its digits write, which is the process the instruction addresses; an
/// instruction without digits shows its identifier first and addresses
/// process 0.
pub proof fn lemma_process_number_node(s: InstructionSyntax)
    requires
        instruction_wf(s),
    ensures
        s.process_number matches Some(d) ==> {
            &&& instruction_node_of(s) == InstructionNodeView::ProcessNumber(instruction_of(s).process_id())
            &&& instruction_of(s).process_id() as nat == decimal_value(d)
        },
        s.process_number is None ==> {
            &&& instruction_node_of(s) == InstructionNodeView::InstructionIdentifier(seq![s.identifier])
            &&& instruction_of(s).process_id() == 0
        },
{
    crate::test_parser::lemma_identifier_decides_instruction(s);
}

} // verus!
