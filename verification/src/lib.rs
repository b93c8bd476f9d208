//! Terminal testing: reads `.test` files, which describe how programs are
//! launched, fed with input and expected to answer, and decides, step by
//! step, what a run of each test case does and whether it passes.
pub mod ast;
pub mod common;
pub mod grammar;
pub mod test_parser;
pub mod test_runner;
pub mod text;
