//! An engine for HTTP test cases written as sectioned plain text.
//!
//! A document holds test cases apart by `---` lines. Each test case is a
//! block of `key: value` lines, some of which open a section of indented
//! lines. [`parser::Parser::parse`] reads a document into
//! [`testcase::TestCase`] values; [`testcase::TestCase::request`] says what to
//! send for one, [`testcase::TestCase::judge`] decides how it ended, and
//! [`runner::Collector`] puts the results of calls that end in any order into
//! the order of the test cases. Sending the requests is left to the caller.
//!
//! Every function states what it returns over character sequences, mappings
//! and the spec functions of its module, and is proved to return that.

pub mod assertions;
pub mod document;
pub mod error;
pub mod fields;
pub mod laws;
pub mod method;
pub mod number;
pub mod parser;
pub mod result;
pub mod runner;
pub mod section;
pub mod testcase;
pub mod text;
