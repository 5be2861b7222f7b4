//! A rule engine for source files.
//!
//! The engine takes the syntax tree of a file and a catalog of rules, asks
//! at each node the rules that look for its kind, and gives a report: the
//! violations of the file, each once, in a fixed order. Rules name
//! constructs by the kind and shape of nodes, so what a comment or a string
//! literal says is never taken for code. A rule may accept a justification:
//! a comment that begins with its marker and stands directly above the
//! construct.
//!
//! The tree comes from a parser of the host's choice, which fills a
//! `tree::SyntaxTree`. `engine::analyze_file` gives the report of one file,
//! `engine::analyze_corpus` the reports of many, `harness::verify_fixture`
//! holds a labelled example against the engine.

pub mod adjacency;
pub mod aggregate;
pub mod catalog;
pub mod engine;
pub mod harness;
pub mod immunity;
pub mod laws;
pub mod rule;
pub mod shape;
pub mod standard;
pub mod text;
pub mod traversal;
pub mod tree;
pub mod violation;
