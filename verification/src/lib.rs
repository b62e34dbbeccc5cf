//! A structured, round-trippable editor for Graphviz DOT text.
//!
//! A DOT document is parsed into a flat, ordered list of [`chunk::Chunk`]s,
//! one for each node, edge, subgraph and attribute statement, each with the
//! lines of the source that it came from. The list is edited by commands
//! and written back as DOT text, in which the nesting of subgraphs is
//! rebuilt from the line ranges.
//!
//! * [`lexer`] and [`grammar`] state the DOT grammar as functions on
//!   sequences of characters; [`parser`] computes them.
//! * [`commands`] holds the edit commands and [`commands::apply_command`];
//!   [`invariants`] proves what every command keeps.
//! * [`dsl`] is a small textual edit language with its own interpreter.
//! * [`serializer`] writes a chunk list as DOT text.
//! * [`tool`] turns named tool calls into commands and answers queries.
//! * [`roundtrip`] proves that parsing inverts writing.
//!
//! Every function comes with a contract over the mathematical model of its
//! arguments, the view of each type, and is verified against it.

pub mod attrs;
pub mod chunk;
pub mod commands;
pub mod dsl;
pub mod error;
pub mod grammar;
pub mod invariants;
pub mod lexer;
pub mod parser;
pub mod roundtrip;
pub mod seqs;
pub mod serializer;
pub mod text;
pub mod tool;
