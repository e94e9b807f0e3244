//! A Turing machine simulator: a textual rule language with symbol lists,
//! ranges and complements, its parser, and a machine that runs the rules on
//! an unbounded tape.

pub mod text;
pub mod pattern;
pub mod rule;
pub mod expand;
pub mod syntax;
pub mod parser;
pub mod table;
pub mod machine;
pub mod laws;
