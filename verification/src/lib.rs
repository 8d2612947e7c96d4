//! A command-line pipeline compiler: it lexes one line of shell syntax into
//! tokens, parses the tokens into a chain of pipeline stages, and turns that
//! chain into an execution plan whose stream wiring is stated and proved.
//! A small job registry tracks background pipelines until they finish or are
//! killed at shell exit.
//!
//! All process, file and terminal work is left to the caller: the library
//! computes what to launch and how to wire it, and the caller performs it.

pub mod exec;
pub mod functional;
pub mod lexer;
pub mod numfmt;
pub mod parser;
pub mod process;
pub mod shell;
pub mod words;
