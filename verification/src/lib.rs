//! A terminal rendering engine driven by line-oriented text commands.
//!
//! - `cmd`: the commands (`Draw`, `Clear`, `Flush`, `QuerySize`).
//! - `text`: character classes and small helpers on characters.
//! - `token`: the lexer of command lines, as a specification and as code.
//! - `args`: argument lists, positional and named.
//! - `parser`: command lines into commands.
//! - `display`: the double-buffered canvas, the terminal operations of a
//!   frame, and the laws that tie them to what the terminal shows.
//! - `protocol`: the messages sent to the driven process.
//! - `cli`: the program's own command line and the command it runs.
//! - `session`: what the program does with each command it reads.
pub mod cmd;
pub mod text;
pub mod token;
pub mod args;
pub mod parser;
pub mod display;
pub mod protocol;
pub mod cli;
pub mod session;
