//! A lexer for a small expression language: comparison operators, boolean
//! connectives, parentheses, dotted identifiers, numbers and quoted strings.
//! Each step of the scanner is specified by a spec function over the source
//! characters, and the executable lexer is proved to follow it.
//!
//! The `l2c` module holds the verified helpers of a small tool that turns
//! log lines into delimited records: declaration parsing and field quoting.

pub mod ascii;
pub mod scan;
pub mod lexer;
pub mod laws;
pub mod l2c;
