//! Tokens of the language and the scanners that recognise them.
pub mod structs;
pub mod tokenize;
