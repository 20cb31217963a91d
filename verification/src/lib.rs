//! A lexical analyzer for a JavaScript-like language.
//!
//! [`token::tokenize::tokenize`] turns a source text into a sequence of
//! positioned tokens whose spans tile the text; [`ast`] holds the source
//! reader the scanners pull from and a small arithmetic front end with a
//! token model of its own.
pub mod ast;
pub mod character_patterns;
pub mod token;
