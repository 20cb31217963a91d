//! The data model of the tokenizer: token kinds, spans, contexts and errors.
pub mod comment;
pub mod context;
pub mod error;
pub mod literal;
pub mod punctuator;
pub mod template;
pub mod token;
