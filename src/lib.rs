//! Front end of an interpreter for a small audio-synthesis scripting language:
//! an incremental, line-at-a-time lexer together with the source positions and
//! ranges that let every token and every error be traced back to the text.
pub mod pos;
pub mod text;
pub mod token;
pub mod error;
pub mod automaton;
pub mod lexer;
