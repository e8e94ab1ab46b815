//! Formatting and parsing, one after the other: the text of a parsed file is a text that
//! parses again, to a file with the same text.
pub mod chain;
pub mod fits;
pub mod items;
pub mod law;
pub mod lines;
pub mod parsed;
pub mod sound;
pub mod statements;
pub mod text;
pub mod types;
