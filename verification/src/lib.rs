//! A record/grid text processor: a small DSL of record operations (fields
//! split by a regex) and grid operations (cells of a character grid), with
//! its parser and evaluation engine.
pub mod text;
pub mod num;
pub mod ast;
pub mod lexer;
pub mod parser;
pub mod seqs;
pub mod pattern;
pub mod util;
pub mod table;
pub mod record;
pub mod grid;
pub mod order;
pub mod engine;
