//! Front end of the JX configuration language: a JSON superset with binary
//! expressions, variable references and list comprehensions.
//!
//! The library scans raw source text into a token sequence and parses that
//! sequence, by recursive descent with speculative backtracking, into a
//! syntax tree.  Both stages are pure functions of their input and both are
//! specified against mathematical models: the scanner against a character
//! automaton (`scanner::scan_spec`) and the parser against a grammar
//! interpreter (`parser::parse_tokens_spec`).

pub mod num;
pub mod text;
pub mod token;
pub mod scanner;
pub mod ast;
pub mod symbol_tab;
pub mod parser;
pub mod laws;
