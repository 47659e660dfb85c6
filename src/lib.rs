//! An incremental reduction engine for a subset of the ECMAScript syntactic
//! grammar: a lexical disambiguator, a grammar table, and two consumer
//! protocols over one shared reduction core.
pub mod lexer;
pub mod grammar;
pub mod parser;
pub mod stream_parser;
