//! A small C compiler: lexer, recursive-descent parser and x86-64 code
//! generator, each stated against a mathematical model and proved.
pub mod ast;
pub mod generator;
pub mod generator_laws;
pub mod lexer;
pub mod numbers;
pub mod parser;
pub mod parser_laws;
pub mod pattern;
pub mod stack_laws;
