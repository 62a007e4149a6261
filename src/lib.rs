//! Command-language front end of an interactive shell: a line parser that
//! yields statements, the pipeline and job model with its glob pass, and the
//! selector engine that resolves index, range and key expressions.
pub mod lexer;
pub mod parser;
pub mod pipeline;
pub mod select;
