pub mod diagnostics;
pub mod grammar;
pub mod lexer;
pub mod parser;
pub mod soundness;
pub mod syntax;
pub mod text;
pub mod tree;
