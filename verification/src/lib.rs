pub mod ast;
pub mod text;
pub mod semantics;
pub mod interp;
pub mod lexer;
pub mod grammar;
pub mod highlighter;
pub mod syntax;
pub mod parsing;
pub mod checker;
pub mod soundness;
pub mod session;
pub mod reading;
pub mod completeness;
pub mod acceptance;
pub mod laws;
