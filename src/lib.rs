pub mod ast;
pub mod operators;
pub mod literal;
pub mod fold;
pub mod parser;
pub mod executor;
pub mod constructors;
pub mod program;
pub mod semantics;
pub mod grammar;
