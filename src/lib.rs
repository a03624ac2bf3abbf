pub mod bignat;
pub mod classify;
pub mod compiler;
pub mod error;
pub mod keywords;
pub mod lexer;
pub mod number;
pub mod operators;
pub mod pipeline;
pub mod roundtrip;
pub mod solver;
pub mod token;
