//! A compile-time program transformer for an s-expression surface language:
//! terms are lexed and parsed, rewritten by registered transforms, gated by
//! a suite of safety validators, expanded by a hygienic macro expander, and
//! lowered to host-language text or a stable IR. Every function is verified
//! against the mathematical model of its stage.

pub mod ast;
pub mod compiler;
pub mod ir;
pub mod lexer;
pub mod macro_expander;
pub mod parser;
pub mod pipeline;
pub mod sandbox;
pub mod text;
pub mod transform;
pub mod validator;
pub mod visualizer;
