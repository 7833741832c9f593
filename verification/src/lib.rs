//! A small language runtime: programs arrive as an abstract syntax tree for a
//! Python-like language, are lowered into a linear bytecode representation,
//! and run on a stack-based virtual machine over a dynamically typed object
//! model.
//!
//! The crate is organised leaf first: the object model ([`pyobject`]) knows
//! nothing of the rest; the instruction set ([`bytecode`]) is the shared
//! contract between the compiler ([`compile`]) and the machine ([`vm`]).
//! A character-level front end ([`lexer`], [`parser`]) produces the syntax
//! tree ([`ast`]) that the compiler consumes.

pub mod ast;
pub mod builtins;
pub mod bytecode;
pub mod compile;
pub mod decimal;
pub mod errors;
pub mod laws;
pub mod lexer;
pub mod parser;
pub mod pyobject;
pub mod vm;
