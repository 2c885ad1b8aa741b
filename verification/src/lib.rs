//! A register-based virtual machine and the assembler for its language.
use vstd::prelude::*;

pub mod block;
pub mod class;
pub mod copy;
pub mod display;
pub mod eval;
pub mod expr;
pub mod expr_parser;
pub mod frames;
pub mod function;
pub mod host;
pub mod instruction;
pub mod maps;
pub mod op_code;
pub mod reader;
pub mod register;
pub mod runner;
pub mod scan;
pub mod stdin;
pub mod text;
pub mod value;
pub mod variable;

verus! {
} // verus!
