//! A stack-based bytecode machine and the single-pass compiler that lowers
//! parsed statements to it, with their behaviour stated and proved.

use vstd::prelude::*;

pub mod agent;
pub mod ast;
pub mod arith;
pub mod bytecode;
pub mod compiler;
pub mod error;
pub mod instruction;
pub mod interpreter;
pub mod laws;
pub mod lowering;
pub mod machine;
pub mod opcode;
pub mod scope;
pub mod value;
