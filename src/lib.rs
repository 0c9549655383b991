//! Compile-time and value core of a Starlark-family language: syntax
//! validation, bytecode compilation of function definitions and
//! comprehensions, the immutable tuple value, and a bytecode profiler.
use vstd::prelude::*;

pub mod compiler;
pub mod opcode;
pub mod order;
pub mod profile;
pub mod syntax;
pub mod text;
pub mod tuple;
pub mod validate;

verus! {

} // verus!
