//! A compiler and stack virtual machine for a small Lisp: S-expressions are
//! lowered to a typed syntax tree, scopes are resolved into an intermediate
//! form, bytecode is emitted against a content-addressed constant pool, and a
//! stack machine with shared upvalue cells runs it.
use vstd::prelude::*;

pub mod sexpr;
pub mod text;
pub mod ast;
pub mod vm;
pub mod il;
pub mod hash;
pub mod bytecode;
pub mod program;
pub mod expand;

verus! {

} // verus!
