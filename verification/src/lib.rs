use vstd::prelude::*;

pub mod text;
pub mod token;
pub mod lexer;
pub mod ast;
pub mod parser;
pub mod code;
pub mod object;
pub mod environment;
pub mod builtins;
pub mod evaluator;
pub mod symbol_table;
pub mod compiler;
pub mod frame;
pub mod vm;
pub mod repl;

verus! {

/// Marks an intermediate result of a computation, so that a proof can point
/// at it as the witness of a relation that names it.
pub open spec fn step<A>(a: A) -> bool {
    true
}

} // verus!
