//! Call frames of the virtual machine.
use vstd::prelude::*;
use crate::code::Instructions;
use crate::object::Closure;

verus! {

/// One function activation: the closure being run, the position of the
/// last instruction read (-1 before the first), and where its slots on the
/// stack begin.
#[derive(Debug)]
pub struct Frame {
    pub cl: Closure,
    pub ip: i64,
    pub base_pointer: usize,
}

impl Frame {
    /// A frame about to run `cl` from its first instruction.
    pub fn new(cl: Closure, base_pointer: usize) -> (f: Frame)
        ensures
            f.cl == cl,
            f.ip == -1,
            f.base_pointer == base_pointer,
    {
        Frame { cl, ip: -1, base_pointer }
    }

    /// The instructions the frame runs.
    pub fn instructions(&self) -> (ins: &Instructions)
        ensures
            *ins == self.cl.func.instructions,
    {
        &self.cl.func.instructions
    }
}

} // verus!
