//! Instructions.

use crate::gc::GcRef;
use crate::objects::Object;
use vstd::prelude::*;

verus! {

/// One instruction of a compiled program.
#[derive(Clone, Copy, Debug, PartialEq, Eq, Structural)]
pub enum Op {
    Constant(Object),
    Push,
    Cons,
    NumberAdd,
    AddPair,
    DefineGlobal(GcRef),
    ReferGlobal(GcRef),
    ReferLocal(isize),
    ReferFree(usize),
    LetFrame(isize),
    Enter(isize),
    Leave(isize),
    Display(isize),
    Closure { size: usize, arg_len: isize, is_optional_arg: bool, num_free_vars: isize },
    Test(usize),
    LocalJmp(usize),
    Call(isize),
    Return(isize),
    Frame(usize),
    Halt,
    Undef,
    Nop,
}

impl Op {
    /// The value an instruction carries as a literal operand, if any. Such a
    /// value is a root for as long as the program is loaded.
    pub open spec fn constant(self) -> Option<Object> {
        match self {
            Op::Constant(v) => Some(v),
            Op::DefineGlobal(s) => Some(Object::Symbol(s)),
            Op::ReferGlobal(s) => Some(Object::Symbol(s)),
            _ => None,
        }
    }

    /// The value the instruction carries as a literal operand, if any.
    pub fn as_constant(&self) -> (c: Option<Object>)
        ensures
            c == self.constant(),
    {
        match self {
            Op::Constant(v) => Some(*v),
            Op::DefineGlobal(s) => Some(Object::Symbol(*s)),
            Op::ReferGlobal(s) => Some(Object::Symbol(*s)),
            _ => None,
        }
    }
}

} // verus!
