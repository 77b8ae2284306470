//! What ends a run other than its result.

use crate::gc::GcRef;
use crate::objects::Object;
use crate::op::Op;
use vstd::prelude::*;

verus! {

/// The classes of failure.
#[derive(Clone, Copy, Debug, PartialEq, Eq, Structural)]
pub enum ErrorKind {
    /// An operand has the wrong shape.
    Type,
    /// A global is referred to that was never defined.
    Binding,
    /// A call hands over the wrong number of arguments, or asks for optional
    /// arguments.
    Arity,
    /// Control goes where it cannot.
    Control,
    /// A limit of the machine is reached.
    Capacity,
}

/// Why a run was given up: the instruction that failed and the values it failed
/// on.
#[derive(Clone, Copy, Debug, PartialEq, Eq, Structural)]
pub enum VmError {
    /// Two numbers were asked for.
    NumbersRequired { op: Op, lhs: Object, rhs: Object },
    /// A pair was asked for.
    PairRequired { op: Op, value: Object },
    /// A saved frame pointer was asked for.
    FramePointerRequired { op: Op, value: Object },
    /// A return address, a number that is not negative, was asked for.
    ReturnAddressRequired { op: Op, value: Object },
    /// The display register does not hold a closure.
    DisplayRequired { op: Op, value: Object },
    /// The global `symbol` has no value.
    Unbound { op: Op, symbol: GcRef },
    /// The callee takes `expected` arguments, the call gives `given`.
    WrongArguments { op: Op, expected: isize, given: isize },
    /// The callee takes optional arguments.
    OptionalArguments { op: Op },
    /// The accumulator holds nothing that can be called.
    NotCallable { op: Op, value: Object },
    /// The sum of `lhs` and `rhs` is no `isize`.
    NumberOverflow { op: Op, lhs: Object, rhs: Object },
    /// The operand stack is full.
    StackOverflow { op: Op },
    /// The instruction reaches outside the part of the stack that is in use.
    StackOutOfBounds { op: Op },
    /// The closure in the display has no captured variable of that index.
    FreeVariableOutOfBounds { op: Op },
    /// The address to return to is no `isize` that is not negative.
    ReturnAddressOutOfRange { op: Op },
    /// The byte count of the heap would leave `usize`.
    HeapExhausted,
    /// The run has taken as many instructions as it may.
    StepLimit,
}

impl VmError {
    /// The class the failure belongs to.
    pub open spec fn spec_kind(&self) -> ErrorKind {
        match self {
            VmError::NumbersRequired { .. } => ErrorKind::Type,
            VmError::PairRequired { .. } => ErrorKind::Type,
            VmError::FramePointerRequired { .. } => ErrorKind::Type,
            VmError::ReturnAddressRequired { .. } => ErrorKind::Type,
            VmError::DisplayRequired { .. } => ErrorKind::Type,
            VmError::Unbound { .. } => ErrorKind::Binding,
            VmError::WrongArguments { .. } => ErrorKind::Arity,
            VmError::OptionalArguments { .. } => ErrorKind::Arity,
            VmError::NotCallable { .. } => ErrorKind::Control,
            VmError::NumberOverflow { .. } => ErrorKind::Capacity,
            VmError::StackOverflow { .. } => ErrorKind::Capacity,
            VmError::StackOutOfBounds { .. } => ErrorKind::Capacity,
            VmError::FreeVariableOutOfBounds { .. } => ErrorKind::Capacity,
            VmError::ReturnAddressOutOfRange { .. } => ErrorKind::Capacity,
            VmError::HeapExhausted => ErrorKind::Capacity,
            VmError::StepLimit => ErrorKind::Capacity,
        }
    }

    /// The class the failure belongs to.
    #[verifier::when_used_as_spec(spec_kind)]
    pub fn kind(&self) -> (k: ErrorKind)
        ensures
            k == self.spec_kind(),
    {
        match self {
            VmError::NumbersRequired { .. } => ErrorKind::Type,
            VmError::PairRequired { .. } => ErrorKind::Type,
            VmError::FramePointerRequired { .. } => ErrorKind::Type,
            VmError::ReturnAddressRequired { .. } => ErrorKind::Type,
            VmError::DisplayRequired { .. } => ErrorKind::Type,
            VmError::Unbound { .. } => ErrorKind::Binding,
            VmError::WrongArguments { .. } => ErrorKind::Arity,
            VmError::OptionalArguments { .. } => ErrorKind::Arity,
            VmError::NotCallable { .. } => ErrorKind::Control,
            VmError::NumberOverflow { .. } => ErrorKind::Capacity,
            VmError::StackOverflow { .. } => ErrorKind::Capacity,
            VmError::StackOutOfBounds { .. } => ErrorKind::Capacity,
            VmError::FreeVariableOutOfBounds { .. } => ErrorKind::Capacity,
            VmError::ReturnAddressOutOfRange { .. } => ErrorKind::Capacity,
            VmError::HeapExhausted => ErrorKind::Capacity,
            VmError::StepLimit => ErrorKind::Capacity,
        }
    }
}

} // verus!
