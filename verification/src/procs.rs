//! Built-in procedures.

use crate::objects::Object;
use vstd::prelude::*;

verus! {

/// The built-in procedures a `Procedure` object can stand for. Each takes one
/// value and returns one.
#[derive(Clone, Copy, Debug, PartialEq, Eq, Hash, Structural)]
pub enum Builtin {
    Write,
}

impl Builtin {
    /// What the procedure returns for `arg`.
    pub open spec fn result(self, arg: Object) -> Object {
        match self {
            Builtin::Write => Object::Undef,
        }
    }

    /// What the procedure appends to the output for `arg`.
    pub open spec fn written(self, arg: Object) -> Seq<Object> {
        match self {
            Builtin::Write => seq![arg],
        }
    }
}

/// Writes `value`: appends it to `out` and returns `Undef`.
pub fn scm_write(value: Object, out: &mut Vec<Object>) -> (r: Object)
    ensures
        r == Builtin::Write.result(value),
        final(out)@ == old(out)@ + Builtin::Write.written(value),
{
    out.push(value);
    Object::Undef
}

} // verus!
