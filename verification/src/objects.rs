//! Values and heap objects.

use crate::gc::{GcRef, ObjectType};
use crate::procs::Builtin;
use vstd::prelude::*;

verus! {

/// A value: an immediate, or a handle to a heap object.
#[derive(Clone, Copy, Debug, PartialEq, Eq, Hash, Structural)]
pub enum Object {
    Number(isize),
    True,
    False,
    Undef,
    /// A saved frame pointer: an offset into the operand stack.
    VMStackPointer(usize),
    Pair(GcRef),
    Symbol(GcRef),
    Closure(GcRef),
    Procedure(GcRef),
}

impl Object {
    /// The handle a value carries, if it is not an immediate.
    pub open spec fn reference(self) -> Option<GcRef> {
        match self {
            Object::Pair(r) => Some(r),
            Object::Symbol(r) => Some(r),
            Object::Closure(r) => Some(r),
            Object::Procedure(r) => Some(r),
            _ => None,
        }
    }

    /// The handle the value carries, if it is not an immediate.
    pub fn as_reference(&self) -> (r: Option<GcRef>)
        ensures
            r == self.reference(),
    {
        match self {
            Object::Pair(r) => Some(*r),
            Object::Symbol(r) => Some(*r),
            Object::Closure(r) => Some(*r),
            Object::Procedure(r) => Some(*r),
            _ => None,
        }
    }

    /// Only `False` is false; every other value counts as true.
    pub fn is_false(&self) -> (b: bool)
        ensures
            b == (*self == Object::False),
    {
        match self {
            Object::False => true,
            _ => false,
        }
    }
}

/// A pair of two values.
pub struct Pair {
    pub first: Object,
    pub second: Object,
}

impl Pair {
    pub fn new(first: Object, second: Object) -> (p: Pair)
        ensures
            p.first == first,
            p.second == second,
    {
        Pair { first, second }
    }
}

/// A symbol: a name that the store holds once.
pub struct Symbol {
    pub string: String,
}

impl Symbol {
    pub fn new(string: String) -> (s: Symbol)
        ensures
            s.string@ == string@,
    {
        Symbol { string }
    }
}

/// A closure: code, the number of its arguments, and the values it has
/// captured.
pub struct Closure {
    /// Index of the instruction that created the closure; its body starts at
    /// the next one.
    pub pc: usize,
    pub arg_len: isize,
    pub is_optional_arg: bool,
    pub free_vars: Vec<Object>,
    /// The display that was current when the closure was made.
    pub prev: Object,
}

impl Closure {
    pub fn new(pc: usize, arg_len: isize, is_optional_arg: bool, free_vars: Vec<Object>) -> (c:
        Closure)
        ensures
            c.pc == pc,
            c.arg_len == arg_len,
            c.is_optional_arg == is_optional_arg,
            c.free_vars@ == free_vars@,
            c.prev == Object::Undef,
    {
        Closure { pc, arg_len, is_optional_arg, free_vars, prev: Object::Undef }
    }

    /// The `n`-th captured variable, if there is one.
    pub fn refer_free(&self, n: usize) -> (v: Option<Object>)
        ensures
            v == if n < self.free_vars@.len() {
                Some(self.free_vars@[n as int])
            } else {
                None
            },
    {
        if n < self.free_vars.len() {
            Some(self.free_vars[n])
        } else {
            None
        }
    }
}

/// A built-in procedure as a heap object.
pub struct Procedure {
    pub func: Builtin,
}

impl Procedure {
    pub fn new(func: Builtin) -> (p: Procedure)
        ensures
            p.func == func,
    {
        Procedure { func }
    }
}

/// What a slot of the heap can hold.
pub enum HeapObject {
    Pair(Pair),
    Symbol(Symbol),
    Closure(Closure),
    Procedure(Procedure),
}

/// A heap object as a mathematical value.
pub enum HeapValue {
    Pair { first: Object, second: Object },
    Symbol { name: Seq<char> },
    Closure {
        pc: usize,
        arg_len: isize,
        is_optional_arg: bool,
        free_vars: Seq<Object>,
        prev: Object,
    },
    Procedure { func: Builtin },
}

impl HeapValue {
    /// The tag of the object.
    pub open spec fn obj_type(self) -> ObjectType {
        match self {
            HeapValue::Pair { .. } => ObjectType::Pair,
            HeapValue::Symbol { .. } => ObjectType::Symbol,
            HeapValue::Closure { .. } => ObjectType::Closure,
            HeapValue::Procedure { .. } => ObjectType::Procedure,
        }
    }

    /// The values an object holds, in the order in which tracing visits them:
    /// both fields of a pair; the captured variables of a closure, then its
    /// enclosing display. Symbols and procedures hold none.
    pub open spec fn children(self) -> Seq<Object> {
        match self {
            HeapValue::Pair { first, second } => seq![first, second],
            HeapValue::Closure { free_vars, prev, .. } => free_vars.push(prev),
            _ => Seq::empty(),
        }
    }

    /// The bytes an object accounts for: those of its type.
    pub open spec fn size(self) -> nat {
        self.obj_type().spec_size()
    }
}

impl View for HeapObject {
    type V = HeapValue;

    open spec fn view(&self) -> HeapValue {
        match self {
            HeapObject::Pair(p) => HeapValue::Pair { first: p.first, second: p.second },
            HeapObject::Symbol(s) => HeapValue::Symbol { name: s.string@ },
            HeapObject::Closure(c) => HeapValue::Closure {
                pc: c.pc,
                arg_len: c.arg_len,
                is_optional_arg: c.is_optional_arg,
                free_vars: c.free_vars@,
                prev: c.prev,
            },
            HeapObject::Procedure(p) => HeapValue::Procedure { func: p.func },
        }
    }
}

impl HeapObject {
    /// The tag of the object.
    pub fn obj_type(&self) -> (t: ObjectType)
        ensures
            t == self@.obj_type(),
    {
        match self {
            HeapObject::Pair(_) => ObjectType::Pair,
            HeapObject::Symbol(_) => ObjectType::Symbol,
            HeapObject::Closure(_) => ObjectType::Closure,
            HeapObject::Procedure(_) => ObjectType::Procedure,
        }
    }

    /// The bytes the object accounts for.
    pub fn size(&self) -> (n: usize)
        ensures
            n == self@.size(),
    {
        self.obj_type().size()
    }
}

} // verus!
