//! That the collector never takes away what the program can still get at: a
//! state in which every value refers to an object of its type stays such a
//! state through every instruction and every collection.

use crate::gc::GcRef;
use crate::heap::{refers, Heap};
use crate::laws::{collect_from, law_collect_keeps_reachable, lemma_marked_roots, root_set};
use crate::machine::{define, global_roots, lemma_position, op_roots, Global, Machine, Step};
use crate::objects::{HeapValue, Object};
use crate::op::Op;
use vstd::prelude::*;

verus! {

impl Heap {
    /// Whether `v` is an immediate, or a handle to an object of the type that
    /// `v` names.
    pub open spec fn holds(self, v: Object) -> bool {
        match v {
            Object::Pair(r) => self.lookup(r) matches Some(HeapValue::Pair { .. }),
            Object::Symbol(r) => self.lookup(r) matches Some(HeapValue::Symbol { .. }),
            Object::Closure(r) => self.lookup(r) matches Some(HeapValue::Closure { .. }),
            Object::Procedure(r) => self.lookup(r) matches Some(HeapValue::Procedure { .. }),
            _ => true,
        }
    }

    /// Whether the heap holds every value of `vs`.
    pub open spec fn holds_all(self, vs: Seq<Object>) -> bool {
        forall|k: int| 0 <= k < vs.len() ==> self.holds(#[trigger] vs[k])
    }

    /// Whether the heap holds every value that its objects hold.
    pub open spec fn closed(self) -> bool {
        forall|r: GcRef, k: int|
            self.live(r) && 0 <= k < self.get(r).children().len() ==> self.holds(
                #[trigger] self.get(r).children()[k],
            )
    }
}

impl Machine {
    /// Whether the heap holds every global: the symbol and the value.
    pub open spec fn globals_held(self) -> bool {
        forall|i: int|
            0 <= i < self.globals.len() ==> self.heap.holds(
                Object::Symbol((#[trigger] self.globals[i]).symbol),
            ) && self.heap.holds(self.globals[i].value)
    }

    /// Whether every value that the interpreter or an object holds refers to an
    /// object of its type, and no collection is under way.
    pub open spec fn sound(self) -> bool {
        &&& self.heap.wf()
        &&& self.heap.pending()
        &&& self.heap.grey.len() == 0
        &&& self.heap.closed()
        &&& self.heap.holds_all(self.stack)
        &&& self.heap.holds(self.ac)
        &&& self.heap.holds(self.dc)
        &&& self.heap.holds_all(op_roots(self.ops))
        &&& self.globals_held()
    }
}

/// Of every global, the symbol and the value are among the roots, next to each
/// other.
pub proof fn lemma_global_roots(globals: Seq<Global>, i: int)
    requires
        0 <= i < globals.len(),
    ensures
        global_roots(globals).len() == 2 * globals.len(),
        global_roots(globals)[2 * i] == Object::Symbol(globals[i].symbol),
        global_roots(globals)[2 * i + 1] == globals[i].value,
    decreases globals.len(),
{
    lemma_global_roots_len(globals.drop_last());
    if i < globals.len() - 1 {
        lemma_global_roots(globals.drop_last(), i);
    }
}

/// Every global gives two roots.
pub proof fn lemma_global_roots_len(globals: Seq<Global>)
    ensures
        global_roots(globals).len() == 2 * globals.len(),
    decreases globals.len(),
{
    if globals.len() > 0 {
        lemma_global_roots_len(globals.drop_last());
    }
}

/// In a sound state, a collection that starts from the roots and from values
/// that the heap holds keeps every handle that the state or those values hold:
/// the state after it is sound and holds those values.
pub proof fn lemma_collect_sound(m: Machine, extra: Seq<Object>)
    requires
        m.sound(),
        m.heap.holds_all(extra),
    ensures
        m.collect(extra).sound(),
        m.collect(extra).heap.holds_all(extra),
        m.collect(extra).heap.slots.len() == m.heap.slots.len(),
        m.collect(extra).heap.bytes() <= m.heap.bytes(),
{
    let h = m.heap;
    let vs = m.roots() + extra;
    let roots = root_set(vs);
    let c = collect_from(h, vs);
    law_collect_keeps_reachable(h, vs);
    lemma_marked_roots(h, vs);
    h.mark_values(vs).lemma_collected();
    let base = m.stack.push(m.ac).push(m.dc);
    let code = op_roots(m.ops);
    let bound = global_roots(m.globals);
    // A value that the heap holds, and that is among the values the
    // collection starts from, is held after it.
    assert forall|k: int| 0 <= k < vs.len() && h.holds(#[trigger] vs[k]) implies c.holds(vs[k]) by {
        match vs[k].reference() {
            Some(r) => {
                h.lemma_reachable_root(roots, r);
            },
            None => {},
        }
    }
    assert forall|k: int| 0 <= k < m.stack.len() implies c.holds(#[trigger] m.stack[k]) by {
        assert(vs[k] == m.stack[k]);
    }
    assert(c.holds(m.ac)) by {
        assert(vs[m.stack.len() as int] == m.ac);
    }
    assert(c.holds(m.dc)) by {
        assert(vs[m.stack.len() as int + 1] == m.dc);
    }
    assert forall|k: int| 0 <= k < code.len() implies c.holds(#[trigger] code[k]) by {
        assert(vs[base.len() as int + k] == code[k]);
    }
    assert forall|i: int| 0 <= i < m.globals.len() implies c.holds(
        Object::Symbol((#[trigger] m.globals[i]).symbol),
    ) && c.holds(m.globals[i].value) by {
        lemma_global_roots(m.globals, i);
        assert(vs[base.len() as int + code.len() as int + 2 * i] == bound[2 * i]);
        assert(vs[base.len() as int + code.len() as int + 2 * i + 1] == bound[2 * i + 1]);
    }
    assert forall|k: int| 0 <= k < extra.len() implies c.holds(#[trigger] extra[k]) by {
        assert(vs[m.roots().len() as int + k] == extra[k]);
    }
    assert forall|r: GcRef, k: int|
        c.live(r) && 0 <= k < c.get(r).children().len() implies c.holds(
        #[trigger] c.get(r).children()[k],
    ) by {
        let v = h.get(r).children()[k];
        match v.reference() {
            Some(t) => {
                h.lemma_reachable_step(roots, r, t);
            },
            None => {},
        }
    }
}

/// An allocation keeps what the heap holds, and holds the new object under the
/// handle foretold.
pub proof fn lemma_allocate_sound(h: Heap, value: HeapValue)
    requires
        h.wf(),
        h.pending(),
        h.grey.len() == 0,
        h.closed(),
        h.holds_all(value.children()),
        !(value is Symbol),
        h.allocate(value).slots.len() <= usize::MAX,
    ensures
        h.allocate(value).wf(),
        h.allocate(value).pending(),
        h.allocate(value).grey.len() == 0,
        h.allocate(value).closed(),
        h.allocate(value).lookup(h.next_handle()) == Some(value),
        forall|v: Object| #[trigger] h.holds(v) ==> h.allocate(value).holds(v),
{
    h.lemma_allocate(value);
}

/// The interpreter's allocation keeps a sound state sound: whether or not a
/// collection comes first, the state after it holds all it held, and the new
/// object.
pub proof fn lemma_machine_allocate_sound(m: Machine, value: HeapValue)
    requires
        m.sound(),
        m.heap.holds_all(value.children()),
        !(value is Symbol),
        m.allocate(value).heap.slots.len() <= usize::MAX,
    ensures
        m.allocate(value).sound(),
        m.allocate(value).heap.lookup(m.allocated(value)) == Some(value),
{
    let ready = m.ready(value);
    if m.heap.should_gc() {
        lemma_collect_sound(m, value.children());
    }
    lemma_allocate_sound(ready.heap, value);
}

proof fn lemma_cons_sound(m: Machine, op: Op, pc: usize)
    requires
        m.sound(),
        m.cons(op, pc) matches Step::Next(n, _) ==> n.heap.slots.len() <= usize::MAX,
    ensures
        m.cons(op, pc) matches Step::Next(n, _) ==> n.sound(),
{
    if m.stack.len() > 0 {
        let value = HeapValue::Pair { first: m.stack.last(), second: m.ac };
        if m.has_room(value) {
            let popped = Machine { stack: m.stack.drop_last(), ..m };
            lemma_machine_allocate_sound(popped, value);
        }
    }
}

proof fn lemma_capture_sound(
    m: Machine,
    op: Op,
    pc: usize,
    arg_len: isize,
    is_optional_arg: bool,
    count: isize,
    prev: Object,
)
    requires
        m.sound(),
        m.heap.holds(prev),
        m.capture(op, pc, arg_len, is_optional_arg, count, prev) matches Ok((n, _))
            ==> n.heap.slots.len() <= usize::MAX,
    ensures
        m.capture(op, pc, arg_len, is_optional_arg, count, prev) matches Ok((n, r)) ==> n.sound()
            && n.heap.holds(Object::Closure(r)),
{
    if 0 <= count <= m.stack.len() {
        let free_vars = m.top_values(count as int);
        let value = HeapValue::Closure { pc, arg_len, is_optional_arg, free_vars, prev };
        if m.has_room(value) {
            lemma_machine_allocate_sound(m, value);
        }
    }
}

proof fn lemma_define_sound(m: Machine, symbol: GcRef)
    requires
        m.sound(),
        m.heap.holds(Object::Symbol(symbol)),
    ensures
        (Machine { globals: define(m.globals, symbol, m.ac), ac: Object::Undef, ..m }).sound(),
{
    lemma_position(m.globals, symbol);
}

/// An instruction takes a sound state to a sound state. So no instruction, and
/// no collection that an instruction sets off, leaves the interpreter or an
/// object with a handle to an object that is gone.
pub proof fn law_step_sound(m: Machine, pc: usize)
    requires
        m.sound(),
        pc < m.ops.len(),
        m.step(pc) matches Step::Next(n, _) ==> n.heap.slots.len() <= usize::MAX,
    ensures
        m.step(pc) matches Step::Next(n, _) ==> n.sound(),
{
    let op = m.ops[pc as int];
    assert(m.heap.holds(op_roots(m.ops)[pc as int]));
    match op {
        Op::Cons => {
            lemma_cons_sound(m, op, pc);
        },
        Op::DefineGlobal(symbol) => {
            lemma_define_sound(m, symbol);
        },
        Op::ReferGlobal(symbol) => {
            lemma_position(m.globals, symbol);
        },
        Op::ReferFree(n) => {
            if let Object::Closure(r) = m.dc {
                if let Some(HeapValue::Closure { free_vars, .. }) = m.heap.lookup(r) {
                    if n < free_vars.len() {
                        assert(m.heap.get(r).children()[n as int] == free_vars[n as int]);
                    }
                }
            }
        },
        Op::Display(count) => {
            lemma_capture_sound(m, op, 0, 0, false, count, m.dc);
        },
        Op::Closure { arg_len, is_optional_arg, num_free_vars, .. } => {
            lemma_capture_sound(m, op, pc, arg_len, is_optional_arg, num_free_vars, Object::Undef);
        },
        _ => {},
    }
}

/// The state of a new interpreter is sound.
pub proof fn law_fresh_sound()
    ensures
        Machine::fresh().sound(),
{
}

/// Interning keeps a sound state sound.
pub proof fn law_intern_sound(m: Machine, name: Seq<char>)
    requires
        m.sound(),
        m.heap.intern(name).slots.len() <= usize::MAX,
    ensures
        (Machine { heap: m.heap.intern(name), ..m }).sound(),
{
    if m.heap.symbol(name) is None {
        let value = HeapValue::Symbol { name };
        let h = m.heap;
        h.lemma_allocate(value);
    }
}

/// Loading a program whose constants the heap holds takes a sound state to a
/// sound state.
pub proof fn law_load_sound(m: Machine, ops: Seq<Op>)
    requires
        m.sound(),
        m.heap.holds_all(op_roots(ops)),
        m.load(ops).heap.slots.len() <= usize::MAX,
    ensures
        m.load(ops).sound(),
{
    let h = m.heap;
    let write = Machine::base_procedure();
    let procedure = h.next_handle();
    let g = h.allocate(write);
    let display = m.base_closure(procedure);
    lemma_allocate_sound(h, write);
    lemma_allocate_sound(g, display);
}

/// In a sound state no instruction fails for want of an object that a value
/// refers to: where a pair, a closure or something to call is asked for and not
/// found, the value is of another kind.
pub proof fn law_sound_values(m: Machine, pc: usize)
    requires
        m.sound(),
        pc < m.ops.len(),
    ensures
        m.step(pc) matches Step::Fail(crate::error::VmError::PairRequired { value, .. })
            ==> !(value is Pair),
        m.step(pc) matches Step::Fail(crate::error::VmError::DisplayRequired { value, .. })
            ==> !(value is Closure),
        m.step(pc) matches Step::Fail(crate::error::VmError::NotCallable { value, .. })
            ==> !(value is Closure)
            && !(value is Procedure),
{
}

} // verus!
