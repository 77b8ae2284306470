//! The interpreter: registers, operand stack, globals and the loaded program,
//! over a store that it collects before it allocates.

use crate::error::VmError;
use crate::machine::{
    define, distinct, global_roots, jump, law_define, object_sum, op_roots, position,
    saved_frame, Global, Machine, Outcome, SavedFrame, Step, STACK_SIZE, STEP_LIMIT,
};
use crate::gc::{Gc, GcRef, ObjectType};
use crate::objects::{Closure, HeapObject, HeapValue, Object, Pair, Procedure};
use crate::op::Op;
use crate::procs::{scm_write, Builtin};
use crate::safety::{law_intern_sound, law_load_sound, law_step_sound, lemma_collect_sound};
use vstd::prelude::*;

verus! {

/// The interpreter. `gc` is its store; the stack pointer is the length of the
/// stack.
pub struct Vm {
    pub gc: Gc,
    ac: Object,
    dc: Object,
    stack: Vec<Object>,
    fp: usize,
    globals: Vec<Global>,
    ops: Vec<Op>,
    output: Vec<Object>,
}

impl View for Vm {
    type V = Machine;

    closed spec fn view(&self) -> Machine {
        Machine {
            heap: self.gc@,
            ac: self.ac,
            dc: self.dc,
            stack: self.stack@,
            fp: self.fp,
            globals: self.globals@,
            ops: self.ops@,
            output: self.output@,
        }
    }
}

/// Where the run goes after an instruction.
#[derive(Clone, Copy, PartialEq, Eq, Structural)]
enum Control {
    /// On, at this program counter.
    Continue(usize),
    /// Nowhere: the program has halted with this value.
    Stop(Object),
}

/// Whether `after` and `result` are what `step` asks for, where the instruction
/// was met in the state `before`.
spec fn follows(
    step: Step,
    before: Machine,
    after: Machine,
    result: Result<Control, VmError>,
) -> bool {
    match step {
        Step::Next(m, pc) => after == m && result == Ok::<Control, VmError>(Control::Continue(pc)),
        Step::Halt(v) => after == before && result == Ok::<Control, VmError>(Control::Stop(v)),
        Step::Fail(e) => after == before && result == Err::<Control, VmError>(e),
    }
}

impl Vm {
    /// The invariant of the interpreter: the store is well formed and no trace
    /// is under way in it, the stack is within its capacity, and no symbol has
    /// two bindings among the globals.
    pub closed spec fn wf(&self) -> bool {
        &&& self.gc.wf()
        &&& self.gc@.pending()
        &&& self.stack@.len() <= STACK_SIZE
        &&& distinct(self.globals@)
    }

    /// The store, in contracts.
    pub closed spec fn store(&self) -> Gc {
        self.gc
    }

    /// The store of a well-formed interpreter is well formed, and is the heap
    /// of its state.
    pub proof fn lemma_wf(&self)
        requires
            self.wf(),
        ensures
            self.store().wf(),
            self.store()@ == self@.heap,
            self@.heap.wf(),
            self@.heap.pending(),
            self@.stack.len() <= STACK_SIZE,
            distinct(self@.globals),
    {
        self.gc.lemma_wf();
    }

    /// An interpreter with an empty store and no program.
    pub fn new() -> (vm: Self)
        ensures
            vm.wf(),
            vm@ == Machine::fresh(),
            vm@.sound(),
    {
        Self {
            ac: Object::Undef,
            dc: Object::Undef,
            gc: Gc::new(),
            stack: Vec::new(),
            fp: 0,
            globals: Vec::new(),
            ops: Vec::new(),
            output: Vec::new(),
        }
    }

    /// The handle of the symbol called `s`.
    pub fn intern(&mut self, s: &str) -> (r: GcRef)
        requires
            old(self).wf(),
            old(self)@.heap.symbol(s@) is None ==> old(self)@.heap.bytes() + (HeapValue::Symbol {
                name: s@,
            }).size() <= usize::MAX,
        ensures
            final(self).wf(),
            final(self)@ == (Machine { heap: old(self)@.heap.intern(s@), ..old(self)@ }),
            r == old(self)@.heap.interned(s@),
            final(self)@.heap.symbol(s@) == Some(r),
            final(self)@.heap.lookup(r) == Some(HeapValue::Symbol { name: s@ }),
            forall|t: GcRef| #[trigger]
                old(self)@.heap.live(t) ==> final(self)@.heap.lookup(t) == old(self)@.heap.lookup(
                    t,
                ),
            forall|other: Seq<char>|
                other != s@ ==> #[trigger] final(self)@.heap.symbol(other) == old(
                    self,
                )@.heap.symbol(other),
            old(self)@.sound() ==> final(self)@.sound(),
    {
        let symbol = self.gc.intern(s.to_owned());
        proof {
            self.gc.lemma_wf();
            if old(self)@.sound() {
                law_intern_sound(old(self)@, s@);
            }
        }
        symbol
    }

    /// The bytes that the objects in the store account for.
    pub fn bytes_allocated(&self) -> (n: usize)
        requires
            self.wf(),
        ensures
            n == self@.heap.bytes(),
    {
        self.gc.bytes_allocated()
    }

    /// The byte count above which a collection is due.
    pub fn next_gc(&self) -> (n: usize)
        ensures
            n == self@.heap.next_gc,
    {
        self.gc.next_gc()
    }

    /// Whether the bytes allocated have passed the threshold, so that a
    /// collection is due.
    pub fn should_gc(&self) -> (b: bool)
        requires
            self.wf(),
        ensures
            b == self@.heap.should_gc(),
    {
        self.gc.should_gc()
    }

    /// Whether the byte count can take `object` without leaving `usize`.
    pub fn has_room(&self, object: &HeapObject) -> (b: bool)
        requires
            self.wf(),
        ensures
            b == self@.has_room(object@),
    {
        self.gc.has_room(object)
    }

    /// Whether `reference` refers to an object.
    pub fn is_live(&self, reference: GcRef) -> (b: bool)
        ensures
            b == self@.heap.live(reference),
    {
        self.gc.is_live(reference)
    }

    /// The object `reference` refers to, if any.
    pub fn get(&self, reference: GcRef) -> (o: Option<&HeapObject>)
        ensures
            match o {
                Some(obj) => self@.heap.lookup(reference) == Some(obj@),
                None => self@.heap.lookup(reference) is None,
            },
    {
        self.gc.get(reference)
    }

    /// What the program has written so far.
    pub fn output(&self) -> (out: &Vec<Object>)
        ensures
            out@ == self@.output,
    {
        &self.output
    }

    /// Marks every root: the values on the stack, the accumulator, the display,
    /// the constants of the loaded program, and of every global the symbol and
    /// the value.
    fn mark_roots(&mut self)
        requires
            old(self).wf(),
        ensures
            final(self).wf(),
            final(self)@ == (Machine {
                heap: old(self)@.heap.mark_values(old(self)@.roots()),
                ..old(self)@
            }),
    {
        let ghost before = self@;
        let ghost heap = self.gc@;
        proof {
            self.gc.lemma_wf();
        }
        let mut i: usize = 0;
        while i < self.stack.len()
            invariant
                self.gc.wf(),
                heap.wf(),
                i <= self.stack@.len(),
                self@ == (Machine { heap: self.gc@, ..before }),
                self.gc@ == heap.mark_values(self.stack@.take(i as int)),
            decreases self.stack@.len() - i,
        {
            self.gc.mark_value(self.stack[i]);
            proof {
                heap.lemma_mark_values_take(self.stack@, i as int);
            }
            i += 1;
        }
        self.gc.mark_value(self.ac);
        self.gc.mark_value(self.dc);
        let ghost base = self.stack@.push(self.ac).push(self.dc);
        proof {
            assert(self.stack@.take(self.stack@.len() as int) =~= self.stack@);
            heap.lemma_mark_values_push(self.stack@, self.ac);
            heap.lemma_mark_values_push(self.stack@.push(self.ac), self.dc);
        }
        let mut j: usize = 0;
        while j < self.ops.len()
            invariant
                self.gc.wf(),
                heap.wf(),
                j <= self.ops@.len(),
                self@ == (Machine { heap: self.gc@, ..before }),
                base == before.stack.push(before.ac).push(before.dc),
                self.gc@ == heap.mark_values(base + op_roots(self.ops@).take(j as int)),
            decreases self.ops@.len() - j,
        {
            let root = match self.ops[j].as_constant() {
                Some(value) => value,
                None => Object::Undef,
            };
            self.gc.mark_value(root);
            proof {
                let roots = op_roots(self.ops@);
                assert(base + roots.take(j + 1) =~= (base + roots.take(j as int)).push(root));
                heap.lemma_mark_values_push(base + roots.take(j as int), root);
            }
            j += 1;
        }
        let ghost code = base + op_roots(self.ops@);
        proof {
            assert(op_roots(self.ops@).take(self.ops@.len() as int) =~= op_roots(self.ops@));
        }
        let mut k: usize = 0;
        while k < self.globals.len()
            invariant
                self.gc.wf(),
                heap.wf(),
                k <= self.globals@.len(),
                self@ == (Machine { heap: self.gc@, ..before }),
                code == before.stack.push(before.ac).push(before.dc) + op_roots(before.ops),
                self.gc@ == heap.mark_values(code + global_roots(self.globals@.take(k as int))),
            decreases self.globals@.len() - k,
        {
            let global = self.globals[k];
            self.gc.mark_value(Object::Symbol(global.symbol));
            self.gc.mark_value(global.value);
            proof {
                let done = global_roots(self.globals@.take(k as int));
                let key = Object::Symbol(global.symbol);
                assert(self.globals@.take(k + 1).drop_last() =~= self.globals@.take(k as int));
                heap.lemma_mark_values_push(code + done, key);
                heap.lemma_mark_values_push((code + done).push(key), global.value);
            }
            k += 1;
        }
        proof {
            assert(self.globals@.take(self.globals@.len() as int) =~= self.globals@);
            heap.lemma_mark_values(before.roots());
        }
    }

    /// Collects where a collection is due: where the bytes allocated have
    /// passed the threshold. Where they have not, nothing happens.
    pub fn mark_and_sweep(&mut self)
        requires
            old(self).wf(),
        ensures
            final(self).wf(),
            final(self)@ == old(self)@.mark_and_sweep(),
            old(self)@.sound() ==> final(self)@.sound(),
    {
        if self.gc.should_gc() {
            self.collect();
        }
    }

    /// Collects, whether or not a collection is due: marks every root, then
    /// lets the store trace and sweep.
    pub fn collect(&mut self)
        requires
            old(self).wf(),
        ensures
            final(self).wf(),
            final(self)@ == old(self)@.collect(Seq::empty()),
            old(self)@.sound() ==> final(self)@.sound(),
    {
        proof {
            if self@.sound() {
                lemma_collect_sound(self@, Seq::empty());
            }
        }
        self.mark_roots();
        self.gc.collect_garbage();
    }

    /// Puts `object` into the store. Where a collection is due it comes first,
    /// and starts from what `object` holds as well as from the roots, so that a
    /// value that has left the stack for `object` is kept.
    fn allocate(&mut self, object: HeapObject) -> (r: GcRef)
        requires
            old(self).wf(),
            old(self)@.has_room(object@),
            !(object is Symbol),
        ensures
            final(self).wf(),
            final(self)@ == old(self)@.allocate(object@),
            r == old(self)@.allocated(object@),
    {
        let ghost before = self@;
        proof {
            self.gc.lemma_wf();
        }
        if self.gc.should_gc() {
            self.mark_roots();
            self.gc.mark_children(&object);
            proof {
                let heap = before.heap;
                heap.lemma_mark_values_concat(before.roots(), object@.children());
                heap.lemma_mark_values(before.roots() + object@.children());
            }
            self.gc.collect_garbage();
        }
        self.gc.allocate(object)
    }
}

/// The program counter after a jump over `skip` instructions from `pc`.
fn jump_to(pc: usize, skip: usize) -> (next: usize)
    ensures
        next == jump(pc, skip),
{
    if skip <= usize::MAX - pc {
        pc + skip
    } else {
        usize::MAX
    }
}

/// The sum of two values, where both are numbers and their sum is one.
fn sum(op: Op, lhs: Object, rhs: Object) -> (r: Result<Object, VmError>)
    ensures
        r == object_sum(op, lhs, rhs),
{
    match (lhs, rhs) {
        (Object::Number(a), Object::Number(b)) => match a.checked_add(b) {
            Some(n) => Ok(Object::Number(n)),
            None => Err(VmError::NumberOverflow { op, lhs, rhs }),
        },
        _ => Err(VmError::NumbersRequired { op, lhs, rhs }),
    }
}

/// `n` as a count of at most `limit`, where it is one.
fn count_within(n: isize, limit: usize) -> (count: Option<usize>)
    ensures
        match count {
            Some(k) => 0 <= n <= limit && k == n,
            None => !(0 <= n <= limit),
        },
{
    if n < 0 {
        None
    } else {
        let k = n as usize;
        if k > limit {
            None
        } else {
            Some(k)
        }
    }
}

/// The place `n` above `base`, where it lies below `limit`.
fn offset_within(base: usize, n: isize, limit: usize) -> (at: Option<usize>)
    ensures
        match at {
            Some(i) => 0 <= base + n < limit && i == base + n,
            None => !(0 <= base + n < limit),
        },
{
    if n >= 0 {
        let up = n as usize;
        if base < limit && up < limit - base {
            Some(base + up)
        } else {
            None
        }
    } else {
        let down = (-(n + 1)) as usize + 1;
        if down <= base && base - down < limit {
            Some(base - down)
        } else {
            None
        }
    }
}

/// The index of the last binding of `symbol` in `globals`.
fn find_global(globals: &Vec<Global>, symbol: GcRef) -> (found: Option<usize>)
    ensures
        match found {
            Some(i) => position(globals@, symbol) == Some(i as int) && i < globals@.len(),
            None => position(globals@, symbol) is None,
        },
{
    let mut i = globals.len();
    proof {
        assert(globals@.take(i as int) =~= globals@);
    }
    while i > 0
        invariant
            i <= globals@.len(),
            position(globals@, symbol) == position(globals@.take(i as int), symbol),
        decreases i,
    {
        i -= 1;
        proof {
            assert(globals@.take(i + 1).drop_last() =~= globals@.take(i as int));
        }
        if globals[i].symbol == symbol {
            return Some(i);
        }
    }
    None
}

impl Vm {
    fn push(&mut self, value: Object)
        requires
            old(self).wf(),
            old(self)@.stack.len() < STACK_SIZE,
        ensures
            final(self).wf(),
            final(self)@ == (Machine { stack: old(self)@.stack.push(value), ..old(self)@ }),
    {
        self.stack.push(value);
    }

    fn pop(&mut self) -> (value: Object)
        requires
            old(self).wf(),
            old(self)@.stack.len() > 0,
        ensures
            final(self).wf(),
            value == old(self)@.stack.last(),
            final(self)@ == (Machine { stack: old(self)@.stack.drop_last(), ..old(self)@ }),
    {
        self.stack.pop().unwrap()
    }

    /// The value `n` places below the stack pointer `sp`.
    fn index(&self, sp: usize, n: usize) -> (value: Object)
        requires
            n < sp <= self@.stack.len(),
        ensures
            value == self@.stack[sp - n - 1],
    {
        self.stack[sp - n - 1]
    }

    fn stack_len(&self) -> (len: usize)
        ensures
            len == self@.stack.len(),
    {
        self.stack.len()
    }

    fn cons(&mut self, op: Op, pc: usize) -> (r: Result<Control, VmError>)
        requires
            old(self).wf(),
        ensures
            final(self).wf(),
            follows(old(self)@.cons(op, pc), old(self)@, final(self)@, r),
    {
        let sp = self.stack_len();
        if sp == 0 {
            return Err(VmError::StackOutOfBounds { op });
        }
        let object = HeapObject::Pair(Pair::new(self.index(sp, 0), self.ac));
        if !self.gc.has_room(&object) {
            return Err(VmError::HeapExhausted);
        }
        self.pop();
        let pair = self.allocate(object);
        self.ac = Object::Pair(pair);
        Ok(Control::Continue(jump_to(pc, 1)))
    }

    fn number_add(&mut self, op: Op, pc: usize) -> (r: Result<Control, VmError>)
        requires
            old(self).wf(),
        ensures
            final(self).wf(),
            follows(old(self)@.number_add(op, pc), old(self)@, final(self)@, r),
    {
        let sp = self.stack_len();
        if sp == 0 {
            return Err(VmError::StackOutOfBounds { op });
        }
        match sum(op, self.index(sp, 0), self.ac) {
            Ok(n) => {
                self.pop();
                self.ac = n;
                Ok(Control::Continue(jump_to(pc, 1)))
            },
            Err(e) => Err(e),
        }
    }

    fn add_pair(&mut self, op: Op, pc: usize) -> (r: Result<Control, VmError>)
        requires
            old(self).wf(),
        ensures
            final(self).wf(),
            follows(old(self)@.add_pair(op, pc), old(self)@, final(self)@, r),
    {
        if let Object::Pair(pair) = self.ac {
            match self.gc.get(pair) {
                Some(HeapObject::Pair(pair)) => match sum(op, pair.first, pair.second) {
                    Ok(n) => {
                        self.ac = n;
                        Ok(Control::Continue(jump_to(pc, 1)))
                    },
                    Err(e) => Err(e),
                },
                _ => Err(VmError::PairRequired { op, value: self.ac }),
            }
        } else {
            Err(VmError::PairRequired { op, value: self.ac })
        }
    }

    fn define_global(&mut self, symbol: GcRef, pc: usize) -> (r: Result<Control, VmError>)
        requires
            old(self).wf(),
        ensures
            final(self).wf(),
            final(self)@ == (Machine {
                globals: define(old(self)@.globals, symbol, old(self)@.ac),
                ac: Object::Undef,
                ..old(self)@
            }),
            r == Ok::<Control, VmError>(Control::Continue(jump(pc, 1))),
    {
        let global = Global { symbol, value: self.ac };
        proof {
            law_define(self.globals@, symbol, self.ac, symbol);
        }
        match find_global(&self.globals, symbol) {
            Some(i) => {
                self.globals[i] = global;
            },
            None => {
                self.globals.push(global);
            },
        }
        self.ac = Object::Undef;
        Ok(Control::Continue(jump_to(pc, 1)))
    }

    fn refer_global(&mut self, op: Op, pc: usize, symbol: GcRef) -> (r: Result<Control, VmError>)
        requires
            old(self).wf(),
        ensures
            final(self).wf(),
            follows(old(self)@.refer_global(op, pc, symbol), old(self)@, final(self)@, r),
    {
        match find_global(&self.globals, symbol) {
            Some(i) => {
                self.ac = self.globals[i].value;
                Ok(Control::Continue(jump_to(pc, 1)))
            },
            None => Err(VmError::Unbound { op, symbol }),
        }
    }

    fn enter(&mut self, op: Op, pc: usize, n: isize) -> (r: Result<Control, VmError>)
        requires
            old(self).wf(),
        ensures
            final(self).wf(),
            follows(old(self)@.enter(op, pc, n), old(self)@, final(self)@, r),
    {
        let sp = self.stack_len();
        match count_within(n, sp) {
            Some(count) => {
                self.fp = sp - count;
                Ok(Control::Continue(jump_to(pc, 1)))
            },
            None => Err(VmError::StackOutOfBounds { op }),
        }
    }

    fn let_frame(&mut self, op: Op, pc: usize) -> (r: Result<Control, VmError>)
        requires
            old(self).wf(),
        ensures
            final(self).wf(),
            follows(old(self)@.let_frame(op, pc), old(self)@, final(self)@, r),
    {
        if self.stack_len() > STACK_SIZE - 2 {
            return Err(VmError::StackOverflow { op });
        }
        self.push(self.dc);
        self.push(Object::VMStackPointer(self.fp));
        Ok(Control::Continue(jump_to(pc, 1)))
    }

    fn refer_local(&mut self, op: Op, pc: usize, n: isize) -> (r: Result<Control, VmError>)
        requires
            old(self).wf(),
        ensures
            final(self).wf(),
            follows(old(self)@.refer_local(op, pc, n), old(self)@, final(self)@, r),
    {
        let at = offset_within(self.fp, n, self.stack_len());
        match at {
            Some(i) => {
                self.ac = self.stack[i];
                Ok(Control::Continue(jump_to(pc, 1)))
            },
            None => Err(VmError::StackOutOfBounds { op }),
        }
    }

    fn leave(&mut self, op: Op, pc: usize, n: isize) -> (r: Result<Control, VmError>)
        requires
            old(self).wf(),
        ensures
            final(self).wf(),
            follows(old(self)@.leave(op, pc, n), old(self)@, final(self)@, r),
    {
        let len = self.stack_len();
        let sp = match count_within(n, len) {
            Some(count) => len - count,
            None => {
                return Err(VmError::StackOutOfBounds { op });
            },
        };
        if sp < 2 {
            return Err(VmError::StackOutOfBounds { op });
        }
        match self.index(sp, 0) {
            Object::VMStackPointer(fp) => {
                self.fp = fp;
            },
            value => {
                return Err(VmError::FramePointerRequired { op, value });
            },
        }
        self.dc = self.index(sp, 1);
        self.stack.truncate(sp - 2);
        Ok(Control::Continue(jump_to(pc, 1)))
    }

    /// Makes a closure with these fields that captures the `count` topmost
    /// values of the stack, and takes them off the stack.
    fn capture(
        &mut self,
        op: Op,
        pc: usize,
        arg_len: isize,
        is_optional_arg: bool,
        count: isize,
        prev: Object,
    ) -> (r: Result<GcRef, VmError>)
        requires
            old(self).wf(),
        ensures
            final(self).wf(),
            match old(self)@.capture(op, pc, arg_len, is_optional_arg, count, prev) {
                Ok((m, handle)) => final(self)@ == m && r == Ok::<GcRef, VmError>(handle),
                Err(e) => final(self)@ == old(self)@ && r == Err::<GcRef, VmError>(e),
            },
    {
        let sp = self.stack_len();
        let count = match count_within(count, sp) {
            Some(count) => count,
            None => {
                return Err(VmError::StackOutOfBounds { op });
            },
        };
        let mut free_vars: Vec<Object> = Vec::new();
        let mut i: usize = 0;
        while i < count
            invariant
                i <= count <= sp,
                sp == self@.stack.len(),
                free_vars@ == self@.top_values(i as int),
            decreases count - i,
        {
            free_vars.push(self.index(sp, i));
            i += 1;
        }
        let mut closure = Closure::new(pc, arg_len, is_optional_arg, free_vars);
        closure.prev = prev;
        let object = HeapObject::Closure(closure);
        if !self.gc.has_room(&object) {
            return Err(VmError::HeapExhausted);
        }
        let handle = self.allocate(object);
        self.stack.truncate(sp - count);
        Ok(handle)
    }

    fn display(&mut self, op: Op, pc: usize, count: isize) -> (r: Result<Control, VmError>)
        requires
            old(self).wf(),
        ensures
            final(self).wf(),
            follows(old(self)@.display(op, pc, count), old(self)@, final(self)@, r),
    {
        match self.capture(op, 0, 0, false, count, self.dc) {
            Ok(display) => {
                self.dc = Object::Closure(display);
                Ok(Control::Continue(jump_to(pc, 1)))
            },
            Err(e) => Err(e),
        }
    }

    fn closure(
        &mut self,
        op: Op,
        pc: usize,
        size: usize,
        arg_len: isize,
        is_optional_arg: bool,
        count: isize,
    ) -> (r: Result<Control, VmError>)
        requires
            old(self).wf(),
        ensures
            final(self).wf(),
            follows(
                old(self)@.closure(op, pc, size, arg_len, is_optional_arg, count),
                old(self)@,
                final(self)@,
                r,
            ),
    {
        match self.capture(op, pc, arg_len, is_optional_arg, count, Object::Undef) {
            Ok(closure) => {
                self.ac = Object::Closure(closure);
                Ok(Control::Continue(jump_to(pc, size)))
            },
            Err(e) => Err(e),
        }
    }

    fn refer_free(&mut self, op: Op, pc: usize, n: usize) -> (r: Result<Control, VmError>)
        requires
            old(self).wf(),
        ensures
            final(self).wf(),
            follows(old(self)@.refer_free(op, pc, n), old(self)@, final(self)@, r),
    {
        match self.dc {
            Object::Closure(closure) => match self.gc.get(closure) {
                Some(HeapObject::Closure(closure)) => match closure.refer_free(n) {
                    Some(value) => {
                        self.ac = value;
                        Ok(Control::Continue(jump_to(pc, 1)))
                    },
                    None => Err(VmError::FreeVariableOutOfBounds { op }),
                },
                _ => Err(VmError::DisplayRequired { op, value: self.dc }),
            },
            _ => Err(VmError::DisplayRequired { op, value: self.dc }),
        }
    }

    /// Reads the call frame that lies below the `n` topmost values.
    fn saved_frame(&self, op: Op, n: isize) -> (r: Result<SavedFrame, VmError>)
        requires
            self.wf(),
        ensures
            r == saved_frame(self@.stack, op, n),
            r matches Ok(frame) ==> frame.sp <= self@.stack.len(),
    {
        let len = self.stack_len();
        let sp = match count_within(n, len) {
            Some(count) => len - count,
            None => {
                return Err(VmError::StackOutOfBounds { op });
            },
        };
        if sp < 4 {
            return Err(VmError::StackOutOfBounds { op });
        }
        let fp = match self.index(sp, 0) {
            Object::VMStackPointer(fp) => fp,
            value => {
                return Err(VmError::FramePointerRequired { op, value });
            },
        };
        let dc = self.index(sp, 2);
        match self.index(sp, 3) {
            Object::Number(address) => {
                if address >= 0 {
                    Ok(SavedFrame { fp, dc, sp: sp - 4, pc: address as usize })
                } else {
                    Err(VmError::ReturnAddressRequired { op, value: Object::Number(address) })
                }
            },
            value => Err(VmError::ReturnAddressRequired { op, value }),
        }
    }

    /// Leaves a call: drops `n` values and the frame below them, and restores
    /// the frame pointer, the display and the program counter.
    fn return_n(&mut self, op: Op, n: isize) -> (r: Result<Control, VmError>)
        requires
            old(self).wf(),
        ensures
            final(self).wf(),
            follows(old(self)@.return_n(op, n), old(self)@, final(self)@, r),
    {
        match self.saved_frame(op, n) {
            Ok(frame) => {
                self.fp = frame.fp;
                self.dc = frame.dc;
                self.stack.truncate(frame.sp);
                Ok(Control::Continue(jump_to(frame.pc, 1)))
            },
            Err(e) => Err(e),
        }
    }

    fn call(&mut self, op: Op, arg_len: isize) -> (r: Result<Control, VmError>)
        requires
            old(self).wf(),
        ensures
            final(self).wf(),
            follows(old(self)@.call(op, arg_len), old(self)@, final(self)@, r),
    {
        let sp = self.stack_len();
        match self.ac {
            Object::Closure(closure) => match self.gc.get(closure) {
                Some(HeapObject::Closure(closure)) => {
                    if closure.is_optional_arg {
                        Err(VmError::OptionalArguments { op })
                    } else if arg_len != closure.arg_len {
                        Err(
                            VmError::WrongArguments {
                                op,
                                expected: closure.arg_len,
                                given: arg_len,
                            },
                        )
                    } else {
                        match count_within(arg_len, sp) {
                            Some(count) => {
                                let pc = closure.pc;
                                self.dc = self.ac;
                                self.fp = sp - count;
                                Ok(Control::Continue(jump_to(pc, 1)))
                            },
                            None => Err(VmError::StackOutOfBounds { op }),
                        }
                    }
                },
                _ => Err(VmError::NotCallable { op, value: self.ac }),
            },
            Object::Procedure(procedure) => match self.gc.get(procedure) {
                Some(HeapObject::Procedure(procedure)) => {
                    let func = procedure.func;
                    if arg_len != 1 {
                        Err(VmError::WrongArguments { op, expected: 1, given: arg_len })
                    } else if sp == 0 {
                        Err(VmError::StackOutOfBounds { op })
                    } else {
                        let arg = self.index(sp, 0);
                        match self.saved_frame(op, 1) {
                            Ok(_) => {
                                self.ac = match func {
                                    Builtin::Write => scm_write(arg, &mut self.output),
                                };
                                self.return_n(op, 1)
                            },
                            Err(e) => Err(e),
                        }
                    }
                },
                _ => Err(VmError::NotCallable { op, value: self.ac }),
            },
            _ => Err(VmError::NotCallable { op, value: self.ac }),
        }
    }

    fn frame(&mut self, op: Op, pc: usize, skip: usize) -> (r: Result<Control, VmError>)
        requires
            old(self).wf(),
        ensures
            final(self).wf(),
            follows(old(self)@.frame(op, pc, skip), old(self)@, final(self)@, r),
    {
        let address = match pc.checked_add(skip) {
            Some(target) => {
                if target == 0 || target - 1 > isize::MAX as usize {
                    return Err(VmError::ReturnAddressOutOfRange { op });
                }
                (target - 1) as isize
            },
            None => {
                return Err(VmError::ReturnAddressOutOfRange { op });
            },
        };
        if self.stack_len() > STACK_SIZE - 4 {
            return Err(VmError::StackOverflow { op });
        }
        self.push(Object::Number(address));
        self.push(self.dc);
        self.push(self.dc);
        self.push(Object::VMStackPointer(self.fp));
        Ok(Control::Continue(jump_to(pc, 1)))
    }

    /// Executes the instruction at `pc`.
    fn step(&mut self, pc: usize) -> (r: Result<Control, VmError>)
        requires
            old(self).wf(),
            pc < old(self)@.ops.len(),
        ensures
            final(self).wf(),
            follows(old(self)@.step(pc), old(self)@, final(self)@, r),
            old(self)@.sound() ==> final(self)@.sound(),
    {
        let op = self.ops[pc];
        let r = self.step_op(op, pc);
        proof {
            self.gc.lemma_wf();
            if old(self)@.sound() {
                law_step_sound(old(self)@, pc);
            }
        }
        r
    }

    /// Executes `op`, the instruction at `pc`.
    fn step_op(&mut self, op: Op, pc: usize) -> (r: Result<Control, VmError>)
        requires
            old(self).wf(),
            pc < old(self)@.ops.len(),
            op == old(self)@.ops[pc as int],
        ensures
            final(self).wf(),
            follows(old(self)@.step(pc), old(self)@, final(self)@, r),
    {
        match op {
            Op::Constant(c) => {
                self.ac = c;
                Ok(Control::Continue(jump_to(pc, 1)))
            },
            Op::Push => {
                if self.stack_len() >= STACK_SIZE {
                    Err(VmError::StackOverflow { op })
                } else {
                    self.push(self.ac);
                    Ok(Control::Continue(jump_to(pc, 1)))
                }
            },
            Op::Cons => self.cons(op, pc),
            Op::NumberAdd => self.number_add(op, pc),
            Op::AddPair => self.add_pair(op, pc),
            Op::DefineGlobal(symbol) => self.define_global(symbol, pc),
            Op::ReferGlobal(symbol) => self.refer_global(op, pc, symbol),
            Op::Enter(n) => self.enter(op, pc, n),
            Op::LetFrame(_) => self.let_frame(op, pc),
            Op::ReferLocal(n) => self.refer_local(op, pc, n),
            Op::Leave(n) => self.leave(op, pc, n),
            Op::Display(num_free_vars) => self.display(op, pc, num_free_vars),
            Op::ReferFree(n) => self.refer_free(op, pc, n),
            Op::Test(skip_size) => {
                if self.ac.is_false() {
                    Ok(Control::Continue(jump_to(pc, skip_size)))
                } else {
                    Ok(Control::Continue(jump_to(pc, 1)))
                }
            },
            Op::LocalJmp(jump_size) => Ok(Control::Continue(jump_to(pc, jump_size))),
            Op::Closure { size, arg_len, is_optional_arg, num_free_vars } => self.closure(
                op,
                pc,
                size,
                arg_len,
                is_optional_arg,
                num_free_vars,
            ),
            Op::Call(arg_len) => self.call(op, arg_len),
            Op::Return(n) => self.return_n(op, n),
            Op::Frame(skip_size) => self.frame(op, pc, skip_size),
            Op::Halt => Ok(Control::Stop(self.ac)),
            Op::Undef => {
                self.ac = Object::Undef;
                Ok(Control::Continue(jump_to(pc, 1)))
            },
            Op::Nop => Ok(Control::Continue(jump_to(pc, 1))),
        }
    }

    /// Gives the program its first display: a closure whose one captured
    /// variable is the write procedure.
    fn initialize_free_vars(&mut self)
        requires
            old(self).wf(),
            old(self)@.can_load(),
        ensures
            final(self).wf(),
            final(self)@ == (Machine {
                stack: old(self)@.stack,
                fp: old(self)@.fp,
                ops: old(self)@.ops,
                ..old(self)@.load(old(self)@.ops)
            }),
    {
        let procedure = self.gc.allocate(HeapObject::Procedure(Procedure::new(Builtin::Write)));
        let mut free_vars: Vec<Object> = Vec::new();
        free_vars.push(Object::Procedure(procedure));
        let mut display = Closure::new(0, 0, false, free_vars);
        display.prev = self.dc;
        let display = self.gc.allocate(HeapObject::Closure(display));
        self.dc = Object::Closure(display);
    }

    /// Runs the program `ops` from its first instruction, with an empty stack,
    /// and returns what the accumulator holds when it halts or runs off its
    /// end. An instruction that fails ends the run with the state as it was
    /// before that instruction. A run that has not ended after `STEP_LIMIT`
    /// instructions is given up.
    pub fn run(&mut self, ops: Vec<Op>) -> (result: Result<Object, VmError>)
        requires
            old(self).wf(),
        ensures
            final(self).wf(),
            old(self)@.run(ops@) == (Outcome { machine: final(self)@, result }),
            old(self)@.sound() && old(self)@.heap.holds_all(op_roots(ops@))
                ==> final(self)@.sound(),
    {
        self.run_for(ops, STEP_LIMIT)
    }

    /// Runs the program `ops` as `run` does, for `steps` instructions at most.
    pub fn run_for(&mut self, ops: Vec<Op>, steps: u64) -> (result: Result<Object, VmError>)
        requires
            old(self).wf(),
        ensures
            final(self).wf(),
            old(self)@.run_for(ops@, steps as nat) == (Outcome { machine: final(self)@, result }),
            old(self)@.sound() && old(self)@.heap.holds_all(op_roots(ops@))
                ==> final(self)@.sound(),
    {
        let ghost sound = self@.sound() && self@.heap.holds_all(op_roots(ops@));
        let needed = ObjectType::Procedure.size();
        let bytes = self.gc.bytes_allocated();
        if needed > usize::MAX - bytes || ObjectType::Closure.size() > usize::MAX - bytes - needed {
            return Err(VmError::HeapExhausted);
        }
        self.ops = ops;
        self.stack.truncate(0);
        self.fp = 0;
        proof {
            assert(self.stack@ =~= Seq::empty());
        }
        self.initialize_free_vars();
        proof {
            self.gc.lemma_wf();
            if sound {
                law_load_sound(old(self)@, ops@);
            }
        }
        let len = self.ops.len();
        let mut pc: usize = 0;
        let mut fuel: u64 = steps;
        while pc < len
            invariant
                self.wf(),
                len == self@.ops.len(),
                old(self)@.run_for(ops@, steps as nat) == self@.execute(pc, fuel as nat),
                sound == (old(self)@.sound() && old(self)@.heap.holds_all(op_roots(ops@))),
                sound ==> self@.sound(),
            decreases fuel,
        {
            if fuel == 0 {
                return Err(VmError::StepLimit);
            }
            match self.step(pc) {
                Ok(Control::Continue(next)) => {
                    pc = next;
                    fuel = fuel - 1;
                },
                Ok(Control::Stop(value)) => {
                    return Ok(value);
                },
                Err(e) => {
                    return Err(e);
                },
            }
        }
        Ok(self.ac)
    }
}

} // verus!
