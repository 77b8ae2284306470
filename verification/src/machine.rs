//! The interpreter as a mathematical value: its state, and what each
//! instruction does to it.

use crate::error::VmError;
use crate::heap::Heap;
use crate::gc::{GcRef, ObjectType};
use crate::objects::{HeapValue, Object};
use crate::op::Op;
use crate::procs::Builtin;
use vstd::prelude::*;

verus! {

/// How many values the operand stack can hold.
pub const STACK_SIZE: usize = 256;

/// How many instructions one run may take.
pub const STEP_LIMIT: u64 = 0xffff_ffff_ffff_ffff;

/// A global binding: the symbol and its value.
#[derive(Clone, Copy, Debug, PartialEq, Eq, Structural)]
pub struct Global {
    pub symbol: GcRef,
    pub value: Object,
}

/// The index of the last binding of `symbol` in `globals`, if there is one.
pub open spec fn position(globals: Seq<Global>, symbol: GcRef) -> Option<int>
    decreases globals.len(),
{
    if globals.len() == 0 {
        None
    } else if globals.last().symbol == symbol {
        Some(globals.len() - 1)
    } else {
        position(globals.drop_last(), symbol)
    }
}

/// The value `symbol` is bound to in `globals`, if any.
pub open spec fn lookup(globals: Seq<Global>, symbol: GcRef) -> Option<Object> {
    match position(globals, symbol) {
        Some(i) => Some(globals[i].value),
        None => None,
    }
}

/// `globals` with `symbol` bound to `value`: in place where the symbol has a
/// binding, at the end where it has none.
pub open spec fn define(globals: Seq<Global>, symbol: GcRef, value: Object) -> Seq<Global> {
    match position(globals, symbol) {
        Some(i) => globals.update(i, Global { symbol, value }),
        None => globals.push(Global { symbol, value }),
    }
}

/// Whether no symbol has two bindings in `globals`.
pub open spec fn distinct(globals: Seq<Global>) -> bool {
    forall|i: int, j: int|
        0 <= i < j < globals.len() ==> (#[trigger] globals[i]).symbol != (
        #[trigger] globals[j]).symbol
}

/// Where a symbol has a binding, its position is that of a binding of it;
/// where `position` finds none, it has none.
pub proof fn lemma_position(globals: Seq<Global>, symbol: GcRef)
    ensures
        position(globals, symbol) matches Some(i) ==> 0 <= i < globals.len() && globals[i].symbol
            == symbol,
        position(globals, symbol) is None ==> forall|i: int|
            0 <= i < globals.len() ==> (#[trigger] globals[i]).symbol != symbol,
    decreases globals.len(),
{
    if globals.len() > 0 && globals.last().symbol != symbol {
        lemma_position(globals.drop_last(), symbol);
        assert forall|i: int| 0 <= i < globals.len() && position(globals, symbol) is None implies (
        #[trigger] globals[i]).symbol != symbol by {
            if i < globals.len() - 1 {
                assert(globals.drop_last()[i] == globals[i]);
            }
        }
    }
}

/// Where no symbol has two bindings, a symbol is bound to the value of its
/// one binding.
pub proof fn law_lookup_unique(globals: Seq<Global>, i: int)
    requires
        distinct(globals),
        0 <= i < globals.len(),
    ensures
        lookup(globals, globals[i].symbol) == Some(globals[i].value),
{
    lemma_position(globals, globals[i].symbol);
}

/// A definition leaves every symbol with one binding at most, gives the
/// symbol the value, and leaves every other symbol with what it had.
pub proof fn law_define(globals: Seq<Global>, symbol: GcRef, value: Object, other: GcRef)
    requires
        distinct(globals),
    ensures
        distinct(define(globals, symbol, value)),
        lookup(define(globals, symbol, value), symbol) == Some(value),
        other != symbol ==> lookup(define(globals, symbol, value), other) == lookup(
            globals,
            other,
        ),
{
    let after = define(globals, symbol, value);
    lemma_position(globals, symbol);
    lemma_position(after, symbol);
    lemma_position(globals, other);
    lemma_position(after, other);
    assert forall|i: int, j: int| 0 <= i < j < after.len() implies (#[trigger] after[i]).symbol != (
    #[trigger] after[j]).symbol by {
        if i < globals.len() && j < globals.len() {
            assert(globals[i].symbol != globals[j].symbol);
        }
    }
    match position(globals, symbol) {
        Some(at) => {
            assert(after[at].symbol == symbol);
        },
        None => {
            assert(after[globals.len() as int].symbol == symbol);
        },
    }
    if other != symbol {
        match position(globals, other) {
            Some(at) => {
                assert(after[at] == globals[at]);
            },
            None => {
                if let Some(at) = position(after, other) {
                    if at < globals.len() {
                        assert(after[at].symbol == globals[at].symbol);
                    }
                }
            },
        }
    }
}

/// The roots among the globals: of each binding the symbol, then the value.
pub open spec fn global_roots(globals: Seq<Global>) -> Seq<Object>
    decreases globals.len(),
{
    if globals.len() == 0 {
        Seq::empty()
    } else {
        global_roots(globals.drop_last()).push(Object::Symbol(globals.last().symbol)).push(
            globals.last().value,
        )
    }
}

/// The root that instruction `op` holds; `Undef` where it holds none.
pub open spec fn op_root(op: Op) -> Object {
    match op.constant() {
        Some(v) => v,
        None => Object::Undef,
    }
}

/// The roots among the instructions of a program, one for each.
pub open spec fn op_roots(ops: Seq<Op>) -> Seq<Object> {
    Seq::new(ops.len(), |i: int| op_root(ops[i]))
}

/// The program counter after a jump over `skip` instructions from `pc`. It
/// stops at `usize::MAX`, which is past the end of every program.
pub open spec fn jump(pc: usize, skip: usize) -> usize {
    if pc + skip <= usize::MAX {
        (pc + skip) as usize
    } else {
        usize::MAX
    }
}

/// The sum of two numbers, where it is an `isize`.
pub open spec fn number_sum(op: Op, a: isize, b: isize) -> Result<Object, VmError> {
    if isize::MIN <= a + b <= isize::MAX {
        Ok(Object::Number((a + b) as isize))
    } else {
        Err(VmError::NumberOverflow { op, lhs: Object::Number(a), rhs: Object::Number(b) })
    }
}

/// The sum of two values, where both are numbers.
pub open spec fn object_sum(op: Op, lhs: Object, rhs: Object) -> Result<Object, VmError> {
    match (lhs, rhs) {
        (Object::Number(a), Object::Number(b)) => number_sum(op, a, b),
        _ => Err(VmError::NumbersRequired { op, lhs, rhs }),
    }
}

/// What a call frame holds for the return: the frame pointer and the display to
/// restore, the stack pointer below the frame, and the return address.
#[derive(Clone, Copy, Debug, PartialEq, Eq, Structural)]
pub struct SavedFrame {
    pub fp: usize,
    pub dc: Object,
    pub sp: usize,
    pub pc: usize,
}

/// The call frame that lies below the `n` topmost values of `stack`: from the
/// top, the saved frame pointer, a slot kept for the closure, the saved
/// display, and the return address.
pub open spec fn saved_frame(stack: Seq<Object>, op: Op, n: isize) -> Result<SavedFrame, VmError> {
    let sp = stack.len() - n;
    if 0 <= n && 4 <= sp {
        match stack[sp - 1] {
            Object::VMStackPointer(fp) => match stack[sp - 4] {
                Object::Number(address) => if address >= 0 {
                    Ok(SavedFrame { fp, dc: stack[sp - 3], sp: (sp - 4) as usize,
                        pc: address as usize })
                } else {
                    Err(VmError::ReturnAddressRequired { op, value: stack[sp - 4] })
                },
                value => Err(VmError::ReturnAddressRequired { op, value }),
            },
            value => Err(VmError::FramePointerRequired { op, value }),
        }
    } else {
        Err(VmError::StackOutOfBounds { op })
    }
}

/// The state of the interpreter.
pub struct Machine {
    pub heap: Heap,
    /// The accumulator.
    pub ac: Object,
    /// The display: the closure whose captured variables are in scope.
    pub dc: Object,
    /// The operand stack; its length is the stack pointer.
    pub stack: Seq<Object>,
    /// The frame pointer.
    pub fp: usize,
    pub globals: Seq<Global>,
    /// The program that is loaded.
    pub ops: Seq<Op>,
    /// What the program has written.
    pub output: Seq<Object>,
}

/// What one instruction leads to.
pub enum Step {
    /// The run goes on in this state, at this program counter.
    Next(Machine, usize),
    /// The run ends with this value; the state is as it was.
    Halt(Object),
    /// The run is given up; the state is as it was.
    Fail(VmError),
}

/// How a run ends: the state it leaves and its result.
pub struct Outcome {
    pub machine: Machine,
    pub result: Result<Object, VmError>,
}

impl Machine {
    /// The state of a new interpreter.
    pub open spec fn fresh() -> Machine {
        Machine {
            heap: Heap::empty(),
            ac: Object::Undef,
            dc: Object::Undef,
            stack: Seq::empty(),
            fp: 0,
            globals: Seq::empty(),
            ops: Seq::empty(),
            output: Seq::empty(),
        }
    }

    /// The values a collection starts from: the stack, the accumulator, the
    /// display, the constants of the program, and the globals.
    pub open spec fn roots(self) -> Seq<Object> {
        self.stack.push(self.ac).push(self.dc) + op_roots(self.ops) + global_roots(self.globals)
    }

    /// The state after a collection that starts from the roots and from
    /// `extra`.
    pub open spec fn collect(self, extra: Seq<Object>) -> Machine {
        Machine { heap: self.heap.mark_values(self.roots() + extra).collected(), ..self }
    }

    /// The state after a call for a collection: that after a collection from
    /// the roots where the bytes allocated have passed the threshold, else the
    /// state as it is.
    pub open spec fn mark_and_sweep(self) -> Machine {
        if self.heap.should_gc() {
            self.collect(Seq::empty())
        } else {
            self
        }
    }

    /// Whether the byte count can take `value`.
    pub open spec fn has_room(self, value: HeapValue) -> bool {
        self.heap.bytes() + value.size() <= usize::MAX
    }

    /// The state in which `value` is allocated: that after a collection where
    /// one is due, in which what `value` holds counts as a root; else `self`.
    pub open spec fn ready(self, value: HeapValue) -> Machine {
        if self.heap.should_gc() {
            self.collect(value.children())
        } else {
            self
        }
    }

    /// The state after `value` has been allocated; its handle is
    /// `self.ready(value).heap.next_handle()`.
    pub open spec fn allocate(self, value: HeapValue) -> Machine {
        Machine { heap: self.ready(value).heap.allocate(value), ..self }
    }

    /// The handle under which `self.allocate(value)` holds `value`.
    pub open spec fn allocated(self, value: HeapValue) -> GcRef {
        self.ready(value).heap.next_handle()
    }

    /// The `count` topmost values of the stack, the top one first.
    pub open spec fn top_values(self, count: int) -> Seq<Object> {
        Seq::new(count as nat, |i: int| self.stack[self.stack.len() - 1 - i])
    }

    /// `Push`: the accumulator goes onto the stack.
    pub open spec fn push(self, op: Op, pc: usize) -> Step {
        if self.stack.len() >= STACK_SIZE {
            Step::Fail(VmError::StackOverflow { op })
        } else {
            Step::Next(Machine { stack: self.stack.push(self.ac), ..self }, jump(pc, 1))
        }
    }

    /// `Cons`: the accumulator becomes a new pair of the value on top of the
    /// stack, which leaves the stack, and the accumulator.
    pub open spec fn cons(self, op: Op, pc: usize) -> Step {
        if self.stack.len() == 0 {
            Step::Fail(VmError::StackOutOfBounds { op })
        } else {
            let value = HeapValue::Pair { first: self.stack.last(), second: self.ac };
            if !self.has_room(value) {
                Step::Fail(VmError::HeapExhausted)
            } else {
                let popped = Machine { stack: self.stack.drop_last(), ..self };
                Step::Next(
                    Machine { ac: Object::Pair(popped.allocated(value)), ..popped.allocate(value) },
                    jump(pc, 1),
                )
            }
        }
    }

    /// `NumberAdd`: the accumulator becomes the sum of the value on top of the
    /// stack, which leaves the stack, and the accumulator.
    pub open spec fn number_add(self, op: Op, pc: usize) -> Step {
        if self.stack.len() == 0 {
            Step::Fail(VmError::StackOutOfBounds { op })
        } else {
            match object_sum(op, self.stack.last(), self.ac) {
                Ok(sum) => Step::Next(
                    Machine { ac: sum, stack: self.stack.drop_last(), ..self },
                    jump(pc, 1),
                ),
                Err(e) => Step::Fail(e),
            }
        }
    }

    /// `AddPair`: the accumulator, a pair, becomes the sum of its two fields.
    pub open spec fn add_pair(self, op: Op, pc: usize) -> Step {
        match self.ac {
            Object::Pair(r) => match self.heap.lookup(r) {
                Some(HeapValue::Pair { first, second }) => match object_sum(op, first, second) {
                    Ok(sum) => Step::Next(Machine { ac: sum, ..self }, jump(pc, 1)),
                    Err(e) => Step::Fail(e),
                },
                _ => Step::Fail(VmError::PairRequired { op, value: self.ac }),
            },
            _ => Step::Fail(VmError::PairRequired { op, value: self.ac }),
        }
    }

    /// `ReferGlobal`: the accumulator becomes the value of the global.
    pub open spec fn refer_global(self, op: Op, pc: usize, symbol: GcRef) -> Step {
        match lookup(self.globals, symbol) {
            Some(value) => Step::Next(Machine { ac: value, ..self }, jump(pc, 1)),
            None => Step::Fail(VmError::Unbound { op, symbol }),
        }
    }

    /// `Enter`: the frame pointer goes `n` places below the stack pointer.
    pub open spec fn enter(self, op: Op, pc: usize, n: isize) -> Step {
        if 0 <= n <= self.stack.len() {
            Step::Next(Machine { fp: (self.stack.len() - n) as usize, ..self }, jump(pc, 1))
        } else {
            Step::Fail(VmError::StackOutOfBounds { op })
        }
    }

    /// `LetFrame`: the display and the frame pointer are saved on the stack.
    pub open spec fn let_frame(self, op: Op, pc: usize) -> Step {
        if self.stack.len() + 2 > STACK_SIZE {
            Step::Fail(VmError::StackOverflow { op })
        } else {
            Step::Next(
                Machine {
                    stack: self.stack.push(self.dc).push(Object::VMStackPointer(self.fp)),
                    ..self
                },
                jump(pc, 1),
            )
        }
    }

    /// `ReferLocal`: the accumulator becomes the value `n` places above the
    /// frame pointer.
    pub open spec fn refer_local(self, op: Op, pc: usize, n: isize) -> Step {
        if 0 <= self.fp + n < self.stack.len() {
            Step::Next(Machine { ac: self.stack[self.fp + n], ..self }, jump(pc, 1))
        } else {
            Step::Fail(VmError::StackOutOfBounds { op })
        }
    }

    /// `Leave`: drops `n` values and, below them, the frame pointer and the
    /// display that `LetFrame` saved, and restores the two.
    pub open spec fn leave(self, op: Op, pc: usize, n: isize) -> Step {
        let sp = self.stack.len() - n;
        if 0 <= n && 2 <= sp {
            match self.stack[sp - 1] {
                Object::VMStackPointer(fp) => Step::Next(
                    Machine { fp, dc: self.stack[sp - 2], stack: self.stack.take(sp - 2), ..self },
                    jump(pc, 1),
                ),
                value => Step::Fail(VmError::FramePointerRequired { op, value }),
            }
        } else {
            Step::Fail(VmError::StackOutOfBounds { op })
        }
    }

    /// The state after a closure with these fields has captured the `count`
    /// topmost values of the stack, and its handle; or why there is none.
    pub open spec fn capture(
        self,
        op: Op,
        pc: usize,
        arg_len: isize,
        is_optional_arg: bool,
        count: isize,
        prev: Object,
    ) -> Result<(Machine, GcRef), VmError> {
        if 0 <= count <= self.stack.len() {
            let value = HeapValue::Closure {
                pc,
                arg_len,
                is_optional_arg,
                free_vars: self.top_values(count as int),
                prev,
            };
            if !self.has_room(value) {
                Err(VmError::HeapExhausted)
            } else {
                Ok(
                    (
                        Machine {
                            stack: self.stack.take(self.stack.len() - count),
                            ..self.allocate(value)
                        },
                        self.allocated(value),
                    ),
                )
            }
        } else {
            Err(VmError::StackOutOfBounds { op })
        }
    }

    /// `Display`: the display becomes a new closure that captures the `count`
    /// topmost values and has the old display as its enclosing one.
    pub open spec fn display(self, op: Op, pc: usize, count: isize) -> Step {
        match self.capture(op, 0, 0, false, count, self.dc) {
            Ok((m, r)) => Step::Next(Machine { dc: Object::Closure(r), ..m }, jump(pc, 1)),
            Err(e) => Step::Fail(e),
        }
    }

    /// `Closure`: the accumulator becomes a new closure that captures the
    /// `count` topmost values and whose body starts after this instruction;
    /// the run goes on behind the body, `size` instructions further.
    pub open spec fn closure(
        self,
        op: Op,
        pc: usize,
        size: usize,
        arg_len: isize,
        is_optional_arg: bool,
        count: isize,
    ) -> Step {
        match self.capture(op, pc, arg_len, is_optional_arg, count, Object::Undef) {
            Ok((m, r)) => Step::Next(Machine { ac: Object::Closure(r), ..m }, jump(pc, size)),
            Err(e) => Step::Fail(e),
        }
    }

    /// `ReferFree`: the accumulator becomes the `n`-th value that the closure
    /// in the display has captured.
    pub open spec fn refer_free(self, op: Op, pc: usize, n: usize) -> Step {
        match self.dc {
            Object::Closure(r) => match self.heap.lookup(r) {
                Some(HeapValue::Closure { free_vars, .. }) => if n < free_vars.len() {
                    Step::Next(Machine { ac: free_vars[n as int], ..self }, jump(pc, 1))
                } else {
                    Step::Fail(VmError::FreeVariableOutOfBounds { op })
                },
                _ => Step::Fail(VmError::DisplayRequired { op, value: self.dc }),
            },
            _ => Step::Fail(VmError::DisplayRequired { op, value: self.dc }),
        }
    }

    /// Leaves a call: drops `n` values and the frame below them, and restores
    /// from the frame the frame pointer, the display and the program counter.
    pub open spec fn return_n(self, op: Op, n: isize) -> Step {
        match saved_frame(self.stack, op, n) {
            Ok(frame) => Step::Next(
                Machine {
                    fp: frame.fp,
                    dc: frame.dc,
                    stack: self.stack.take(frame.sp as int),
                    ..self
                },
                jump(frame.pc, 1),
            ),
            Err(e) => Step::Fail(e),
        }
    }

    /// `Call` of a closure with these fields: the closure becomes the display,
    /// the arguments the frame, and the run goes on in the body.
    pub open spec fn call_closure(
        self,
        op: Op,
        arg_len: isize,
        pc: usize,
        expected: isize,
        is_optional_arg: bool,
    ) -> Step {
        if is_optional_arg {
            Step::Fail(VmError::OptionalArguments { op })
        } else if arg_len != expected {
            Step::Fail(VmError::WrongArguments { op, expected, given: arg_len })
        } else if !(0 <= arg_len <= self.stack.len()) {
            Step::Fail(VmError::StackOutOfBounds { op })
        } else {
            Step::Next(
                Machine { dc: self.ac, fp: (self.stack.len() - arg_len) as usize, ..self },
                jump(pc, 1),
            )
        }
    }

    /// `Call` of the built-in procedure `func`: it is applied to the call's one
    /// argument, the value on top of the stack, and the call returns at once:
    /// the argument and the frame below it leave the stack.
    pub open spec fn call_procedure(self, op: Op, arg_len: isize, func: Builtin) -> Step {
        if arg_len != 1 {
            Step::Fail(VmError::WrongArguments { op, expected: 1, given: arg_len })
        } else if self.stack.len() == 0 {
            Step::Fail(VmError::StackOutOfBounds { op })
        } else {
            let arg = self.stack.last();
            Machine {
                ac: func.result(arg),
                output: self.output + func.written(arg),
                ..self
            }.return_n(op, 1)
        }
    }

    /// `Call`: calls what the accumulator refers to, a closure or a
    /// procedure.
    pub open spec fn call(self, op: Op, arg_len: isize) -> Step {
        match self.ac {
            Object::Closure(r) => match self.heap.lookup(r) {
                Some(HeapValue::Closure { pc, arg_len: expected, is_optional_arg, .. }) => {
                    self.call_closure(op, arg_len, pc, expected, is_optional_arg)
                },
                _ => Step::Fail(VmError::NotCallable { op, value: self.ac }),
            },
            Object::Procedure(r) => match self.heap.lookup(r) {
                Some(HeapValue::Procedure { func }) => self.call_procedure(op, arg_len, func),
                _ => Step::Fail(VmError::NotCallable { op, value: self.ac }),
            },
            _ => Step::Fail(VmError::NotCallable { op, value: self.ac }),
        }
    }

    /// `Frame`: pushes a call frame: the address before the one to return
    /// to, which lies `skip` instructions on; the display, twice; and the
    /// frame pointer.
    pub open spec fn frame(self, op: Op, pc: usize, skip: usize) -> Step {
        let address = pc + skip - 1;
        if !(0 <= address <= isize::MAX) {
            Step::Fail(VmError::ReturnAddressOutOfRange { op })
        } else if self.stack.len() + 4 > STACK_SIZE {
            Step::Fail(VmError::StackOverflow { op })
        } else {
            Step::Next(
                Machine {
                    stack: self.stack.push(Object::Number(address as isize)).push(self.dc).push(
                        self.dc,
                    ).push(Object::VMStackPointer(self.fp)),
                    ..self
                },
                jump(pc, 1),
            )
        }
    }

    /// What the instruction at `pc` leads to.
    pub open spec fn step(self, pc: usize) -> Step
        recommends
            pc < self.ops.len(),
    {
        let op = self.ops[pc as int];
        match op {
            Op::Constant(c) => Step::Next(Machine { ac: c, ..self }, jump(pc, 1)),
            Op::Push => self.push(op, pc),
            Op::Cons => self.cons(op, pc),
            Op::NumberAdd => self.number_add(op, pc),
            Op::AddPair => self.add_pair(op, pc),
            Op::DefineGlobal(symbol) => Step::Next(
                Machine {
                    globals: define(self.globals, symbol, self.ac),
                    ac: Object::Undef,
                    ..self
                },
                jump(pc, 1),
            ),
            Op::ReferGlobal(symbol) => self.refer_global(op, pc, symbol),
            Op::ReferLocal(n) => self.refer_local(op, pc, n),
            Op::ReferFree(n) => self.refer_free(op, pc, n),
            Op::LetFrame(_) => self.let_frame(op, pc),
            Op::Enter(n) => self.enter(op, pc, n),
            Op::Leave(n) => self.leave(op, pc, n),
            Op::Display(count) => self.display(op, pc, count),
            Op::Closure { size, arg_len, is_optional_arg, num_free_vars } => self.closure(
                op,
                pc,
                size,
                arg_len,
                is_optional_arg,
                num_free_vars,
            ),
            Op::Test(skip) => Step::Next(
                self,
                if self.ac == Object::False {
                    jump(pc, skip)
                } else {
                    jump(pc, 1)
                },
            ),
            Op::LocalJmp(skip) => Step::Next(self, jump(pc, skip)),
            Op::Call(arg_len) => self.call(op, arg_len),
            Op::Return(n) => self.return_n(op, n),
            Op::Frame(skip) => self.frame(op, pc, skip),
            Op::Halt => Step::Halt(self.ac),
            Op::Undef => Step::Next(Machine { ac: Object::Undef, ..self }, jump(pc, 1)),
            Op::Nop => Step::Next(self, jump(pc, 1)),
        }
    }

    /// How the run ends that starts in this state at `pc` and may take `fuel`
    /// instructions. It ends with the accumulator where the program counter
    /// leaves the program or meets `Halt`; it is given up where an instruction
    /// fails, or where the instructions run out.
    pub open spec fn execute(self, pc: usize, fuel: nat) -> Outcome
        decreases fuel,
    {
        if pc >= self.ops.len() {
            Outcome { machine: self, result: Ok(self.ac) }
        } else if fuel == 0 {
            Outcome { machine: self, result: Err(VmError::StepLimit) }
        } else {
            match self.step(pc) {
                Step::Next(next, pc) => next.execute(pc, (fuel - 1) as nat),
                Step::Halt(value) => Outcome { machine: self, result: Ok(value) },
                Step::Fail(e) => Outcome { machine: self, result: Err(e) },
            }
        }
    }

    /// The procedure that every program finds in the display.
    pub open spec fn base_procedure() -> HeapValue {
        HeapValue::Procedure { func: Builtin::Write }
    }

    /// The display a program starts with: a closure whose one captured variable
    /// is the procedure `procedure`, above the display that was there.
    pub open spec fn base_closure(self, procedure: GcRef) -> HeapValue {
        HeapValue::Closure {
            pc: 0,
            arg_len: 0,
            is_optional_arg: false,
            free_vars: seq![Object::Procedure(procedure)],
            prev: self.dc,
        }
    }

    /// Whether the byte count can take what loading a program allocates.
    pub open spec fn can_load(self) -> bool {
        self.heap.bytes() + ObjectType::Procedure.spec_size() + ObjectType::Closure.spec_size()
            <= usize::MAX
    }

    /// The state in which the program `ops` starts: the stack is empty, and the
    /// display is a new closure that holds the write procedure.
    pub open spec fn load(self, ops: Seq<Op>) -> Machine {
        let procedure = self.heap.next_handle();
        let heap = self.heap.allocate(Self::base_procedure());
        let closure = heap.next_handle();
        Machine {
            heap: heap.allocate(self.base_closure(procedure)),
            dc: Object::Closure(closure),
            stack: Seq::empty(),
            fp: 0,
            ops,
            ..self
        }
    }

    /// How the run of the program `ops` ends that may take `steps`
    /// instructions.
    pub open spec fn run_for(self, ops: Seq<Op>, steps: nat) -> Outcome {
        if self.can_load() {
            self.load(ops).execute(0, steps)
        } else {
            Outcome { machine: self, result: Err(VmError::HeapExhausted) }
        }
    }

    /// How the run of the program `ops` ends.
    pub open spec fn run(self, ops: Seq<Op>) -> Outcome {
        self.run_for(ops, STEP_LIMIT as nat)
    }
}

} // verus!
