//! The object store: an arena of slots with a free list, the symbol table, the
//! grey worklist, and mark-and-sweep collection.

use crate::heap::{
    lemma_live_bytes_push, lemma_live_bytes_update, recycled_below, threshold_after, unmarked,
    Cell, Heap, Slot, FIRST_THRESHOLD, HEAP_GROW_FACTOR,
};
use crate::laws::{lemma_allocate_symbols, lemma_intern};
use crate::objects::{Closure, HeapObject, HeapValue, Object, Pair, Procedure, Symbol};
use vstd::hash_map::StringHashMap;
use vstd::prelude::*;

verus! {

/// A handle to a heap object: the slot it lives in and the generation the slot
/// had when the object was allocated. A handle whose generation is not the
/// slot's current one refers to nothing.
#[derive(Clone, Copy, Debug, PartialEq, Eq, Hash, Structural)]
pub struct GcRef {
    pub index: usize,
    pub generation: u64,
}

/// The tag of a heap object.
#[derive(Clone, Copy, Debug, PartialEq, Eq, Structural)]
pub enum ObjectType {
    Pair,
    Procedure,
    Symbol,
    Closure,
}

impl ObjectType {
    /// The bytes an object of this type accounts for: the size of the struct
    /// that holds it.
    pub open spec fn spec_size(self) -> nat {
        match self {
            ObjectType::Pair => vstd::layout::size_of::<Pair>(),
            ObjectType::Symbol => vstd::layout::size_of::<Symbol>(),
            ObjectType::Closure => vstd::layout::size_of::<Closure>(),
            ObjectType::Procedure => vstd::layout::size_of::<Procedure>(),
        }
    }

    /// The bytes an object of this type accounts for.
    pub fn size(&self) -> (n: usize)
        ensures
            n == self.spec_size(),
    {
        match self {
            ObjectType::Pair => core::mem::size_of::<Pair>(),
            ObjectType::Symbol => core::mem::size_of::<Symbol>(),
            ObjectType::Closure => core::mem::size_of::<Closure>(),
            ObjectType::Procedure => core::mem::size_of::<Procedure>(),
        }
    }
}

/// What the store keeps beside every object: its mark bit and its tag.
#[derive(Clone, Copy, Debug, PartialEq, Eq, Structural)]
pub struct GcHeader {
    pub marked: bool,
    pub obj_type: ObjectType,
}

impl GcHeader {
    /// The header of a new object: not marked.
    pub fn new(obj_type: ObjectType) -> (h: Self)
        ensures
            h == (GcHeader { marked: false, obj_type }),
    {
        Self { marked: false, obj_type }
    }
}

/// One slot of the arena.
struct Entry {
    generation: u64,
    header: GcHeader,
    object: Option<HeapObject>,
}

impl View for Entry {
    type V = Slot;

    closed spec fn view(&self) -> Slot {
        Slot {
            generation: self.generation,
            cell: match self.object {
                Some(o) => Some(Cell { marked: self.header.marked, value: o@ }),
                None => None,
            },
        }
    }
}

/// The store. Objects live in the slots of an arena and are known by handles; a
/// slot that a sweep has vacated is taken again by a later allocation, in its
/// next generation.
pub struct Gc {
    next_gc: usize,
    bytes: usize,
    slots: Vec<Entry>,
    free: Vec<usize>,
    grey_stack: Vec<GcRef>,
    symbols: StringHashMap<GcRef>,
}

impl View for Gc {
    type V = Heap;

    closed spec fn view(&self) -> Heap {
        Heap {
            slots: Seq::new(self.slots@.len(), |i: int| self.slots@[i]@),
            free: self.free@,
            grey: self.grey_stack@,
            next_gc: self.next_gc,
        }
    }
}

impl Gc {
    /// The invariant of the store: its heap is well formed, the byte count is
    /// the sum over the objects, every tag names its object's type, and the
    /// symbol table holds exactly the symbols of the heap.
    pub closed spec fn wf(&self) -> bool {
        &&& self@.wf()
        &&& self.bytes == self@.bytes()
        &&& forall|i: int|
            0 <= i < self.slots@.len() ==> match (#[trigger] self.slots@[i]).object {
                Some(o) => self.slots@[i].header.obj_type == o@.obj_type(),
                None => true,
            }
        &&& forall|name: Seq<char>| #[trigger]
            self.symbols@.contains_key(name) ==> self@.live(self.symbols@[name]) && self@.get(
                self.symbols@[name],
            ) == (HeapValue::Symbol { name })
        &&& forall|i: int, name: Seq<char>| #[trigger]
            self@.symbol_at(i, name) ==> self.symbols@.contains_key(name) && self.symbols@[name]
                == self@.handle(i)
    }

    /// A well-formed store has a well-formed heap.
    pub proof fn lemma_wf(&self)
        requires
            self.wf(),
        ensures
            self@.wf(),
            self@.bytes() <= usize::MAX,
    {
    }

    /// An empty store.
    pub fn new() -> (gc: Self)
        ensures
            gc.wf(),
            gc@ == Heap::empty(),
    {
        let gc = Gc {
            next_gc: FIRST_THRESHOLD,
            bytes: 0,
            slots: Vec::new(),
            free: Vec::new(),
            grey_stack: Vec::new(),
            symbols: StringHashMap::new(),
        };
        assert(gc@.slots =~= Seq::empty());
        gc
    }

    /// The bytes that the objects in the store account for.
    pub fn bytes_allocated(&self) -> (n: usize)
        requires
            self.wf(),
        ensures
            n == self@.bytes(),
    {
        self.bytes
    }

    /// The byte count above which a collection is due.
    pub fn next_gc(&self) -> (n: usize)
        ensures
            n == self@.next_gc,
    {
        self.next_gc
    }

    /// Whether the bytes allocated have passed the threshold, so that a
    /// collection is due before the next allocation.
    pub fn should_gc(&self) -> (b: bool)
        requires
            self.wf(),
        ensures
            b == self@.should_gc(),
    {
        self.bytes > self.next_gc
    }

    /// Whether the byte count can take `object` without leaving `usize`.
    pub fn has_room(&self, object: &HeapObject) -> (b: bool)
        requires
            self.wf(),
        ensures
            b == (self@.bytes() + object@.size() <= usize::MAX),
    {
        object.size() <= usize::MAX - self.bytes
    }

    /// Whether `reference` refers to an object.
    pub fn is_live(&self, reference: GcRef) -> (b: bool)
        ensures
            b == self@.live(reference),
    {
        reference.index < self.slots.len() && self.slots[reference.index].generation
            == reference.generation && self.slots[reference.index].object.is_some()
    }

    /// The object `reference` refers to, if any.
    pub fn get(&self, reference: GcRef) -> (o: Option<&HeapObject>)
        ensures
            match o {
                Some(obj) => self@.lookup(reference) == Some(obj@),
                None => self@.lookup(reference) is None,
            },
    {
        if reference.index < self.slots.len() && self.slots[reference.index].generation
            == reference.generation {
            self.slots[reference.index].object.as_ref()
        } else {
            None
        }
    }

    /// The header of the object `reference` refers to, if any.
    pub fn header(&self, reference: GcRef) -> (h: Option<GcHeader>)
        requires
            self.wf(),
        ensures
            match h {
                Some(h) => self@.live(reference) && h.marked == self@.marked(reference)
                    && h.obj_type == self@.get(reference).obj_type(),
                None => !self@.live(reference),
            },
    {
        if self.is_live(reference) {
            Some(self.slots[reference.index].header)
        } else {
            None
        }
    }

    /// Puts `object` into the slot that is next, and counts its bytes. The
    /// symbol table is left to the caller.
    fn place(&mut self, object: HeapObject) -> (r: GcRef)
        requires
            old(self).wf(),
            old(self)@.bytes() + object@.size() <= usize::MAX,
            object@ matches HeapValue::Symbol { name } ==> old(self)@.symbol(name) is None,
        ensures
            final(self)@ == old(self)@.allocate(object@),
            r == old(self)@.next_handle(),
            final(self).symbols == old(self).symbols,
            final(self)@.wf(),
            final(self).bytes == final(self)@.bytes(),
            forall|i: int|
                0 <= i < final(self).slots@.len()
                    ==> match (#[trigger] final(self).slots@[i]).object {
                    Some(o) => final(self).slots@[i].header.obj_type == o@.obj_type(),
                    None => true,
                },
            old(self)@.pending() ==> final(self)@.pending(),
            final(self)@.bytes() == old(self)@.bytes() + object@.size(),
    {
        let size = object.size();
        let header = GcHeader::new(object.obj_type());
        let ghost value = object@;
        let ghost before = self@;
        let r;
        if self.free.len() > 0 {
            let i = self.free.pop().unwrap();
            let generation = self.slots[i].generation;
            self.slots[i].header = header;
            self.slots[i].object = Some(object);
            r = GcRef { index: i, generation };
            proof {
                assert(self@.slots =~= before.slots.update(
                    i as int,
                    Slot { generation, cell: Some(Cell { marked: false, value }) },
                ));
                lemma_live_bytes_update(before.slots, i as int, self@.slots[i as int]);
            }
        } else {
            let i = self.slots.len();
            self.slots.push(Entry { generation: 0, header, object: Some(object) });
            r = GcRef { index: i, generation: 0 };
            proof {
                assert(self@.slots =~= before.slots.push(
                    Slot { generation: 0, cell: Some(Cell { marked: false, value }) },
                ));
                lemma_live_bytes_push(before.slots, self@.slots[i as int]);
            }
        }
        self.bytes = self.bytes + size;
        proof {
            let after = self@;
            assert(self.slots.len() <= usize::MAX);
            assert forall|k: int| 0 <= k < after.grey.len() implies after.marked(
                #[trigger] after.grey[k],
            ) by {
                assert(before.marked(before.grey[k]));
            }
            assert forall|i: int, j: int, name: Seq<char>|
                #![trigger after.symbol_at(i, name), after.symbol_at(j, name)]
                after.symbol_at(i, name) && after.symbol_at(j, name) implies i == j by {
                if i != r.index {
                    assert(before.symbol_at(i, name));
                }
                if j != r.index {
                    assert(before.symbol_at(j, name));
                }
            }
            if before.pending() {
                assert forall|t: GcRef| #[trigger] after.marked(t) implies after.grey.contains(
                    t,
                ) by {
                    assert(before.marked(t));
                }
            }
        }
        r
    }

    /// Puts `object` into the store and returns its handle. Symbols come into
    /// the store through `intern` only.
    pub fn allocate(&mut self, object: HeapObject) -> (r: GcRef)
        requires
            old(self).wf(),
            old(self)@.bytes() + object@.size() <= usize::MAX,
            !(object is Symbol),
        ensures
            final(self).wf(),
            final(self)@ == old(self)@.allocate(object@),
            r == old(self)@.next_handle(),
            !old(self)@.live(r),
            final(self)@.lookup(r) == Some(object@),
            forall|t: GcRef| #[trigger]
                old(self)@.live(t) ==> final(self)@.lookup(t) == old(self)@.lookup(t),
            forall|name: Seq<char>| #[trigger]
                final(self)@.symbol(name) == old(self)@.symbol(name),
            final(self)@.bytes() == old(self)@.bytes() + object@.size(),
            old(self)@.pending() ==> final(self)@.pending(),
    {
        let ghost before = self@;
        let ghost value = object@;
        let r = self.place(object);
        proof {
            let after = self@;
            assert forall|i: int, name: Seq<char>| #[trigger]
                after.symbol_at(i, name) implies self.symbols@.contains_key(name)
                && self.symbols@[name] == after.handle(i) by {
                assert(before.symbol_at(i, name));
            }
            // The arena after the allocation fits `usize`, so there was a
            // slot to take.
            assert(before.free.len() > 0 || before.slots.len() < usize::MAX);
            before.lemma_allocate(value);
            assert forall|name: Seq<char>| #[trigger] after.symbol(name) == before.symbol(
                name,
            ) by {
                lemma_allocate_symbols(before, value, name);
            }
        }
        r
    }

    /// The handle of the symbol called `s`. The first call for a name allocates
    /// the symbol; every later one returns the same handle for as long as the
    /// symbol lives.
    pub fn intern(&mut self, s: String) -> (r: GcRef)
        requires
            old(self).wf(),
            old(self)@.symbol(s@) is None ==> old(self)@.bytes() + (HeapValue::Symbol {
                name: s@,
            }).size() <= usize::MAX,
        ensures
            final(self).wf(),
            final(self)@ == old(self)@.intern(s@),
            r == old(self)@.interned(s@),
            final(self)@.symbol(s@) == Some(r),
            final(self)@.lookup(r) == Some(HeapValue::Symbol { name: s@ }),
            forall|t: GcRef| #[trigger]
                old(self)@.live(t) ==> final(self)@.lookup(t) == old(self)@.lookup(t),
            forall|other: Seq<char>|
                other != s@ ==> #[trigger] final(self)@.symbol(other) == old(self)@.symbol(other),
            final(self)@.bytes() == old(self)@.bytes() + if old(self)@.symbol(s@) is None {
                (HeapValue::Symbol { name: s@ }).size()
            } else {
                0
            },
            old(self)@.pending() ==> final(self)@.pending(),
    {
        let ghost before = self@;
        let ghost name = s@;
        let found = match self.symbols.get(s.as_str()) {
            Some(symbol) => Some(*symbol),
            None => None,
        };
        let symbol = match found {
            Some(symbol) => {
                proof {
                    assert(before.symbol_at(symbol.index as int, name));
                }
                symbol
            },
            None => {
                proof {
                    assert(before.symbol(name) is None);
                }
                let symbol = self.place(HeapObject::Symbol(Symbol::new(s.clone())));
                self.symbols.insert(s, symbol);
                proof {
                    let after = self@;
                    assert(after.symbol_at(symbol.index as int, name));
                    assert forall|i: int, n: Seq<char>| #[trigger]
                        after.symbol_at(i, n) implies self.symbols@.contains_key(n)
                        && self.symbols@[n] == after.handle(i) by {
                        if i != symbol.index {
                            assert(before.symbol_at(i, n));
                        }
                    }
                }
                symbol
            },
        };
        proof {
            // The arena after the call fits `usize`, so there was a slot to
            // take where one was needed.
            assert(before.symbol(name) is None ==> before.free.len() > 0 || before.slots.len()
                < usize::MAX);
            if before.symbol(name) is None {
                lemma_intern(before, name);
            } else {
                let i = choose|i: int| before.symbol_at(i, name);
                assert(before.symbol_at(i, name));
            }
        }
        symbol
    }

    /// A store that differs from a well-formed one in marks and worklist only,
    /// and whose heap is well formed, is well formed.
    proof fn lemma_marks_keep_wf(&self, before: &Gc)
        requires
            before.wf(),
            self@.wf(),
            before@.same_objects(self@),
            self@.bytes() == before@.bytes(),
            self.bytes == before.bytes,
            self.symbols == before.symbols,
            self.slots@.len() == before.slots@.len(),
            forall|i: int|
                0 <= i < self.slots@.len() ==> (#[trigger] self.slots@[i]).object
                    == before.slots@[i].object && self.slots@[i].header.obj_type
                    == before.slots@[i].header.obj_type,
        ensures
            self.wf(),
    {
        let a = before@;
        let b = self@;
        assert forall|i: int, name: Seq<char>| #[trigger]
            b.symbol_at(i, name) implies self.symbols@.contains_key(name) && self.symbols@[name]
            == b.handle(i) by {
            assert(a.symbol_at(i, name));
        }
    }

    /// Marks the object `reference` refers to and puts it on the worklist.
    /// Nothing happens where `reference` refers to nothing or the object is
    /// marked already.
    pub fn mark_object(&mut self, reference: GcRef)
        requires
            old(self).wf(),
        ensures
            final(self).wf(),
            final(self)@ == old(self)@.mark(reference),
            old(self)@.pending() ==> final(self)@.pending(),
            final(self)@.bytes() == old(self)@.bytes(),
    {
        let ghost before = self@;
        if self.is_live(reference) && !self.slots[reference.index].header.marked {
            self.slots[reference.index].header.marked = true;
            self.grey_stack.push(reference);
            proof {
                assert(self@.slots =~= before.slots.update(
                    reference.index as int,
                    before.slots[reference.index as int].with_mark(true),
                ));
                before.lemma_mark(reference);
                self.lemma_marks_keep_wf(old(self));
            }
        }
    }

    /// Marks `value` as a root: where it is a handle, its object is marked and
    /// put on the worklist; an immediate is passed over.
    pub fn mark_value(&mut self, value: Object)
        requires
            old(self).wf(),
        ensures
            final(self).wf(),
            final(self)@ == old(self)@.mark_value(value),
            old(self)@.pending() ==> final(self)@.pending(),
            final(self)@.bytes() == old(self)@.bytes(),
    {
        match value {
            Object::Number(_) => {},
            Object::VMStackPointer(_) => {},
            Object::True => {},
            Object::False => {},
            Object::Undef => {},
            Object::Procedure(procedure) => {
                self.mark_object(procedure);
            },
            Object::Closure(closure) => {
                self.mark_object(closure);
            },
            Object::Symbol(symbol) => {
                self.mark_object(symbol);
            },
            Object::Pair(pair) => {
                self.mark_object(pair);
            },
        }
    }

    /// Marks the values that the object in slot `index` holds.
    fn trace_pointer(&mut self, index: usize)
        requires
            old(self).wf(),
            old(self)@.occupied(index as int),
        ensures
            final(self).wf(),
            final(self)@ == old(self)@.mark_values(
                old(self)@.slots[index as int].cell.unwrap().value.children(),
            ),
    {
        let ghost before = self@;
        let ghost children = before.slots[index as int].cell.unwrap().value.children();
        // Of a pair the two fields; of a closure the enclosing display and
        // the number of captured variables.
        let (first, second, count) = match &self.slots[index].object {
            Some(HeapObject::Pair(pair)) => (pair.first, pair.second, 0),
            Some(HeapObject::Closure(closure)) => (
                closure.prev,
                Object::Undef,
                closure.free_vars.len(),
            ),
            _ => (Object::Undef, Object::Undef, 0),
        };
        match self.slots[index].header.obj_type {
            ObjectType::Symbol => {},
            ObjectType::Procedure => {},
            ObjectType::Pair => {
                self.mark_value(first);
                self.mark_value(second);
                proof {
                    before.lemma_mark_values_push(Seq::empty(), first);
                    before.lemma_mark_values_push(seq![first], second);
                    assert(seq![first].push(second) =~= children);
                }
            },
            ObjectType::Closure => {
                let mut k: usize = 0;
                while k < count
                    invariant
                        self.wf(),
                        before.wf(),
                        k <= count,
                        index < self.slots@.len(),
                        before.occupied(index as int),
                        children == before.slots[index as int].cell.unwrap().value.children(),
                        children.len() == count + 1,
                        self@ == before.mark_values(children.take(k as int)),
                        match self.slots@[index as int].object {
                            Some(HeapObject::Closure(c)) => c.free_vars@.len() == count && c.prev
                                == first && c.free_vars@.push(c.prev) == children,
                            _ => false,
                        },
                    decreases count - k,
                {
                    let value = match &self.slots[index].object {
                        Some(HeapObject::Closure(closure)) => closure.free_vars[k],
                        _ => Object::Undef,
                    };
                    let ghost mid = self@;
                    self.mark_value(value);
                    proof {
                        before.lemma_mark_values_take(children, k as int);
                        assert(mid.slots[index as int].with_mark(false)
                            == self@.slots[index as int].with_mark(
                            false,
                        ));
                    }
                    k += 1;
                }
                self.mark_value(first);
            },
        }
    }

    /// Marks the values that the object `reference` refers to holds, and puts
    /// the objects newly marked on the worklist.
    pub fn trace_object(&mut self, reference: GcRef)
        requires
            old(self).wf(),
        ensures
            final(self).wf(),
            final(self)@ == old(self)@.trace_object(reference),
            old(self)@.pending() ==> final(self)@.pending(),
            final(self)@.bytes() == old(self)@.bytes(),
    {
        if self.is_live(reference) {
            proof {
                self@.lemma_mark_values(self@.get(reference).children());
            }
            self.trace_pointer(reference.index);
        }
    }

    /// Traces the object `value` refers to, where it is a handle.
    pub fn trace_value(&mut self, value: Object)
        requires
            old(self).wf(),
        ensures
            final(self).wf(),
            final(self)@ == old(self)@.trace_value(value),
            old(self)@.pending() ==> final(self)@.pending(),
            final(self)@.bytes() == old(self)@.bytes(),
    {
        match value {
            Object::Number(_) => {},
            Object::VMStackPointer(_) => {},
            Object::True => {},
            Object::False => {},
            Object::Undef => {},
            Object::Procedure(procedure) => {
                self.trace_object(procedure);
            },
            Object::Closure(closure) => {
                self.trace_object(closure);
            },
            Object::Symbol(symbol) => {
                self.trace_object(symbol);
            },
            Object::Pair(pair) => {
                self.trace_object(pair);
            },
        }
    }

    /// Drains the worklist: takes one object after the other from it and marks
    /// what the object holds, until none is left. Then exactly the objects that
    /// could be reached from the worklist are marked.
    fn trace_references(&mut self)
        requires
            old(self).wf(),
            old(self)@.pending(),
        ensures
            final(self).wf(),
            final(self)@ == old(self)@.traced(),
    {
        let ghost start = self@;
        proof {
            start.lemma_tracing_start();
        }
        while self.grey_stack.len() > 0
            invariant
                self.wf(),
                start.wf(),
                start.tracing(self@),
            decreases unmarked(self@.slots), self@.grey.len(),
        {
            let ghost before = *self;
            let r = self.grey_stack.pop().unwrap();
            proof {
                before@.lemma_popped();
                start.lemma_tracing_step(before@);
                self.lemma_marks_keep_wf(&before);
            }
            self.trace_object(r);
        }
        proof {
            start.lemma_tracing_end(self@);
        }
    }

    /// Sweeps one slot: an object that is marked stays, unmarked again; one
    /// that is not marked leaves the store, and its slot goes to the free list
    /// unless it has used up its generations.
    fn sweep_slot(&mut self, index: usize)
        requires
            old(self).wf(),
            old(self)@.grey.len() == 0,
            index < old(self)@.slots.len(),
        ensures
            final(self).wf(),
            final(self)@.slots == old(self)@.slots.update(
                index as int,
                old(self)@.slots[index as int].swept(),
            ),
            final(self)@.free == if old(self)@.slots[index as int].recycled() {
                old(self)@.free.push(index)
            } else {
                old(self)@.free
            },
            final(self)@.grey == old(self)@.grey,
            final(self)@.next_gc == old(self)@.next_gc,
    {
        let ghost before = self@;
        let ghost slot = before.slots[index as int];
        if self.slots[index].object.is_some() {
            if self.slots[index].header.marked {
                self.slots[index].header.marked = false;
                proof {
                    assert(self@.slots =~= before.slots.update(index as int, slot.swept()));
                    lemma_live_bytes_update(before.slots, index as int, slot.swept());
                    assert forall|i: int, name: Seq<char>| #[trigger]
                        self@.symbol_at(i, name) implies self.symbols@.contains_key(name)
                        && self.symbols@[name] == self@.handle(i) by {
                        assert(before.symbol_at(i, name));
                    }
                }
            } else {
                let object = self.slots[index].object.take();
                match object {
                    Some(object) => {
                        let size = object.size();
                        proof {
                            lemma_live_bytes_update(before.slots, index as int, slot.swept());
                        }
                        self.bytes = self.bytes - size;
                        match &object {
                            HeapObject::Symbol(symbol) => {
                                self.symbols.remove(symbol.string.as_str());
                            },
                            _ => {},
                        }
                    },
                    None => {},
                }
                if self.slots[index].generation < u64::MAX {
                    self.slots[index].generation = self.slots[index].generation + 1;
                    self.free.push(index);
                }
                proof {
                    let after = self@;
                    assert(after.slots =~= before.slots.update(index as int, slot.swept()));
                    assert forall|k: int| 0 <= k < after.free.len() implies (
                    #[trigger] after.free[k]) < after.slots.len()
                        && !after.slots[after.free[k] as int].occupied() by {
                        if k < before.free.len() {
                            assert(!before.slots[before.free[k] as int].occupied());
                        }
                    }
                    assert forall|i: int, name: Seq<char>| #[trigger]
                        after.symbol_at(i, name) implies self.symbols@.contains_key(name)
                        && self.symbols@[name] == after.handle(i) by {
                        assert(before.symbol_at(i, name));
                        // No name has two symbols, so the one that left had
                        // another name.
                        assert(!before.symbol_at(index as int, name));
                    }
                }
            }
        }
    }

    /// Walks the arena once: every object that is not marked leaves the store,
    /// every other one is unmarked again.
    fn sweep(&mut self)
        requires
            old(self).wf(),
            old(self)@.grey.len() == 0,
        ensures
            final(self).wf(),
            final(self)@ == old(self)@.swept(),
    {
        let ghost before = self@;
        let count = self.slots.len();
        let mut index: usize = 0;
        while index < count
            invariant
                self.wf(),
                index <= count,
                count == before.slots.len(),
                self@.slots.len() == count,
                self@.grey.len() == 0,
                self@.grey == before.grey,
                self@.next_gc == before.next_gc,
                self@.free == before.free + recycled_below(before.slots, index as int),
                forall|j: int| 0 <= j < index ==> self@.slots[j]
                    == (#[trigger] before.slots[j]).swept(),
                forall|j: int| index <= j < count ==> self@.slots[j] == #[trigger] before.slots[j],
            decreases count - index,
        {
            self.sweep_slot(index);
            index += 1;
        }
        proof {
            assert(self@.slots =~= before.swept().slots);
        }
    }

    /// Collects: drains the worklist, so that every object that can be reached
    /// from it is marked; sweeps; and sets the threshold for the next
    /// collection to twice the bytes that stayed.
    pub fn collect_garbage(&mut self)
        requires
            old(self).wf(),
            old(self)@.pending(),
        ensures
            final(self).wf(),
            final(self)@ == old(self)@.collected(),
            final(self)@.pending(),
            final(self)@.grey.len() == 0,
            forall|r: GcRef| #[trigger]
                final(self)@.live(r) <==> old(self)@.live(r) && old(self)@.reachable(
                    old(self)@.grey_set(),
                    r,
                ),
            forall|r: GcRef| #[trigger]
                final(self)@.live(r) ==> final(self)@.get(r) == old(self)@.get(r),
            final(self)@.bytes() <= old(self)@.bytes(),
            final(self)@.next_gc == threshold_after(final(self)@.bytes()),
            !final(self)@.should_gc(),
    {
        proof {
            old(self)@.lemma_collected();
        }
        self.trace_references();
        self.sweep();
        let ghost swept = *self;
        self.next_gc = if self.bytes > usize::MAX / HEAP_GROW_FACTOR {
            usize::MAX
        } else {
            self.bytes * HEAP_GROW_FACTOR
        };
        proof {
            let a = swept@;
            let b = self@;
            assert forall|i: int, j: int, name: Seq<char>|
                #![trigger b.symbol_at(i, name), b.symbol_at(j, name)]
                b.symbol_at(i, name) && b.symbol_at(j, name) implies i == j by {
                assert(a.symbol_at(i, name));
                assert(a.symbol_at(j, name));
            }
            self.lemma_marks_keep_wf(&swept);
        }
    }

    /// Marks the values that `object`, which is not in the store, holds.
    pub fn mark_children(&mut self, object: &HeapObject)
        requires
            old(self).wf(),
        ensures
            final(self).wf(),
            final(self)@ == old(self)@.mark_values(object@.children()),
            old(self)@.pending() ==> final(self)@.pending(),
            final(self)@.bytes() == old(self)@.bytes(),
    {
        let ghost before = self@;
        let ghost children = object@.children();
        proof {
            before.lemma_mark_values(children);
        }
        match object {
            HeapObject::Pair(pair) => {
                self.mark_value(pair.first);
                self.mark_value(pair.second);
                proof {
                    before.lemma_mark_values_push(Seq::empty(), pair.first);
                    before.lemma_mark_values_push(seq![pair.first], pair.second);
                    assert(seq![pair.first].push(pair.second) =~= children);
                }
            },
            HeapObject::Closure(closure) => {
                let count = closure.free_vars.len();
                let mut k: usize = 0;
                while k < count
                    invariant
                        self.wf(),
                        k <= count,
                        count == closure.free_vars@.len(),
                        children == closure.free_vars@.push(closure.prev),
                        self@ == before.mark_values(children.take(k as int)),
                    decreases count - k,
                {
                    self.mark_value(closure.free_vars[k]);
                    proof {
                        before.lemma_mark_values_take(children, k as int);
                    }
                    k += 1;
                }
                self.mark_value(closure.prev);
            },
            _ => {
            },
        }
    }
}

} // verus!
