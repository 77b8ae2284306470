//! The heap as a mathematical value: slots, the free list, the grey worklist
//! and the collection threshold, with what allocation, marking and collection
//! do to them.

use crate::gc::GcRef;
use crate::objects::{HeapValue, Object};
use vstd::prelude::*;

verus! {

/// An object in a slot, with its mark bit.
pub struct Cell {
    pub marked: bool,
    pub value: HeapValue,
}

/// One slot of the arena. `generation` counts how often the slot has been
/// vacated; a handle is good only for the generation it was issued in.
pub struct Slot {
    pub generation: u64,
    pub cell: Option<Cell>,
}

impl Slot {
    /// Whether the slot holds an object.
    pub open spec fn occupied(self) -> bool {
        self.cell is Some
    }

    /// Whether the slot holds an object that is marked.
    pub open spec fn marked(self) -> bool {
        self.cell is Some && self.cell.unwrap().marked
    }

    /// The slot with its mark bit set to `m`; a vacant slot stays as it is.
    pub open spec fn with_mark(self, m: bool) -> Slot {
        match self.cell {
            Some(c) => Slot { generation: self.generation, cell: Some(Cell { marked: m,
                value: c.value }) },
            None => self,
        }
    }

    /// Whether a sweep vacates the slot: it holds an object that is not marked.
    pub open spec fn garbage(self) -> bool {
        self.cell is Some && !self.cell.unwrap().marked
    }

    /// The slot after a sweep: a marked object stays, unmarked again; an
    /// unmarked one leaves, and the slot moves on to its next generation unless
    /// it has used up its last.
    pub open spec fn swept(self) -> Slot {
        if self.garbage() {
            Slot {
                generation: if self.generation < u64::MAX {
                    (self.generation + 1) as u64
                } else {
                    self.generation
                },
                cell: None,
            }
        } else {
            self.with_mark(false)
        }
    }

    /// Whether a sweep hands the slot to the free list: it is vacated and has a
    /// generation left.
    pub open spec fn recycled(self) -> bool {
        self.garbage() && self.generation < u64::MAX
    }

    /// The bytes that the object in the slot accounts for.
    pub open spec fn bytes(self) -> nat {
        match self.cell {
            Some(c) => c.value.size(),
            None => 0,
        }
    }
}

/// The bytes that the objects in `slots` account for.
pub open spec fn live_bytes(slots: Seq<Slot>) -> nat
    decreases slots.len(),
{
    if slots.len() == 0 {
        0
    } else {
        live_bytes(slots.drop_last()) + slots.last().bytes()
    }
}

/// The indices below `n` that a sweep of `slots` hands to the free list, in
/// rising order.
pub open spec fn recycled_below(slots: Seq<Slot>, n: int) -> Seq<usize>
    decreases n,
{
    if n <= 0 {
        Seq::empty()
    } else if slots[n - 1].recycled() {
        recycled_below(slots, n - 1).push((n - 1) as usize)
    } else {
        recycled_below(slots, n - 1)
    }
}

/// Every slot of `slots` after a sweep.
pub open spec fn swept_slots(slots: Seq<Slot>) -> Seq<Slot> {
    Seq::new(slots.len(), |i: int| slots[i].swept())
}

/// How many objects in `slots` are not marked.
pub open spec fn unmarked(slots: Seq<Slot>) -> nat
    decreases slots.len(),
{
    if slots.len() == 0 {
        0
    } else {
        unmarked(slots.drop_last()) + if slots.last().garbage() {
            1nat
        } else {
            0nat
        }
    }
}

/// The factor by which the threshold lies above the bytes that a collection
/// left.
pub const HEAP_GROW_FACTOR: usize = 2;

/// The threshold of a new heap.
pub const FIRST_THRESHOLD: usize = 1024 * 1024;

/// The threshold that follows a collection which left `bytes` bytes live:
/// `HEAP_GROW_FACTOR` times as much, or `usize::MAX` where that does not fit.
pub open spec fn threshold_after(bytes: nat) -> usize {
    if HEAP_GROW_FACTOR * bytes <= usize::MAX {
        (HEAP_GROW_FACTOR * bytes) as usize
    } else {
        usize::MAX
    }
}

/// The state of the store.
pub struct Heap {
    /// The arena.
    pub slots: Seq<Slot>,
    /// Vacant slots that the next allocations take, last first.
    pub free: Seq<usize>,
    /// Marked objects whose contents have not been traced yet.
    pub grey: Seq<GcRef>,
    /// The byte count above which a collection is due.
    pub next_gc: usize,
}

impl Heap {
    /// The heap of a new store.
    pub open spec fn empty() -> Heap {
        Heap {
            slots: Seq::empty(),
            free: Seq::empty(),
            grey: Seq::empty(),
            next_gc: FIRST_THRESHOLD,
        }
    }

    /// Whether slot `i` holds an object.
    pub open spec fn occupied(self, i: int) -> bool {
        0 <= i < self.slots.len() && self.slots[i].occupied()
    }

    /// The handle that is good for slot `i` now.
    pub open spec fn handle(self, i: int) -> GcRef {
        GcRef { index: i as usize, generation: self.slots[i].generation }
    }

    /// Whether `r` refers to an object.
    pub open spec fn live(self, r: GcRef) -> bool {
        self.occupied(r.index as int) && self.slots[r.index as int].generation == r.generation
    }

    /// The object `r` refers to, where `r` is live.
    pub open spec fn get(self, r: GcRef) -> HeapValue {
        self.slots[r.index as int].cell.unwrap().value
    }

    /// The object `r` refers to, if any.
    pub open spec fn lookup(self, r: GcRef) -> Option<HeapValue> {
        if self.live(r) {
            Some(self.get(r))
        } else {
            None
        }
    }

    /// Whether `r` refers to an object that is marked.
    pub open spec fn marked(self, r: GcRef) -> bool {
        self.live(r) && self.slots[r.index as int].marked()
    }

    /// The bytes allocated.
    pub open spec fn bytes(self) -> nat {
        live_bytes(self.slots)
    }

    /// Whether the bytes allocated have passed the threshold.
    pub open spec fn should_gc(self) -> bool {
        self.bytes() > self.next_gc
    }

    /// Whether slot `i` holds the symbol called `name`.
    pub open spec fn symbol_at(self, i: int, name: Seq<char>) -> bool {
        self.occupied(i) && self.slots[i].cell.unwrap().value == (HeapValue::Symbol { name })
    }

    /// The handle of the symbol called `name`, if the heap holds one.
    pub open spec fn symbol(self, name: Seq<char>) -> Option<GcRef> {
        if exists|i: int| self.symbol_at(i, name) {
            Some(self.handle(choose|i: int| self.symbol_at(i, name)))
        } else {
            None
        }
    }

    // ---- Well-formedness ----

    /// Every entry of the free list names a vacant slot, and none twice.
    pub open spec fn free_ok(self) -> bool {
        &&& forall|k: int|
            0 <= k < self.free.len() ==> (#[trigger] self.free[k]) < self.slots.len()
                && !self.slots[self.free[k] as int].occupied()
        &&& forall|j: int, k: int|
            0 <= j < k < self.free.len() ==> self.free[j] != self.free[k]
    }

    /// Every entry of the worklist is a live, marked object.
    pub open spec fn grey_ok(self) -> bool {
        forall|k: int| 0 <= k < self.grey.len() ==> self.marked(#[trigger] self.grey[k])
    }

    /// No name has two symbols.
    pub open spec fn symbols_ok(self) -> bool {
        forall|i: int, j: int, name: Seq<char>|
            #![trigger self.symbol_at(i, name), self.symbol_at(j, name)]
            self.symbol_at(i, name) && self.symbol_at(j, name) ==> i == j
    }

    /// What holds of the heap at all times.
    pub open spec fn wf(self) -> bool {
        &&& self.slots.len() <= usize::MAX
        &&& self.free_ok()
        &&& self.grey_ok()
        &&& self.symbols_ok()
    }

    /// Every marked object waits on the worklist: no trace is under way.
    pub open spec fn pending(self) -> bool {
        forall|r: GcRef| #[trigger] self.marked(r) ==> self.grey.contains(r)
    }

    // ---- Allocation ----

    /// The slot the next allocation takes: the last of the free list, or a new
    /// slot at the end of the arena.
    pub open spec fn next_index(self) -> int {
        if self.free.len() > 0 {
            self.free.last() as int
        } else {
            self.slots.len() as int
        }
    }

    /// The handle the next allocation returns.
    pub open spec fn next_handle(self) -> GcRef {
        GcRef {
            index: self.next_index() as usize,
            generation: if self.free.len() > 0 {
                self.slots[self.next_index()].generation
            } else {
                0
            },
        }
    }

    /// The heap after `value` has been allocated; its handle is
    /// `self.next_handle()`.
    pub open spec fn allocate(self, value: HeapValue) -> Heap {
        let cell = Some(Cell { marked: false, value });
        if self.free.len() > 0 {
            let i = self.free.last() as int;
            Heap {
                slots: self.slots.update(i, Slot { generation: self.slots[i].generation, cell }),
                free: self.free.drop_last(),
                ..self
            }
        } else {
            Heap { slots: self.slots.push(Slot { generation: 0, cell }), ..self }
        }
    }

    /// The handle that interning `name` returns: that of the symbol already
    /// there, or of the one allocated for it.
    pub open spec fn interned(self, name: Seq<char>) -> GcRef {
        match self.symbol(name) {
            Some(r) => r,
            None => self.next_handle(),
        }
    }

    /// The heap after `name` has been interned.
    pub open spec fn intern(self, name: Seq<char>) -> Heap {
        match self.symbol(name) {
            Some(_) => self,
            None => self.allocate(HeapValue::Symbol { name }),
        }
    }

    // ---- Marking ----

    /// Marks the object `r` refers to and puts it on the worklist, unless `r`
    /// refers to nothing or the object is marked already.
    pub open spec fn mark(self, r: GcRef) -> Heap {
        if self.live(r) && !self.marked(r) {
            Heap {
                slots: self.slots.update(r.index as int,
                    self.slots[r.index as int].with_mark(true)),
                grey: self.grey.push(r),
                ..self
            }
        } else {
            self
        }
    }

    /// Marks the object `v` refers to, where `v` is a handle.
    pub open spec fn mark_value(self, v: Object) -> Heap {
        match v.reference() {
            Some(r) => self.mark(r),
            None => self,
        }
    }

    /// Marks the values of `vs`, first to last.
    pub open spec fn mark_values(self, vs: Seq<Object>) -> Heap
        decreases vs.len(),
    {
        if vs.len() == 0 {
            self
        } else {
            self.mark_values(vs.drop_last()).mark_value(vs.last())
        }
    }

    /// Marks the values that the object `r` refers to holds.
    pub open spec fn trace_object(self, r: GcRef) -> Heap {
        if self.live(r) {
            self.mark_values(self.get(r).children())
        } else {
            self
        }
    }

    /// Marks the values that the object `v` refers to holds, where `v` is a
    /// handle.
    pub open spec fn trace_value(self, v: Object) -> Heap {
        match v.reference() {
            Some(r) => self.trace_object(r),
            None => self,
        }
    }

    /// The two heaps hold the same objects in the same slots; only marks may
    /// differ.
    pub open spec fn same_objects(self, other: Heap) -> bool {
        &&& self.slots.len() == other.slots.len()
        &&& forall|i: int|
            0 <= i < self.slots.len() ==> (#[trigger] self.slots[i]).with_mark(false)
                == other.slots[i].with_mark(false)
    }

    /// How `after` differs from `self` where it came about by marking the
    /// values of `vs`: the objects, the free list and the threshold are the
    /// same; the worklist has grown at its end; no mark was cleared; each new
    /// mark is on an object that a value of `vs` refers to, and that object is
    /// on the worklist; every object that a value of `vs` refers to is marked.
    pub open spec fn marked_into(self, after: Heap, vs: Seq<Object>) -> bool {
        &&& self.same_objects(after)
        &&& after.free == self.free
        &&& after.next_gc == self.next_gc
        &&& after.grey.len() >= self.grey.len()
        &&& forall|k: int| 0 <= k < self.grey.len() ==> #[trigger] after.grey[k] == self.grey[k]
        &&& forall|r: GcRef| #[trigger] self.marked(r) ==> after.marked(r)
        &&& forall|r: GcRef|
            #[trigger] after.marked(r) && !self.marked(r) ==> refers(vs, r)
                && after.grey.contains(r)
        &&& forall|k: int|
            0 <= k < vs.len() && (#[trigger] vs[k]).reference() is Some && self.live(
                vs[k].reference().unwrap(),
            ) ==> after.marked(vs[k].reference().unwrap())
        &&& unmarked(after.slots) + after.grey.len() == unmarked(self.slots) + self.grey.len()
    }

    // ---- Reachability ----

    /// Whether the object `a` refers to holds the handle `b`, and `b` refers to
    /// an object.
    pub open spec fn edge(self, a: GcRef, b: GcRef) -> bool {
        &&& self.live(a)
        &&& self.live(b)
        &&& refers(self.get(a).children(), b)
    }

    /// Whether `path` leads from a live handle of `roots` along edges.
    pub open spec fn is_path(self, roots: Set<GcRef>, path: Seq<GcRef>) -> bool {
        &&& path.len() > 0
        &&& roots.contains(path[0])
        &&& self.live(path[0])
        &&& forall|k: int| 0 <= k < path.len() - 1 ==> self.edge(#[trigger] path[k], path[k + 1])
    }

    /// Whether the object `r` refers to can be reached from a handle of
    /// `roots`.
    pub open spec fn reachable(self, roots: Set<GcRef>, r: GcRef) -> bool {
        exists|path: Seq<GcRef>| #[trigger] self.is_path(roots, path) && path.last() == r
    }

    /// The handles on the worklist.
    pub open spec fn grey_set(self) -> Set<GcRef> {
        Set::new(|r: GcRef| self.grey.contains(r))
    }

    /// What holds of the heap `now` while the trace that began at `self` is
    /// under way: the objects are those of `self`; the roots are marked; every
    /// marked object can be reached from the roots; and what a marked object
    /// off the worklist refers to is marked.
    pub open spec fn tracing(self, now: Heap) -> bool {
        &&& self.same_objects(now)
        &&& now.free == self.free
        &&& now.next_gc == self.next_gc
        &&& forall|k: int| 0 <= k < self.grey.len() ==> now.marked(#[trigger] self.grey[k])
        &&& forall|r: GcRef| #[trigger] now.marked(r) ==> self.reachable(self.grey_set(), r)
        &&& forall|a: GcRef, b: GcRef|
            now.marked(a) && !now.grey.contains(a) && #[trigger] self.edge(a, b) ==> now.marked(b)
    }

    /// The heap with the last entry taken off the worklist.
    pub open spec fn popped(self) -> Heap {
        Heap { grey: self.grey.drop_last(), ..self }
    }

    // ---- Collection ----

    /// The heap after the worklist has been drained: exactly the objects that
    /// can be reached from those on the worklist are marked.
    pub open spec fn traced(self) -> Heap {
        Heap {
            slots: Seq::new(
                self.slots.len(),
                |i: int| self.slots[i].with_mark(self.reachable(self.grey_set(), self.handle(i))),
            ),
            grey: Seq::empty(),
            ..self
        }
    }

    /// The heap after a sweep.
    pub open spec fn swept(self) -> Heap {
        Heap {
            slots: swept_slots(self.slots),
            free: self.free + recycled_below(self.slots, self.slots.len() as int),
            ..self
        }
    }

    /// The heap after a collection: traced, swept, and with the threshold set
    /// from the bytes that stayed.
    pub open spec fn collected(self) -> Heap {
        let h = self.traced().swept();
        Heap { next_gc: threshold_after(h.bytes()), ..h }
    }
}

/// Whether a value of `vs` is the handle `r`.
pub open spec fn refers(vs: Seq<Object>, r: GcRef) -> bool {
    exists|k: int| 0 <= k < vs.len() && (#[trigger] vs[k]).reference() == Some(r)
}

/// The sum over a sequence of slots changes, when one slot is replaced, by the
/// difference between the two.
pub proof fn lemma_live_bytes_update(slots: Seq<Slot>, i: int, s: Slot)
    requires
        0 <= i < slots.len(),
    ensures
        live_bytes(slots.update(i, s)) + slots[i].bytes() == live_bytes(slots) + s.bytes(),
    decreases slots.len(),
{
    let u = slots.update(i, s);
    if i == slots.len() - 1 {
        assert(u.drop_last() =~= slots.drop_last());
    } else {
        lemma_live_bytes_update(slots.drop_last(), i, s);
        assert(u.drop_last() =~= slots.drop_last().update(i, s));
    }
}

/// Appending a slot adds its bytes to the sum.
pub proof fn lemma_live_bytes_push(slots: Seq<Slot>, s: Slot)
    ensures
        live_bytes(slots.push(s)) == live_bytes(slots) + s.bytes(),
{
    assert(slots.push(s).drop_last() =~= slots);
}

/// Slots that differ in their marks only account for the same bytes.
pub proof fn lemma_live_bytes_marks(a: Seq<Slot>, b: Seq<Slot>)
    requires
        a.len() == b.len(),
        forall|i: int| 0 <= i < a.len() ==> (#[trigger] a[i]).with_mark(false)
            == b[i].with_mark(false),
    ensures
        live_bytes(a) == live_bytes(b),
    decreases a.len(),
{
    if a.len() > 0 {
        lemma_live_bytes_marks(a.drop_last(), b.drop_last());
    }
}

/// The count of unmarked objects changes, when one slot is replaced, by the
/// difference between the two.
pub proof fn lemma_unmarked_update(slots: Seq<Slot>, i: int, s: Slot)
    requires
        0 <= i < slots.len(),
    ensures
        unmarked(slots.update(i, s)) + (if slots[i].garbage() {
            1nat
        } else {
            0nat
        }) == unmarked(slots) + (if s.garbage() {
            1nat
        } else {
            0nat
        }),
    decreases slots.len(),
{
    let u = slots.update(i, s);
    if i == slots.len() - 1 {
        assert(u.drop_last() =~= slots.drop_last());
    } else {
        lemma_unmarked_update(slots.drop_last(), i, s);
        assert(u.drop_last() =~= slots.drop_last().update(i, s));
    }
}

impl Heap {
    /// Marking a sequence and one value more is marking the sequence, then the
    /// value.
    pub proof fn lemma_mark_values_push(self, vs: Seq<Object>, v: Object)
        ensures
            self.mark_values(vs.push(v)) == self.mark_values(vs).mark_value(v),
    {
        assert(vs.push(v).drop_last() =~= vs);
    }

    /// Marking a sequence up to and with its `k`-th value is marking it up to
    /// that value, then the value.
    pub proof fn lemma_mark_values_take(self, vs: Seq<Object>, k: int)
        requires
            0 <= k < vs.len(),
        ensures
            self.mark_values(vs.take(k + 1)) == self.mark_values(vs.take(k)).mark_value(vs[k]),
            vs.take(vs.len() as int) == vs,
    {
        assert(vs.take(k + 1).drop_last() =~= vs.take(k));
    }

    /// What marking one handle does.
    pub proof fn lemma_mark(self, r: GcRef)
        requires
            self.wf(),
        ensures
            self.mark(r).wf(),
            self.pending() ==> self.mark(r).pending(),
            self.marked_into(self.mark(r), seq![Object::Pair(r)]),
            self.mark(r).bytes() == self.bytes(),
    {
        let h = self.mark(r);
        let vs = seq![Object::Pair(r)];
        assert(vs[0].reference() == Some(r));
        if self.live(r) && !self.marked(r) {
            let i = r.index as int;
            lemma_unmarked_update(self.slots, i, self.slots[i].with_mark(true));
            lemma_live_bytes_marks(self.slots, h.slots);
            assert(h.grey[h.grey.len() - 1] == r);
            assert forall|a: int, b: int, name: Seq<char>|
                #![trigger h.symbol_at(a, name), h.symbol_at(b, name)]
                h.symbol_at(a, name) && h.symbol_at(b, name) implies a == b by {
                assert(self.symbol_at(a, name));
                assert(self.symbol_at(b, name));
            }
            if self.pending() {
                assert forall|t: GcRef| #[trigger] h.marked(t) implies h.grey.contains(t) by {
                    if t != r {
                        assert(self.marked(t));
                        let k = choose|k: int| 0 <= k < self.grey.len() && self.grey[k] == t;
                        assert(h.grey[k] == t);
                    }
                }
            }
        }
    }

    /// Marking is transitive in what it leaves behind: two markings in a row
    /// are one.
    pub proof fn lemma_marked_into_push(self, mid: Heap, after: Heap, vs: Seq<Object>, v: Object)
        requires
            self.marked_into(mid, vs),
            mid.marked_into(after, seq![v]),
        ensures
            self.marked_into(after, vs.push(v)),
    {
        let ws = vs.push(v);
        let one = seq![v];
        assert forall|r: GcRef| #[trigger] after.marked(r) && !self.marked(r) implies refers(ws, r)
            && after.grey.contains(r) by {
            if mid.marked(r) {
                let k = choose|k: int|
                    0 <= k < vs.len() && (#[trigger] vs[k]).reference() == Some(r);
                assert(ws[k].reference() == Some(r));
                let g = choose|g: int| 0 <= g < mid.grey.len() && mid.grey[g] == r;
                assert(after.grey[g] == r);
            } else {
                assert(ws[vs.len() as int].reference() == Some(r));
            }
        }
        assert forall|k: int|
            0 <= k < ws.len() && (#[trigger] ws[k]).reference() is Some && self.live(
                ws[k].reference().unwrap(),
            ) implies after.marked(ws[k].reference().unwrap()) by {
            if k >= vs.len() {
                assert(one[0] == v);
            }
        }
    }

    /// What marking a sequence of values does.
    pub proof fn lemma_mark_values(self, vs: Seq<Object>)
        requires
            self.wf(),
        ensures
            self.mark_values(vs).wf(),
            self.pending() ==> self.mark_values(vs).pending(),
            self.marked_into(self.mark_values(vs), vs),
            self.mark_values(vs).bytes() == self.bytes(),
        decreases vs.len(),
    {
        if vs.len() > 0 {
            let front = vs.drop_last();
            let v = vs.last();
            let mid = self.mark_values(front);
            let h = mid.mark_value(v);
            self.lemma_mark_values(front);
            assert(front.push(v) =~= vs);
            match v.reference() {
                Some(r) => {
                    mid.lemma_mark(r);
                    let single = seq![v];
                    assert(mid.marked_into(h, single)) by {
                        assert forall|t: GcRef| #[trigger]
                            h.marked(t) && !mid.marked(t) implies refers(single, t)
                            && h.grey.contains(t) by {
                            assert(single[0].reference() == Some(t));
                        }
                    }
                    self.lemma_marked_into_push(mid, h, front, v);
                },
                None => {},
            }
        }
    }

    /// A live root is reachable.
    pub proof fn lemma_reachable_root(self, roots: Set<GcRef>, r: GcRef)
        requires
            roots.contains(r),
            self.live(r),
        ensures
            self.reachable(roots, r),
    {
        let path = seq![r];
        assert(self.is_path(roots, path) && path.last() == r);
    }

    /// What a reachable object refers to is reachable.
    pub proof fn lemma_reachable_step(self, roots: Set<GcRef>, a: GcRef, b: GcRef)
        requires
            self.reachable(roots, a),
            self.edge(a, b),
        ensures
            self.reachable(roots, b),
    {
        let path = choose|path: Seq<GcRef>| #[trigger]
            self.is_path(roots, path) && path.last() == a;
        let longer = path.push(b);
        assert(self.is_path(roots, longer) && longer.last() == b);
    }

    /// A set that holds the live roots and, with an object, all it refers to,
    /// holds every handle on a path from the roots.
    pub proof fn lemma_path_closed(
        self,
        roots: Set<GcRef>,
        set: Set<GcRef>,
        path: Seq<GcRef>,
        k: int,
    )
        requires
            self.is_path(roots, path),
            0 <= k < path.len(),
            forall|r: GcRef| roots.contains(r) && self.live(r) ==> set.contains(r),
            forall|a: GcRef, b: GcRef| set.contains(a) && #[trigger] self.edge(a, b)
                ==> set.contains(b),
        ensures
            set.contains(path[k]),
            self.live(path[k]),
        decreases k,
    {
        if k > 0 {
            self.lemma_path_closed(roots, set, path, k - 1);
        }
    }

    /// A set that holds the live roots and, with an object, all it refers to,
    /// holds every reachable object.
    pub proof fn lemma_reachable_closed(self, roots: Set<GcRef>, set: Set<GcRef>, r: GcRef)
        requires
            self.reachable(roots, r),
            forall|r: GcRef| roots.contains(r) && self.live(r) ==> set.contains(r),
            forall|a: GcRef, b: GcRef| set.contains(a) && #[trigger] self.edge(a, b)
                ==> set.contains(b),
        ensures
            set.contains(r),
    {
        let path = choose|path: Seq<GcRef>| #[trigger]
            self.is_path(roots, path) && path.last() == r;
        self.lemma_path_closed(roots, set, path, path.len() - 1);
    }

    /// A reachable handle is live.
    pub proof fn lemma_reachable_live(self, roots: Set<GcRef>, r: GcRef)
        requires
            self.reachable(roots, r),
        ensures
            self.live(r),
    {
        let path = choose|path: Seq<GcRef>| #[trigger]
            self.is_path(roots, path) && path.last() == r;
        if path.len() > 1 {
            assert(self.edge(path[path.len() - 2], path[path.len() - 2 + 1]));
        }
    }
}

impl Heap {
    /// A trace begins in a state that meets its invariant.
    pub proof fn lemma_tracing_start(self)
        requires
            self.wf(),
            self.pending(),
        ensures
            self.tracing(self),
    {
        let roots = self.grey_set();
        assert forall|r: GcRef| #[trigger] self.marked(r) implies self.reachable(roots, r) by {
            self.lemma_reachable_root(roots, r);
        }
    }

    /// Taking the last entry off the worklist leaves the heap well formed.
    pub proof fn lemma_popped(self)
        requires
            self.wf(),
            self.grey.len() > 0,
        ensures
            self.popped().wf(),
            self.marked(self.grey.last()),
            self.popped().bytes() == self.bytes(),
            self.same_objects(self.popped()),
    {
        let h = self.popped();
        assert forall|a: int, b: int, name: Seq<char>|
            #![trigger h.symbol_at(a, name), h.symbol_at(b, name)]
            h.symbol_at(a, name) && h.symbol_at(b, name) implies a == b by {
            assert(self.symbol_at(a, name));
            assert(self.symbol_at(b, name));
        }
    }

    /// One round of the trace keeps its invariant and brings it nearer its end:
    /// an object more is marked, or the worklist is one shorter.
    pub proof fn lemma_tracing_step(self, now: Heap)
        requires
            self.wf(),
            now.wf(),
            self.tracing(now),
            now.grey.len() > 0,
        ensures
            self.tracing(now.popped().trace_object(now.grey.last())),
            now.popped().trace_object(now.grey.last()).wf(),
            now.popped().trace_object(now.grey.last()).bytes() == now.bytes(),
            now.same_objects(now.popped().trace_object(now.grey.last())),
            unmarked(now.popped().trace_object(now.grey.last()).slots) < unmarked(now.slots) || (
            unmarked(now.popped().trace_object(now.grey.last()).slots) == unmarked(now.slots)
                && now.popped().trace_object(now.grey.last()).grey.len() < now.grey.len()),
    {
        let roots = self.grey_set();
        let r = now.grey.last();
        let h1 = now.popped();
        let h2 = h1.trace_object(r);
        now.lemma_popped();
        let children = h1.get(r).children();
        h1.lemma_mark_values(children);
        assert forall|k: int| 0 <= k < self.grey.len() implies h2.marked(
            #[trigger] self.grey[k],
        ) by {
            assert(h1.marked(self.grey[k]));
        }
        assert forall|t: GcRef| #[trigger] h2.marked(t) implies self.reachable(roots, t) by {
            if !h1.marked(t) {
                self.lemma_reachable_step(roots, r, t);
            } else {
                assert(now.marked(t));
            }
        }
        assert forall|a: GcRef, b: GcRef|
            h2.marked(a) && !h2.grey.contains(a) && #[trigger] self.edge(a, b) implies h2.marked(
            b,
        ) by {
            if a != r && h1.marked(a) {
                if now.grey.contains(a) {
                    let k = choose|k: int| 0 <= k < now.grey.len() && now.grey[k] == a;
                    assert(h2.grey[k] == h1.grey[k]);
                    assert(false);
                }
                assert(h1.marked(b));
            }
        }
    }

    /// When the worklist is empty the trace has marked exactly the objects that
    /// can be reached from the roots.
    pub proof fn lemma_tracing_end(self, end: Heap)
        requires
            self.wf(),
            self.tracing(end),
            end.grey.len() == 0,
        ensures
            end == self.traced(),
    {
        let roots = self.grey_set();
        let set = Set::new(|r: GcRef| end.marked(r));
        assert forall|i: int| 0 <= i < self.slots.len() implies end.slots[i]
            == self.traced().slots[i] by {
            let r = self.handle(i);
            if self.reachable(roots, r) {
                self.lemma_reachable_closed(roots, set, r);
            }
            if end.slots[i].marked() {
                assert(end.marked(r));
            }
        }
        assert(end.slots =~= self.traced().slots);
        assert(end.grey =~= Seq::empty());
    }
}

/// A sweep frees bytes or leaves them; it never adds any.
pub proof fn lemma_swept_bytes(slots: Seq<Slot>)
    ensures
        live_bytes(swept_slots(slots)) <= live_bytes(slots),
    decreases slots.len(),
{
    if slots.len() > 0 {
        lemma_swept_bytes(slots.drop_last());
        assert(swept_slots(slots).drop_last() =~= swept_slots(slots.drop_last()));
    }
}

impl Heap {
    /// Marking two sequences in a row is marking the two as one.
    pub proof fn lemma_mark_values_concat(self, a: Seq<Object>, b: Seq<Object>)
        ensures
            self.mark_values(a + b) == self.mark_values(a).mark_values(b),
        decreases b.len(),
    {
        if b.len() > 0 {
            self.lemma_mark_values_concat(a, b.drop_last());
            assert((a + b).drop_last() =~= a + b.drop_last());
        }
    }

    /// What a collection leaves: a well-formed heap without marks and with an
    /// empty worklist, which holds no more bytes than before.
    pub proof fn lemma_collected(self)
        requires
            self.wf(),
            self.pending(),
        ensures
            self.collected().grey.len() == 0,
            self.collected().pending(),
            self.collected().bytes() <= self.bytes(),
            forall|r: GcRef| !self.collected().marked(r),
    {
        let t = self.traced();
        lemma_live_bytes_marks(self.slots, t.slots);
        lemma_swept_bytes(t.slots);
    }
}

impl Heap {
    /// What an allocation does: the new object is live under the handle
    /// foretold, every other handle refers to what it did, and the bytes grow
    /// by the size of the object.
    pub proof fn lemma_allocate(self, value: HeapValue)
        requires
            self.wf(),
            self.free.len() > 0 || self.slots.len() < usize::MAX,
            value matches HeapValue::Symbol { name } ==> self.symbol(name) is None,
        ensures
            self.allocate(value).wf(),
            self.pending() ==> self.allocate(value).pending(),
            !self.live(self.next_handle()),
            self.allocate(value).lookup(self.next_handle()) == Some(value),
            forall|r: GcRef| #[trigger] self.live(r) ==> self.allocate(value).lookup(r)
                == self.lookup(r),
            forall|r: GcRef|
                r != self.next_handle() && !self.live(r) ==> !(#[trigger] self.allocate(value).live(
                    r,
                )),
            forall|r: GcRef| self.allocate(value).marked(r) == #[trigger] self.marked(r),
            self.allocate(value).bytes() == self.bytes() + value.size(),
            self.allocate(value).grey == self.grey,
            self.allocate(value).next_gc == self.next_gc,
    {
        let h = self.allocate(value);
        let r = self.next_handle();
        let slot = h.slots[r.index as int];
        if self.free.len() > 0 {
            lemma_live_bytes_update(self.slots, r.index as int, slot);
        } else {
            lemma_live_bytes_push(self.slots, slot);
        }
        assert forall|i: int, j: int, name: Seq<char>|
            #![trigger h.symbol_at(i, name), h.symbol_at(j, name)]
            h.symbol_at(i, name) && h.symbol_at(j, name) implies i == j by {
            if i != r.index {
                assert(self.symbol_at(i, name));
            }
            if j != r.index {
                assert(self.symbol_at(j, name));
            }
        }
        if self.pending() {
            assert forall|t: GcRef| #[trigger] h.marked(t) implies h.grey.contains(t) by {
                assert(self.marked(t));
            }
        }
    }
}

} // verus!
