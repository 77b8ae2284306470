//! What holds of the heap across several operations.

use crate::heap::{
    lemma_live_bytes_push, lemma_live_bytes_update, recycled_below, refers, threshold_after, Heap,
    Slot, HEAP_GROW_FACTOR,
};
use crate::gc::GcRef;
use crate::objects::{HeapValue, Object};
use vstd::prelude::*;

verus! {

/// The handles among the values of `vs`.
pub open spec fn root_set(vs: Seq<Object>) -> Set<GcRef> {
    Set::new(|r: GcRef| refers(vs, r))
}

/// The heap after a collection that starts from the values of `vs`.
pub open spec fn collect_from(h: Heap, vs: Seq<Object>) -> Heap {
    h.mark_values(vs).collected()
}

/// The heap after `n` collections in a row that each start from the values of
/// `vs`.
pub open spec fn collect_times(h: Heap, vs: Seq<Object>, n: nat) -> Heap
    decreases n,
{
    if n == 0 {
        h
    } else {
        collect_from(collect_times(h, vs, (n - 1) as nat), vs)
    }
}

/// The heap after the objects of `values` have been allocated, first to last.
pub open spec fn allocate_all(h: Heap, values: Seq<HeapValue>) -> Heap
    decreases values.len(),
{
    if values.len() == 0 {
        h
    } else {
        allocate_all(h, values.drop_last()).allocate(values.last())
    }
}

/// The bytes that the objects of `values` account for.
pub open spec fn total_size(values: Seq<HeapValue>) -> nat
    decreases values.len(),
{
    if values.len() == 0 {
        0
    } else {
        total_size(values.drop_last()) + values.last().size()
    }
}

/// What a sweep hands to the free list: slots below `n` that held an unmarked
/// object, none twice.
proof fn lemma_recycled(slots: Seq<Slot>, n: int)
    requires
        0 <= n <= slots.len() <= usize::MAX,
    ensures
        forall|k: int|
            0 <= k < recycled_below(slots, n).len() ==> (#[trigger] recycled_below(slots, n)[k]) < n
                && slots[recycled_below(slots, n)[k] as int].recycled(),
        forall|j: int, k: int|
            0 <= j < k < recycled_below(slots, n).len() ==> recycled_below(slots, n)[j]
                < recycled_below(slots, n)[k],
        (forall|i: int| 0 <= i < n ==> !(#[trigger] slots[i]).garbage()) ==> recycled_below(
            slots,
            n,
        ).len() == 0,
    decreases n,
{
    if n > 0 {
        lemma_recycled(slots, n - 1);
        let before = recycled_below(slots, n - 1);
        assert(recycled_below(slots, n) == if slots[n - 1].recycled() {
            before.push((n - 1) as usize)
        } else {
            before
        });
    }
}

/// A collection leaves a well-formed heap in which exactly the objects live on
/// that could be reached from the worklist, each as it was.
pub proof fn lemma_collected_live(m: Heap)
    requires
        m.wf(),
        m.pending(),
    ensures
        m.collected().wf(),
        m.collected().pending(),
        m.collected().grey.len() == 0,
        forall|r: GcRef| !m.collected().marked(r),
        forall|i: int|
            0 <= i < m.collected().slots.len() ==> !(#[trigger] m.collected().slots[i]).marked(),
        m.collected().next_gc == threshold_after(m.collected().bytes()),
        forall|r: GcRef| #[trigger]
            m.collected().live(r) <==> m.live(r) && m.reachable(m.grey_set(), r),
        forall|r: GcRef| #[trigger] m.collected().live(r) ==> m.collected().get(r) == m.get(r),
{
    let t = m.traced();
    let c = m.collected();
    lemma_recycled(t.slots, t.slots.len() as int);
    assert forall|i: int, j: int, name: Seq<char>|
        #![trigger c.symbol_at(i, name), c.symbol_at(j, name)]
        c.symbol_at(i, name) && c.symbol_at(j, name) implies i == j by {
        assert(m.symbol_at(i, name));
        assert(m.symbol_at(j, name));
    }
}

/// Heaps with the same objects, and roots that agree on the live handles, reach
/// the same objects.
pub proof fn lemma_reachable_same(
    a: Heap,
    b: Heap,
    roots_a: Set<GcRef>,
    roots_b: Set<GcRef>,
    r: GcRef,
)
    requires
        forall|t: GcRef|
            #![trigger a.live(t)]
            #![trigger b.live(t)]
            a.live(t) ==> b.live(t) && b.get(t) == a.get(t),
        forall|t: GcRef|
            #![trigger roots_a.contains(t)]
            #![trigger roots_b.contains(t)]
            a.live(t) && roots_a.contains(t) ==> roots_b.contains(t),
        a.reachable(roots_a, r),
    ensures
        b.reachable(roots_b, r),
{
    let path = choose|path: Seq<GcRef>| #[trigger] a.is_path(roots_a, path) && path.last() == r;
    assert(b.is_path(roots_b, path) && path.last() == r);
}

/// After the values of `vs` have been marked in a heap without marks, the
/// worklist holds exactly the live handles among them.
pub proof fn lemma_marked_roots(h: Heap, vs: Seq<Object>)
    requires
        h.wf(),
        h.pending(),
        h.grey.len() == 0,
    ensures
        h.mark_values(vs).wf(),
        h.mark_values(vs).pending(),
        h.same_objects(h.mark_values(vs)),
        forall|r: GcRef|
            #![trigger h.live(r)]
            #![trigger h.mark_values(vs).live(r)]
            h.live(r) == h.mark_values(vs).live(r) && (h.live(r) ==> h.get(r) == h.mark_values(
                vs,
            ).get(r)),
        forall|r: GcRef| #[trigger]
            h.mark_values(vs).grey.contains(r) ==> h.live(r) && refers(vs, r),
        forall|r: GcRef| h.live(r) && #[trigger] refers(vs, r)
            ==> h.mark_values(vs).grey.contains(r),
        h.mark_values(vs).free == h.free,
        h.mark_values(vs).bytes() == h.bytes(),
{
    h.lemma_mark_values(vs);
}

/// A collection that starts from the values of `vs` keeps every object that can
/// be reached from them, as it was, and reclaims every other one.
pub proof fn law_collect_keeps_reachable(h: Heap, vs: Seq<Object>)
    requires
        h.wf(),
        h.pending(),
        h.grey.len() == 0,
    ensures
        collect_from(h, vs).wf(),
        forall|r: GcRef| #[trigger]
            collect_from(h, vs).live(r) <==> h.live(r) && h.reachable(root_set(vs), r),
        forall|r: GcRef| #[trigger]
            collect_from(h, vs).live(r) ==> collect_from(h, vs).get(r) == h.get(r),
{
    let m = h.mark_values(vs);
    let c = collect_from(h, vs);
    lemma_marked_roots(h, vs);
    lemma_collected_live(m);
    assert forall|r: GcRef| #[trigger] c.live(r) <==> h.live(r) && h.reachable(
        root_set(vs),
        r,
    ) by {
        if c.live(r) {
            lemma_reachable_same(m, h, m.grey_set(), root_set(vs), r);
        }
        if h.live(r) && h.reachable(root_set(vs), r) {
            lemma_reachable_same(h, m, root_set(vs), m.grey_set(), r);
        }
    }
}

/// Every handle on a path is reachable.
pub proof fn lemma_path_reachable(h: Heap, roots: Set<GcRef>, path: Seq<GcRef>, k: int)
    requires
        h.is_path(roots, path),
        0 <= k < path.len(),
    ensures
        h.reachable(roots, path[k]),
{
    let front = path.take(k + 1);
    assert(h.is_path(roots, front) && front.last() == path[k]);
}

/// A heap that holds, as they are, all the objects that another reaches from
/// `roots`, reaches them too.
pub proof fn lemma_reachable_kept(h: Heap, c: Heap, roots: Set<GcRef>, r: GcRef)
    requires
        forall|t: GcRef| #[trigger] h.reachable(roots, t) ==> c.live(t) && c.get(t) == h.get(t),
        h.reachable(roots, r),
    ensures
        c.reachable(roots, r),
{
    let path = choose|path: Seq<GcRef>| #[trigger] h.is_path(roots, path) && path.last() == r;
    assert forall|k: int| 0 <= k < path.len() - 1 implies c.edge(#[trigger] path[k], path[k
        + 1]) by {
        lemma_path_reachable(h, roots, path, k);
        lemma_path_reachable(h, roots, path, k + 1);
    }
    assert(c.is_path(roots, path) && path.last() == r);
}

/// A collection in a heap without marks, in which every object can be reached
/// from the values it starts from, changes neither the arena nor the free list.
pub proof fn lemma_collect_nothing(c: Heap, vs: Seq<Object>)
    requires
        c.wf(),
        c.pending(),
        c.grey.len() == 0,
        forall|r: GcRef| #[trigger] c.live(r) ==> c.reachable(root_set(vs), r),
    ensures
        collect_from(c, vs).slots == c.slots,
        collect_from(c, vs).free == c.free,
        collect_from(c, vs).grey == c.grey,
        collect_from(c, vs).next_gc == threshold_after(c.bytes()),
{
    let m = c.mark_values(vs);
    let t = m.traced();
    let d = collect_from(c, vs);
    lemma_marked_roots(c, vs);
    assert forall|i: int| 0 <= i < c.slots.len() implies !(#[trigger] c.slots[i]).marked() by {
        if c.slots[i].marked() {
            assert(c.marked(c.handle(i)));
            assert(false);
        }
    }
    assert forall|i: int| 0 <= i < c.slots.len() implies #[trigger] d.slots[i] == c.slots[i]
        && !t.slots[i].garbage() by {
        if c.slots[i].occupied() {
            let r = c.handle(i);
            assert(c.live(r));
            lemma_reachable_same(c, m, root_set(vs), m.grey_set(), r);
        }
    }
    assert forall|i: int| 0 <= i < t.slots.len() implies !(#[trigger] t.slots[i]).garbage() by {
        assert(d.slots[i] == c.slots[i]);
    }
    lemma_recycled(t.slots, t.slots.len() as int);
    assert(d.grey =~= c.grey);
}

/// A second collection that starts from the same values changes nothing.
pub proof fn law_collect_again(h: Heap, vs: Seq<Object>)
    requires
        h.wf(),
        h.pending(),
        h.grey.len() == 0,
    ensures
        collect_from(collect_from(h, vs), vs) == collect_from(h, vs),
{
    let c = collect_from(h, vs);
    lemma_marked_roots(h, vs);
    law_collect_keeps_reachable(h, vs);
    assert forall|t: GcRef| #[trigger] h.reachable(root_set(vs), t) implies c.live(t) && c.get(t)
        == h.get(t) by {
        h.lemma_reachable_live(root_set(vs), t);
    }
    assert forall|r: GcRef| #[trigger] c.live(r) implies c.reachable(root_set(vs), r) by {
        lemma_reachable_kept(h, c, root_set(vs), r);
    }
    lemma_collect_nothing(c, vs);
}

/// Of any number of collections in a row that start from the same values, all
/// after the first change nothing.
pub proof fn law_collect_any_times(h: Heap, vs: Seq<Object>, n: nat)
    requires
        h.wf(),
        h.pending(),
        h.grey.len() == 0,
        n >= 1,
    ensures
        collect_times(h, vs, n) == collect_from(h, vs),
    decreases n,
{
    if n > 1 {
        law_collect_any_times(h, vs, (n - 1) as nat);
        law_collect_again(h, vs);
    } else {
        assert(collect_times(h, vs, 0) == h);
    }
}

/// Where every object can be reached from the values a collection starts from,
/// the collection leaves the bytes allocated as they are.
pub proof fn law_collect_frees_nothing(h: Heap, vs: Seq<Object>)
    requires
        h.wf(),
        h.pending(),
        h.grey.len() == 0,
        forall|r: GcRef| #[trigger] h.live(r) ==> h.reachable(root_set(vs), r),
    ensures
        collect_from(h, vs).bytes() == h.bytes(),
{
    lemma_collect_nothing(h, vs);
}

/// After a collection the threshold is the bytes that stayed times the growth
/// factor, where that is a `usize`, and `usize::MAX` where it is not; so it is
/// never below the bytes that stayed, and no collection is due.
pub proof fn law_threshold(h: Heap)
    requires
        h.wf(),
        h.pending(),
        h.bytes() <= usize::MAX,
    ensures
        h.collected().next_gc == threshold_after(h.collected().bytes()),
        HEAP_GROW_FACTOR * h.collected().bytes() <= usize::MAX ==> h.collected().next_gc
            == HEAP_GROW_FACTOR * h.collected().bytes(),
        h.collected().next_gc >= h.collected().bytes(),
        !h.collected().should_gc(),
{
    h.lemma_collected();
}

/// The more bytes stay, the higher the threshold.
pub proof fn law_threshold_monotonic(a: nat, b: nat)
    requires
        a <= b,
    ensures
        threshold_after(a) <= threshold_after(b),
{
}

/// The symbol called `name` is the one in the slot that holds it.
pub proof fn lemma_symbol(h: Heap, i: int, name: Seq<char>)
    requires
        h.symbols_ok(),
        h.symbol_at(i, name),
    ensures
        h.symbol(name) == Some(h.handle(i)),
{
}

/// What interning does: the name has its symbol, under the handle returned;
/// every other name has the symbol it had, or none as before.
pub proof fn lemma_intern(h: Heap, name: Seq<char>)
    requires
        h.wf(),
        h.free.len() > 0 || h.slots.len() < usize::MAX,
    ensures
        h.intern(name).wf(),
        h.pending() ==> h.intern(name).pending(),
        h.intern(name).symbol(name) == Some(h.interned(name)),
        h.intern(name).lookup(h.interned(name)) == Some(HeapValue::Symbol { name }),
        forall|other: Seq<char>|
            other != name ==> #[trigger] h.intern(name).symbol(other) == h.symbol(other),
        forall|r: GcRef| #[trigger] h.live(r) ==> h.intern(name).lookup(r) == h.lookup(r),
        h.intern(name).bytes() == h.bytes() + if h.symbol(name) is None {
            (HeapValue::Symbol { name }).size()
        } else {
            0
        },
        h.intern(name).slots.len() <= h.slots.len() + 1,
{
    let g = h.intern(name);
    if h.symbol(name) is None {
        let value = HeapValue::Symbol { name };
        h.lemma_allocate(value);
        let r = h.next_handle();
        let at = r.index as int;
        lemma_symbol(g, at, name);
        assert forall|other: Seq<char>| other != name implies #[trigger] g.symbol(other)
            == h.symbol(other) by {
            if exists|i: int| h.symbol_at(i, other) {
                let i = choose|i: int| h.symbol_at(i, other);
                lemma_symbol(g, i, other);
            } else {
                if exists|j: int| g.symbol_at(j, other) {
                    let j = choose|j: int| g.symbol_at(j, other);
                    assert(h.symbol_at(j, other));
                }
            }
        }
    }
}

/// An allocation of an object that is no symbol leaves every name with the
/// symbol it had, or with none as before.
pub proof fn lemma_allocate_symbols(h: Heap, value: HeapValue, name: Seq<char>)
    requires
        h.wf(),
        h.free.len() > 0 || h.slots.len() < usize::MAX,
        !(value is Symbol),
    ensures
        h.allocate(value).symbol(name) == h.symbol(name),
{
    let g = h.allocate(value);
    h.lemma_allocate(value);
    if exists|i: int| h.symbol_at(i, name) {
        let i = choose|i: int| h.symbol_at(i, name);
        assert(g.lookup(h.handle(i)) == h.lookup(h.handle(i)));
        lemma_symbol(g, i, name);
    } else if exists|j: int| g.symbol_at(j, name) {
        let j = choose|j: int| g.symbol_at(j, name);
        assert(h.symbol_at(j, name));
    }
}

/// One step by which a store grows: a name is interned, or an object is
/// allocated.
pub enum Growth {
    Intern(Seq<char>),
    Allocate(HeapValue),
}

/// The heap after one step of growth.
pub open spec fn grow(h: Heap, step: Growth) -> Heap {
    match step {
        Growth::Intern(name) => h.intern(name),
        Growth::Allocate(value) => h.allocate(value),
    }
}

/// The heap after the steps of `steps`, first to last.
pub open spec fn grow_all(h: Heap, steps: Seq<Growth>) -> Heap
    decreases steps.len(),
{
    if steps.len() == 0 {
        h
    } else {
        grow(grow_all(h, steps.drop_last()), steps.last())
    }
}

/// Whether no step of `steps` allocates a symbol: symbols come into the store
/// by interning only.
pub open spec fn interns_symbols(steps: Seq<Growth>) -> bool {
    forall|k: int|
        0 <= k < steps.len() ==> ((#[trigger] steps[k]) matches Growth::Allocate(value) ==> !(
        value is Symbol))
}

/// A symbol keeps its handle and its name through any number of interns and
/// allocations: as long as no collection comes between, the name is
/// interned to the same handle again.
pub proof fn law_intern_lasting(h: Heap, name: Seq<char>, steps: Seq<Growth>)
    requires
        h.wf(),
        h.symbol(name) is Some,
        interns_symbols(steps),
        h.slots.len() + steps.len() <= usize::MAX,
    ensures
        grow_all(h, steps).wf(),
        grow_all(h, steps).slots.len() <= h.slots.len() + steps.len(),
        grow_all(h, steps).symbol(name) == h.symbol(name),
        grow_all(h, steps).interned(name) == h.interned(name),
        grow_all(h, steps).intern(name) == grow_all(h, steps),
        grow_all(h, steps).lookup(h.interned(name)) == Some(HeapValue::Symbol { name }),
    decreases steps.len(),
{
    if steps.len() > 0 {
        let front = steps.drop_last();
        let g = grow_all(h, front);
        assert forall|k: int| 0 <= k < front.len() implies (
        (#[trigger] front[k]) matches Growth::Allocate(value) ==> !(value is Symbol)) by {
            assert(front[k] == steps[k]);
        }
        law_intern_lasting(h, name, front);
        match steps.last() {
            Growth::Intern(other) => {
                lemma_intern(g, other);
            },
            Growth::Allocate(value) => {
                assert(steps[steps.len() - 1] == steps.last());
                g.lemma_allocate(value);
                lemma_allocate_symbols(g, value, name);
            },
        }
    } else {
        let i = choose|i: int| h.symbol_at(i, name);
        assert(h.symbol_at(i, name));
    }
}

/// Two names get the same handle if and only if they are the same name,
/// however many interns and allocations come between the two.
pub proof fn law_intern_injective(h: Heap, a: Seq<char>, b: Seq<char>, steps: Seq<Growth>)
    requires
        h.wf(),
        interns_symbols(steps),
        h.slots.len() + steps.len() + 2 <= usize::MAX,
    ensures
        grow_all(h.intern(a), steps).interned(b) == h.interned(a) <==> a == b,
{
    let first = h.intern(a);
    lemma_intern(h, a);
    law_intern_lasting(first, a, steps);
    let g = grow_all(first, steps);
    lemma_intern(g, b);
    if a != b {
        let last = g.intern(b);
        assert(g.live(h.interned(a)));
        assert(last.lookup(h.interned(a)) == Some(HeapValue::Symbol { name: a }));
        assert(last.lookup(g.interned(b)) == Some(HeapValue::Symbol { name: b }));
    }
}

/// The bytes that the steps of `steps` add to the heap `h`: of every
/// allocation the size of the object, of every interning the size of a symbol
/// where the name had none yet.
pub open spec fn grown_size(h: Heap, steps: Seq<Growth>) -> nat
    decreases steps.len(),
{
    if steps.len() == 0 {
        0
    } else {
        grown_size(h, steps.drop_last()) + match steps.last() {
            Growth::Intern(name) => if grow_all(h, steps.drop_last()).symbol(name) is None {
                (HeapValue::Symbol { name }).size()
            } else {
                0
            },
            Growth::Allocate(value) => value.size(),
        }
    }
}

/// While no collection comes between, the bytes allocated grow by the sizes of
/// the objects that interning and allocation bring into the store.
pub proof fn law_growth_accounting(h: Heap, steps: Seq<Growth>)
    requires
        h.free_ok(),
    ensures
        grow_all(h, steps).free_ok(),
        grow_all(h, steps).bytes() == h.bytes() + grown_size(h, steps),
    decreases steps.len(),
{
    if steps.len() > 0 {
        let g = grow_all(h, steps.drop_last());
        law_growth_accounting(h, steps.drop_last());
        match steps.last() {
            Growth::Intern(name) => {
                if g.symbol(name) is None {
                    lemma_allocate_bytes(g, HeapValue::Symbol { name });
                }
            },
            Growth::Allocate(value) => {
                lemma_allocate_bytes(g, value);
            },
        }
    }
}

/// Two names whose symbols are the same are the same name.
pub proof fn law_symbol_names(h: Heap, a: Seq<char>, b: Seq<char>)
    requires
        h.wf(),
        h.symbol(a) is Some,
        h.symbol(a) == h.symbol(b),
    ensures
        a == b,
{
}

/// A name that is interned a second time gets the handle it got the first time,
/// and the heap stays as it is.
pub proof fn law_intern_twice(h: Heap, name: Seq<char>)
    requires
        h.wf(),
        h.free.len() > 0 || h.slots.len() < usize::MAX,
    ensures
        h.intern(name).interned(name) == h.interned(name),
        h.intern(name).intern(name) == h.intern(name),
{
    lemma_intern(h, name);
}

/// Two names that differ get handles that differ.
pub proof fn law_intern_distinct(h: Heap, a: Seq<char>, b: Seq<char>)
    requires
        h.wf(),
        h.slots.len() + 1 < usize::MAX,
        a != b,
    ensures
        h.intern(a).interned(b) != h.interned(a),
{
    lemma_intern(h, a);
}

/// A name keeps its handle while other names are interned.
pub proof fn law_intern_stable(h: Heap, a: Seq<char>, b: Seq<char>)
    requires
        h.wf(),
        h.slots.len() + 1 < usize::MAX,
    ensures
        h.intern(a).intern(b).interned(a) == h.interned(a),
{
    let g = h.intern(a);
    lemma_intern(h, a);
    lemma_intern(g, b);
}

/// A symbol that a collection can reach keeps its handle through the
/// collection.
pub proof fn law_intern_survives(h: Heap, vs: Seq<Object>, name: Seq<char>)
    requires
        h.wf(),
        h.pending(),
        h.grey.len() == 0,
        h.symbol(name) is Some,
        h.reachable(root_set(vs), h.symbol(name).unwrap()),
    ensures
        collect_from(h, vs).interned(name) == h.interned(name),
{
    let c = collect_from(h, vs);
    let i = choose|i: int| h.symbol_at(i, name);
    let r = h.handle(i);
    law_collect_keeps_reachable(h, vs);
    assert(c.live(r));
    lemma_symbol(c, i, name);
}

/// Taking one object out of a sequence takes its size off the total.
pub proof fn lemma_total_size_remove(values: Seq<HeapValue>, i: int)
    requires
        0 <= i < values.len(),
    ensures
        total_size(values) == total_size(values.remove(i)) + values[i].size(),
    decreases values.len(),
{
    if i != values.len() - 1 {
        lemma_total_size_remove(values.drop_last(), i);
        assert(values.remove(i).drop_last() =~= values.drop_last().remove(i));
    }
}

/// An allocation into a heap whose free list is sound leaves the free list
/// sound, and adds the size of the object to the bytes.
pub proof fn lemma_allocate_bytes(h: Heap, value: HeapValue)
    requires
        h.free_ok(),
    ensures
        h.allocate(value).free_ok(),
        h.allocate(value).bytes() == h.bytes() + value.size(),
{
    let g = h.allocate(value);
    if h.free.len() > 0 {
        let i = h.free.last() as int;
        lemma_live_bytes_update(h.slots, i, g.slots[i]);
    } else {
        lemma_live_bytes_push(h.slots, g.slots[h.slots.len() as int]);
    }
}

/// While no collection comes between, the bytes allocated grow by the sizes of
/// the objects allocated.
pub proof fn law_allocation_accounting(h: Heap, values: Seq<HeapValue>)
    requires
        h.free_ok(),
    ensures
        allocate_all(h, values).free_ok(),
        allocate_all(h, values).bytes() == h.bytes() + total_size(values),
    decreases values.len(),
{
    if values.len() > 0 {
        let front = values.drop_last();
        law_allocation_accounting(h, front);
        lemma_allocate_bytes(allocate_all(h, front), values.last());
    }
}

/// The total of the sizes is the same for the same objects in another order.
pub proof fn lemma_total_size_order(a: Seq<HeapValue>, b: Seq<HeapValue>)
    requires
        a.to_multiset() == b.to_multiset(),
    ensures
        total_size(a) == total_size(b),
    decreases a.len(),
{
    vstd::seq_lib::to_multiset_len(a);
    vstd::seq_lib::to_multiset_len(b);
    if a.len() > 0 {
        let last = a.last();
        vstd::seq_lib::to_multiset_contains(a, last);
        vstd::seq_lib::to_multiset_contains(b, last);
        let i = choose|i: int| 0 <= i < b.len() && b[i] == last;
        vstd::seq_lib::to_multiset_remove(a, a.len() - 1);
        vstd::seq_lib::to_multiset_remove(b, i);
        lemma_total_size_order(a.drop_last(), b.remove(i));
        lemma_total_size_remove(b, i);
    }
}

/// The bytes allocated grow by the same amount in whatever order the objects
/// are allocated.
pub proof fn law_allocation_order(h: Heap, a: Seq<HeapValue>, b: Seq<HeapValue>)
    requires
        h.free_ok(),
        a.to_multiset() == b.to_multiset(),
    ensures
        allocate_all(h, a).bytes() == allocate_all(h, b).bytes(),
{
    law_allocation_accounting(h, a);
    law_allocation_accounting(h, b);
    lemma_total_size_order(a, b);
}

} // verus!
