//! The bounded window of live slots, evicted in first-in first-out order.
use crate::external::{
    queue_add, queue_capacity, queue_contents, queue_new, slot_set_contains, slot_set_contents,
    slot_set_insert, slot_set_keys, slot_set_len, slot_set_new, slot_set_remove, RapidState,
};
use vstd::prelude::*;

verus! {

/// The window as a sequence of live slots, oldest first, after `slot` is
/// admitted to a window of capacity `cap` that held `order`.
pub open spec fn admit_order(order: Seq<u64>, cap: nat, slot: u64) -> Seq<u64> {
    if order.contains(slot) {
        order
    } else if order.len() < cap {
        order.push(slot)
    } else {
        order.push(slot).drop_first()
    }
}

/// The slot that admitting `slot` pushes out of the window, if any.
pub open spec fn evicted_by(order: Seq<u64>, cap: nat, slot: u64) -> Option<u64> {
    if !order.contains(slot) && order.len() >= cap && order.len() > 0 {
        Some(order[0])
    } else {
        None
    }
}

/// The window after the slots of `slots` are admitted one after another.
pub open spec fn admit_all(order: Seq<u64>, cap: nat, slots: Seq<u64>) -> Seq<u64>
    decreases slots.len(),
{
    if slots.len() == 0 {
        order
    } else {
        admit_order(admit_all(order, cap, slots.drop_last()), cap, slots.last())
    }
}

/// The capacity given to the constructor was zero.
#[derive(Debug, Clone, Copy, PartialEq, Eq)]
pub struct InvalidCapacity;

/// A bounded set of recent slots with first-in first-out eviction.
#[derive(Debug)]
pub struct SlotCache {
    slot_queue: queues::CircularBuffer<u64>,
    slot_set: dashmap::DashSet<u64, RapidState>,
    last_seen_slot: Option<u64>,
}

impl SlotCache {
    /// The live slots, oldest first.
    pub closed spec fn order(&self) -> Seq<u64> {
        queue_contents(self.slot_queue)
    }

    /// The most slots the window holds.
    pub closed spec fn capacity(&self) -> nat {
        queue_capacity(self.slot_queue)
    }

    /// The set of live slots.
    pub open spec fn live(&self) -> Set<u64> {
        self.order().to_set()
    }

    pub closed spec fn wf(&self) -> bool {
        &&& self.capacity() > 0
        &&& self.order().len() <= self.capacity()
        &&& self.order().no_duplicates()
        &&& slot_set_contents(self.slot_set) == self.order().to_set()
        &&& (self.last_seen_slot matches Some(s) ==> self.order().contains(s))
    }

    /// Creates an empty window holding at most `slot_cache_length` slots.
    pub fn new(slot_cache_length: usize) -> (r: Result<SlotCache, InvalidCapacity>)
        ensures
            slot_cache_length == 0 <==> r is Err,
            r matches Ok(c) ==> {
                &&& c.wf()
                &&& c.order() == Seq::<u64>::empty()
                &&& c.capacity() == slot_cache_length as nat
            },
    {
        if slot_cache_length == 0 {
            return Err(InvalidCapacity);
        }
        let c = SlotCache {
            slot_queue: queue_new(slot_cache_length),
            slot_set: slot_set_new(),
            last_seen_slot: None,
        };
        assert(c.order().to_set() =~= Set::<u64>::empty());
        Ok(c)
    }

    /// Admits `slot`; returns the oldest slot when the window was full and
    /// `slot` was not live. A slot already live leaves the window unchanged.
    pub fn push_pop(&mut self, slot: u64) -> (r: Option<u64>)
        requires
            old(self).wf(),
        ensures
            final(self).wf(),
            final(self).capacity() == old(self).capacity(),
            final(self).order() == admit_order(old(self).order(), old(self).capacity(), slot),
            r == evicted_by(old(self).order(), old(self).capacity(), slot),
            old(self).live().contains(slot) ==> r is None && final(self).order() == old(self).order(),
            final(self).live() == match r {
                Some(e) => old(self).live().remove(e).insert(slot),
                None => old(self).live().insert(slot),
            },
    {
        if let Some(last) = self.last_seen_slot {
            if last == slot {
                assert(self.live() =~= self.live().insert(slot));
                return None;
            }
        }
        if slot_set_contains(&self.slot_set, slot) {
            self.last_seen_slot = Some(slot);
            assert(self.live() =~= self.live().insert(slot));
            return None;
        }
        let ghost old_order = self.order();
        match queue_add(&mut self.slot_queue, slot) {
            Ok(maybe_oldest_slot) => {
                if let Some(oldest_slot) = maybe_oldest_slot {
                    slot_set_remove(&mut self.slot_set, oldest_slot);
                }
                slot_set_insert(&mut self.slot_set, slot);
                self.last_seen_slot = Some(slot);
                proof {
                    let new_order = self.order();
                    assert(!old_order.contains(slot));
                    if old_order.len() < self.capacity() {
                        assert(new_order.to_set() =~= old_order.to_set().insert(slot)) by {
                            assert forall|x: u64| new_order.contains(x) <==> (old_order.contains(x) || x == slot) by {
                                if new_order.contains(x) {
                                    let i = choose|i: int| 0 <= i < new_order.len() && new_order[i] == x;
                                    if i < old_order.len() {
                                        assert(old_order[i] == x);
                                    }
                                }
                                if old_order.contains(x) {
                                    let i = choose|i: int| 0 <= i < old_order.len() && old_order[i] == x;
                                    assert(new_order[i] == x);
                                }
                                if x == slot {
                                    assert(new_order[old_order.len() as int] == x);
                                }
                            }
                        }
                    } else {
                        let o = old_order[0];
                        assert(new_order.to_set() =~= old_order.to_set().remove(o).insert(slot)) by {
                            assert forall|x: u64| new_order.contains(x) <==> ((old_order.contains(x) && x != o) || x == slot) by {
                                if new_order.contains(x) {
                                    let i = choose|i: int| 0 <= i < new_order.len() && new_order[i] == x;
                                    if i + 1 < old_order.len() {
                                        assert(old_order[i + 1] == x);
                                        assert(x != o);
                                    }
                                }
                                if old_order.contains(x) && x != o {
                                    let i = choose|i: int| 0 <= i < old_order.len() && old_order[i] == x;
                                    assert(i != 0);
                                    assert(new_order[i - 1] == x);
                                }
                                if x == slot {
                                    assert(new_order[new_order.len() - 1] == x);
                                }
                            }
                        }
                    }
                    assert(new_order.contains(slot)) by {
                        assert(new_order[new_order.len() - 1] == slot);
                    }
                }
                assert(self.live() =~= slot_set_contents(self.slot_set));
                maybe_oldest_slot
            },
            Err(_) => None,
        }
    }

    /// Appends every live slot to `vec`, each once, in no particular order.
    pub fn copy_slots(&self, vec: &mut Vec<u64>)
        requires
            self.wf(),
        ensures
            final(vec)@.len() == old(vec)@.len() + self.order().len(),
            final(vec)@.subrange(0, old(vec)@.len() as int) == old(vec)@,
            final(vec)@.skip(old(vec)@.len() as int).no_duplicates(),
            final(vec)@.skip(old(vec)@.len() as int).to_set() == self.live(),
    {
        let keys = slot_set_keys(&self.slot_set);
        proof {
            keys@.unique_seq_to_set();
            self.order().unique_seq_to_set();
        }
        let ghost start = vec@.len();
        let mut i: usize = 0;
        while i < keys.len()
            invariant
                0 <= i <= keys@.len(),
                vec@.len() == start + i,
                vec@.subrange(0, start as int) == old(vec)@,
                start == old(vec)@.len(),
                vec@.skip(start as int) == keys@.take(i as int),
            decreases keys@.len() - i,
        {
            vec.push(keys[i]);
            i = i + 1;
            proof {
                assert(vec@.subrange(0, start as int) =~= old(vec)@);
                assert(vec@.skip(start as int) =~= keys@.take(i as int));
            }
        }
        proof {
            assert(keys@.take(i as int) =~= keys@);
        }
    }

    /// The number of live slots.
    pub fn len(&self) -> (r: usize)
        requires
            self.wf(),
        ensures
            r as nat == self.order().len(),
            r <= self.capacity(),
    {
        proof {
            self.order().unique_seq_to_set();
        }
        slot_set_len(&self.slot_set)
    }

    /// Whether no slot is live.
    pub fn is_empty(&self) -> (r: bool)
        requires
            self.wf(),
        ensures
            r == (self.order().len() == 0),
    {
        self.len() == 0
    }
}

/// The slots among `slots` that were admitted, in order: those not live
/// when they arrived at a window of capacity `cap` that started empty.
pub open spec fn admissions(cap: nat, slots: Seq<u64>) -> Seq<u64>
    decreases slots.len(),
{
    if slots.len() == 0 {
        Seq::empty()
    } else {
        let prev = admissions(cap, slots.drop_last());
        if admit_all(Seq::empty(), cap, slots.drop_last()).contains(slots.last()) {
            prev
        } else {
            prev.push(slots.last())
        }
    }
}

/// Admitting slots (repeats allowed) into an empty window leaves live
/// exactly the last `cap` slots that were admitted (all of them while there
/// are no more than `cap`), in the order they were admitted.
pub proof fn lemma_fifo_eviction(cap: nat, slots: Seq<u64>)
    requires
        cap > 0,
    ensures
        ({
            let a = admissions(cap, slots);
            admit_all(Seq::empty(), cap, slots) == a.subrange(
                if a.len() > cap { a.len() - cap } else { 0 },
                a.len() as int,
            )
        }),
    decreases slots.len(),
{
    if slots.len() > 0 {
        let p = slots.drop_last();
        lemma_fifo_eviction(cap, p);
        let ap = admissions(cap, p);
        let n = ap.len() as int;
        let lo = if n > cap { n - cap } else { 0 };
        let prev = ap.subrange(lo, n);
        let s = slots.last();
        if !prev.contains(s) {
            let a = ap.push(s);
            if prev.len() < cap {
                assert(prev.push(s) =~= a.subrange(lo, n + 1));
            } else {
                assert(prev.push(s).drop_first() =~= a.subrange(n + 1 - cap, n + 1));
            }
        }
    } else {
        assert(Seq::<u64>::empty().subrange(0, 0) =~= Seq::<u64>::empty());
    }
}

impl SlotCache {
    /// What well-formedness gives a caller: a positive capacity, at most
    /// that many live slots, none repeated.
    pub proof fn lemma_wf_bounds(&self)
        requires
            self.wf(),
        ensures
            self.capacity() > 0,
            self.order().len() <= self.capacity(),
            self.order().no_duplicates(),
    {
    }
}

} // verus!
