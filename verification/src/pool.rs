//! The fixed-capacity pool of presentation slots: live objects are written
//! into slots positionally, and every slot past the live count is hidden.

use vstd::prelude::*;
use crate::fixed::Vec2Fixed;

verus! {

/// One recyclable presentation handle: whether it is shown this tick and
/// where.
#[derive(Clone, Copy, PartialEq, Eq, Structural, Debug)]
pub struct PoolSlot {
    pub visible: bool,
    pub pos: Vec2Fixed,
}

/// How many slots of the sequence are marked visible.
pub open spec fn visible_count(s: Seq<PoolSlot>) -> nat
    decreases s.len(),
{
    if s.len() == 0 {
        0
    } else {
        visible_count(s.drop_last()) + if s.last().visible {
            1nat
        } else {
            0nat
        }
    }
}

/// A fixed-capacity pool of presentation slots.
pub struct VisualSlotPool {
    pub slots: Vec<PoolSlot>,
}

impl VisualSlotPool {
    pub open spec fn capacity(self) -> nat {
        self.slots@.len()
    }

    /// A pool of `capacity` slots, all hidden.
    pub fn new(capacity: usize) -> (p: VisualSlotPool)
        ensures
            p.capacity() == capacity,
            visible_count(p.slots@) == 0,
            forall|i: int| 0 <= i < capacity ==> !(#[trigger] p.slots@[i]).visible,
    {
        let mut slots: Vec<PoolSlot> = Vec::new();
        let mut i: usize = 0;
        while i < capacity
            invariant
                0 <= i <= capacity,
                slots@.len() == i,
                visible_count(slots@) == 0,
                forall|j: int| 0 <= j < i ==> !(#[trigger] slots@[j]).visible,
            decreases capacity - i,
        {
            proof {
                let pushed = slots@.push(PoolSlot { visible: false, pos: Vec2Fixed { x: 0, y: 0 } });
                assert(pushed.drop_last() =~= slots@);
            }
            slots.push(PoolSlot { visible: false, pos: Vec2Fixed { x: 0, y: 0 } });
            i = i + 1;
        }
        VisualSlotPool { slots }
    }

    /// Walks slots and live objects in lockstep: slot `i` shows `live[i]` for
    /// `i < min(live, capacity)`, every further slot is hidden, and any live
    /// object beyond the capacity is silently not rendered. The number of
    /// visible slots afterwards is exactly `min(live, capacity)`.
    pub fn assign(&mut self, live: &Vec<Vec2Fixed>)
        ensures
            final(self).capacity() == old(self).capacity(),
            forall|i: int|
                0 <= i < old(self).capacity() && i < live@.len() ==> final(self).slots@[i] == (
                PoolSlot { visible: true, pos: live@[i] }),
            forall|i: int|
                live@.len() <= i < old(self).capacity() ==> (#[trigger] final(self).slots@[i])
                    == (PoolSlot { visible: false, pos: old(self).slots@[i].pos }),
            visible_count(final(self).slots@) == if live@.len() < old(self).capacity() {
                live@.len()
            } else {
                old(self).capacity()
            },
    {
        let cap = self.slots.len();
        let mut i: usize = 0;
        while i < cap
            invariant
                0 <= i <= cap,
                self.slots@.len() == cap,
                cap == old(self).capacity(),
                forall|j: int|
                    0 <= j < i && j < live@.len() ==> self.slots@[j] == (PoolSlot {
                        visible: true,
                        pos: live@[j],
                    }),
                forall|j: int|
                    live@.len() <= j < i ==> (#[trigger] self.slots@[j]) == (PoolSlot {
                        visible: false,
                        pos: old(self).slots@[j].pos,
                    }),
                forall|j: int| i <= j < cap ==> self.slots@[j] == old(self).slots@[j],
            decreases cap - i,
        {
            if i < live.len() {
                self.slots[i] = PoolSlot { visible: true, pos: live[i] };
            } else {
                let p = self.slots[i].pos;
                self.slots[i] = PoolSlot { visible: false, pos: p };
            }
            i = i + 1;
        }
        proof {
            lemma_visible_count_split(self.slots@, live@.len() as int);
        }
    }
}

/// If the first `m` slots are visible and the rest hidden, exactly `min(m,
/// len)` slots are visible.
proof fn lemma_visible_count_split(s: Seq<PoolSlot>, m: int)
    requires
        0 <= m,
        forall|i: int| 0 <= i < s.len() && i < m ==> (#[trigger] s[i]).visible,
        forall|i: int| m <= i < s.len() ==> !(#[trigger] s[i]).visible,
    ensures
        visible_count(s) == if m < s.len() {
            m
        } else {
            s.len() as int
        },
    decreases s.len(),
{
    if s.len() == 0 {
    } else {
        assert forall|i: int|
            0 <= i < s.drop_last().len() && i < m implies (#[trigger] s.drop_last()[i]).visible by {
            assert(s.drop_last()[i] == s[i]);
        }
        assert forall|i: int|
            m <= i < s.drop_last().len() implies !(#[trigger] s.drop_last()[i]).visible by {
            assert(s.drop_last()[i] == s[i]);
        }
        lemma_visible_count_split(s.drop_last(), m);
    }
}

} // verus!
