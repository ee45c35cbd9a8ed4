//! A bounded, tick-keyed window of confirmed past positions for one remote
//! player: sorted by tick, overwriting on a repeated tick, and evicting the
//! oldest entries once the window is full.

use vstd::prelude::*;
use crate::fixed::Vec2Fixed;

verus! {

/// Entries are strictly ordered by tick.
pub open spec fn entries_sorted(s: Seq<(u64, Vec2Fixed)>) -> bool {
    forall|i: int, j: int| 0 <= i < j < s.len() ==> (#[trigger] s[i]).0 < (#[trigger] s[j]).0
}

pub open spec fn entries_in_range(s: Seq<(u64, Vec2Fixed)>) -> bool {
    forall|i: int| 0 <= i < s.len() ==> (#[trigger] s[i]).1.in_range()
}

/// The recorded position for `tick`, if one is held.
pub open spec fn past_lookup(s: Seq<(u64, Vec2Fixed)>, tick: u64) -> Option<Vec2Fixed>
    decreases s.len(),
{
    if s.len() == 0 {
        None
    } else if s[0].0 == tick {
        Some(s[0].1)
    } else {
        past_lookup(s.drop_first(), tick)
    }
}

/// Insertion into the sorted sequence: overwrite an entry with the same
/// tick, else place the new entry at its ordered position.
pub open spec fn insert_sorted(s: Seq<(u64, Vec2Fixed)>, tick: u64, pos: Vec2Fixed) -> Seq<
    (u64, Vec2Fixed),
>
    decreases s.len(),
{
    if s.len() == 0 {
        seq![(tick, pos)]
    } else if s.last().0 < tick {
        s.push((tick, pos))
    } else if s.last().0 == tick {
        s.update(s.len() - 1, (tick, pos))
    } else {
        insert_sorted(s.drop_last(), tick, pos).push(s.last())
    }
}

/// The window: when over capacity, the oldest (front) entries are dropped.
pub open spec fn clip_window(s: Seq<(u64, Vec2Fixed)>, cap: nat) -> Seq<(u64, Vec2Fixed)> {
    if s.len() <= cap {
        s
    } else {
        s.skip(s.len() - cap)
    }
}

/// The bounded rolling window itself.
pub struct PastPositions {
    pub entries: Vec<(u64, Vec2Fixed)>,
    pub cap: usize,
}

impl PastPositions {
    pub open spec fn wf(self) -> bool {
        &&& self.cap >= 1
        &&& self.entries@.len() <= self.cap
        &&& entries_sorted(self.entries@)
        &&& entries_in_range(self.entries@)
    }

    /// An empty window holding at most `cap` entries.
    pub fn new(cap: usize) -> (p: PastPositions)
        requires
            cap >= 1,
        ensures
            p.wf(),
            p.entries@ == Seq::<(u64, Vec2Fixed)>::empty(),
            p.cap == cap,
    {
        PastPositions { entries: Vec::new(), cap }
    }

    /// The recorded position for `tick`, if any.
    pub fn lookup(&self, tick: u64) -> (r: Option<Vec2Fixed>)
        ensures
            r == past_lookup(self.entries@, tick),
            entries_in_range(self.entries@) ==> match r {
                Some(p) => p.in_range(),
                None => true,
            },
    {
        let s = Ghost(self.entries@);
        proof {
            assert(s@.skip(0) =~= s@);
        }
        let mut j: usize = 0;
        while j < self.entries.len()
            invariant
                0 <= j <= self.entries@.len(),
                s@ == self.entries@,
                past_lookup(s@, tick) == past_lookup(s@.skip(j as int), tick),
            decreases self.entries@.len() - j,
        {
            if self.entries[j].0 == tick {
                assert(s@.skip(j as int)[0] == s@[j as int]);
                return Some(self.entries[j].1);
            }
            proof {
                assert(s@.skip(j as int).drop_first() =~= s@.skip(j + 1));
            }
            j = j + 1;
        }
        proof {
            assert(s@.skip(j as int).len() == 0);
        }
        None
    }

    /// Records a confirmed position: ordered insert (overwriting a repeated
    /// tick), then eviction of the oldest entry if the window overflows.
    pub fn insert(&mut self, tick: u64, pos: Vec2Fixed)
        requires
            old(self).wf(),
            pos.in_range(),
        ensures
            final(self).wf(),
            final(self).cap == old(self).cap,
            final(self).entries@ == clip_window(
                insert_sorted(old(self).entries@, tick, pos),
                old(self).cap as nat,
            ),
    {
        let ghost s = self.entries@;
        let mut i: usize = self.entries.len();
        while i > 0 && self.entries[i - 1].0 > tick
            invariant
                0 <= i <= s.len(),
                self.entries@ == s,
                forall|j: int| i <= j < s.len() ==> (#[trigger] s[j]).0 > tick,
            decreases i,
        {
            i = i - 1;
        }
        if i > 0 && self.entries[i - 1].0 == tick {
            self.entries[i - 1] = (tick, pos);
            proof {
                lemma_insert_sorted_update(s, tick, pos, i - 1);
                assert(self.entries@ == insert_sorted(s, tick, pos));
                assert(clip_window(insert_sorted(s, tick, pos), self.cap as nat) == insert_sorted(
                    s,
                    tick,
                    pos,
                ));
            }
        } else {
            proof {
                lemma_insert_sorted_at(s, tick, pos, i as int);
                s.insert_ensures(i as int, (tick, pos));
            }
            self.entries.insert(i, (tick, pos));
            proof {
                assert(self.entries@ == insert_sorted(s, tick, pos));
            }
            if self.entries.len() > self.cap {
                let _ = self.entries.remove(0);
                proof {
                    let t = insert_sorted(s, tick, pos);
                    assert(self.entries@ =~= t.skip(1));
                    assert(clip_window(t, self.cap as nat) == t.skip(t.len() - self.cap));
                    assert(t.len() - self.cap == 1);
                }
            }
        }
    }
}

proof fn lemma_insert_sorted_at(s: Seq<(u64, Vec2Fixed)>, tick: u64, pos: Vec2Fixed, i: int)
    requires
        entries_sorted(s),
        0 <= i <= s.len(),
        forall|j: int| i <= j < s.len() ==> (#[trigger] s[j]).0 > tick,
        i > 0 ==> s[i - 1].0 < tick,
    ensures
        insert_sorted(s, tick, pos) == s.insert(i, (tick, pos)),
        entries_sorted(s.insert(i, (tick, pos))),
        entries_in_range(s) && pos.in_range() ==> entries_in_range(s.insert(i, (tick, pos))),
    decreases s.len(),
{
    s.insert_ensures(i, (tick, pos));
    if s.len() == 0 {
        assert(s.insert(0, (tick, pos)) =~= seq![(tick, pos)]);
    } else if i == s.len() {
        assert(s.last().0 < tick);
        assert(s.insert(i, (tick, pos)) =~= s.push((tick, pos)));
    } else {
        assert(s.last().0 > tick);
        let d = s.drop_last();
        assert(entries_sorted(d)) by {
            assert forall|a: int, b: int| 0 <= a < b < d.len() implies (#[trigger] d[a]).0 < (
            #[trigger] d[b]).0 by {
                assert(d[a] == s[a] && d[b] == s[b]);
            }
        }
        assert forall|j: int| i <= j < d.len() implies (#[trigger] d[j]).0 > tick by {
            assert(d[j] == s[j]);
        }
        if i > 0 {
            assert(d[i - 1] == s[i - 1]);
        }
        lemma_insert_sorted_at(d, tick, pos, i);
        d.insert_ensures(i, (tick, pos));
        assert(d.insert(i, (tick, pos)).push(s.last()) =~= s.insert(i, (tick, pos)));
    }
}

proof fn lemma_insert_sorted_update(s: Seq<(u64, Vec2Fixed)>, tick: u64, pos: Vec2Fixed, i: int)
    requires
        entries_sorted(s),
        0 <= i < s.len(),
        s[i].0 == tick,
        forall|j: int| i < j < s.len() ==> (#[trigger] s[j]).0 > tick,
    ensures
        insert_sorted(s, tick, pos) == s.update(i, (tick, pos)),
        entries_sorted(s.update(i, (tick, pos))),
        entries_in_range(s) && pos.in_range() ==> entries_in_range(s.update(i, (tick, pos))),
    decreases s.len(),
{
    if i == s.len() - 1 {
        assert(s.last().0 == tick);
    } else {
        assert(s.last().0 > tick);
        let d = s.drop_last();
        assert(entries_sorted(d)) by {
            assert forall|a: int, b: int| 0 <= a < b < d.len() implies (#[trigger] d[a]).0 < (
            #[trigger] d[b]).0 by {
                assert(d[a] == s[a] && d[b] == s[b]);
            }
        }
        assert(d[i] == s[i]);
        assert forall|j: int| i < j < d.len() implies (#[trigger] d[j]).0 > tick by {
            assert(d[j] == s[j]);
        }
        lemma_insert_sorted_update(d, tick, pos, i);
        assert(d.update(i, (tick, pos)).push(s.last()) =~= s.update(i, (tick, pos)));
    }
}

} // verus!
