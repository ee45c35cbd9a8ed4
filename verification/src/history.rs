//! The per-player input history: ordered records of `(tick, target)` awaiting
//! server confirmation, and the replay that re-applies them after a snap to an
//! authoritative position.

use vstd::prelude::*;
use crate::fixed::Vec2Fixed;
use crate::movement::{apply_tick, step_position, MovementConfig};

verus! {

/// One movement command: the tick it was issued on and the target chosen.
#[derive(Clone, Copy, PartialEq, Eq, Structural, Debug)]
pub struct InputRecord {
    pub tick: u64,
    pub target: Vec2Fixed,
}

/// Every recorded target is within the coordinate limit.
pub open spec fn inputs_in_range(s: Seq<InputRecord>) -> bool {
    forall|i: int| 0 <= i < s.len() ==> (#[trigger] s[i]).target.in_range()
}

/// The target of the first record issued on `tick`, if any.
pub open spec fn find_target(s: Seq<InputRecord>, tick: int) -> Option<Vec2Fixed>
    decreases s.len(),
{
    if s.len() == 0 {
        None
    } else if s[0].tick == tick {
        Some(s[0].target)
    } else {
        find_target(s.drop_first(), tick)
    }
}

/// The records whose tick is at least `from`, in their original order.
pub open spec fn keep_from(s: Seq<InputRecord>, from: int) -> Seq<InputRecord>
    decreases s.len(),
{
    if s.len() == 0 {
        Seq::empty()
    } else {
        let rest = keep_from(s.drop_last(), from);
        if s.last().tick >= from {
            rest.push(s.last())
        } else {
            rest
        }
    }
}

/// The target adopted for a simulated tick: the matching record's target if
/// one exists, else the current target.
pub open spec fn adopt(s: Seq<InputRecord>, tick: int, cur: Vec2Fixed) -> Vec2Fixed {
    match find_target(s, tick) {
        Some(t) => t,
        None => cur,
    }
}

/// Replaying `count` ticks starting at tick `from`: each tick first adopts
/// the matching recorded target (if any), then applies one movement tick.
/// Returns the final position and target.
pub open spec fn replay_state(
    pos: Vec2Fixed,
    target: Vec2Fixed,
    s: Seq<InputRecord>,
    from: int,
    count: nat,
    cfg: MovementConfig,
    paused: bool,
) -> (Vec2Fixed, Vec2Fixed)
    decreases count,
{
    if count == 0 {
        (pos, target)
    } else {
        let t1 = adopt(s, from, target);
        let p1 = apply_tick(pos, t1, cfg, paused);
        replay_state(p1, t1, s, from + 1, (count - 1) as nat, cfg, paused)
    }
}

/// The number of simulated ticks in the inclusive range `from ..= to`.
pub open spec fn replay_count(from: u64, to: u64) -> nat {
    if from <= to {
        (to - from + 1) as nat
    } else {
        0
    }
}

/// Unrolling one replay step at the back: `count + 1` ticks are `count`
/// ticks followed by one tick at `from + count`.
pub proof fn lemma_replay_snoc(
    pos: Vec2Fixed,
    target: Vec2Fixed,
    s: Seq<InputRecord>,
    from: int,
    count: nat,
    cfg: MovementConfig,
    paused: bool,
)
    ensures
        ({
            let prev = replay_state(pos, target, s, from, count, cfg, paused);
            let t1 = adopt(s, from + count, prev.1);
            replay_state(pos, target, s, from, (count + 1) as nat, cfg, paused) == (
                apply_tick(prev.0, t1, cfg, paused),
                t1,
            )
        }),
    decreases count,
{
    let cnt1 = (count + 1) as nat;
    let t0 = adopt(s, from, target);
    let p0 = apply_tick(pos, t0, cfg, paused);
    assert(replay_state(pos, target, s, from, cnt1, cfg, paused) == replay_state(
        p0,
        t0,
        s,
        from + 1,
        count,
        cfg,
        paused,
    ));
    if count == 0 {
        assert(replay_state(p0, t0, s, from + 1, 0, cfg, paused) == (p0, t0));
        assert(replay_state(pos, target, s, from, 0, cfg, paused) == (pos, target));
    } else {
        assert(replay_state(pos, target, s, from, count, cfg, paused) == replay_state(
            p0,
            t0,
            s,
            from + 1,
            (count - 1) as nat,
            cfg,
            paused,
        ));
        lemma_replay_snoc(p0, t0, s, from + 1, (count - 1) as nat, cfg, paused);
    }
}

/// Filtering is idempotent: records kept once are all kept again.
pub proof fn lemma_keep_from_idempotent(s: Seq<InputRecord>, from: int)
    ensures
        keep_from(keep_from(s, from), from) == keep_from(s, from),
    decreases s.len(),
{
    if s.len() == 0 {
        assert(keep_from(s, from) =~= Seq::<InputRecord>::empty());
    } else {
        lemma_keep_from_idempotent(s.drop_last(), from);
        let k = keep_from(s.drop_last(), from);
        if s.last().tick >= from {
            assert(k.push(s.last()).drop_last() =~= k);
            assert(k.push(s.last()).last() == s.last());
        }
    }
}

/// Filtering keeps every target within the coordinate limit.
pub proof fn lemma_keep_from_in_range(s: Seq<InputRecord>, from: int)
    requires
        inputs_in_range(s),
    ensures
        inputs_in_range(keep_from(s, from)),
    decreases s.len(),
{
    if s.len() == 0 {
    } else {
        assert forall|i: int|
            0 <= i < s.drop_last().len() implies (#[trigger] s.drop_last()[i]).target.in_range() by {
            assert(s.drop_last()[i] == s[i]);
        }
        lemma_keep_from_in_range(s.drop_last(), from);
        let k = keep_from(s.drop_last(), from);
        if s.last().tick >= from {
            assert forall|i: int|
                0 <= i < k.push(s.last()).len() implies (#[trigger] k.push(s.last())[i])
                    .target.in_range() by {
                if i < k.len() {
                    assert(k.push(s.last())[i] == k[i]);
                } else {
                    assert(k.push(s.last())[i] == s.last());
                }
            }
        }
    }
}

/// When a record exists for the first replayed tick, the replay adopts it at
/// once, so the outcome does not depend on the target held beforehand.
pub proof fn lemma_replay_target_independent(
    pos: Vec2Fixed,
    ta: Vec2Fixed,
    tb: Vec2Fixed,
    s: Seq<InputRecord>,
    from: int,
    count: nat,
    cfg: MovementConfig,
    paused: bool,
)
    requires
        find_target(s, from).is_some(),
    ensures
        replay_state(pos, ta, s, from, count, cfg, paused).0 == replay_state(
            pos,
            tb,
            s,
            from,
            count,
            cfg,
            paused,
        ).0,
        count > 0 ==> replay_state(pos, ta, s, from, count, cfg, paused).1 == replay_state(
            pos,
            tb,
            s,
            from,
            count,
            cfg,
            paused,
        ).1,
{
    if count == 0 {
    } else {
        let t1 = adopt(s, from, ta);
        assert(t1 == adopt(s, from, tb));
    }
}

/// Linear scan for the first record issued on `tick`.
pub fn find_pending(inputs: &Vec<InputRecord>, tick: u64) -> (r: Option<Vec2Fixed>)
    ensures
        r == find_target(inputs@, tick as int),
        inputs_in_range(inputs@) ==> match r {
            Some(t) => t.in_range(),
            None => true,
        },
{
    let s = Ghost(inputs@);
    proof {
        assert(s@.skip(0) =~= s@);
    }
    let mut j: usize = 0;
    while j < inputs.len()
        invariant
            0 <= j <= inputs.len(),
            s@ == inputs@,
            find_target(s@, tick as int) == find_target(s@.skip(j as int), tick as int),
        decreases inputs.len() - j,
    {
        if inputs[j].tick == tick {
            assert(s@.skip(j as int)[0] == s@[j as int]);
            return Some(inputs[j].target);
        }
        proof {
            assert(s@.skip(j as int).drop_first() =~= s@.skip(j + 1));
        }
        j = j + 1;
    }
    proof {
        assert(s@.skip(j as int).len() == 0);
    }
    None
}

/// Discards every record older than `from`, keeping order.
pub fn retain_from(inputs: &mut Vec<InputRecord>, from: u64)
    ensures
        final(inputs)@ == keep_from(old(inputs)@, from as int),
{
    let s = Ghost(inputs@);
    let mut out: Vec<InputRecord> = Vec::new();
    let mut i: usize = 0;
    while i < inputs.len()
        invariant
            0 <= i <= inputs.len(),
            s@ == inputs@,
            out@ == keep_from(s@.take(i as int), from as int),
        decreases inputs.len() - i,
    {
        proof {
            assert(s@.take(i + 1).drop_last() =~= s@.take(i as int));
            assert(s@.take(i + 1).last() == s@[i as int]);
        }
        if inputs[i].tick >= from {
            out.push(inputs[i]);
        }
        i = i + 1;
    }
    proof {
        assert(s@.take(i as int) =~= s@);
    }
    *inputs = out;
}

/// Replays the inclusive tick range `from ..= to`, adopting recorded targets
/// as it goes; returns the final `(position, target)`.
pub fn replay_ticks(
    pos: Vec2Fixed,
    target: Vec2Fixed,
    inputs: &Vec<InputRecord>,
    from: u64,
    to: u64,
    cfg: &MovementConfig,
    paused: bool,
) -> (r: (Vec2Fixed, Vec2Fixed))
    requires
        pos.in_range(),
        target.in_range(),
        inputs_in_range(inputs@),
        cfg.wf(),
        to < u64::MAX,
    ensures
        r == replay_state(pos, target, inputs@, from as int, replay_count(from, to), *cfg, paused),
        r.0.in_range(),
        r.1.in_range(),
        cfg.in_bounds(pos) ==> cfg.in_bounds(r.0),
{
    let mut p = pos;
    let mut t = target;
    if from > to {
        return (p, t);
    }
    let mut i: u64 = from;
    while i <= to
        invariant
            from <= i <= to + 1,
            to < u64::MAX,
            p.in_range(),
            t.in_range(),
            inputs_in_range(inputs@),
            cfg.wf(),
            (p, t) == replay_state(
                pos,
                target,
                inputs@,
                from as int,
                (i - from) as nat,
                *cfg,
                paused,
            ),
            cfg.in_bounds(pos) ==> cfg.in_bounds(p),
        decreases to + 1 - i,
    {
        let t1 = match find_pending(inputs, i) {
            Some(x) => x,
            None => t,
        };
        proof {
            lemma_replay_snoc(pos, target, inputs@, from as int, (i - from) as nat, *cfg, paused);
        }
        p = step_position(p, t1, cfg, paused);
        t = t1;
        i = i + 1;
    }
    (p, t)
}

} // verus!
