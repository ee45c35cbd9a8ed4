//! Deterministic world events: per-kind spawning from the session seed and
//! tick, the fixed fall of every live object, and pruning at the world edge.

use vstd::prelude::*;
use crate::fixed::{Vec2Fixed, COORD_LIMIT};
use crate::rng::{draw_spawn_coord, spawn_coord};

verus! {

/// One object kind: its spawn cadence (spawn on ticks that are multiples of
/// `cadence`, or on the ticks that are not), fall speed per tick, and the
/// world half-bounds, in thousandths of a unit.
#[derive(Clone, Copy, PartialEq, Eq, Structural, Debug)]
pub struct KindConfig {
    pub cadence: u64,
    pub spawn_on_multiple: bool,
    pub fall_speed: i64,
    pub bound_x: i64,
    pub bound_y: i64,
}

impl KindConfig {
    pub open spec fn wf(self) -> bool {
        &&& 1 <= self.cadence
        &&& 0 < self.fall_speed <= COORD_LIMIT
        &&& 0 < self.bound_x <= COORD_LIMIT
        &&& 0 < self.bound_y <= COORD_LIMIT
    }
}

/// A live world object: the tick it spawned on (its identity) and where it is.
#[derive(Clone, Copy, PartialEq, Eq, Structural, Debug)]
pub struct ObjectPos {
    pub tick: u64,
    pub pos: Vec2Fixed,
}

pub open spec fn objects_in_range(s: Seq<ObjectPos>) -> bool {
    forall|i: int| 0 <= i < s.len() ==> (#[trigger] s[i]).pos.in_range()
}

/// Whether this kind spawns a new object on the given tick.
pub open spec fn spawns_at(k: KindConfig, tick: u64) -> bool {
    (tick % k.cadence == 0) == k.spawn_on_multiple
}

/// The object a spawn on `tick` creates: the horizontal coordinate is drawn
/// from a generator seeded with `seed XOR tick`, and it starts at the top edge.
pub open spec fn spawned_object(k: KindConfig, seed: u64, tick: u64) -> ObjectPos {
    ObjectPos {
        tick,
        pos: Vec2Fixed {
            x: spawn_coord(seed ^ tick, (-k.bound_x) as i64, k.bound_x),
            y: k.bound_y,
        },
    }
}

/// Every object moved down by the kind's fall speed.
pub open spec fn fall_all(s: Seq<ObjectPos>, fs: i64) -> Seq<ObjectPos> {
    Seq::new(
        s.len(),
        |i: int| ObjectPos {
            tick: s[i].tick,
            pos: Vec2Fixed { x: s[i].pos.x, y: (s[i].pos.y - fs) as i64 },
        },
    )
}

pub open spec fn obj_in_bounds(k: KindConfig, p: Vec2Fixed) -> bool {
    &&& -k.bound_x <= p.x <= k.bound_x
    &&& -k.bound_y <= p.y <= k.bound_y
}

/// The objects still inside the kind's world rectangle, in order.
pub open spec fn prune_objects(s: Seq<ObjectPos>, k: KindConfig) -> Seq<ObjectPos>
    decreases s.len(),
{
    if s.len() == 0 {
        Seq::empty()
    } else {
        let rest = prune_objects(s.drop_last(), k);
        if obj_in_bounds(k, s.last().pos) {
            rest.push(s.last())
        } else {
            rest
        }
    }
}

/// One full world-event tick for a kind: spawn if the cadence says so, let
/// everything fall, prune what left the world.
pub open spec fn world_step_spec(s: Seq<ObjectPos>, k: KindConfig, seed: u64, tick: u64) -> Seq<
    ObjectPos,
> {
    let s1 = if spawns_at(k, tick) {
        s.push(spawned_object(k, seed, tick))
    } else {
        s
    };
    prune_objects(fall_all(s1, k.fall_speed), k)
}

proof fn lemma_prune_in_bounds(s: Seq<ObjectPos>, k: KindConfig)
    ensures
        forall|i: int|
            0 <= i < prune_objects(s, k).len() ==> obj_in_bounds(
                k,
                (#[trigger] prune_objects(s, k)[i]).pos,
            ),
    decreases s.len(),
{
    if s.len() == 0 {
    } else {
        lemma_prune_in_bounds(s.drop_last(), k);
        let rest = prune_objects(s.drop_last(), k);
        if obj_in_bounds(k, s.last().pos) {
            assert forall|i: int| 0 <= i < prune_objects(s, k).len() implies obj_in_bounds(
                k,
                (#[trigger] prune_objects(s, k)[i]).pos,
            ) by {
                if i < rest.len() {
                    assert(prune_objects(s, k)[i] == rest[i]);
                } else {
                    assert(prune_objects(s, k)[i] == s.last());
                }
            }
        }
    }
}

/// One world-event tick, exactly as `world_step_spec` describes it; a no-op
/// while the clock is paused or before a session seed or tick exists.
pub fn world_step(
    objects: &mut Vec<ObjectPos>,
    k: &KindConfig,
    seed: Option<u64>,
    tick: Option<u64>,
    pause: i64,
)
    requires
        k.wf(),
        objects_in_range(old(objects)@),
    ensures
        final(objects)@ == if pause == 0 && seed.is_some() && tick.is_some() {
            world_step_spec(old(objects)@, *k, seed.unwrap(), tick.unwrap())
        } else {
            old(objects)@
        },
        objects_in_range(final(objects)@),
{
    if pause != 0 {
        return;
    }
    let sd = match seed {
        Some(s) => s,
        None => {
            return;
        },
    };
    let tk = match tick {
        Some(t) => t,
        None => {
            return;
        },
    };
    if (tk % k.cadence == 0) == k.spawn_on_multiple {
        let lo: i64 = -k.bound_x;
        let x = draw_spawn_coord(sd ^ tk, lo, k.bound_x);
        objects.push(ObjectPos { tick: tk, pos: Vec2Fixed { x, y: k.bound_y } });
    }
    let ghost s1 = objects@;
    assert(objects_in_range(s1));
    let mut i: usize = 0;
    while i < objects.len()
        invariant
            0 <= i <= objects@.len(),
            objects@.len() == s1.len(),
            k.wf(),
            objects_in_range(s1),
            forall|j: int| 0 <= j < i ==> objects@[j] == fall_all(s1, k.fall_speed)[j],
            forall|j: int| i <= j < s1.len() ==> objects@[j] == s1[j],
        decreases objects@.len() - i,
    {
        let o = objects[i];
        proof {
            assert(o == s1[i as int]);
            assert(o.pos.in_range());
        }
        objects[i] = ObjectPos {
            tick: o.tick,
            pos: Vec2Fixed { x: o.pos.x, y: o.pos.y - k.fall_speed },
        };
        i = i + 1;
    }
    assert(objects@ =~= fall_all(s1, k.fall_speed));
    let ghost s2 = objects@;
    let mut kept: Vec<ObjectPos> = Vec::new();
    let mut j: usize = 0;
    while j < objects.len()
        invariant
            0 <= j <= objects@.len(),
            objects@ == s2,
            k.wf(),
            kept@ == prune_objects(s2.take(j as int), *k),
        decreases objects@.len() - j,
    {
        proof {
            assert(s2.take(j + 1).drop_last() =~= s2.take(j as int));
            assert(s2.take(j + 1).last() == s2[j as int]);
        }
        let o = objects[j];
        if -k.bound_x <= o.pos.x && o.pos.x <= k.bound_x && -k.bound_y <= o.pos.y && o.pos.y
            <= k.bound_y {
            kept.push(o);
        }
        j = j + 1;
    }
    proof {
        assert(s2.take(j as int) =~= s2);
        lemma_prune_in_bounds(s2, *k);
    }
    *objects = kept;
}

/// The list with the first object whose spawn tick is `tick` removed, if any.
pub open spec fn remove_first(s: Seq<ObjectPos>, tick: u64) -> Seq<ObjectPos>
    decreases s.len(),
{
    if s.len() == 0 {
        s
    } else if s[0].tick == tick {
        s.drop_first()
    } else {
        seq![s[0]] + remove_first(s.drop_first(), tick)
    }
}

proof fn lemma_remove_first_at(s: Seq<ObjectPos>, tick: u64, j: int)
    requires
        0 <= j < s.len(),
        forall|kk: int| 0 <= kk < j ==> (#[trigger] s[kk]).tick != tick,
        s[j].tick == tick,
    ensures
        remove_first(s, tick) == s.remove(j),
    decreases j,
{
    if j == 0 {
        assert(s.drop_first() =~= s.remove(0));
    } else {
        let rest = s.drop_first();
        assert(forall|kk: int| 0 <= kk < j - 1 ==> (#[trigger] rest[kk]).tick != tick);
        lemma_remove_first_at(rest, tick, j - 1);
        assert(seq![s[0]] + rest.remove(j - 1) =~= s.remove(j));
    }
}

proof fn lemma_remove_first_absent(s: Seq<ObjectPos>, tick: u64)
    requires
        forall|kk: int| 0 <= kk < s.len() ==> (#[trigger] s[kk]).tick != tick,
    ensures
        remove_first(s, tick) == s,
    decreases s.len(),
{
    if s.len() == 0 {
    } else {
        lemma_remove_first_absent(s.drop_first(), tick);
        assert(seq![s[0]] + s.drop_first() =~= s);
    }
}

/// Removes the object claimed by a score or damage message: the first one
/// whose spawn-tick identity matches.
pub fn remove_claimed(objects: &mut Vec<ObjectPos>, tick: u64)
    requires
        objects_in_range(old(objects)@),
    ensures
        final(objects)@ == remove_first(old(objects)@, tick),
        objects_in_range(final(objects)@),
{
    let ghost s = objects@;
    let mut j: usize = 0;
    while j < objects.len()
        invariant
            0 <= j <= objects@.len(),
            objects@ == s,
            s == old(objects)@,
            objects_in_range(s),
            forall|kk: int| 0 <= kk < j ==> (#[trigger] s[kk]).tick != tick,
        decreases objects@.len() - j,
    {
        if objects[j].tick == tick {
            let _ = objects.remove(j);
            proof {
                lemma_remove_first_at(s, tick, j as int);
                assert forall|i: int| 0 <= i < objects@.len() implies (#[trigger] objects@[i])
                    .pos.in_range() by {
                    assert(objects@[i] == if i < j { s[i] } else { s[i + 1] });
                }
            }
            return;
        }
        j = j + 1;
    }
    proof {
        lemma_remove_first_absent(s, tick);
    }
}

/// The positions of the live objects, in order, ready for slot assignment.
pub fn object_positions(objects: &Vec<ObjectPos>) -> (r: Vec<Vec2Fixed>)
    ensures
        r@.len() == objects@.len(),
        forall|i: int| 0 <= i < objects@.len() ==> r@[i] == (#[trigger] objects@[i]).pos,
{
    let mut r: Vec<Vec2Fixed> = Vec::new();
    let mut i: usize = 0;
    while i < objects.len()
        invariant
            0 <= i <= objects@.len(),
            r@.len() == i,
            forall|j: int| 0 <= j < i ==> r@[j] == (#[trigger] objects@[j]).pos,
        decreases objects@.len() - i,
    {
        r.push(objects[i].pos);
        i = i + 1;
    }
    r
}

/// A whole run of world-event ticks starting at `t0`.
pub open spec fn world_run(s: Seq<ObjectPos>, k: KindConfig, seed: u64, t0: u64, n: nat) -> Seq<
    ObjectPos,
>
    decreases n,
{
    if n == 0 {
        s
    } else {
        world_run(world_step_spec(s, k, seed, t0), k, seed, (t0 + 1) as u64, (n - 1) as nat)
    }
}

/// Determinism of world events: two instances that share the session seed and
/// start from the same objects produce identical objects over any run of
/// ticks — spawn decisions and positions are functions of seed and tick alone.
pub proof fn lemma_world_events_deterministic(
    s1: Seq<ObjectPos>,
    s2: Seq<ObjectPos>,
    k: KindConfig,
    seed: u64,
    t0: u64,
    n: nat,
)
    requires
        s1 == s2,
    ensures
        world_run(s1, k, seed, t0, n) == world_run(s2, k, seed, t0, n),
{
}

} // verus!
