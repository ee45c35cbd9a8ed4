//! One tick of movement toward a target: direction, normalization to a fixed
//! per-tick speed, overshoot clamping, and the world-bounds check.

use vstd::prelude::*;
use vstd::arithmetic::div_mod::{
    lemma_div_is_ordered, lemma_div_multiples_vanish, lemma_div_nonincreasing, lemma_div_pos_is_pos,
};
use crate::fixed::{isqrt_u64, sqrt_nat, Vec2Fixed, COORD_LIMIT};

verus! {

/// Largest per-tick speed the library accepts, in thousandths of a unit.
pub const SPEED_LIMIT: i64 = 1_000_000;

/// Movement tuning for one entity class: per-tick speed, the arrival
/// tolerance, and the world half-bounds, all in thousandths of a unit.
#[derive(Clone, Copy, PartialEq, Eq, Structural, Debug)]
pub struct MovementConfig {
    pub speed: i64,
    pub tolerance: i64,
    pub bound_x: i64,
    pub bound_y: i64,
}

impl MovementConfig {
    pub open spec fn wf(self) -> bool {
        &&& 0 < self.speed <= SPEED_LIMIT
        &&& 0 <= self.tolerance <= COORD_LIMIT
        &&& 0 < self.bound_x <= COORD_LIMIT
        &&& 0 < self.bound_y <= COORD_LIMIT
    }

    /// The position lies inside the world rectangle of this configuration.
    pub open spec fn in_bounds(self, p: Vec2Fixed) -> bool {
        &&& -self.bound_x <= p.x <= self.bound_x
        &&& -self.bound_y <= p.y <= self.bound_y
    }
}

/// Squared distance between a position and its target.
pub open spec fn dist2(pos: Vec2Fixed, target: Vec2Fixed) -> int {
    let dx = target.x - pos.x;
    let dy = target.y - pos.y;
    dx * dx + dy * dy
}

/// The movement vector for one tick: zero once within the tolerance of the
/// target, the whole remaining direction when one step would overshoot, and
/// otherwise the direction scaled to length `speed` (rounded toward zero,
/// componentwise).
pub open spec fn step_vector(pos: Vec2Fixed, target: Vec2Fixed, cfg: MovementConfig) -> Vec2Fixed {
    let dx = target.x - pos.x;
    let dy = target.y - pos.y;
    let d2 = dx * dx + dy * dy;
    if d2 <= cfg.tolerance * cfg.tolerance {
        Vec2Fixed { x: 0, y: 0 }
    } else {
        let dist = sqrt_nat(d2 as nat) as int;
        if dist <= cfg.speed {
            Vec2Fixed { x: dx as i64, y: dy as i64 }
        } else {
            let mx = if dx < 0 { -dx } else { dx } * cfg.speed / dist;
            let my = if dy < 0 { -dy } else { dy } * cfg.speed / dist;
            Vec2Fixed {
                x: (if dx < 0 { -mx } else { mx }) as i64,
                y: (if dy < 0 { -my } else { my }) as i64,
            }
        }
    }
}

/// The position after one tick: the candidate `pos + step_vector` if the
/// clock is not paused and the candidate stays inside the world bounds,
/// otherwise the position is unchanged.
pub open spec fn apply_tick(
    pos: Vec2Fixed,
    target: Vec2Fixed,
    cfg: MovementConfig,
    paused: bool,
) -> Vec2Fixed {
    let mv = step_vector(pos, target, cfg);
    let cand = Vec2Fixed { x: (pos.x + mv.x) as i64, y: (pos.y + mv.y) as i64 };
    if !paused && cfg.in_bounds(cand) {
        cand
    } else {
        pos
    }
}

/// In the scaled branch each movement component is at most `speed`; in every
/// branch the candidate position stays within twice the coordinate limit.
pub proof fn lemma_step_vector_bounds(pos: Vec2Fixed, target: Vec2Fixed, cfg: MovementConfig)
    requires
        pos.in_range(),
        target.in_range(),
        cfg.wf(),
    ensures
        -3 * COORD_LIMIT <= pos.x + step_vector(pos, target, cfg).x <= 3 * COORD_LIMIT,
        -3 * COORD_LIMIT <= pos.y + step_vector(pos, target, cfg).y <= 3 * COORD_LIMIT,
{
    let dx = target.x - pos.x;
    let dy = target.y - pos.y;
    let d2 = dx * dx + dy * dy;
    assert(dx * dx >= 0 && dy * dy >= 0) by (nonlinear_arith);
    if d2 <= cfg.tolerance * cfg.tolerance {
    } else {
        let dist = sqrt_nat(d2 as nat) as int;
        crate::fixed::lemma_sqrt_nat(d2 as nat);
        if dist <= cfg.speed {
            // The full step lands exactly on the target, which is in range.
            assert(pos.x + (dx as i64) == target.x);
            assert(pos.y + (dy as i64) == target.y);
        } else {
            let ax = if dx < 0 { -dx } else { dx };
            let ay = if dy < 0 { -dy } else { dy };
            assert((-dx) * (-dx) == dx * dx && (-dy) * (-dy) == dy * dy) by (nonlinear_arith);
            // |dx| <= dist, because dx * dx <= d2 < (dist + 1)^2.
            assert(ax <= dist && ay <= dist) by (nonlinear_arith)
                requires
                    ax >= 0,
                    ay >= 0,
                    ax * ax <= d2,
                    ay * ay <= d2,
                    dist >= 0,
                    d2 < (dist + 1) * (dist + 1),
            ;
            let mx = ax * cfg.speed / dist;
            let my = ay * cfg.speed / dist;
            assert(ax * cfg.speed <= dist * cfg.speed && ay * cfg.speed <= dist * cfg.speed)
                by (nonlinear_arith)
                requires
                    ax <= dist,
                    ay <= dist,
                    cfg.speed >= 0,
            ;
            lemma_div_is_ordered(ax * cfg.speed, dist * cfg.speed, dist);
            lemma_div_is_ordered(ay * cfg.speed, dist * cfg.speed, dist);
            lemma_div_multiples_vanish(cfg.speed as int, dist);
            assert(mx <= cfg.speed && my <= cfg.speed);
            lemma_div_pos_is_pos(ax * cfg.speed, dist);
            lemma_div_pos_is_pos(ay * cfg.speed, dist);
            assert(ax * cfg.speed >= 0 && ay * cfg.speed >= 0) by (nonlinear_arith)
                requires
                    ax >= 0,
                    ay >= 0,
                    cfg.speed >= 0,
            ;
        }
    }
}

/// Executable form of `step_vector`.
pub fn calculate_step(pos: Vec2Fixed, target: Vec2Fixed, cfg: &MovementConfig) -> (mv: Vec2Fixed)
    requires
        pos.in_range(),
        target.in_range(),
        cfg.wf(),
    ensures
        mv == step_vector(pos, target, *cfg),
{
    let dx: i64 = target.x - pos.x;
    let dy: i64 = target.y - pos.y;
    assert(dx * dx <= 4_000_000_000_000_000_000int && dx * dx >= 0) by (nonlinear_arith)
        requires
            -2_000_000_000 <= dx <= 2_000_000_000,
    ;
    assert(dy * dy <= 4_000_000_000_000_000_000int && dy * dy >= 0) by (nonlinear_arith)
        requires
            -2_000_000_000 <= dy <= 2_000_000_000,
    ;
    let d2: i64 = dx * dx + dy * dy;
    assert(cfg.tolerance * cfg.tolerance <= 1_000_000_000_000_000_000int
        && cfg.tolerance * cfg.tolerance >= 0) by (nonlinear_arith)
        requires
            0 <= cfg.tolerance <= 1_000_000_000,
    ;
    let tol2: i64 = cfg.tolerance * cfg.tolerance;
    if d2 <= tol2 {
        return Vec2Fixed { x: 0, y: 0 };
    }
    let dist: u64 = isqrt_u64(d2 as u64);
    assert(dist <= 4_000_000_000) by (nonlinear_arith)
        requires
            dist * dist <= 8_000_000_000_000_000_000int,
    ;
    if dist <= cfg.speed as u64 {
        return Vec2Fixed { x: dx, y: dy };
    }
    let ax: i64 = if dx < 0 {
        -dx
    } else {
        dx
    };
    let ay: i64 = if dy < 0 {
        -dy
    } else {
        dy
    };
    assert(ax * cfg.speed <= 2_000_000_000_000_000int && ax * cfg.speed >= 0) by (nonlinear_arith)
        requires
            0 <= ax <= 2_000_000_000,
            0 < cfg.speed <= 1_000_000,
    ;
    assert(ay * cfg.speed <= 2_000_000_000_000_000int && ay * cfg.speed >= 0) by (nonlinear_arith)
        requires
            0 <= ay <= 2_000_000_000,
            0 < cfg.speed <= 1_000_000,
    ;
    let num_x: u64 = (ax as u64) * (cfg.speed as u64);
    let num_y: u64 = (ay as u64) * (cfg.speed as u64);
    let mx64: u64 = num_x / dist;
    let my64: u64 = num_y / dist;
    proof {
        lemma_div_nonincreasing(num_x as int, dist as int);
        lemma_div_nonincreasing(num_y as int, dist as int);
    }
    let mx: i64 = mx64 as i64;
    let my: i64 = my64 as i64;
    Vec2Fixed {
        x: if dx < 0 {
            -mx
        } else {
            mx
        },
        y: if dy < 0 {
            -my
        } else {
            my
        },
    }
}

/// Executable form of `apply_tick`; also shows the bounds invariant: a
/// position inside the world bounds can never leave them.
pub fn step_position(
    pos: Vec2Fixed,
    target: Vec2Fixed,
    cfg: &MovementConfig,
    paused: bool,
) -> (r: Vec2Fixed)
    requires
        pos.in_range(),
        target.in_range(),
        cfg.wf(),
    ensures
        r == apply_tick(pos, target, *cfg, paused),
        r.in_range() || r == pos,
        cfg.in_bounds(pos) ==> cfg.in_bounds(r),
{
    let mv = calculate_step(pos, target, cfg);
    proof {
        lemma_step_vector_bounds(pos, target, *cfg);
    }
    let cx: i64 = pos.x + mv.x;
    let cy: i64 = pos.y + mv.y;
    if !paused && -cfg.bound_x <= cx && cx <= cfg.bound_x && -cfg.bound_y <= cy && cy <= cfg.bound_y {
        Vec2Fixed { x: cx, y: cy }
    } else {
        pos
    }
}

/// The bounds invariant at the specification level: `apply_tick` never moves
/// a position that is inside the world bounds to one outside them.
pub proof fn lemma_apply_tick_in_bounds(
    pos: Vec2Fixed,
    target: Vec2Fixed,
    cfg: MovementConfig,
    paused: bool,
)
    requires
        cfg.in_bounds(pos),
    ensures
        cfg.in_bounds(apply_tick(pos, target, cfg, paused)),
{
}

} // verus!
