//! Fixed-point plane coordinates and the integer square root used to
//! normalize direction vectors.

use vstd::prelude::*;

verus! {

/// Largest coordinate magnitude (in thousandths of a world unit) the library
/// accepts from outside; keeps every intermediate product within `i64`.
pub const COORD_LIMIT: i64 = 1_000_000_000;

/// A two-dimensional position or direction, in thousandths of a world unit.
#[derive(Clone, Copy, PartialEq, Eq, Structural, Debug)]
pub struct Vec2Fixed {
    pub x: i64,
    pub y: i64,
}

impl Vec2Fixed {
    /// Both coordinates are small enough that squared distances fit in `i64`.
    pub open spec fn in_range(self) -> bool {
        -COORD_LIMIT <= self.x <= COORD_LIMIT && -COORD_LIMIT <= self.y <= COORD_LIMIT
    }

    pub fn new(x: i64, y: i64) -> (r: Self)
        ensures
            r == (Vec2Fixed { x, y }),
    {
        Vec2Fixed { x, y }
    }

    pub open spec fn zero_spec() -> Self {
        Vec2Fixed { x: 0, y: 0 }
    }

    pub fn zero() -> (r: Self)
        ensures
            r == Self::zero_spec(),
    {
        Vec2Fixed { x: 0, y: 0 }
    }
}

/// Magnitude of an `i64`, widened so that `-i64::MIN` needs no special case.
pub open spec fn abs_i64(v: i64) -> int {
    if v < 0 {
        -(v as int)
    } else {
        v as int
    }
}

pub open spec fn sqrt_rec(n: nat, k: nat) -> nat
    decreases k,
{
    if k == 0 {
        0
    } else if k * k <= n {
        k
    } else {
        sqrt_rec(n, (k - 1) as nat)
    }
}

/// The integer square root: the largest `r` with `r * r <= n`.
pub open spec fn sqrt_nat(n: nat) -> nat {
    sqrt_rec(n, n)
}

proof fn lemma_sqrt_rec(n: nat, k: nat)
    requires
        n < (k + 1) * (k + 1),
    ensures
        sqrt_rec(n, k) * sqrt_rec(n, k) <= n,
        n < (sqrt_rec(n, k) + 1) * (sqrt_rec(n, k) + 1),
    decreases k,
{
    if k == 0 {
    } else if k * k <= n {
    } else {
        lemma_sqrt_rec(n, (k - 1) as nat);
    }
}

/// `sqrt_nat(n)` really is the integer square root of `n`.
pub proof fn lemma_sqrt_nat(n: nat)
    ensures
        sqrt_nat(n) * sqrt_nat(n) <= n,
        n < (sqrt_nat(n) + 1) * (sqrt_nat(n) + 1),
{
    assert(n < (n + 1) * (n + 1)) by (nonlinear_arith);
    lemma_sqrt_rec(n, n);
}

/// Any `r` with `r * r <= n < (r + 1) * (r + 1)` equals `sqrt_nat(n)`.
pub proof fn lemma_sqrt_unique(n: nat, r: nat)
    requires
        r * r <= n,
        n < (r + 1) * (r + 1),
    ensures
        r == sqrt_nat(n),
{
    lemma_sqrt_nat(n);
    let s = sqrt_nat(n);
    if r < s {
        assert((r + 1) * (r + 1) <= s * s) by (nonlinear_arith)
            requires
                r + 1 <= s,
        ;
        assert(false);
    }
    if s < r {
        assert((s + 1) * (s + 1) <= r * r) by (nonlinear_arith)
            requires
                s + 1 <= r,
        ;
        assert(false);
    }
}

/// Integer square root by bisection.
pub fn isqrt_u64(n: u64) -> (r: u64)
    ensures
        r * r <= n < (r + 1) * (r + 1),
        r == sqrt_nat(n as nat),
{
    let mut lo: u64 = 0;
    let mut hi: u64 = 4294967296;
    while lo + 1 < hi
        invariant
            lo < hi <= 4294967296,
            (lo as int) * (lo as int) <= n as int,
            (n as int) < (hi as int) * (hi as int),
        decreases hi - lo,
    {
        let mid: u64 = lo + (hi - lo) / 2;
        assert((mid as int) * (mid as int) <= 4294967295int * 4294967295int) by (nonlinear_arith)
            requires
                0 <= mid <= 4294967295int,
        ;
        if mid * mid <= n {
            lo = mid;
        } else {
            hi = mid;
        }
    }
    proof {
        lemma_sqrt_unique(n as nat, lo as nat);
    }
    lo
}

} // verus!
