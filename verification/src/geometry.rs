//! Integer vector geometry for particle placement.
//!
//! When a composite splits, each child is placed at an offset from the parent
//! along the direction of the child's initial velocity: the velocity is
//! normalized and scaled by a separation distance. On integer coordinates the
//! normalized offset is `v * dist / |v|`, computed on magnitudes with a floor
//! square root so that each component's magnitude never exceeds `dist`.

use vstd::arithmetic::div_mod::{lemma_div_is_ordered, lemma_div_multiples_vanish};
use vstd::arithmetic::mul::lemma_mul_inequality;
use vstd::prelude::*;

use crate::particle::Vec2I;

verus! {

/// The floor of the square root of `n`.
pub open spec fn sqrt_floor(n: nat) -> nat
    decreases n,
{
    if n == 0 {
        0
    } else {
        let r = sqrt_floor((n - 1) as nat);
        if (r + 1) * (r + 1) <= n {
            r + 1
        } else {
            r
        }
    }
}

/// `sqrt_floor(n)` squared is at most `n`, and the next square is above `n`.
pub proof fn lemma_sqrt_floor_is_root(n: nat)
    ensures
        sqrt_floor(n) * sqrt_floor(n) <= n,
        n < (sqrt_floor(n) + 1) * (sqrt_floor(n) + 1),
    decreases n,
{
    if n == 0 {
        let s = sqrt_floor(n);
        assert(n < (s + 1) * (s + 1)) by (nonlinear_arith)
            requires
                n == 0,
                s == 0,
        ;
    }
    if n > 0 {
        reveal_with_fuel(sqrt_floor, 2);
        lemma_sqrt_floor_is_root((n - 1) as nat);
        let r = sqrt_floor((n - 1) as nat);
        if (r + 1) * (r + 1) <= n {
            assert(sqrt_floor(n) == r + 1);
            assert(n == (r + 1) * (r + 1));
            assert(n < (r + 2) * (r + 2)) by (nonlinear_arith)
                requires
                    n == (r + 1) * (r + 1),
            ;
            assert(n < (sqrt_floor(n) + 1) * (sqrt_floor(n) + 1));
        } else {
            assert(sqrt_floor(n) == r);
            assert(n < (sqrt_floor(n) + 1) * (sqrt_floor(n) + 1));
        }
    }
}

/// Any `r` with `r * r <= n < (r + 1) * (r + 1)` is the floor square root.
pub proof fn lemma_sqrt_floor_unique(n: nat, r: nat)
    requires
        r * r <= n,
        n < (r + 1) * (r + 1),
    ensures
        r == sqrt_floor(n),
{
    let s = sqrt_floor(n);
    lemma_sqrt_floor_is_root(n);
    if r < s {
        assert((r + 1) * (r + 1) <= s * s) by (nonlinear_arith)
            requires
                r + 1 <= s,
        ;
    }
    if s < r {
        assert((s + 1) * (s + 1) <= r * r) by (nonlinear_arith)
            requires
                s + 1 <= r,
        ;
    }
}

/// The floor square root, by binary search.
pub fn isqrt(n: u64) -> (r: u64)
    requires
        n <= 4_000_000_000_000_000_000,
    ensures
        r == sqrt_floor(n as nat),
        r <= 2_000_000_000,
        r * r <= n,
        n < (r + 1) * (r + 1),
{
    let mut lo: u64 = 0;
    let mut hi: u64 = 2_000_000_000;
    while lo < hi
        invariant
            lo <= hi <= 2_000_000_000,
            lo * lo <= n,
            n < (hi + 1) * (hi + 1),
        decreases hi - lo,
    {
        let mid = lo + (hi - lo + 1) / 2;
        proof {
            assert(mid * mid <= 4_000_000_000_000_000_000) by (nonlinear_arith)
                requires
                    mid <= 2_000_000_000,
            ;
        }
        if mid * mid <= n {
            lo = mid;
        } else {
            hi = mid - 1;
        }
    }
    proof {
        lemma_sqrt_floor_unique(n as nat, lo as nat);
    }
    lo
}

/// The squared length of a vector.
pub open spec fn spec_norm_sq(v: Vec2I) -> nat {
    (v.x * v.x + v.y * v.y) as nat
}

/// One component of `v * dist / |v|` with floor division on the magnitude,
/// keeping the component's sign.
pub open spec fn scaled_component(c: int, dist: int, len: int) -> int {
    if c >= 0 {
        c * dist / len
    } else {
        -((-c) * dist / len)
    }
}

/// The placement offset for a child launched with velocity `v`: the vector
/// `v` normalized to length `dist`, on integer coordinates.
pub open spec fn spec_launch_offset(v: Vec2I, dist: u64) -> Vec2I {
    let len = sqrt_floor(spec_norm_sq(v)) as int;
    Vec2I {
        x: scaled_component(v.x as int, dist as int, len) as i64,
        y: scaled_component(v.y as int, dist as int, len) as i64,
    }
}

/// A scaled magnitude never exceeds the scale: `a <= len` gives
/// `a * dist / len <= dist`.
proof fn lemma_scaled_magnitude_bound(a: nat, dist: nat, len: nat)
    requires
        a <= len,
        0 < len,
    ensures
        a * dist / len <= dist,
{
    lemma_mul_inequality(a as int, len as int, dist as int);
    lemma_div_is_ordered((a * dist) as int, (len * dist) as int, len as int);
    lemma_div_multiples_vanish(dist as int, len as int);
}

/// A magnitude whose square is at most `n` is at most `sqrt_floor(n)`.
proof fn lemma_magnitude_le_sqrt(a: nat, n: nat)
    requires
        a * a <= n,
    ensures
        a <= sqrt_floor(n),
{
    let s = sqrt_floor(n);
    lemma_sqrt_floor_is_root(n);
    if s < a {
        assert((s + 1) * (s + 1) <= a * a) by (nonlinear_arith)
            requires
                s + 1 <= a,
        ;
    }
}

/// A coordinate clamped into the world's position box.
pub open spec fn spec_clamp_coord(x: int) -> i64 {
    if x > 1_000_000_000_000_000 {
        1_000_000_000_000_000i64
    } else if x < -1_000_000_000_000_000 {
        -1_000_000_000_000_000i64
    } else {
        x as i64
    }
}

/// Adds an offset to a position coordinate, clamping the result into the
/// world's position box.
pub fn clamp_coord_add(a: i64, off: i64) -> (r: i64)
    requires
        -1_000_000_000_000_000 <= a <= 1_000_000_000_000_000,
        -4_000_000_000 <= off <= 4_000_000_000,
    ensures
        r == spec_clamp_coord(a + off),
        -1_000_000_000_000_000 <= r <= 1_000_000_000_000_000,
{
    let s = a + off;
    if s > 1_000_000_000_000_000 {
        1_000_000_000_000_000
    } else if s < -1_000_000_000_000_000 {
        -1_000_000_000_000_000
    } else {
        s
    }
}

/// Computes the launch offset `v * dist / |v|` on integer coordinates.
///
/// The velocity must be nonzero: a zero vector has no direction, and the
/// level model's validation guarantees no child of a composite carries one.
pub fn launch_offset(v: &Vec2I, dist: u64) -> (o: Vec2I)
    requires
        v.in_range(crate::particle::VELOCITY_LIMIT),
        !v.spec_is_zero(),
        dist <= 4_000_000_000,
    ensures
        o == spec_launch_offset(*v, dist),
        -(dist as int) <= o.x <= dist as int,
        -(dist as int) <= o.y <= dist as int,
{
    let ax: u64 = if v.x >= 0 {
        v.x as u64
    } else {
        (-v.x) as u64
    };
    let ay: u64 = if v.y >= 0 {
        v.y as u64
    } else {
        (-v.y) as u64
    };
    proof {
        assert(ax * ax <= 1_000_000_000_000_000_000 && ay * ay <= 1_000_000_000_000_000_000)
            by (nonlinear_arith)
            requires
                ax <= 1_000_000_000,
                ay <= 1_000_000_000,
        ;
    }
    proof {
        assert((ax as int) * (ax as int) == v.x * v.x && (ay as int) * (ay as int) == v.y * v.y)
            by (nonlinear_arith)
            requires
                ax == (if v.x >= 0 { v.x as int } else { -(v.x as int) }),
                ay == (if v.y >= 0 { v.y as int } else { -(v.y as int) }),
        ;
        assert(ax >= 1 || ay >= 1);
        assert(ax * ax + ay * ay >= 1) by (nonlinear_arith)
            requires
                ax >= 1 || ay >= 1,
        ;
    }
    let norm_sq: u64 = ax * ax + ay * ay;
    assert(norm_sq as nat == spec_norm_sq(*v));
    let len: u64 = isqrt(norm_sq);
    assert(len >= 1) by {
        if len == 0 {
            assert(norm_sq < (0 + 1) * (0 + 1));
        }
    }
    proof {
        lemma_magnitude_le_sqrt(ax as nat, norm_sq as nat);
        lemma_magnitude_le_sqrt(ay as nat, norm_sq as nat);
        lemma_scaled_magnitude_bound(ax as nat, dist as nat, len as nat);
        lemma_scaled_magnitude_bound(ay as nat, dist as nat, len as nat);
        assert(ax * dist <= len * dist && ay * dist <= len * dist) by (nonlinear_arith)
            requires
                ax <= len,
                ay <= len,
        ;
        assert(len * dist <= 2_000_000_000 * 4_000_000_000) by (nonlinear_arith)
            requires
                len <= 2_000_000_000,
                dist <= 4_000_000_000,
        ;
    }
    let ox: u64 = ax * dist / len;
    let oy: u64 = ay * dist / len;
    let x: i64 = if v.x >= 0 {
        ox as i64
    } else {
        -(ox as i64)
    };
    let y: i64 = if v.y >= 0 {
        oy as i64
    } else {
        -(oy as i64)
    };
    Vec2I { x, y }
}

} // verus!
