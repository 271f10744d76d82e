//! Fixed-point 3D/2D vectors and the integer square root that backs
//! normalization. One world unit is `MILLI` fixed-point steps.

use vstd::prelude::*;

verus! {

/// One world unit, in fixed-point steps.
pub const MILLI: i64 = 1000;

/// Largest coordinate magnitude (in fixed-point steps) the geometry accepts:
/// one million world units.
pub const COORD_LIMIT: i64 = 1_000_000_000;

/// A point or direction in the arena, in fixed-point steps.
#[derive(Clone, Copy, Debug, PartialEq, Eq, Structural)]
pub struct Vec3Fx {
    pub x: i64,
    pub y: i64,
    pub z: i64,
}

/// A 2D extent (the arena's side lengths), in fixed-point steps.
#[derive(Clone, Copy, Debug, PartialEq, Eq, Structural)]
pub struct Vec2Fx {
    pub x: i64,
    pub y: i64,
}

impl Vec3Fx {
    pub open spec fn spec_zero() -> Vec3Fx {
        Vec3Fx { x: 0, y: 0, z: 0 }
    }

    pub fn zero() -> (r: Vec3Fx)
        ensures
            r == Self::spec_zero(),
    {
        Vec3Fx { x: 0, y: 0, z: 0 }
    }

    /// Every component has magnitude at most `limit`.
    pub open spec fn in_range(self, limit: int) -> bool {
        &&& -limit <= self.x <= limit
        &&& -limit <= self.y <= limit
        &&& -limit <= self.z <= limit
    }
}

/// Squared Euclidean length, exact over the integers.
pub open spec fn spec_len2(v: Vec3Fx) -> int {
    v.x * v.x + v.y * v.y + v.z * v.z
}

/// Componentwise difference. Meaningful when the true differences fit in
/// `i64`, which the executable wrappers require.
pub open spec fn spec_sub(a: Vec3Fx, b: Vec3Fx) -> Vec3Fx {
    Vec3Fx { x: (a.x - b.x) as i64, y: (a.y - b.y) as i64, z: (a.z - b.z) as i64 }
}

/// Componentwise sum. Meaningful when the true sums fit in `i64`.
pub open spec fn spec_add(a: Vec3Fx, b: Vec3Fx) -> Vec3Fx {
    Vec3Fx { x: (a.x + b.x) as i64, y: (a.y + b.y) as i64, z: (a.z + b.z) as i64 }
}

pub fn vec3_sub(a: Vec3Fx, b: Vec3Fx) -> (r: Vec3Fx)
    requires
        a.in_range(COORD_LIMIT as int),
        b.in_range(COORD_LIMIT as int),
    ensures
        r == spec_sub(a, b),
        r.in_range(2 * COORD_LIMIT as int),
{
    Vec3Fx { x: a.x - b.x, y: a.y - b.y, z: a.z - b.z }
}

/// `r` is the floor of the square root of `n`.
pub open spec fn is_sqrt_floor(n: int, r: int) -> bool {
    &&& 0 <= r
    &&& r * r <= n
    &&& n < (r + 1) * (r + 1)
}

/// The floor of the square root of a non-negative integer.
pub open spec fn sqrt_floor(n: int) -> int {
    choose|r: int| is_sqrt_floor(n, r)
}

pub proof fn lemma_sqrt_floor_exists(n: int)
    requires
        n >= 0,
    ensures
        is_sqrt_floor(n, sqrt_floor(n)),
    decreases n,
{
    if n == 0 {
        assert(is_sqrt_floor(0, 0));
    } else {
        lemma_sqrt_floor_exists(n - 1);
        let r0 = sqrt_floor(n - 1);
        if (r0 + 1) * (r0 + 1) <= n {
            // n - 1 < (r0 + 1) * (r0 + 1) <= n forces n == (r0 + 1) * (r0 + 1).
            assert(n == (r0 + 1) * (r0 + 1));
            assert((r0 + 1 + 1) * (r0 + 1 + 1) > n) by (nonlinear_arith)
                requires n == (r0 + 1) * (r0 + 1) && r0 >= 0;
            assert(is_sqrt_floor(n, r0 + 1));
        } else {
            assert(is_sqrt_floor(n, r0));
        }
    }
}

pub proof fn lemma_sqrt_floor_unique(n: int, r1: int, r2: int)
    requires
        is_sqrt_floor(n, r1),
        is_sqrt_floor(n, r2),
    ensures
        r1 == r2,
{
    if r1 < r2 {
        assert((r1 + 1) * (r1 + 1) <= r2 * r2) by (nonlinear_arith)
            requires 0 <= r1 && r1 < r2;
    }
    if r2 < r1 {
        assert((r2 + 1) * (r2 + 1) <= r1 * r1) by (nonlinear_arith)
            requires 0 <= r2 && r2 < r1;
    }
}

/// The magnitude `|c| * target / len` with the sign of `c` reapplied.
pub open spec fn spec_scaled_mag(c: int, target: int, len: int) -> int {
    if c >= 0 {
        (c * target) / len
    } else {
        -(((-c) * target) / len)
    }
}

/// `v` rescaled so that its Euclidean length is about `target` (exact up to
/// the rounding of the integer square root and divisions). The zero vector
/// stays zero.
pub open spec fn spec_normalize(v: Vec3Fx, target: int) -> Vec3Fx {
    if spec_len2(v) == 0 {
        Vec3Fx::spec_zero()
    } else {
        let len = sqrt_floor(spec_len2(v));
        Vec3Fx {
            x: spec_scaled_mag(v.x as int, target, len) as i64,
            y: spec_scaled_mag(v.y as int, target, len) as i64,
            z: spec_scaled_mag(v.z as int, target, len) as i64,
        }
    }
}

/// Squared Euclidean distance between two points.
pub open spec fn spec_dist2(a: Vec3Fx, b: Vec3Fx) -> int {
    spec_len2(spec_sub(a, b))
}

/// Integer square root by binary search.
pub fn isqrt(n: u64) -> (r: u64)
    ensures
        is_sqrt_floor(n as int, r as int),
        r as int == sqrt_floor(n as int),
{
    let nn: u128 = n as u128;
    let mut lo: u128 = 0;
    let mut hi: u128 = 0x1_0000_0000;
    assert(hi * hi == 0x1_0000_0000_0000_0000) by (nonlinear_arith)
        requires hi == 0x1_0000_0000;
    while hi - lo > 1
        invariant
            lo < hi <= 0x1_0000_0000,
            lo * lo <= nn,
            nn < hi * hi,
        decreases hi - lo,
    {
        let mid = lo + (hi - lo) / 2;
        assert(lo < mid < hi);
        assert(mid * mid < 0x1_0000_0000_0000_0000_0000_0000) by (nonlinear_arith)
            requires mid < 0x1_0000_0000_0000;
        if mid * mid <= nn {
            lo = mid;
        } else {
            hi = mid;
        }
    }
    assert(hi == lo + 1);
    proof {
        lemma_sqrt_floor_exists(n as int);
        lemma_sqrt_floor_unique(n as int, lo as int, sqrt_floor(n as int));
    }
    lo as u64
}

/// The magnitude of one coordinate, as `u64`.
fn coord_abs(c: i64) -> (r: u64)
    requires
        -2 * COORD_LIMIT as int <= c <= 2 * COORD_LIMIT as int,
    ensures
        r == if c >= 0 { c as int } else { -c as int },
        r <= 2 * COORD_LIMIT as int,
{
    if c >= 0 {
        c as u64
    } else {
        (-c) as u64
    }
}

/// Rescales `v` to Euclidean length about `target`, rounding towards zero.
pub fn normalize_to(v: Vec3Fx, target: i64) -> (r: Vec3Fx)
    requires
        v.in_range(2 * COORD_LIMIT as int),
        0 <= target <= 100_000,
    ensures
        r == spec_normalize(v, target as int),
        r.in_range(target as int),
{
    let ax = coord_abs(v.x);
    let ay = coord_abs(v.y);
    let az = coord_abs(v.z);
    proof {
        assert(ax * ax == v.x * v.x && ay * ay == v.y * v.y && az * az == v.z * v.z)
            by (nonlinear_arith)
            requires
                ax == if v.x >= 0 { v.x as int } else { -v.x as int },
                ay == if v.y >= 0 { v.y as int } else { -v.y as int },
                az == if v.z >= 0 { v.z as int } else { -v.z as int };
        assert(ax * ax <= 4_000_000_000_000_000_000 && ay * ay <= 4_000_000_000_000_000_000
            && az * az <= 4_000_000_000_000_000_000) by (nonlinear_arith)
            requires
                0 <= ax <= 2_000_000_000,
                0 <= ay <= 2_000_000_000,
                0 <= az <= 2_000_000_000;
    }
    let len2 = ax * ax + ay * ay + az * az;
    if len2 == 0 {
        return Vec3Fx { x: 0, y: 0, z: 0 };
    }
    let len = isqrt(len2);
    proof {
        if len == 0 {
            assert(len2 < (0 + 1) * (0 + 1));
        }
    }
    proof {
        assert(ax * target <= 2_000_000_000 * 100_000 && ay * target <= 2_000_000_000 * 100_000
            && az * target <= 2_000_000_000 * 100_000) by (nonlinear_arith)
            requires
                0 <= ax <= 2_000_000_000,
                0 <= ay <= 2_000_000_000,
                0 <= az <= 2_000_000_000,
                0 <= target <= 100_000;
    }
    let mx = ax * (target as u64) / len;
    let my = ay * (target as u64) / len;
    let mz = az * (target as u64) / len;
    proof {
        lemma_scaled_coord_bound(ax as int, target as int, len as int, len2 as int);
        lemma_scaled_coord_bound(ay as int, target as int, len as int, len2 as int);
        lemma_scaled_coord_bound(az as int, target as int, len as int, len2 as int);
    }
    Vec3Fx {
        x: if v.x >= 0 { mx as i64 } else { -(mx as i64) },
        y: if v.y >= 0 { my as i64 } else { -(my as i64) },
        z: if v.z >= 0 { mz as i64 } else { -(mz as i64) },
    }
}

/// A coordinate's square never exceeds the squared length, so the rescaled
/// magnitude never exceeds the target.
proof fn lemma_scaled_coord_bound(a: int, target: int, len: int, len2: int)
    requires
        0 <= a,
        0 <= target,
        1 <= len,
        a * a <= len2,
        len2 < (len + 1) * (len + 1),
    ensures
        (a * target) / len <= target,
{
    assert(a <= len) by (nonlinear_arith)
        requires 0 <= a && 1 <= len && a * a <= len2 && len2 < (len + 1) * (len + 1);
    assert(a * target <= len * target) by (nonlinear_arith)
        requires a <= len && 0 <= target;
    vstd::arithmetic::div_mod::lemma_multiply_divide_le(a * target, len, target);
}

/// Squared Euclidean distance.
pub fn dist2(a: Vec3Fx, b: Vec3Fx) -> (r: u64)
    requires
        a.in_range(COORD_LIMIT as int),
        b.in_range(COORD_LIMIT as int),
    ensures
        r == spec_dist2(a, b),
{
    let d = vec3_sub(a, b);
    let ax = coord_abs(d.x);
    let ay = coord_abs(d.y);
    let az = coord_abs(d.z);
    proof {
        assert(ax * ax == d.x * d.x && ay * ay == d.y * d.y && az * az == d.z * d.z)
            by (nonlinear_arith)
            requires
                ax == if d.x >= 0 { d.x as int } else { -d.x as int },
                ay == if d.y >= 0 { d.y as int } else { -d.y as int },
                az == if d.z >= 0 { d.z as int } else { -d.z as int };
        assert(ax * ax <= 4_000_000_000_000_000_000 && ay * ay <= 4_000_000_000_000_000_000
            && az * az <= 4_000_000_000_000_000_000) by (nonlinear_arith)
            requires
                0 <= ax <= 2_000_000_000,
                0 <= ay <= 2_000_000_000,
                0 <= az <= 2_000_000_000;
    }
    ax * ax + ay * ay + az * az
}

} // verus!
