//! Fixed-point plane geometry: points, squared distances, integer square
//! roots and bounded steps toward a target.

use vstd::prelude::*;
use vstd::arithmetic::div_mod::{lemma_div_is_ordered, lemma_div_by_multiple, lemma_div_pos_is_pos};

verus! {

/// Sub-units per world unit: every length in the library is a count of these.
pub const SCALE: i64 = 1000;

/// Largest magnitude of a coordinate that the arena holds.
pub const COORD_LIMIT: i64 = 1_000_000_000_000;

/// Magnitude of a unit direction vector.
pub const UNIT: i64 = 1000;

/// Upper bound (exclusive) of the integers whose square root `isqrt` takes.
pub const SQRT_DOMAIN: u128 = 19_342_813_113_834_066_795_298_816;

/// A point (or a vector) of the plane, in sub-units.
#[derive(Clone, Copy, Debug, PartialEq, Eq, Structural)]
pub struct Point {
    pub x: i64,
    pub y: i64,
}

pub open spec fn abs(a: int) -> int {
    if a >= 0 { a } else { -a }
}

/// `a` lies between the ends `p` and `q`, in either order.
pub open spec fn between(a: int, p: int, q: int) -> bool {
    (p <= a <= q) || (q <= a <= p)
}

/// `r` is the integer square root of `n`, rounded down.
pub open spec fn is_floor_sqrt(n: int, r: int) -> bool {
    0 <= r && r * r <= n < (r + 1) * (r + 1)
}

/// The integer square root of `n`, rounded down (meaningful for `n >= 0`).
pub open spec fn floor_sqrt(n: int) -> int {
    choose|r: int| is_floor_sqrt(n, r)
}

/// `a * m / r`, rounded toward zero.
pub open spec fn scale_toward_zero(a: int, m: int, r: int) -> int {
    if a >= 0 { a * m / r } else { -((-a) * m / r) }
}

impl Point {
    pub open spec fn in_bounds(self) -> bool {
        -COORD_LIMIT <= self.x <= COORD_LIMIT && -COORD_LIMIT <= self.y <= COORD_LIMIT
    }

    pub open spec fn is_zero(self) -> bool {
        self.x == 0 && self.y == 0
    }

    /// Each axis of a direction is at most `UNIT` long.
    pub open spec fn is_direction(self) -> bool {
        -UNIT <= self.x <= UNIT && -UNIT <= self.y <= UNIT
    }

    pub fn origin() -> (r: Point)
        ensures
            r.x == 0 && r.y == 0,
    {
        Point { x: 0, y: 0 }
    }

    pub fn new(x: i64, y: i64) -> (r: Point)
        ensures
            r.x == x && r.y == y,
    {
        Point { x, y }
    }
}

pub open spec fn clamp_coord(v: int) -> int {
    if v < -COORD_LIMIT { -COORD_LIMIT as int } else if v > COORD_LIMIT { COORD_LIMIT as int } else { v }
}

/// Clamps a wide coordinate into the arena.
pub fn clamp_wide(v: i128) -> (r: i64)
    ensures
        r == clamp_coord(v as int),
{
    if v < -(COORD_LIMIT as i128) {
        -COORD_LIMIT
    } else if v > COORD_LIMIT as i128 {
        COORD_LIMIT
    } else {
        v as i64
    }
}

/// Squared Euclidean distance of two points.
pub open spec fn dist_sq_spec(a: Point, b: Point) -> int {
    (a.x - b.x) * (a.x - b.x) + (a.y - b.y) * (a.y - b.y)
}

proof fn lemma_square_bound(d: int)
    requires
        -2 * COORD_LIMIT <= d <= 2 * COORD_LIMIT,
    ensures
        0 <= d * d <= 4 * COORD_LIMIT * COORD_LIMIT,
{
    assert(0 <= d * d <= 2_000_000_000_000 * 2_000_000_000_000) by (nonlinear_arith)
        requires -2_000_000_000_000 <= d <= 2_000_000_000_000;
}

/// Squared distances of arena points stay below `SQRT_DOMAIN`.
pub proof fn lemma_dist_sq_bound(a: Point, b: Point)
    requires
        a.in_bounds(),
        b.in_bounds(),
    ensures
        0 <= dist_sq_spec(a, b) <= 8_000_000_000_000_000_000_000_000,
        dist_sq_spec(a, b) < SQRT_DOMAIN,
{
    lemma_square_bound(a.x - b.x);
    lemma_square_bound(a.y - b.y);
}

/// Squared distance of two arena points; it always lies below `SQRT_DOMAIN`.
pub fn dist_sq(a: Point, b: Point) -> (r: u128)
    requires
        a.in_bounds(),
        b.in_bounds(),
    ensures
        r == dist_sq_spec(a, b),
        r < SQRT_DOMAIN,
{
    let dx: i128 = a.x as i128 - b.x as i128;
    let dy: i128 = a.y as i128 - b.y as i128;
    proof {
        lemma_square_bound(dx as int);
        lemma_square_bound(dy as int);
        lemma_dist_sq_bound(a, b);
    }
    (dx * dx + dy * dy) as u128
}

pub proof fn lemma_floor_sqrt_unique(n: int, a: int, b: int)
    requires
        is_floor_sqrt(n, a),
        is_floor_sqrt(n, b),
    ensures
        a == b,
{
    if a < b {
        assert((a + 1) * (a + 1) <= b * b) by (nonlinear_arith)
            requires 0 <= a, a + 1 <= b;
    } else if b < a {
        assert((b + 1) * (b + 1) <= a * a) by (nonlinear_arith)
            requires 0 <= b, b + 1 <= a;
    }
}

pub proof fn lemma_floor_sqrt_is(n: int, r: int)
    requires
        is_floor_sqrt(n, r),
    ensures
        floor_sqrt(n) == r,
{
    let s = floor_sqrt(n);
    assert(is_floor_sqrt(n, s));
    lemma_floor_sqrt_unique(n, r, s);
}

/// Integer square root, rounded down, by bisection.
pub fn isqrt(n: u128) -> (r: u64)
    requires
        n < SQRT_DOMAIN,
    ensures
        is_floor_sqrt(n as int, r as int),
        r == floor_sqrt(n as int),
{
    let mut lo: u128 = 0;
    let mut hi: u128 = 0x400_0000_0000;
    assert(hi * hi == 19_342_813_113_834_066_795_298_816) by (nonlinear_arith)
        requires hi == 0x400_0000_0000;
    while hi - lo > 1
        invariant
            lo < hi <= 0x400_0000_0000,
            lo * lo <= n,
            n < hi * hi,
        decreases hi - lo,
    {
        let mid: u128 = lo + (hi - lo) / 2;
        assert(mid * mid <= 0x400_0000_0000 * 0x400_0000_0000) by (nonlinear_arith)
            requires mid <= 0x400_0000_0000;
        if mid * mid <= n {
            lo = mid;
        } else {
            hi = mid;
        }
    }
    assert(hi == lo + 1);
    proof {
        lemma_floor_sqrt_is(n as int, lo as int);
    }
    lo as u64
}

/// The point reached from `from` by a step of at most `max` toward `to`.
pub open spec fn move_towards_spec(from: Point, to: Point, max: int) -> Point {
    let dx = to.x - from.x;
    let dy = to.y - from.y;
    let d2 = dist_sq_spec(from, to);
    if d2 <= max * max {
        to
    } else {
        let r = floor_sqrt(d2);
        Point {
            x: (from.x + scale_toward_zero(dx, max, r)) as i64,
            y: (from.y + scale_toward_zero(dy, max, r)) as i64,
        }
    }
}

proof fn lemma_scale_shrinks(a: int, m: int, r: int)
    requires
        0 <= m <= r,
        0 < r,
    ensures
        abs(scale_toward_zero(a, m, r)) <= abs(a),
        a >= 0 ==> 0 <= scale_toward_zero(a, m, r) <= a,
        a < 0 ==> a <= scale_toward_zero(a, m, r) <= 0,
{
    let b = abs(a);
    assert(0 <= b * m <= b * r) by (nonlinear_arith)
        requires 0 <= b, 0 <= m <= r;
    lemma_div_is_ordered(b * m, b * r, r);
    lemma_div_by_multiple(b, r);
    lemma_div_pos_is_pos(b * m, r);
}

proof fn lemma_step_not_past(a: int, s: int)
    requires
        (a >= 0 ==> 0 <= s <= a),
        (a < 0 ==> a <= s <= 0),
    ensures
        (a - s) * (a - s) <= a * a,
{
    assert((a - s) * (a - s) <= a * a) by (nonlinear_arith)
        requires (a >= 0 ==> 0 <= s <= a), (a < 0 ==> a <= s <= 0);
}

/// Where a seek step may land: between the start and the target on each axis,
/// and no farther from the target than the start was.
pub open spec fn seek_step_ok(from: Point, to: Point, p: Point) -> bool {
    &&& between(p.x as int, from.x as int, to.x as int)
    &&& between(p.y as int, from.y as int, to.y as int)
    &&& dist_sq_spec(p, to) <= dist_sq_spec(from, to)
}

/// A step toward a target never leaves the box spanned by the start and the
/// target, and never ends farther from the target than it began.
pub proof fn lemma_seek_stays_on_segment(from: Point, to: Point, max: int)
    requires
        from.in_bounds(),
        to.in_bounds(),
        0 <= max,
    ensures
        seek_step_ok(from, to, move_towards_spec(from, to, max)),
        move_towards_spec(from, to, max).in_bounds(),
{
    let d2 = dist_sq_spec(from, to);
    let dx = to.x - from.x;
    let dy = to.y - from.y;
    lemma_dist_sq_bound(from, to);
    if d2 > max * max {
        let r = floor_sqrt(d2);
        lemma_dist_sq_bound(from, to);
        lemma_root_exists(d2);
        assert(max <= r) by (nonlinear_arith)
            requires max * max < d2, d2 < (r + 1) * (r + 1), 0 <= r, 0 <= max;
        assert(0 < r) by (nonlinear_arith)
            requires max * max < d2, d2 < (r + 1) * (r + 1), 0 <= r, 0 <= max, max <= r;
        lemma_scale_shrinks(dx, max, r);
        lemma_scale_shrinks(dy, max, r);
        let sx = scale_toward_zero(dx, max, r);
        let sy = scale_toward_zero(dy, max, r);
        lemma_step_not_past(dx, sx);
        lemma_step_not_past(dy, sy);
        let p = move_towards_spec(from, to, max);
        assert(between(from.x + sx, from.x as int, to.x as int));
        assert(between(from.y + sy, from.y as int, to.y as int));
        assert(p.x == from.x + sx);
        assert(p.y == from.y + sy);
        assert(to.x - p.x == dx - sx);
        assert(to.y - p.y == dy - sy);
        assert((p.x - to.x) * (p.x - to.x) == (dx - sx) * (dx - sx)) by (nonlinear_arith)
            requires p.x - to.x == -(dx - sx);
        assert((p.y - to.y) * (p.y - to.y) == (dy - sy) * (dy - sy)) by (nonlinear_arith)
            requires p.y - to.y == -(dy - sy);
        assert(d2 == dx * dx + dy * dy) by (nonlinear_arith)
            requires d2 == dist_sq_spec(from, to), dx == to.x - from.x, dy == to.y - from.y;
        assert(dist_sq_spec(p, to) <= d2);
        assert(seek_step_ok(from, to, p));
    }
}

proof fn lemma_scaled_square(a: int, m: int, r: int)
    requires
        0 <= m <= r,
        0 < r,
    ensures
        scale_toward_zero(a, m, r) * scale_toward_zero(a, m, r) * (r * r) <= a * a * (m * m),
{
    let b = abs(a);
    let q = b * m / r;
    lemma_div_pos_is_pos(b * m, r);
    assert(0 <= b * m) by (nonlinear_arith) requires 0 <= b, 0 <= m;
    assert(q * r <= b * m) by {
        vstd::arithmetic::div_mod::lemma_fundamental_div_mod(b * m, r);
        assert((b * m) % r >= 0) by { vstd::arithmetic::div_mod::lemma_mod_pos_bound(b * m, r); }
    }
    assert(q * q * (r * r) <= b * b * (m * m)) by (nonlinear_arith)
        requires 0 <= q, 0 <= q * r, q * r <= b * m, 0 < r;
    assert(b * b == a * a) by (nonlinear_arith) requires b == abs(a);
    let s = scale_toward_zero(a, m, r);
    assert(s * s == q * q) by (nonlinear_arith) requires s == q || s == -q;
}

/// The length of a seek step: exactly the distance when the target is within
/// reach, and otherwise less than `max + 1` (the step rounds toward the start).
pub proof fn lemma_seek_step_length(from: Point, to: Point, max: int)
    requires
        from.in_bounds(),
        to.in_bounds(),
        0 <= max,
    ensures
        dist_sq_spec(from, to) <= max * max ==> dist_sq_spec(from, move_towards_spec(from, to, max)) == dist_sq_spec(from, to),
        dist_sq_spec(from, to) > max * max ==> dist_sq_spec(from, move_towards_spec(from, to, max)) < (max + 1) * (max + 1),
{
    let d2 = dist_sq_spec(from, to);
    lemma_dist_sq_bound(from, to);
    lemma_seek_stays_on_segment(from, to, max);
    if d2 > max * max {
        let r = floor_sqrt(d2);
        lemma_root_exists(d2);
        assert(max <= r) by (nonlinear_arith)
            requires max * max < d2, d2 < (r + 1) * (r + 1), 0 <= r, 0 <= max;
        assert(0 < r) by (nonlinear_arith)
            requires max * max < d2, d2 < (r + 1) * (r + 1), 0 <= r, 0 <= max, max <= r;
        let dx = to.x - from.x;
        let dy = to.y - from.y;
        let sx = scale_toward_zero(dx, max, r);
        let sy = scale_toward_zero(dy, max, r);
        lemma_scale_shrinks(dx, max, r);
        lemma_scale_shrinks(dy, max, r);
        lemma_scaled_square(dx, max, r);
        lemma_scaled_square(dy, max, r);
        let p = move_towards_spec(from, to, max);
        assert(between(from.x + sx, from.x as int, to.x as int));
        assert(between(from.y + sy, from.y as int, to.y as int));
        assert(p.x == from.x + sx && p.y == from.y + sy);
        assert(dist_sq_spec(from, p) == sx * sx + sy * sy) by (nonlinear_arith)
            requires p.x - from.x == sx, p.y - from.y == sy, dist_sq_spec(from, p) == (from.x - p.x) * (from.x - p.x) + (from.y - p.y) * (from.y - p.y);
        assert(d2 == dx * dx + dy * dy) by (nonlinear_arith)
            requires d2 == dist_sq_spec(from, to), dx == to.x - from.x, dy == to.y - from.y,
                dist_sq_spec(from, to) == (from.x - to.x) * (from.x - to.x) + (from.y - to.y) * (from.y - to.y);
        assert((sx * sx + sy * sy) * (r * r) <= d2 * (max * max)) by (nonlinear_arith)
            requires sx * sx * (r * r) <= dx * dx * (max * max), sy * sy * (r * r) <= dy * dy * (max * max), d2 == dx * dx + dy * dy;
        assert(d2 * (max * max) < (r + 1) * (r + 1) * (max * max) || max == 0) by (nonlinear_arith)
            requires d2 < (r + 1) * (r + 1), 0 <= max;
        assert((r + 1) * max <= r * (max + 1)) by (nonlinear_arith) requires max <= r, 0 <= max;
        assert((r + 1) * (r + 1) * (max * max) <= (r * r) * ((max + 1) * (max + 1))) by (nonlinear_arith)
            requires (r + 1) * max <= r * (max + 1), 0 <= max, 0 < r;
        assert(sx * sx + sy * sy < (max + 1) * (max + 1)) by (nonlinear_arith)
            requires (sx * sx + sy * sy) * (r * r) <= d2 * (max * max),
                d2 * (max * max) < (r + 1) * (r + 1) * (max * max) || max == 0,
                (r + 1) * (r + 1) * (max * max) <= (r * r) * ((max + 1) * (max + 1)),
                0 < r, max == 0 ==> sx == 0 && sy == 0;
    }
}

/// Every non-negative integer below `SQRT_DOMAIN` has a floor square root.
proof fn lemma_root_exists(n: int)
    requires
        0 <= n < SQRT_DOMAIN,
    ensures
        is_floor_sqrt(n, floor_sqrt(n)),
{
    let r = isqrt_witness(n);
    assert(is_floor_sqrt(n, r));
}

proof fn isqrt_witness(n: int) -> (r: int)
    requires
        0 <= n,
    ensures
        is_floor_sqrt(n, r),
    decreases n,
{
    if n == 0 {
        0
    } else {
        let p = isqrt_witness(n - 1);
        if (p + 1) * (p + 1) <= n {
            assert(n < (p + 2) * (p + 2)) by (nonlinear_arith)
                requires n - 1 < (p + 1) * (p + 1), 0 <= p;
            assert(is_floor_sqrt(n, p + 1));
            p + 1
        } else {
            assert(p * p <= n);
            assert(is_floor_sqrt(n, p));
            p
        }
    }
}

/// Moves `from` toward `to` by at most `max_distance`, landing exactly on
/// `to` when it is that close.
pub fn move_towards(from: Point, to: Point, max_distance: i64) -> (r: Point)
    requires
        from.in_bounds(),
        to.in_bounds(),
        0 <= max_distance,
    ensures
        r == move_towards_spec(from, to, max_distance as int),
        r.in_bounds(),
        seek_step_ok(from, to, r),
{
    proof {
        lemma_seek_stays_on_segment(from, to, max_distance as int);
    }
    let d2 = dist_sq(from, to);
    let m: i128 = max_distance as i128;
    assert(m * m <= 0x7fff_ffff_ffff_ffff * 0x7fff_ffff_ffff_ffff) by (nonlinear_arith)
        requires 0 <= m <= 0x7fff_ffff_ffff_ffff;
    if (d2 as i128) <= m * m {
        return to;
    }
    let r = isqrt(d2);
    assert(m <= r) by (nonlinear_arith)
        requires m * m < d2, d2 < (r + 1) * (r + 1), 0 <= r, 0 <= m;
    assert(r < 0x400_0000_0000) by (nonlinear_arith)
        requires r * r <= d2, d2 < 19_342_813_113_834_066_795_298_816, 0 <= r;
    assert(0 < r) by (nonlinear_arith)
        requires m * m < d2, d2 < (r + 1) * (r + 1), 0 <= r, 0 <= m, m <= r;
    let dx: i128 = to.x as i128 - from.x as i128;
    let dy: i128 = to.y as i128 - from.y as i128;
    let sx = scale_div(dx, m, r as i128);
    let sy = scale_div(dy, m, r as i128);
    proof {
        lemma_scale_shrinks(dx as int, m as int, r as int);
        lemma_scale_shrinks(dy as int, m as int, r as int);
    }
    Point { x: (from.x as i128 + sx) as i64, y: (from.y as i128 + sy) as i64 }
}

/// `a * m / r` rounded toward zero.
pub fn scale_div(a: i128, m: i128, r: i128) -> (s: i128)
    requires
        -0x4000_0000_0000_0000 <= a <= 0x4000_0000_0000_0000,
        0 <= m <= 0x4000_0000_0000_0000,
        0 < r,
    ensures
        s == scale_toward_zero(a as int, m as int, r as int),
{
    let b: i128 = if a >= 0 { a } else { -a };
    assert(0 <= b * m <= 0x4000_0000_0000_0000 * 0x4000_0000_0000_0000) by (nonlinear_arith)
        requires 0 <= b <= 0x4000_0000_0000_0000, 0 <= m <= 0x4000_0000_0000_0000;
    proof { lemma_div_pos_is_pos(b * m, r as int); }
    let q: i128 = b * m / r;
    if a >= 0 { q } else { -q }
}

/// The direction of `(dx, dy)` scaled to length `UNIT` (rounded toward zero
/// on each axis), or zero for the zero vector.
pub open spec fn normalize_spec(dx: int, dy: int) -> Point {
    if dx == 0 && dy == 0 {
        Point { x: 0, y: 0 }
    } else {
        let r = floor_sqrt(dx * dx + dy * dy);
        Point { x: scale_toward_zero(dx, UNIT as int, r) as i64, y: scale_toward_zero(dy, UNIT as int, r) as i64 }
    }
}

proof fn lemma_component_le_root(a: int, b: int, r: int)
    requires
        is_floor_sqrt(a * a + b * b, r),
    ensures
        abs(a) <= r,
{
    assert(abs(a) * abs(a) == a * a) by (nonlinear_arith);
    assert(0 <= b * b) by (nonlinear_arith);
    if abs(a) > r {
        assert((r + 1) * (r + 1) <= abs(a) * abs(a)) by (nonlinear_arith)
            requires abs(a) >= r + 1, r >= 0;
    }
}

/// The longer axis of a non-zero vector keeps a non-zero component once
/// scaled to a direction.
proof fn lemma_major_axis_survives(a: int, b: int, r: int)
    requires
        is_floor_sqrt(a * a + b * b, r),
        abs(a) >= abs(b),
        a != 0,
        0 < r,
    ensures
        scale_toward_zero(a, UNIT as int, r) != 0,
{
    let m = abs(a);
    let k = abs(b);
    assert(m * m == a * a) by (nonlinear_arith) requires m == abs(a);
    assert(k * k == b * b) by (nonlinear_arith) requires k == abs(b);
    assert(k * k <= m * m) by (nonlinear_arith) requires 0 <= k <= m;
    assert(r <= 1000 * m) by (nonlinear_arith)
        requires r * r <= m * m + k * k, k * k <= m * m, m >= 1, r > 0;
    lemma_div_is_ordered(r, m * 1000, r);
    lemma_div_by_multiple(1, r);
    assert(1 * r == r);
}

/// Scales a vector between two arena points to a direction; a non-zero
/// vector gives a non-zero direction.
pub fn normalize_or_zero(dx: i64, dy: i64) -> (r: Point)
    requires
        -2 * COORD_LIMIT <= dx <= 2 * COORD_LIMIT,
        -2 * COORD_LIMIT <= dy <= 2 * COORD_LIMIT,
    ensures
        r == normalize_spec(dx as int, dy as int),
        r.is_direction(),
        !(dx == 0 && dy == 0) ==> !r.is_zero(),
{
    if dx == 0 && dy == 0 {
        return Point { x: 0, y: 0 };
    }
    let ax: i128 = dx as i128;
    let ay: i128 = dy as i128;
    proof {
        lemma_square_bound(dx as int);
        lemma_square_bound(dy as int);
    }
    let n: u128 = (ax * ax + ay * ay) as u128;
    let root = isqrt(n);
    proof {
        lemma_component_le_root(dx as int, dy as int, root as int);
        lemma_component_le_root(dy as int, dx as int, root as int);
        assert(dy * dy + dx * dx == dx * dx + dy * dy);
        assert(0 < root) by (nonlinear_arith)
            requires n == dx * dx + dy * dy, !(dx == 0 && dy == 0), n < (root + 1) * (root + 1), 0 <= root;
    }
    let sx = scale_div(ax, UNIT as i128, root as i128);
    let sy = scale_div(ay, UNIT as i128, root as i128);
    proof {
        lemma_unit_scale_bound(dx as int, root as int);
        lemma_unit_scale_bound(dy as int, root as int);
        if abs(dx as int) >= abs(dy as int) {
            lemma_major_axis_survives(dx as int, dy as int, root as int);
        } else {
            lemma_major_axis_survives(dy as int, dx as int, root as int);
        }
    }
    Point { x: sx as i64, y: sy as i64 }
}

proof fn lemma_unit_scale_bound(a: int, r: int)
    requires
        abs(a) <= r,
        0 < r,
    ensures
        abs(scale_toward_zero(a, UNIT as int, r)) <= UNIT,
        scale_toward_zero(a, UNIT as int, r) == scale_toward_zero(a, 1000, r),
{
    let b = abs(a);
    assert(0 <= b * 1000 <= r * 1000) by (nonlinear_arith) requires 0 <= b <= r;
    lemma_div_is_ordered(b * 1000, r * 1000, r);
    assert(r * 1000 == 1000 * r);
    lemma_div_by_multiple(1000, r);
    lemma_div_pos_is_pos(b * 1000, r);
}

} // verus!
