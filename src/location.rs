//! Points in the arena, held in fixed point, and the exact geometry on them.
use crate::dice::roll_between;
use vstd::arithmetic::div_mod::{
    lemma_div_by_multiple, lemma_div_is_ordered, lemma_div_pos_is_pos, lemma_fundamental_div_mod,
    lemma_mod_bound,
};
use rand::rngs::ThreadRng;
use vstd::prelude::*;

verus! {

/// Steps of a coordinate in one unit of distance.
pub const UNIT: i32 = 1000;

/// The largest coordinate, in units, that a random placement picks.
pub const ARENA_SIZE: i32 = 60;

/// A point in space; each coordinate counts steps of `1 / UNIT` of a unit.
#[derive(Debug, Clone, Copy, PartialEq, Eq, Structural)]
pub struct Location {
    pub x: i32,
    pub y: i32,
    pub z: i32,
}

pub open spec fn square(v: int) -> int {
    v * v
}

/// The squared Euclidean distance between two points, in steps squared.
pub open spec fn sq_dist(a: Location, b: Location) -> int {
    square(a.x - b.x) + square(a.y - b.y) + square(a.z - b.z)
}

/// The largest natural number whose square is at most `n`.
pub open spec fn floor_sqrt(n: nat) -> nat
    decreases n,
{
    if n == 0 {
        0
    } else {
        let r = floor_sqrt((n - 1) as nat);
        if (r + 1) * (r + 1) <= n {
            r + 1
        } else {
            r
        }
    }
}

/// The Euclidean distance between two points in steps, rounded down.
pub open spec fn distance_spec(a: Location, b: Location) -> nat {
    floor_sqrt(sq_dist(a, b) as nat)
}

/// Whether `b` lies within `reach` units of `a` (the boundary included).
pub open spec fn within_spec(a: Location, b: Location, reach: int) -> bool {
    reach >= 0 && sq_dist(a, b) <= square(reach * UNIT)
}

/// Integer division that rounds toward zero, for a positive divisor.
pub open spec fn toward_zero_div(a: int, b: int) -> int {
    if a >= 0 {
        a / b
    } else {
        -((-a) / b)
    }
}

/// `v`, held to the range of `i32`.
pub open spec fn clamp_i32(v: int) -> i32 {
    if v < i32::MIN {
        i32::MIN
    } else if v > i32::MAX {
        i32::MAX
    } else {
        v as i32
    }
}

/// Where a mover at `from` ends up after one step of `speed` units towards
/// `target`: it stays where it is when the target is within one step (or at
/// the same point); otherwise it advances `speed` units along the line in the
/// x-y plane, each offset rounded toward zero. Height never changes.
pub open spec fn step_spec(from: Location, target: Location, speed: int) -> Location {
    if sq_dist(from, target) == 0 || within_spec(from, target, speed) {
        from
    } else {
        let d = distance_spec(from, target) as int;
        let v = speed * UNIT;
        Location {
            x: clamp_i32(from.x + toward_zero_div((target.x - from.x) * v, d)),
            y: clamp_i32(from.y + toward_zero_div((target.y - from.y) * v, d)),
            z: from.z,
        }
    }
}

proof fn lemma_square_monotonic(a: int, b: int)
    requires
        0 <= a <= b,
    ensures
        a * a <= b * b,
{
    assert(a * a <= b * b) by (nonlinear_arith)
        requires
            0 <= a <= b,
    ;
}

pub proof fn lemma_floor_sqrt(n: nat)
    ensures
        floor_sqrt(n) * floor_sqrt(n) <= n,
        n < (floor_sqrt(n) + 1) * (floor_sqrt(n) + 1),
    decreases n,
{
    if n == 0 {
        assert(floor_sqrt(0) == 0);
        assert(0 < (0 + 1) * (0 + 1)) by (nonlinear_arith);
    } else {
        lemma_floor_sqrt((n - 1) as nat);
        let r = floor_sqrt((n - 1) as nat) as int;
        assert(r * r <= n - 1 && n - 1 < (r + 1) * (r + 1));
        if (r + 1) * (r + 1) <= n {
            assert(floor_sqrt(n) == r + 1);
            assert(n < (r + 2) * (r + 2)) by (nonlinear_arith)
                requires
                    r >= 0,
                    n - 1 < (r + 1) * (r + 1),
            ;
        } else {
            assert(floor_sqrt(n) == r);
        }
    }
}

pub proof fn lemma_floor_sqrt_unique(n: nat, r: nat)
    requires
        r * r <= n < (r + 1) * (r + 1),
    ensures
        floor_sqrt(n) == r,
{
    lemma_floor_sqrt(n);
    let s = floor_sqrt(n);
    if s < r {
        lemma_square_monotonic(s + 1int, r as int);
    }
    if s > r {
        lemma_square_monotonic(r + 1int, s as int);
    }
}

/// The distance from a point to itself is zero, and the distance between two
/// points does not depend on which one it is measured from.
pub proof fn lemma_distance_laws(a: Location, b: Location)
    ensures
        distance_spec(a, a) == 0,
        sq_dist(a, b) == sq_dist(b, a),
        distance_spec(a, b) == distance_spec(b, a),
{
    assert(floor_sqrt(0) == 0);
    assert forall|u: int, w: int| #[trigger] square(u - w) == square(w - u) by {
        assert((u - w) * (u - w) == (w - u) * (w - u)) by (nonlinear_arith);
    }
    assert(sq_dist(a, a) == 0);
}

/// `m` lies on the segment from `a` to `b`.
pub open spec fn between(a: int, m: int, b: int) -> bool {
    (a <= m <= b) || (b <= m <= a)
}

proof fn lemma_offset_within(delta: int, v: int, d: int)
    requires
        0 <= v <= d,
        delta * delta < (d + 1) * (d + 1),
        d > 0,
    ensures
        between(0, toward_zero_div(delta * v, d), delta),
{
    let m = if delta >= 0 { delta } else { -delta };
    assert(m * m == delta * delta) by (nonlinear_arith)
        requires
            m == delta || m == -delta,
    ;
    assert(m <= d) by (nonlinear_arith)
        requires
            m >= 0,
            d >= 0,
            m * m < (d + 1) * (d + 1),
    ;
    assert(0 <= m * v <= m * d) by (nonlinear_arith)
        requires
            0 <= m <= d,
            0 <= v <= d,
    ;
    assert(0 <= (m * v) / d <= m) by (nonlinear_arith)
        requires
            0 <= m * v <= m * d,
            d > 0,
            m >= 0,
    ;
    if delta >= 0 {
        assert(delta * v == m * v);
    } else {
        assert(-(delta * v) == m * v) by (nonlinear_arith)
            requires
                m == -delta,
        ;
    }
}

/// A step of a non-negative speed never passes the target: each coordinate of
/// the new point lies between the old one and the target's, height is kept, and
/// a mover already within one step of the target does not move.
pub proof fn lemma_step_approaches(from: Location, target: Location, speed: int)
    requires
        speed >= 0,
    ensures
        step_spec(from, target, speed).z == from.z,
        within_spec(from, target, speed) ==> step_spec(from, target, speed) == from,
        between(from.x as int, step_spec(from, target, speed).x as int, target.x as int),
        between(from.y as int, step_spec(from, target, speed).y as int, target.y as int),
{
    let n = sq_dist(from, target);
    if !(n == 0 || within_spec(from, target, speed)) {
        let d = distance_spec(from, target) as int;
        let v = speed * UNIT;
        lemma_floor_sqrt(n as nat);
        assert(v * v < n);
        assert(v <= d) by (nonlinear_arith)
            requires
                v >= 0,
                d >= 0,
                v * v < n,
                n < (d + 1) * (d + 1),
        ;
        assert(d > 0) by (nonlinear_arith)
            requires
                d >= 0,
                n > 0,
                n < (d + 1) * (d + 1),
        ;
        let dx = target.x - from.x;
        let dy = target.y - from.y;
        let dz = target.z - from.z;
        assert(n == dx * dx + dy * dy + dz * dz) by (nonlinear_arith)
            requires
                n == sq_dist(from, target),
                dx == target.x - from.x,
                dy == target.y - from.y,
                dz == target.z - from.z,
        ;
        assert(0 <= dx * dx && 0 <= dy * dy && 0 <= dz * dz) by (nonlinear_arith);
        lemma_offset_within(dx, v, d);
        lemma_offset_within(dy, v, d);
    }
}

/// One axis of a step: an offset `m` (taken positive) shrinks by `m * v / d`,
/// rounded down, and what is left, times `d`, is `m * (d - v)` plus the
/// remainder of that division.
proof fn lemma_axis(m: int, v: int, d: int)
    requires
        0 <= m,
        0 <= v <= d,
        d > 0,
    ensures
        0 <= (m * v) / d <= m,
        0 <= (m * v) % d < d,
        d * (m - (m * v) / d) == m * (d - v) + (m * v) % d,
{
    let p = m * v;
    lemma_fundamental_div_mod(p, d);
    lemma_mod_bound(p, d);
    assert(0 <= p <= m * d) by (nonlinear_arith)
        requires
            p == m * v,
            0 <= m,
            0 <= v <= d,
    ;
    lemma_div_pos_is_pos(p, d);
    lemma_div_is_ordered(p, m * d, d);
    lemma_div_by_multiple(m, d);
    let q = p / d;
    let r = p % d;
    assert(d * (m - q) == m * (d - v) + r) by (nonlinear_arith)
        requires
            p == m * v,
            p == d * q + r,
    ;
}

/// The offset from the target to the mover after one step, on one axis, when
/// the offset from the mover to the target was `delta`: its size shrinks from
/// `|delta|` by `|delta| * v / d`.
proof fn lemma_axis_after_step(delta: int, v: int, d: int)
    requires
        0 <= v <= d,
        d > 0,
    ensures
        ({
            let m = if delta >= 0 { delta } else { -delta };
            square(delta - toward_zero_div(delta * v, d)) == square(m - (m * v) / d)
        }),
{
    if delta < 0 {
        assert(-(delta * v) == (-delta) * v) by (nonlinear_arith);
        let q = ((-delta) * v) / d;
        assert(square(delta + q) == square(-delta - q)) by (nonlinear_arith);
    }
}

proof fn lemma_floor_sqrt_between(big: nat, w: int)
    requires
        w >= 0,
        w * w <= big,
        big < (w + 3) * (w + 3),
    ensures
        w <= floor_sqrt(big) <= w + 2,
{
    lemma_floor_sqrt(big);
    let s = floor_sqrt(big) as int;
    if s < w {
        lemma_square_monotonic(s + 1, w);
    }
    if s > w + 2 {
        lemma_square_monotonic(w + 3, s);
    }
}

/// On level ground a step of a non-negative speed that does not already reach
/// the target brings the mover `speed` units closer: the new distance is the
/// old one less the speed, to within two location steps (both rounded down).
pub proof fn lemma_step_closes_distance(from: Location, target: Location, speed: int)
    requires
        speed >= 0,
        from.z == target.z,
        !within_spec(from, target, speed),
    ensures
        distance_spec(from, target) >= speed * UNIT,
        distance_spec(from, target) - speed * UNIT <= distance_spec(
            step_spec(from, target, speed),
            target,
        ),
        distance_spec(step_spec(from, target, speed), target) <= distance_spec(from, target)
            - speed * UNIT + 2,
{
    let n = sq_dist(from, target);
    let d = distance_spec(from, target) as int;
    let v = speed * UNIT;
    lemma_floor_sqrt(n as nat);
    assert(v * v < n);
    assert(n >= 0) by (nonlinear_arith)
        requires
            n == sq_dist(from, target),
    ;
    assert(v <= d) by (nonlinear_arith)
        requires
            v >= 0,
            d >= 0,
            v * v < n,
            n < (d + 1) * (d + 1),
    ;
    assert(d > 0) by (nonlinear_arith)
        requires
            d >= 0,
            n > 0,
            n < (d + 1) * (d + 1),
    ;
    let w = d - v;
    let dx = target.x - from.x;
    let dy = target.y - from.y;
    let mx = if dx >= 0 { dx } else { -dx };
    let my = if dy >= 0 { dy } else { -dy };
    assert(n == mx * mx + my * my) by (nonlinear_arith)
        requires
            n == sq_dist(from, target),
            from.z == target.z,
            dx == target.x - from.x,
            dy == target.y - from.y,
            mx == dx || mx == -dx,
            my == dy || my == -dy,
    ;
    lemma_step_approaches(from, target, speed);
    let next = step_spec(from, target, speed);
    lemma_axis(mx, v, d);
    lemma_axis(my, v, d);
    lemma_axis_after_step(dx, v, d);
    lemma_axis_after_step(dy, v, d);
    let qx = (mx * v) / d;
    let qy = (my * v) / d;
    let rx = (mx * v) % d;
    let ry = (my * v) % d;
    let ax = mx - qx;
    let ay = my - qy;
    assert(dx * dx < (d + 1) * (d + 1) && dy * dy < (d + 1) * (d + 1)) by (nonlinear_arith)
        requires
            n == mx * mx + my * my,
            n < (d + 1) * (d + 1),
            mx == dx || mx == -dx,
            my == dy || my == -dy,
    ;
    lemma_offset_within(dx, v, d);
    lemma_offset_within(dy, v, d);
    assert(next.x == from.x + toward_zero_div(dx * v, d));
    assert(next.y == from.y + toward_zero_div(dy * v, d));
    assert(square(next.x - target.x) == square(dx - toward_zero_div(dx * v, d))) by (
    nonlinear_arith)
        requires
            next.x == from.x + toward_zero_div(dx * v, d),
            dx == target.x - from.x,
    ;
    assert(square(next.y - target.y) == square(dy - toward_zero_div(dy * v, d))) by (
    nonlinear_arith)
        requires
            next.y == from.y + toward_zero_div(dy * v, d),
            dy == target.y - from.y,
    ;
    let big = sq_dist(next, target);
    assert(big == ax * ax + ay * ay);
    // below: the step, rounded toward zero, never covers more than `v`
    assert(d * d * big == (mx * w + rx) * (mx * w + rx) + (my * w + ry) * (my * w + ry))
        by (nonlinear_arith)
        requires
            big == ax * ax + ay * ay,
            d * ax == mx * w + rx,
            d * ay == my * w + ry,
    ;
    assert(d * d * big >= d * d * (w * w)) by (nonlinear_arith)
        requires
            d * d * big == (mx * w + rx) * (mx * w + rx) + (my * w + ry) * (my * w + ry),
            n == mx * mx + my * my,
            d * d <= n,
            0 <= mx,
            0 <= my,
            0 <= w,
            0 <= rx,
            0 <= ry,
    ;
    assert(w * w <= big) by (nonlinear_arith)
        requires
            d * d * big >= d * d * (w * w),
            d > 0,
    ;
    // above: the rounding loses less than one step on each axis
    assert(2 * (mx + my) <= 3 * d + 2) by (nonlinear_arith)
        requires
            n == mx * mx + my * my,
            n < (d + 1) * (d + 1),
            0 <= mx,
            0 <= my,
            d > 0,
    ;
    assert((d + 1) * (d + 1) == d * d + 2 * d + 1) by (nonlinear_arith);
    let cross = mx * rx + my * ry;
    assert((mx * w + rx) * (mx * w + rx) == (mx * mx) * (w * w) + 2 * w * (mx * rx) + rx * rx)
        by (nonlinear_arith);
    assert((my * w + ry) * (my * w + ry) == (my * my) * (w * w) + 2 * w * (my * ry) + ry * ry)
        by (nonlinear_arith);
    assert(n * (w * w) == (mx * mx) * (w * w) + (my * my) * (w * w)) by (nonlinear_arith)
        requires
            n == mx * mx + my * my,
    ;
    assert(2 * w * cross == 2 * w * (mx * rx) + 2 * w * (my * ry)) by (nonlinear_arith)
        requires
            cross == mx * rx + my * ry,
    ;
    assert(d * d * big == n * (w * w) + 2 * w * cross + (rx * rx + ry * ry));
    assert(cross <= (mx + my) * (d - 1)) by (nonlinear_arith)
        requires
            cross == mx * rx + my * ry,
            0 <= mx,
            0 <= my,
            0 <= rx <= d - 1,
            0 <= ry <= d - 1,
    ;
    assert(2 * w * cross <= w * (d - 1) * (3 * d + 2)) by (nonlinear_arith)
        requires
            cross <= (mx + my) * (d - 1),
            2 * (mx + my) <= 3 * d + 2,
            0 <= w,
            d >= 1,
    ;
    assert(rx * rx + ry * ry <= 2 * (d - 1) * (d - 1)) by (nonlinear_arith)
        requires
            0 <= rx <= d - 1,
            0 <= ry <= d - 1,
    ;
    assert(n * (w * w) <= (d * d + 2 * d) * (w * w)) by (nonlinear_arith)
        requires
            n <= d * d + 2 * d,
    ;
    assert(d * d * big <= (d * d + 2 * d) * (w * w) + w * (d - 1) * (3 * d + 2) + 2 * (d - 1) * (
    d - 1));
    assert(d * d * big < d * d * ((w + 3) * (w + 3))) by (nonlinear_arith)
        requires
            d * d * big <= (d * d + 2 * d) * (w * w) + w * (d - 1) * (3 * d + 2) + 2 * (d - 1) * (d
                - 1),
            0 <= w <= d,
            d > 0,
    ;
    assert(big < (w + 3) * (w + 3)) by (nonlinear_arith)
        requires
            d * d * big < d * d * ((w + 3) * (w + 3)),
            d > 0,
    ;
    lemma_floor_sqrt_between(big as nat, w);
}

/// The integer square root of `n`, rounded down.
fn isqrt(n: u128) -> (r: u64)
    requires
        n < 0x1_0000_0000_0000_0000_0,
    ensures
        r == floor_sqrt(n as nat),
{
    let mut lo: u128 = 0;
    let mut hi: u128 = 0x4_0000_0000;
    assert(hi * hi == 0x10_0000_0000_0000_0000);
    while hi - lo > 1
        invariant
            lo < hi <= 0x4_0000_0000,
            lo * lo <= n,
            n < hi * hi,
        decreases hi - lo,
    {
        let mid = lo + (hi - lo) / 2;
        assert(mid * mid <= 0x10_0000_0000_0000_0000) by (nonlinear_arith)
            requires
                mid <= 0x4_0000_0000,
        ;
        if mid * mid <= n {
            lo = mid;
        } else {
            hi = mid;
        }
    }
    proof {
        lemma_floor_sqrt_unique(n as nat, lo as nat);
    }
    lo as u64
}

/// `a / b` rounded toward zero.
fn div_toward_zero(a: i128, b: i128) -> (r: i128)
    requires
        b > 0,
        a > i128::MIN,
    ensures
        r == toward_zero_div(a as int, b as int),
{
    if a >= 0 {
        a / b
    } else {
        -((-a) / b)
    }
}

fn clamp_to_i32(v: i128) -> (r: i32)
    ensures
        r == clamp_i32(v as int),
{
    if v < i32::MIN as i128 {
        i32::MIN
    } else if v > i32::MAX as i128 {
        i32::MAX
    } else {
        v as i32
    }
}

proof fn lemma_square_bound(d: int)
    requires
        -0x1_0000_0000 <= d <= 0x1_0000_0000,
    ensures
        0 <= square(d) <= 0x1_0000_0000_0000_0000,
{
    assert(0 <= d * d <= 0x1_0000_0000_0000_0000) by (nonlinear_arith)
        requires
            -0x1_0000_0000 <= d <= 0x1_0000_0000,
    ;
}

impl Location {
    pub fn new(x: i32, y: i32, z: i32) -> (r: Location)
        ensures
            r == (Location { x, y, z }),
    {
        Location { x, y, z }
    }

    /// The squared distance to `target`, exactly.
    pub fn squared_distance(&self, target: &Location) -> (r: u128)
        ensures
            r == sq_dist(*self, *target),
            r < 0x4_0000_0000_0000_0000,
    {
        let dx = self.x as i128 - target.x as i128;
        let dy = self.y as i128 - target.y as i128;
        let dz = self.z as i128 - target.z as i128;
        proof {
            lemma_square_bound(dx as int);
            lemma_square_bound(dy as int);
            lemma_square_bound(dz as int);
        }
        (dx * dx + dy * dy + dz * dz) as u128
    }

    /// The distance to `target` in steps, rounded down.
    pub fn distance(&self, target: &Location) -> (r: u64)
        ensures
            r == distance_spec(*self, *target),
    {
        isqrt(self.squared_distance(target))
    }

    /// Whether `target` lies within `reach` units of this point.
    pub fn is_within(&self, target: &Location, reach: i32) -> (r: bool)
        ensures
            r == within_spec(*self, *target, reach as int),
    {
        if reach < 0 {
            return false;
        }
        let v = reach as i128 * 1000;
        proof {
            assert(0 <= v * v <= 0x4_0000_0000_0000_0000_0000) by (nonlinear_arith)
                requires
                    0 <= v <= 0x200_0000_0000,
            ;
        }
        (self.squared_distance(target) as i128) <= v * v
    }

    /// One step of `speed` units from this point towards `target`.
    pub fn step_towards(&self, target: &Location, speed: i32) -> (r: Location)
        ensures
            r == step_spec(*self, *target, speed as int),
    {
        let n = self.squared_distance(target);
        if n == 0 || self.is_within(target, speed) {
            return *self;
        }
        let d = isqrt(n);
        proof {
            lemma_floor_sqrt(n as nat);
            assert(d >= 1) by (nonlinear_arith)
                requires
                    n >= 1,
                    n < (d + 1) * (d + 1),
                    d >= 0,
            ;
        }
        let v = speed as i128 * 1000;
        let dx = target.x as i128 - self.x as i128;
        let dy = target.y as i128 - self.y as i128;
        proof {
            assert(-0x200_0000_0000_0000_0000 <= dx * v <= 0x200_0000_0000_0000_0000)
                by (nonlinear_arith)
                requires
                    -0x1_0000_0000 <= dx <= 0x1_0000_0000,
                    -0x200_0000_0000 <= v <= 0x200_0000_0000,
            ;
            assert(-0x200_0000_0000_0000_0000 <= dy * v <= 0x200_0000_0000_0000_0000)
                by (nonlinear_arith)
                requires
                    -0x1_0000_0000 <= dy <= 0x1_0000_0000,
                    -0x200_0000_0000 <= v <= 0x200_0000_0000,
            ;
        }
        let sx = div_toward_zero(dx * v, d as i128);
        let sy = div_toward_zero(dy * v, d as i128);
        Location {
            x: clamp_to_i32(self.x as i128 + sx),
            y: clamp_to_i32(self.y as i128 + sy),
            z: self.z,
        }
    }

    /// Places this point at a random whole-unit position in the arena's plane.
    pub fn randomize(&mut self, rng: &mut ThreadRng)
        ensures
            UNIT <= final(self).x <= ARENA_SIZE * UNIT,
            UNIT <= final(self).y <= ARENA_SIZE * UNIT,
            final(self).x % UNIT == 0,
            final(self).y % UNIT == 0,
            final(self).z == 0,
    {
        let roll_x = roll_between(rng, 1, ARENA_SIZE);
        let roll_y = roll_between(rng, 1, ARENA_SIZE);
        self.x = roll_x * UNIT;
        self.y = roll_y * UNIT;
        self.z = 0;
    }
}

} // verus!
