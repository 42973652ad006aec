//! Map geometry of the combat engine: integer world positions, fixed-point
//! directions, hit-box tests, the cone-of-attack test and movement with the
//! snap-back to the circular map boundary.
//!
//! Coordinates are integers and directions are unit vectors scaled by 1000,
//! so every test here is exact integer arithmetic.

use vstd::prelude::*;
use vstd::arithmetic::div_mod::{lemma_fundamental_div_mod, lemma_div_is_ordered};

use crate::isqrt::{is_isqrt, isqrt_u128, lemma_isqrt_is, spec_isqrt};

verus! {

/// The largest coordinate magnitude the engine works with; keeps every
/// intermediate product inside 128 bits.
pub const WORLD_MAX: i64 = 0x4000_0000;

/// Scale of the fixed-point unit vectors: 1000 stands for 1.0.
pub const DIR_ONE: i64 = 1000;

#[derive(Clone, Copy, Debug, PartialEq, Eq, Structural)]
pub struct Position {
    pub x: i64,
    pub y: i64,
}

/// A facing, as a unit vector scaled by [`DIR_ONE`].
#[derive(Clone, Copy, Debug, PartialEq, Eq, Structural)]
pub struct Direction {
    pub x: i64,
    pub y: i64,
}

impl DeepView for Position {
    type V = Position;

    open spec fn deep_view(&self) -> Position {
        *self
    }
}

impl DeepView for Direction {
    type V = Direction;

    open spec fn deep_view(&self) -> Direction {
        *self
    }
}

pub open spec fn sq(x: int) -> int {
    x * x
}

pub open spec fn in_world(p: Position) -> bool {
    -WORLD_MAX <= p.x <= WORLD_MAX && -WORLD_MAX <= p.y <= WORLD_MAX
}

pub open spec fn dir_valid(d: Direction) -> bool {
    -DIR_ONE <= d.x <= DIR_ONE && -DIR_ONE <= d.y <= DIR_ONE
}

/// Squared euclidean distance between two positions.
pub open spec fn dist_sq(a: Position, b: Position) -> int {
    sq(a.x - b.x) + sq(a.y - b.y)
}

/// Relies on rand's `Rng::gen_range` on the thread-local generator: a value
/// drawn from `lo..hi`. It panics only on an empty range, which the
/// precondition rules out; every outcome lies in the range.
#[verifier::external_body]
fn random_in_range(lo: i64, hi: i64) -> (r: i64)
    requires
        lo < hi,
    ensures
        lo <= r < hi,
{
    rand::Rng::gen_range(&mut rand::thread_rng(), lo..hi)
}

/// A uniformly random index below `n`, drawn through the range wrapper.
pub fn random_index_below(n: usize) -> (r: usize)
    requires
        0 < n <= 0x7fff_ffff_ffff_ffff,
    ensures
        r < n,
{
    let drawn = random_in_range(0, n as i64);
    drawn as usize
}

pub fn distance_squared(a: &Position, b: &Position) -> (r: u128)
    requires
        in_world(*a),
        in_world(*b),
    ensures
        r == dist_sq(*a, *b),
        r <= 0x8000_0000_0000_0000u128,
{
    let dx: i128 = (a.x as i128) - (b.x as i128);
    let dy: i128 = (a.y as i128) - (b.y as i128);
    proof {
        assert(dx * dx + dy * dy <= 0x8000_0000_0000_0000i128 && 0 <= dx * dx && 0 <= dy * dy)
            by (nonlinear_arith)
            requires
                -0x8000_0000 <= dx <= 0x8000_0000,
                -0x8000_0000 <= dy <= 0x8000_0000,
        ;
    }
    (dx * dx + dy * dy) as u128
}

/// Two circular hit boxes overlap when the distance of their centers is at
/// most the sum of their sizes.
pub fn hit_boxes_collide(center1: &Position, center2: &Position, size1: u64, size2: u64) -> (r:
    bool)
    requires
        in_world(*center1),
        in_world(*center2),
    ensures
        r == (dist_sq(*center1, *center2) <= sq(size1 + size2)),
{
    let d2: u128 = distance_squared(center1, center2);
    let s: u128 = (size1 as u128) + (size2 as u128);
    if s >= 0x1_0000_0000u128 {
        proof {
            assert(d2 < s * s) by (nonlinear_arith)
                requires
                    0 <= d2 < 0x1_0000_0000_0000_0000u128,
                    s >= 0x1_0000_0000u128,
            ;
        }
        true
    } else {
        proof {
            assert(s * s <= u128::MAX) by (nonlinear_arith)
                requires
                    0 <= s <= 0x1_0000_0000,
            ;
        }
        d2 <= s * s
    }
}

/// The hit-box test does not depend on the order of its two circles.
pub proof fn lemma_hit_boxes_symmetric(c1: Position, c2: Position, s1: int, s2: int)
    ensures
        (dist_sq(c1, c2) <= sq(s1 + s2)) == (dist_sq(c2, c1) <= sq(s2 + s1)),
{
    assert(sq(c1.x - c2.x) == sq(c2.x - c1.x)) by (nonlinear_arith);
    assert(sq(c1.y - c2.y) == sq(c2.y - c1.y)) by (nonlinear_arith);
}

/// Whether a hit box touches or crosses the edge of the rectangular world.
pub open spec fn spec_collision_with_edge(c: Position, size: int, w: int, h: int) -> bool {
    c.x + size >= w / 2 || c.x - size <= -(w / 2) || c.y + size >= h / 2 || c.y - size <= -(h / 2)
}

pub fn collision_with_edge(center: &Position, size: u64, width: u64, height: u64) -> (r: bool)
    requires
        in_world(*center),
        size <= WORLD_MAX as u64,
        width <= 2 * WORLD_MAX as u64,
        height <= 2 * WORLD_MAX as u64,
    ensures
        r == spec_collision_with_edge(*center, size as int, width as int, height as int),
{
    let half_w: i64 = (width / 2) as i64;
    let half_h: i64 = (height / 2) as i64;
    let s: i64 = size as i64;
    center.x + s >= half_w || center.x - s <= -half_w || center.y + s >= half_h || center.y - s
        <= -half_h
}

/// `v * m / d` with the quotient rounded toward zero, as the engine's
/// fixed-point scaling does it.
pub open spec fn scale_div(v: int, m: int, d: int) -> int {
    if v >= 0 {
        (v * m) / d
    } else {
        -(((-v) * m) / d)
    }
}

/// One movement component: `v * amount / 1000`, rounded toward zero.
fn scale_milli(value: i64, amount: u64) -> (r: i64)
    requires
        -DIR_ONE <= value <= DIR_ONE,
        amount <= WORLD_MAX as u64,
    ensures
        r == scale_div(value as int, amount as int, 1000),
        -(amount as int) <= r <= amount as int,
{
    let mag: u64 = if value >= 0 {
        value as u64
    } else {
        (-value) as u64
    };
    proof {
        assert(mag * amount <= 1000 * amount <= u128::MAX) by (nonlinear_arith)
            requires
                0 <= mag <= 1000,
                0 <= amount <= 0x4000_0000,
        ;
    }
    let m: u128 = (mag as u128) * (amount as u128) / 1000;
    proof {
        lemma_div_is_ordered((mag * amount) as int, (1000 * amount) as int, 1000);
        assert((1000 * (amount as int)) / 1000 == amount as int) by (nonlinear_arith)
            requires
                amount >= 0,
        ;
        lemma_fundamental_div_mod((mag * amount) as int, 1000);
        vstd::arithmetic::div_mod::lemma_mod_bound((mag * amount) as int, 1000);
    }
    let scaled: i64 = m as i64;
    if value >= 0 {
        scaled
    } else {
        -scaled
    }
}

/// `v * m / d` on a signed value, rounding toward zero.
fn signed_mul_div(v: i64, m: u64, d: u64) -> (r: i64)
    requires
        d > 0,
        -0x1_0000_0000 <= v <= 0x1_0000_0000,
        m <= WORLD_MAX as u64,
    ensures
        r == scale_div(v as int, m as int, d as int),
        0 <= r * (d as int) <= v * m || v * m <= r * (d as int) <= 0,
{
    let mag: u128 = if v >= 0 {
        v as u128
    } else {
        (-v) as u128
    };
    proof {
        assert(mag * m <= 0x1_0000_0000u128 * 0x4000_0000u128) by (nonlinear_arith)
            requires
                0 <= mag <= 0x1_0000_0000u128,
                0 <= m <= 0x4000_0000u128,
        ;
    }
    let q: u128 = mag * (m as u128) / (d as u128);
    proof {
        let x: int = (mag * m) as int;
        lemma_fundamental_div_mod(x, d as int);
        vstd::arithmetic::div_mod::lemma_mod_bound(x, d as int);
        assert(q == x / (d as int));
        assert((d as int) * (x / (d as int)) == (x / (d as int)) * (d as int)) by (nonlinear_arith);
        assert(q * (d as int) <= x);
        assert(0 <= q * (d as int)) by (nonlinear_arith)
            requires
                0 <= q,
                0 < d,
        ;
        assert(q <= x) by (nonlinear_arith)
            requires
                q * (d as int) <= x,
                d >= 1,
                q >= 0,
        ;
        if v >= 0 {
            assert(mag * m == v * m);
        } else {
            assert(mag == -v);
            assert(mag * m == -(v * m)) by (nonlinear_arith)
                requires
                    mag == -v,
            ;
            assert((-(q as int)) * (d as int) == -(q * (d as int))) by (nonlinear_arith);
        }
    }
    let qi: i64 = q as i64;
    if v >= 0 {
        qi
    } else {
        -qi
    }
}

/// The position reached from `pos` after moving `amount` units along `dir`,
/// before any boundary correction.
pub open spec fn spec_step(pos: Position, dir: Direction, amount: int) -> (int, int) {
    (pos.x + scale_div(dir.x as int, amount, 1000), pos.y + scale_div(dir.y as int, amount, 1000))
}

/// The point with coordinates `(nx, ny)` pulled back just inside the circle
/// of the given radius around the origin.
pub open spec fn spec_pulled_inside(nx: int, ny: int, radius: int) -> (int, int) {
    let len_up = spec_isqrt(sq(nx) + sq(ny)) + 1;
    (scale_div(nx, radius, len_up), scale_div(ny, radius, len_up))
}

/// Where a step of `amount` units along `dir` ends: the stepped point, or
/// that point pulled back inside the map circle when it left it.
pub open spec fn spec_next_position(pos: Position, dir: Direction, amount: int, radius: int) -> (
    int,
    int,
) {
    let (nx, ny) = spec_step(pos, dir, amount);
    if sq(nx) + sq(ny) <= sq(radius) {
        (nx, ny)
    } else {
        spec_pulled_inside(nx, ny, radius)
    }
}

/// Moves `amount` units along `dir`; a position that would leave the circular
/// map of the given radius around the origin is pulled back inside it.
pub fn next_position(pos: &Position, dir: &Direction, amount: u64, radius: u64) -> (r: Position)
    requires
        in_world(*pos),
        dir_valid(*dir),
        amount <= WORLD_MAX as u64,
        0 < radius <= WORLD_MAX as u64,
    ensures
        (r.x as int, r.y as int) == spec_next_position(*pos, *dir, amount as int, radius as int),
        ({
            let (nx, ny) = spec_step(*pos, *dir, amount as int);
            &&& (sq(nx) + sq(ny) <= sq(radius as int) ==> r == Position { x: nx as i64, y: ny as i64 })
            &&& (sq(nx) + sq(ny) > sq(radius as int) ==> {
                let (px, py) = spec_pulled_inside(nx, ny, radius as int);
                r == Position { x: px as i64, y: py as i64 }
            })
            &&& sq(r.x as int) + sq(r.y as int) <= sq(radius as int)
            &&& in_world(r)
        }),
{
    let nx: i64 = pos.x + scale_milli(dir.x, amount);
    let ny: i64 = pos.y + scale_milli(dir.y, amount);
    let n2: u128 = {
        let xi: i128 = nx as i128;
        let yi: i128 = ny as i128;
        proof {
            assert(xi * xi + yi * yi <= i128::MAX && 0 <= xi * xi && 0 <= yi * yi)
                by (nonlinear_arith)
                requires
                    -0x1_0000_0000 <= xi <= 0x1_0000_0000,
                    -0x1_0000_0000 <= yi <= 0x1_0000_0000,
            ;
        }
        (xi * xi + yi * yi) as u128
    };
    proof {
        assert(radius * radius <= u128::MAX) by (nonlinear_arith)
            requires
                0 <= radius <= 0x4000_0000,
        ;
    }
    let r2: u128 = (radius as u128) * (radius as u128);
    proof {
        assert(n2 == sq(nx as int) + sq(ny as int));
        assert(r2 == sq(radius as int));
    }
    if n2 <= r2 {
        proof {
            assert(sq(nx as int) <= n2 && sq(ny as int) <= n2) by (nonlinear_arith)
                requires
                    n2 == sq(nx as int) + sq(ny as int),
            ;
            assert(-(radius as int) <= nx as int <= radius as int) by (nonlinear_arith)
                requires
                    sq(nx as int) <= sq(radius as int),
                    0 <= radius,
            ;
            assert(-(radius as int) <= ny as int <= radius as int) by (nonlinear_arith)
                requires
                    sq(ny as int) <= sq(radius as int),
                    0 <= radius,
            ;
        }
        Position { x: nx, y: ny }
    } else {
        let root: u64 = isqrt_u128(n2);
        proof {
            assert(n2 <= 0x8000_0000_0000_0000u128) by (nonlinear_arith)
                requires
                    n2 == sq(nx as int) + sq(ny as int),
                    -0x8000_0000 <= nx <= 0x8000_0000,
                    -0x8000_0000 <= ny <= 0x8000_0000,
            ;
            assert(root < 0x1_0000_0000u64) by (nonlinear_arith)
                requires
                    root * root <= n2,
                    n2 <= 0x8000_0000_0000_0000u128,
                    0 <= root,
            ;
        }
        let len_up: u64 = root + 1;
        proof {
            assert(n2 < len_up * len_up);
        }
        let px: i64 = signed_mul_div(nx, radius, len_up);
        let py: i64 = signed_mul_div(ny, radius, len_up);
        proof {
            lemma_pulled_inside_bound(nx as int, ny as int, px as int, py as int, radius as int,
                len_up as int);
            assert(sq(px as int) <= sq(px as int) + sq(py as int)) by (nonlinear_arith);
            assert(sq(py as int) <= sq(px as int) + sq(py as int)) by (nonlinear_arith);
            assert(-(radius as int) <= px as int <= radius as int) by (nonlinear_arith)
                requires
                    sq(px as int) <= sq(radius as int),
                    0 <= radius,
            ;
            assert(-(radius as int) <= py as int <= radius as int) by (nonlinear_arith)
                requires
                    sq(py as int) <= sq(radius as int),
                    0 <= radius,
            ;
        }
        Position { x: px, y: py }
    }
}

/// A plane rotation, held as the cosine and sine of its angle in
/// thousandths. The loader derives these once from the configured angles.
#[derive(Clone, Copy, Debug, PartialEq, Eq, Structural)]
pub struct Rotation {
    pub cos_milli: i64,
    pub sin_milli: i64,
}

impl DeepView for Rotation {
    type V = Rotation;

    open spec fn deep_view(&self) -> Rotation {
        *self
    }
}

pub open spec fn rot_valid(r: Rotation) -> bool {
    -DIR_ONE <= r.cos_milli <= DIR_ONE && -DIR_ONE <= r.sin_milli <= DIR_ONE
}

pub open spec fn clamp_milli(v: int) -> int {
    if v > DIR_ONE {
        DIR_ONE as int
    } else if v < -DIR_ONE {
        -DIR_ONE as int
    } else {
        v
    }
}

/// `d` rotated by `r`, each component truncated back to thousandths and
/// clamped into the unit box.
pub open spec fn spec_rotate(d: Direction, r: Rotation) -> (int, int) {
    (
        clamp_milli(scale_div(d.x * r.cos_milli - d.y * r.sin_milli, 1, 1000)),
        clamp_milli(scale_div(d.x * r.sin_milli + d.y * r.cos_milli, 1, 1000)),
    )
}

/// Truncating division by 1000, rounding toward zero.
fn div_milli(num: i64) -> (r: i64)
    requires
        -0x4000_0000 <= num <= 0x4000_0000,
    ensures
        r == scale_div(num as int, 1, 1000),
        -0x4000_0000 <= r <= 0x4000_0000,
{
    proof {
        let n: int = num as int;
        if n >= 0 {
            vstd::arithmetic::div_mod::lemma_div_is_ordered(n, 0x4000_0000, 1000);
            vstd::arithmetic::div_mod::lemma_div_pos_is_pos(n, 1000);
            assert(n * 1 == n) by (nonlinear_arith);
        } else {
            vstd::arithmetic::div_mod::lemma_div_is_ordered(-n, 0x4000_0000, 1000);
            vstd::arithmetic::div_mod::lemma_div_pos_is_pos(-n, 1000);
            assert((-n) * 1 == -n) by (nonlinear_arith);
        }
    }
    if num >= 0 {
        (num as u64 / 1000) as i64
    } else {
        -(((-num) as u64 / 1000) as i64)
    }
}

fn clamp_unit(v: i64) -> (r: i64)
    requires
        -0x4000_0000 <= v <= 0x4000_0000,
    ensures
        r == clamp_milli(v as int),
{
    if v > DIR_ONE {
        DIR_ONE
    } else if v < -DIR_ONE {
        -DIR_ONE
    } else {
        v
    }
}

/// Rotates a facing by a precomputed rotation.
pub fn rotate_direction(d: &Direction, r: &Rotation) -> (out: Direction)
    requires
        dir_valid(*d),
        rot_valid(*r),
    ensures
        dir_valid(out),
        (out.x as int, out.y as int) == spec_rotate(*d, *r),
{
    proof {
        let a: int = d.x as int;
        let b: int = d.y as int;
        let c: int = r.cos_milli as int;
        let s: int = r.sin_milli as int;
        assert(-0x4000_0000 <= a * c - b * s <= 0x4000_0000 && -0x4000_0000 <= a * s + b * c
            <= 0x4000_0000 && -0x10_0000 <= a * c <= 0x10_0000 && -0x10_0000 <= b * s <= 0x10_0000
            && -0x10_0000 <= a * s <= 0x10_0000 && -0x10_0000 <= b * c <= 0x10_0000)
            by (nonlinear_arith)
            requires
                -1000 <= a <= 1000,
                -1000 <= b <= 1000,
                -1000 <= c <= 1000,
                -1000 <= s <= 1000,
        ;
    }
    let nx: i64 = d.x * r.cos_milli - d.y * r.sin_milli;
    let ny: i64 = d.x * r.sin_milli + d.y * r.cos_milli;
    let ox: i64 = clamp_unit(div_milli(nx));
    let oy: i64 = clamp_unit(div_milli(ny));
    Direction { x: ox, y: oy }
}

pub open spec fn dot2(vx: int, vy: int, wx: int, wy: int) -> int {
    vx * wx + vy * wy
}

/// The cosine of the angle between `v` and `d` is strictly greater than
/// `cos_milli / 1000`, stated without square roots: `1000 * (v . d)` is
/// compared against `cos_milli * |v| * |d|` by sign and by squares.
pub open spec fn cone_cos_holds(vx: int, vy: int, dx: int, dy: int, cos_milli: int) -> bool {
    let p = 1000 * dot2(vx, vy, dx, dy);
    let q2 = sq(cos_milli) * (sq(vx) + sq(vy)) * (sq(dx) + sq(dy));
    if cos_milli >= 0 {
        p > 0 && sq(p) > q2
    } else {
        p >= 0 || sq(p) < q2
    }
}

/// The cone-of-attack test: a target is in range when it is no farther than
/// `max_distance`; it is hit outright when it stands within three times the
/// attacker's size, and otherwise only when it lies inside the attack cone,
/// whose half-angle is given by its cosine in thousandths.
pub open spec fn spec_in_cone_angle_range(
    center: Position,
    center_size: int,
    facing: Direction,
    target: Position,
    max_distance: int,
    cone_cos_milli: int,
) -> bool {
    let d2 = dist_sq(center, target);
    if d2 > sq(max_distance) {
        false
    } else if d2 <= sq(3 * center_size) {
        true
    } else {
        cone_cos_holds(
            target.x - center.x,
            target.y - center.y,
            facing.x as int,
            facing.y as int,
            cone_cos_milli,
        )
    }
}

pub fn in_cone_angle_range(
    center: &Position,
    center_size: u64,
    facing: &Direction,
    target: &Position,
    max_distance: u64,
    cone_cos_milli: i64,
) -> (r: bool)
    requires
        in_world(*center),
        in_world(*target),
        dir_valid(*facing),
        max_distance <= WORLD_MAX as u64,
        -DIR_ONE <= cone_cos_milli <= DIR_ONE,
    ensures
        r == spec_in_cone_angle_range(
            *center,
            center_size as int,
            *facing,
            *target,
            max_distance as int,
            cone_cos_milli as int,
        ),
{
    let d2: u128 = distance_squared(center, target);
    proof {
        assert(max_distance * max_distance <= u128::MAX) by (nonlinear_arith)
            requires
                0 <= max_distance <= 0x4000_0000,
        ;
    }
    let md: u128 = (max_distance as u128) * (max_distance as u128);
    if d2 > md {
        return false;
    }
    let s3: u128 = 3 * (center_size as u128);
    if s3 >= 0x1_0000_0000u128 {
        proof {
            assert(d2 < s3 * s3 && s3 * s3 == sq(3 * center_size)) by (nonlinear_arith)
                requires
                    0 <= d2 < 0x1_0000_0000_0000_0000u128,
                    s3 >= 0x1_0000_0000u128,
                    s3 == 3 * center_size,
            ;
        }
        return true;
    }
    proof {
        assert(s3 * s3 <= u128::MAX && s3 * s3 == sq(3 * center_size)) by (nonlinear_arith)
            requires
                0 <= s3 <= 0x1_0000_0000u128,
                s3 == 3 * center_size,
        ;
    }
    if d2 <= s3 * s3 {
        return true;
    }
    let vx: i128 = (target.x as i128) - (center.x as i128);
    let vy: i128 = (target.y as i128) - (center.y as i128);
    let dx: i128 = facing.x as i128;
    let dy: i128 = facing.y as i128;
    proof {
        let a: int = vx as int;
        let b: int = vy as int;
        let e: int = dx as int;
        let f: int = dy as int;
        assert(-0x400_0000_0000 <= a * e + b * f <= 0x400_0000_0000 && -0x200_0000_0000 <= a * e
            <= 0x200_0000_0000 && -0x200_0000_0000 <= b * f <= 0x200_0000_0000)
            by (nonlinear_arith)
            requires
                -0x8000_0000 <= a <= 0x8000_0000,
                -0x8000_0000 <= b <= 0x8000_0000,
                -1000 <= e <= 1000,
                -1000 <= f <= 1000,
        ;
    }
    let p: i128 = 1000 * (vx * dx + vy * dy);
    proof {
        let pp: int = p as int;
        assert(0 <= pp * pp <= i128::MAX) by (nonlinear_arith)
            requires
                -0x10_0000_0000_0000 <= pp <= 0x10_0000_0000_0000,
        ;
        let a: int = vx as int;
        let b: int = vy as int;
        assert(a * a + b * b <= 0x8000_0000_0000_0000 && 0 <= a * a && 0 <= b * b)
            by (nonlinear_arith)
            requires
                -0x8000_0000 <= a <= 0x8000_0000,
                -0x8000_0000 <= b <= 0x8000_0000,
        ;
        let e: int = dx as int;
        let f: int = dy as int;
        assert(e * e + f * f <= 0x20_0000 && 0 <= e * e && 0 <= f * f) by (nonlinear_arith)
            requires
                -1000 <= e <= 1000,
                -1000 <= f <= 1000,
        ;
    }
    let v2: i128 = vx * vx + vy * vy;
    let f2: i128 = dx * dx + dy * dy;
    let c: i128 = cone_cos_milli as i128;
    proof {
        let cc: int = c as int;
        let vv: int = v2 as int;
        let ff: int = f2 as int;
        assert(cc * cc * vv * ff <= i128::MAX && 0 <= cc * cc * vv * ff && -0x10_0000 <= cc * cc
            <= 0x10_0000 && cc * cc * vv <= 0x8_0000_0000_0000_0000_0000 && 0 <= cc * cc * vv)
            by (nonlinear_arith)
            requires
                -1000 <= cc <= 1000,
                0 <= vv <= 0x8000_0000_0000_0000,
                0 <= ff <= 0x20_0000,
        ;
    }
    let q2: i128 = c * c * v2 * f2;
    proof {
        assert(v2 == sq(vx as int) + sq(vy as int));
        assert(f2 == sq(dx as int) + sq(dy as int));
        assert(p * p == sq(p as int));
        assert(q2 == sq(c as int) * (v2 as int) * (f2 as int));
    }
    if cone_cos_milli >= 0 {
        p > 0 && p * p > q2
    } else {
        p >= 0 || p * p < q2
    }
}

/// The unit vector from `a` toward `b` in thousandths; the zero vector when
/// the two positions coincide.
pub open spec fn spec_direction_from(a: Position, b: Position) -> (int, int) {
    let dx = b.x - a.x;
    let dy = b.y - a.y;
    let l2 = sq(dx) + sq(dy);
    if l2 == 0 {
        (0, 0)
    } else {
        let len = spec_isqrt(l2);
        (scale_div(dx, 1000, len), scale_div(dy, 1000, len))
    }
}

pub fn direction_from_positions(a: &Position, b: &Position) -> (r: Direction)
    requires
        in_world(*a),
        in_world(*b),
    ensures
        dir_valid(r),
        (r.x as int, r.y as int) == spec_direction_from(*a, *b),
{
    let dx: i64 = b.x - a.x;
    let dy: i64 = b.y - a.y;
    let l2: u128 = {
        let xi: i128 = dx as i128;
        let yi: i128 = dy as i128;
        proof {
            let a: int = xi as int;
            let b: int = yi as int;
            assert(a * a + b * b <= 0x8000_0000_0000_0000 && 0 <= a * a && 0 <= b * b)
                by (nonlinear_arith)
                requires
                    -0x8000_0000 <= a <= 0x8000_0000,
                    -0x8000_0000 <= b <= 0x8000_0000,
            ;
        }
        (xi * xi + yi * yi) as u128
    };
    proof {
        assert(l2 == sq(dx as int) + sq(dy as int));
    }
    if l2 == 0 {
        proof {
            assert(sq(dx as int) == 0 && sq(dy as int) == 0 ==> dx as int == 0 && dy as int == 0)
                by (nonlinear_arith);
            assert(sq(dx as int) >= 0 && sq(dy as int) >= 0) by (nonlinear_arith);
        }
        Direction { x: 0, y: 0 }
    } else {
        let len: u64 = isqrt_u128(l2);
        proof {
            if len == 0 {
                assert(l2 < (0 + 1) * (0 + 1));
            }
            assert(sq(dx as int) <= l2 && sq(dy as int) <= l2) by (nonlinear_arith)
                requires
                    l2 == sq(dx as int) + sq(dy as int),
            ;
            lemma_component_at_most_root(dx as int, l2 as int, len as int);
            lemma_component_at_most_root(dy as int, l2 as int, len as int);
        }
        let rx: i64 = signed_mul_div(dx, 1000, len);
        let ry: i64 = signed_mul_div(dy, 1000, len);
        proof {
            lemma_scale_div_unit(dx as int, len as int, rx as int);
            lemma_scale_div_unit(dy as int, len as int, ry as int);
        }
        Direction { x: rx, y: ry }
    }
}

/// A component is no longer than the vector: from `c*c <= l2 < (len+1)^2`
/// it follows that `-len <= c <= len`.
proof fn lemma_component_at_most_root(c: int, l2: int, len: int)
    requires
        sq(c) <= l2,
        l2 < (len + 1) * (len + 1),
        0 <= len,
    ensures
        -len <= c <= len,
{
    assert(-len <= c <= len) by (nonlinear_arith)
        requires
            c * c <= l2,
            l2 < (len + 1) * (len + 1),
            0 <= len,
    ;
}

/// Scaling a component of length at most `len` by `1000 / len` yields a
/// value of magnitude at most 1000.
proof fn lemma_scale_div_unit(v: int, len: int, p: int)
    requires
        -len <= v <= len,
        0 < len,
        0 <= p * len <= v * 1000 || v * 1000 <= p * len <= 0,
    ensures
        -1000 <= p <= 1000,
{
    if v >= 0 {
        assert(p <= 1000 && 0 <= p) by (nonlinear_arith)
            requires
                0 <= p * len <= v * 1000,
                0 <= v <= len,
                0 < len,
        ;
    } else {
        assert(-1000 <= p && p <= 0) by (nonlinear_arith)
            requires
                v * 1000 <= p * len <= 0,
                -len <= v < 0,
                0 < len,
        ;
    }
}

/// A uniformly random position inside the circle of diameter `width` around
/// the origin: points are drawn from the bounding square until one lies in
/// the circle; after too many misses the center is used.
pub fn random_position(width: u64, _height: u64) -> (r: Position)
    requires
        width <= 2 * WORLD_MAX as u64,
    ensures
        in_world(r),
        dist_sq(r, Position { x: 0, y: 0 }) <= sq(width as int / 2),
{
    let radius: i64 = (width / 2) as i64;
    if radius == 0 {
        return Position { x: 0, y: 0 };
    }
    let mut tries: u64 = 128;
    while tries > 0
        invariant
            0 < radius <= WORLD_MAX,
            radius as int == width as int / 2,
        decreases tries,
    {
        tries = tries - 1;
        let x: i64 = random_in_range(-radius, radius + 1);
        let y: i64 = random_in_range(-radius, radius + 1);
        let inside: bool = {
            let xi: i128 = x as i128;
            let yi: i128 = y as i128;
            proof {
                let a: int = xi as int;
                let b: int = yi as int;
                let rr: int = radius as int;
                assert(a * a + b * b <= i128::MAX && 0 <= a * a && 0 <= b * b && rr * rr
                    <= i128::MAX) by (nonlinear_arith)
                    requires
                        -0x4000_0000 <= a <= 0x4000_0000,
                        -0x4000_0000 <= b <= 0x4000_0000,
                        0 < rr <= 0x4000_0000,
                ;
            }
            xi * xi + yi * yi <= (radius as i128) * (radius as i128)
        };
        if inside {
            proof {
                assert(dist_sq(Position { x: x, y: y }, Position { x: 0, y: 0 }) == sq(x as int)
                    + sq(y as int));
                assert(sq(x as int) + sq(y as int) <= sq(radius as int));
                assert(radius as int == width as int / 2);
            }
            return Position { x, y };
        }
    }
    Position { x: 0, y: 0 }
}

/// The pulled-back point lies inside the circle: from `|p|*L <= |n|*R`
/// componentwise and `n2 < L*L` it follows that `px*px + py*py <= R*R`.
proof fn lemma_pulled_inside_bound(nx: int, ny: int, px: int, py: int, radius: int, len_up: int)
    requires
        0 < radius,
        0 < len_up,
        sq(nx) + sq(ny) < len_up * len_up,
        0 <= px * len_up <= nx * radius || nx * radius <= px * len_up <= 0,
        0 <= py * len_up <= ny * radius || ny * radius <= py * len_up <= 0,
    ensures
        sq(px) + sq(py) <= sq(radius),
{
    assert(sq(px * len_up) <= sq(nx * radius)) by (nonlinear_arith)
        requires
            0 <= px * len_up <= nx * radius || nx * radius <= px * len_up <= 0,
    ;
    assert(sq(py * len_up) <= sq(ny * radius)) by (nonlinear_arith)
        requires
            0 <= py * len_up <= ny * radius || ny * radius <= py * len_up <= 0,
    ;
    assert(sq(px * len_up) == sq(px) * sq(len_up)) by (nonlinear_arith);
    assert(sq(py * len_up) == sq(py) * sq(len_up)) by (nonlinear_arith);
    assert(sq(nx * radius) == sq(nx) * sq(radius)) by (nonlinear_arith);
    assert(sq(ny * radius) == sq(ny) * sq(radius)) by (nonlinear_arith);
    assert((sq(px) + sq(py)) * sq(len_up) <= (sq(nx) + sq(ny)) * sq(radius)) by (nonlinear_arith)
        requires
            sq(px) * sq(len_up) <= sq(nx) * sq(radius),
            sq(py) * sq(len_up) <= sq(ny) * sq(radius),
    ;
    assert((sq(nx) + sq(ny)) * sq(radius) < sq(len_up) * sq(radius)) by (nonlinear_arith)
        requires
            sq(nx) + sq(ny) < len_up * len_up,
            0 < radius,
    ;
    assert(sq(px) + sq(py) <= sq(radius)) by (nonlinear_arith)
        requires
            (sq(px) + sq(py)) * sq(len_up) < sq(len_up) * sq(radius),
            0 < len_up,
    ;
}

} // verus!

