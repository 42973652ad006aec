//! Collision predicates over points, lines, circles and polygons: pure
//! tests, exact integer arithmetic throughout.

use vstd::prelude::*;

use crate::entity::{Entity, entity_wf};
use crate::map::{dist_sq, in_world, sq, Position};

verus! {

/// A point touches a circle when it is no farther than the radius.
pub open spec fn spec_point_circle(p: Position, center: Position, radius: int) -> bool {
    dist_sq(p, center) <= sq(radius)
}

/// Two circles touch when their centers are no farther than the radius
/// sum.
pub open spec fn spec_circle_circle(c1: Position, r1: int, c2: Position, r2: int) -> bool {
    dist_sq(c1, c2) <= sq(r1 + r2)
}

/// The circle test does not depend on the order of its circles.
pub proof fn lemma_circle_circle_symmetric(c1: Position, r1: int, c2: Position, r2: int)
    ensures
        spec_circle_circle(c1, r1, c2, r2) == spec_circle_circle(c2, r2, c1, r1),
{
    assert(sq(c1.x - c2.x) == sq(c2.x - c1.x)) by (nonlinear_arith);
    assert(sq(c1.y - c2.y) == sq(c2.y - c1.y)) by (nonlinear_arith);
}

/// The classic parametric segment intersection: both solution parameters
/// of the two-by-two solve lie in the unit interval. Parallel segments
/// (a vanishing determinant) never intersect under this test.
pub open spec fn spec_line_line(a1: Position, a2: Position, b1: Position, b2: Position) -> bool {
    let den = (b2.y - b1.y) * (a2.x - a1.x) - (b2.x - b1.x) * (a2.y - a1.y);
    let num_a = (b2.x - b1.x) * (a1.y - b1.y) - (b2.y - b1.y) * (a1.x - b1.x);
    let num_b = (a2.x - a1.x) * (a1.y - b1.y) - (a2.y - a1.y) * (a1.x - b1.x);
    if den == 0 {
        false
    } else if den > 0 {
        0 <= num_a <= den && 0 <= num_b <= den
    } else {
        den <= num_a <= 0 && den <= num_b <= 0
    }
}

/// The segment test does not depend on the order of its two segments.
pub proof fn lemma_line_line_symmetric(a1: Position, a2: Position, b1: Position, b2: Position)
    ensures
        spec_line_line(a1, a2, b1, b2) == spec_line_line(b1, b2, a1, a2),
{
    let ax = a1.x as int;
    let ay = a1.y as int;
    let cx = a2.x as int;
    let cy = a2.y as int;
    let ex = b1.x as int;
    let ey = b1.y as int;
    let fx = b2.x as int;
    let fy = b2.y as int;
    let den = (fy - ey) * (cx - ax) - (fx - ex) * (cy - ay);
    let num_a = (fx - ex) * (ay - ey) - (fy - ey) * (ax - ex);
    let num_b = (cx - ax) * (ay - ey) - (cy - ay) * (ax - ex);
    let den2 = (cy - ay) * (fx - ex) - (cx - ax) * (fy - ey);
    let num_a2 = (cx - ax) * (ey - ay) - (cy - ay) * (ex - ax);
    let num_b2 = (fx - ex) * (ey - ay) - (fy - ey) * (ex - ax);
    assert(den2 == -den) by (nonlinear_arith)
        requires
            den == (fy - ey) * (cx - ax) - (fx - ex) * (cy - ay),
            den2 == (cy - ay) * (fx - ex) - (cx - ax) * (fy - ey),
    ;
    assert(num_a2 == -num_b) by (nonlinear_arith)
        requires
            num_b == (cx - ax) * (ay - ey) - (cy - ay) * (ax - ex),
            num_a2 == (cx - ax) * (ey - ay) - (cy - ay) * (ex - ax),
    ;
    assert(num_b2 == -num_a) by (nonlinear_arith)
        requires
            num_a == (fx - ex) * (ay - ey) - (fy - ey) * (ax - ex),
            num_b2 == (fx - ex) * (ey - ay) - (fy - ey) * (ex - ax),
    ;
}

/// One edge's contribution to the ray crossing: the edge straddles the
/// point's height strictly, and the rightward ray from the point passes
/// through it. A ray through a vertex exactly at the point's height
/// touches neither adjacent edge: the boundary behaviour is this one
/// fixed choice.
pub open spec fn spec_edge_crossing(p: Position, cv: Position, nv: Position) -> bool {
    &&& !(p.y <= cv.y && p.y <= nv.y)
    &&& !(p.y >= cv.y && p.y >= nv.y)
    &&& if nv.y > cv.y {
        (nv.x - cv.x) * (p.y - cv.y) - (p.x - cv.x) * (nv.y - cv.y) > 0
    } else {
        (nv.x - cv.x) * (p.y - cv.y) - (p.x - cv.x) * (nv.y - cv.y) < 0
    }
}

/// How many edges of the first `i` edges of the loop the rightward ray
/// crosses; edge `k` runs from the vertex before `vs[k]` to `vs[k]`, the
/// closing edge included.
pub open spec fn crossing_count(p: Position, vs: Seq<Position>, i: int) -> int
    decreases i,
{
    if i <= 0 {
        0
    } else {
        crossing_count(p, vs, i - 1) + if spec_edge_crossing(
            p,
            vs[if i - 1 == 0 {
                vs.len() - 1
            } else {
                i - 2
            }],
            vs[i - 1],
        ) {
            1int
        } else {
            0int
        }
    }
}

/// The even-odd rule: the point lies inside when the rightward ray
/// crosses the edge loop an odd number of times.
pub open spec fn spec_point_polygon(p: Position, vs: Seq<Position>) -> bool {
    crossing_count(p, vs, vs.len() as int) % 2 == 1
}

/// A segment touches a circle when an endpoint lies inside, or when the
/// foot of the perpendicular from the center lies on the segment — with
/// a twentieth of a unit of slack past either end — and within the
/// radius. Stated over squares, so the slack test compares
/// `400 * overhang^2` against the squared segment length.
pub open spec fn spec_line_circle(l1: Position, l2: Position, center: Position, radius: int) -> bool {
    if spec_point_circle(l1, center, radius) || spec_point_circle(l2, center, radius) {
        true
    } else {
        let len2 = dist_sq(l1, l2);
        if len2 == 0 {
            false
        } else {
            let dot = (center.x - l1.x) * (l2.x - l1.x) + (center.y - l1.y) * (l2.y - l1.y);
            let on_segment = (0 <= dot <= len2) || (dot < 0 && 400 * (dot * dot) <= len2) || (dot
                > len2 && 400 * ((dot - len2) * (dot - len2)) <= len2);
            let within = len2 * dist_sq(l1, center) - dot * dot <= sq(radius) * len2;
            on_segment && within
        }
    }
}

/// A circle touches a polygon when it touches any edge of the loop or its
/// center lies inside.
pub open spec fn spec_circle_polygon(center: Position, radius: int, vs: Seq<Position>) -> bool {
    ||| exists|i: int|
        0 <= i < vs.len() && spec_line_circle(
            #[trigger] vs[i],
            vs[if i + 1 == vs.len() {
                0int
            } else {
                i + 1
            }],
            center,
            radius,
        )
    ||| spec_point_polygon(center, vs)
}

/// A segment touches a polygon when it crosses any edge of the loop.
pub open spec fn spec_line_polygon(l1: Position, l2: Position, vs: Seq<Position>) -> bool {
    exists|i: int|
        0 <= i < vs.len() && spec_line_line(
            l1,
            l2,
            vs[if i == 0 {
                vs.len() - 1
            } else {
                i - 1
            }],
            #[trigger] vs[i],
        )
}

/// Whether a point entity touches a circle entity.
pub fn point_circle_collision(point: &Entity, circle: &Entity) -> (r: bool)
    requires
        entity_wf(point.deep_view()),
        entity_wf(circle.deep_view()),
    ensures
        r == spec_point_circle(point.position, circle.position, circle.radius as int),
{
    let d2 = crate::map::distance_squared(&point.position, &circle.position);
    proof {
        let rr: int = circle.radius as int;
        assert(0 <= rr * rr <= u128::MAX) by (nonlinear_arith)
            requires
                0 <= rr <= 0x4000_0000,
        ;
    }
    d2 <= (circle.radius as u128) * (circle.radius as u128)
}

/// Whether two circle entities touch.
pub fn circle_circle_collision(circle_1: &Entity, circle_2: &Entity) -> (r: bool)
    requires
        entity_wf(circle_1.deep_view()),
        entity_wf(circle_2.deep_view()),
    ensures
        r == spec_circle_circle(
            circle_1.position,
            circle_1.radius as int,
            circle_2.position,
            circle_2.radius as int,
        ),
{
    let d2 = crate::map::distance_squared(&circle_1.position, &circle_2.position);
    let s: u128 = (circle_1.radius as u128) + (circle_2.radius as u128);
    proof {
        assert(0 <= s * s <= u128::MAX) by (nonlinear_arith)
            requires
                0 <= s <= 0x8000_0000u128,
        ;
    }
    d2 <= s * s
}

/// The two solution parameters of the segment pair, scaled by the
/// determinant.
fn line_line_parts(a1: Position, a2: Position, b1: Position, b2: Position) -> (r: (i128, i128, i128))
    requires
        in_world(a1),
        in_world(a2),
        in_world(b1),
        in_world(b2),
    ensures
        r.0 == (b2.y - b1.y) * (a2.x - a1.x) - (b2.x - b1.x) * (a2.y - a1.y),
        r.1 == (b2.x - b1.x) * (a1.y - b1.y) - (b2.y - b1.y) * (a1.x - b1.x),
        r.2 == (a2.x - a1.x) * (a1.y - b1.y) - (a2.y - a1.y) * (a1.x - b1.x),
{
    let ax: i128 = (a2.x as i128) - (a1.x as i128);
    let ay: i128 = (a2.y as i128) - (a1.y as i128);
    let bx: i128 = (b2.x as i128) - (b1.x as i128);
    let by: i128 = (b2.y as i128) - (b1.y as i128);
    let wx: i128 = (a1.x as i128) - (b1.x as i128);
    let wy: i128 = (a1.y as i128) - (b1.y as i128);
    proof {
        let axi: int = ax as int;
        let ayi: int = ay as int;
        let bxi: int = bx as int;
        let byi: int = by as int;
        let wxi: int = wx as int;
        let wyi: int = wy as int;
        assert((-0x4000_0000_0000_0000 <= byi * axi <= 0x4000_0000_0000_0000)
            && (-0x4000_0000_0000_0000 <= bxi * ayi <= 0x4000_0000_0000_0000)
            && (-0x4000_0000_0000_0000 <= bxi * wyi <= 0x4000_0000_0000_0000)
            && (-0x4000_0000_0000_0000 <= byi * wxi <= 0x4000_0000_0000_0000)
            && (-0x4000_0000_0000_0000 <= axi * wyi <= 0x4000_0000_0000_0000)
            && (-0x4000_0000_0000_0000 <= ayi * wxi <= 0x4000_0000_0000_0000))
            by (nonlinear_arith)
            requires
                -0x8000_0000 <= axi <= 0x8000_0000,
                -0x8000_0000 <= ayi <= 0x8000_0000,
                -0x8000_0000 <= bxi <= 0x8000_0000,
                -0x8000_0000 <= byi <= 0x8000_0000,
                -0x8000_0000 <= wxi <= 0x8000_0000,
                -0x8000_0000 <= wyi <= 0x8000_0000,
        ;
    }
    let den: i128 = by * ax - bx * ay;
    let num_a: i128 = bx * wy - by * wx;
    let num_b: i128 = ax * wy - ay * wx;
    (den, num_a, num_b)
}

/// Whether two line entities cross.
pub fn line_line_collision(line: &Entity, other_line: &Entity) -> (r: bool)
    requires
        entity_wf(line.deep_view()),
        entity_wf(other_line.deep_view()),
        line.vertices@.len() == 2,
        other_line.vertices@.len() == 2,
    ensures
        r == spec_line_line(
            line.vertices@[0],
            line.vertices@[1],
            other_line.vertices@[0],
            other_line.vertices@[1],
        ),
{
    proof {
        assert(line.deep_view().vertices[0] == line.vertices@[0]);
        assert(line.deep_view().vertices[1] == line.vertices@[1]);
        assert(other_line.deep_view().vertices[0] == other_line.vertices@[0]);
        assert(other_line.deep_view().vertices[1] == other_line.vertices@[1]);
    }
    segments_cross(
        line.vertices[0],
        line.vertices[1],
        other_line.vertices[0],
        other_line.vertices[1],
    )
}

/// Whether two segments, given by their endpoints, cross.
pub fn segments_cross(a1: Position, a2: Position, b1: Position, b2: Position) -> (r: bool)
    requires
        in_world(a1),
        in_world(a2),
        in_world(b1),
        in_world(b2),
    ensures
        r == spec_line_line(a1, a2, b1, b2),
{
    let (den, num_a, num_b) = line_line_parts(a1, a2, b1, b2);
    if den == 0 {
        false
    } else if den > 0 {
        0 <= num_a && num_a <= den && 0 <= num_b && num_b <= den
    } else {
        den <= num_a && num_a <= 0 && den <= num_b && num_b <= 0
    }
}

/// Whether the point entity lies inside the polygon entity, by ray
/// crossing over the edge loop.
pub fn point_polygon_collision(point: &Entity, polygon: &Entity) -> (r: bool)
    requires
        entity_wf(point.deep_view()),
        entity_wf(polygon.deep_view()),
        polygon.vertices@.len() >= 1,
    ensures
        r == spec_point_polygon(point.position, polygon.deep_view().vertices),
{
    proof {
        assert forall|i: int| 0 <= i < polygon.vertices@.len() implies in_world(
            #[trigger] polygon.vertices@[i],
        ) by {
            assert(polygon.deep_view().vertices[i] == polygon.vertices@[i]);
        }
        assert(polygon.deep_view().vertices =~= polygon.vertices@);
    }
    point_in_polygon(point.position, &polygon.vertices)
}

/// Whether a point lies inside the vertex loop, by the even-odd rule.
#[verifier::rlimit(100)]
pub fn point_in_polygon(p: Position, vertices: &Vec<Position>) -> (r: bool)
    requires
        in_world(p),
        vertices@.len() >= 1,
        forall|i: int| 0 <= i < vertices@.len() ==> in_world(#[trigger] vertices@[i]),
    ensures
        r == spec_point_polygon(p, vertices@),
{
    let ghost vs = vertices@;
    let n = vertices.len();
    let mut crossings: u64 = 0;
    let mut i: usize = 0;
    while i < n
        invariant
            n == vs.len(),
            0 <= i <= n,
            crossings <= i,
            crossings as int == crossing_count(p, vs, i as int),
        decreases n - i,
    {
        let cv: Position = if i == 0 {
            vertices[n - 1]
        } else {
            vertices[i - 1]
        };
        let nv: Position = vertices[i];
        let cond1 = !(p.y <= cv.y && p.y <= nv.y);
        let cond2 = !(p.y >= cv.y && p.y >= nv.y);
        let crossing = if cond1 && cond2 {
            proof {
                let px: int = p.x as int;
                let py: int = p.y as int;
                let cx: int = cv.x as int;
                let cy: int = cv.y as int;
                let nx: int = nv.x as int;
                let ny: int = nv.y as int;
                assert((-0x4000_0000_0000_0000 <= (px - cx) * (ny - cy) <= 0x4000_0000_0000_0000)
                    && (-0x4000_0000_0000_0000 <= (nx - cx) * (py - cy) <= 0x4000_0000_0000_0000))
                    by (nonlinear_arith)
                    requires
                        -0x4000_0000 <= px <= 0x4000_0000,
                        -0x4000_0000 <= py <= 0x4000_0000,
                        -0x4000_0000 <= cx <= 0x4000_0000,
                        -0x4000_0000 <= cy <= 0x4000_0000,
                        -0x4000_0000 <= nx <= 0x4000_0000,
                        -0x4000_0000 <= ny <= 0x4000_0000,
                ;
            }
            let side: i128 = ((nv.x as i128) - (cv.x as i128)) * ((p.y as i128) - (cv.y as i128))
                - ((p.x as i128) - (cv.x as i128)) * ((nv.y as i128) - (cv.y as i128));
            if nv.y > cv.y {
                side > 0
            } else {
                side < 0
            }
        } else {
            false
        };
        if crossing {
            crossings = crossings + 1;
        }
        i = i + 1;
    }
    crossings % 2 == 1
}

/// Whether a segment, given by its endpoints, touches a circle.
pub fn segment_circle(l1: Position, l2: Position, center: Position, radius: u64) -> (r: bool)
    requires
        in_world(l1),
        in_world(l2),
        in_world(center),
        radius <= crate::map::WORLD_MAX as u64,
    ensures
        r == spec_line_circle(l1, l2, center, radius as int),
{
    proof {
        let rr: int = radius as int;
        assert(0 <= rr * rr <= 0x1000_0000_0000_0000) by (nonlinear_arith)
            requires
                0 <= rr <= 0x4000_0000,
        ;
    }
    let r2: u128 = (radius as u128) * (radius as u128);
    let d1 = crate::map::distance_squared(&l1, &center);
    if d1 <= r2 {
        return true;
    }
    let d2 = crate::map::distance_squared(&l2, &center);
    if d2 <= r2 {
        return true;
    }
    let len2_u = crate::map::distance_squared(&l1, &l2);
    if len2_u == 0 {
        return false;
    }
    let len2: i128 = len2_u as i128;
    let dx: i128 = (l2.x as i128) - (l1.x as i128);
    let dy: i128 = (l2.y as i128) - (l1.y as i128);
    let wx: i128 = (center.x as i128) - (l1.x as i128);
    let wy: i128 = (center.y as i128) - (l1.y as i128);
    proof {
        let dxi: int = dx as int;
        let dyi: int = dy as int;
        let wxi: int = wx as int;
        let wyi: int = wy as int;
        assert((-0x8000_0000_0000_0000 <= wxi * dxi + wyi * dyi <= 0x8000_0000_0000_0000)
            && (-0x4000_0000_0000_0000 <= wxi * dxi <= 0x4000_0000_0000_0000)
            && (-0x4000_0000_0000_0000 <= wyi * dyi <= 0x4000_0000_0000_0000))
            by (nonlinear_arith)
            requires
                -0x8000_0000 <= dxi <= 0x8000_0000,
                -0x8000_0000 <= dyi <= 0x8000_0000,
                -0x8000_0000 <= wxi <= 0x8000_0000,
                -0x8000_0000 <= wyi <= 0x8000_0000,
        ;
    }
    let dot: i128 = wx * dx + wy * dy;
    let on_segment: bool = if 0 <= dot && dot <= len2 {
        true
    } else if dot < 0 {
        let nd: i128 = -dot;
        if nd >= 0x1000_0000i128 {
            proof {
                let ndi: int = nd as int;
                assert(400 * (ndi * ndi) > 0x8000_0000_0000_0000) by (nonlinear_arith)
                    requires
                        ndi >= 0x1000_0000,
                ;
                assert(400 * ((dot as int) * (dot as int)) == 400 * (ndi * ndi))
                    by (nonlinear_arith)
                    requires
                        ndi == -(dot as int),
                ;
            }
            false
        } else {
            proof {
                let ndi: int = nd as int;
                assert(0 <= 400 * (ndi * ndi) <= 0x2_0000_0000_0000_0000) by (nonlinear_arith)
                    requires
                        0 <= ndi < 0x1000_0000,
                ;
                assert(400 * ((dot as int) * (dot as int)) == 400 * (ndi * ndi))
                    by (nonlinear_arith)
                    requires
                        ndi == -(dot as int),
                ;
            }
            400 * (nd * nd) <= len2
        }
    } else {
        let over: i128 = dot - len2;
        if over >= 0x1000_0000i128 {
            proof {
                let ov: int = over as int;
                assert(400 * (ov * ov) > 0x8000_0000_0000_0000) by (nonlinear_arith)
                    requires
                        ov >= 0x1000_0000,
                ;
            }
            false
        } else {
            proof {
                let ov: int = over as int;
                assert(0 <= 400 * (ov * ov) <= 0x2_0000_0000_0000_0000) by (nonlinear_arith)
                    requires
                        0 <= ov < 0x1000_0000,
                ;
            }
            400 * (over * over) <= len2
        }
    };
    let ghost sdot = (center.x - l1.x) * (l2.x - l1.x) + (center.y - l1.y) * (l2.y - l1.y);
    proof {
        assert(dot == sdot);
        assert(len2 == dist_sq(l1, l2));
    }
    if !on_segment {
        proof {
            assert(!((0 <= sdot <= dist_sq(l1, l2)) || (sdot < 0 && 400 * (sdot * sdot) <= dist_sq(
                l1, l2)) || (sdot > dist_sq(l1, l2) && 400 * ((sdot - dist_sq(l1, l2)) * (sdot
                - dist_sq(l1, l2))) <= dist_sq(l1, l2))));
        }
        return false;
    }
    let w2: i128 = d1 as i128;
    proof {
        let l2i: int = len2 as int;
        let w2i: int = w2 as int;
        let doti: int = dot as int;
        let r2i: int = r2 as int;
        assert((0 <= l2i * w2i <= 0x4000_0000_0000_0000_0000_0000_0000_0000) && (0 <= doti * doti
            <= 0x4000_0000_0000_0000_0000_0000_0000_0000) && (0 <= r2i * l2i
            <= 0x4000_0000_0000_0000_0000_0000_0000_0000)) by (nonlinear_arith)
            requires
                0 <= l2i <= 0x8000_0000_0000_0000,
                0 <= w2i <= 0x8000_0000_0000_0000,
                -0x8000_0000_0000_0000 <= doti <= 0x8000_0000_0000_0000,
                0 <= r2i <= 0x4000_0000_0000_0000,
        ;
    }
    proof {
        assert(w2 == dist_sq(l1, center));
        assert(r2 == sq(radius as int));
    }
    len2 * w2 - dot * dot <= (r2 as i128) * len2
}

/// Whether a line entity touches a circle entity.
pub fn line_circle_collision(line: &Entity, circle: &Entity) -> (r: bool)
    requires
        entity_wf(line.deep_view()),
        entity_wf(circle.deep_view()),
        line.vertices@.len() == 2,
    ensures
        r == spec_line_circle(
            line.vertices@[0],
            line.vertices@[1],
            circle.position,
            circle.radius as int,
        ),
{
    proof {
        assert(line.deep_view().vertices[0] == line.vertices@[0]);
        assert(line.deep_view().vertices[1] == line.vertices@[1]);
    }
    segment_circle(line.vertices[0], line.vertices[1], circle.position, circle.radius)
}

/// Whether a circle entity touches a polygon entity: any edge touches the
/// circle, or the circle's center lies inside the polygon.
pub fn circle_polygon_collision(circle: &Entity, polygon: &Entity) -> (r: bool)
    requires
        entity_wf(circle.deep_view()),
        entity_wf(polygon.deep_view()),
        polygon.vertices@.len() >= 1,
    ensures
        r == spec_circle_polygon(
            circle.position,
            circle.radius as int,
            polygon.deep_view().vertices,
        ),
{
    let ghost vs = polygon.deep_view().vertices;
    proof {
        assert(vs =~= polygon.vertices@);
        assert forall|i: int| 0 <= i < polygon.vertices@.len() implies in_world(
            #[trigger] polygon.vertices@[i],
        ) by {
            assert(polygon.deep_view().vertices[i] == polygon.vertices@[i]);
        }
    }
    let n = polygon.vertices.len();
    let mut i: usize = 0;
    while i < n
        invariant
            n == vs.len(),
            vs == polygon.deep_view().vertices,
            vs =~= polygon.vertices@,
            0 <= i <= n,
            entity_wf(circle.deep_view()),
            entity_wf(polygon.deep_view()),
            forall|k: int|
                0 <= k < i ==> !spec_line_circle(
                    #[trigger] vs[k],
                    vs[if k + 1 == vs.len() {
                        0int
                    } else {
                        k + 1
                    }],
                    circle.position,
                    circle.radius as int,
                ),
        decreases n - i,
    {
        let next: usize = if i + 1 == n {
            0
        } else {
            i + 1
        };
        if segment_circle(
            polygon.vertices[i],
            polygon.vertices[next],
            circle.position,
            circle.radius,
        ) {
            return true;
        }
        i = i + 1;
    }
    proof {
        assert forall|k: int| 0 <= k < polygon.vertices@.len() implies in_world(
            #[trigger] polygon.vertices@[k],
        ) by {
            assert(polygon.deep_view().vertices[k] == polygon.vertices@[k]);
        }
    }
    point_in_polygon(circle.position, &polygon.vertices)
}

/// Whether a line entity crosses any edge of a polygon entity.
#[verifier::rlimit(100)]
#[verifier::spinoff_prover]
pub fn line_polygon_collision(line: &Entity, polygon: &Entity) -> (r: bool)
    requires
        entity_wf(line.deep_view()),
        entity_wf(polygon.deep_view()),
        line.vertices@.len() == 2,
        polygon.vertices@.len() >= 1,
    ensures
        r == spec_line_polygon(
            line.vertices@[0],
            line.vertices@[1],
            polygon.deep_view().vertices,
        ),
{
    let ghost vs = polygon.deep_view().vertices;
    proof {
        assert(line.deep_view().vertices[0] == line.vertices@[0]);
        assert(line.deep_view().vertices[1] == line.vertices@[1]);
        assert(vs =~= polygon.vertices@);
        assert forall|k: int| 0 <= k < vs.len() implies in_world(#[trigger] vs[k]) by {
            assert(polygon.deep_view().vertices[k] == polygon.vertices@[k]);
        }
    }
    let l1 = line.vertices[0];
    let l2 = line.vertices[1];
    let n = polygon.vertices.len();
    let mut i: usize = 0;
    while i < n
        invariant
            n == vs.len(),
            vs == polygon.vertices@,
            0 <= i <= n,
            in_world(l1),
            in_world(l2),
            forall|k: int| 0 <= k < vs.len() ==> in_world(#[trigger] vs[k]),
            l1 == line.vertices@[0],
            l2 == line.vertices@[1],
            forall|k: int|
                0 <= k < i ==> !spec_line_line(
                    l1,
                    l2,
                    vs[if k == 0 {
                        vs.len() - 1
                    } else {
                        k - 1
                    }],
                    #[trigger] vs[k],
                ),
        decreases n - i,
    {
        let cv: Position = if i == 0 {
            polygon.vertices[n - 1]
        } else {
            polygon.vertices[i - 1]
        };
        let nv: Position = polygon.vertices[i];
        if segments_cross(l1, l2, cv, nv) {
            return true;
        }
        i = i + 1;
    }
    false
}

/// The batch form of the segment test: one flag per candidate segment of
/// `other_lines`, taken as consecutive endpoint pairs.
pub fn line_multiline_collision(
    line: &Vec<Position>,
    other_lines: &Vec<Position>,
    collisions: &mut Vec<bool>,
)
    requires
        line@.len() == 2,
        other_lines@.len() % 2 == 0,
        old(collisions)@.len() * 2 == other_lines@.len(),
        forall|i: int| 0 <= i < line@.len() ==> in_world(#[trigger] line@[i]),
        forall|i: int| 0 <= i < other_lines@.len() ==> in_world(#[trigger] other_lines@[i]),
    ensures
        final(collisions)@.len() == old(collisions)@.len(),
        forall|i: int|
            0 <= i < final(collisions)@.len() ==> #[trigger] final(collisions)@[i]
                == spec_line_line(line@[0], line@[1], other_lines@[2 * i], other_lines@[2 * i + 1]),
{
    let l1 = line[0];
    let l2 = line[1];
    let total = collisions.len();
    let olen = other_lines.len();
    let mut out: Vec<bool> = Vec::new();
    let mut i: usize = 0;
    while i < total
        invariant
            total == old(collisions)@.len(),
            total * 2 == olen,
            olen == other_lines@.len(),
            0 <= i <= total,
            out@.len() == i,
            l1 == line@[0],
            l2 == line@[1],
            in_world(l1),
            in_world(l2),
            forall|k: int| 0 <= k < other_lines@.len() ==> in_world(#[trigger] other_lines@[k]),
            forall|k: int|
                0 <= k < i ==> #[trigger] out@[k] == spec_line_line(
                    line@[0],
                    line@[1],
                    other_lines@[2 * k],
                    other_lines@[2 * k + 1],
                ),
        decreases total - i,
    {
        proof {
            assert(2 * i + 1 < olen) by (nonlinear_arith)
                requires
                    i < total,
                    total * 2 == olen,
            ;
        }
        let b1 = other_lines[2 * i];
        let b2 = other_lines[2 * i + 1];
        let hit = segments_cross(l1, l2, b1, b2);
        out.push(hit);
        i = i + 1;
    }
    let mut out = out;
    core::mem::swap(&mut out, collisions);
}

} // verus!
