//! Ear-clipping triangulation: a concave simple polygon is cut into
//! triangles; a polygon that is already convex is passed through whole.

use vstd::prelude::*;

use crate::entity::{entity_wf, Entity, EntityV, Shape};
use crate::map::{in_world, Position};

verus! {

/// A polygon no ear-clipping step can make progress on: malformed input.
/// The error carries the earless vertex loop the clipping got stuck on.
#[derive(Debug)]
pub enum TriangulationError {
    NoEarFound(Vec<Position>),
}

/// The turn direction at `current`: the cross product of the vectors
/// toward its two neighbors.
pub open spec fn spec_cross_at(prev: Position, current: Position, next: Position) -> int {
    (prev.x - current.x) * (next.y - current.y) - (prev.y - current.y) * (next.x - current.x)
}

fn cross_at(prev: Position, current: Position, next: Position) -> (r: i128)
    requires
        in_world(prev),
        in_world(current),
        in_world(next),
    ensures
        r == spec_cross_at(prev, current, next),
{
    let ax: i128 = (prev.x as i128) - (current.x as i128);
    let ay: i128 = (prev.y as i128) - (current.y as i128);
    let bx: i128 = (next.x as i128) - (current.x as i128);
    let by: i128 = (next.y as i128) - (current.y as i128);
    proof {
        let a1: int = ax as int;
        let a2: int = ay as int;
        let b1: int = bx as int;
        let b2: int = by as int;
        assert((-0x4000_0000_0000_0000 <= a1 * b2 <= 0x4000_0000_0000_0000)
            && (-0x4000_0000_0000_0000 <= a2 * b1 <= 0x4000_0000_0000_0000)) by (nonlinear_arith)
            requires
                -0x8000_0000 <= a1 <= 0x8000_0000,
                -0x8000_0000 <= a2 <= 0x8000_0000,
                -0x8000_0000 <= b1 <= 0x8000_0000,
                -0x8000_0000 <= b2 <= 0x8000_0000,
        ;
    }
    ax * by - ay * bx
}

/// Every consecutive vertex triple of the loop turns left or runs
/// straight: the loop is convex.
pub open spec fn spec_polygon_convex(vs: Seq<Position>) -> bool {
    forall|i: int|
        0 <= i < vs.len() ==> spec_cross_at(
            vs[if i == 0 {
                vs.len() - 1
            } else {
                i - 1
            }],
            #[trigger] vs[i],
            vs[if i + 1 == vs.len() {
                0int
            } else {
                i + 1
            }],
        ) >= 0
}

#[verifier::rlimit(100)]
fn is_polygon_convex(vertices: &Vec<Position>) -> (r: bool)
    requires
        vertices@.len() >= 1,
        forall|i: int| 0 <= i < vertices@.len() ==> in_world(#[trigger] vertices@[i]),
    ensures
        r == spec_polygon_convex(vertices@),
{
    let n = vertices.len();
    let mut i: usize = 0;
    while i < n
        invariant
            n == vertices@.len(),
            0 <= i <= n,
            forall|k: int|
                0 <= k < i ==> spec_cross_at(
                    vertices@[if k == 0 {
                        vertices@.len() - 1
                    } else {
                        k - 1
                    }],
                    #[trigger] vertices@[k],
                    vertices@[if k + 1 == vertices@.len() {
                        0int
                    } else {
                        k + 1
                    }],
                ) >= 0,
        decreases n - i,
    {
        let prev: Position = if i == 0 {
            vertices[n - 1]
        } else {
            vertices[i - 1]
        };
        let next: Position = if i + 1 == n {
            vertices[0]
        } else {
            vertices[i + 1]
        };
        if cross_at(prev, vertices[i], next) < 0 {
            return false;
        }
        i = i + 1;
    }
    true
}

/// Whether any vertex of the loop, besides the triangle's own corners,
/// lies strictly inside the triangle `(a, b, c)`.
pub open spec fn spec_some_vertex_inside(
    a: Position,
    b: Position,
    c: Position,
    vs: Seq<Position>,
) -> bool {
    exists|i: int|
        0 <= i < vs.len() && (#[trigger] vs[i]) != a && vs[i] != b && vs[i] != c
            && spec_point_in_triangle(a, b, c, vs[i])
}

/// Strictly inside the clockwise triangle: all three edge cross products
/// are negative, as the ear test has it.
pub open spec fn spec_point_in_triangle(a: Position, b: Position, c: Position, p: Position) -> bool {
    &&& (b.x - a.x) * (p.y - a.y) - (b.y - a.y) * (p.x - a.x) < 0
    &&& (c.x - b.x) * (p.y - b.y) - (c.y - b.y) * (p.x - b.x) < 0
    &&& (a.x - c.x) * (p.y - c.y) - (a.y - c.y) * (p.x - c.x) < 0
}

fn edge_side(a: Position, b: Position, p: Position) -> (r: i128)
    requires
        in_world(a),
        in_world(b),
        in_world(p),
    ensures
        r == (b.x - a.x) * (p.y - a.y) - (b.y - a.y) * (p.x - a.x),
{
    let ux: i128 = (b.x as i128) - (a.x as i128);
    let uy: i128 = (b.y as i128) - (a.y as i128);
    let wx: i128 = (p.x as i128) - (a.x as i128);
    let wy: i128 = (p.y as i128) - (a.y as i128);
    proof {
        let u1: int = ux as int;
        let u2: int = uy as int;
        let w1: int = wx as int;
        let w2: int = wy as int;
        assert((-0x4000_0000_0000_0000 <= u1 * w2 <= 0x4000_0000_0000_0000)
            && (-0x4000_0000_0000_0000 <= u2 * w1 <= 0x4000_0000_0000_0000)) by (nonlinear_arith)
            requires
                -0x8000_0000 <= u1 <= 0x8000_0000,
                -0x8000_0000 <= u2 <= 0x8000_0000,
                -0x8000_0000 <= w1 <= 0x8000_0000,
                -0x8000_0000 <= w2 <= 0x8000_0000,
        ;
    }
    ux * wy - uy * wx
}

/// Vertex `i` of the loop is an ear: its triangle turns the convex way
/// and holds no other vertex of the loop strictly inside.
pub open spec fn spec_is_ear(vs: Seq<Position>, i: int) -> bool {
    let prev = vs[if i == 0 {
        vs.len() - 1
    } else {
        i - 1
    }];
    let next = vs[if i + 1 == vs.len() {
        0int
    } else {
        i + 1
    }];
    spec_cross_at(prev, vs[i], next) > 0 && !spec_some_vertex_inside(prev, vs[i], next, vs)
}

/// Some vertex of the loop is an ear.
pub open spec fn spec_has_ear(vs: Seq<Position>) -> bool {
    exists|i: int| 0 <= i < vs.len() && spec_is_ear(vs, i)
}

/// The vertices kept by the collinearity cleanup: a vertex stays when the
/// cross product of the edges toward its original neighbours is not zero.
pub open spec fn cleaned_vertices_upto(vs: Seq<Position>, i: int) -> Seq<Position>
    decreases i,
{
    if i <= 0 {
        Seq::empty()
    } else {
        cleaned_vertices_upto(vs, i - 1) + if spec_cross_at(
            vs[if i - 1 == 0 {
                vs.len() - 1
            } else {
                i - 2
            }],
            vs[i - 1],
            vs[if i == vs.len() {
                0int
            } else {
                i
            }],
        ) != 0 {
            seq![vs[i - 1]]
        } else {
            Seq::empty()
        }
    }
}

pub open spec fn cleaned_vertices(vs: Seq<Position>) -> Seq<Position> {
    cleaned_vertices_upto(vs, vs.len() as int)
}

/// Drops every vertex that lies on the straight line through its original
/// neighbours.
fn remove_redundant_vertices(vertices: &Vec<Position>) -> (r: Vec<Position>)
    requires
        vertices@.len() >= 1,
        forall|i: int| 0 <= i < vertices@.len() ==> in_world(#[trigger] vertices@[i]),
    ensures
        r@ == cleaned_vertices(vertices@),
        forall|i: int| 0 <= i < r@.len() ==> in_world(#[trigger] r@[i]),
        forall|i: int| 0 <= i < r@.len() ==> vertices@.contains(#[trigger] r@[i]),
{
    let n = vertices.len();
    let mut out: Vec<Position> = Vec::new();
    let mut i: usize = 0;
    while i < n
        invariant
            n == vertices@.len(),
            0 <= i <= n,
            out@ =~= cleaned_vertices_upto(vertices@, i as int),
            forall|k: int| 0 <= k < out@.len() ==> in_world(#[trigger] out@[k]),
            forall|k: int| 0 <= k < out@.len() ==> vertices@.contains(#[trigger] out@[k]),
        decreases n - i,
    {
        let prev: Position = if i == 0 {
            vertices[n - 1]
        } else {
            vertices[i - 1]
        };
        let next: Position = if i + 1 == n {
            vertices[0]
        } else {
            vertices[i + 1]
        };
        if cross_at(prev, vertices[i], next) != 0 {
            out.push(vertices[i]);
            proof {
                assert(vertices@.contains(vertices@[i as int]));
            }
        }
        proof {
            assert(out@ =~= cleaned_vertices_upto(vertices@, i + 1));
        }
        i = i + 1;
    }
    out
}

fn triangle_has_point_inside(a: Position, b: Position, c: Position, vertices: &Vec<Position>) -> (r:
    bool)
    requires
        in_world(a),
        in_world(b),
        in_world(c),
        forall|i: int| 0 <= i < vertices@.len() ==> in_world(#[trigger] vertices@[i]),
    ensures
        r == spec_some_vertex_inside(a, b, c, vertices@),
{
    let n = vertices.len();
    let mut i: usize = 0;
    while i < n
        invariant
            n == vertices@.len(),
            0 <= i <= n,
            forall|k: int|
                0 <= k < i ==> !((#[trigger] vertices@[k]) != a && vertices@[k] != b && vertices@[k]
                    != c && spec_point_in_triangle(a, b, c, vertices@[k])),
        decreases n - i,
    {
        let v = vertices[i];
        let own_corner = (v.x == a.x && v.y == a.y) || (v.x == b.x && v.y == b.y) || (v.x == c.x
            && v.y == c.y);
        if !own_corner {
            let s1 = edge_side(a, b, v);
            let s2 = edge_side(b, c, v);
            let s3 = edge_side(c, a, v);
            if s1 < 0 && s2 < 0 && s3 < 0 {
                return true;
            }
        }
        i = i + 1;
    }
    false
}

/// Cuts one ear after another off the vertex loop until only a triangle
/// is left: exactly `n - 2` triangles come out of an `n`-vertex loop,
/// every corner drawn from the loop. A loop that still has more than
/// three vertices but no ear is malformed; the error hands that stuck
/// loop back. A three-vertex loop always succeeds.
#[verifier::rlimit(100)]
pub fn triangulate_polygon(vertices: &Vec<Position>) -> (r: Result<Vec<Entity>, TriangulationError>)
    requires
        vertices@.len() >= 3,
        forall|i: int| 0 <= i < vertices@.len() ==> in_world(#[trigger] vertices@[i]),
    ensures
        match r {
            Ok(triangles) => {
                &&& triangles@.len() == vertices@.len() - 2
                &&& forall|i: int|
                    0 <= i < triangles@.len() ==> (#[trigger] triangles@[i]).shape == Shape::Polygon
                        && triangles@[i].vertices@.len() == 3
                &&& forall|i: int, j: int|
                    0 <= i < triangles@.len() && 0 <= j < 3 ==> vertices@.contains(
                        #[trigger] triangles@[i].vertices@[j],
                    )
            },
            Err(e) => {
                let stuck = e->0;
                &&& stuck@.len() > 3
                &&& !spec_has_ear(stuck@)
                &&& forall|k: int| 0 <= k < stuck@.len() ==> vertices@.contains(#[trigger] stuck@[k])
            },
        },
        vertices@.len() == 3 ==> r is Ok,
{
    let ghost n = vertices@.len();
    let ghost input = vertices@;
    let mut result: Vec<Entity> = Vec::new();
    let mut work: Vec<Position> = Vec::new();
    let mut ci: usize = 0;
    while ci < vertices.len()
        invariant
            0 <= ci <= input.len(),
            work@ =~= input.take(ci as int),
        decreases input.len() - ci,
    {
        work.push(vertices[ci]);
        proof {
            assert(work@ =~= input.take(ci + 1));
        }
        ci = ci + 1;
    }
    proof {
        assert(work@ =~= input);
        assert forall|k: int| 0 <= k < work@.len() implies in_world(#[trigger] work@[k])
            && input.contains(work@[k]) by {
            assert(work@[k] == input[k]);
        }
    }
    while work.len() > 3
        invariant
            3 <= work@.len() <= n,
            result@.len() + work@.len() == n,
            forall|k: int| 0 <= k < work@.len() ==> in_world(#[trigger] work@[k]),
            forall|k: int| 0 <= k < work@.len() ==> input.contains(#[trigger] work@[k]),
            forall|i: int|
                0 <= i < result@.len() ==> (#[trigger] result@[i]).shape == Shape::Polygon
                    && result@[i].vertices@.len() == 3,
            forall|i: int, j: int|
                0 <= i < result@.len() && 0 <= j < 3 ==> input.contains(
                    #[trigger] result@[i].vertices@[j],
                ),
        decreases work@.len(),
    {
        let len = work.len();
        let mut ear_at: usize = len;
        let mut i: usize = 0;
        while i < len && ear_at == len
            invariant
                len == work@.len(),
                3 < len,
                forall|k: int| 0 <= k < work@.len() ==> in_world(#[trigger] work@[k]),
                0 <= i <= len,
                ear_at == len || ear_at < len,
                ear_at == len ==> forall|k: int| 0 <= k < i ==> !spec_is_ear(work@, k),
            decreases len - i,
        {
            let prev: Position = if i == 0 {
                work[len - 1]
            } else {
                work[i - 1]
            };
            let cur: Position = work[i];
            let next: Position = if i + 1 == len {
                work[0]
            } else {
                work[i + 1]
            };
            let convex_turn = cross_at(prev, cur, next) > 0;
            if convex_turn && !triangle_has_point_inside(prev, cur, next, &work) {
                ear_at = i;
            }
            proof {
                if ear_at == len {
                    assert(!spec_is_ear(work@, i as int));
                }
            }
            i = i + 1;
        }
        if ear_at == len {
            proof {
                assert(!spec_has_ear(work@));
            }
            return Err(TriangulationError::NoEarFound(work));
        }
        let prev: Position = if ear_at == 0 {
            work[len - 1]
        } else {
            work[ear_at - 1]
        };
        let cur: Position = work[ear_at];
        let next: Position = if ear_at + 1 == len {
            work[0]
        } else {
            work[ear_at + 1]
        };
        let mut tri: Vec<Position> = Vec::new();
        tri.push(prev);
        tri.push(cur);
        tri.push(next);
        let ghost tq = tri.deep_view();
        let triangle = Entity::new_polygon(1, tri);
        result.push(triangle);
        proof {
            let last = result@.len() - 1;
            assert(result@[last].shape == Shape::Polygon);
            assert(result@[last].deep_view().vertices =~= tq);
            assert(result@[last].vertices@.len() == result@[last].deep_view().vertices.len());
            assert(result@[last].vertices@[0] == result@[last].deep_view().vertices[0]);
            assert(result@[last].vertices@[1] == result@[last].deep_view().vertices[1]);
            assert(result@[last].vertices@[2] == result@[last].deep_view().vertices[2]);
            assert(tq[0] == prev && tq[1] == cur && tq[2] == next);
        }
        let ghost before = work@;
        let _ = work.remove(ear_at);
        proof {
            assert forall|k: int| 0 <= k < work@.len() implies in_world(#[trigger] work@[k])
                && input.contains(work@[k]) by {
                if k < ear_at {
                    assert(work@[k] == before[k]);
                } else {
                    assert(work@[k] == before[k + 1]);
                }
            }
        }
    }
    let mut tri: Vec<Position> = Vec::new();
    tri.push(work[0]);
    tri.push(work[1]);
    tri.push(work[2]);
    let ghost tq = tri.deep_view();
    let triangle = Entity::new_polygon(1, tri);
    result.push(triangle);
    proof {
        let last = result@.len() - 1;
        assert(result@[last].shape == Shape::Polygon);
        assert(result@[last].deep_view().vertices =~= tq);
        assert(result@[last].vertices@.len() == result@[last].deep_view().vertices.len());
        assert(result@[last].vertices@[0] == result@[last].deep_view().vertices[0]);
        assert(result@[last].vertices@[1] == result@[last].deep_view().vertices[1]);
        assert(result@[last].vertices@[2] == result@[last].deep_view().vertices[2]);
        assert(tq[0] == work@[0] && tq[1] == work@[1] && tq[2] == work@[2]);
    }
    Ok(result)
}

/// Collinear vertices are dropped first; then a convex (or degenerate,
/// fewer than three vertices) loop passes through whole, and a concave
/// one is cut into its `n - 2` triangles. A convex or degenerate loop
/// always succeeds, as does a cleaned loop of exactly three vertices.
pub fn maybe_triangulate_polygon(polygon: Entity) -> (r: Result<Vec<Entity>, TriangulationError>)
    requires
        entity_wf(polygon.deep_view()),
        polygon.vertices@.len() >= 1,
    ensures
        ({
            let cleaned = cleaned_vertices(polygon.deep_view().vertices);
            let pass_through = cleaned.len() < 3 || spec_polygon_convex(cleaned);
            match r {
                Ok(pieces) => {
                    &&& pass_through ==> (pieces@.len() == 1 && pieces@[0].deep_view() == (EntityV {
                        vertices: cleaned,
                        ..polygon.deep_view()
                    }))
                    &&& !pass_through ==> {
                        &&& pieces@.len() == cleaned.len() - 2
                        &&& forall|i: int|
                            0 <= i < pieces@.len() ==> (#[trigger] pieces@[i]).shape
                                == Shape::Polygon && pieces@[i].vertices@.len() == 3
                        &&& forall|i: int, j: int|
                            0 <= i < pieces@.len() && 0 <= j < 3 ==> cleaned.contains(
                                #[trigger] pieces@[i].vertices@[j],
                            )
                    }
                },
                Err(e) => {
                    let stuck = e->0;
                    &&& !pass_through
                    &&& stuck@.len() > 3
                    &&& !spec_has_ear(stuck@)
                    &&& forall|k: int|
                        0 <= k < stuck@.len() ==> cleaned.contains(#[trigger] stuck@[k])
                },
            }
        }),
        (cleaned_vertices(polygon.deep_view().vertices).len() <= 3 || spec_polygon_convex(
            cleaned_vertices(polygon.deep_view().vertices),
        )) ==> r is Ok,
{
    proof {
        assert forall|k: int| 0 <= k < polygon.vertices@.len() implies in_world(
            #[trigger] polygon.vertices@[k],
        ) by {
            assert(polygon.deep_view().vertices[k] == polygon.vertices@[k]);
        }
        assert(polygon.deep_view().vertices =~= polygon.vertices@);
    }
    let cleaned = remove_redundant_vertices(&polygon.vertices);
    if cleaned.len() < 3 || is_polygon_convex(&cleaned) {
        let ghost cleaned_seq = cleaned@;
        let mut piece = polygon;
        piece.vertices = cleaned;
        let mut one: Vec<Entity> = Vec::new();
        proof {
            assert(piece.deep_view() =~= (EntityV {
                vertices: cleaned_seq,
                ..polygon.deep_view()
            }));
        }
        one.push(piece);
        return Ok(one);
    }
    triangulate_polygon(&cleaned)
}

/// Triangulates each obstacle in turn, concatenating the convex pieces;
/// the first malformed obstacle aborts the whole batch with its stuck,
/// earless loop.
pub fn maybe_triangulate_concave_entities(obstacles: Vec<Entity>) -> (r: Result<
    Vec<Entity>,
    TriangulationError,
>)
    requires
        forall|i: int|
            0 <= i < obstacles@.len() ==> entity_wf((#[trigger] obstacles@[i]).deep_view())
                && obstacles@[i].vertices@.len() >= 1,
    ensures
        match r {
            Ok(pieces) => forall|i: int|
                0 <= i < pieces@.len() ==> ((#[trigger] pieces@[i]).shape == Shape::Polygon
                    || exists|j: int|
                    0 <= j < obstacles@.len() && (#[trigger] obstacles@[j]).shape == pieces@[
                        i
                    ].shape),
            Err(e) => e->0@.len() > 3 && !spec_has_ear(e->0@),
        },
{
    let ghost all = obstacles@;
    let mut result: Vec<Entity> = Vec::new();
    let mut rest = obstacles;
    let total: usize = rest.len();
    let mut done: usize = 0;
    while rest.len() > 0
        invariant
            all.len() == total,
            done + rest@.len() == all.len(),
            rest@ =~= all.subrange(done as int, all.len() as int),
            forall|k: int|
                0 <= k < all.len() ==> entity_wf((#[trigger] all[k]).deep_view()) && all[
                    k
                ].vertices@.len() >= 1,
            forall|i: int|
                0 <= i < result@.len() ==> ((#[trigger] result@[i]).shape == Shape::Polygon
                    || exists|j: int|
                    0 <= j < all.len() && (#[trigger] all[j]).shape == result@[i].shape),
        decreases rest@.len(),
    {
        let ghost r0 = rest@;
        let obstacle = rest.remove(0);
        proof {
            assert(rest@ =~= r0.drop_first());
            assert(all.subrange(done as int, all.len() as int)[0] == all[done as int]);
            assert(obstacle == all[done as int]);
        }
        let ghost shape0 = obstacle.shape;
        let ghost oldlen = result@.len();
        let mut pieces = match maybe_triangulate_polygon(obstacle) {
            Ok(p) => p,
            Err(e) => {
                return Err(e);
            },
        };
        let ghost pv = pieces@;
        proof {
            assert forall|i: int|
                0 <= i < pv.len() implies ((#[trigger] pv[i]).shape == Shape::Polygon || pv[
                i
            ].shape == shape0) by {
                if pv.len() == 1 && pv[i].deep_view().shape == shape0 {
                }
            }
        }
        result.append(&mut pieces);
        proof {
            assert forall|i: int|
                0 <= i < result@.len() implies ((#[trigger] result@[i]).shape == Shape::Polygon
                    || exists|j: int|
                    0 <= j < all.len() && (#[trigger] all[j]).shape == result@[i].shape) by {
                if i < oldlen {
                } else {
                    assert(result@[i] == pv[i - oldlen]);
                    if pv[i - oldlen].shape == shape0 {
                        assert(all[done as int].shape == shape0);
                    }
                }
            }
        }
        done = done + 1;
    }
    Ok(result)
}

} // verus!
