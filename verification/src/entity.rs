//! Entities of the physics world: tagged shapes with a position, an
//! optional radius or vertex loop, and a facing.

use vstd::prelude::*;

use crate::map::{dir_valid, in_world, Direction, Position, WORLD_MAX};

verus! {

#[derive(Clone, Copy, Debug, PartialEq, Eq, Structural)]
pub enum Shape {
    Circle,
    Polygon,
    Point,
    Line,
}

#[derive(Clone, Copy, Debug, PartialEq, Eq, Structural)]
pub enum Category {
    Player,
    Projectile,
    Obstacle,
    PowerUp,
    Pool,
    Item,
    Bush,
    Crate,
    Trap,
}

#[derive(Debug)]
pub struct Entity {
    pub id: u64,
    pub shape: Shape,
    pub position: Position,
    pub radius: u64,
    pub vertices: Vec<Position>,
    pub speed: u64,
    pub category: Category,
    pub direction: Direction,
    pub is_moving: bool,
    pub name: String,
}

/// The mathematical shadow of an [`Entity`].
#[verifier::ext_equal]
pub ghost struct EntityV {
    pub id: u64,
    pub shape: Shape,
    pub position: Position,
    pub radius: u64,
    pub vertices: Seq<Position>,
    pub speed: u64,
    pub category: Category,
    pub direction: Direction,
    pub is_moving: bool,
    pub name: Seq<char>,
}

impl DeepView for Entity {
    type V = EntityV;

    open spec fn deep_view(&self) -> EntityV {
        EntityV {
            id: self.id,
            shape: self.shape,
            position: self.position,
            radius: self.radius,
            vertices: self.vertices.deep_view(),
            speed: self.speed,
            category: self.category,
            direction: self.direction,
            is_moving: self.is_moving,
            name: self.name.deep_view(),
        }
    }
}

/// An entity the collision arithmetic can handle: everything it owns lies
/// on the map and its radius is in range.
pub open spec fn entity_wf(e: EntityV) -> bool {
    &&& in_world(e.position)
    &&& e.radius <= WORLD_MAX as u64
    &&& dir_valid(e.direction)
    &&& forall|i: int| 0 <= i < e.vertices.len() ==> in_world(#[trigger] e.vertices[i])
}

impl Entity {
    /// A point entity.
    pub fn new_point(id: u64, position: Position) -> (r: Entity)
        ensures
            r.deep_view() == (EntityV {
                id,
                shape: Shape::Point,
                position,
                radius: 0u64,
                vertices: Seq::empty(),
                speed: 0u64,
                category: Category::Obstacle,
                direction: Direction { x: 0, y: 0 },
                is_moving: false,
                name: Seq::<char>::empty(),
            }),
    {
        let r = Entity {
            id,
            shape: Shape::Point,
            position,
            radius: 0,
            vertices: Vec::new(),
            speed: 0,
            category: Category::Obstacle,
            direction: Direction { x: 0, y: 0 },
            is_moving: false,
            name: String::new(),
        };
        proof {
            assert(r.deep_view() =~= (EntityV {
                id,
                shape: Shape::Point,
                position,
                radius: 0u64,
                vertices: Seq::empty(),
                speed: 0u64,
                category: Category::Obstacle,
                direction: Direction { x: 0, y: 0 },
                is_moving: false,
                name: Seq::<char>::empty(),
            }));
        }
        r
    }

    /// A line entity through the given vertices.
    pub fn new_line(id: u64, vertices: Vec<Position>) -> (r: Entity)
        ensures
            r.shape == Shape::Line,
            r.id == id,
            r.deep_view().vertices == vertices.deep_view(),
            r.category == Category::Obstacle,
            r.position == (Position { x: 0, y: 0 }),
            r.radius == 0,
    {
        Entity {
            id,
            shape: Shape::Line,
            position: Position { x: 0, y: 0 },
            radius: 0,
            vertices,
            speed: 0,
            category: Category::Obstacle,
            direction: Direction { x: 0, y: 0 },
            is_moving: false,
            name: String::new(),
        }
    }

    /// A polygon entity over the given vertex loop.
    pub fn new_polygon(id: u64, vertices: Vec<Position>) -> (r: Entity)
        ensures
            r.shape == Shape::Polygon,
            r.id == id,
            r.deep_view().vertices == vertices.deep_view(),
            r.category == Category::Obstacle,
            r.position == (Position { x: 0, y: 0 }),
            r.radius == 0,
    {
        Entity {
            id,
            shape: Shape::Polygon,
            position: Position { x: 0, y: 0 },
            radius: 0,
            vertices,
            speed: 0,
            category: Category::Obstacle,
            direction: Direction { x: 0, y: 0 },
            is_moving: false,
            name: String::new(),
        }
    }
}

/// The pairwise collision dispatch over shape tags, exactly the pairs the
/// engine supports; an unsupported pairing never collides.
pub open spec fn spec_pair_collides(a: EntityV, b: EntityV) -> bool {
    match (a.shape, b.shape) {
        (Shape::Circle, Shape::Circle) => crate::collision_detection::spec_circle_circle(
            a.position,
            a.radius as int,
            b.position,
            b.radius as int,
        ),
        (Shape::Circle, Shape::Polygon) => crate::collision_detection::spec_circle_polygon(
            a.position,
            a.radius as int,
            b.vertices,
        ),
        (Shape::Point, Shape::Circle) => crate::collision_detection::spec_point_circle(
            a.position,
            b.position,
            b.radius as int,
        ),
        (Shape::Line, Shape::Circle) => crate::collision_detection::spec_line_circle(
            a.vertices[0],
            a.vertices[1],
            b.position,
            b.radius as int,
        ),
        (Shape::Line, Shape::Polygon) => crate::collision_detection::spec_line_polygon(
            a.vertices[0],
            a.vertices[1],
            b.vertices,
        ),
        (Shape::Polygon, Shape::Circle) => crate::collision_detection::spec_circle_polygon(
            b.position,
            b.radius as int,
            a.vertices,
        ),
        _ => false,
    }
}

/// The ids of the other entities this one collides with, in their order.
pub open spec fn spec_colliding_ids(me: EntityV, es: Seq<EntityV>) -> Seq<u64>
    decreases es.len(),
{
    if es.len() == 0 {
        Seq::empty()
    } else {
        let rest = spec_colliding_ids(me, es.drop_first());
        if es[0].id != me.id && spec_pair_collides(me, es[0]) {
            seq![es[0].id] + rest
        } else {
            rest
        }
    }
}

/// An entity whose shape payload matches its tag well enough for the
/// dispatch: a line carries its two endpoints, a polygon at least one.
pub open spec fn entity_shape_ok(e: EntityV) -> bool {
    match e.shape {
        Shape::Line => e.vertices.len() == 2,
        Shape::Polygon => e.vertices.len() >= 1,
        _ => true,
    }
}

impl Entity {
    /// The ids of the entities this one collides with, dispatching the
    /// right predicate per shape pair.
    pub fn collides_with(&self, entities: &Vec<Entity>) -> (r: Vec<u64>)
        requires
            entity_wf(self.deep_view()),
            entity_shape_ok(self.deep_view()),
            forall|i: int|
                0 <= i < entities@.len() ==> entity_wf((#[trigger] entities@[i]).deep_view())
                    && entity_shape_ok(entities@[i].deep_view()),
        ensures
            r@ == spec_colliding_ids(self.deep_view(), entities.deep_view()),
    {
        let ghost es = entities.deep_view();
        proof {
            assert(es.skip(0) =~= es);
        }
        let mut result: Vec<u64> = Vec::new();
        let mut i: usize = 0;
        while i < entities.len()
            invariant
                es == entities.deep_view(),
                0 <= i <= es.len(),
                entity_wf(self.deep_view()),
                entity_shape_ok(self.deep_view()),
                forall|k: int|
                    0 <= k < entities@.len() ==> entity_wf((#[trigger] entities@[k]).deep_view())
                        && entity_shape_ok(entities@[k].deep_view()),
                spec_colliding_ids(self.deep_view(), es) =~= result@ + spec_colliding_ids(
                    self.deep_view(),
                    es.skip(i as int),
                ),
            decreases es.len() - i,
        {
            proof {
                assert(es.skip(i as int)[0] == es[i as int]);
                assert(es.skip(i as int).drop_first() =~= es.skip(i + 1));
                assert(es[i as int] == entities@[i as int].deep_view());
            }
            let other = &entities[i];
            if other.id != self.id {
                let colliding: bool = match (self.shape, other.shape) {
                    (Shape::Circle, Shape::Circle) => crate::collision_detection::circle_circle_collision(
                        self,
                        other,
                    ),
                    (Shape::Circle, Shape::Polygon) => crate::collision_detection::circle_polygon_collision(
                        self,
                        other,
                    ),
                    (Shape::Point, Shape::Circle) => crate::collision_detection::point_circle_collision(
                        self,
                        other,
                    ),
                    (Shape::Line, Shape::Circle) => crate::collision_detection::line_circle_collision(
                        self,
                        other,
                    ),
                    (Shape::Line, Shape::Polygon) => crate::collision_detection::line_polygon_collision(
                        self,
                        other,
                    ),
                    (Shape::Polygon, Shape::Circle) => crate::collision_detection::circle_polygon_collision(
                        other,
                        self,
                    ),
                    _ => false,
                };
                if colliding {
                    result.push(other.id);
                }
            }
            proof {
                assert(spec_colliding_ids(self.deep_view(), es) =~= result@ + spec_colliding_ids(
                    self.deep_view(), es.skip(i + 1)));
            }
            i = i + 1;
        }
        proof {
            assert(es.skip(es.len() as int) =~= Seq::<EntityV>::empty());
        }
        result
    }
}

} // verus!
