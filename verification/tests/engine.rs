use game_backend::character::{CharacterConfig, SkillSlot};
use game_backend::collision_detection::{
    circle_circle_collision, line_circle_collision, line_line_collision, line_multiline_collision,
    point_circle_collision, point_polygon_collision,
};
use game_backend::config::Config;
use game_backend::ear_clipping::maybe_triangulate_polygon;
use game_backend::effect::{
    modify_attribute, revert_attribute, Attribute, AttributeChange, AttributeModifier, Effect,
    TimeType,
};
use game_backend::entity::{Entity, Shape};
use game_backend::game::{
    EntityOwner, GameConfig, GameState, KillEvent, SkillParams, Zone, ZoneModificationConfig,
    ZoneModificationModifier,
};
use game_backend::map::{
    collision_with_edge, hit_boxes_collide, next_position, Direction, Position,
};
use game_backend::player::Player;
use game_backend::projectile::ProjectileConfig;
use game_backend::skill::{SkillConfig, SkillMechanic};
use game_backend::time_utils::{add_millis, millis_to_u128, sub_millis, u128_to_millis, MillisTime};

fn pos(x: i64, y: i64) -> Position {
    Position { x, y }
}

fn circle(id: u64, x: i64, y: i64, radius: u64) -> Entity {
    let mut e = Entity::new_point(id, pos(x, y));
    e.shape = Shape::Circle;
    e.radius = radius;
    e
}

fn health_effect(name: &str, value: i64, time_type: TimeType) -> Effect {
    Effect {
        name: name.to_string(),
        is_reversable: true,
        effect_time_type: time_type,
        player_attributes: vec![AttributeChange {
            attribute: Attribute::Health,
            modifier: AttributeModifier::Additive,
            value,
        }],
        projectile_attributes: Vec::new(),
        skills_keys_to_execute: Vec::new(),
    }
}

fn projectile_config(name: &str) -> ProjectileConfig {
    ProjectileConfig {
        name: name.to_string(),
        base_damage: 10,
        base_speed: 5,
        base_size: 1,
        on_hit_effects: Vec::new(),
        duration_ms: 48,
        max_distance: 1000,
        remove_on_collision: true,
    }
}

fn character_with(skills: Vec<SkillSlot>) -> CharacterConfig {
    CharacterConfig {
        name: "ranger".to_string(),
        active: true,
        base_speed: 10,
        base_size: 5,
        base_health: 100,
        max_inventory_size: 2,
        burst_loads: 3,
        skills,
    }
}

fn base_config(characters: Vec<CharacterConfig>) -> Config {
    Config {
        effects: Vec::new(),
        loots: Vec::new(),
        projectiles: Vec::new(),
        skills: Vec::new(),
        characters,
        game: GameConfig {
            outer_radius: 20000,
            inner_radius: 20000,
            loot_interval_ms: 1000,
            zone_starting_radius: 10000,
            zone_modifications: Vec::new(),
            auto_aim_max_distance: 2000,
            initial_positions: vec![pos(0, 0), pos(100, 0)],
            tick_interval_ms: 16,
        },
    }
}

#[test]
fn millis_round_trip() {
    let t = MillisTime { high: 3, low: 42 };
    assert_eq!(millis_to_u128(t), 3u128 * (1u128 << 64) + 42);
    let back = u128_to_millis(millis_to_u128(t));
    assert_eq!(back.high, 3);
    assert_eq!(back.low, 42);
    let sum = add_millis(MillisTime { high: 0, low: u64::MAX }, MillisTime { high: 0, low: 1 });
    assert_eq!(sum.high, 1);
    assert_eq!(sum.low, 0);
    let diff = sub_millis(MillisTime { high: 0, low: 5 }, MillisTime { high: 0, low: 9 });
    assert_eq!(millis_to_u128(diff), 0);
}

#[test]
fn additive_modify_and_revert_round_trip() {
    let change = AttributeChange {
        attribute: Attribute::Health,
        modifier: AttributeModifier::Additive,
        value: 10,
    };
    let mut health: u64 = 90;
    modify_attribute(&mut health, &change);
    assert_eq!(health, 100);
    revert_attribute(&mut health, &change);
    assert_eq!(health, 90);
}

#[test]
fn negative_additive_revert_restores() {
    let drain = AttributeChange {
        attribute: Attribute::Health,
        modifier: AttributeModifier::Additive,
        value: -30,
    };
    let mut health: u64 = 90;
    modify_attribute(&mut health, &drain);
    assert_eq!(health, 60);
    revert_attribute(&mut health, &drain);
    assert_eq!(health, 90);
}

#[test]
fn collinear_vertices_are_cleaned() {
    // A square with one extra collinear vertex on the bottom edge.
    let square = Entity::new_polygon(
        1,
        vec![pos(0, 0), pos(0, 10), pos(10, 10), pos(10, 0), pos(5, 0)],
    );
    let pieces = maybe_triangulate_polygon(square).expect("valid polygon");
    assert_eq!(pieces.len(), 1);
    assert_eq!(pieces[0].vertices.len(), 4);
    assert!(!pieces[0].vertices.contains(&pos(5, 0)));
}

#[test]
fn effect_reversal_round_trip_on_player() {
    let character = character_with(Vec::new());
    let mut player = Player::new(7, character, pos(0, 0));
    assert_eq!(player.health, 100);
    let boost = health_effect("vigor", 10, TimeType::Permanent);
    player.apply_effect(&boost, EntityOwner::Loot);
    assert_eq!(player.health, 110);
    player.remove_effect(&"vigor".to_string());
    assert_eq!(player.health, 100);
    assert_eq!(player.effects.len(), 0);
}

#[test]
fn periodic_effect_three_triggers_then_expires() {
    let character = character_with(Vec::new());
    let mut player = Player::new(1, character, pos(0, 0));
    let periodic = health_effect(
        "burn",
        -5,
        TimeType::Periodic {
            instant_application: false,
            interval_ms: 1000,
            trigger_count: 3,
            time_since_last_trigger: 0,
        },
    );
    player.apply_effect(&periodic, EntityOwner::Zone);
    let mut total = 0;
    for _ in 0..3 {
        let damages = player.run_effects(1000);
        total += damages.len();
    }
    assert_eq!(total, 3);
    player.remove_expired_effects();
    assert_eq!(player.effects.len(), 0);
}

#[test]
fn periodic_effect_carries_remainder() {
    let character = character_with(Vec::new());
    let mut player = Player::new(1, character, pos(0, 0));
    let periodic = health_effect(
        "burn",
        -5,
        TimeType::Periodic {
            instant_application: false,
            interval_ms: 1000,
            trigger_count: 3,
            time_since_last_trigger: 0,
        },
    );
    player.apply_effect(&periodic, EntityOwner::Zone);
    let one_big = player.run_effects(2500);
    assert_eq!(one_big.len(), 1);
    match &player.effects[0].effect.effect_time_type {
        TimeType::Periodic { time_since_last_trigger, trigger_count, .. } => {
            assert_eq!(*time_since_last_trigger, 1500);
            assert_eq!(*trigger_count, 2);
        }
        _ => panic!("expected a periodic effect"),
    }
}

#[test]
fn periodic_effect_two_small_steps_trigger_once() {
    let character = character_with(Vec::new());
    let mut player = Player::new(1, character, pos(0, 0));
    let periodic = health_effect(
        "burn",
        -5,
        TimeType::Periodic {
            instant_application: false,
            interval_ms: 1000,
            trigger_count: 3,
            time_since_last_trigger: 0,
        },
    );
    player.apply_effect(&periodic, EntityOwner::Zone);
    let first = player.run_effects(600);
    assert_eq!(first.len(), 0);
    let second = player.run_effects(600);
    assert_eq!(second.len(), 1);
}

#[test]
fn shoot_then_tick_until_projectile_expires() {
    let shoot = SkillConfig {
        name: "bolt".to_string(),
        cooldown_ms: 1000,
        execution_duration_ms: 0,
        is_passive: false,
        mechanics: vec![SkillMechanic::SimpleShoot { projectile: projectile_config("arrow") }],
        burst_loads: 0,
    };
    let character = character_with(vec![SkillSlot { key: "basic".to_string(), skill: shoot }]);
    let mut game = GameState::new(base_config(vec![character]));
    let id = game.add_player(&"ranger".to_string()).expect("character exists");
    assert_eq!(game.players.len(), 1);
    let params = SkillParams { direction: None, auto_aim: false, amount_milli: 0 };
    game.activate_skill(id, &"basic".to_string(), params);
    assert_eq!(game.projectiles.len(), 1);
    assert_eq!(game.projectiles[0].position.x, game.players[0].position.x);
    assert_eq!(game.projectiles[0].position.y, game.players[0].position.y);
    assert_eq!(game.projectiles[0].direction, game.players[0].direction);
    assert_eq!(game.projectiles[0].player_id, id);
    let mut ticks = 0;
    while !game.projectiles.is_empty() && ticks < 100 {
        game.tick(16);
        ticks += 1;
    }
    assert!(game.projectiles.is_empty());
    assert!(ticks <= 5);
}

#[test]
fn unknown_character_is_rejected() {
    let mut game = GameState::new(base_config(vec![character_with(Vec::new())]));
    let err = game.add_player(&"nobody".to_string());
    assert!(err.is_err());
}

#[test]
fn hit_skill_kill_is_attributed() {
    let hit = SkillConfig {
        name: "cleave".to_string(),
        cooldown_ms: 1000,
        execution_duration_ms: 0,
        is_passive: false,
        mechanics: vec![SkillMechanic::Hit {
            damage: 500,
            range: 500,
            cone_angle: 360,
            cone_half_cos_milli: -1000,
            on_hit_effects: Vec::new(),
        }],
        burst_loads: 0,
    };
    let character = character_with(vec![SkillSlot { key: "basic".to_string(), skill: hit }]);
    let mut game = GameState::new(base_config(vec![character]));
    let attacker = game.add_player(&"ranger".to_string()).expect("character exists");
    let victim = game.add_player(&"ranger".to_string()).expect("character exists");
    let params = SkillParams { direction: None, auto_aim: false, amount_milli: 0 };
    game.activate_skill(attacker, &"basic".to_string(), params);
    assert_eq!(game.pending_damages.len(), 1);
    assert_eq!(game.players[0].kill_count, 0);
    game.tick(16);
    assert_eq!(game.killfeed.len(), 1);
    let event: KillEvent = game.killfeed[0];
    assert_eq!(event.killed, victim);
    assert!(matches!(event.kill_by, EntityOwner::Player(a) if a == attacker));
    let killer = game.players.iter().find(|p| p.id == attacker).unwrap();
    assert_eq!(killer.kill_count, 1);
}

#[test]
fn zone_radius_steps_and_clamps() {
    let mut zone = Zone {
        center: pos(0, 0),
        radius: 100,
        current_modification: Some(ZoneModificationConfig {
            duration_ms: 10_000,
            interval_ms: 100,
            min_radius: 80,
            max_radius: 200,
            outside_radius_effects: Vec::new(),
            modification: ZoneModificationModifier::Additive(-30),
        }),
        modifications: Vec::new(),
        time_since_last_modification_ms: 0,
    };
    game_backend::game::modify_zone(&mut zone, 100);
    assert_eq!(zone.radius, 80);
}

#[test]
fn circle_collision_is_symmetric() {
    let a = circle(1, 0, 0, 10);
    let b = circle(2, 15, 0, 6);
    assert_eq!(circle_circle_collision(&a, &b), circle_circle_collision(&b, &a));
    assert!(circle_circle_collision(&a, &b));
    let far = circle(3, 100, 100, 1);
    assert_eq!(circle_circle_collision(&a, &far), circle_circle_collision(&far, &a));
    assert!(!circle_circle_collision(&a, &far));
}

#[test]
fn line_collision_is_symmetric() {
    let l1 = Entity::new_line(1, vec![pos(-10, 0), pos(10, 0)]);
    let l2 = Entity::new_line(2, vec![pos(0, -10), pos(0, 10)]);
    let l3 = Entity::new_line(3, vec![pos(20, -10), pos(20, 10)]);
    assert_eq!(line_line_collision(&l1, &l2), line_line_collision(&l2, &l1));
    assert!(line_line_collision(&l1, &l2));
    assert_eq!(line_line_collision(&l1, &l3), line_line_collision(&l3, &l1));
    assert!(!line_line_collision(&l1, &l3));
}

#[test]
fn point_and_line_circle_tests() {
    let c = circle(1, 0, 0, 5);
    let inside = Entity::new_point(2, pos(3, 0));
    let outside = Entity::new_point(3, pos(6, 0));
    assert!(point_circle_collision(&inside, &c));
    assert!(!point_circle_collision(&outside, &c));
    let crossing = Entity::new_line(4, vec![pos(-10, 0), pos(10, 0)]);
    let missing = Entity::new_line(5, vec![pos(-10, 20), pos(10, 20)]);
    assert!(line_circle_collision(&crossing, &c));
    assert!(!line_circle_collision(&missing, &c));
}

#[test]
fn point_in_square() {
    let square = Entity::new_polygon(
        1,
        vec![pos(0, 0), pos(10, 0), pos(10, 10), pos(0, 10)],
    );
    let inside = Entity::new_point(2, pos(5, 5));
    let beside = Entity::new_point(3, pos(15, 5));
    let below = Entity::new_point(4, pos(5, -5));
    assert!(point_polygon_collision(&inside, &square));
    assert!(!point_polygon_collision(&beside, &square));
    assert!(!point_polygon_collision(&below, &square));
}

#[test]
fn multiline_batch_matches_single() {
    let line = vec![pos(-10, 0), pos(10, 0)];
    let others = vec![pos(0, -10), pos(0, 10), pos(20, -10), pos(20, 10)];
    let mut flags = vec![false, false];
    line_multiline_collision(&line, &others, &mut flags);
    assert_eq!(flags, vec![true, false]);
}

#[test]
fn convex_polygon_passes_through() {
    // A counter-clockwise unit-style square, scaled by ten.
    let square = Entity::new_polygon(
        1,
        vec![pos(0, 0), pos(0, 10), pos(10, 10), pos(10, 0)],
    );
    let pieces = maybe_triangulate_polygon(square).expect("valid polygon");
    assert_eq!(pieces.len(), 1);
    assert_eq!(pieces[0].vertices.len(), 4);
}

#[test]
fn concave_polygon_yields_n_minus_two_triangles() {
    // A concave quadrilateral: the reflex dent at (4, 4).
    let dart = Entity::new_polygon(
        1,
        vec![pos(0, 0), pos(4, 4), pos(8, 0), pos(4, 10)],
    );
    let pieces = maybe_triangulate_polygon(dart).expect("valid polygon");
    assert_eq!(pieces.len(), 2);
    for piece in &pieces {
        assert_eq!(piece.vertices.len(), 3);
        assert!(matches!(piece.shape, Shape::Polygon));
    }
}

#[test]
fn movement_inside_the_map_is_uncorrected() {
    let from = pos(100, 0);
    let east = Direction { x: 1000, y: 0 };
    let stepped = next_position(&from, &east, 10, 1000);
    assert_eq!(stepped, pos(110, 0));
}

#[test]
fn movement_is_pulled_back_inside_the_map() {
    let from = pos(995, 0);
    let east = Direction { x: 1000, y: 0 };
    let stepped = next_position(&from, &east, 100, 1000);
    assert!(stepped.x * stepped.x + stepped.y * stepped.y <= 1000 * 1000);
    assert!(stepped.x < 1095);
}

#[test]
fn hit_boxes_and_world_edge() {
    assert!(hit_boxes_collide(&pos(0, 0), &pos(10, 0), 5, 5));
    assert!(!hit_boxes_collide(&pos(0, 0), &pos(11, 0), 5, 5));
    assert!(collision_with_edge(&pos(95, 0), 5, 200, 200));
    assert!(!collision_with_edge(&pos(0, 0), 5, 200, 200));
}

#[test]
fn random_spawn_lands_inside_the_disk() {
    for _ in 0..50 {
        let p = game_backend::map::random_position(2000, 2000);
        assert!(p.x * p.x + p.y * p.y <= 1000 * 1000);
    }
}

#[test]
fn crowd_control_flags() {
    assert!(game_backend::status::Effect::Petrified.is_crowd_control());
    assert!(game_backend::status::Effect::Disarmed.is_crowd_control());
    assert!(!game_backend::status::Effect::Poisoned.is_crowd_control());
    let board = game_backend::board::Board::new(4, 3);
    assert_eq!(board.width, 4);
    assert_eq!(board.height, 3);
}

#[test]
fn multishoot_fans_out() {
    // A fan of three: one shot rotated up by sixty degrees, its mirror,
    // and the center shot. cos 60 = 0.5, sin 60 ~ 0.866.
    let fan = SkillConfig {
        name: "fan".to_string(),
        cooldown_ms: 1000,
        execution_duration_ms: 0,
        is_passive: false,
        mechanics: vec![SkillMechanic::MultiShoot {
            projectile: projectile_config("arrow"),
            count: 3,
            cone_angle: 360,
            spread: vec![game_backend::map::Rotation { cos_milli: 500, sin_milli: 866 }],
        }],
        burst_loads: 0,
    };
    let character = character_with(vec![SkillSlot { key: "basic".to_string(), skill: fan }]);
    let mut game = GameState::new(base_config(vec![character]));
    let id = game.add_player(&"ranger".to_string()).expect("character exists");
    let params = SkillParams { direction: None, auto_aim: false, amount_milli: 0 };
    game.activate_skill(id, &"basic".to_string(), params);
    assert_eq!(game.projectiles.len(), 3);
}

#[test]
fn cooldown_gates_a_second_activation() {
    let shoot = SkillConfig {
        name: "bolt".to_string(),
        cooldown_ms: 10_000,
        execution_duration_ms: 0,
        is_passive: false,
        mechanics: vec![SkillMechanic::SimpleShoot { projectile: projectile_config("arrow") }],
        burst_loads: 0,
    };
    let character = character_with(vec![SkillSlot { key: "basic".to_string(), skill: shoot }]);
    let mut game = GameState::new(base_config(vec![character]));
    let id = game.add_player(&"ranger".to_string()).expect("character exists");
    let params = SkillParams { direction: None, auto_aim: false, amount_milli: 0 };
    game.activate_skill(id, &"basic".to_string(), params);
    game.activate_skill(id, &"basic".to_string(), params);
    assert_eq!(game.projectiles.len(), 1);
}
