//! Projectiles: their templates from the configuration and the live
//! instances the engine advances every tick.

use vstd::prelude::*;

use crate::effect::{clone_effects, select_effects_by_name, Effect, EffectV, effects_named};
use crate::map::{dir_valid, in_world, Direction, Position, WORLD_MAX};

verus! {

/// A projectile template from the configuration.
#[derive(Debug)]
pub struct ProjectileConfig {
    pub name: String,
    pub base_damage: u64,
    pub base_speed: u64,
    pub base_size: u64,
    pub on_hit_effects: Vec<Effect>,
    pub duration_ms: u64,
    pub max_distance: u64,
    pub remove_on_collision: bool,
}

/// The mathematical shadow of a [`ProjectileConfig`].
#[verifier::ext_equal]
pub ghost struct ProjectileConfigV {
    pub name: Seq<char>,
    pub base_damage: u64,
    pub base_speed: u64,
    pub base_size: u64,
    pub on_hit_effects: Seq<EffectV>,
    pub duration_ms: u64,
    pub max_distance: u64,
    pub remove_on_collision: bool,
}

impl DeepView for ProjectileConfig {
    type V = ProjectileConfigV;

    open spec fn deep_view(&self) -> ProjectileConfigV {
        ProjectileConfigV {
            name: self.name.deep_view(),
            base_damage: self.base_damage,
            base_speed: self.base_speed,
            base_size: self.base_size,
            on_hit_effects: self.on_hit_effects.deep_view(),
            duration_ms: self.duration_ms,
            max_distance: self.max_distance,
            remove_on_collision: self.remove_on_collision,
        }
    }
}

impl Clone for ProjectileConfig {
    fn clone(&self) -> (r: Self)
        ensures
            r.deep_view() == self.deep_view(),
    {
        let r = ProjectileConfig {
            name: self.name.clone(),
            base_damage: self.base_damage,
            base_speed: self.base_speed,
            base_size: self.base_size,
            on_hit_effects: clone_effects(&self.on_hit_effects),
            duration_ms: self.duration_ms,
            max_distance: self.max_distance,
            remove_on_collision: self.remove_on_collision,
        };
        proof {
            assert(r.deep_view() =~= self.deep_view());
        }
        r
    }
}

/// A projectile template as it stands in the configuration document, with
/// its on-hit effects still given by name.
#[derive(Debug)]
pub struct ProjectileConfigFile {
    pub name: String,
    pub base_damage: u64,
    pub base_speed: u64,
    pub base_size: u64,
    pub on_hit_effects: Vec<String>,
    pub duration_ms: u64,
    pub max_distance: u64,
    pub remove_on_collision: bool,
}

/// The template that a configuration entry resolves to, with its on-hit
/// effect names replaced by the effects of those names.
pub open spec fn resolve_projectile(f: ProjectileConfigFile, effects: Seq<EffectV>)
    -> ProjectileConfigV {
    ProjectileConfigV {
        name: f.name@,
        base_damage: f.base_damage,
        base_speed: f.base_speed,
        base_size: f.base_size,
        on_hit_effects: effects_named(effects, f.on_hit_effects.deep_view()),
        duration_ms: f.duration_ms,
        max_distance: f.max_distance,
        remove_on_collision: f.remove_on_collision,
    }
}

pub open spec fn resolve_projectiles(files: Seq<ProjectileConfigFile>, effects: Seq<EffectV>)
    -> Seq<ProjectileConfigV> {
    Seq::new(files.len(), |i: int| resolve_projectile(files[i], effects))
}

impl ProjectileConfig {
    /// Resolves the named on-hit effects of each template. A name that does
    /// not occur in `effects` is dropped silently, as the cross-reference
    /// rules for projectiles have it.
    pub fn from_config_file(projectiles: Vec<ProjectileConfigFile>, effects: &Vec<Effect>) -> (r:
        Vec<ProjectileConfig>)
        ensures
            r.deep_view() == resolve_projectiles(projectiles@, effects.deep_view()),
    {
        let mut out: Vec<ProjectileConfig> = Vec::new();
        let ghost all = projectiles@;
        let mut rest = projectiles;
        let total: usize = rest.len();
        let mut i: usize = 0;
        while rest.len() > 0
            invariant
                all.len() == total,
                all.len() == i + rest@.len(),
                rest@ == all.subrange(i as int, all.len() as int),
                out@.len() == i,
                out.deep_view() =~= resolve_projectiles(all, effects.deep_view()).take(i as int),
            decreases rest@.len(),
        {
            let config = rest.remove(0);
            let resolved = select_effects_by_name(effects, &config.on_hit_effects);
            proof {
                assert(all[i as int] == config);
            }
            out.push(ProjectileConfig {
                name: config.name,
                base_damage: config.base_damage,
                base_speed: config.base_speed,
                base_size: config.base_size,
                on_hit_effects: resolved,
                duration_ms: config.duration_ms,
                max_distance: config.max_distance,
                remove_on_collision: config.remove_on_collision,
            });
            proof {
                assert(rest@ =~= all.subrange(i + 1, all.len() as int));
                assert(out@[i as int].deep_view() =~= resolve_projectile(all[i as int],
                    effects.deep_view()));
                assert(out.deep_view() =~= resolve_projectiles(all, effects.deep_view()).take(
                    i + 1));
            }
            i = i + 1;
        }
        proof {
            assert(resolve_projectiles(all, effects.deep_view()).take(total as int)
                =~= resolve_projectiles(all, effects.deep_view()));
        }
        out
    }
}

/// A live projectile.
#[derive(Debug)]
pub struct Projectile {
    pub name: String,
    pub damage: u64,
    pub speed: u64,
    pub size: u64,
    pub on_hit_effects: Vec<Effect>,
    pub duration_ms: u64,
    pub max_distance: u64,
    pub id: u64,
    pub position: Position,
    pub direction: Direction,
    pub player_id: u64,
    pub active: bool,
    pub remove_on_collision: bool,
    pub attacked_player_ids: Vec<u64>,
}

/// The mathematical shadow of a [`Projectile`].
#[verifier::ext_equal]
pub ghost struct ProjectileV {
    pub name: Seq<char>,
    pub damage: u64,
    pub speed: u64,
    pub size: u64,
    pub on_hit_effects: Seq<EffectV>,
    pub duration_ms: u64,
    pub max_distance: u64,
    pub id: u64,
    pub position: Position,
    pub direction: Direction,
    pub player_id: u64,
    pub active: bool,
    pub remove_on_collision: bool,
    pub attacked_player_ids: Seq<u64>,
}

impl DeepView for Projectile {
    type V = ProjectileV;

    open spec fn deep_view(&self) -> ProjectileV {
        ProjectileV {
            name: self.name.deep_view(),
            damage: self.damage,
            speed: self.speed,
            size: self.size,
            on_hit_effects: self.on_hit_effects.deep_view(),
            duration_ms: self.duration_ms,
            max_distance: self.max_distance,
            id: self.id,
            position: self.position,
            direction: self.direction,
            player_id: self.player_id,
            active: self.active,
            remove_on_collision: self.remove_on_collision,
            attacked_player_ids: self.attacked_player_ids.deep_view(),
        }
    }
}

/// A projectile the movement arithmetic can handle.
pub open spec fn projectile_wf(p: Projectile) -> bool {
    &&& in_world(p.position)
    &&& dir_valid(p.direction)
    &&& p.speed <= WORLD_MAX as u64
    &&& p.size <= WORLD_MAX as u64
}

impl Projectile {
    /// A fresh projectile from a template, owned by `player_id`, placed at
    /// `position` flying along `direction`.
    pub fn new(
        id: u64,
        position: Position,
        direction: Direction,
        player_id: u64,
        config: &ProjectileConfig,
    ) -> (r: Projectile)
        ensures
            r.name@ == config.name@,
            r.damage == config.base_damage,
            r.speed == config.base_speed,
            r.size == config.base_size,
            r.on_hit_effects.deep_view() == config.on_hit_effects.deep_view(),
            r.duration_ms == config.duration_ms,
            r.max_distance == config.max_distance,
            r.remove_on_collision == config.remove_on_collision,
            r.id == id,
            r.position == position,
            r.direction == direction,
            r.player_id == player_id,
            r.active,
            r.attacked_player_ids@ =~= Seq::<u64>::empty(),
    {
        Projectile {
            name: config.name.clone(),
            damage: config.base_damage,
            speed: config.base_speed,
            size: config.base_size,
            on_hit_effects: clone_effects(&config.on_hit_effects),
            duration_ms: config.duration_ms,
            max_distance: config.max_distance,
            remove_on_collision: config.remove_on_collision,
            id,
            position,
            direction,
            player_id,
            active: true,
            attacked_player_ids: Vec::new(),
        }
    }
}

} // verus!
