//! The assembled game configuration and the errors its loading can raise.

use vstd::prelude::*;

use crate::character::CharacterConfig;
use crate::effect::Effect;
use crate::game::GameConfig;
use crate::loot::LootConfig;
use crate::map::Position;
use crate::projectile::ProjectileConfig;
use crate::skill::SkillConfig;

verus! {

/// A broken cross-reference or other fault in the configuration document;
/// fatal at load time.
#[derive(Clone, Copy, Debug, PartialEq, Eq, Structural)]
pub enum ConfigError {
    BadEffectReference,
    UnknownProjectile,
    UnknownSkill,
}

/// The shape of a static collider of the map.
#[derive(Clone, Copy, Debug, PartialEq, Eq, Structural)]
pub enum CollisionableType {
    Circle,
    Rectangle,
}

/// A static collider of the map.
#[derive(Clone, Copy, Debug, PartialEq, Eq, Structural)]
pub struct MapCollisionable {
    pub id: u64,
    pub collisionable_type: CollisionableType,
    pub position: Position,
    pub radius: u64,
}

/// The fully resolved configuration a match runs on.
#[derive(Debug)]
pub struct Config {
    pub effects: Vec<Effect>,
    pub loots: Vec<LootConfig>,
    pub projectiles: Vec<ProjectileConfig>,
    pub skills: Vec<SkillConfig>,
    pub characters: Vec<CharacterConfig>,
    pub game: GameConfig,
}

impl Config {
    /// The first active character of the given name, copied out.
    pub fn find_character(&self, name: &String) -> (r: Option<CharacterConfig>)
        ensures
            match r {
                Some(c) => exists|j: int|
                    {
                        &&& 0 <= j < self.characters.deep_view().len()
                        &&& (#[trigger] self.characters.deep_view()[j]).active
                        &&& self.characters.deep_view()[j].name == name@
                        &&& c.deep_view() == self.characters.deep_view()[j]
                    },
                None => forall|j: int|
                    0 <= j < self.characters.deep_view().len() ==> !((
                    #[trigger] self.characters.deep_view()[j]).active
                        && self.characters.deep_view()[j].name == name@),
            },
    {
        let mut i: usize = 0;
        while i < self.characters.len()
            invariant
                0 <= i <= self.characters@.len(),
                forall|j: int|
                    0 <= j < i ==> !((#[trigger] self.characters.deep_view()[j]).active
                        && self.characters.deep_view()[j].name == name@),
            decreases self.characters@.len() - i,
        {
            proof {
                assert(self.characters.deep_view()[i as int] == self.characters@[
                    i as int].deep_view());
            }
            if self.characters[i].active && self.characters[i].name.eq(name) {
                return Some(self.characters[i].clone());
            }
            i = i + 1;
        }
        None
    }

    /// The first effect of the given name.
    pub fn find_effect<'a>(&'a self, name: &String) -> (r: Option<&'a Effect>)
        ensures
            match r {
                Some(e) => exists|j: int|
                    {
                        &&& 0 <= j < self.effects.deep_view().len()
                        &&& (#[trigger] self.effects.deep_view()[j]).name == name@
                        &&& e.deep_view() == self.effects.deep_view()[j]
                    },
                None => forall|j: int|
                    0 <= j < self.effects.deep_view().len() ==> (
                    #[trigger] self.effects.deep_view()[j]).name != name@,
            },
    {
        let mut i: usize = 0;
        while i < self.effects.len()
            invariant
                0 <= i <= self.effects@.len(),
                forall|j: int|
                    0 <= j < i ==> (#[trigger] self.effects.deep_view()[j]).name != name@,
            decreases self.effects@.len() - i,
        {
            proof {
                assert(self.effects.deep_view()[i as int] == self.effects@[i as int].deep_view());
            }
            if self.effects[i].name.eq(name) {
                return Some(&self.effects[i]);
            }
            i = i + 1;
        }
        None
    }
}

} // verus!
