//! Loot: pickups lying on the map, carrying effects that are applied or
//! stored when a player walks over them.

use vstd::prelude::*;

use crate::config::ConfigError;
use crate::effect::{clone_effects, select_effects_by_name, Effect, EffectV, effects_named};
use crate::map::{in_world, Position, WORLD_MAX};

verus! {

/// How a loot is consumed on contact.
#[derive(Clone, Copy, Debug, PartialEq, Eq, Structural)]
pub enum PickupMechanic {
    CollisionToInventory,
    CollisionUse,
}

/// A loot template as it stands in the configuration document, with its
/// effects still given by name.
#[derive(Debug)]
pub struct LootFileConfig {
    pub name: String,
    pub size: u64,
    pub pickup_mechanic: PickupMechanic,
    pub effects: Vec<String>,
}

/// A loot template with its effects resolved.
#[derive(Debug)]
pub struct LootConfig {
    pub name: String,
    pub size: u64,
    pub pickup_mechanic: PickupMechanic,
    pub effects: Vec<Effect>,
}

/// The mathematical shadow of a [`LootConfig`].
#[verifier::ext_equal]
pub ghost struct LootConfigV {
    pub name: Seq<char>,
    pub size: u64,
    pub pickup_mechanic: PickupMechanic,
    pub effects: Seq<EffectV>,
}

impl DeepView for LootConfig {
    type V = LootConfigV;

    open spec fn deep_view(&self) -> LootConfigV {
        LootConfigV {
            name: self.name.deep_view(),
            size: self.size,
            pickup_mechanic: self.pickup_mechanic,
            effects: self.effects.deep_view(),
        }
    }
}

/// A loot lying on the map.
#[derive(Debug)]
pub struct Loot {
    pub name: String,
    pub size: u64,
    pub pickup_mechanic: PickupMechanic,
    pub effects: Vec<Effect>,
    pub id: u64,
    pub position: Position,
}

/// The mathematical shadow of a [`Loot`].
#[verifier::ext_equal]
pub ghost struct LootV {
    pub name: Seq<char>,
    pub size: u64,
    pub pickup_mechanic: PickupMechanic,
    pub effects: Seq<EffectV>,
    pub id: u64,
    pub position: Position,
}

impl DeepView for Loot {
    type V = LootV;

    open spec fn deep_view(&self) -> LootV {
        LootV {
            name: self.name.deep_view(),
            size: self.size,
            pickup_mechanic: self.pickup_mechanic,
            effects: self.effects.deep_view(),
            id: self.id,
            position: self.position,
        }
    }
}

impl Clone for Loot {
    fn clone(&self) -> (r: Self)
        ensures
            r.deep_view() == self.deep_view(),
    {
        let r = Loot {
            name: self.name.clone(),
            size: self.size,
            pickup_mechanic: self.pickup_mechanic,
            effects: clone_effects(&self.effects),
            id: self.id,
            position: self.position,
        };
        proof {
            assert(r.deep_view() =~= self.deep_view());
        }
        r
    }
}

pub open spec fn loot_wf(l: Loot) -> bool {
    &&& in_world(l.position)
    &&& l.size <= WORLD_MAX as u64
}

pub open spec fn resolve_loot(f: LootFileConfig, effects: Seq<EffectV>) -> LootConfigV {
    LootConfigV {
        name: f.name@,
        size: f.size,
        pickup_mechanic: f.pickup_mechanic,
        effects: effects_named(effects, f.effects.deep_view()),
    }
}

pub open spec fn resolve_loots(files: Seq<LootFileConfig>, effects: Seq<EffectV>) -> Seq<
    LootConfigV,
> {
    Seq::new(files.len(), |i: int| resolve_loot(files[i], effects))
}

/// A loot template is acceptable when each named effect resolves to exactly
/// one effect and the list is not empty.
pub open spec fn loot_resolution_ok(f: LootFileConfig, effects: Seq<EffectV>) -> bool {
    &&& effects_named(effects, f.effects.deep_view()).len() == f.effects.deep_view().len()
    &&& effects_named(effects, f.effects.deep_view()).len() > 0
}

impl LootConfig {
    /// Resolves the named effects of each loot template. A name that does
    /// not resolve to exactly one effect, or an empty effect list, is a
    /// configuration error and aborts the load.
    pub fn from_config_file(loots: &Vec<LootFileConfig>, effects: &Vec<Effect>) -> (r: Result<
        Vec<LootConfig>,
        ConfigError,
    >)
        ensures
            match r {
                Ok(v) => {
                    &&& v.deep_view() == resolve_loots(loots@, effects.deep_view())
                    &&& forall|i: int|
                        0 <= i < loots@.len() ==> loot_resolution_ok(
                            #[trigger] loots@[i],
                            effects.deep_view(),
                        )
                },
                Err(e) => {
                    &&& e == ConfigError::BadEffectReference
                    &&& exists|i: int|
                        0 <= i < loots@.len() && !loot_resolution_ok(
                            #[trigger] loots@[i],
                            effects.deep_view(),
                        )
                },
            },
    {
        let mut out: Vec<LootConfig> = Vec::new();
        let mut i: usize = 0;
        while i < loots.len()
            invariant
                0 <= i <= loots@.len(),
                out@.len() == i,
                out.deep_view() =~= resolve_loots(loots@, effects.deep_view()).take(i as int),
                forall|k: int|
                    0 <= k < i ==> loot_resolution_ok(#[trigger] loots@[k], effects.deep_view()),
            decreases loots@.len() - i,
        {
            let config = &loots[i];
            let loot_effects = select_effects_by_name(effects, &config.effects);
            if loot_effects.len() != config.effects.len() || loot_effects.len() == 0 {
                proof {
                    assert(loot_effects.deep_view().len() == loot_effects@.len());
                    assert(config.effects.deep_view().len() == config.effects@.len());
                    assert(!loot_resolution_ok(loots@[i as int], effects.deep_view()));
                }
                return Err(ConfigError::BadEffectReference);
            }
            out.push(LootConfig {
                name: config.name.clone(),
                size: config.size,
                pickup_mechanic: config.pickup_mechanic,
                effects: loot_effects,
            });
            proof {
                assert(out@[i as int].deep_view() =~= resolve_loot(loots@[i as int],
                    effects.deep_view()));
                assert(out.deep_view() =~= resolve_loots(loots@, effects.deep_view()).take(i + 1));
            }
            i = i + 1;
        }
        proof {
            assert(resolve_loots(loots@, effects.deep_view()).take(loots@.len() as int)
                =~= resolve_loots(loots@, effects.deep_view()));
        }
        Ok(out)
    }
}

impl Loot {
    /// A fresh loot from a template, placed at `position`.
    pub fn new(id: u64, position: Position, config: &LootConfig) -> (r: Loot)
        ensures
            r.id == id,
            r.position == position,
            r.name@ == config.name@,
            r.size == config.size,
            r.pickup_mechanic == config.pickup_mechanic,
            r.effects.deep_view() == config.effects.deep_view(),
    {
        Loot {
            id,
            position,
            name: config.name.clone(),
            size: config.size,
            pickup_mechanic: config.pickup_mechanic,
            effects: clone_effects(&config.effects),
        }
    }
}

} // verus!
