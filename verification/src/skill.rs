//! Skills: named bundles of mechanics a player can activate, resolved from
//! the configuration document.

use vstd::prelude::*;

use crate::config::ConfigError;
use crate::effect::{
    clone_effects, clone_strings, select_effects_by_name, Effect, EffectV, effects_named,
};
use crate::map::Rotation;
use crate::projectile::{ProjectileConfig, ProjectileConfigV};

verus! {

/// One thing a skill does when it fires.
///
/// `Hit` carries, besides the configured cone angle in degrees, the cosine
/// of half that angle in thousandths, which the loader derives once so the
/// cone test stays integer arithmetic. `MultiShoot` carries the fan of
/// rotations for its shots, derived by the loader from `cone_angle` and
/// `count`: one rotation per shot above the facing; the mirrored rotation
/// and, for an odd count, the facing itself complete the fan.
#[derive(Debug)]
pub enum SkillMechanic {
    GiveEffect { effects_to_give: Vec<Effect> },
    Hit {
        damage: u64,
        range: u64,
        cone_angle: u64,
        cone_half_cos_milli: i64,
        on_hit_effects: Vec<Effect>,
    },
    SimpleShoot { projectile: ProjectileConfig },
    MultiShoot { projectile: ProjectileConfig, count: u64, cone_angle: u64, spread: Vec<Rotation> },
    MoveToTarget { duration_ms: u64, max_range: u64 },
}

/// The mathematical shadow of a [`SkillMechanic`].
#[verifier::ext_equal]
pub ghost enum SkillMechanicV {
    GiveEffect { effects_to_give: Seq<EffectV> },
    Hit {
        damage: u64,
        range: u64,
        cone_angle: u64,
        cone_half_cos_milli: i64,
        on_hit_effects: Seq<EffectV>,
    },
    SimpleShoot { projectile: ProjectileConfigV },
    MultiShoot { projectile: ProjectileConfigV, count: u64, cone_angle: u64, spread: Seq<Rotation> },
    MoveToTarget { duration_ms: u64, max_range: u64 },
}

impl DeepView for SkillMechanic {
    type V = SkillMechanicV;

    open spec fn deep_view(&self) -> SkillMechanicV {
        match self {
            SkillMechanic::GiveEffect { effects_to_give } => SkillMechanicV::GiveEffect {
                effects_to_give: effects_to_give.deep_view(),
            },
            SkillMechanic::Hit { damage, range, cone_angle, cone_half_cos_milli, on_hit_effects } =>
                SkillMechanicV::Hit {
                damage: *damage,
                range: *range,
                cone_angle: *cone_angle,
                cone_half_cos_milli: *cone_half_cos_milli,
                on_hit_effects: on_hit_effects.deep_view(),
            },
            SkillMechanic::SimpleShoot { projectile } => SkillMechanicV::SimpleShoot {
                projectile: projectile.deep_view(),
            },
            SkillMechanic::MultiShoot { projectile, count, cone_angle, spread } =>
                SkillMechanicV::MultiShoot {
                projectile: projectile.deep_view(),
                count: *count,
                cone_angle: *cone_angle,
                spread: spread.deep_view(),
            },
            SkillMechanic::MoveToTarget { duration_ms, max_range } => SkillMechanicV::MoveToTarget {
                duration_ms: *duration_ms,
                max_range: *max_range,
            },
        }
    }
}

impl Clone for SkillMechanic {
    fn clone(&self) -> (r: Self)
        ensures
            r.deep_view() == self.deep_view(),
    {
        match self {
            SkillMechanic::GiveEffect { effects_to_give } => SkillMechanic::GiveEffect {
                effects_to_give: clone_effects(effects_to_give),
            },
            SkillMechanic::Hit {
                damage,
                range,
                cone_angle,
                cone_half_cos_milli,
                on_hit_effects,
            } => SkillMechanic::Hit {
                damage: *damage,
                range: *range,
                cone_angle: *cone_angle,
                cone_half_cos_milli: *cone_half_cos_milli,
                on_hit_effects: clone_effects(on_hit_effects),
            },
            SkillMechanic::SimpleShoot { projectile } => SkillMechanic::SimpleShoot {
                projectile: projectile.clone(),
            },
            SkillMechanic::MultiShoot { projectile, count, cone_angle, spread } => {
                let s = spread.clone();
                proof {
                    assert(s.deep_view() =~= spread.deep_view());
                }
                SkillMechanic::MultiShoot {
                    projectile: projectile.clone(),
                    count: *count,
                    cone_angle: *cone_angle,
                    spread: s,
                }
            },
            SkillMechanic::MoveToTarget { duration_ms, max_range } => SkillMechanic::MoveToTarget {
                duration_ms: *duration_ms,
                max_range: *max_range,
            },
        }
    }
}

/// One mechanic as it stands in the configuration document, with effects
/// and projectiles still given by name. The derived fields (`Hit`'s cone
/// cosine, `MultiShoot`'s fan of rotations) are filled in by the loader.
#[derive(Debug)]
pub enum SkillMechanicConfigFile {
    GiveEffect { effects_to_give: Vec<String> },
    Hit {
        damage: u64,
        range: u64,
        cone_angle: u64,
        cone_half_cos_milli: i64,
        on_hit_effects: Vec<String>,
    },
    SimpleShoot { projectile: String },
    MultiShoot { projectile: String, count: u64, cone_angle: u64, spread: Vec<Rotation> },
    MoveToTarget { duration_ms: u64, max_range: u64 },
}

/// A skill as it stands in the configuration document.
#[derive(Debug)]
pub struct SkillConfigFile {
    pub name: String,
    pub cooldown_ms: u64,
    pub execution_duration_ms: u64,
    pub is_passive: bool,
    pub mechanics: Vec<SkillMechanicConfigFile>,
    pub burst_loads: u64,
}

/// A skill with every cross-reference resolved.
#[derive(Debug)]
pub struct SkillConfig {
    pub name: String,
    pub cooldown_ms: u64,
    pub execution_duration_ms: u64,
    pub is_passive: bool,
    pub mechanics: Vec<SkillMechanic>,
    pub burst_loads: u64,
}

/// The mathematical shadow of a [`SkillConfig`].
#[verifier::ext_equal]
pub ghost struct SkillConfigV {
    pub name: Seq<char>,
    pub cooldown_ms: u64,
    pub execution_duration_ms: u64,
    pub is_passive: bool,
    pub mechanics: Seq<SkillMechanicV>,
    pub burst_loads: u64,
}

impl DeepView for SkillConfig {
    type V = SkillConfigV;

    open spec fn deep_view(&self) -> SkillConfigV {
        SkillConfigV {
            name: self.name.deep_view(),
            cooldown_ms: self.cooldown_ms,
            execution_duration_ms: self.execution_duration_ms,
            is_passive: self.is_passive,
            mechanics: self.mechanics.deep_view(),
            burst_loads: self.burst_loads,
        }
    }
}

impl Clone for SkillConfig {
    fn clone(&self) -> (r: Self)
        ensures
            r.deep_view() == self.deep_view(),
    {
        let m = self.mechanics.clone();
        proof {
            assert(m.deep_view() =~= self.mechanics.deep_view());
        }
        let r = SkillConfig {
            name: self.name.clone(),
            cooldown_ms: self.cooldown_ms,
            execution_duration_ms: self.execution_duration_ms,
            is_passive: self.is_passive,
            mechanics: m,
            burst_loads: self.burst_loads,
        };
        proof {
            assert(r.deep_view() =~= self.deep_view());
        }
        r
    }
}

/// `j` is the index of the first projectile template named `name`.
pub open spec fn projectile_first_match(
    ps: Seq<ProjectileConfigV>,
    name: Seq<char>,
    j: int,
) -> bool {
    &&& 0 <= j < ps.len()
    &&& ps[j].name == name
    &&& forall|k: int| 0 <= k < j ==> (#[trigger] ps[k]).name != name
}

fn find_projectile<'a>(projectiles: &'a Vec<ProjectileConfig>, name: &String) -> (r: Option<
    &'a ProjectileConfig,
>)
    ensures
        match r {
            Some(p) => exists|j: int|
                projectile_first_match(projectiles.deep_view(), name@, j) && p.deep_view()
                    == projectiles.deep_view()[j],
            None => forall|k: int|
                0 <= k < projectiles.deep_view().len() ==> (#[trigger] projectiles.deep_view()[k]).name
                    != name@,
        },
{
    let mut i: usize = 0;
    while i < projectiles.len()
        invariant
            0 <= i <= projectiles@.len(),
            forall|k: int|
                0 <= k < i ==> (#[trigger] projectiles.deep_view()[k]).name != name@,
        decreases projectiles@.len() - i,
    {
        proof {
            assert(projectiles.deep_view()[i as int] == projectiles@[i as int].deep_view());
        }
        if projectiles[i].name.eq(name) {
            proof {
                assert(projectile_first_match(projectiles.deep_view(), name@, i as int));
            }
            return Some(&projectiles[i]);
        }
        i = i + 1;
    }
    None
}

/// How one configuration mechanic resolves against the effect and
/// projectile tables.
pub open spec fn mechanic_resolves(
    f: SkillMechanicConfigFile,
    effects: Seq<EffectV>,
    ps: Seq<ProjectileConfigV>,
    o: SkillMechanicV,
) -> bool {
    match f {
        SkillMechanicConfigFile::GiveEffect { effects_to_give } => o == (SkillMechanicV::GiveEffect {
            effects_to_give: effects_named(effects, effects_to_give.deep_view()),
        }),
        SkillMechanicConfigFile::Hit {
            damage,
            range,
            cone_angle,
            cone_half_cos_milli,
            on_hit_effects,
        } => o == (SkillMechanicV::Hit {
            damage,
            range,
            cone_angle,
            cone_half_cos_milli,
            on_hit_effects: effects_named(effects, on_hit_effects.deep_view()),
        }),
        SkillMechanicConfigFile::SimpleShoot { projectile } => exists|j: int|
            projectile_first_match(ps, projectile@, j) && o == (SkillMechanicV::SimpleShoot {
                projectile: ps[j],
            }),
        SkillMechanicConfigFile::MultiShoot { projectile, count, cone_angle, spread } => exists|
            j: int,
        |
            projectile_first_match(ps, projectile@, j) && o == (SkillMechanicV::MultiShoot {
                projectile: ps[j],
                count,
                cone_angle,
                spread: spread.deep_view(),
            }),
        SkillMechanicConfigFile::MoveToTarget { duration_ms, max_range } => o == (
        SkillMechanicV::MoveToTarget { duration_ms, max_range }),
    }
}

/// Whether one configuration mechanic can resolve at all: a `GiveEffect`
/// must name existing effects and name at least one; a shot must name an
/// existing projectile template.
pub open spec fn mechanic_resolvable(
    f: SkillMechanicConfigFile,
    effects: Seq<EffectV>,
    ps: Seq<ProjectileConfigV>,
) -> bool {
    match f {
        SkillMechanicConfigFile::GiveEffect { effects_to_give } => {
            &&& effects_named(effects, effects_to_give.deep_view()).len()
                == effects_to_give.deep_view().len()
            &&& effects_named(effects, effects_to_give.deep_view()).len() > 0
        },
        SkillMechanicConfigFile::Hit { .. } => true,
        SkillMechanicConfigFile::SimpleShoot { projectile } => exists|j: int|
            projectile_first_match(ps, projectile@, j),
        SkillMechanicConfigFile::MultiShoot { projectile, .. } => exists|j: int|
            projectile_first_match(ps, projectile@, j),
        SkillMechanicConfigFile::MoveToTarget { .. } => true,
    }
}

impl SkillMechanic {
    /// Resolves the mechanics of one skill. A `GiveEffect` whose names do
    /// not each resolve to exactly one effect, or that would give none, and
    /// a shot naming an unknown projectile, are configuration errors.
    pub fn from_config_file(
        mechanics: &Vec<SkillMechanicConfigFile>,
        effects: &Vec<Effect>,
        projectiles: &Vec<ProjectileConfig>,
    ) -> (r: Result<Vec<SkillMechanic>, ConfigError>)
        ensures
            match r {
                Ok(v) => {
                    &&& v@.len() == mechanics@.len()
                    &&& forall|i: int|
                        0 <= i < v@.len() ==> mechanic_resolves(
                            #[trigger] mechanics@[i],
                            effects.deep_view(),
                            projectiles.deep_view(),
                            v.deep_view()[i],
                        )
                },
                Err(e) => exists|i: int|
                    0 <= i < mechanics@.len() && !mechanic_resolvable(
                        #[trigger] mechanics@[i],
                        effects.deep_view(),
                        projectiles.deep_view(),
                    ),
            },
    {
        let mut out: Vec<SkillMechanic> = Vec::new();
        let mut i: usize = 0;
        while i < mechanics.len()
            invariant
                0 <= i <= mechanics@.len(),
                out@.len() == i,
                forall|k: int|
                    0 <= k < i ==> mechanic_resolves(
                        #[trigger] mechanics@[k],
                        effects.deep_view(),
                        projectiles.deep_view(),
                        out.deep_view()[k],
                    ),
            decreases mechanics@.len() - i,
        {
            let resolved: SkillMechanic = match &mechanics[i] {
                SkillMechanicConfigFile::GiveEffect { effects_to_give } => {
                    let given = select_effects_by_name(effects, effects_to_give);
                    if given.len() != effects_to_give.len() || given.len() == 0 {
                        proof {
                            assert(!mechanic_resolvable(mechanics@[i as int], effects.deep_view(),
                                projectiles.deep_view()));
                        }
                        return Err(ConfigError::BadEffectReference);
                    }
                    SkillMechanic::GiveEffect { effects_to_give: given }
                },
                SkillMechanicConfigFile::Hit {
                    damage,
                    range,
                    cone_angle,
                    cone_half_cos_milli,
                    on_hit_effects,
                } => {
                    let resolved_effects = select_effects_by_name(effects, on_hit_effects);
                    SkillMechanic::Hit {
                        damage: *damage,
                        range: *range,
                        cone_angle: *cone_angle,
                        cone_half_cos_milli: *cone_half_cos_milli,
                        on_hit_effects: resolved_effects,
                    }
                },
                SkillMechanicConfigFile::SimpleShoot { projectile } => {
                    match find_projectile(projectiles, projectile) {
                        Some(p) => SkillMechanic::SimpleShoot { projectile: p.clone() },
                        None => {
                            proof {
                                assert(!mechanic_resolvable(mechanics@[i as int],
                                    effects.deep_view(), projectiles.deep_view()));
                            }
                            return Err(ConfigError::UnknownProjectile);
                        },
                    }
                },
                SkillMechanicConfigFile::MultiShoot { projectile, count, cone_angle, spread } => {
                    match find_projectile(projectiles, projectile) {
                        Some(p) => {
                            let s = spread.clone();
                            proof {
                                assert(s.deep_view() =~= spread.deep_view());
                            }
                            SkillMechanic::MultiShoot {
                                projectile: p.clone(),
                                count: *count,
                                cone_angle: *cone_angle,
                                spread: s,
                            }
                        },
                        None => {
                            proof {
                                assert(!mechanic_resolvable(mechanics@[i as int],
                                    effects.deep_view(), projectiles.deep_view()));
                            }
                            return Err(ConfigError::UnknownProjectile);
                        },
                    }
                },
                SkillMechanicConfigFile::MoveToTarget { duration_ms, max_range } => {
                    SkillMechanic::MoveToTarget {
                        duration_ms: *duration_ms,
                        max_range: *max_range,
                    }
                },
            };
            out.push(resolved);
            proof {
                assert(out.deep_view()[i as int] == out@[i as int].deep_view());
                assert(forall|k: int|
                    0 <= k < i ==> #[trigger] out.deep_view()[k] == out@[k].deep_view());
                assert(mechanic_resolves(mechanics@[i as int], effects.deep_view(),
                    projectiles.deep_view(), out.deep_view()[i as int]));
            }
            i = i + 1;
        }
        Ok(out)
    }
}

impl SkillConfig {
    /// Resolves every skill of the configuration document.
    pub fn from_config_file(
        skills: &Vec<SkillConfigFile>,
        effects: &Vec<Effect>,
        projectiles: &Vec<ProjectileConfig>,
    ) -> (r: Result<Vec<SkillConfig>, ConfigError>)
        ensures
            match r {
                Ok(v) => {
                    &&& v@.len() == skills@.len()
                    &&& forall|i: int|
                        0 <= i < v@.len() ==> {
                            let f = #[trigger] skills@[i];
                            let o = v.deep_view()[i];
                            &&& o.name == f.name@
                            &&& o.cooldown_ms == f.cooldown_ms
                            &&& o.execution_duration_ms == f.execution_duration_ms
                            &&& o.is_passive == f.is_passive
                            &&& o.burst_loads == f.burst_loads
                            &&& o.mechanics.len() == f.mechanics@.len()
                            &&& forall|m: int|
                                0 <= m < o.mechanics.len() ==> mechanic_resolves(
                                    #[trigger] f.mechanics@[m],
                                    effects.deep_view(),
                                    projectiles.deep_view(),
                                    o.mechanics[m],
                                )
                        }
                },
                Err(e) => exists|i: int, m: int|
                    0 <= i < skills@.len() && 0 <= m < skills@[i].mechanics@.len()
                        && !mechanic_resolvable(
                        #[trigger] skills@[i].mechanics@[m],
                        effects.deep_view(),
                        projectiles.deep_view(),
                    ),
            },
    {
        let mut out: Vec<SkillConfig> = Vec::new();
        let mut i: usize = 0;
        while i < skills.len()
            invariant
                0 <= i <= skills@.len(),
                out@.len() == i,
                forall|k: int|
                    0 <= k < i ==> {
                        let f = #[trigger] skills@[k];
                        let o = out.deep_view()[k];
                        &&& o.name == f.name@
                        &&& o.cooldown_ms == f.cooldown_ms
                        &&& o.execution_duration_ms == f.execution_duration_ms
                        &&& o.is_passive == f.is_passive
                        &&& o.burst_loads == f.burst_loads
                        &&& o.mechanics.len() == f.mechanics@.len()
                        &&& forall|m: int|
                            0 <= m < o.mechanics.len() ==> mechanic_resolves(
                                #[trigger] f.mechanics@[m],
                                effects.deep_view(),
                                projectiles.deep_view(),
                                o.mechanics[m],
                            )
                    },
            decreases skills@.len() - i,
        {
            let config = &skills[i];
            let mechanics = match SkillMechanic::from_config_file(
                &config.mechanics,
                effects,
                projectiles,
            ) {
                Ok(m) => m,
                Err(e) => {
                    return Err(e);
                },
            };
            out.push(SkillConfig {
                name: config.name.clone(),
                cooldown_ms: config.cooldown_ms,
                execution_duration_ms: config.execution_duration_ms,
                is_passive: config.is_passive,
                mechanics,
                burst_loads: config.burst_loads,
            });
            proof {
                assert(out.deep_view()[i as int] == out@[i as int].deep_view());
                assert(forall|k: int|
                    0 <= k < i ==> #[trigger] out.deep_view()[k] == out@[k].deep_view());
            }
            i = i + 1;
        }
        Ok(out)
    }
}

} // verus!
