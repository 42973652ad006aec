//! The game state and the per-tick pipeline that advances it.

use vstd::prelude::*;

use crate::character::{CharacterConfig, CharacterConfigV};
use crate::config::Config;
use crate::effect::{AttributeChange, clone_effects, Effect, EffectV, effects_named, select_effects_by_name};
use crate::loot::{Loot, LootV, PickupMechanic};
use crate::map::{
    dist_sq, dir_valid, hit_boxes_collide, in_world, random_position, sq, Direction, Position,
    WORLD_MAX,
};
use crate::player::{
    first_free_slot, MovingParams, player_effects_wf, player_geometry_wf, spec_apply_effect_list,
    spec_apply_effects_if_absent, spec_decrease_health, spec_move_position, spec_remove_effect,
    spec_remove_expired, spec_skill_move, fired_damages, fired_skills, periodic_fires, sat_sub64,
    tick_cooldowns, ticked_effects, Player, PlayerStatus, PlayerV,
};
use crate::projectile::{Projectile};

verus! {

#[derive(Clone, Copy, Debug, PartialEq, Eq, Structural)]
pub enum GameError {
    CharacterNotFound,
}

/// Who caused an effect or a damage: the shrinking zone, a loot, or a
/// player.
#[derive(Clone, Copy, Debug, PartialEq, Eq, Structural)]
pub enum EntityOwner {
    Zone,
    Loot,
    Player(u64),
}

/// One entry of the killfeed.
#[derive(Clone, Copy, Debug, PartialEq, Eq, Structural)]
pub struct KillEvent {
    pub kill_by: EntityOwner,
    pub killed: u64,
}

impl DeepView for KillEvent {
    type V = KillEvent;

    open spec fn deep_view(&self) -> KillEvent {
        *self
    }
}

/// One pending damage, queued during a tick and drained at its end.
#[derive(Debug)]
pub struct DamageTracker {
    pub damage: i64,
    pub attacker: EntityOwner,
    pub attacked_id: u64,
    pub on_hit_effects: Vec<Effect>,
}

/// The mathematical shadow of a [`DamageTracker`].
#[verifier::ext_equal]
pub ghost struct DamageTrackerV {
    pub damage: i64,
    pub attacker: EntityOwner,
    pub attacked_id: u64,
    pub on_hit_effects: Seq<EffectV>,
}

impl DeepView for DamageTracker {
    type V = DamageTrackerV;

    open spec fn deep_view(&self) -> DamageTrackerV {
        DamageTrackerV {
            damage: self.damage,
            attacker: self.attacker,
            attacked_id: self.attacked_id,
            on_hit_effects: self.on_hit_effects.deep_view(),
        }
    }
}

/// How the zone radius changes on each step of a modification:
/// by a signed amount, or by a factor in thousandths.
#[derive(Clone, Copy, Debug, PartialEq, Eq, Structural)]
pub enum ZoneModificationModifier {
    Additive(i64),
    Multiplicative(u64),
}

/// One scheduled modification of the zone.
#[derive(Debug)]
pub struct ZoneModificationConfig {
    pub duration_ms: u64,
    pub interval_ms: u64,
    pub min_radius: u64,
    pub max_radius: u64,
    pub outside_radius_effects: Vec<Effect>,
    pub modification: ZoneModificationModifier,
}

/// The mathematical shadow of a [`ZoneModificationConfig`].
#[verifier::ext_equal]
pub ghost struct ZoneModificationConfigV {
    pub duration_ms: u64,
    pub interval_ms: u64,
    pub min_radius: u64,
    pub max_radius: u64,
    pub outside_radius_effects: Seq<EffectV>,
    pub modification: ZoneModificationModifier,
}

impl DeepView for ZoneModificationConfig {
    type V = ZoneModificationConfigV;

    open spec fn deep_view(&self) -> ZoneModificationConfigV {
        ZoneModificationConfigV {
            duration_ms: self.duration_ms,
            interval_ms: self.interval_ms,
            min_radius: self.min_radius,
            max_radius: self.max_radius,
            outside_radius_effects: self.outside_radius_effects.deep_view(),
            modification: self.modification,
        }
    }
}

impl Clone for ZoneModificationConfig {
    fn clone(&self) -> (r: Self)
        ensures
            r.deep_view() == self.deep_view(),
    {
        let r = ZoneModificationConfig {
            duration_ms: self.duration_ms,
            interval_ms: self.interval_ms,
            min_radius: self.min_radius,
            max_radius: self.max_radius,
            outside_radius_effects: clone_effects(&self.outside_radius_effects),
            modification: self.modification,
        };
        proof {
            assert(r.deep_view() =~= self.deep_view());
        }
        r
    }
}

/// The shrinking zone.
#[derive(Debug)]
pub struct Zone {
    pub center: Position,
    pub radius: u64,
    pub current_modification: Option<ZoneModificationConfig>,
    pub modifications: Vec<ZoneModificationConfig>,
    pub time_since_last_modification_ms: u64,
}

/// The mathematical shadow of a [`Zone`].
#[verifier::ext_equal]
pub ghost struct ZoneV {
    pub center: Position,
    pub radius: u64,
    pub current_modification: Option<ZoneModificationConfigV>,
    pub modifications: Seq<ZoneModificationConfigV>,
    pub time_since_last_modification_ms: u64,
}

impl DeepView for Zone {
    type V = ZoneV;

    open spec fn deep_view(&self) -> ZoneV {
        ZoneV {
            center: self.center,
            radius: self.radius,
            current_modification: self.current_modification.deep_view(),
            modifications: self.modifications.deep_view(),
            time_since_last_modification_ms: self.time_since_last_modification_ms,
        }
    }
}

/// A zone the engine can work with: its center on the map, its radii in
/// range and every scheduled modification with ordered radius bounds.
pub open spec fn zone_wf(z: ZoneV) -> bool {
    &&& in_world(z.center)
    &&& match z.current_modification {
        Some(m) => m.min_radius <= m.max_radius && zone_effects_wf(m.outside_radius_effects),
        None => true,
    }
    &&& forall|i: int|
        0 <= i < z.modifications.len() ==> ((#[trigger] z.modifications[i]).min_radius
            <= z.modifications[i].max_radius && zone_effects_wf(
            z.modifications[i].outside_radius_effects,
        ))
}

pub open spec fn zone_effects_wf(es: Seq<EffectV>) -> bool {
    forall|i: int| 0 <= i < es.len() ==> crate::effect::effect_v_wf(#[trigger] es[i])
}

/// The game-wide parameters of a match.
#[derive(Debug)]
pub struct GameConfig {
    pub outer_radius: u64,
    pub inner_radius: u64,
    pub loot_interval_ms: u64,
    pub zone_starting_radius: u64,
    pub zone_modifications: Vec<ZoneModificationConfig>,
    pub auto_aim_max_distance: u64,
    pub initial_positions: Vec<Position>,
    pub tick_interval_ms: u64,
}

/// Game parameters the movement arithmetic can handle.
pub open spec fn game_config_wf(g: GameConfig) -> bool {
    &&& 2 <= g.outer_radius <= 2 * WORLD_MAX as u64
    &&& g.inner_radius <= 2 * WORLD_MAX as u64
    &&& g.zone_starting_radius <= WORLD_MAX as u64
    &&& g.auto_aim_max_distance <= WORLD_MAX as u64
    &&& forall|i: int| 0 <= i < g.initial_positions@.len() ==> in_world(#[trigger] g.initial_positions@[i])
}

/// The file form of the game parameters, with the zone effects still given
/// by name.
#[derive(Debug)]
pub struct GameConfigFile {
    pub outer_radius: u64,
    pub inner_radius: u64,
    pub loot_interval_ms: u64,
    pub zone_starting_radius: u64,
    pub zone_modifications: Vec<ZoneModificationConfigFile>,
    pub auto_aim_max_distance: u64,
    pub initial_positions: Vec<Position>,
    pub tick_interval_ms: u64,
}

#[derive(Debug)]
pub struct ZoneModificationConfigFile {
    pub duration_ms: u64,
    pub interval_ms: u64,
    pub min_radius: u64,
    pub max_radius: u64,
    pub outside_radius_effects: Vec<String>,
    pub modification: ZoneModificationModifier,
}

pub open spec fn resolve_zone_modification(f: ZoneModificationConfigFile, effects: Seq<EffectV>)
    -> ZoneModificationConfigV {
    ZoneModificationConfigV {
        duration_ms: f.duration_ms,
        interval_ms: f.interval_ms,
        min_radius: f.min_radius,
        max_radius: f.max_radius,
        outside_radius_effects: effects_named(effects, f.outside_radius_effects.deep_view()),
        modification: f.modification,
    }
}

impl GameConfig {
    /// Resolves the named zone effects of the game parameters.
    pub fn from_config_file(game_config: GameConfigFile, effects: &Vec<Effect>) -> (r: GameConfig)
        ensures
            r.outer_radius == game_config.outer_radius,
            r.inner_radius == game_config.inner_radius,
            r.loot_interval_ms == game_config.loot_interval_ms,
            r.zone_starting_radius == game_config.zone_starting_radius,
            r.auto_aim_max_distance == game_config.auto_aim_max_distance,
            r.initial_positions@ == game_config.initial_positions@,
            r.tick_interval_ms == game_config.tick_interval_ms,
            r.zone_modifications.deep_view() == Seq::new(
                game_config.zone_modifications@.len(),
                |i: int| resolve_zone_modification(game_config.zone_modifications@[i], effects.deep_view()),
            ),
    {
        let ghost files = game_config.zone_modifications@;
        let mut zone_modifications: Vec<ZoneModificationConfig> = Vec::new();
        let mut rest = game_config.zone_modifications;
        let total: usize = rest.len();
        let mut i: usize = 0;
        while rest.len() > 0
            invariant
                files.len() == total,
                files.len() == i + rest@.len(),
                rest@ == files.subrange(i as int, files.len() as int),
                zone_modifications@.len() == i,
                zone_modifications.deep_view() =~= Seq::new(
                    files.len(),
                    |k: int| resolve_zone_modification(files[k], effects.deep_view()),
                ).take(i as int),
            decreases rest@.len(),
        {
            let f = rest.remove(0);
            proof {
                assert(files[i as int] == f);
                assert(rest@ =~= files.subrange(i + 1, files.len() as int));
            }
            let outside_effects = select_effects_by_name(effects, &f.outside_radius_effects);
            zone_modifications.push(ZoneModificationConfig {
                duration_ms: f.duration_ms,
                interval_ms: f.interval_ms,
                min_radius: f.min_radius,
                max_radius: f.max_radius,
                modification: f.modification,
                outside_radius_effects: outside_effects,
            });
            proof {
                assert(zone_modifications@[i as int].deep_view() =~= resolve_zone_modification(
                    files[i as int], effects.deep_view()));
                assert(zone_modifications.deep_view() =~= Seq::new(
                    files.len(),
                    |k: int| resolve_zone_modification(files[k], effects.deep_view()),
                ).take(i + 1));
            }
            i = i + 1;
        }
        proof {
            assert(Seq::new(files.len(), |k: int| resolve_zone_modification(files[k],
                effects.deep_view())).take(files.len() as int) =~= Seq::new(files.len(), |k: int|
                resolve_zone_modification(files[k], effects.deep_view())));
        }
        GameConfig {
            outer_radius: game_config.outer_radius,
            inner_radius: game_config.inner_radius,
            loot_interval_ms: game_config.loot_interval_ms,
            zone_starting_radius: game_config.zone_starting_radius,
            zone_modifications,
            auto_aim_max_distance: game_config.auto_aim_max_distance,
            initial_positions: game_config.initial_positions,
            tick_interval_ms: game_config.tick_interval_ms,
        }
    }
}

/// The whole state of one match.
#[derive(Debug)]
pub struct GameState {
    pub config: Config,
    pub players: Vec<Player>,
    pub loots: Vec<Loot>,
    pub projectiles: Vec<Projectile>,
    pub next_killfeed: Vec<KillEvent>,
    pub killfeed: Vec<KillEvent>,
    pub zone: Zone,
    pub next_id: u64,
    pub pending_damages: Vec<DamageTracker>,
}

/// The index of the first player with the given id, or `-1`.
pub open spec fn player_index_by_id(ps: Seq<PlayerV>, id: u64) -> int
    decreases ps.len(),
{
    if ps.len() == 0 {
        -1
    } else if ps[0].id == id {
        0
    } else {
        let r = player_index_by_id(ps.drop_first(), id);
        if r < 0 {
            -1
        } else {
            1 + r
        }
    }
}

proof fn lemma_player_index_of_match(ps: Seq<PlayerV>, id: u64, j: int)
    requires
        0 <= j < ps.len(),
        ps[j].id == id,
        forall|k: int| 0 <= k < j ==> (#[trigger] ps[k]).id != id,
    ensures
        player_index_by_id(ps, id) == j,
    decreases ps.len(),
{
    if j == 0 {
    } else {
        assert(ps.drop_first()[j - 1] == ps[j]);
        assert(forall|k: int| 0 <= k < j - 1 ==> #[trigger] ps.drop_first()[k] == ps[k + 1]);
        lemma_player_index_of_match(ps.drop_first(), id, j - 1);
    }
}

proof fn lemma_player_index_none(ps: Seq<PlayerV>, id: u64)
    requires
        forall|k: int| 0 <= k < ps.len() ==> (#[trigger] ps[k]).id != id,
    ensures
        player_index_by_id(ps, id) == -1,
    decreases ps.len(),
{
    if ps.len() == 0 {
    } else {
        assert(forall|k: int|
            0 <= k < ps.drop_first().len() ==> #[trigger] ps.drop_first()[k] == ps[k + 1]);
        lemma_player_index_none(ps.drop_first(), id);
    }
}

/// What walking over the loots does to a player: each colliding loot is
/// either stored in the first free inventory slot or, when it acts on
/// contact, applied at once; loots that are consumed leave the ground, and
/// a full inventory leaves the loot lying.
pub open spec fn spec_collect_loot(p: PlayerV, loots: Seq<LootV>) -> (PlayerV, Seq<LootV>)
    decreases loots.len(),
{
    if loots.len() == 0 {
        (p, Seq::empty())
    } else {
        let l = loots[0];
        let colliding = dist_sq(l.position, p.position) <= sq(l.size + p.size);
        let (p1, taken) = if colliding {
            match l.pickup_mechanic {
                PickupMechanic::CollisionToInventory => {
                    let idx = first_free_slot(p.inventory);
                    if idx >= 0 {
                        (PlayerV { inventory: p.inventory.update(idx, Some(l)), ..p }, true)
                    } else {
                        (p, false)
                    }
                },
                PickupMechanic::CollisionUse => (
                    spec_apply_effect_list(p, l.effects.map_values(|e: EffectV| e), EntityOwner::Loot),
                    true,
                ),
            }
        } else {
            (p, false)
        };
        let (pf, rest) = spec_collect_loot(p1, loots.drop_first());
        if taken {
            (pf, rest)
        } else {
            (pf, seq![l] + rest)
        }
    }
}

/// Every loot the engine holds can take part in the hit-box test.
pub open spec fn loots_wf(loots: Seq<LootV>) -> bool {
    forall|i: int|
        0 <= i < loots.len() ==> {
            &&& in_world((#[trigger] loots[i]).position)
            &&& loots[i].size <= WORLD_MAX as u64
            &&& forall|k: int|
                0 <= k < loots[i].effects.len() ==> crate::effect::effect_v_wf(
                    #[trigger] loots[i].effects[k],
                )
        }
}

/// Picks up every loot whose hit box overlaps the player's; only a living,
/// targetable player collects.
pub fn collect_nearby_loot(loots: &mut Vec<Loot>, player: &mut Player)
    requires
        loots_wf(old(loots).deep_view()),
        player_geometry_wf(old(player).deep_view()),
    ensures
        old(player).status != PlayerStatus::Alive ==> (final(loots).deep_view() == old(
            loots,
        ).deep_view() && final(player).deep_view() == old(player).deep_view()),
        old(player).status == PlayerStatus::Alive ==> ({
            let (pf, kept) = spec_collect_loot(
                old(player).deep_view(),
                old(loots).deep_view(),
            );
            final(player).deep_view() == pf && final(loots).deep_view() == kept
        }),
{
    if !player.is_targetable() {
        return ;
    }
    let ghost p0 = player.deep_view();
    let ghost all = loots.deep_view();
    let mut rest: Vec<Loot> = Vec::new();
    core::mem::swap(&mut rest, loots);
    let mut kept: Vec<Loot> = Vec::new();
    while rest.len() > 0
        invariant
            in_world(player.deep_view().position),
            loots_wf(rest.deep_view()),
            loots@.len() == 0,
            spec_collect_loot(p0, all).0 == spec_collect_loot(
                player.deep_view(),
                rest.deep_view(),
            ).0,
            spec_collect_loot(p0, all).1 =~= kept.deep_view() + spec_collect_loot(
                player.deep_view(),
                rest.deep_view(),
            ).1,
        decreases rest@.len(),
    {
        let ghost rest0 = rest.deep_view();
        let ghost pv = player.deep_view();
        let entry = rest.remove(0);
        proof {
            assert(rest.deep_view() =~= rest0.drop_first());
            assert(entry.deep_view() == rest0[0]);
        }
        let colliding = hit_boxes_collide(&entry.position, &player.position, entry.size, player.size);
        let mut taken = false;
        if colliding {
            match entry.pickup_mechanic {
                PickupMechanic::CollisionToInventory => {
                    taken = player.put_in_inventory(&entry);
                },
                PickupMechanic::CollisionUse => {
                    proof {
                        assert(entry.effects.deep_view() =~= rest0[0].effects);
                        assert forall|k: int|
                            0 <= k < entry.effects@.len() implies crate::effect::effect_v_wf(
                            (#[trigger] entry.effects@[k]).deep_view(),
                        ) by {
                            assert(entry.effects.deep_view()[k] == entry.effects@[
                                k].deep_view());
                        }
                    }
                    player.apply_effects(&entry.effects, EntityOwner::Loot);
                    proof {
                        assert(rest0[0].effects.map_values(|e: EffectV| e) =~= rest0[0].effects);
                        assert(entry.effects.deep_view() =~= rest0[0].effects);
                        crate::player::lemma_apply_list_frame(pv, rest0[0].effects,
                            EntityOwner::Loot);
                    }
                    taken = true;
                },
            }
        }
        if !taken {
            kept.push(entry);
        }
        proof {
            assert(spec_collect_loot(p0, all).1 =~= kept.deep_view() + spec_collect_loot(
                player.deep_view(), rest.deep_view()).1);
        }
    }
    core::mem::swap(&mut kept, loots);
    proof {
        assert(spec_collect_loot(player.deep_view(), Seq::<LootV>::empty()).1
            =~= Seq::<LootV>::empty());
        assert(loots.deep_view() =~= spec_collect_loot(p0, all).1);
    }
}

/// Hands out the next fresh identifier and advances the counter.
pub fn get_next_id(next_id: &mut u64) -> (id: u64)
    requires
        *old(next_id) < u64::MAX,
    ensures
        id == *old(next_id),
        *final(next_id) == *old(next_id) + 1,
{
    let id = *next_id;
    *next_id += 1;
    id
}

/// The players the engine can run arithmetic on: sound geometry, sound
/// stored effects, and periodic effects that still have triggers left.
pub open spec fn players_wf(ps: Seq<PlayerV>) -> bool {
    forall|i: int|
        0 <= i < ps.len() ==> {
            &&& player_geometry_wf(#[trigger] ps[i])
            &&& player_effects_wf(ps[i])
            &&& match ps[i].moving_params {
                Some(mp) => dir_valid(mp.direction),
                None => true,
            }
        }
}

/// Every player of the list, its tick actions committed.
pub open spec fn players_actions_updated(ps: Seq<PlayerV>, dt: u64) -> Seq<PlayerV> {
    Seq::new(ps.len(), |i: int| crate::player::spec_update_actions(ps[i], dt))
}

/// Every player of the list, its cooldown pass run: entries shortened,
/// spent ones dropped, and the burst load returned when the burst key is
/// free.
pub open spec fn players_cooldowns_updated(ps: Seq<PlayerV>, dt: u64) -> Seq<PlayerV> {
    Seq::new(ps.len(), |i: int| crate::player::spec_reduce_cooldowns(ps[i], dt))
}

/// Every player of the list, advanced by one movement-skill step.
pub open spec fn players_skill_moved(ps: Seq<PlayerV>, dt: u64, radius: int) -> Seq<PlayerV> {
    Seq::new(ps.len(), |i: int| spec_skill_move(ps[i], dt, radius))
}

/// Every player of the list, its expired effects swept.
pub open spec fn players_expired_removed(ps: Seq<PlayerV>) -> Seq<PlayerV> {
    Seq::new(ps.len(), |i: int| spec_remove_expired(ps[i]))
}

/// Commits every player's queued actions and shortens its busy window.
pub fn update_player_actions(players: &mut Vec<Player>, elapsed_time_ms: u64)
    ensures
        final(players).deep_view() == players_actions_updated(
            old(players).deep_view(),
            elapsed_time_ms,
        ),
{
    let ghost all = players.deep_view();
    let mut rest: Vec<Player> = Vec::new();
    core::mem::swap(&mut rest, players);
    let mut done: Vec<Player> = Vec::new();
    while rest.len() > 0
        invariant
            done@.len() + rest@.len() == all.len(),
            rest.deep_view() =~= all.subrange(done@.len() as int, all.len() as int),
            done.deep_view() =~= players_actions_updated(all, elapsed_time_ms).take(
                done@.len() as int,
            ),
        decreases rest@.len(),
    {
        let ghost i = done@.len() as int;
        let ghost rest0 = rest.deep_view();
        let mut p = rest.remove(0);
        proof {
            assert(rest.deep_view() =~= rest0.drop_first());
            assert(all.subrange(i, all.len() as int)[0] == all[i]);
            assert(p.deep_view() == all[i]);
        }
        p.update_actions(elapsed_time_ms);
        done.push(p);
        proof {
            assert(done.deep_view() =~= players_actions_updated(all, elapsed_time_ms).take(i + 1));
        }
    }
    core::mem::swap(&mut done, players);
    proof {
        assert(players_actions_updated(all, elapsed_time_ms).take(all.len() as int)
            =~= players_actions_updated(all, elapsed_time_ms));
    }
}

/// Shortens every player's cooldowns by the elapsed time.
pub fn update_player_cooldowns(players: &mut Vec<Player>, elapsed_time_ms: u64)
    ensures
        final(players).deep_view() == players_cooldowns_updated(
            old(players).deep_view(),
            elapsed_time_ms,
        ),
{
    let ghost all = players.deep_view();
    let mut rest: Vec<Player> = Vec::new();
    core::mem::swap(&mut rest, players);
    let mut done: Vec<Player> = Vec::new();
    while rest.len() > 0
        invariant
            done@.len() + rest@.len() == all.len(),
            rest.deep_view() =~= all.subrange(done@.len() as int, all.len() as int),
            done.deep_view() =~= players_cooldowns_updated(all, elapsed_time_ms).take(
                done@.len() as int,
            ),
        decreases rest@.len(),
    {
        let ghost i = done@.len() as int;
        let ghost rest0 = rest.deep_view();
        let mut p = rest.remove(0);
        proof {
            assert(rest.deep_view() =~= rest0.drop_first());
            assert(all.subrange(i, all.len() as int)[0] == all[i]);
            assert(p.deep_view() == all[i]);
        }
        p.reduce_cooldowns(elapsed_time_ms);
        done.push(p);
        proof {
            assert(done.deep_view() =~= players_cooldowns_updated(all, elapsed_time_ms).take(
                i + 1));
        }
    }
    core::mem::swap(&mut done, players);
    proof {
        assert(players_cooldowns_updated(all, elapsed_time_ms).take(all.len() as int)
            =~= players_cooldowns_updated(all, elapsed_time_ms));
    }
}

/// Advances every player that is mid movement-skill.
pub fn skill_move_players(players: &mut Vec<Player>, elapsed_time_ms: u64, map_radius: u64)
    requires
        players_wf(old(players).deep_view()),
        0 < map_radius <= WORLD_MAX as u64,
    ensures
        final(players).deep_view() == players_skill_moved(
            old(players).deep_view(),
            elapsed_time_ms,
            map_radius as int,
        ),
        players_wf(final(players).deep_view()),
{
    let ghost all = players.deep_view();
    let mut rest: Vec<Player> = Vec::new();
    core::mem::swap(&mut rest, players);
    let mut done: Vec<Player> = Vec::new();
    while rest.len() > 0
        invariant
            done@.len() + rest@.len() == all.len(),
            rest.deep_view() =~= all.subrange(done@.len() as int, all.len() as int),
            done.deep_view() =~= players_skill_moved(all, elapsed_time_ms, map_radius as int).take(
                done@.len() as int,
            ),
            players_wf(done.deep_view()),
        decreases rest@.len(),
    {
        let ghost i = done@.len() as int;
        let ghost rest0 = rest.deep_view();
        let mut p = rest.remove(0);
        proof {
            assert(rest.deep_view() =~= rest0.drop_first());
            assert(all.subrange(i, all.len() as int)[0] == all[i]);
            assert(p.deep_view() == all[i]);
            assert(players_wf(all));
        }
        p.skill_move(elapsed_time_ms, map_radius);
        done.push(p);
        proof {
            assert(done.deep_view() =~= players_skill_moved(all, elapsed_time_ms,
                map_radius as int).take(i + 1));
            assert(players_wf(done.deep_view()));
        }
    }
    core::mem::swap(&mut done, players);
    proof {
        assert(players_skill_moved(all, elapsed_time_ms, map_radius as int).take(all.len() as int)
            =~= players_skill_moved(all, elapsed_time_ms, map_radius as int));
    }
}

/// Sweeps every player's expired effects.
pub fn remove_expired_effects(players: &mut Vec<Player>)
    requires
        players_wf(old(players).deep_view()),
    ensures
        final(players).deep_view() == players_expired_removed(old(players).deep_view()),
{
    let ghost all = players.deep_view();
    let mut rest: Vec<Player> = Vec::new();
    core::mem::swap(&mut rest, players);
    let mut done: Vec<Player> = Vec::new();
    while rest.len() > 0
        invariant
            done@.len() + rest@.len() == all.len(),
            rest.deep_view() =~= all.subrange(done@.len() as int, all.len() as int),
            done.deep_view() =~= players_expired_removed(all).take(done@.len() as int),
        decreases rest@.len(),
    {
        let ghost i = done@.len() as int;
        let ghost rest0 = rest.deep_view();
        let mut p = rest.remove(0);
        proof {
            assert(rest.deep_view() =~= rest0.drop_first());
            assert(all.subrange(i, all.len() as int)[0] == all[i]);
            assert(p.deep_view() == all[i]);
            assert(players_wf(all));
        }
        p.remove_expired_effects();
        done.push(p);
        proof {
            assert(done.deep_view() =~= players_expired_removed(all).take(i + 1));
        }
    }
    core::mem::swap(&mut done, players);
    proof {
        assert(players_expired_removed(all).take(all.len() as int) =~= players_expired_removed(
            all));
    }
}

/// Every living player's effects advanced by `dt`, and the damages their
/// periodic effects queued, in player order.
pub open spec fn players_effects_run(ps: Seq<PlayerV>, dt: u64) -> Seq<PlayerV> {
    Seq::new(
        ps.len(),
        |i: int|
            if ps[i].status == PlayerStatus::Alive {
                PlayerV {
                    effects: ticked_effects(ps[i].effects, dt),
                    skills_keys_to_execute: fired_skills(ps[i].effects, dt),
                    ..ps[i]
                }
            } else {
                ps[i]
            },
    )
}

pub open spec fn players_fired_damages(ps: Seq<PlayerV>, dt: u64) -> Seq<DamageTrackerV>
    decreases ps.len(),
{
    if ps.len() == 0 {
        Seq::empty()
    } else {
        (if ps[0].status == PlayerStatus::Alive {
            fired_damages(ps[0].effects, dt, ps[0].id)
        } else {
            Seq::empty()
        }) + players_fired_damages(ps.drop_first(), dt)
    }
}

/// Whether every stored periodic effect still has a trigger left.
pub open spec fn players_periodic_ok(ps: Seq<PlayerV>, dt: u64) -> bool {
    forall|i: int, k: int|
        0 <= i < ps.len() && 0 <= k < ps[i].effects.len() ==> (periodic_fires(
            (#[trigger] ps[i].effects[k]).effect,
            dt,
        ) ==> ps[i].effects[k].effect.effect_time_type->Periodic_trigger_count > 0)
}

/// Runs every living player's effects, appending the queued damages.
pub fn run_effects(players: &mut Vec<Player>, time_diff: u64, pending_damages: &mut Vec<DamageTracker>)
    requires
        players_periodic_ok(old(players).deep_view(), time_diff),
    ensures
        final(players).deep_view() == players_effects_run(old(players).deep_view(), time_diff),
        final(pending_damages).deep_view() == old(pending_damages).deep_view()
            + players_fired_damages(old(players).deep_view(), time_diff),
{
    let ghost all = players.deep_view();
    let ghost pd0 = pending_damages.deep_view();
    let mut rest: Vec<Player> = Vec::new();
    core::mem::swap(&mut rest, players);
    let mut done: Vec<Player> = Vec::new();
    while rest.len() > 0
        invariant
            done@.len() + rest@.len() == all.len(),
            rest.deep_view() =~= all.subrange(done@.len() as int, all.len() as int),
            done.deep_view() =~= players_effects_run(all, time_diff).take(done@.len() as int),
            pd0 + players_fired_damages(all, time_diff) =~= pending_damages.deep_view()
                + players_fired_damages(rest.deep_view(), time_diff),
            players_periodic_ok(rest.deep_view(), time_diff),
        decreases rest@.len(),
    {
        let ghost i = done@.len() as int;
        let ghost rest0 = rest.deep_view();
        let mut p = rest.remove(0);
        proof {
            assert(rest.deep_view() =~= rest0.drop_first());
            assert(all.subrange(i, all.len() as int)[0] == all[i]);
            assert(p.deep_view() == all[i]);
            assert forall|k: int|
                0 <= k < p.deep_view().effects.len() implies (periodic_fires(
                (#[trigger] p.deep_view().effects[k]).effect,
                time_diff,
            ) ==> p.deep_view().effects[k].effect.effect_time_type->Periodic_trigger_count > 0) by {
                assert(rest0[0].effects[k] == p.deep_view().effects[k]);
            }
        }
        if p.is_targetable() {
            let mut damages = p.run_effects(time_diff);
            let ghost dv = damages.deep_view();
            pending_damages.append(&mut damages);
            proof {
                assert(pending_damages.deep_view() =~= pending_damages.deep_view());
            }
        }
        done.push(p);
        proof {
            assert(done.deep_view() =~= players_effects_run(all, time_diff).take(i + 1));
            assert(pd0 + players_fired_damages(all, time_diff) =~= pending_damages.deep_view()
                + players_fired_damages(rest.deep_view(), time_diff));
        }
    }
    core::mem::swap(&mut done, players);
    proof {
        assert(players_effects_run(all, time_diff).take(all.len() as int) =~= players_effects_run(
            all, time_diff));
        assert(players_fired_damages(Seq::<PlayerV>::empty(), time_diff)
            =~= Seq::<DamageTrackerV>::empty());
        assert(pending_damages.deep_view() =~= pd0 + players_fired_damages(all, time_diff));
    }
}

/// The radius reached by one modification step, before clamping.
pub open spec fn spec_stepped_radius(radius: u64, m: ZoneModificationModifier) -> int {
    match m {
        ZoneModificationModifier::Additive(v) => radius + v,
        ZoneModificationModifier::Multiplicative(milli) => (radius * milli) / 1000,
    }
}

/// One zone step: while a modification runs, its remaining duration
/// shrinks and, whenever its interval has elapsed, the radius moves by the
/// modifier and is clamped into the modification's radius band. A spent or
/// absent modification is replaced by the next scheduled one.
pub open spec fn spec_modify_zone(z: ZoneV, dt: u64) -> ZoneV {
    match z.current_modification {
        Some(m) => {
            if m.duration_ms > 0 {
                let m2 = ZoneModificationConfigV { duration_ms: sat_sub64(m.duration_ms, dt), ..m };
                let t = crate::player::sat_add64(z.time_since_last_modification_ms, dt);
                if t >= m.interval_ms {
                    let stepped = spec_stepped_radius(z.radius, m.modification);
                    let clamped: u64 = if stepped < m.min_radius {
                        m.min_radius
                    } else if stepped > m.max_radius {
                        m.max_radius
                    } else {
                        stepped as u64
                    };
                    ZoneV {
                        radius: clamped,
                        current_modification: Some(m2),
                        time_since_last_modification_ms: (t - m.interval_ms) as u64,
                        ..z
                    }
                } else {
                    ZoneV {
                        current_modification: Some(m2),
                        time_since_last_modification_ms: t,
                        ..z
                    }
                }
            } else {
                spec_promote_next(ZoneV { current_modification: Some(m), ..z })
            }
        },
        None => spec_promote_next(z),
    }
}

pub open spec fn spec_promote_next(z: ZoneV) -> ZoneV {
    if z.modifications.len() == 0 {
        ZoneV { current_modification: None, ..z }
    } else {
        ZoneV {
            current_modification: Some(z.modifications[0]),
            modifications: z.modifications.drop_first(),
            ..z
        }
    }
}

/// Advances the shrinking zone by one step.
pub fn modify_zone(zone: &mut Zone, time_diff: u64)
    requires
        zone_wf(old(zone).deep_view()),
    ensures
        final(zone).deep_view() == spec_modify_zone(old(zone).deep_view(), time_diff),
        zone_wf(final(zone).deep_view()),
        ({
            let z0 = old(zone).deep_view();
            match z0.current_modification {
                Some(m) => m.duration_ms > 0 && crate::player::sat_add64(
                    z0.time_since_last_modification_ms,
                    time_diff,
                ) >= m.interval_ms ==> m.min_radius <= final(zone).radius <= m.max_radius,
                None => true,
            }
        }),
{
    let ghost z0 = zone.deep_view();
    let mut cur: Option<ZoneModificationConfig> = None;
    core::mem::swap(&mut cur, &mut zone.current_modification);
    match cur {
        Some(m) => {
            if m.duration_ms > 0 {
                let new_duration = if m.duration_ms >= time_diff {
                    m.duration_ms - time_diff
                } else {
                    0
                };
                let t = if zone.time_since_last_modification_ms <= u64::MAX - time_diff {
                    zone.time_since_last_modification_ms + time_diff
                } else {
                    u64::MAX
                };
                if t >= m.interval_ms {
                    let stepped: u64 = match m.modification {
                        ZoneModificationModifier::Additive(v) => {
                            if v >= 0 {
                                let add = v as u64;
                                if zone.radius <= u64::MAX - add {
                                    zone.radius + add
                                } else {
                                    u64::MAX
                                }
                            } else {
                                let sub = if v == i64::MIN {
                                    0x8000_0000_0000_0000u64
                                } else {
                                    (-v) as u64
                                };
                                if zone.radius >= sub {
                                    zone.radius - sub
                                } else {
                                    0
                                }
                            }
                        },
                        ZoneModificationModifier::Multiplicative(milli) => {
                            proof {
                                let a: int = zone.radius as int;
                                let b: int = milli as int;
                                assert(0 <= a * b <= u128::MAX) by (nonlinear_arith)
                                    requires
                                        0 <= a <= u64::MAX,
                                        0 <= b <= u64::MAX,
                                ;
                            }
                            let p: u128 = (zone.radius as u128) * (milli as u128) / 1000;
                            if p > u64::MAX as u128 {
                                u64::MAX
                            } else {
                                p as u64
                            }
                        },
                    };
                    let clamped: u64 = if stepped < m.min_radius {
                        m.min_radius
                    } else if stepped > m.max_radius {
                        m.max_radius
                    } else {
                        stepped
                    };
                    zone.radius = clamped;
                    zone.time_since_last_modification_ms = t - m.interval_ms;
                    zone.current_modification = Some(ZoneModificationConfig {
                        duration_ms: new_duration,
                        ..m
                    });
                } else {
                    zone.time_since_last_modification_ms = t;
                    zone.current_modification = Some(ZoneModificationConfig {
                        duration_ms: new_duration,
                        ..m
                    });
                }
                proof {
                    let sm = spec_modify_zone(z0, time_diff);
                    assert(zone.deep_view().current_modification->0 =~= sm.current_modification->0);
                    assert(zone.deep_view() =~= sm);
                }
            } else {
                zone.current_modification = Some(m);
                promote_next_modification(zone);
                proof {
                    assert(zone.deep_view() =~= spec_modify_zone(z0, time_diff));
                }
            }
        },
        None => {
            promote_next_modification(zone);
            proof {
                assert(zone.deep_view() =~= spec_modify_zone(z0, time_diff));
            }
        },
    }
}

/// A projectile that stays in play: still active, within its lifetime and
/// range, and away from the world edge.
pub open spec fn projectile_live(p: crate::projectile::ProjectileV, outer: int, inner: int) -> bool {
    &&& p.active
    &&& p.duration_ms > 0
    &&& p.max_distance > 0
    &&& !crate::map::spec_collision_with_edge(p.position, p.size as int, outer, inner)
}

pub open spec fn live_projectiles(ps: Seq<crate::projectile::ProjectileV>, outer: int, inner: int)
    -> Seq<crate::projectile::ProjectileV>
    decreases ps.len(),
{
    if ps.len() == 0 {
        Seq::empty()
    } else {
        let rest = live_projectiles(ps.drop_first(), outer, inner);
        if projectile_live(ps[0], outer, inner) {
            seq![ps[0]] + rest
        } else {
            rest
        }
    }
}

/// One projectile advanced by a tick: lifetime and remaining range shrink
/// and it flies one speed's worth along its direction.
pub open spec fn spec_advance_projectile(p: crate::projectile::ProjectileV, dt: u64, radius: int)
    -> crate::projectile::ProjectileV {
    let stepped = crate::map::spec_next_position(p.position, p.direction, p.speed as int, radius);
    crate::projectile::ProjectileV {
        duration_ms: sat_sub64(p.duration_ms, dt),
        max_distance: sat_sub64(p.max_distance, p.speed),
        position: Position { x: stepped.0 as i64, y: stepped.1 as i64 },
        ..p
    }
}

pub open spec fn advanced_projectiles(
    ps: Seq<crate::projectile::ProjectileV>,
    dt: u64,
    radius: int,
) -> Seq<crate::projectile::ProjectileV> {
    Seq::new(ps.len(), |i: int| spec_advance_projectile(ps[i], dt, radius))
}

pub open spec fn projectiles_wf(ps: Seq<crate::projectile::ProjectileV>) -> bool {
    forall|i: int|
        0 <= i < ps.len() ==> {
            &&& in_world((#[trigger] ps[i]).position)
            &&& dir_valid(ps[i].direction)
            &&& ps[i].speed <= WORLD_MAX as u64
            &&& ps[i].size <= WORLD_MAX as u64
            &&& zone_effects_wf(ps[i].on_hit_effects)
        }
}

/// Retires the projectiles that are spent or out of the world, then flies
/// the rest one step.
pub fn move_projectiles(projectiles: &mut Vec<Projectile>, time_diff: u64, config: &Config)
    requires
        projectiles_wf(old(projectiles).deep_view()),
        game_config_wf(config.game),
    ensures
        final(projectiles).deep_view() == advanced_projectiles(
            live_projectiles(
                old(projectiles).deep_view(),
                config.game.outer_radius as int,
                config.game.inner_radius as int,
            ),
            time_diff,
            config.game.outer_radius as int / 2,
        ),
        projectiles_wf(final(projectiles).deep_view()),
{
    let radius: u64 = config.game.outer_radius / 2;
    let ghost all = projectiles.deep_view();
    let ghost outer = config.game.outer_radius as int;
    let ghost inner = config.game.inner_radius as int;
    let mut rest: Vec<Projectile> = Vec::new();
    core::mem::swap(&mut rest, projectiles);
    let mut kept: Vec<Projectile> = Vec::new();
    while rest.len() > 0
        invariant
            0 < radius <= WORLD_MAX as u64,
            radius as int == outer / 2,
            projectiles_wf(rest.deep_view()),
            live_projectiles(all, outer, inner) =~= kept.deep_view() + live_projectiles(
                rest.deep_view(),
                outer,
                inner,
            ),
        decreases rest@.len(),
    {
        let ghost rest0 = rest.deep_view();
        let p = rest.remove(0);
        proof {
            assert(rest.deep_view() =~= rest0.drop_first());
            assert(p.deep_view() == rest0[0]);
        }
        let live = p.active && p.duration_ms > 0 && p.max_distance > 0
            && !crate::map::collision_with_edge(
            &p.position,
            p.size,
            config.game.outer_radius,
            config.game.inner_radius,
        );
        if live {
            kept.push(p);
        }
        proof {
            assert(live_projectiles(all, outer, inner) =~= kept.deep_view() + live_projectiles(
                rest.deep_view(), outer, inner));
        }
    }
    let ghost livep = live_projectiles(all, outer, inner);
    proof {
        lemma_live_projectiles_wf(all, outer, inner);
    }
    let mut advanced: Vec<Projectile> = Vec::new();
    while kept.len() > 0
        invariant
            0 < radius <= WORLD_MAX as u64,
            projectiles_wf(livep),
            kept.deep_view().len() <= livep.len(),
            projectiles_wf(advanced.deep_view()),
            advanced@.len() + kept@.len() == livep.len(),
            kept.deep_view() =~= livep.subrange(advanced@.len() as int, livep.len() as int),
            advanced.deep_view() =~= advanced_projectiles(livep, time_diff, radius as int).take(
                advanced@.len() as int,
            ),
        decreases kept@.len(),
    {
        let ghost i = advanced@.len() as int;
        let ghost kept0 = kept.deep_view();
        let mut p = kept.remove(0);
        proof {
            assert(kept.deep_view() =~= kept0.drop_first());
            assert(livep.subrange(i, livep.len() as int)[0] == livep[i]);
            assert(p.deep_view() == livep[i]);
        }
        let new_duration = if p.duration_ms >= time_diff {
            p.duration_ms - time_diff
        } else {
            0
        };
        let new_distance = if p.max_distance >= p.speed {
            p.max_distance - p.speed
        } else {
            0
        };
        let new_pos = crate::map::next_position(&p.position, &p.direction, p.speed, radius);
        p.duration_ms = new_duration;
        p.max_distance = new_distance;
        p.position = new_pos;
        advanced.push(p);
        proof {
            assert(advanced@[i].deep_view() =~= spec_advance_projectile(livep[i], time_diff,
                radius as int));
            assert(advanced.deep_view() =~= advanced_projectiles(livep, time_diff,
                radius as int).take(i + 1));
        }
    }
    core::mem::swap(&mut advanced, projectiles);
    proof {
        assert(advanced_projectiles(livep, time_diff, radius as int).take(livep.len() as int)
            =~= advanced_projectiles(livep, time_diff, radius as int));
    }
}

/// Whether a projectile hits this player: a living target it has not hit
/// before, whose hit box it overlaps, and who is not its own shooter.
pub open spec fn projectile_hits(p: PlayerV, proj: crate::projectile::ProjectileV) -> bool {
    &&& p.status == PlayerStatus::Alive
    &&& !proj.attacked_player_ids.contains(p.id)
    &&& dist_sq(proj.position, p.position) <= sq(proj.size + p.size)
    &&& p.id != proj.player_id
}

/// The index of the first player this projectile hits, or `-1`.
pub open spec fn first_hit_index(ps: Seq<PlayerV>, proj: crate::projectile::ProjectileV) -> int
    decreases ps.len(),
{
    if ps.len() == 0 {
        -1
    } else if projectile_hits(ps[0], proj) {
        0
    } else {
        let r = first_hit_index(ps.drop_first(), proj);
        if r < 0 {
            -1
        } else {
            1 + r
        }
    }
}

proof fn lemma_first_hit_of_match(ps: Seq<PlayerV>, proj: crate::projectile::ProjectileV, j: int)
    requires
        0 <= j < ps.len(),
        projectile_hits(ps[j], proj),
        forall|k: int| 0 <= k < j ==> !projectile_hits(#[trigger] ps[k], proj),
    ensures
        first_hit_index(ps, proj) == j,
    decreases ps.len(),
{
    if j == 0 {
    } else {
        assert(ps.drop_first()[j - 1] == ps[j]);
        assert(forall|k: int| 0 <= k < j - 1 ==> #[trigger] ps.drop_first()[k] == ps[k + 1]);
        lemma_first_hit_of_match(ps.drop_first(), proj, j - 1);
    }
}

proof fn lemma_first_hit_none(ps: Seq<PlayerV>, proj: crate::projectile::ProjectileV)
    requires
        forall|k: int| 0 <= k < ps.len() ==> !projectile_hits(#[trigger] ps[k], proj),
    ensures
        first_hit_index(ps, proj) == -1,
    decreases ps.len(),
{
    if ps.len() == 0 {
    } else {
        assert(forall|k: int|
            0 <= k < ps.drop_first().len() ==> #[trigger] ps.drop_first()[k] == ps[k + 1]);
        lemma_first_hit_none(ps.drop_first(), proj);
    }
}

/// What one projectile does on contact: it damages the first player it
/// hits, remembers the target, and, when it is not piercing, goes inactive.
pub open spec fn spec_projectile_contact(
    proj: crate::projectile::ProjectileV,
    ps: Seq<PlayerV>,
) -> (crate::projectile::ProjectileV, Seq<DamageTrackerV>) {
    let j = first_hit_index(ps, proj);
    if j < 0 {
        (proj, Seq::empty())
    } else {
        let hit = crate::projectile::ProjectileV {
            attacked_player_ids: proj.attacked_player_ids.push(ps[j].id),
            active: proj.active && !proj.remove_on_collision,
            ..proj
        };
        (
            hit,
            seq![
                DamageTrackerV {
                    damage: proj.damage as i64,
                    attacker: EntityOwner::Player(proj.player_id),
                    attacked_id: ps[j].id,
                    on_hit_effects: proj.on_hit_effects,
                },
            ],
        )
    }
}

/// Every projectile after its contact check, in order.
pub open spec fn contacted_projectiles(
    projs: Seq<crate::projectile::ProjectileV>,
    ps: Seq<PlayerV>,
) -> Seq<crate::projectile::ProjectileV> {
    Seq::new(projs.len(), |i: int| spec_projectile_contact(projs[i], ps).0)
}

/// The damages all projectiles queue on contact, in projectile order.
pub open spec fn contact_damages(
    projs: Seq<crate::projectile::ProjectileV>,
    ps: Seq<PlayerV>,
) -> Seq<DamageTrackerV>
    decreases projs.len(),
{
    if projs.len() == 0 {
        Seq::empty()
    } else {
        spec_projectile_contact(projs[0], ps).1 + contact_damages(projs.drop_first(), ps)
    }
}

/// The live filter keeps only projectiles of the list, so soundness
/// carries over.
proof fn lemma_live_projectiles_wf(ps: Seq<crate::projectile::ProjectileV>, outer: int, inner: int)
    requires
        projectiles_wf(ps),
    ensures
        projectiles_wf(live_projectiles(ps, outer, inner)),
    decreases ps.len(),
{
    if ps.len() == 0 {
    } else {
        assert(forall|k: int|
            0 <= k < ps.drop_first().len() ==> #[trigger] ps.drop_first()[k] == ps[k + 1]);
        lemma_live_projectiles_wf(ps.drop_first(), outer, inner);
        let rest = live_projectiles(ps.drop_first(), outer, inner);
        if projectile_live(ps[0], outer, inner) {
            assert(forall|k: int|
                0 <= k < rest.len() ==> #[trigger] (seq![ps[0]] + rest)[k + 1] == rest[k]);
            assert((seq![ps[0]] + rest)[0] == ps[0]);
        }
    }
}

/// Queues a damage for the first player each projectile hits. The players
/// themselves are only read; every damage waits for the drain at the end
/// of the tick.
pub fn apply_projectiles_collisions(
    projectiles: &mut Vec<Projectile>,
    players: &Vec<Player>,
    pending_damages: &mut Vec<DamageTracker>,
)
    requires
        projectiles_wf(old(projectiles).deep_view()),
        players_wf(players.deep_view()),
    ensures
        final(projectiles).deep_view() == contacted_projectiles(
            old(projectiles).deep_view(),
            players.deep_view(),
        ),
        final(pending_damages).deep_view() == old(pending_damages).deep_view() + contact_damages(
            old(projectiles).deep_view(),
            players.deep_view(),
        ),
        projectiles_wf(final(projectiles).deep_view()),
{
    let ghost all = projectiles.deep_view();
    let ghost psv = players.deep_view();
    let ghost pd0 = pending_damages.deep_view();
    let mut rest: Vec<Projectile> = Vec::new();
    core::mem::swap(&mut rest, projectiles);
    let mut done: Vec<Projectile> = Vec::new();
    while rest.len() > 0
        invariant
            players_wf(psv),
            psv == players.deep_view(),
            projectiles_wf(all),
            done@.len() + rest@.len() == all.len(),
            rest.deep_view() =~= all.subrange(done@.len() as int, all.len() as int),
            done.deep_view() =~= contacted_projectiles(all, psv).take(done@.len() as int),
            projectiles_wf(done.deep_view()),
            pd0 + contact_damages(all, psv) =~= pending_damages.deep_view() + contact_damages(
                rest.deep_view(),
                psv,
            ),
        decreases rest@.len(),
    {
        let ghost i0 = done@.len() as int;
        let ghost rest0 = rest.deep_view();
        let mut proj = rest.remove(0);
        proof {
            assert(rest.deep_view() =~= rest0.drop_first());
            assert(all.subrange(i0, all.len() as int)[0] == all[i0]);
            assert(proj.deep_view() == all[i0]);
        }
        let ghost proj0 = proj.deep_view();
        let mut i: usize = 0;
        let mut hit: bool = false;
        while i < players.len() && !hit
            invariant
                players_wf(psv),
                psv == players.deep_view(),
                0 <= i <= psv.len(),
                in_world(proj0.position),
                proj.deep_view() == rest0[0],
                proj.deep_view() == proj0,
                !hit ==> forall|k: int| 0 <= k < i ==> !projectile_hits(#[trigger] psv[k], proj0),
                hit ==> i > 0 && projectile_hits(psv[i - 1], proj0) && (forall|k: int|
                    0 <= k < i - 1 ==> !projectile_hits(#[trigger] psv[k], proj0)),
            decreases psv.len() - i,
        {
            proof {
                assert(psv[i as int] == players@[i as int].deep_view());
            }
            let target = &players[i];
            let mut collides = target.is_targetable() && !contains_u64(
                &proj.attacked_player_ids,
                target.id,
            ) && hit_boxes_collide(&proj.position, &target.position, proj.size, target.size);
            if collides && target.id == proj.player_id {
                collides = false;
            }
            if collides {
                hit = true;
            }
            i = i + 1;
        }
        if hit {
            proof {
                lemma_first_hit_of_match(psv, proj0, i - 1);
            }
            let target_id = players[i - 1].id;
            pending_damages.push(DamageTracker {
                attacked_id: target_id,
                attacker: EntityOwner::Player(proj.player_id),
                damage: #[verifier::truncate] (proj.damage as i64),
                on_hit_effects: clone_effects(&proj.on_hit_effects),
            });
            proj.attacked_player_ids.push(target_id);
            if proj.remove_on_collision {
                proj.active = false;
            }
            proof {
                assert(proj.deep_view() =~= spec_projectile_contact(proj0, psv).0);
                assert(pending_damages.deep_view().last() =~= spec_projectile_contact(proj0,
                    psv).1[0]);
            }
        } else {
            proof {
                lemma_first_hit_none(psv, proj0);
            }
        }
        done.push(proj);
        proof {
            assert(done.deep_view()[i0] == proj.deep_view());
            assert(proj.deep_view() =~= spec_projectile_contact(all[i0], psv).0);
            assert(done.deep_view() =~= contacted_projectiles(all, psv).take(i0 + 1));
            assert(projectiles_wf(done.deep_view()));
            assert(pd0 + contact_damages(all, psv) =~= pending_damages.deep_view()
                + contact_damages(rest.deep_view(), psv));
        }
    }
    core::mem::swap(&mut done, projectiles);
    proof {
        assert(contact_damages(Seq::<crate::projectile::ProjectileV>::empty(), psv)
            =~= Seq::<DamageTrackerV>::empty());
        assert(contacted_projectiles(all, psv).take(all.len() as int) =~= contacted_projectiles(
            all, psv));
        assert(projectiles.deep_view() =~= contacted_projectiles(all, psv));
        assert(pending_damages.deep_view() =~= pd0 + contact_damages(all, psv));
    }
}

/// Whether the list holds the value.
fn contains_u64(list: &Vec<u64>, value: u64) -> (r: bool)
    ensures
        r == list.deep_view().contains(value),
{
    let mut i: usize = 0;
    while i < list.len()
        invariant
            0 <= i <= list@.len(),
            forall|k: int| 0 <= k < i ==> list.deep_view()[k] != value,
        decreases list@.len() - i,
    {
        if list[i] == value {
            proof {
                assert(list.deep_view()[i as int] == value);
            }
            return true;
        }
        i = i + 1;
    }
    proof {
        assert(forall|k: int| 0 <= k < list.deep_view().len() ==> list.deep_view()[k] != value);
    }
    false
}

/// The first effect of each name removed, in order.
pub open spec fn spec_remove_effects_named(p: PlayerV, es: Seq<EffectV>) -> PlayerV
    decreases es.len(),
{
    if es.len() == 0 {
        p
    } else {
        spec_remove_effects_named(spec_remove_effect(p, es[0].name), es.drop_first())
    }
}

/// Removing an effect keeps the remaining stored effects sound.
pub proof fn lemma_remove_effect_preserves_wf(p: PlayerV, name: Seq<char>)
    requires
        player_effects_wf(p),
    ensures
        player_effects_wf(spec_remove_effect(p, name)),
{
    let i = crate::player::first_effect_index(p.effects, name);
    if i >= 0 && i < p.effects.len() {
        let e = p.effects[i].effect;
        let without = PlayerV { effects: p.effects.remove(i), ..p };
        assert forall|k: int|
            0 <= k < without.effects.len() implies crate::effect::effect_v_wf(
            (#[trigger] without.effects[k]).effect,
        ) by {
            if k < i {
                assert(without.effects[k] == p.effects[k]);
            } else {
                assert(without.effects[k] == p.effects[k + 1]);
            }
        }
        if e.is_reversable {
            crate::player::lemma_revert_changes_frame(without, e.player_attributes);
        }
    } else {
        if i >= p.effects.len() {
            lemma_first_effect_index_in_range(p.effects, name);
        }
    }
}

proof fn lemma_first_effect_index_in_range(es: Seq<crate::player::AppliedEffectV>, name: Seq<char>)
    ensures
        crate::player::first_effect_index(es, name) < es.len(),
    decreases es.len(),
{
    if es.len() == 0 {
    } else if es[0].effect.name == name {
    } else {
        lemma_first_effect_index_in_range(es.drop_first(), name);
    }
}

/// Removing effects by name keeps stored-effect soundness.
pub proof fn lemma_remove_named_preserves_wf(p: PlayerV, es: Seq<EffectV>)
    requires
        player_effects_wf(p),
    ensures
        player_effects_wf(spec_remove_effects_named(p, es)),
    decreases es.len(),
{
    if es.len() == 0 {
    } else {
        lemma_remove_effect_preserves_wf(p, es[0].name);
        lemma_remove_named_preserves_wf(spec_remove_effect(p, es[0].name), es.drop_first());
    }
}

/// What the zone does to one player: a player inside loses the zone's
/// effects; a living player outside receives them (without refreshing ones
/// it already carries).
pub open spec fn spec_zone_player(
    p: PlayerV,
    m: ZoneModificationConfigV,
    center: Position,
    radius: u64,
) -> PlayerV {
    let inside = dist_sq(center, p.position) <= sq(radius as int);
    if inside {
        spec_remove_effects_named(p, m.outside_radius_effects)
    } else if p.status == PlayerStatus::Alive {
        spec_apply_effects_if_absent(p, m.outside_radius_effects, EntityOwner::Zone)
    } else {
        p
    }
}

pub open spec fn players_zone_applied(
    ps: Seq<PlayerV>,
    m: ZoneModificationConfigV,
    center: Position,
    radius: u64,
) -> Seq<PlayerV> {
    Seq::new(ps.len(), |i: int| spec_zone_player(ps[i], m, center, radius))
}

/// The kill events the zone causes: one for each living player outside the
/// zone that its effects kill on contact.
pub open spec fn zone_kills(
    ps: Seq<PlayerV>,
    m: ZoneModificationConfigV,
    center: Position,
    radius: u64,
) -> Seq<KillEvent>
    decreases ps.len(),
{
    if ps.len() == 0 {
        Seq::empty()
    } else {
        let p = ps[0];
        let inside = dist_sq(center, p.position) <= sq(radius as int);
        let head = if !inside && p.status == PlayerStatus::Alive && spec_zone_player(
            p,
            m,
            center,
            radius,
        ).status == PlayerStatus::Death {
            seq![KillEvent { kill_by: EntityOwner::Zone, killed: p.id }]
        } else {
            Seq::<KillEvent>::empty()
        };
        head + zone_kills(ps.drop_first(), m, center, radius)
    }
}

/// Applies and removes the zone's effects by each player's containment in
/// the zone circle; players killed by the zone are staged for the
/// killfeed.
pub fn apply_zone_effects(players: &mut Vec<Player>, zone: &Zone, next_killfeed: &mut Vec<KillEvent>)
    requires
        players_wf(old(players).deep_view()),
        zone_wf(zone.deep_view()),
    ensures
        match zone.deep_view().current_modification {
            Some(m) => {
                &&& final(players).deep_view() == players_zone_applied(
                    old(players).deep_view(),
                    m,
                    zone.center,
                    zone.radius,
                )
                &&& final(next_killfeed).deep_view() == old(next_killfeed).deep_view()
                    + zone_kills(old(players).deep_view(), m, zone.center, zone.radius)
            },
            None => {
                let same_players = final(players).deep_view() == old(players).deep_view();
                let same_kf = final(next_killfeed).deep_view() == old(next_killfeed).deep_view();
                same_players && same_kf
            },
        },
{
    let m = match &zone.current_modification {
        Some(m) => m,
        None => {
            proof {
                assert(players.deep_view() =~= old(players).deep_view());
                assert(next_killfeed.deep_view() =~= old(next_killfeed).deep_view());
            }
            return ;
        },
    };
    let ghost mv = zone.deep_view().current_modification->0;
    proof {
        assert(m.deep_view() == mv);
        assert(zone_effects_wf(mv.outside_radius_effects));
    }
    let ghost all = players.deep_view();
    let ghost kf0 = next_killfeed.deep_view();
    let mut rest: Vec<Player> = Vec::new();
    core::mem::swap(&mut rest, players);
    let mut done: Vec<Player> = Vec::new();
    while rest.len() > 0
        invariant
            zone_effects_wf(mv.outside_radius_effects),
            m.deep_view() == mv,
            in_world(zone.center),
            players_wf(all),
            done@.len() + rest@.len() == all.len(),
            rest.deep_view() =~= all.subrange(done@.len() as int, all.len() as int),
            done.deep_view() =~= players_zone_applied(all, mv, zone.center, zone.radius).take(
                done@.len() as int,
            ),
            kf0 + zone_kills(all, mv, zone.center, zone.radius) =~= next_killfeed.deep_view()
                + zone_kills(rest.deep_view(), mv, zone.center, zone.radius),
        decreases rest@.len(),
    {
        let ghost i = done@.len() as int;
        let ghost rest0 = rest.deep_view();
        let mut p = rest.remove(0);
        proof {
            assert(rest.deep_view() =~= rest0.drop_first());
            assert(all.subrange(i, all.len() as int)[0] == all[i]);
            assert(p.deep_view() == all[i]);
            assert(players_wf(all));
        }
        let ghost pv = p.deep_view();
        let inside = hit_boxes_collide(&zone.center, &p.position, zone.radius, 0);
        if inside {
            let mut j: usize = 0;
            while j < m.outside_radius_effects.len()
                invariant
                    zone_effects_wf(mv.outside_radius_effects),
                    m.deep_view() == mv,
                    0 <= j <= m.outside_radius_effects@.len(),
                    player_effects_wf(p.deep_view()),
                    p.deep_view() == spec_remove_effects_named(
                        pv,
                        mv.outside_radius_effects.take(j as int),
                    ),
                decreases m.outside_radius_effects@.len() - j,
            {
                proof {
                    assert(m.outside_radius_effects.deep_view()[j as int]
                        == m.outside_radius_effects@[j as int].deep_view());
                }
                let ghost before = p.deep_view();
                p.remove_effect(&m.outside_radius_effects[j].name);
                proof {
                    lemma_remove_effect_preserves_wf(before,
                        mv.outside_radius_effects[j as int].name);
                    lemma_remove_named_take_step(pv, mv.outside_radius_effects, j as int);
                }
                j = j + 1;
            }
            proof {
                assert(mv.outside_radius_effects.take(mv.outside_radius_effects.len() as int)
                    =~= mv.outside_radius_effects);
            }
        } else {
            if p.is_targetable() {
                let pid = p.id;
                proof {
                    assert forall|k: int|
                        0 <= k < m.outside_radius_effects@.len() implies crate::effect::effect_v_wf(
                        (#[trigger] m.outside_radius_effects@[k]).deep_view(),
                    ) by {
                        assert(m.outside_radius_effects.deep_view()[k]
                            == m.outside_radius_effects@[k].deep_view());
                    }
                }
                p.apply_effects_if_not_present(&m.outside_radius_effects, EntityOwner::Zone);
                proof {
                    assert(m.outside_radius_effects.deep_view() =~= mv.outside_radius_effects);
                }
                if !p.is_targetable() {
                    let ghost kf_before = next_killfeed.deep_view();
                    next_killfeed.push(KillEvent { kill_by: EntityOwner::Zone, killed: pid });
                    proof {
                        assert(next_killfeed.deep_view() =~= kf_before.push(KillEvent {
                            kill_by: EntityOwner::Zone,
                            killed: pid,
                        }));
                    }
                }
            }
        }
        proof {
            assert(p.deep_view() =~= spec_zone_player(all[i], mv, zone.center, zone.radius));
            let head = if !(dist_sq(zone.center, all[i].position) <= sq(zone.radius as int))
                && all[i].status == PlayerStatus::Alive && spec_zone_player(all[i], mv, zone.center,
                zone.radius).status == PlayerStatus::Death {
                seq![KillEvent { kill_by: EntityOwner::Zone, killed: all[i].id }]
            } else {
                Seq::<KillEvent>::empty()
            };
            assert(zone_kills(rest0, mv, zone.center, zone.radius) =~= head + zone_kills(
                rest0.drop_first(), mv, zone.center, zone.radius));
        }
        done.push(p);
        proof {
            assert(done.deep_view()[i] == p.deep_view());
            assert(done.deep_view() =~= players_zone_applied(all, mv, zone.center,
                zone.radius).take(i + 1));
            assert(kf0 + zone_kills(all, mv, zone.center, zone.radius)
                =~= next_killfeed.deep_view() + zone_kills(rest.deep_view(), mv, zone.center,
                zone.radius));
        }
    }
    core::mem::swap(&mut done, players);
    proof {
        assert(players_zone_applied(all, mv, zone.center, zone.radius).take(all.len() as int)
            =~= players_zone_applied(all, mv, zone.center, zone.radius));
        assert(zone_kills(Seq::<PlayerV>::empty(), mv, zone.center, zone.radius)
            =~= Seq::<KillEvent>::empty());
        assert(next_killfeed.deep_view() =~= kf0 + zone_kills(all, mv, zone.center, zone.radius));
    }
}

/// Peeling one more removal off the front of the name list.
proof fn lemma_remove_named_take_step(p: PlayerV, es: Seq<EffectV>, j: int)
    requires
        0 <= j < es.len(),
    ensures
        spec_remove_effects_named(p, es.take(j + 1)) == spec_remove_effect(
            spec_remove_effects_named(p, es.take(j)),
            es[j].name,
        ),
    decreases j,
{
    reveal_with_fuel(spec_remove_effects_named, 3);
    if j == 0 {
        assert(es.take(1)[0] == es[0]);
        assert(es.take(1).drop_first() =~= es.take(0));
        assert(es.take(0).len() == 0);
    } else {
        assert(es.take(j + 1)[0] == es[0]);
        assert(es.take(j)[0] == es[0]);
        assert(es.take(j + 1).drop_first() =~= es.drop_first().take(j));
        assert(es.take(j).drop_first() =~= es.drop_first().take(j - 1));
        assert(es.drop_first()[j - 1] == es[j]);
        lemma_remove_named_take_step(spec_remove_effect(p, es[0].name), es.drop_first(), j - 1);
    }
}

/// The magnitude of a damage amount.
pub open spec fn damage_amount(d: i64) -> u64 {
    if d >= 0 {
        d as u64
    } else {
        (-(d as int)) as u64
    }
}

/// The LIFO drain of the pending damages: the damage queued last is
/// applied first; each victim that is still alive takes the damage and the
/// on-hit effects, and a victim whose health runs out is staged for the
/// killfeed.
pub open spec fn spec_drain(ps: Seq<PlayerV>, pending: Seq<DamageTrackerV>, kf: Seq<KillEvent>) -> (
    Seq<PlayerV>,
    Seq<KillEvent>,
)
    decreases pending.len(),
{
    if pending.len() == 0 {
        (ps, kf)
    } else {
        let d = pending.last();
        let idx = player_index_by_id(ps, d.attacked_id);
        let (ps1, kf1) = if idx >= 0 && idx < ps.len() && ps[idx].status != PlayerStatus::Death {
            let v = spec_decrease_health(ps[idx], damage_amount(d.damage));
            let v2 = spec_apply_effect_list(v, d.on_hit_effects, d.attacker);
            let kf2 = if v2.status == PlayerStatus::Death {
                kf.push(KillEvent { kill_by: d.attacker, killed: v2.id })
            } else {
                kf
            };
            (ps.update(idx, v2), kf2)
        } else {
            (ps, kf)
        };
        spec_drain(ps1, pending.drop_last(), kf1)
    }
}

/// Whether every pending damage carries sound on-hit effects.
pub open spec fn pending_wf(pending: Seq<DamageTrackerV>) -> bool {
    forall|i: int|
        0 <= i < pending.len() ==> zone_effects_wf((#[trigger] pending[i]).on_hit_effects)
}

/// Drains the pending damages, last first, staging a kill event for every
/// victim whose health runs out.
pub fn apply_damages_and_effects(
    pending_damages: &mut Vec<DamageTracker>,
    players: &mut Vec<Player>,
    next_killfeed: &mut Vec<KillEvent>,
)
    requires
        pending_wf(old(pending_damages).deep_view()),
    ensures
        final(pending_damages)@.len() == 0,
        (final(players).deep_view(), final(next_killfeed).deep_view()) == spec_drain(
            old(players).deep_view(),
            old(pending_damages).deep_view(),
            old(next_killfeed).deep_view(),
        ),
{
    let ghost ps0 = players.deep_view();
    let ghost pd0 = pending_damages.deep_view();
    let ghost kf0 = next_killfeed.deep_view();
    while pending_damages.len() > 0
        invariant
            pending_wf(pending_damages.deep_view()),
            spec_drain(ps0, pd0, kf0) == spec_drain(
                players.deep_view(),
                pending_damages.deep_view(),
                next_killfeed.deep_view(),
            ),
        decreases pending_damages@.len(),
    {
        let ghost pdv = pending_damages.deep_view();
        let ghost psv = players.deep_view();
        let ghost kfv = next_killfeed.deep_view();
        let d = match pending_damages.pop() {
            Some(d) => d,
            None => {
                proof {
                    assert(false);
                }
                return ;
            },
        };
        proof {
            assert(d.deep_view() == pdv.last());
            assert(pending_damages.deep_view() =~= pdv.drop_last());
        }
        let mut i: usize = 0;
        let mut found: bool = false;
        while i < players.len() && !found
            invariant
                psv == players.deep_view(),
                0 <= i <= psv.len(),
                !found ==> forall|k: int| 0 <= k < i ==> (#[trigger] psv[k]).id != d.attacked_id,
                found ==> 0 < i <= psv.len() && psv[i - 1].id == d.attacked_id && (forall|k: int|
                    0 <= k < i - 1 ==> (#[trigger] psv[k]).id != d.attacked_id),
            decreases psv.len() - i,
        {
            proof {
                assert(psv[i as int] == players@[i as int].deep_view());
            }
            if players[i].id == d.attacked_id {
                found = true;
            }
            i = i + 1;
        }
        if found {
            proof {
                lemma_player_index_of_match(psv, d.attacked_id, i - 1);
            }
            let mut victim = players.remove(i - 1);
            proof {
                assert(victim.deep_view() == psv[i - 1]);
            }
            if victim.is_targetable() {
                let amount: u64 = if d.damage >= 0 {
                    d.damage as u64
                } else if d.damage == i64::MIN {
                    0x8000_0000_0000_0000u64
                } else {
                    (-d.damage) as u64
                };
                victim.decrease_health(amount);
                proof {
                    assert forall|k: int|
                        0 <= k < d.on_hit_effects@.len() implies crate::effect::effect_v_wf(
                        (#[trigger] d.on_hit_effects@[k]).deep_view(),
                    ) by {
                        assert(d.on_hit_effects.deep_view()[k] == d.on_hit_effects@[
                            k].deep_view());
                    }
                }
                victim.apply_effects(&d.on_hit_effects, d.attacker);
                proof {
                    assert(d.on_hit_effects.deep_view() =~= d.deep_view().on_hit_effects);
                }
                if !victim.is_targetable() {
                    let ghost kf_before = next_killfeed.deep_view();
                    next_killfeed.push(KillEvent {
                        kill_by: d.attacker,
                        killed: victim.id,
                    });
                    proof {
                        crate::player::lemma_apply_list_frame(spec_decrease_health(psv[i - 1],
                            damage_amount(d.deep_view().damage)), d.deep_view().on_hit_effects,
                            d.deep_view().attacker);
                        assert(next_killfeed.deep_view() =~= kf_before.push(KillEvent {
                            kill_by: d.deep_view().attacker,
                            killed: victim.deep_view().id,
                        }));
                    }
                }
            }
            players.insert(i - 1, victim);
            proof {
                assert(players.deep_view() =~= psv.update(i - 1, victim.deep_view()));
                let dd = pdv.last();
                let idx = player_index_by_id(psv, dd.attacked_id);
                assert(idx == i - 1);
                if psv[idx].status != PlayerStatus::Death {
                    let v = spec_decrease_health(psv[idx], damage_amount(dd.damage));
                    let v2 = spec_apply_effect_list(v, dd.on_hit_effects, dd.attacker);
                    assert(victim.deep_view() =~= v2);
                } else {
                    assert(victim.deep_view() =~= psv[idx]);
                    assert(psv.update(idx, psv[idx]) =~= psv);
                }
            }
        } else {
            proof {
                lemma_player_index_none(psv, d.attacked_id);
            }
        }
        proof {
            assert(spec_drain(ps0, pd0, kf0) == spec_drain(players.deep_view(),
                pending_damages.deep_view(), next_killfeed.deep_view()));
        }
    }
    proof {
        assert(pending_damages.deep_view().len() == 0);
        assert((players.deep_view(), next_killfeed.deep_view()) == spec_drain(players.deep_view(),
            pending_damages.deep_view(), next_killfeed.deep_view()));
    }
}

/// Each kill of the killfeed credited to its killer, in order.
pub open spec fn spec_update_kill_counts(ps: Seq<PlayerV>, kf: Seq<KillEvent>) -> Seq<PlayerV>
    decreases kf.len(),
{
    if kf.len() == 0 {
        ps
    } else {
        let ps1 = match kf[0].kill_by {
            EntityOwner::Player(id) => {
                let idx = player_index_by_id(ps, id);
                if idx >= 0 && idx < ps.len() {
                    ps.update(
                        idx,
                        PlayerV {
                            kill_count: crate::player::sat_add64(ps[idx].kill_count, 1),
                            ..ps[idx]
                        },
                    )
                } else {
                    ps
                }
            },
            _ => ps,
        };
        spec_update_kill_counts(ps1, kf.drop_first())
    }
}

/// Credits every kill of the published killfeed to its killer.
pub fn update_kill_counts(players: &mut Vec<Player>, killfeed: &Vec<KillEvent>)
    ensures
        final(players).deep_view() == spec_update_kill_counts(
            old(players).deep_view(),
            killfeed.deep_view(),
        ),
{
    let ghost ps0 = players.deep_view();
    let ghost kfv = killfeed.deep_view();
    proof {
        assert(kfv.skip(0) =~= kfv);
    }
    let mut j: usize = 0;
    while j < killfeed.len()
        invariant
            kfv == killfeed.deep_view(),
            0 <= j <= kfv.len(),
            spec_update_kill_counts(ps0, kfv) == spec_update_kill_counts(
                players.deep_view(),
                kfv.skip(j as int),
            ),
        decreases kfv.len() - j,
    {
        proof {
            assert(kfv.skip(j as int)[0] == kfv[j as int]);
            assert(kfv.skip(j as int).drop_first() =~= kfv.skip(j + 1));
            assert(kfv[j as int] == killfeed@[j as int].deep_view());
        }
        let event = &killfeed[j];
        match event.kill_by {
            EntityOwner::Player(killer_id) => {
                let ghost psv = players.deep_view();
                let mut i: usize = 0;
                let mut found: bool = false;
                while i < players.len() && !found
                    invariant
                        psv == players.deep_view(),
                        0 <= i <= psv.len(),
                        !found ==> forall|k: int|
                            0 <= k < i ==> (#[trigger] psv[k]).id != killer_id,
                        found ==> 0 < i <= psv.len() && psv[i - 1].id == killer_id && (forall|
                            k: int,
                        |
                            0 <= k < i - 1 ==> (#[trigger] psv[k]).id != killer_id),
                    decreases psv.len() - i,
                {
                    proof {
                        assert(psv[i as int] == players@[i as int].deep_view());
                    }
                    if players[i].id == killer_id {
                        found = true;
                    }
                    i = i + 1;
                }
                if found {
                    proof {
                        lemma_player_index_of_match(psv, killer_id, i - 1);
                    }
                    let mut killer = players.remove(i - 1);
                    proof {
                        assert(killer.deep_view() == psv[i - 1]);
                    }
                    killer.add_kill();
                    players.insert(i - 1, killer);
                    proof {
                        assert(players.deep_view() =~= psv.update(i - 1, killer.deep_view()));
                    }
                } else {
                    proof {
                        lemma_player_index_none(psv, killer_id);
                    }
                }
            },
            _ => {
            },
        }
        j = j + 1;
    }
    proof {
        assert(kfv.skip(kfv.len() as int) =~= Seq::<KillEvent>::empty());
    }
}


/// The parameters a host hands to a skill activation, already parsed into
/// plain values: an explicit aiming direction, whether to auto-aim, and
/// the fraction of the maximum range to cover, in thousandths.
#[derive(Clone, Copy, Debug, PartialEq, Eq, Structural)]
pub struct SkillParams {
    pub direction: Option<Direction>,
    pub auto_aim: bool,
    pub amount_milli: u64,
}

impl GameState {
    /// A fresh match: no players, loots or projectiles, the zone at its
    /// starting radius around a random center, and the identifier counter
    /// at one.
    pub fn new(config: Config) -> (r: GameState)
        requires
            game_config_wf(config.game),
        ensures
            r.players@.len() == 0,
            r.loots@.len() == 0,
            r.projectiles@.len() == 0,
            r.next_killfeed@.len() == 0,
            r.killfeed@.len() == 0,
            r.pending_damages@.len() == 0,
            r.next_id == 1,
            r.zone.radius == config.game.zone_starting_radius,
            r.zone.deep_view().modifications == config.game.zone_modifications.deep_view(),
            r.zone.current_modification is None,
            r.zone.time_since_last_modification_ms == 0,
            in_world(r.zone.center),
            r.config.game == config.game,
    {
        let zone_radius = config.game.zone_starting_radius;
        let zone_center = random_position(config.game.outer_radius, config.game.inner_radius);
        let mut zone_modifications: Vec<ZoneModificationConfig> = Vec::new();
        let mut i: usize = 0;
        while i < config.game.zone_modifications.len()
            invariant
                0 <= i <= config.game.zone_modifications@.len(),
                zone_modifications.deep_view() =~= config.game.zone_modifications.deep_view().take(
                    i as int,
                ),
            decreases config.game.zone_modifications@.len() - i,
        {
            proof {
                assert(config.game.zone_modifications.deep_view()[i as int]
                    == config.game.zone_modifications@[i as int].deep_view());
            }
            zone_modifications.push(config.game.zone_modifications[i].clone());
            proof {
                assert(zone_modifications.deep_view()
                    =~= config.game.zone_modifications.deep_view().take(i + 1));
            }
            i = i + 1;
        }
        proof {
            assert(config.game.zone_modifications.deep_view().take(
                config.game.zone_modifications@.len() as int)
                =~= config.game.zone_modifications.deep_view());
        }
        GameState {
            config,
            players: Vec::new(),
            loots: Vec::new(),
            projectiles: Vec::new(),
            zone: Zone {
                center: zone_center,
                radius: zone_radius,
                modifications: zone_modifications,
                current_modification: None,
                time_since_last_modification_ms: 0,
            },
            next_killfeed: Vec::new(),
            killfeed: Vec::new(),
            next_id: 1,
            pending_damages: Vec::new(),
        }
    }

    /// Lays a loot on the ground.
    pub fn push_loot(&mut self, loot: Loot)
        ensures
            final(self).loots.deep_view() == old(self).loots.deep_view().push(loot.deep_view()),
            final(self).players == old(self).players,
            final(self).projectiles == old(self).projectiles,
            final(self).config == old(self).config,
            final(self).zone == old(self).zone,
            final(self).killfeed == old(self).killfeed,
            final(self).next_killfeed == old(self).next_killfeed,
            final(self).pending_damages == old(self).pending_damages,
            final(self).next_id == old(self).next_id,
    {
        let ghost l0 = self.loots.deep_view();
        self.loots.push(loot);
        proof {
            assert(self.loots.deep_view() =~= l0.push(self.loots@.last().deep_view()));
        }
    }

    /// Spawns one loot of a random configured kind at a random spot on the
    /// map, handing back its fresh id; a configuration without loot kinds
    /// spawns nothing.
    pub fn spawn_random_loot(&mut self) -> (r: Option<u64>)
        requires
            old(self).next_id < u64::MAX,
            game_config_wf(old(self).config.game),
            old(self).config.loots@.len() <= 0x7fff_ffff_ffff_ffff,
        ensures
            old(self).config.loots@.len() == 0 ==> r is None && final(self).loots == old(
                self,
            ).loots && final(self).next_id == old(self).next_id,
            old(self).config.loots@.len() > 0 ==> ({
                let fresh = final(self).loots.deep_view().last();
                &&& r == Some(old(self).next_id)
                &&& final(self).next_id == old(self).next_id + 1
                &&& final(self).loots.deep_view().len() == old(self).loots.deep_view().len() + 1
                &&& final(self).loots.deep_view().take(old(self).loots@.len() as int) =~= old(
                    self,
                ).loots.deep_view()
                &&& fresh.id == old(self).next_id
                &&& in_world(fresh.position)
                &&& dist_sq(fresh.position, Position { x: 0, y: 0 }) <= sq(
                    old(self).config.game.outer_radius as int / 2,
                )
                &&& exists|j: int|
                    {
                        &&& 0 <= j < old(self).config.loots.deep_view().len()
                        &&& fresh.name == (#[trigger] old(self).config.loots.deep_view()[j]).name
                        &&& fresh.size == old(self).config.loots.deep_view()[j].size
                        &&& fresh.pickup_mechanic == old(self).config.loots.deep_view()[
                            j
                        ].pickup_mechanic
                        &&& fresh.effects == old(self).config.loots.deep_view()[j].effects
                    }
            }),
            final(self).players == old(self).players,
            final(self).config == old(self).config,
    {
        if self.config.loots.len() == 0 {
            return None;
        }
        let id = get_next_id(&mut self.next_id);
        let position = random_position(self.config.game.outer_radius, self.config.game.inner_radius);
        let pick = crate::map::random_index_below(self.config.loots.len());
        proof {
            assert(self.config.loots.deep_view()[pick as int] == self.config.loots@[
                pick as int].deep_view());
        }
        let loot = Loot::new(id, position, &self.config.loots[pick]);
        let ghost l0 = self.loots.deep_view();
        self.loots.push(loot);
        proof {
            assert(self.loots.deep_view() =~= l0.push(self.loots@.last().deep_view()));
            assert(self.loots.deep_view().take(l0.len() as int) =~= l0);
        }
        Some(id)
    }

    /// Hands out the next fresh identifier.
    pub fn next_id(&mut self) -> (id: u64)
        requires
            old(self).next_id < u64::MAX,
        ensures
            id == old(self).next_id,
            final(self).next_id == old(self).next_id + 1,
            final(self).players == old(self).players,
            final(self).loots == old(self).loots,
            final(self).projectiles == old(self).projectiles,
            final(self).config == old(self).config,
            final(self).zone == old(self).zone,
            final(self).killfeed == old(self).killfeed,
            final(self).next_killfeed == old(self).next_killfeed,
            final(self).pending_damages == old(self).pending_damages,
    {
        get_next_id(&mut self.next_id)
    }

    /// Adds a player of the named character, spawned at the next initial
    /// position (or the origin when none is configured). Fails when no
    /// active character carries the name.
    pub fn add_player(&mut self, character_name: &String) -> (r: Result<u64, GameError>)
        requires
            old(self).next_id < u64::MAX,
            game_config_wf(old(self).config.game),
        ensures
            match r {
                Ok(id) => {
                    &&& id == old(self).next_id
                    &&& final(self).players@.len() == old(self).players@.len() + 1
                    &&& final(self).players.deep_view().last().id == id
                    &&& final(self).players.deep_view().take(old(self).players@.len() as int)
                        =~= old(self).players.deep_view()
                    &&& final(self).next_id == old(self).next_id + 1
                    &&& ({
                        let fresh = final(self).players.deep_view().last();
                        let slot = old(self).players@.len() as int;
                        &&& fresh.position == (if slot < old(
                            self,
                        ).config.game.initial_positions@.len() {
                            old(self).config.game.initial_positions@[slot]
                        } else {
                            Position { x: 0, y: 0 }
                        })
                        &&& fresh.status == PlayerStatus::Alive
                        &&& fresh.health == fresh.character.base_health
                        &&& fresh.speed == fresh.character.base_speed
                        &&& fresh.size == fresh.character.base_size
                        &&& fresh.direction == (Direction { x: 1000, y: 0 })
                        &&& fresh.effects.len() == 0
                        &&& fresh.cooldowns.len() == 0
                        &&& fresh.actions.len() == 0
                        &&& fresh.kill_count == 0
                        &&& fresh.moving_params is None
                        &&& fresh.inventory.len() == fresh.character.max_inventory_size
                        &&& forall|k: int|
                            0 <= k < fresh.inventory.len() ==> fresh.inventory[k] is None
                    })

                    &&& exists|j: int|
                        {
                            &&& 0 <= j < old(self).config.characters.deep_view().len()
                            &&& (#[trigger] old(self).config.characters.deep_view()[j]).active
                            &&& old(self).config.characters.deep_view()[j].name
                                == character_name@
                            &&& final(self).players.deep_view().last().character == (
                            CharacterConfigV {
                                max_inventory_size: if old(self).config.characters.deep_view()[
                                    j
                                ].max_inventory_size > usize::MAX as u64 {
                                    usize::MAX as u64
                                } else {
                                    old(self).config.characters.deep_view()[j].max_inventory_size
                                },
                                ..old(self).config.characters.deep_view()[j]
                            })
                        }
                },
                Err(e) => {
                    &&& e == GameError::CharacterNotFound
                    &&& final(self).players.deep_view() == old(self).players.deep_view()
                    &&& forall|j: int|
                        0 <= j < old(self).config.characters.deep_view().len() ==> !((
                        #[trigger] old(self).config.characters.deep_view()[j]).active && old(
                            self,
                        ).config.characters.deep_view()[j].name == character_name@)
                },
            },
    {
        let character = match self.config.find_character(character_name) {
            Some(c) => c,
            None => {
                return Err(GameError::CharacterNotFound);
            },
        };
        let player_id = get_next_id(&mut self.next_id);
        let player_count = self.players.len();
        let initial_position: Position = if player_count < self.config.game.initial_positions.len() {
            self.config.game.initial_positions[player_count]
        } else {
            Position { x: 0, y: 0 }
        };
        let ghost found_character = character.deep_view();
        let capped = if character.max_inventory_size > usize::MAX as u64 {
            CharacterConfig {
                max_inventory_size: usize::MAX as u64,
                ..character
            }
        } else {
            character
        };
        proof {
            assert(capped.deep_view() =~= (CharacterConfigV {
                max_inventory_size: if found_character.max_inventory_size > usize::MAX as u64 {
                    usize::MAX as u64
                } else {
                    found_character.max_inventory_size
                },
                ..found_character
            }));
        }
        let player = Player::new(player_id, capped, initial_position);
        self.players.push(player);
        proof {
            assert(self.players.deep_view().take(old(self).players@.len() as int) =~= old(
                self,
            ).players.deep_view());
            assert(self.players.deep_view().last() == player.deep_view());
        }
        Ok(player_id)
    }

    /// Walks the player one step along `dir` and collects any loot on the
    /// way; a busy player does not move.
    pub fn move_player(&mut self, player_id: u64, dir: Direction)
        requires
            players_wf(old(self).players.deep_view()),
            loots_wf(old(self).loots.deep_view()),
            game_config_wf(old(self).config.game),
            dir_valid(dir),
        ensures
            ({
                let ps = old(self).players.deep_view();
                let idx = player_index_by_id(ps, player_id);
                let players_after = final(self).players.deep_view();
                let loots_after = final(self).loots.deep_view();
                if idx < 0 || ps[idx].action_duration_ms != 0 {
                    players_after == ps && loots_after == old(self).loots.deep_view()
                } else {
                    ({
                        let moved = spec_move_position(
                            ps[idx],
                            dir,
                            old(self).config.game.outer_radius as int / 2,
                        );
                        if moved.status == PlayerStatus::Alive {
                            let (pf, kept) = spec_collect_loot(
                                moved,
                                old(self).loots.deep_view(),
                            );
                            players_after == ps.update(idx, pf) && loots_after == kept
                        } else {
                            players_after == ps.update(idx, moved) && loots_after == old(
                                self,
                            ).loots.deep_view()
                        }
                    })
                }
            }),
    {
        let ghost ps = self.players.deep_view();
        let mut i: usize = 0;
        let mut found: bool = false;
        while i < self.players.len() && !found
            invariant
                ps == self.players.deep_view(),
                0 <= i <= ps.len(),
                !found ==> forall|k: int| 0 <= k < i ==> (#[trigger] ps[k]).id != player_id,
                found ==> 0 < i <= ps.len() && ps[i - 1].id == player_id && (forall|k: int|
                    0 <= k < i - 1 ==> (#[trigger] ps[k]).id != player_id),
            decreases ps.len() - i,
        {
            proof {
                assert(ps[i as int] == self.players@[i as int].deep_view());
            }
            if self.players[i].id == player_id {
                found = true;
            }
            i = i + 1;
        }
        if !found {
            proof {
                lemma_player_index_none(ps, player_id);
            }
            return ;
        }
        proof {
            lemma_player_index_of_match(ps, player_id, i - 1);
        }
        let mut p = self.players.remove(i - 1);
        proof {
            assert(p.deep_view() == ps[i - 1]);
        }
        if !p.can_do_action() {
            self.players.insert(i - 1, p);
            proof {
                assert(self.players.deep_view() =~= ps.update(i - 1, ps[i - 1]));
                assert(ps.update(i - 1, ps[i - 1]) =~= ps);
            }
            return ;
        }
        let radius: u64 = self.config.game.outer_radius / 2;
        p.move_position(dir, radius);
        collect_nearby_loot(&mut self.loots, &mut p);
        self.players.insert(i - 1, p);
        proof {
            assert(self.players.deep_view() =~= ps.update(i - 1, p.deep_view()));
        }
    }

    /// Uses the loot stored in the given inventory slot, applying its
    /// effects; a busy player, or an empty or out-of-range slot, is a
    /// no-op.
    pub fn activate_inventory(&mut self, player_id: u64, inventory_at: usize)
        requires
            players_wf(old(self).players.deep_view()),
            forall|i: int, k: int|
                0 <= i < old(self).players.deep_view().len() && 0 <= k < old(
                    self,
                ).players.deep_view()[i].inventory.len() ==> (match (#[trigger] old(
                    self,
                ).players.deep_view()[i].inventory[k]) {
                    Some(l) => zone_effects_wf(l.effects),
                    None => true,
                }),
        ensures
            ({
                let ps = old(self).players.deep_view();
                let idx = player_index_by_id(ps, player_id);
                if idx < 0 || ps[idx].action_duration_ms != 0 || inventory_at >= ps[
                    idx
                ].inventory.len() || ps[idx].inventory[inventory_at as int] is None {
                    final(self).players.deep_view() == ps
                } else {
                    ({
                        let l = ps[idx].inventory[inventory_at as int]->0;
                        let taken = PlayerV {
                            inventory: ps[idx].inventory.update(inventory_at as int, None),
                            ..ps[idx]
                        };
                        final(self).players.deep_view() == ps.update(
                            idx,
                            spec_apply_effect_list(taken, l.effects, EntityOwner::Loot),
                        )
                    })
                }
            }),
    {
        let ghost ps = self.players.deep_view();
        let mut i: usize = 0;
        let mut found: bool = false;
        while i < self.players.len() && !found
            invariant
                ps == self.players.deep_view(),
                0 <= i <= ps.len(),
                !found ==> forall|k: int| 0 <= k < i ==> (#[trigger] ps[k]).id != player_id,
                found ==> 0 < i <= ps.len() && ps[i - 1].id == player_id && (forall|k: int|
                    0 <= k < i - 1 ==> (#[trigger] ps[k]).id != player_id),
            decreases ps.len() - i,
        {
            proof {
                assert(ps[i as int] == self.players@[i as int].deep_view());
            }
            if self.players[i].id == player_id {
                found = true;
            }
            i = i + 1;
        }
        if !found {
            proof {
                lemma_player_index_none(ps, player_id);
            }
            return ;
        }
        proof {
            lemma_player_index_of_match(ps, player_id, i - 1);
        }
        let mut p = self.players.remove(i - 1);
        proof {
            assert(p.deep_view() == ps[i - 1]);
        }
        if !p.can_do_action() || inventory_at >= p.inventory.len() {
            self.players.insert(i - 1, p);
            proof {
                assert(self.players.deep_view() =~= ps.update(i - 1, ps[i - 1]));
                assert(ps.update(i - 1, ps[i - 1]) =~= ps);
            }
            return ;
        }
        let taken = p.inventory_take_at(inventory_at);
        match taken {
            Some(loot) => {
                proof {
                    assert(loot.deep_view() == ps[i - 1].inventory[inventory_at as int]->0);
                    assert forall|k: int|
                        0 <= k < loot.effects@.len() implies crate::effect::effect_v_wf(
                        (#[trigger] loot.effects@[k]).deep_view(),
                    ) by {
                        assert(loot.effects.deep_view()[k] == loot.effects@[k].deep_view());
                    }
                }
                p.apply_effects(&loot.effects, EntityOwner::Loot);
                proof {
                    assert(loot.effects.deep_view() =~= ps[i - 1].inventory[
                        inventory_at as int]->0.effects);
                }
                self.players.insert(i - 1, p);
                proof {
                    assert(self.players.deep_view() =~= ps.update(i - 1, p.deep_view()));
                }
            },
            None => {
                self.players.insert(i - 1, p);
                proof {
                    assert(p.deep_view() =~= (PlayerV {
                        inventory: ps[i - 1].inventory.update(inventory_at as int, None),
                        ..ps[i - 1]
                    }));
                    assert(ps[i - 1].inventory.update(inventory_at as int, None) =~= ps[
                        i - 1].inventory);
                    assert(p.deep_view() =~= ps[i - 1]);
                    assert(self.players.deep_view() =~= ps.update(i - 1, p.deep_view()));
                    assert(ps.update(i - 1, ps[i - 1]) =~= ps);
                }
            },
        }
    }
}

/// Skill data the engine can run arithmetic on: valid rotations and cone
/// cosines, bounded ranges and projectile stats, sound effects.
pub open spec fn mechanic_wf(m: crate::skill::SkillMechanicV) -> bool {
    match m {
        crate::skill::SkillMechanicV::GiveEffect { effects_to_give } => zone_effects_wf(
            effects_to_give,
        ),
        crate::skill::SkillMechanicV::Hit { range, cone_half_cos_milli, on_hit_effects, .. } => {
            &&& range <= WORLD_MAX as u64
            &&& -1000 <= cone_half_cos_milli <= 1000
            &&& zone_effects_wf(on_hit_effects)
        },
        crate::skill::SkillMechanicV::SimpleShoot { projectile } => {
            &&& projectile.base_speed <= WORLD_MAX as u64
            &&& projectile.base_size <= WORLD_MAX as u64
            &&& zone_effects_wf(projectile.on_hit_effects)
        },
        crate::skill::SkillMechanicV::MultiShoot { projectile, spread, .. } => {
            &&& projectile.base_speed <= WORLD_MAX as u64
            &&& projectile.base_size <= WORLD_MAX as u64
            &&& zone_effects_wf(projectile.on_hit_effects)
            &&& forall|i: int| 0 <= i < spread.len() ==> crate::map::rot_valid(#[trigger] spread[i])
        },
        crate::skill::SkillMechanicV::MoveToTarget { max_range, .. } => max_range
            <= WORLD_MAX as u64,
    }
}

pub open spec fn skill_v_wf(s: crate::skill::SkillConfigV) -> bool {
    forall|i: int| 0 <= i < s.mechanics.len() ==> mechanic_wf(#[trigger] s.mechanics[i])
}

pub open spec fn character_skills_wf(c: CharacterConfigV) -> bool {
    forall|i: int| 0 <= i < c.skills.len() ==> skill_v_wf((#[trigger] c.skills[i]).skill)
}

pub open spec fn players_skills_wf(ps: Seq<PlayerV>) -> bool {
    forall|i: int| 0 <= i < ps.len() ==> character_skills_wf((#[trigger] ps[i]).character)
}

/// Taking one player out keeps the rest sound.
proof fn lemma_players_wf_remove(ps: Seq<PlayerV>, i: int)
    requires
        players_wf(ps),
        0 <= i < ps.len(),
    ensures
        players_wf(ps.remove(i)),
{
    assert forall|k: int|
        0 <= k < ps.remove(i).len() implies {
        &&& player_geometry_wf(#[trigger] ps.remove(i)[k])
        &&& player_effects_wf(ps.remove(i)[k])
        &&& match ps.remove(i)[k].moving_params {
            Some(mp) => dir_valid(mp.direction),
            None => true,
        }
    } by {
        if k < i {
            assert(ps.remove(i)[k] == ps[k]);
        } else {
            assert(ps.remove(i)[k] == ps[k + 1]);
        }
    }
}

/// Every binding of a sound character is sound.
proof fn lemma_players_skills_wf_remove(ps: Seq<PlayerV>, i: int)
    requires
        players_skills_wf(ps),
        0 <= i < ps.len(),
    ensures
        players_skills_wf(ps.remove(i)),
{
    assert forall|k: int|
        0 <= k < ps.remove(i).len() implies character_skills_wf(
        (#[trigger] ps.remove(i)[k]).character,
    ) by {
        if k < i {
            assert(ps.remove(i)[k] == ps[k]);
        } else {
            assert(ps.remove(i)[k] == ps[k + 1]);
        }
    }
}

proof fn lemma_cooldown_index_nonneg(s: Seq<crate::player::CooldownV>, key: Seq<char>, j: int)
    requires
        0 <= j < s.len(),
        s[j].key == key,
    ensures
        crate::player::cooldown_index(s, key) >= 0,
    decreases s.len(),
{
    if s.len() == 0 {
    } else if s[0].key == key {
    } else {
        assert(s.drop_first()[j - 1] == s[j]);
        lemma_cooldown_index_nonneg(s.drop_first(), key, j - 1);
    }
}

/// The scan for the nearest other living player: walks the list keeping
/// the strictly closest position seen so far, starting from the search
/// bound.
pub open spec fn spec_nearest_scan(
    ps: Seq<PlayerV>,
    position: Position,
    own_id: u64,
    best: Option<Position>,
    best_d2: int,
    bound_d2: int,
) -> Option<Position>
    decreases ps.len(),
{
    if ps.len() == 0 {
        best
    } else {
        let c = ps[0];
        let (b1, d1) = if c.id != own_id && c.status == PlayerStatus::Alive {
            let d2 = dist_sq(c.position, position);
            let closer = match best {
                Some(_) => d2 < best_d2,
                None => d2 < bound_d2,
            };
            if closer {
                (Some(c.position), d2)
            } else {
                (best, best_d2)
            }
        } else {
            (best, best_d2)
        };
        spec_nearest_scan(ps.drop_first(), position, own_id, b1, d1, bound_d2)
    }
}

/// The position of the nearest other living player strictly within
/// `max_distance`, if any.
pub open spec fn spec_nearest(
    ps: Seq<PlayerV>,
    position: Position,
    own_id: u64,
    max_distance: u64,
) -> Option<Position> {
    spec_nearest_scan(ps, position, own_id, None, 0, sq(max_distance as int))
}

fn nearest_player_position(
    players: &Vec<Player>,
    position: &Position,
    own_id: u64,
    max_distance: u64,
) -> (r: Option<Position>)
    requires
        players_wf(players.deep_view()),
        in_world(*position),
        max_distance <= WORLD_MAX as u64,
    ensures
        r == spec_nearest(players.deep_view(), *position, own_id, max_distance),
        match r {
            Some(pos) => in_world(pos),
            None => true,
        },
{
    let ghost psv = players.deep_view();
    let mut best: Option<Position> = None;
    let mut best_d2: u128 = 0;
    let md: u128 = {
        proof {
            let m: int = max_distance as int;
            assert(0 <= m * m <= u128::MAX) by (nonlinear_arith)
                requires
                    0 <= m <= 0x4000_0000,
            ;
        }
        (max_distance as u128) * (max_distance as u128)
    };
    proof {
        assert(psv.skip(0) =~= psv);
    }
    let mut i: usize = 0;
    while i < players.len()
        invariant
            psv == players.deep_view(),
            players_wf(psv),
            in_world(*position),
            0 <= i <= psv.len(),
            spec_nearest(psv, *position, own_id, max_distance) == spec_nearest_scan(
                psv.skip(i as int),
                *position,
                own_id,
                best,
                best_d2 as int,
                sq(max_distance as int),
            ),
            match best {
                Some(pos) => in_world(pos),
                None => true,
            },
        decreases psv.len() - i,
    {
        proof {
            assert(psv.skip(i as int)[0] == psv[i as int]);
            assert(psv.skip(i as int).drop_first() =~= psv.skip(i + 1));
            assert(psv[i as int] == players@[i as int].deep_view());
        }
        let candidate = &players[i];
        if candidate.id != own_id && candidate.is_targetable() {
            let d2 = crate::map::distance_squared(&candidate.position, position);
            let closer = match best {
                Some(_) => d2 < best_d2,
                None => d2 < md,
            };
            if closer {
                best = Some(candidate.position);
                best_d2 = d2;
            }
        }
        i = i + 1;
    }
    proof {
        assert(psv.skip(psv.len() as int) =~= Seq::<PlayerV>::empty());
    }
    best
}

/// A projectile freshly spawned from a template.
pub open spec fn spec_new_projectile(
    id: u64,
    position: Position,
    direction: Direction,
    owner: u64,
    pc: crate::projectile::ProjectileConfigV,
) -> crate::projectile::ProjectileV {
    crate::projectile::ProjectileV {
        name: pc.name,
        damage: pc.base_damage,
        speed: pc.base_speed,
        size: pc.base_size,
        on_hit_effects: pc.on_hit_effects,
        duration_ms: pc.duration_ms,
        max_distance: pc.max_distance,
        id,
        position,
        direction,
        player_id: owner,
        active: true,
        remove_on_collision: pc.remove_on_collision,
        attacked_player_ids: Seq::empty(),
    }
}

/// One shot: a projectile joins the list and the counter advances, unless
/// the identifier space is spent.
pub open spec fn spec_spawn(
    projs: Seq<crate::projectile::ProjectileV>,
    next_id: u64,
    position: Position,
    direction: Direction,
    owner: u64,
    pc: crate::projectile::ProjectileConfigV,
) -> (Seq<crate::projectile::ProjectileV>, u64) {
    if next_id < u64::MAX {
        (
            projs.push(spec_new_projectile(next_id, position, direction, owner, pc)),
            (next_id + 1) as u64,
        )
    } else {
        (projs, next_id)
    }
}

/// The mirrored rotation: the same turn the other way around.
pub open spec fn spec_mirror(rot: crate::map::Rotation) -> crate::map::Rotation {
    crate::map::Rotation {
        cos_milli: rot.cos_milli,
        sin_milli: (0 - rot.sin_milli as int) as i64,
    }
}

/// The multi-shot fan: for each rotation of the spread, one shot turned
/// up by it and one turned down.
pub open spec fn spec_fan(
    spread: Seq<crate::map::Rotation>,
    projs: Seq<crate::projectile::ProjectileV>,
    next_id: u64,
    position: Position,
    direction: Direction,
    owner: u64,
    pc: crate::projectile::ProjectileConfigV,
) -> (Seq<crate::projectile::ProjectileV>, u64)
    decreases spread.len(),
{
    if spread.len() == 0 {
        (projs, next_id)
    } else {
        let up = crate::map::spec_rotate(direction, spread[0]);
        let (p1, id1) = spec_spawn(
            projs,
            next_id,
            position,
            Direction { x: up.0 as i64, y: up.1 as i64 },
            owner,
            pc,
        );
        let down = crate::map::spec_rotate(direction, spec_mirror(spread[0]));
        let (p2, id2) = spec_spawn(
            p1,
            id1,
            position,
            Direction { x: down.0 as i64, y: down.1 as i64 },
            owner,
            pc,
        );
        spec_fan(spread.drop_first(), p2, id2, position, direction, owner, pc)
    }
}

/// A base damage boosted by the damage-attributed changes of a list, in
/// order.
pub open spec fn spec_boost(dmg: u64, cs: Seq<AttributeChange>) -> u64
    decreases cs.len(),
{
    if cs.len() == 0 {
        dmg
    } else {
        let d1 = if cs[0].attribute == crate::effect::Attribute::Damage {
            crate::effect::spec_modify(dmg as int, cs[0].modifier, cs[0].value as int) as u64
        } else {
            dmg
        };
        spec_boost(d1, cs.drop_first())
    }
}

/// A base damage boosted by every damage change of the caster's stored
/// effects, in order.
pub open spec fn spec_boost_all(dmg: u64, effects: Seq<crate::player::AppliedEffectV>) -> u64
    decreases effects.len(),
{
    if effects.len() == 0 {
        dmg
    } else {
        spec_boost_all(spec_boost(dmg, effects[0].effect.player_attributes), effects.drop_first())
    }
}

/// The damages a melee hit queues: one per living target in range and in
/// the caster's cone, while the caster itself lives.
pub open spec fn spec_hit_pending(
    targets: Seq<PlayerV>,
    caster: PlayerV,
    range: u64,
    cone_cos_milli: i64,
    dmg: u64,
    on_hit: Seq<EffectV>,
    pending: Seq<DamageTrackerV>,
) -> Seq<DamageTrackerV>
    decreases targets.len(),
{
    if targets.len() == 0 {
        pending
    } else {
        let t = targets[0];
        let hit = t.status == PlayerStatus::Alive && caster.status == PlayerStatus::Alive
            && crate::map::spec_in_cone_angle_range(
            caster.position,
            caster.size as int,
            caster.direction,
            t.position,
            range as int,
            cone_cos_milli as int,
        );
        let p1 = if hit {
            pending.push(
                DamageTrackerV {
                    attacked_id: t.id,
                    attacker: EntityOwner::Player(caster.id),
                    damage: dmg as i64,
                    on_hit_effects: on_hit,
                },
            )
        } else {
            pending
        };
        spec_hit_pending(targets.drop_first(), caster, range, cone_cos_milli, dmg, on_hit, p1)
    }
}

/// The moving state one mechanics pass threads through: the caster, the
/// projectile list, the pending damages, the identifier counter and the
/// execution time of the activation.
#[verifier::ext_equal]
pub ghost struct MechState {
    pub caster: PlayerV,
    pub projs: Seq<crate::projectile::ProjectileV>,
    pub pending: Seq<DamageTrackerV>,
    pub next_id: u64,
    pub exec_ms: u64,
}

/// What one mechanic does. An auto-triggered pass (skills fired by
/// periodic effects) runs only shots and melee hits.
pub open spec fn spec_mechanic_step(
    m: crate::skill::SkillMechanicV,
    auto: bool,
    st: MechState,
    others: Seq<PlayerV>,
    params: SkillParams,
    aim_max: u64,
    tick_ms: u64,
) -> MechState {
    match m {
        crate::skill::SkillMechanicV::SimpleShoot { projectile } => {
            let (p1, id1) = spec_spawn(
                st.projs,
                st.next_id,
                st.caster.position,
                st.caster.direction,
                st.caster.id,
                projectile,
            );
            MechState { projs: p1, next_id: id1, ..st }
        },
        crate::skill::SkillMechanicV::Hit {
            damage,
            range,
            cone_angle,
            cone_half_cos_milli,
            on_hit_effects,
        } => {
            let dmg = spec_boost_all(damage, st.caster.effects);
            MechState {
                pending: spec_hit_pending(
                    others,
                    st.caster,
                    range,
                    cone_half_cos_milli,
                    dmg,
                    on_hit_effects,
                    st.pending,
                ),
                ..st
            }
        },
        crate::skill::SkillMechanicV::MultiShoot { projectile, count, cone_angle, spread } => {
            if auto {
                st
            } else {
                let (p1, id1) = spec_fan(
                    spread,
                    st.projs,
                    st.next_id,
                    st.caster.position,
                    st.caster.direction,
                    st.caster.id,
                    projectile,
                );
                let (p2, id2) = if count % 2 == 1 {
                    spec_spawn(
                        p1,
                        id1,
                        st.caster.position,
                        st.caster.direction,
                        st.caster.id,
                        projectile,
                    )
                } else {
                    (p1, id1)
                };
                MechState { projs: p2, next_id: id2, ..st }
            }
        },
        crate::skill::SkillMechanicV::GiveEffect { effects_to_give } => {
            if auto {
                st
            } else {
                MechState {
                    caster: spec_apply_effect_list(
                        st.caster,
                        effects_to_give,
                        EntityOwner::Player(st.caster.id),
                    ),
                    ..st
                }
            }
        },
        crate::skill::SkillMechanicV::MoveToTarget { duration_ms, max_range } => {
            if auto {
                st
            } else {
                let amount = if params.auto_aim {
                    match spec_nearest(others, st.caster.position, st.caster.id, aim_max) {
                        Some(tp) => {
                            if max_range > 0 {
                                let dist = crate::isqrt::spec_isqrt(
                                    dist_sq(tp, st.caster.position),
                                );
                                if dist * 1000 / (max_range as int) > 1000 {
                                    1000int
                                } else {
                                    dist * 1000 / (max_range as int)
                                }
                            } else {
                                1000int
                            }
                        },
                        None => 1000int,
                    }
                } else {
                    if params.amount_milli > 1000 {
                        1000int
                    } else {
                        params.amount_milli as int
                    }
                };
                let distance = (max_range * amount) / 1000;
                let ticks = if st.caster.speed > 0 {
                    distance / (st.caster.speed as int)
                } else {
                    0int
                };
                let dur = if ticks * tick_ms > u64::MAX {
                    u64::MAX
                } else {
                    (ticks * tick_ms) as u64
                };
                MechState {
                    caster: PlayerV {
                        moving_params: Some(
                            MovingParams {
                                duration_ms: dur,
                                direction: st.caster.direction,
                                speed: st.caster.speed,
                            },
                        ),
                        ..st.caster
                    },
                    exec_ms: dur,
                    ..st
                }
            }
        },
    }
}

/// A whole mechanics pass, in order.
pub open spec fn spec_run_mechanics(
    ms: Seq<crate::skill::SkillMechanicV>,
    auto: bool,
    st: MechState,
    others: Seq<PlayerV>,
    params: SkillParams,
    aim_max: u64,
    tick_ms: u64,
) -> MechState
    decreases ms.len(),
{
    if ms.len() == 0 {
        st
    } else {
        spec_run_mechanics(
            ms.drop_first(),
            auto,
            spec_mechanic_step(ms[0], auto, st, others, params, aim_max, tick_ms),
            others,
            params,
            aim_max,
            tick_ms,
        )
    }
}

/// Where the caster faces after an activation: toward the nearest enemy
/// under auto-aim, along the explicit direction, or unchanged.
pub open spec fn spec_aimed_direction(
    caster: PlayerV,
    others: Seq<PlayerV>,
    params: SkillParams,
    aim_max: u64,
) -> Direction {
    if params.auto_aim {
        match spec_nearest(others, caster.position, caster.id, aim_max) {
            Some(tp) => {
                let d = crate::map::spec_direction_from(caster.position, tp);
                Direction { x: d.0 as i64, y: d.1 as i64 }
            },
            None => caster.direction,
        }
    } else {
        match params.direction {
            Some(d) => d,
            None => caster.direction,
        }
    }
}

impl GameState {
    /// Runs one mechanic of an activation: shots spawn projectiles, melee
    /// hits queue damages against the current player list, effect gifts
    /// fold into the caster and a movement skill arms its parameters. In
    /// an auto-triggered pass only shots and hits run.
    #[verifier::rlimit(100)]
    fn run_mechanic(
        &mut self,
        p: &mut Player,
        mech: &crate::skill::SkillMechanic,
        auto: bool,
        params: SkillParams,
        exec_ms: &mut u64,
    )
        requires
            players_wf(old(self).players.deep_view()),
            game_config_wf(old(self).config.game),
            mechanic_wf(mech.deep_view()),
            player_geometry_wf(old(p).deep_view()),
            player_effects_wf(old(p).deep_view()),
            match old(p).moving_params {
                Some(mp) => dir_valid(mp.direction),
                None => true,
            },
        ensures
            final(self).players.deep_view() == old(self).players.deep_view(),
            final(self).loots == old(self).loots,
            final(self).zone == old(self).zone,
            final(self).killfeed == old(self).killfeed,
            final(self).next_killfeed == old(self).next_killfeed,
            final(self).config == old(self).config,
            ({
                let st_out = MechState {
                    caster: final(p).deep_view(),
                    projs: final(self).projectiles.deep_view(),
                    pending: final(self).pending_damages.deep_view(),
                    next_id: final(self).next_id,
                    exec_ms: *final(exec_ms),
                };
                let st_in = MechState {
                    caster: old(p).deep_view(),
                    projs: old(self).projectiles.deep_view(),
                    pending: old(self).pending_damages.deep_view(),
                    next_id: old(self).next_id,
                    exec_ms: *old(exec_ms),
                };
                st_out == spec_mechanic_step(
                    mech.deep_view(),
                    auto,
                    st_in,
                    old(self).players.deep_view(),
                    params,
                    old(self).config.game.auto_aim_max_distance,
                    old(self).config.game.tick_interval_ms,
                )
            }),
            player_geometry_wf(final(p).deep_view()),
            player_effects_wf(final(p).deep_view()),
            match final(p).moving_params {
                Some(mp) => dir_valid(mp.direction),
                None => true,
            },
            final(p).deep_view().cooldowns == old(p).deep_view().cooldowns,
            final(p).id == old(p).id,
            final(self).projectiles.deep_view().take(old(self).projectiles@.len() as int) == old(
                self,
            ).projectiles.deep_view(),
            final(self).projectiles.deep_view().len() >= old(self).projectiles@.len(),
            final(self).pending_damages.deep_view().take(old(self).pending_damages@.len() as int)
                == old(self).pending_damages.deep_view(),
            final(self).pending_damages.deep_view().len() >= old(self).pending_damages@.len(),
            projectiles_wf(old(self).projectiles.deep_view()) ==> projectiles_wf(
                final(self).projectiles.deep_view(),
            ),
            pending_wf(old(self).pending_damages.deep_view()) ==> pending_wf(
                final(self).pending_damages.deep_view(),
            ),
            ({
                let pending_after = final(self).pending_damages.deep_view();
                forall|k: int|
                    old(self).pending_damages@.len() <= k < pending_after.len() ==> (
                    #[trigger] pending_after[k]).attacker == EntityOwner::Player(old(p).id)
            }),
    {
        let ghost st_in = MechState {
            caster: p.deep_view(),
            projs: self.projectiles.deep_view(),
            pending: self.pending_damages.deep_view(),
            next_id: self.next_id,
            exec_ms: *exec_ms,
        };
        let ghost mv = mech.deep_view();
        let ghost othv = self.players.deep_view();
        let ghost aimv = self.config.game.auto_aim_max_distance;
        let ghost tickv = self.config.game.tick_interval_ms;
        let ghost pd0 = self.pending_damages.deep_view();
        let ghost pj0 = self.projectiles.deep_view();
        let ghost caster_id = p.id;
        let ghost p_before = p.deep_view();
            match mech {
                crate::skill::SkillMechanic::SimpleShoot { projectile } => {
                    proof {
                        assert(mv == (crate::skill::SkillMechanicV::SimpleShoot {
                            projectile: projectile.deep_view(),
                        }));
                    }
                    if self.next_id < u64::MAX {
                        let id = get_next_id(&mut self.next_id);
                        let proj = Projectile::new(id, p.position, p.direction, p.id, projectile);
                        let ghost pjv = self.projectiles.deep_view();
                        self.projectiles.push(proj);
                        proof {
                            assert(self.projectiles.deep_view() =~= pjv.push(proj.deep_view()));
                            assert(self.projectiles.deep_view().take(pj0.len() as int) =~= pj0);
                            assert(proj.deep_view() =~= spec_new_projectile(st_in.next_id,
                                st_in.caster.position, st_in.caster.direction, st_in.caster.id,
                                projectile.deep_view()));
                            if projectiles_wf(pj0) {
                                assert(projectiles_wf(self.projectiles.deep_view()));
                            }
                        }
                    }
                },
                crate::skill::SkillMechanic::MultiShoot { projectile, count, cone_angle, spread } => {
                    if auto {
                        proof {
                            assert(self.players.deep_view() == old(self).players.deep_view());
                        }
                    } else {
                    let ghost sv = mv;
                    proof {
                        assert(sv == (crate::skill::SkillMechanicV::MultiShoot {
                            projectile: projectile.deep_view(),
                            count: *count,
                            cone_angle: *cone_angle,
                            spread: spread.deep_view(),
                        }));
                        assert(mechanic_wf(sv));
                        assert forall|k: int|
                            0 <= k < spread.deep_view().len() implies crate::map::rot_valid(
                            #[trigger] spread.deep_view()[k],
                        ) by {
                            assert(sv->MultiShoot_spread == spread.deep_view());
                            assert(crate::map::rot_valid(sv->MultiShoot_spread[k]));
                        }
                    }
                    let ghost fan0_projs = self.projectiles.deep_view();
                    let ghost fan0_id = self.next_id;
                    proof {
                        assert(spread.deep_view().skip(0) =~= spread.deep_view());
                    }
                    let mut si: usize = 0;
                    while si < spread.len()
                        invariant
                            players_wf(self.players.deep_view()),
                            self.players.deep_view() == othv,
                            self.loots == old(self).loots,
                            self.zone == old(self).zone,
                            self.killfeed == old(self).killfeed,
                            self.next_killfeed == old(self).next_killfeed,
                            self.config == old(self).config,
                            game_config_wf(self.config.game),
                            self.pending_damages.deep_view().take(pd0.len() as int) =~= pd0,
                            self.pending_damages.deep_view().len() >= pd0.len(),
                            forall|k: int|
                                pd0.len() <= k < self.pending_damages.deep_view().len() ==> (
                                #[trigger] self.pending_damages.deep_view()[k]).attacker
                                    == EntityOwner::Player(caster_id),
                            player_geometry_wf(p.deep_view()),
                            p.deep_view() == st_in.caster,
                            self.pending_damages.deep_view() == st_in.pending,
                            forall|k: int|
                                0 <= k < spread.deep_view().len() ==> crate::map::rot_valid(
                                    #[trigger] spread.deep_view()[k],
                                ),
                            projectile.base_speed <= WORLD_MAX as u64,
                            projectile.base_size <= WORLD_MAX as u64,
                            zone_effects_wf(projectile.deep_view().on_hit_effects),
                            0 <= si <= spread@.len(),
                            spread@.len() == spread.deep_view().len(),
                            self.projectiles.deep_view().take(pj0.len() as int) =~= pj0,
                            self.projectiles.deep_view().len() >= pj0.len(),
                            projectiles_wf(pj0) ==> projectiles_wf(self.projectiles.deep_view()),
                            spec_fan(spread.deep_view(), fan0_projs, fan0_id, st_in.caster.position,
                                st_in.caster.direction, st_in.caster.id, projectile.deep_view())
                                == spec_fan(
                                spread.deep_view().skip(si as int),
                                self.projectiles.deep_view(),
                                self.next_id,
                                st_in.caster.position,
                                st_in.caster.direction,
                                st_in.caster.id,
                                projectile.deep_view(),
                            ),
                        decreases spread@.len() - si,
                    {
                        proof {
                            assert(spread.deep_view()[si as int] == spread@[si as int]);
                            assert(spread.deep_view().skip(si as int)[0] == spread.deep_view()[
                                si as int]);
                            assert(spread.deep_view().skip(si as int).drop_first()
                                =~= spread.deep_view().skip(si + 1));
                        }
                        let rot = spread[si];
                        let up = crate::map::rotate_direction(&p.direction, &rot);
                        proof {
                            let u = crate::map::spec_rotate(st_in.caster.direction,
                                spread.deep_view()[si as int]);
                            assert(up == (Direction { x: u.0 as i64, y: u.1 as i64 }));
                        }
                        if self.next_id < u64::MAX {
                            let id = get_next_id(&mut self.next_id);
                            let proj = Projectile::new(id, p.position, up, p.id, projectile);
                            let ghost pjv = self.projectiles.deep_view();
                            let ghost idv = id;
                            self.projectiles.push(proj);
                            proof {
                                assert(self.projectiles.deep_view() =~= pjv.push(
                                    proj.deep_view()));
                                assert(self.projectiles.deep_view().take(pj0.len() as int)
                                    =~= pj0);
                                assert(proj.deep_view() =~= spec_new_projectile(idv,
                                    st_in.caster.position, up, st_in.caster.id,
                                    projectile.deep_view()));
                                if projectiles_wf(pj0) {
                                    assert(projectiles_wf(self.projectiles.deep_view()));
                                }
                            }
                        }
                        let down_rot = crate::map::Rotation {
                            cos_milli: rot.cos_milli,
                            sin_milli: -rot.sin_milli,
                        };
                        proof {
                            assert(down_rot == spec_mirror(spread.deep_view()[si as int]));
                        }
                        let down = crate::map::rotate_direction(&p.direction, &down_rot);
                        proof {
                            let d = crate::map::spec_rotate(st_in.caster.direction, spec_mirror(
                                spread.deep_view()[si as int]));
                            assert(down == (Direction { x: d.0 as i64, y: d.1 as i64 }));
                        }
                        if self.next_id < u64::MAX {
                            let id = get_next_id(&mut self.next_id);
                            let proj = Projectile::new(id, p.position, down, p.id, projectile);
                            let ghost pjv = self.projectiles.deep_view();
                            let ghost idv = id;
                            self.projectiles.push(proj);
                            proof {
                                assert(self.projectiles.deep_view() =~= pjv.push(
                                    proj.deep_view()));
                                assert(self.projectiles.deep_view().take(pj0.len() as int)
                                    =~= pj0);
                                assert(proj.deep_view() =~= spec_new_projectile(idv,
                                    st_in.caster.position, down, st_in.caster.id,
                                    projectile.deep_view()));
                                if projectiles_wf(pj0) {
                                    assert(projectiles_wf(self.projectiles.deep_view()));
                                }
                            }
                        }
                        si = si + 1;
                    }
                    proof {
                        assert(spread.deep_view().skip(spread.deep_view().len() as int)
                            =~= Seq::<crate::map::Rotation>::empty());
                    }
                    if count % 2 == 1 && self.next_id < u64::MAX {
                        let id = get_next_id(&mut self.next_id);
                        let proj = Projectile::new(id, p.position, p.direction, p.id, projectile);
                        let ghost pjv = self.projectiles.deep_view();
                        let ghost idv = id;
                        self.projectiles.push(proj);
                        proof {
                            assert(self.projectiles.deep_view() =~= pjv.push(proj.deep_view()));
                            assert(self.projectiles.deep_view().take(pj0.len() as int) =~= pj0);
                            assert(proj.deep_view() =~= spec_new_projectile(idv,
                                st_in.caster.position, st_in.caster.direction, st_in.caster.id,
                                projectile.deep_view()));
                            if projectiles_wf(pj0) {
                                assert(projectiles_wf(self.projectiles.deep_view()));
                            }
                        }
                    }
                }
                },
                crate::skill::SkillMechanic::GiveEffect { effects_to_give } => {
                    if auto {
                        proof {
                            assert(self.players.deep_view() == old(self).players.deep_view());
                        }
                    } else {
                    proof {
                        assert forall|k: int|
                            0 <= k < effects_to_give@.len() implies crate::effect::effect_v_wf(
                            (#[trigger] effects_to_give@[k]).deep_view(),
                        ) by {
                            assert(effects_to_give.deep_view()[k] == effects_to_give@[
                                k].deep_view());
                        }
                    }
                    let owner = EntityOwner::Player(p.id);
                    proof {
                        assert forall|k: int|
                            0 <= k < effects_to_give.deep_view().len() implies crate::effect::effect_v_wf(
                            #[trigger] effects_to_give.deep_view()[k],
                        ) by {
                            assert(effects_to_give.deep_view()[k] == effects_to_give@[
                                k].deep_view());
                        }
                    }
                    proof {
                        assert(mv == (crate::skill::SkillMechanicV::GiveEffect {
                            effects_to_give: effects_to_give.deep_view(),
                        }));
                    }
                    p.apply_effects(effects_to_give, owner);
                    proof {
                        crate::player::lemma_apply_list_frame(p_before,
                            effects_to_give.deep_view(), owner);
                        crate::player::lemma_apply_list_effects_wf(p_before,
                            effects_to_give.deep_view(), owner);
                        assert(p.deep_view().cooldowns == st_in.caster.cooldowns);
                    }
                }
                },
                crate::skill::SkillMechanic::Hit {
                    damage,
                    range,
                    cone_angle,
                    cone_half_cos_milli,
                    on_hit_effects,
                } => {
                    proof {
                        assert(mv == (crate::skill::SkillMechanicV::Hit {
                            damage: *damage,
                            range: *range,
                            cone_angle: *cone_angle,
                            cone_half_cos_milli: *cone_half_cos_milli,
                            on_hit_effects: on_hit_effects.deep_view(),
                        }));
                    }
                    let ghost effs = st_in.caster.effects;
                    let mut dmg: u64 = *damage;
                    proof {
                        assert(effs.skip(0) =~= effs);
                    }
                    let mut ei: usize = 0;
                    while ei < p.effects.len()
                        invariant
                            player_effects_wf(p.deep_view()),
                            p.deep_view() == st_in.caster,
                            effs == st_in.caster.effects,
                            0 <= ei <= p.effects@.len(),
                            p.effects@.len() == effs.len(),
                            spec_boost_all(*damage, effs) == spec_boost_all(dmg, effs.skip(
                                ei as int)),
                        decreases p.effects@.len() - ei,
                    {
                        proof {
                            assert(p.deep_view().effects[ei as int] == p.effects@[
                                ei as int].deep_view());
                            assert(crate::effect::effect_v_wf(p.deep_view().effects[
                                ei as int].effect));
                            assert(effs.skip(ei as int)[0] == effs[ei as int]);
                            assert(effs.skip(ei as int).drop_first() =~= effs.skip(ei + 1));
                        }
                        let changes = &p.effects[ei].effect.player_attributes;
                        let ghost cs = effs[ei as int].effect.player_attributes;
                        proof {
                            assert(cs =~= changes@);
                            assert(cs.skip(0) =~= cs);
                            assert forall|k: int|
                                0 <= k < changes@.len() implies crate::effect::change_wf(
                                #[trigger] changes@[k],
                            ) by {
                                assert(p.deep_view().effects[
                                    ei as int].effect.player_attributes[k] == changes@[
                                    k].deep_view());
                            }
                        }
                        let ghost dmg_at_entry = dmg;
                        let mut ci: usize = 0;
                        while ci < changes.len()
                            invariant
                                cs == changes@,
                                0 <= ci <= changes@.len(),
                                forall|k: int|
                                    0 <= k < changes@.len() ==> crate::effect::change_wf(
                                        #[trigger] changes@[k],
                                    ),
                                spec_boost(dmg_at_entry, cs) == spec_boost(dmg, cs.skip(
                                    ci as int)),
                            decreases changes@.len() - ci,
                        {
                            proof {
                                assert(cs.skip(ci as int)[0] == cs[ci as int]);
                                assert(cs.skip(ci as int).drop_first() =~= cs.skip(ci + 1));
                            }
                            if changes[ci].attribute == crate::effect::Attribute::Damage {
                                crate::effect::modify_attribute(&mut dmg, &changes[ci]);
                            }
                            ci = ci + 1;
                        }
                        proof {
                            assert(cs.skip(cs.len() as int) =~= Seq::<AttributeChange>::empty());
                        }
                        ei = ei + 1;
                    }
                    proof {
                        assert(effs.skip(effs.len() as int)
                            =~= Seq::<crate::player::AppliedEffectV>::empty());
                        assert(dmg == spec_boost_all(*damage, st_in.caster.effects));
                    }
                    proof {
                        assert(othv.skip(0) =~= othv);
                    }
                    let mut ti: usize = 0;
                    while ti < self.players.len()
                        invariant
                            players_wf(self.players.deep_view()),
                            self.players.deep_view() == othv,
                            self.players.deep_view() == othv,
                            self.loots == old(self).loots,
                            self.zone == old(self).zone,
                            self.killfeed == old(self).killfeed,
                            self.next_killfeed == old(self).next_killfeed,
                            self.config == old(self).config,
                            game_config_wf(self.config.game),
                            self.projectiles.deep_view().take(pj0.len() as int) =~= pj0,
                            self.projectiles.deep_view().len() >= pj0.len(),
                            self.projectiles.deep_view() == st_in.projs,
                            self.next_id == st_in.next_id,
                            player_geometry_wf(p.deep_view()),
                            p.deep_view() == st_in.caster,
                            *range <= WORLD_MAX as u64,
                            -1000 <= *cone_half_cos_milli <= 1000,
                            zone_effects_wf(on_hit_effects.deep_view()),
                            0 <= ti <= self.players@.len(),
                            self.pending_damages.deep_view().take(pd0.len() as int) =~= pd0,
                            self.pending_damages.deep_view().len() >= pd0.len(),
                            forall|k: int|
                                pd0.len() <= k < self.pending_damages.deep_view().len() ==> (
                                #[trigger] self.pending_damages.deep_view()[k]).attacker
                                    == EntityOwner::Player(caster_id),
                            p.id == caster_id,
                            pending_wf(pd0) ==> pending_wf(self.pending_damages.deep_view()),
                            spec_hit_pending(othv, st_in.caster, *range, *cone_half_cos_milli,
                                dmg, on_hit_effects.deep_view(), st_in.pending)
                                == spec_hit_pending(
                                othv.skip(ti as int),
                                st_in.caster,
                                *range,
                                *cone_half_cos_milli,
                                dmg,
                                on_hit_effects.deep_view(),
                                self.pending_damages.deep_view(),
                            ),
                        decreases self.players@.len() - ti,
                    {
                        proof {
                            assert(self.players.deep_view()[ti as int] == self.players@[
                                ti as int].deep_view());
                            assert(othv.skip(ti as int)[0] == othv[ti as int]);
                            assert(othv.skip(ti as int).drop_first() =~= othv.skip(ti + 1));
                        }
                        let in_range = {
                            let target = &self.players[ti];
                            target.is_targetable() && p.is_targetable()
                                && crate::map::in_cone_angle_range(
                                &p.position,
                                p.size,
                                &p.direction,
                                &target.position,
                                *range,
                                *cone_half_cos_milli,
                            )
                        };
                        if in_range {
                            let target_id = self.players[ti].id;
                            let ghost pdv = self.pending_damages.deep_view();
                            self.pending_damages.push(DamageTracker {
                                attacked_id: target_id,
                                attacker: EntityOwner::Player(p.id),
                                damage: #[verifier::truncate] (dmg as i64),
                                on_hit_effects: clone_effects(on_hit_effects),
                            });
                            proof {
                                assert(self.pending_damages.deep_view() =~= pdv.push(
                                    DamageTrackerV {
                                        attacked_id: target_id,
                                        attacker: EntityOwner::Player(caster_id),
                                        damage: (dmg as i64) as i64,
                                        on_hit_effects: on_hit_effects.deep_view(),
                                    },
                                ));
                                assert(self.pending_damages.deep_view().take(pd0.len() as int)
                                    =~= pd0);
                                if pending_wf(pd0) {
                                    assert(pending_wf(self.pending_damages.deep_view()));
                                }
                            }
                        }
                        ti = ti + 1;
                    }
                    proof {
                        assert(othv.skip(othv.len() as int) =~= Seq::<PlayerV>::empty());
                    }
                },
                crate::skill::SkillMechanic::MoveToTarget { duration_ms: _, max_range } => {
                    if auto {
                        proof {
                            assert(self.players.deep_view() == old(self).players.deep_view());
                        }
                    } else {
                    proof {
                        assert(mv == (crate::skill::SkillMechanicV::MoveToTarget {
                            duration_ms: mv->MoveToTarget_duration_ms,
                            max_range: *max_range,
                        }));
                        assert(self.players.deep_view() =~= othv);
                    }
                    let ghost spec_amount: int = if params.auto_aim {
                        match spec_nearest(othv, st_in.caster.position, st_in.caster.id,
                            aimv) {
                            Some(tp) => {
                                if *max_range > 0 {
                                    let d = crate::isqrt::spec_isqrt(dist_sq(tp,
                                        st_in.caster.position));
                                    if d * 1000 / (*max_range as int) > 1000 {
                                        1000int
                                    } else {
                                        d * 1000 / (*max_range as int)
                                    }
                                } else {
                                    1000int
                                }
                            },
                            None => 1000int,
                        }
                    } else {
                        if params.amount_milli > 1000 {
                            1000int
                        } else {
                            params.amount_milli as int
                        }
                    };
                    let mut amount_milli: u64 = if params.amount_milli > 1000 {
                        1000
                    } else {
                        params.amount_milli
                    };
                    if params.auto_aim {
                        amount_milli = 1000;
                        match nearest_player_position(
                            &self.players,
                            &p.position,
                            p.id,
                            self.config.game.auto_aim_max_distance,
                        ) {
                            Some(target_pos) => {
                                let d2 = crate::map::distance_squared(&target_pos, &p.position);
                                let dist = crate::isqrt::isqrt_u128(d2);
                                if *max_range > 0 {
                                    proof {
                                        let dd: int = dist as int;
                                        assert(0 <= dd * 1000 <= u128::MAX) by (nonlinear_arith)
                                            requires
                                                0 <= dd <= u64::MAX,
                                        ;
                                    }
                                    let frac: u128 = (dist as u128) * 1000 / (*max_range as u128);
                                    amount_milli = if frac > 1000 {
                                        1000
                                    } else {
                                        frac as u64
                                    };
                                }
                            },
                            None => {
                            },
                        }
                    }
                    proof {
                        assert(amount_milli as int == spec_amount);
                    }
                    proof {
                        let mr: int = *max_range as int;
                        let am: int = amount_milli as int;
                        assert(0 <= mr * am <= u128::MAX) by (nonlinear_arith)
                            requires
                                0 <= mr <= 0x4000_0000,
                                0 <= am <= 1000,
                        ;
                    }
                    proof {
                        let mr: int = *max_range as int;
                        let am: int = amount_milli as int;
                        assert(mr * am <= mr * 1000) by (nonlinear_arith)
                            requires
                                0 <= am <= 1000,
                                mr >= 0,
                        ;
                        vstd::arithmetic::div_mod::lemma_div_is_ordered(mr * am, mr * 1000, 1000);
                        assert(mr * 1000 == 1000 * mr) by (nonlinear_arith);
                        vstd::arithmetic::div_mod::lemma_div_multiples_vanish(mr, 1000);
                    }
                    let distance: u64 = ((*max_range as u128) * (amount_milli as u128) / 1000) as u64;
                    let ticks: u64 = if p.speed > 0 {
                        distance / p.speed
                    } else {
                        0
                    };
                    let interval = self.config.game.tick_interval_ms;
                    proof {
                        let t: int = ticks as int;
                        let iv: int = interval as int;
                        assert(0 <= t * iv <= u128::MAX) by (nonlinear_arith)
                            requires
                                0 <= t <= u64::MAX,
                                0 <= iv <= u64::MAX,
                        ;
                    }
                    let product: u128 = (ticks as u128) * (interval as u128);
                    *exec_ms = if product > u64::MAX as u128 {
                        u64::MAX
                    } else {
                        product as u64
                    };
                    p.set_moving_params(*exec_ms, p.direction, p.speed);
                    proof {
                        assert(p.deep_view().cooldowns == st_in.caster.cooldowns);
                        assert(p.deep_view() =~= (PlayerV {
                            moving_params: Some(MovingParams {
                                duration_ms: (*exec_ms),
                                direction: st_in.caster.direction,
                                speed: st_in.caster.speed,
                            }),
                            ..st_in.caster
                        }));
                    }
                }
                },
            }
            proof {
                let st_out = MechState {
                    caster: p.deep_view(),
                    projs: self.projectiles.deep_view(),
                    pending: self.pending_damages.deep_view(),
                    next_id: self.next_id,
                    exec_ms: *exec_ms,
                };
                assert(st_out =~= spec_mechanic_step(mv, auto, st_in, othv, params, aimv, tickv));
            }
    }

    /// Fires the named skill slot for the player: the caster turns (by
    /// explicit direction or auto-aim), the slot goes on cooldown, each
    /// mechanic of the bound skill runs, and the caster is busy for the
    /// skill's execution time. A missing, dead or busy player, a slot on
    /// cooldown, and an unbound slot are no-ops.
    #[verifier::rlimit(100)]
    pub fn activate_skill(&mut self, player_id: u64, skill_key: &String, skill_params: SkillParams)
        requires
            players_wf(old(self).players.deep_view()),
            players_skills_wf(old(self).players.deep_view()),
            game_config_wf(old(self).config.game),
            match skill_params.direction {
                Some(d) => dir_valid(d),
                None => true,
            },
        ensures
            players_wf(final(self).players.deep_view()),
            final(self).players.deep_view().len() == old(self).players.deep_view().len(),
            final(self).loots.deep_view() == old(self).loots.deep_view(),
            final(self).zone.deep_view() == old(self).zone.deep_view(),
            final(self).killfeed@ == old(self).killfeed@,
            final(self).next_killfeed@ == old(self).next_killfeed@,
            final(self).config == old(self).config,
            final(self).projectiles.deep_view().take(old(self).projectiles@.len() as int) == old(
                self,
            ).projectiles.deep_view(),
            final(self).pending_damages.deep_view().take(old(self).pending_damages@.len() as int)
                == old(self).pending_damages.deep_view(),
            ({
                let pending_after = final(self).pending_damages.deep_view();
                forall|k: int|
                    old(self).pending_damages@.len() <= k < pending_after.len() ==> (
                    #[trigger] pending_after[k]).attacker == EntityOwner::Player(player_id)
            }),
            ({
                let ps = old(self).players.deep_view();
                let idx = player_index_by_id(ps, player_id);
                let gated = idx < 0 || ps[idx].status != PlayerStatus::Alive || ps[
                    idx
                ].action_duration_ms != 0 || crate::player::cooldown_index(
                    ps[idx].cooldowns,
                    skill_key@,
                ) >= 0 || crate::character::slot_index_by_key(ps[idx].character.skills, skill_key@)
                    < 0;
                if gated {
                    let same_players = final(self).players.deep_view() == ps;
                    let same_projectiles = final(self).projectiles.deep_view() == old(
                        self,
                    ).projectiles.deep_view();
                    let same_pending = final(self).pending_damages.deep_view() == old(
                        self,
                    ).pending_damages.deep_view();
                    let same_id = final(self).next_id == old(self).next_id;
                    same_players && same_projectiles && same_pending && same_id
                } else {
                    ({
                        let others = ps.remove(idx);
                        let si = crate::character::slot_index_by_key(
                            ps[idx].character.skills,
                            skill_key@,
                        );
                        let skill = ps[idx].character.skills[si].skill;
                        let aim_max = old(self).config.game.auto_aim_max_distance;
                        let with_cd = PlayerV {
                            cooldowns: crate::player::spec_add_cooldown(
                                ps[idx].cooldowns,
                                skill_key@,
                                skill.cooldown_ms,
                            ),
                            available_burst_loads: sat_sub64(ps[idx].available_burst_loads, 1),
                            ..ps[idx]
                        };
                        let turned = PlayerV {
                            direction: spec_aimed_direction(with_cd, others, skill_params, aim_max),
                            ..with_cd
                        };
                        let st = spec_run_mechanics(
                            skill.mechanics,
                            false,
                            MechState {
                                caster: turned,
                                projs: old(self).projectiles.deep_view(),
                                pending: old(self).pending_damages.deep_view(),
                                next_id: old(self).next_id,
                                exec_ms: skill.execution_duration_ms,
                            },
                            others,
                            skill_params,
                            aim_max,
                            old(self).config.game.tick_interval_ms,
                        );
                        let capped = if st.exec_ms > u64::MAX - st.caster.action_duration_ms {
                            (u64::MAX - st.caster.action_duration_ms) as u64
                        } else {
                            st.exec_ms
                        };
                        let done = crate::player::spec_add_action(
                            st.caster,
                            crate::player::ActionV::UsingSkill(skill_key@),
                            capped,
                        );
                        &&& final(self).players.deep_view() == ps.update(idx, done)
                        &&& final(self).projectiles.deep_view() == st.projs
                        &&& final(self).pending_damages.deep_view() == st.pending
                        &&& final(self).next_id == st.next_id
                    })
                }
            }),
    {
        let ghost ps = self.players.deep_view();
        let mut i: usize = 0;
        let mut found: bool = false;
        while i < self.players.len() && !found
            invariant
                ps == self.players.deep_view(),
                0 <= i <= ps.len(),
                !found ==> forall|k: int| 0 <= k < i ==> (#[trigger] ps[k]).id != player_id,
                found ==> 0 < i <= ps.len() && ps[i - 1].id == player_id && (forall|k: int|
                    0 <= k < i - 1 ==> (#[trigger] ps[k]).id != player_id),
            decreases ps.len() - i,
        {
            proof {
                assert(ps[i as int] == self.players@[i as int].deep_view());
            }
            if self.players[i].id == player_id {
                found = true;
            }
            i = i + 1;
        }
        if !found {
            proof {
                lemma_player_index_none(ps, player_id);
            }
            return ;
        }
        proof {
            lemma_player_index_of_match(ps, player_id, i - 1);
        }
        let idx = i - 1;
        let mut p = self.players.remove(idx);
        proof {
            assert(p.deep_view() == ps[idx as int]);
        }
        if !p.is_targetable() || !p.can_do_action() || p.has_cooldown(skill_key) {
            self.players.insert(idx, p);
            proof {
                assert(self.players.deep_view() =~= ps.update(idx as int, ps[idx as int]));
                assert(ps.update(idx as int, ps[idx as int]) =~= ps);
            }
            return ;
        }
        let skill: crate::skill::SkillConfig = match p.character.skill_by_key(skill_key) {
            Some(s) => s.clone(),
            None => {
                self.players.insert(idx, p);
                proof {
                    assert(self.players.deep_view() =~= ps.update(idx as int, ps[idx as int]));
                    assert(ps.update(idx as int, ps[idx as int]) =~= ps);
                }
                return ;
            },
        };
        proof {
            let si = crate::character::slot_index_by_key(ps[idx as int].character.skills,
                skill_key@);
            assert(skill.deep_view() == ps[idx as int].character.skills[si].skill);
            assert(character_skills_wf(ps[idx as int].character));
            assert(skill_v_wf(skill.deep_view()));
            assert(self.players.deep_view() =~= ps.remove(idx as int));
            lemma_players_wf_remove(ps, idx as int);
        }
        let mut execution_duration_ms: u64 = skill.execution_duration_ms;
        p.add_cooldown(skill_key, skill.cooldown_ms);
        proof {
            let cds = p.deep_view().cooldowns;
            let ci = crate::player::cooldown_index(ps[idx as int].cooldowns, skill_key@);
            if ci < 0 {
                lemma_cooldown_index_nonneg(cds, skill_key@, cds.len() - 1);
            } else {
                crate::player::lemma_cooldown_index_in_range(ps[idx as int].cooldowns, skill_key@);
                lemma_cooldown_index_nonneg(cds, skill_key@, ci);
            }
        }
        let ghost cooldowns_set = p.deep_view().cooldowns;
        // Turn the caster: auto-aim at the nearest enemy, or use the
        // explicit direction.
        if skill_params.auto_aim {
            match nearest_player_position(
                &self.players,
                &p.position,
                p.id,
                self.config.game.auto_aim_max_distance,
            ) {
                Some(target_pos) => {
                    p.direction = crate::map::direction_from_positions(&p.position, &target_pos);
                },
                None => {
                },
            }
        } else {
            match skill_params.direction {
                Some(d) => {
                    p.direction = d;
                },
                None => {
                },
            }
        }
        let ghost pd0 = self.pending_damages.deep_view();
        let ghost pj0 = self.projectiles.deep_view();
        let ghost others = ps.remove(idx as int);
        let ghost skillv = ps[idx as int].character.skills[crate::character::slot_index_by_key(
            ps[idx as int].character.skills,
            skill_key@,
        )].skill;
        let ghost aim_max = self.config.game.auto_aim_max_distance;
        let ghost tick_ms = self.config.game.tick_interval_ms;
        proof {
            assert(skill.deep_view() == skillv);
            let with_cd = PlayerV {
                cooldowns: crate::player::spec_add_cooldown(ps[idx as int].cooldowns, skill_key@,
                    skillv.cooldown_ms),
                available_burst_loads: sat_sub64(ps[idx as int].available_burst_loads, 1),
                ..ps[idx as int]
            };
            let turned = PlayerV {
                direction: spec_aimed_direction(with_cd, others, skill_params, aim_max),
                ..with_cd
            };
            assert(p.deep_view() =~= turned);
        }
        let ghost st0 = MechState {
            caster: p.deep_view(),
            projs: pj0,
            pending: pd0,
            next_id: self.next_id,
            exec_ms: skill.execution_duration_ms,
        };
        proof {
            assert(skillv.mechanics.skip(0) =~= skillv.mechanics);
        }
        let mut mi: usize = 0;
        while mi < skill.mechanics.len()
            invariant
                0 <= mi <= skill.mechanics@.len(),
                skill_v_wf(skill.deep_view()),
                skill.deep_view() == skillv,
                others == ps.remove(idx as int),
                aim_max == self.config.game.auto_aim_max_distance,
                tick_ms == self.config.game.tick_interval_ms,
                players_wf(self.players.deep_view()),
                self.loots == old(self).loots,
                self.zone == old(self).zone,
                self.killfeed == old(self).killfeed,
                self.next_killfeed == old(self).next_killfeed,
                self.config == old(self).config,
                self.players.deep_view() =~= ps.remove(idx as int),
                player_geometry_wf(p.deep_view()),
                player_effects_wf(p.deep_view()),
                match p.moving_params {
                    Some(mp) => dir_valid(mp.direction),
                    None => true,
                },
                p.deep_view().cooldowns == cooldowns_set,
                p.id == player_id,
                self.projectiles.deep_view().take(pj0.len() as int) =~= pj0,
                self.projectiles.deep_view().len() >= pj0.len(),
                self.pending_damages.deep_view().take(pd0.len() as int) =~= pd0,
                self.pending_damages.deep_view().len() >= pd0.len(),
                forall|k: int|
                    pd0.len() <= k < self.pending_damages.deep_view().len() ==> (#[trigger] self
                        .pending_damages.deep_view()[k]).attacker == EntityOwner::Player(
                        player_id,
                    ),
                game_config_wf(self.config.game),
                spec_run_mechanics(skillv.mechanics, false, st0, others, skill_params, aim_max,
                    tick_ms) == spec_run_mechanics(
                    skillv.mechanics.skip(mi as int),
                    false,
                    MechState {
                        caster: p.deep_view(),
                        projs: self.projectiles.deep_view(),
                        pending: self.pending_damages.deep_view(),
                        next_id: self.next_id,
                        exec_ms: execution_duration_ms,
                    },
                    others,
                    skill_params,
                    aim_max,
                    tick_ms,
                ),
            decreases skill.mechanics@.len() - mi,
        {
            proof {
                assert(skill.deep_view().mechanics[mi as int] == skill.mechanics@[
                    mi as int].deep_view());
                assert(mechanic_wf(skill.deep_view().mechanics[mi as int]));
                assert(skillv.mechanics.skip(mi as int)[0] == skillv.mechanics[mi as int]);
                assert(skillv.mechanics.skip(mi as int).drop_first() =~= skillv.mechanics.skip(
                    mi + 1));
            }
            let ghost pj_before = self.projectiles.deep_view();
            let ghost pd_before = self.pending_damages.deep_view();
            self.run_mechanic(&mut p, &skill.mechanics[mi], false, skill_params,
                &mut execution_duration_ms);
            proof {
                assert(self.projectiles.deep_view().take(pj_before.len() as int) =~= pj_before);
                assert(self.projectiles.deep_view().len() >= pj_before.len());
                assert(self.projectiles.deep_view().take(pj0.len() as int) =~= pj_before.take(
                    pj0.len() as int));
                assert(self.projectiles.deep_view().take(pj0.len() as int) =~= pj0);
                assert(self.pending_damages.deep_view().take(pd_before.len() as int)
                    =~= pd_before);
                assert(self.pending_damages.deep_view().len() >= pd_before.len());
                assert(self.pending_damages.deep_view().take(pd0.len() as int) =~= pd_before.take(
                    pd0.len() as int));
                assert(self.pending_damages.deep_view().take(pd0.len() as int) =~= pd0);
                assert forall|k: int|
                    pd0.len() <= k < self.pending_damages.deep_view().len() implies (
                #[trigger] self.pending_damages.deep_view()[k]).attacker == EntityOwner::Player(
                    player_id,
                ) by {
                    if k < pd_before.len() {
                        assert(self.pending_damages.deep_view()[k]
                            == self.pending_damages.deep_view().take(pd_before.len() as int)[k]);
                        assert(self.pending_damages.deep_view()[k] == pd_before[k]);
                    }
                }
            }
            mi = mi + 1;
        }
        proof {
            assert(skillv.mechanics.skip(skillv.mechanics.len() as int)
                =~= Seq::<crate::skill::SkillMechanicV>::empty());
        }
        let ghost st_final = spec_run_mechanics(skillv.mechanics, false, st0, others, skill_params,
            aim_max, tick_ms);
        proof {
            assert(st_final =~= (MechState {
                caster: p.deep_view(),
                projs: self.projectiles.deep_view(),
                pending: self.pending_damages.deep_view(),
                next_id: self.next_id,
                exec_ms: execution_duration_ms,
            }));
        }
        let remaining: u64 = u64::MAX - p.action_duration_ms;
        let capped_duration: u64 = if execution_duration_ms > remaining {
            remaining
        } else {
            execution_duration_ms
        };
        let ghost before_action = p.deep_view();
        let action_key = skill_key.clone();
        proof {
            assert(crate::player::Action::UsingSkill(action_key).deep_view()
                == crate::player::ActionV::UsingSkill(skill_key@));
        }
        p.add_action(crate::player::Action::UsingSkill(action_key), capped_duration);
        proof {
            assert(p.deep_view().cooldowns == cooldowns_set);
            assert(p.deep_view() == crate::player::spec_add_action(st_final.caster,
                crate::player::ActionV::UsingSkill(skill_key@), capped_duration));
        }
        self.players.insert(idx, p);
        proof {
            assert(self.players.deep_view() =~= ps.remove(idx as int).insert(idx as int,
                p.deep_view()));
            assert(self.players.deep_view() =~= ps.update(idx as int, p.deep_view()));
            assert forall|k: int|
                0 <= k < ps.len() && k != idx implies #[trigger] self.players.deep_view()[k]
                    == ps[k] by {
                if k < idx {
                    assert(ps.remove(idx as int)[k] == ps[k]);
                } else {
                    assert(ps.remove(idx as int)[k - 1] == ps[k]);
                }
            }
            assert(self.players.deep_view().len() == ps.len());
            assert(self.players.deep_view()[idx as int] == p.deep_view());
            assert(self.loots == old(self).loots);
            assert(self.zone.deep_view() == old(self).zone.deep_view());
            assert(players_wf(self.players.deep_view()));
        }
    }
}

/// What `players_wf` and `players_skills_wf` ask of a single player.
pub open spec fn one_player_ok(p: PlayerV) -> bool {
    &&& player_geometry_wf(p)
    &&& player_effects_wf(p)
    &&& match p.moving_params {
        Some(mp) => dir_valid(mp.direction),
        None => true,
    }
}

/// Removing effects by name touches only the effect list and the stats.
proof fn lemma_remove_named_frame(p: PlayerV, es: Seq<EffectV>)
    ensures
        ({
            let q = spec_remove_effects_named(p, es);
            &&& q.position == p.position
            &&& q.direction == p.direction
            &&& q.id == p.id
            &&& q.moving_params == p.moving_params
            &&& q.character == p.character
            &&& q.available_burst_loads == p.available_burst_loads
        }),
    decreases es.len(),
{
    if es.len() == 0 {
    } else {
        let q1 = spec_remove_effect(p, es[0].name);
        let i = crate::player::first_effect_index(p.effects, es[0].name);
        if i >= 0 {
            lemma_first_effect_index_in_range(p.effects, es[0].name);
            let without = PlayerV { effects: p.effects.remove(i), ..p };
            if p.effects[i].effect.is_reversable {
                crate::player::lemma_revert_changes_frame(without,
                    p.effects[i].effect.player_attributes);
            }
        }
        lemma_remove_named_frame(q1, es.drop_first());
    }
}

/// Committing actions keeps every player sound.
proof fn lemma_actions_updated_ok(ps: Seq<PlayerV>, dt: u64)
    requires
        players_wf(ps),
    ensures
        players_wf(players_actions_updated(ps, dt)),
        players_skills_wf(ps) ==> players_skills_wf(players_actions_updated(ps, dt)),
{
    assert forall|i: int|
        0 <= i < players_actions_updated(ps, dt).len() implies one_player_ok(
        #[trigger] players_actions_updated(ps, dt)[i],
    ) && (players_skills_wf(ps) ==> character_skills_wf(
        players_actions_updated(ps, dt)[i].character,
    )) by {
        assert(players_actions_updated(ps, dt)[i] == crate::player::spec_update_actions(ps[i],
            dt));
        assert(one_player_ok(ps[i]));
        if players_skills_wf(ps) {
            assert(character_skills_wf(ps[i].character));
        }
    }
}

/// Shortening cooldowns keeps every player sound.
proof fn lemma_cooldowns_updated_ok(ps: Seq<PlayerV>, dt: u64)
    requires
        players_wf(ps),
    ensures
        players_wf(players_cooldowns_updated(ps, dt)),
        players_skills_wf(ps) ==> players_skills_wf(players_cooldowns_updated(ps, dt)),
{
    assert forall|i: int|
        0 <= i < players_cooldowns_updated(ps, dt).len() implies one_player_ok(
        #[trigger] players_cooldowns_updated(ps, dt)[i],
    ) && (players_skills_wf(ps) ==> character_skills_wf(
        players_cooldowns_updated(ps, dt)[i].character,
    )) by {
        assert(one_player_ok(ps[i]));
        if players_skills_wf(ps) {
            assert(character_skills_wf(ps[i].character));
        }
    }
}

/// The movement-skill step keeps every character binding sound.
proof fn lemma_skill_moved_skills_ok(ps: Seq<PlayerV>, dt: u64, radius: int)
    requires
        players_skills_wf(ps),
    ensures
        players_skills_wf(players_skill_moved(ps, dt, radius)),
{
    assert forall|i: int|
        0 <= i < players_skill_moved(ps, dt, radius).len() implies character_skills_wf(
        (#[trigger] players_skill_moved(ps, dt, radius)[i]).character,
    ) by {
        assert(character_skills_wf(ps[i].character));
        assert(players_skill_moved(ps, dt, radius)[i] == spec_skill_move(ps[i], dt, radius));
    }
}

/// The expiry sweep keeps every player sound, and afterwards every stored
/// periodic effect has a trigger left.
proof fn lemma_expired_removed_ok(ps: Seq<PlayerV>, dt: u64)
    requires
        players_wf(ps),
    ensures
        players_wf(players_expired_removed(ps)),
        players_skills_wf(ps) ==> players_skills_wf(players_expired_removed(ps)),
        players_periodic_ok(players_expired_removed(ps), dt),
{
    assert forall|i: int|
        0 <= i < players_expired_removed(ps).len() implies one_player_ok(
        #[trigger] players_expired_removed(ps)[i],
    ) && (players_skills_wf(ps) ==> character_skills_wf(
        players_expired_removed(ps)[i].character,
    )) && (forall|k: int|
        0 <= k < players_expired_removed(ps)[i].effects.len() ==> (periodic_fires(
            (#[trigger] players_expired_removed(ps)[i].effects[k]).effect,
            dt,
        ) ==> players_expired_removed(ps)[
            i
        ].effects[k].effect.effect_time_type->Periodic_trigger_count > 0)) by {
        assert(players_expired_removed(ps)[i] == spec_remove_expired(ps[i]));
        assert(one_player_ok(ps[i]));
        crate::player::lemma_revert_expired_frame(ps[i], ps[i].effects);
        crate::player::lemma_keep_unexpired_wf(ps[i].effects);
        crate::player::lemma_keep_unexpired_unexpired(ps[i].effects);
        if players_skills_wf(ps) {
            assert(character_skills_wf(ps[i].character));
        }
        assert forall|k: int|
            0 <= k < spec_remove_expired(ps[i]).effects.len() implies (periodic_fires(
            (#[trigger] spec_remove_expired(ps[i]).effects[k]).effect,
            dt,
        ) ==> spec_remove_expired(ps[i]).effects[
            k
        ].effect.effect_time_type->Periodic_trigger_count > 0) by {
            let e = spec_remove_expired(ps[i]).effects[k].effect;
            assert(!crate::player::is_expired(e));
        }
    }
}

/// Running effects keeps every player sound.
proof fn lemma_effects_run_ok(ps: Seq<PlayerV>, dt: u64)
    requires
        players_wf(ps),
    ensures
        players_wf(players_effects_run(ps, dt)),
        players_skills_wf(ps) ==> players_skills_wf(players_effects_run(ps, dt)),
{
    assert forall|i: int|
        0 <= i < players_effects_run(ps, dt).len() implies one_player_ok(
        #[trigger] players_effects_run(ps, dt)[i],
    ) && (players_skills_wf(ps) ==> character_skills_wf(
        players_effects_run(ps, dt)[i].character,
    )) by {
        assert(one_player_ok(ps[i]));
        if players_skills_wf(ps) {
            assert(character_skills_wf(ps[i].character));
        }
        if ps[i].status == PlayerStatus::Alive {
            let q = players_effects_run(ps, dt)[i];
            assert(q.effects == ticked_effects(ps[i].effects, dt));
            assert forall|k: int|
                0 <= k < q.effects.len() implies crate::effect::effect_v_wf(
                (#[trigger] q.effects[k]).effect,
            ) by {
                assert(q.effects[k].effect == crate::player::spec_tick_effect(
                    ps[i].effects[k].effect, dt));
                assert(crate::effect::effect_v_wf(ps[i].effects[k].effect));
            }
        }
    }
}

/// The zone pass keeps every player sound.
proof fn lemma_zone_applied_ok(
    ps: Seq<PlayerV>,
    m: ZoneModificationConfigV,
    center: Position,
    radius: u64,
)
    requires
        players_wf(ps),
        zone_effects_wf(m.outside_radius_effects),
    ensures
        players_wf(players_zone_applied(ps, m, center, radius)),
        players_skills_wf(ps) ==> players_skills_wf(players_zone_applied(ps, m, center, radius)),
{
    assert forall|i: int|
        0 <= i < players_zone_applied(ps, m, center, radius).len() implies one_player_ok(
        #[trigger] players_zone_applied(ps, m, center, radius)[i],
    ) && (players_skills_wf(ps) ==> character_skills_wf(
        players_zone_applied(ps, m, center, radius)[i].character,
    )) by {
        assert(players_zone_applied(ps, m, center, radius)[i] == spec_zone_player(ps[i], m,
            center, radius));
        assert(one_player_ok(ps[i]));
        if players_skills_wf(ps) {
            assert(character_skills_wf(ps[i].character));
        }
        let inside = dist_sq(center, ps[i].position) <= sq(radius as int);
        if inside {
            lemma_remove_named_frame(ps[i], m.outside_radius_effects);
            lemma_remove_named_preserves_wf(ps[i], m.outside_radius_effects);
        } else if ps[i].status == PlayerStatus::Alive {
            crate::player::lemma_apply_if_absent_frame(ps[i], m.outside_radius_effects,
                EntityOwner::Zone);
            crate::player::lemma_apply_if_absent_effects_wf(ps[i], m.outside_radius_effects,
                EntityOwner::Zone);
        }
    }
}

/// The damage drain keeps every player sound.
proof fn lemma_drain_ok(ps: Seq<PlayerV>, pending: Seq<DamageTrackerV>, kf: Seq<KillEvent>)
    requires
        players_wf(ps),
        pending_wf(pending),
    ensures
        players_wf(spec_drain(ps, pending, kf).0),
        players_skills_wf(ps) ==> players_skills_wf(spec_drain(ps, pending, kf).0),
        spec_drain(ps, pending, kf).0.len() == ps.len(),
    decreases pending.len(),
{
    if pending.len() == 0 {
    } else {
        let d = pending.last();
        let idx = player_index_by_id(ps, d.attacked_id);
        let (ps1, kf1) = if idx >= 0 && idx < ps.len() && ps[idx].status != PlayerStatus::Death {
            let v = spec_decrease_health(ps[idx], damage_amount(d.damage));
            let v2 = spec_apply_effect_list(v, d.on_hit_effects, d.attacker);
            let kf2 = if v2.status == PlayerStatus::Death {
                kf.push(KillEvent { kill_by: d.attacker, killed: v2.id })
            } else {
                kf
            };
            (ps.update(idx, v2), kf2)
        } else {
            (ps, kf)
        };
        if idx >= 0 && idx < ps.len() && ps[idx].status != PlayerStatus::Death {
            let v = spec_decrease_health(ps[idx], damage_amount(d.damage));
            let v2 = spec_apply_effect_list(v, d.on_hit_effects, d.attacker);
            assert(one_player_ok(ps[idx]));
            crate::player::lemma_apply_list_frame(v, d.on_hit_effects, d.attacker);
            crate::player::lemma_apply_list_effects_wf(v, d.on_hit_effects, d.attacker);
            assert forall|k: int| 0 <= k < ps1.len() implies one_player_ok(#[trigger] ps1[k]) && (
            players_skills_wf(ps) ==> character_skills_wf(ps1[k].character)) by {
                if k == idx {
                    assert(ps1[k] == v2);
                } else {
                    assert(ps1[k] == ps[k]);
                }
                if players_skills_wf(ps) {
                    assert(character_skills_wf(ps[k].character));
                }
            }
        }
        assert(players_wf(ps1));
        assert(players_skills_wf(ps) ==> players_skills_wf(ps1));
        lemma_drain_ok(ps1, pending.drop_last(), kf1);
    }
}

/// Crediting kills keeps every player sound.
proof fn lemma_kill_counts_ok(ps: Seq<PlayerV>, kf: Seq<KillEvent>)
    requires
        players_wf(ps),
    ensures
        players_wf(spec_update_kill_counts(ps, kf)),
        players_skills_wf(ps) ==> players_skills_wf(spec_update_kill_counts(ps, kf)),
        spec_update_kill_counts(ps, kf).len() == ps.len(),
    decreases kf.len(),
{
    if kf.len() == 0 {
    } else {
        let ps1 = match kf[0].kill_by {
            EntityOwner::Player(id) => {
                let idx = player_index_by_id(ps, id);
                if idx >= 0 && idx < ps.len() {
                    ps.update(
                        idx,
                        PlayerV {
                            kill_count: crate::player::sat_add64(ps[idx].kill_count, 1),
                            ..ps[idx]
                        },
                    )
                } else {
                    ps
                }
            },
            _ => ps,
        };
        assert forall|k: int| 0 <= k < ps1.len() implies one_player_ok(#[trigger] ps1[k]) && (
        players_skills_wf(ps) ==> character_skills_wf(ps1[k].character)) by {
            assert(one_player_ok(ps[k]));
            if players_skills_wf(ps) {
                assert(character_skills_wf(ps[k].character));
            }
        }
        lemma_kill_counts_ok(ps1, kf.drop_first());
    }
}

/// The damages queued by periodic effects carry no on-hit effects.
proof fn lemma_fire_damages_wf(cs: Seq<AttributeChange>, owner: EntityOwner, id: u64)
    ensures
        pending_wf(crate::player::fire_damages(cs, owner, id)),
    decreases cs.len(),
{
    if cs.len() == 0 {
    } else {
        lemma_fire_damages_wf(cs.drop_first(), owner, id);
        let rest = crate::player::fire_damages(cs.drop_first(), owner, id);
        if cs[0].attribute == crate::effect::Attribute::Health {
            let head = DamageTrackerV {
                damage: cs[0].value,
                attacker: owner,
                attacked_id: id,
                on_hit_effects: Seq::empty(),
            };
            assert((seq![head] + rest)[0] == head);
            assert(forall|k: int|
                0 <= k < rest.len() ==> #[trigger] (seq![head] + rest)[k + 1] == rest[k]);
        }
    }
}

proof fn lemma_fired_damages_wf(es: Seq<crate::player::AppliedEffectV>, dt: u64, id: u64)
    ensures
        pending_wf(fired_damages(es, dt, id)),
    decreases es.len(),
{
    if es.len() == 0 {
    } else {
        lemma_fired_damages_wf(es.drop_first(), dt, id);
        let head = if periodic_fires(es[0].effect, dt) {
            crate::player::fire_damages(es[0].effect.player_attributes, es[0].owner, id)
        } else {
            Seq::<DamageTrackerV>::empty()
        };
        if periodic_fires(es[0].effect, dt) {
            lemma_fire_damages_wf(es[0].effect.player_attributes, es[0].owner, id);
        }
        let rest = fired_damages(es.drop_first(), dt, id);
        assert forall|k: int| 0 <= k < (head + rest).len() implies zone_effects_wf(
            (#[trigger] (head + rest)[k]).on_hit_effects,
        ) by {
            if k < head.len() {
                assert((head + rest)[k] == head[k]);
            } else {
                assert((head + rest)[k] == rest[k - head.len()]);
            }
        }
    }
}

proof fn lemma_players_fired_damages_wf(ps: Seq<PlayerV>, dt: u64)
    ensures
        pending_wf(players_fired_damages(ps, dt)),
    decreases ps.len(),
{
    if ps.len() == 0 {
    } else {
        lemma_players_fired_damages_wf(ps.drop_first(), dt);
        let head = if ps[0].status == PlayerStatus::Alive {
            fired_damages(ps[0].effects, dt, ps[0].id)
        } else {
            Seq::<DamageTrackerV>::empty()
        };
        if ps[0].status == PlayerStatus::Alive {
            lemma_fired_damages_wf(ps[0].effects, dt, ps[0].id);
        }
        let rest = players_fired_damages(ps.drop_first(), dt);
        assert forall|k: int| 0 <= k < (head + rest).len() implies zone_effects_wf(
            (#[trigger] (head + rest)[k]).on_hit_effects,
        ) by {
            if k < head.len() {
                assert((head + rest)[k] == head[k]);
            } else {
                assert((head + rest)[k] == rest[k - head.len()]);
            }
        }
    }
}

proof fn lemma_contact_damages_wf(projs: Seq<crate::projectile::ProjectileV>, ps: Seq<PlayerV>)
    requires
        projectiles_wf(projs),
    ensures
        pending_wf(contact_damages(projs, ps)),
    decreases projs.len(),
{
    if projs.len() == 0 {
    } else {
        assert(forall|k: int|
            0 <= k < projs.drop_first().len() ==> #[trigger] projs.drop_first()[k] == projs[k
                + 1]);
        lemma_contact_damages_wf(projs.drop_first(), ps);
        let head = spec_projectile_contact(projs[0], ps).1;
        let rest = contact_damages(projs.drop_first(), ps);
        assert forall|k: int| 0 <= k < (head + rest).len() implies zone_effects_wf(
            (#[trigger] (head + rest)[k]).on_hit_effects,
        ) by {
            if k < head.len() {
                assert((head + rest)[k] == head[k]);
            } else {
                assert((head + rest)[k] == rest[k - head.len()]);
            }
        }
    }
}

/// Concatenating sound damage queues yields a sound queue.
proof fn lemma_pending_wf_concat(a: Seq<DamageTrackerV>, b: Seq<DamageTrackerV>)
    requires
        pending_wf(a),
        pending_wf(b),
    ensures
        pending_wf(a + b),
{
    assert forall|k: int| 0 <= k < (a + b).len() implies zone_effects_wf(
        (#[trigger] (a + b)[k]).on_hit_effects,
    ) by {
        if k < a.len() {
            assert((a + b)[k] == a[k]);
        } else {
            assert((a + b)[k] == b[k - a.len()]);
        }
    }
}

/// The parameters of an auto-triggered activation: no aiming, no range
/// fraction.
pub open spec fn auto_params() -> SkillParams {
    SkillParams { direction: None, auto_aim: false, amount_milli: 0 }
}

/// One player's queued skill keys fired in order: each key bound to a
/// character skill queues the `UsingSkill` action with the skill's capped
/// execution time and runs the auto pass of its mechanics; unbound keys
/// do nothing.
pub open spec fn spec_auto_keys(
    keys: Seq<Seq<char>>,
    st: MechState,
    others: Seq<PlayerV>,
    aim_max: u64,
    tick_ms: u64,
) -> MechState
    decreases keys.len(),
{
    if keys.len() == 0 {
        st
    } else {
        let si = crate::character::slot_index_by_key(st.caster.character.skills, keys[0]);
        let st1 = if si < 0 {
            st
        } else {
            let skill = st.caster.character.skills[si].skill;
            let capped = if skill.execution_duration_ms > u64::MAX
                - st.caster.action_duration_ms {
                (u64::MAX - st.caster.action_duration_ms) as u64
            } else {
                skill.execution_duration_ms
            };
            let st_a = MechState {
                caster: crate::player::spec_add_action(
                    st.caster,
                    crate::player::ActionV::UsingSkill(keys[0]),
                    capped,
                ),
                ..st
            };
            spec_run_mechanics(skill.mechanics, true, st_a, others, auto_params(), aim_max, tick_ms)
        };
        spec_auto_keys(keys.drop_first(), st1, others, aim_max, tick_ms)
    }
}

/// The whole auto-trigger pass from player `i` on: each player in turn
/// fires its queued keys against the rest of the list as it then stands.
pub open spec fn spec_auto_players(
    ps: Seq<PlayerV>,
    projs: Seq<crate::projectile::ProjectileV>,
    pending: Seq<DamageTrackerV>,
    next_id: u64,
    i: int,
    aim_max: u64,
    tick_ms: u64,
) -> (Seq<PlayerV>, Seq<crate::projectile::ProjectileV>, Seq<DamageTrackerV>, u64)
    decreases ps.len() - i,
{
    if i < 0 || i >= ps.len() {
        (ps, projs, pending, next_id)
    } else {
        let others = ps.remove(i);
        let st0 = MechState { caster: ps[i], projs, pending, next_id, exec_ms: 0 };
        let st = spec_auto_keys(ps[i].skills_keys_to_execute, st0, others, aim_max, tick_ms);
        spec_auto_players(
            ps.update(i, st.caster),
            st.projs,
            st.pending,
            st.next_id,
            i + 1,
            aim_max,
            tick_ms,
        )
    }
}

impl GameState {
    /// Fires the skills queued by periodic effects: for each player in
    /// turn, each queued key that is bound queues its `UsingSkill` action
    /// and fires its shots and melee hits (the only mechanics an effect
    /// may trigger) against the other players.
    #[verifier::rlimit(100)]
    fn activate_skills(&mut self)
        requires
            players_wf(old(self).players.deep_view()),
            players_skills_wf(old(self).players.deep_view()),
            game_config_wf(old(self).config.game),
        ensures
            players_wf(final(self).players.deep_view()),
            players_skills_wf(final(self).players.deep_view()),
            final(self).players.deep_view().len() == old(self).players.deep_view().len(),
            final(self).loots == old(self).loots,
            final(self).zone == old(self).zone,
            final(self).killfeed == old(self).killfeed,
            final(self).next_killfeed == old(self).next_killfeed,
            final(self).config == old(self).config,
            final(self).projectiles.deep_view().take(old(self).projectiles@.len() as int) == old(
                self,
            ).projectiles.deep_view(),
            final(self).pending_damages.deep_view().take(old(self).pending_damages@.len() as int)
                == old(self).pending_damages.deep_view(),
            projectiles_wf(old(self).projectiles.deep_view()) ==> projectiles_wf(
                final(self).projectiles.deep_view(),
            ),
            pending_wf(old(self).pending_damages.deep_view()) ==> pending_wf(
                final(self).pending_damages.deep_view(),
            ),
            ({
                let r = spec_auto_players(
                    old(self).players.deep_view(),
                    old(self).projectiles.deep_view(),
                    old(self).pending_damages.deep_view(),
                    old(self).next_id,
                    0,
                    old(self).config.game.auto_aim_max_distance,
                    old(self).config.game.tick_interval_ms,
                );
                &&& final(self).players.deep_view() == r.0
                &&& final(self).projectiles.deep_view() == r.1
                &&& final(self).pending_damages.deep_view() == r.2
                &&& final(self).next_id == r.3
            }),
    {
        let ghost ps0 = self.players.deep_view();
        let ghost pj0 = self.projectiles.deep_view();
        let ghost pd0 = self.pending_damages.deep_view();
        let ghost id0 = self.next_id;
        let ghost aimg = self.config.game.auto_aim_max_distance;
        let ghost tickg = self.config.game.tick_interval_ms;
        let total = self.players.len();
        let mut idx: usize = 0;
        while idx < total
            invariant
                0 <= idx <= total,
                players_wf(self.players.deep_view()),
                players_skills_wf(self.players.deep_view()),
                self.players.deep_view().len() == ps0.len(),
                ps0.len() == total,
                self.loots == old(self).loots,
                self.zone == old(self).zone,
                self.killfeed == old(self).killfeed,
                self.next_killfeed == old(self).next_killfeed,
                self.config == old(self).config,
                game_config_wf(self.config.game),
                aimg == self.config.game.auto_aim_max_distance,
                tickg == self.config.game.tick_interval_ms,
                self.projectiles.deep_view().take(pj0.len() as int) =~= pj0,
                self.projectiles.deep_view().len() >= pj0.len(),
                self.pending_damages.deep_view().take(pd0.len() as int) =~= pd0,
                self.pending_damages.deep_view().len() >= pd0.len(),
                projectiles_wf(pj0) ==> projectiles_wf(self.projectiles.deep_view()),
                pending_wf(pd0) ==> pending_wf(self.pending_damages.deep_view()),
                spec_auto_players(ps0, pj0, pd0, id0, 0, aimg, tickg) == spec_auto_players(
                    self.players.deep_view(),
                    self.projectiles.deep_view(),
                    self.pending_damages.deep_view(),
                    self.next_id,
                    idx as int,
                    aimg,
                    tickg,
                ),
            decreases total - idx,
        {
            let ghost ps = self.players.deep_view();
            let ghost pj_outer = self.projectiles.deep_view();
            let ghost pd_outer = self.pending_damages.deep_view();
            let mut p = self.players.remove(idx);
            proof {
                assert(p.deep_view() == ps[idx as int]);
                assert(self.players.deep_view() =~= ps.remove(idx as int));
                lemma_players_wf_remove(ps, idx as int);
                lemma_players_skills_wf_remove(ps, idx as int);
            }
            let ghost others = ps.remove(idx as int);
            let keys = crate::effect::clone_strings(&p.skills_keys_to_execute);
            let ghost keysv = ps[idx as int].skills_keys_to_execute;
            proof {
                assert(keys.deep_view() =~= keysv);
                assert(keysv.skip(0) =~= keysv);
            }
            let ghost st_p0 = MechState {
                caster: ps[idx as int],
                projs: pj_outer,
                pending: pd_outer,
                next_id: self.next_id,
                exec_ms: 0,
            };
            let mut unused_exec: u64 = 0;
            let mut ki: usize = 0;
            while ki < keys.len()
                invariant
                    0 <= ki <= keys@.len(),
                    keys.deep_view() == keysv,
                    keysv.len() == keys@.len(),
                    players_wf(self.players.deep_view()),
                    self.players.deep_view() == others,
                    others == ps.remove(idx as int),
                    player_geometry_wf(p.deep_view()),
                    player_effects_wf(p.deep_view()),
                    character_skills_wf(p.deep_view().character),
                    match p.moving_params {
                        Some(mp) => dir_valid(mp.direction),
                        None => true,
                    },
                    self.loots == old(self).loots,
                    self.zone == old(self).zone,
                    self.killfeed == old(self).killfeed,
                    self.next_killfeed == old(self).next_killfeed,
                    self.config == old(self).config,
                    game_config_wf(self.config.game),
                    aimg == self.config.game.auto_aim_max_distance,
                    tickg == self.config.game.tick_interval_ms,
                    self.projectiles.deep_view().take(pj0.len() as int) =~= pj0,
                    self.projectiles.deep_view().len() >= pj0.len(),
                    self.pending_damages.deep_view().take(pd0.len() as int) =~= pd0,
                    self.pending_damages.deep_view().len() >= pd0.len(),
                    projectiles_wf(pj0) ==> projectiles_wf(self.projectiles.deep_view()),
                    pending_wf(pd0) ==> pending_wf(self.pending_damages.deep_view()),
                    unused_exec == st_p0.exec_ms,
                    spec_auto_keys(keysv, st_p0, others, aimg, tickg) == spec_auto_keys(
                        keysv.skip(ki as int),
                        MechState {
                            caster: p.deep_view(),
                            projs: self.projectiles.deep_view(),
                            pending: self.pending_damages.deep_view(),
                            next_id: self.next_id,
                            exec_ms: unused_exec,
                        },
                        others,
                        aimg,
                        tickg,
                    ),
                decreases keys@.len() - ki,
            {
                proof {
                    assert(keysv.skip(ki as int)[0] == keysv[ki as int]);
                    assert(keysv.skip(ki as int).drop_first() =~= keysv.skip(ki + 1));
                    assert(keys@[ki as int]@ == keysv[ki as int]);
                }
                let ghost st_key_in = MechState {
                    caster: p.deep_view(),
                    projs: self.projectiles.deep_view(),
                    pending: self.pending_damages.deep_view(),
                    next_id: self.next_id,
                    exec_ms: unused_exec,
                };
                let skill: crate::skill::SkillConfig = match p.character.skill_by_key(&keys[ki]) {
                    Some(s) => s.clone(),
                    None => {
                        ki = ki + 1;
                        continue ;
                    },
                };
                let ghost skillv = st_key_in.caster.character.skills[
                    crate::character::slot_index_by_key(st_key_in.caster.character.skills,
                    keysv[ki as int])].skill;
                proof {
                    assert(skill.deep_view() == skillv);
                    assert(skill_v_wf(skillv));
                }
                let remaining: u64 = u64::MAX - p.action_duration_ms;
                let capped: u64 = if skill.execution_duration_ms > remaining {
                    remaining
                } else {
                    skill.execution_duration_ms
                };
                let action_key = keys[ki].clone();
                proof {
                    assert(crate::player::Action::UsingSkill(action_key).deep_view()
                        == crate::player::ActionV::UsingSkill(keysv[ki as int]));
                }
                p.add_action(crate::player::Action::UsingSkill(action_key), capped);
                let ghost st_a = MechState {
                    caster: p.deep_view(),
                    projs: self.projectiles.deep_view(),
                    pending: self.pending_damages.deep_view(),
                    next_id: self.next_id,
                    exec_ms: unused_exec,
                };
                proof {
                    assert(st_a =~= (MechState {
                        caster: crate::player::spec_add_action(st_key_in.caster,
                            crate::player::ActionV::UsingSkill(keysv[ki as int]), capped),
                        ..st_key_in
                    }));
                    assert(skillv.mechanics.skip(0) =~= skillv.mechanics);
                }
                let mut mi: usize = 0;
                while mi < skill.mechanics.len()
                    invariant
                        0 <= mi <= skill.mechanics@.len(),
                        skill_v_wf(skill.deep_view()),
                        skill.deep_view() == skillv,
                        players_wf(self.players.deep_view()),
                        self.players.deep_view() == others,
                        others == ps.remove(idx as int),
                        player_geometry_wf(p.deep_view()),
                        player_effects_wf(p.deep_view()),
                        character_skills_wf(p.deep_view().character),
                        match p.moving_params {
                            Some(mp) => dir_valid(mp.direction),
                            None => true,
                        },
                        self.loots == old(self).loots,
                        self.zone == old(self).zone,
                        self.killfeed == old(self).killfeed,
                        self.next_killfeed == old(self).next_killfeed,
                        self.config == old(self).config,
                        game_config_wf(self.config.game),
                        aimg == self.config.game.auto_aim_max_distance,
                        tickg == self.config.game.tick_interval_ms,
                        self.projectiles.deep_view().take(pj0.len() as int) =~= pj0,
                        self.projectiles.deep_view().len() >= pj0.len(),
                        self.pending_damages.deep_view().take(pd0.len() as int) =~= pd0,
                        self.pending_damages.deep_view().len() >= pd0.len(),
                        projectiles_wf(pj0) ==> projectiles_wf(self.projectiles.deep_view()),
                        pending_wf(pd0) ==> pending_wf(self.pending_damages.deep_view()),
                        unused_exec == st_a.exec_ms,
                        spec_run_mechanics(skillv.mechanics, true, st_a, others, auto_params(),
                            aimg, tickg) == spec_run_mechanics(
                            skillv.mechanics.skip(mi as int),
                            true,
                            MechState {
                                caster: p.deep_view(),
                                projs: self.projectiles.deep_view(),
                                pending: self.pending_damages.deep_view(),
                                next_id: self.next_id,
                                exec_ms: unused_exec,
                            },
                            others,
                            auto_params(),
                            aimg,
                            tickg,
                        ),
                    decreases skill.mechanics@.len() - mi,
                {
                    proof {
                        assert(skill.deep_view().mechanics[mi as int] == skill.mechanics@[
                            mi as int].deep_view());
                        assert(mechanic_wf(skill.deep_view().mechanics[mi as int]));
                        assert(skillv.mechanics.skip(mi as int)[0] == skillv.mechanics[mi as int]);
                        assert(skillv.mechanics.skip(mi as int).drop_first()
                            =~= skillv.mechanics.skip(mi + 1));
                    }
                    let ghost pj_before = self.projectiles.deep_view();
                    let ghost pd_before = self.pending_damages.deep_view();
                    let params = SkillParams { direction: None, auto_aim: false, amount_milli: 0 };
                    proof {
                        assert(params == auto_params());
                    }
                    self.run_mechanic(&mut p, &skill.mechanics[mi], true, params,
                        &mut unused_exec);
                    proof {
                        assert(self.projectiles.deep_view().take(pj_before.len() as int)
                            =~= pj_before);
                        assert(self.projectiles.deep_view().take(pj0.len() as int)
                            =~= pj_before.take(pj0.len() as int));
                        assert(self.projectiles.deep_view().take(pj0.len() as int) =~= pj0);
                        assert(self.pending_damages.deep_view().take(pd_before.len() as int)
                            =~= pd_before);
                        assert(self.pending_damages.deep_view().take(pd0.len() as int)
                            =~= pd_before.take(pd0.len() as int));
                        assert(self.pending_damages.deep_view().take(pd0.len() as int) =~= pd0);
                        if projectiles_wf(pj0) {
                            assert(projectiles_wf(pj_before));
                            assert(projectiles_wf(self.projectiles.deep_view()));
                        }
                        if pending_wf(pd0) {
                            assert(pending_wf(pd_before));
                            assert(pending_wf(self.pending_damages.deep_view()));
                        }
                    }
                    mi = mi + 1;
                }
                proof {
                    assert(skillv.mechanics.skip(skillv.mechanics.len() as int)
                        =~= Seq::<crate::skill::SkillMechanicV>::empty());
                }
                ki = ki + 1;
            }
            proof {
                assert(keysv.skip(keysv.len() as int) =~= Seq::<Seq<char>>::empty());
            }
            self.players.insert(idx, p);
            proof {
                assert(self.players.deep_view() =~= ps.remove(idx as int).insert(idx as int,
                    p.deep_view()));
                assert(self.players.deep_view() =~= ps.update(idx as int, p.deep_view()));
                assert forall|k: int|
                    0 <= k < self.players.deep_view().len() implies {
                    &&& player_geometry_wf(#[trigger] self.players.deep_view()[k])
                    &&& player_effects_wf(self.players.deep_view()[k])
                    &&& match self.players.deep_view()[k].moving_params {
                        Some(mp) => dir_valid(mp.direction),
                        None => true,
                    }
                    &&& character_skills_wf(self.players.deep_view()[k].character)
                } by {
                    if k != idx {
                        assert(self.players.deep_view()[k] == ps[k]);
                    } else {
                        assert(self.players.deep_view()[k] == p.deep_view());
                    }
                }
            }
            idx = idx + 1;
        }
    }

    /// One tick of the world: movement-skill progress, action commit,
    /// auto-triggered skills, cooldowns, projectile flight and contact,
    /// effect expiry and periodic runs, zone advance and zone effects, the
    /// damage drain, the killfeed publication and the kill credit — in
    /// that fixed order.
    pub fn tick(&mut self, time_diff: u64)
        requires
            players_wf(old(self).players.deep_view()),
            players_skills_wf(old(self).players.deep_view()),
            projectiles_wf(old(self).projectiles.deep_view()),
            pending_wf(old(self).pending_damages.deep_view()),
            zone_wf(old(self).zone.deep_view()),
            game_config_wf(old(self).config.game),
        ensures
            players_wf(final(self).players.deep_view()),
            players_skills_wf(final(self).players.deep_view()),
            projectiles_wf(final(self).projectiles.deep_view()),
            zone_wf(final(self).zone.deep_view()),
            pending_wf(final(self).pending_damages.deep_view()),
            final(self).players.deep_view().len() == old(self).players.deep_view().len(),
            final(self).pending_damages@.len() == 0,
            final(self).next_killfeed@.len() == 0,
            final(self).config == old(self).config,
            final(self).loots == old(self).loots,
            ({
                // The whole pipeline, in its fixed order: movement-skill
                // progress, action commit, auto skills, cooldowns,
                // projectile flight and contact, effect expiry and runs,
                // zone advance and zone effects, the damage drain, the
                // killfeed publication and the kill credit.
                let dt = time_diff;
                let g = old(self).config.game;
                let radius = (g.outer_radius / 2) as int;
                let s1 = players_skill_moved(old(self).players.deep_view(), dt, radius);
                let s2 = players_actions_updated(s1, dt);
                let auto = spec_auto_players(
                    s2,
                    old(self).projectiles.deep_view(),
                    old(self).pending_damages.deep_view(),
                    old(self).next_id,
                    0,
                    g.auto_aim_max_distance,
                    g.tick_interval_ms,
                );
                let s4 = players_cooldowns_updated(auto.0, dt);
                let flown = advanced_projectiles(
                    live_projectiles(auto.1, g.outer_radius as int, g.inner_radius as int),
                    dt,
                    radius,
                );
                let pd_contact = auto.2 + contact_damages(flown, s4);
                let s5 = players_expired_removed(s4);
                let s6 = players_effects_run(s5, dt);
                let pd_all = pd_contact + players_fired_damages(s5, dt);
                let z1 = spec_modify_zone(old(self).zone.deep_view(), dt);
                let zoned_players = match z1.current_modification {
                    Some(m) => players_zone_applied(s6, m, z1.center, z1.radius),
                    None => s6,
                };
                let staged = match z1.current_modification {
                    Some(m) => old(self).next_killfeed.deep_view() + zone_kills(
                        s6,
                        m,
                        z1.center,
                        z1.radius,
                    ),
                    None => old(self).next_killfeed.deep_view(),
                };
                let drained = spec_drain(zoned_players, pd_all, staged);
                &&& final(self).zone.deep_view() == z1
                &&& final(self).projectiles.deep_view() == contacted_projectiles(flown, s4)
                &&& final(self).killfeed.deep_view() == drained.1
                &&& final(self).players.deep_view() == spec_update_kill_counts(
                    drained.0,
                    drained.1,
                )
                &&& final(self).next_id == auto.3
            }),
    {
        let radius: u64 = self.config.game.outer_radius / 2;
        let ghost s0 = self.players.deep_view();
        skill_move_players(&mut self.players, time_diff, radius);
        proof {
            lemma_skill_moved_skills_ok(s0, time_diff, radius as int);
        }
        let ghost s1 = self.players.deep_view();
        update_player_actions(&mut self.players, time_diff);
        proof {
            lemma_actions_updated_ok(s1, time_diff);
        }
        self.activate_skills();
        let ghost s2 = self.players.deep_view();
        update_player_cooldowns(&mut self.players, time_diff);
        proof {
            lemma_cooldowns_updated_ok(s2, time_diff);
        }
        move_projectiles(&mut self.projectiles, time_diff, &self.config);
        let ghost pj1 = self.projectiles.deep_view();
        let ghost pd1 = self.pending_damages.deep_view();
        apply_projectiles_collisions(
            &mut self.projectiles,
            &self.players,
            &mut self.pending_damages,
        );
        proof {
            lemma_contact_damages_wf(pj1, self.players.deep_view());
            lemma_pending_wf_concat(pd1, contact_damages(pj1, self.players.deep_view()));
        }
        let ghost s3 = self.players.deep_view();
        remove_expired_effects(&mut self.players);
        proof {
            lemma_expired_removed_ok(s3, time_diff);
        }
        let ghost s4 = self.players.deep_view();
        let ghost pd2 = self.pending_damages.deep_view();
        run_effects(&mut self.players, time_diff, &mut self.pending_damages);
        proof {
            lemma_effects_run_ok(s4, time_diff);
            lemma_players_fired_damages_wf(s4, time_diff);
            lemma_pending_wf_concat(pd2, players_fired_damages(s4, time_diff));
        }
        modify_zone(&mut self.zone, time_diff);
        let ghost s5 = self.players.deep_view();
        apply_zone_effects(&mut self.players, &self.zone, &mut self.next_killfeed);
        proof {
            if self.zone.deep_view().current_modification is Some {
                let m = self.zone.deep_view().current_modification->0;
                lemma_zone_applied_ok(s5, m, self.zone.center, self.zone.radius);
            }
        }
        let ghost s6 = self.players.deep_view();
        let ghost pd3 = self.pending_damages.deep_view();
        let ghost kf3 = self.next_killfeed.deep_view();
        apply_damages_and_effects(
            &mut self.pending_damages,
            &mut self.players,
            &mut self.next_killfeed,
        );
        proof {
            lemma_drain_ok(s6, pd3, kf3);
        }
        let published = clone_kill_events(&self.next_killfeed);
        self.killfeed = published;
        self.next_killfeed = Vec::new();
        let ghost s7 = self.players.deep_view();
        update_kill_counts(&mut self.players, &self.killfeed);
        proof {
            lemma_kill_counts_ok(s7, self.killfeed.deep_view());
        }
    }
}

/// A copy of the kill events.
fn clone_kill_events(v: &Vec<KillEvent>) -> (r: Vec<KillEvent>)
    ensures
        r@ == v@,
{
    let r = v.clone();
    proof {
        assert(r@ =~= v@);
    }
    r
}

/// Swaps in the next scheduled modification, if any.
fn promote_next_modification(zone: &mut Zone)
    ensures
        final(zone).deep_view() == spec_promote_next(old(zone).deep_view()),
{
    let ghost z0 = zone.deep_view();
    if zone.modifications.len() == 0 {
        zone.current_modification = None;
        proof {
            assert(zone.deep_view() =~= spec_promote_next(z0));
        }
    } else {
        let next = zone.modifications.remove(0);
        zone.current_modification = Some(next);
        proof {
            assert(zone.modifications.deep_view() =~= z0.modifications.drop_first());
            assert(zone.deep_view() =~= spec_promote_next(z0));
        }
    }
}

} // verus!
