//! Players: their state, their effects, cooldowns, inventory, and the
//! per-tick operations the engine runs on them.

use vstd::prelude::*;
use vstd::string::StringExecFns;

use crate::character::{CharacterConfig, CharacterConfigV};
use crate::effect::{
    change_revertible, change_wf, clone_strings, Attribute, AttributeChange, Effect, EffectV,
    modify_attribute, revert_attribute, spec_modify, spec_revert, TimeType,
};
use crate::game::{DamageTracker, DamageTrackerV, EntityOwner};
use crate::loot::{Loot, LootV};
use crate::map::{
    dir_valid, in_world, next_position, Direction, Position, WORLD_MAX,
};

verus! {

#[derive(Clone, Copy, Debug, PartialEq, Eq, Structural)]
pub enum PlayerStatus {
    Alive,
    Death,
}

/// What a player is doing during a tick.
#[derive(Debug)]
pub enum Action {
    Nothing,
    Moving,
    UsingSkill(String),
}

/// The mathematical shadow of an [`Action`].
#[verifier::ext_equal]
pub ghost enum ActionV {
    Nothing,
    Moving,
    UsingSkill(Seq<char>),
}

impl DeepView for Action {
    type V = ActionV;

    open spec fn deep_view(&self) -> ActionV {
        match self {
            Action::Nothing => ActionV::Nothing,
            Action::Moving => ActionV::Moving,
            Action::UsingSkill(name) => ActionV::UsingSkill(name@),
        }
    }
}

impl Clone for Action {
    fn clone(&self) -> (r: Self)
        ensures
            r.deep_view() == self.deep_view(),
    {
        match self {
            Action::Nothing => Action::Nothing,
            Action::Moving => Action::Moving,
            Action::UsingSkill(name) => Action::UsingSkill(name.clone()),
        }
    }
}

/// One cooldown entry: the skill key and the remaining time.
#[derive(Debug)]
pub struct Cooldown {
    pub key: String,
    pub remaining_ms: u64,
}

/// The mathematical shadow of a [`Cooldown`].
#[verifier::ext_equal]
pub ghost struct CooldownV {
    pub key: Seq<char>,
    pub remaining_ms: u64,
}

impl DeepView for Cooldown {
    type V = CooldownV;

    open spec fn deep_view(&self) -> CooldownV {
        CooldownV { key: self.key.deep_view(), remaining_ms: self.remaining_ms }
    }
}

/// One effect attached to a player, together with who caused it.
#[derive(Debug)]
pub struct AppliedEffect {
    pub effect: Effect,
    pub owner: EntityOwner,
}

/// The mathematical shadow of an [`AppliedEffect`].
#[verifier::ext_equal]
pub ghost struct AppliedEffectV {
    pub effect: EffectV,
    pub owner: EntityOwner,
}

impl DeepView for AppliedEffect {
    type V = AppliedEffectV;

    open spec fn deep_view(&self) -> AppliedEffectV {
        AppliedEffectV { effect: self.effect.deep_view(), owner: self.owner }
    }
}

/// The progress of a movement skill: the player keeps moving along
/// `direction` at `speed` until `duration_ms` runs out.
#[derive(Debug, Clone, Copy, PartialEq, Eq, Structural)]
pub struct MovingParams {
    pub duration_ms: u64,
    pub direction: Direction,
    pub speed: u64,
}

impl DeepView for MovingParams {
    type V = MovingParams;

    open spec fn deep_view(&self) -> MovingParams {
        *self
    }
}

#[derive(Debug)]
pub struct Player {
    pub id: u64,
    pub character: CharacterConfig,
    pub status: PlayerStatus,
    pub kill_count: u64,
    pub death_count: u64,
    pub position: Position,
    pub direction: Direction,
    pub actions: Vec<Action>,
    pub health: u64,
    pub cooldowns: Vec<Cooldown>,
    pub effects: Vec<AppliedEffect>,
    pub size: u64,
    pub speed: u64,
    pub action_duration_ms: u64,
    pub skills_keys_to_execute: Vec<String>,
    pub inventory: Vec<Option<Loot>>,
    pub next_actions: Vec<Action>,
    pub moving_params: Option<MovingParams>,
    pub available_burst_loads: u64,
}

/// The mathematical shadow of a [`Player`].
#[verifier::ext_equal]
pub ghost struct PlayerV {
    pub id: u64,
    pub character: CharacterConfigV,
    pub status: PlayerStatus,
    pub kill_count: u64,
    pub death_count: u64,
    pub position: Position,
    pub direction: Direction,
    pub actions: Seq<ActionV>,
    pub health: u64,
    pub cooldowns: Seq<CooldownV>,
    pub effects: Seq<AppliedEffectV>,
    pub size: u64,
    pub speed: u64,
    pub action_duration_ms: u64,
    pub skills_keys_to_execute: Seq<Seq<char>>,
    pub inventory: Seq<Option<LootV>>,
    pub next_actions: Seq<ActionV>,
    pub moving_params: Option<MovingParams>,
    pub available_burst_loads: u64,
}

impl DeepView for Player {
    type V = PlayerV;

    open spec fn deep_view(&self) -> PlayerV {
        PlayerV {
            id: self.id,
            character: self.character.deep_view(),
            status: self.status,
            kill_count: self.kill_count,
            death_count: self.death_count,
            position: self.position,
            direction: self.direction,
            actions: self.actions.deep_view(),
            health: self.health,
            cooldowns: self.cooldowns.deep_view(),
            effects: self.effects.deep_view(),
            size: self.size,
            speed: self.speed,
            action_duration_ms: self.action_duration_ms,
            skills_keys_to_execute: self.skills_keys_to_execute.deep_view(),
            inventory: self.inventory.deep_view(),
            next_actions: self.next_actions.deep_view(),
            moving_params: self.moving_params.deep_view(),
            available_burst_loads: self.available_burst_loads,
        }
    }
}

/// A player the movement arithmetic can handle: it stands on the map and
/// faces a unit direction. (Stats have no bound: effects may inflate them,
/// and the geometry clamps step lengths itself.)
pub open spec fn player_geometry_wf(p: PlayerV) -> bool {
    &&& in_world(p.position)
    &&& dir_valid(p.direction)
}

/// A dead player is one whose health ran out.
pub open spec fn spec_with_status(p: PlayerV) -> PlayerV {
    if p.health == 0 {
        PlayerV { status: PlayerStatus::Death, ..p }
    } else {
        p
    }
}

/// One attribute change folded into the player's stats. A change of
/// `Damage` touches no stored stat.
pub open spec fn spec_apply_change(p: PlayerV, c: AttributeChange) -> PlayerV {
    match c.attribute {
        Attribute::Speed => PlayerV {
            speed: spec_modify(p.speed as int, c.modifier, c.value as int) as u64,
            ..p
        },
        Attribute::Size => PlayerV {
            size: spec_modify(p.size as int, c.modifier, c.value as int) as u64,
            ..p
        },
        Attribute::Health => spec_with_status(
            PlayerV {
                health: spec_modify(p.health as int, c.modifier, c.value as int) as u64,
                ..p
            },
        ),
        Attribute::Damage => p,
    }
}

pub open spec fn spec_apply_changes(p: PlayerV, cs: Seq<AttributeChange>) -> PlayerV
    decreases cs.len(),
{
    if cs.len() == 0 {
        p
    } else {
        spec_apply_changes(spec_apply_change(p, cs[0]), cs.drop_first())
    }
}

/// One attribute change reverted from the player's stats.
pub open spec fn spec_revert_change(p: PlayerV, c: AttributeChange) -> PlayerV {
    match c.attribute {
        Attribute::Speed => PlayerV {
            speed: spec_revert(p.speed as int, c.modifier, c.value as int) as u64,
            ..p
        },
        Attribute::Size => PlayerV {
            size: spec_revert(p.size as int, c.modifier, c.value as int) as u64,
            ..p
        },
        Attribute::Health => spec_with_status(
            PlayerV {
                health: spec_revert(p.health as int, c.modifier, c.value as int) as u64,
                ..p
            },
        ),
        Attribute::Damage => p,
    }
}

pub open spec fn spec_revert_changes(p: PlayerV, cs: Seq<AttributeChange>) -> PlayerV
    decreases cs.len(),
{
    if cs.len() == 0 {
        p
    } else {
        spec_revert_changes(spec_revert_change(p, cs[0]), cs.drop_first())
    }
}

/// Whether the effect's stat changes are folded in at the moment it is
/// applied: every effect except a periodic one without instant application.
pub open spec fn applies_on_add(e: EffectV) -> bool {
    match e.effect_time_type {
        TimeType::Periodic { instant_application, .. } => instant_application,
        _ => true,
    }
}

/// The player after one effect is applied: a non-instant effect is stored,
/// and unless it is a periodic effect without instant application its
/// player attribute changes are folded into the stats at once.
pub open spec fn spec_apply_effect(p: PlayerV, e: EffectV, owner: EntityOwner) -> PlayerV {
    let stored = if e.effect_time_type != TimeType::Instant {
        PlayerV { effects: p.effects.push(AppliedEffectV { effect: e, owner }), ..p }
    } else {
        p
    };
    if applies_on_add(e) {
        spec_apply_changes(stored, e.player_attributes)
    } else {
        stored
    }
}

/// The index of the first stored effect named `name`, or `-1`.
pub open spec fn first_effect_index(effects: Seq<AppliedEffectV>, name: Seq<char>) -> int
    decreases effects.len(),
{
    if effects.len() == 0 {
        -1
    } else if effects[0].effect.name == name {
        0
    } else {
        let r = first_effect_index(effects.drop_first(), name);
        if r < 0 {
            -1
        } else {
            1 + r
        }
    }
}

/// The player after the first effect of the given name is removed; a
/// reversible effect restores the stats it changed.
pub open spec fn spec_remove_effect(p: PlayerV, name: Seq<char>) -> PlayerV {
    let i = first_effect_index(p.effects, name);
    if i < 0 {
        p
    } else {
        let e = p.effects[i].effect;
        let without = PlayerV { effects: p.effects.remove(i), ..p };
        if e.is_reversable {
            spec_revert_changes(without, e.player_attributes)
        } else {
            without
        }
    }
}

/// The player after taking `amount` damage: health saturates at zero and
/// the death condition is re-checked.
pub open spec fn spec_decrease_health(p: PlayerV, amount: u64) -> PlayerV {
    let h = if p.health >= amount {
        (p.health - amount) as u64
    } else {
        0u64
    };
    spec_with_status(PlayerV { health: h, ..p })
}

/// Folding one more change at the end of a list is one more application.
pub proof fn lemma_apply_changes_push(p: PlayerV, s: Seq<AttributeChange>, c: AttributeChange)
    ensures
        spec_apply_changes(p, s.push(c)) == spec_apply_change(spec_apply_changes(p, s), c),
    decreases s.len(),
{
    reveal_with_fuel(spec_apply_changes, 3);
    if s.len() == 0 {
        assert(s.push(c)[0] == c);
        assert(s.push(c).drop_first() =~= s);
    } else {
        assert(s.push(c)[0] == s[0]);
        assert(s.push(c).drop_first() =~= s.drop_first().push(c));
        lemma_apply_changes_push(spec_apply_change(p, s[0]), s.drop_first(), c);
    }
}

/// Reverting one more change at the end of a list is one more reversal.
pub proof fn lemma_revert_changes_push(p: PlayerV, s: Seq<AttributeChange>, c: AttributeChange)
    ensures
        spec_revert_changes(p, s.push(c)) == spec_revert_change(spec_revert_changes(p, s), c),
    decreases s.len(),
{
    reveal_with_fuel(spec_revert_changes, 3);
    if s.len() == 0 {
        assert(s.push(c)[0] == c);
        assert(s.push(c).drop_first() =~= s);
    } else {
        assert(s.push(c)[0] == s[0]);
        assert(s.push(c).drop_first() =~= s.drop_first().push(c));
        lemma_revert_changes_push(spec_revert_change(p, s[0]), s.drop_first(), c);
    }
}

/// Folding stat changes leaves everything but the stats and the status
/// untouched.
pub proof fn lemma_apply_changes_frame(p: PlayerV, s: Seq<AttributeChange>)
    ensures
        ({
            let q = spec_apply_changes(p, s);
            q == (PlayerV { speed: q.speed, size: q.size, health: q.health, status: q.status, ..p })
        }),
    decreases s.len(),
{
    if s.len() == 0 {
    } else {
        lemma_apply_changes_frame(spec_apply_change(p, s[0]), s.drop_first());
    }
}

pub proof fn lemma_revert_changes_frame(p: PlayerV, s: Seq<AttributeChange>)
    ensures
        ({
            let q = spec_revert_changes(p, s);
            q == (PlayerV { speed: q.speed, size: q.size, health: q.health, status: q.status, ..p })
        }),
    decreases s.len(),
{
    if s.len() == 0 {
    } else {
        lemma_revert_changes_frame(spec_revert_change(p, s[0]), s.drop_first());
    }
}

/// Reverting changes reads only the four stats; two players that agree on
/// them end with equal stats.
pub proof fn lemma_revert_changes_agree(p1: PlayerV, p2: PlayerV, cs: Seq<AttributeChange>)
    requires
        p1.speed == p2.speed,
        p1.size == p2.size,
        p1.health == p2.health,
        p1.status == p2.status,
    ensures
        ({
            let q1 = spec_revert_changes(p1, cs);
            let q2 = spec_revert_changes(p2, cs);
            q1.speed == q2.speed && q1.size == q2.size && q1.health == q2.health && q1.status
                == q2.status
        }),
    decreases cs.len(),
{
    if cs.len() == 0 {
    } else {
        lemma_revert_changes_agree(spec_revert_change(p1, cs[0]), spec_revert_change(p2, cs[0]),
            cs.drop_first());
    }
}

pub proof fn lemma_first_effect_index_of_match(effects: Seq<AppliedEffectV>, name: Seq<char>, j: int)
    requires
        0 <= j < effects.len(),
        effects[j].effect.name == name,
        forall|k: int| 0 <= k < j ==> (#[trigger] effects[k]).effect.name != name,
    ensures
        first_effect_index(effects, name) == j,
    decreases effects.len(),
{
    if j == 0 {
    } else {
        assert(effects.drop_first()[j - 1] == effects[j]);
        assert(forall|k: int|
            0 <= k < j - 1 ==> #[trigger] effects.drop_first()[k] == effects[k + 1]);
        lemma_first_effect_index_of_match(effects.drop_first(), name, j - 1);
    }
}

pub proof fn lemma_first_effect_index_none(effects: Seq<AppliedEffectV>, name: Seq<char>)
    requires
        forall|k: int| 0 <= k < effects.len() ==> (#[trigger] effects[k]).effect.name != name,
    ensures
        first_effect_index(effects, name) == -1,
    decreases effects.len(),
{
    if effects.len() == 0 {
    } else {
        assert(forall|k: int|
            0 <= k < effects.drop_first().len() ==> #[trigger] effects.drop_first()[k] == effects[
                k + 1]);
        lemma_first_effect_index_none(effects.drop_first(), name);
    }
}

/// Every stored effect can be applied and, where it says so, reverted.
pub open spec fn player_effects_wf(p: PlayerV) -> bool {
    forall|i: int|
        0 <= i < p.effects.len() ==> crate::effect::effect_v_wf((#[trigger] p.effects[i]).effect)
}

impl Player {
    /// A fresh player from a character, standing at `initial_position`.
    /// The inventory is one slot per configured size, so the size must be
    /// addressable.
    pub fn new(id: u64, character_config: CharacterConfig, initial_position: Position) -> (r:
        Player)
        requires
            character_config.max_inventory_size <= usize::MAX as u64,
        ensures
            r.id == id,
            r.character.deep_view() == character_config.deep_view(),
            r.status == PlayerStatus::Alive,
            r.kill_count == 0,
            r.death_count == 0,
            r.position == initial_position,
            r.direction == (Direction { x: 1000, y: 0 }),
            r.actions@.len() == 0,
            r.health == character_config.base_health,
            r.cooldowns@.len() == 0,
            r.effects@.len() == 0,
            r.size == character_config.base_size,
            r.speed == character_config.base_speed,
            r.action_duration_ms == 0,
            r.skills_keys_to_execute@.len() == 0,
            r.inventory@.len() == character_config.max_inventory_size,
            forall|i: int| 0 <= i < r.inventory@.len() ==> r.inventory@[i] is None,
            r.next_actions@.len() == 0,
            r.moving_params is None,
            r.available_burst_loads == character_config.burst_loads,
    {
        let bursts: u64 = character_config.burst_loads;
        let slots: usize = character_config.max_inventory_size as usize;
        let mut inventory: Vec<Option<Loot>> = Vec::new();
        let mut i: usize = 0;
        while i < slots
            invariant
                0 <= i <= slots,
                inventory@.len() == i,
                forall|k: int| 0 <= k < i ==> inventory@[k] is None,
            decreases slots - i,
        {
            inventory.push(None);
            i = i + 1;
        }
        Player {
            id,
            status: PlayerStatus::Alive,
            kill_count: 0,
            death_count: 0,
            position: initial_position,
            direction: Direction { x: 1000, y: 0 },
            actions: Vec::new(),
            cooldowns: Vec::new(),
            effects: Vec::new(),
            health: character_config.base_health,
            speed: character_config.base_speed,
            size: character_config.base_size,
            inventory,
            character: character_config,
            action_duration_ms: 0,
            next_actions: Vec::new(),
            skills_keys_to_execute: Vec::new(),
            moving_params: None,
            available_burst_loads: bursts,
        }
    }

    /// Credits one kill; the count saturates.
    pub fn add_kill(&mut self)
        ensures
            final(self).deep_view() == (PlayerV {
                kill_count: sat_add64(old(self).kill_count, 1),
                ..old(self).deep_view()
            }),
    {
        if self.kill_count < u64::MAX {
            self.kill_count = self.kill_count + 1;
        }
        proof {
            assert(self.deep_view() =~= (PlayerV {
                kill_count: sat_add64(old(self).kill_count, 1),
                ..old(self).deep_view()
            }));
        }
    }

    /// Whether the player may start a new action: nothing is in progress.
    pub fn can_do_action(&self) -> (r: bool)
        ensures
            r == (self.action_duration_ms == 0),
    {
        self.action_duration_ms == 0
    }

    /// Whether the player can be hit or collected against: only the living.
    pub fn is_targetable(&self) -> (r: bool)
        ensures
            r == (self.status == PlayerStatus::Alive),
    {
        self.status == PlayerStatus::Alive
    }

    /// Takes `amount` off the player's health; a player whose health runs
    /// out dies.
    pub fn decrease_health(&mut self, amount: u64)
        ensures
            final(self).deep_view() == spec_decrease_health(old(self).deep_view(), amount),
    {
        self.health = if self.health >= amount {
            self.health - amount
        } else {
            0
        };
        if self.health == 0 {
            self.status = PlayerStatus::Death;
        }
        proof {
            assert(self.deep_view() =~= spec_decrease_health(old(self).deep_view(), amount));
        }
    }

    /// Folds a list of attribute changes into the player's stats, in order.
    fn apply_changes_list(&mut self, changes: &Vec<AttributeChange>)
        requires
            forall|i: int| 0 <= i < changes@.len() ==> change_wf(#[trigger] changes@[i]),
        ensures
            final(self).deep_view() == spec_apply_changes(old(self).deep_view(), changes@),
    {
        let ghost p0 = self.deep_view();
        let mut i: usize = 0;
        while i < changes.len()
            invariant
                0 <= i <= changes@.len(),
                self.deep_view() == spec_apply_changes(p0, changes@.take(i as int)),
            decreases changes@.len() - i,
        {
            let ghost before = self.deep_view();
            let change = &changes[i];
            match change.attribute {
                Attribute::Speed => {
                    modify_attribute(&mut self.speed, change);
                },
                Attribute::Size => {
                    modify_attribute(&mut self.size, change);
                },
                Attribute::Health => {
                    modify_attribute(&mut self.health, change);
                    if self.health == 0 {
                        self.status = PlayerStatus::Death;
                    }
                },
                Attribute::Damage => {
                },
            }
            proof {
                assert(self.deep_view() =~= spec_apply_change(before, changes@[i as int]));
                assert(changes@.take(i + 1) =~= changes@.take(i as int).push(changes@[i as int]));
                lemma_apply_changes_push(p0, changes@.take(i as int), changes@[i as int]);
            }
            i = i + 1;
        }
        proof {
            assert(changes@.take(changes@.len() as int) =~= changes@);
        }
    }

    /// Reverts a list of attribute changes from the player's stats, in
    /// order.
    fn revert_changes_list(&mut self, changes: &Vec<AttributeChange>)
        requires
            forall|i: int| 0 <= i < changes@.len() ==> change_revertible(#[trigger] changes@[i]),
        ensures
            final(self).deep_view() == spec_revert_changes(old(self).deep_view(), changes@),
    {
        let ghost p0 = self.deep_view();
        let mut i: usize = 0;
        while i < changes.len()
            invariant
                0 <= i <= changes@.len(),
                self.deep_view() == spec_revert_changes(p0, changes@.take(i as int)),
            decreases changes@.len() - i,
        {
            let ghost before = self.deep_view();
            let change = &changes[i];
            match change.attribute {
                Attribute::Speed => {
                    revert_attribute(&mut self.speed, change);
                },
                Attribute::Size => {
                    revert_attribute(&mut self.size, change);
                },
                Attribute::Health => {
                    revert_attribute(&mut self.health, change);
                    if self.health == 0 {
                        self.status = PlayerStatus::Death;
                    }
                },
                Attribute::Damage => {
                },
            }
            proof {
                assert(self.deep_view() =~= spec_revert_change(before, changes@[i as int]));
                assert(changes@.take(i + 1) =~= changes@.take(i as int).push(changes@[i as int]));
                lemma_revert_changes_push(p0, changes@.take(i as int), changes@[i as int]);
            }
            i = i + 1;
        }
        proof {
            assert(changes@.take(changes@.len() as int) =~= changes@);
        }
    }

    /// Applies one effect: a non-instant effect is stored on the player,
    /// and unless it is a periodic effect without instant application, its
    /// player attribute changes are folded into the stats at once.
    pub fn apply_effect(&mut self, effect: &Effect, owner: EntityOwner)
        requires
            crate::effect::effect_v_wf(effect.deep_view()),
        ensures
            final(self).deep_view() == spec_apply_effect(
                old(self).deep_view(),
                effect.deep_view(),
                owner,
            ),
    {
        let is_instant = matches!(effect.effect_time_type, TimeType::Instant);
        if !is_instant {
            let stored = AppliedEffect { effect: effect.clone(), owner };
            self.effects.push(stored);
            proof {
                assert(self.deep_view().effects =~= old(self).deep_view().effects.push(
                    AppliedEffectV { effect: effect.deep_view(), owner }));
            }
        }
        let ghost stored_p = self.deep_view();
        proof {
            assert(effect.deep_view().player_attributes =~= effect.player_attributes@);
            assert forall|i: int|
                0 <= i < effect.player_attributes@.len() implies change_wf(
                #[trigger] effect.player_attributes@[i],
            ) by {
                assert(effect.deep_view().player_attributes[i] == effect.player_attributes@[i]);
            }
        }
        let apply_now = match effect.effect_time_type {
            TimeType::Periodic { instant_application, .. } => instant_application,
            _ => true,
        };
        if apply_now {
            self.apply_changes_list(&effect.player_attributes);
        }
        proof {
            if !is_instant {
                assert(stored_p =~= (PlayerV {
                    effects: old(self).deep_view().effects.push(
                        AppliedEffectV { effect: effect.deep_view(), owner },
                    ),
                    ..old(self).deep_view()
                }));
            }
        }
    }

    /// Applies a list of effects, all caused by the same owner.
    pub fn apply_effects(&mut self, effects: &Vec<Effect>, owner: EntityOwner)
        requires
            forall|i: int|
                0 <= i < effects@.len() ==> crate::effect::effect_v_wf(
                    (#[trigger] effects@[i]).deep_view(),
                ),
        ensures
            final(self).deep_view() == spec_apply_effect_list(
                old(self).deep_view(),
                effects.deep_view(),
                owner,
            ),
    {
        let ghost p0 = self.deep_view();
        let mut i: usize = 0;
        while i < effects.len()
            invariant
                0 <= i <= effects@.len(),
                self.deep_view() == spec_apply_effect_list(
                    p0,
                    effects.deep_view().take(i as int),
                    owner,
                ),
            decreases effects@.len() - i,
        {
            self.apply_effect(&effects[i], owner);
            proof {
                assert(effects.deep_view().take(i + 1) =~= effects.deep_view().take(
                    i as int).push(effects.deep_view()[i as int]));
                lemma_apply_effect_list_push(p0, effects.deep_view().take(i as int),
                    effects.deep_view()[i as int], owner);
            }
            i = i + 1;
        }
        proof {
            assert(effects.deep_view().take(effects@.len() as int) =~= effects.deep_view());
        }
    }

    /// Applies each effect of the list whose name is not already present
    /// on the player; the zone uses this so it does not refresh its own
    /// effects every tick.
    pub fn apply_effects_if_not_present(&mut self, outside_radius_effects: &Vec<Effect>, owner: EntityOwner)
        requires
            forall|i: int|
                0 <= i < outside_radius_effects@.len() ==> crate::effect::effect_v_wf(
                    (#[trigger] outside_radius_effects@[i]).deep_view(),
                ),
        ensures
            final(self).deep_view() == spec_apply_effects_if_absent(
                old(self).deep_view(),
                outside_radius_effects.deep_view(),
                owner,
            ),
    {
        let ghost p0 = self.deep_view();
        let mut i: usize = 0;
        while i < outside_radius_effects.len()
            invariant
                0 <= i <= outside_radius_effects@.len(),
                self.deep_view() == spec_apply_effects_if_absent(
                    p0,
                    outside_radius_effects.deep_view().take(i as int),
                    owner,
                ),
            decreases outside_radius_effects@.len() - i,
        {
            let ghost before = self.deep_view();
            let effect = &outside_radius_effects[i];
            if !self.has_effect_named(&effect.name) {
                self.apply_effect(effect, owner);
            }
            proof {
                assert(outside_radius_effects.deep_view().take(i + 1)
                    =~= outside_radius_effects.deep_view().take(i as int).push(
                    outside_radius_effects.deep_view()[i as int]));
                lemma_apply_if_absent_push(p0, outside_radius_effects.deep_view().take(i as int),
                    outside_radius_effects.deep_view()[i as int], owner);
            }
            i = i + 1;
        }
        proof {
            assert(outside_radius_effects.deep_view().take(outside_radius_effects@.len() as int)
                =~= outside_radius_effects.deep_view());
        }
    }

    /// Whether an effect of the given name is stored on the player.
    pub fn has_effect_named(&self, name: &String) -> (r: bool)
        ensures
            r == (first_effect_index(self.deep_view().effects, name@) >= 0),
    {
        let mut i: usize = 0;
        while i < self.effects.len()
            invariant
                0 <= i <= self.effects@.len(),
                forall|k: int|
                    0 <= k < i ==> (#[trigger] self.deep_view().effects[k]).effect.name != name@,
            decreases self.effects@.len() - i,
        {
            proof {
                assert(self.deep_view().effects[i as int] == self.effects@[i as int].deep_view());
            }
            if self.effects[i].effect.name.eq(name) {
                proof {
                    lemma_first_effect_index_of_match(self.deep_view().effects, name@, i as int);
                }
                return true;
            }
            i = i + 1;
        }
        proof {
            lemma_first_effect_index_none(self.deep_view().effects, name@);
        }
        false
    }

    /// Removes the first stored effect of the given name; a reversible
    /// effect restores the stats it changed.
    pub fn remove_effect(&mut self, effect_key: &String)
        requires
            player_effects_wf(old(self).deep_view()),
        ensures
            final(self).deep_view() == spec_remove_effect(old(self).deep_view(), effect_key@),
    {
        let ghost p0 = self.deep_view();
        let mut i: usize = 0;
        while i < self.effects.len()
            invariant
                0 <= i <= self.effects@.len(),
                self.deep_view() == p0,
                forall|k: int|
                    0 <= k < i ==> (#[trigger] p0.effects[k]).effect.name != effect_key@,
            decreases self.effects@.len() - i,
        {
            proof {
                assert(p0.effects[i as int] == self.effects@[i as int].deep_view());
            }
            if self.effects[i].effect.name.eq(effect_key) {
                proof {
                    lemma_first_effect_index_of_match(p0.effects, effect_key@, i as int);
                }
                let removed = self.effects.remove(i);
                proof {
                    assert(self.deep_view().effects =~= p0.effects.remove(i as int));
                    assert(self.deep_view() =~= (PlayerV {
                        effects: p0.effects.remove(i as int),
                        ..p0
                    }));
                    assert(removed.deep_view() == p0.effects[i as int]);
                }
                if removed.effect.is_reversable {
                    proof {
                        assert(crate::effect::effect_v_wf(p0.effects[i as int].effect));
                        assert(removed.effect.deep_view().player_attributes
                            =~= removed.effect.player_attributes@);
                        assert forall|k: int|
                            0 <= k < removed.effect.player_attributes@.len() implies change_revertible(
                            #[trigger] removed.effect.player_attributes@[k],
                        ) by {
                            assert(removed.effect.deep_view().player_attributes[k]
                                == removed.effect.player_attributes@[k]);
                        }
                    }
                    self.revert_changes_list(&removed.effect.player_attributes);
                    proof {
                        assert(self.deep_view() == spec_revert_changes((PlayerV {
                            effects: p0.effects.remove(i as int),
                            ..p0
                        }), removed.effect.deep_view().player_attributes));
                    }
                }
                return ;
            }
            i = i + 1;
        }
        proof {
            lemma_first_effect_index_none(p0.effects, effect_key@);
        }
    }

    /// The expiry sweep: expired reversible effects restore the stats they
    /// changed, and every expired effect leaves the list.
    pub fn remove_expired_effects(&mut self)
        requires
            player_effects_wf(old(self).deep_view()),
        ensures
            final(self).deep_view() == spec_remove_expired(old(self).deep_view()),
    {
        let ghost p0 = self.deep_view();
        let mut rest: Vec<AppliedEffect> = Vec::new();
        core::mem::swap(&mut rest, &mut self.effects);
        let ghost all = p0.effects;
        let mut kept: Vec<AppliedEffect> = Vec::new();
        while rest.len() > 0
            invariant
                rest.deep_view().len() <= all.len(),
                revert_expired(PlayerV { effects: all, ..self.deep_view() }, rest.deep_view())
                    == revert_expired(p0, all),
                self.effects@.len() == 0,
                keep_unexpired(all) =~= kept.deep_view() + keep_unexpired(rest.deep_view()),
                forall|i: int|
                    0 <= i < rest.deep_view().len() ==> crate::effect::effect_v_wf(
                        (#[trigger] rest.deep_view()[i]).effect,
                    ),
            decreases rest@.len(),
        {
            let ghost rest0 = rest.deep_view();
            let entry = rest.remove(0);
            proof {
                assert(rest.deep_view() =~= rest0.drop_first());
                assert(entry.deep_view() == rest0[0]);
            }
            let expired = match entry.effect.effect_time_type {
                TimeType::Duration { duration_ms } => duration_ms == 0,
                TimeType::Periodic { trigger_count, .. } => trigger_count == 0,
                _ => false,
            };
            let ghost self0 = self.deep_view();
            if expired {
                if entry.effect.is_reversable {
                    proof {
                        assert(crate::effect::effect_v_wf(rest0[0].effect));
                        assert(entry.effect.deep_view().player_attributes
                            =~= entry.effect.player_attributes@);
                        assert forall|k: int|
                            0 <= k < entry.effect.player_attributes@.len() implies change_revertible(
                            #[trigger] entry.effect.player_attributes@[k],
                        ) by {
                            assert(entry.effect.deep_view().player_attributes[k]
                                == entry.effect.player_attributes@[k]);
                        }
                    }
                    self.revert_changes_list(&entry.effect.player_attributes);
                    proof {
                        let cs = rest0[0].effect.player_attributes;
                        lemma_revert_changes_frame(self0, cs);
                        lemma_revert_changes_frame(PlayerV { effects: all, ..self0 }, cs);
                        lemma_revert_changes_agree(self0, PlayerV { effects: all, ..self0 }, cs);
                        assert(self.deep_view() =~= spec_revert_changes(self0, cs));
                        assert(PlayerV { effects: all, ..self.deep_view() } =~= spec_revert_changes(
                            PlayerV { effects: all, ..self0 }, cs));
                        assert(self.deep_view().effects.len() == 0);
                        assert(self.effects@.len() == self.deep_view().effects.len());
                    }
                }
            } else {
                kept.push(entry);
            }
            proof {
                assert(keep_unexpired(all) =~= kept.deep_view() + keep_unexpired(
                    rest.deep_view()));
            }
        }
        core::mem::swap(&mut kept, &mut self.effects);
        proof {
            assert(keep_unexpired(all) =~= self.effects.deep_view());
            assert(self.deep_view() =~= spec_remove_expired(p0));
        }
    }

    /// Advances every stored effect by `dt` milliseconds, returning the
    /// damages queued by the periodic effects that fired; the skill keys
    /// they queued replace the player's pending skill list.
    pub fn run_effects(&mut self, time_diff: u64) -> (damages: Vec<DamageTracker>)
        requires
            forall|i: int|
                0 <= i < old(self).deep_view().effects.len() ==> (periodic_fires(
                    (#[trigger] old(self).deep_view().effects[i]).effect,
                    time_diff,
                ) ==> old(self).deep_view().effects[i].effect.effect_time_type->Periodic_trigger_count
                    > 0),
        ensures
            final(self).deep_view() == (PlayerV {
                effects: ticked_effects(old(self).deep_view().effects, time_diff),
                skills_keys_to_execute: fired_skills(old(self).deep_view().effects, time_diff),
                ..old(self).deep_view()
            }),
            damages.deep_view() == fired_damages(
                old(self).deep_view().effects,
                time_diff,
                old(self).id,
            ),
    {
        let ghost p0 = self.deep_view();
        let ghost all = p0.effects;
        let mut rest: Vec<AppliedEffect> = Vec::new();
        core::mem::swap(&mut rest, &mut self.effects);
        let mut damages: Vec<DamageTracker> = Vec::new();
        let mut skills: Vec<String> = Vec::new();
        let mut ticked: Vec<AppliedEffect> = Vec::new();
        let player_id = self.id;
        while rest.len() > 0
            invariant
                player_id == p0.id,
                ticked@.len() + rest@.len() == all.len(),
                rest.deep_view() =~= all.subrange(ticked@.len() as int, all.len() as int),
                ticked.deep_view() =~= ticked_effects(all, time_diff).take(ticked@.len() as int),
                fired_damages(all, time_diff, p0.id) =~= damages.deep_view() + fired_damages(
                    rest.deep_view(),
                    time_diff,
                    p0.id,
                ),
                fired_skills(all, time_diff) =~= skills.deep_view() + fired_skills(
                    rest.deep_view(),
                    time_diff,
                ),
                forall|i: int|
                    0 <= i < rest.deep_view().len() ==> (periodic_fires(
                        (#[trigger] rest.deep_view()[i]).effect,
                        time_diff,
                    ) ==> rest.deep_view()[i].effect.effect_time_type->Periodic_trigger_count > 0),
            decreases rest@.len(),
        {
            let ghost rest0 = rest.deep_view();
            let ghost done = ticked@.len() as int;
            let entry = rest.remove(0);
            proof {
                assert(rest.deep_view() =~= rest0.drop_first());
                assert(entry.deep_view() == rest0[0]);
            }
            let AppliedEffect { effect, owner } = entry;
            let Effect {
                name,
                is_reversable,
                effect_time_type,
                player_attributes,
                projectile_attributes,
                skills_keys_to_execute,
            } = effect;
            let new_time_type: TimeType;
            let fires: bool;
            match effect_time_type {
                TimeType::Duration { duration_ms } => {
                    let d = if duration_ms >= time_diff {
                        duration_ms - time_diff
                    } else {
                        0
                    };
                    new_time_type = TimeType::Duration { duration_ms: d };
                    fires = false;
                },
                TimeType::Periodic {
                    instant_application,
                    interval_ms,
                    trigger_count,
                    time_since_last_trigger,
                } => {
                    let t = if time_since_last_trigger <= u64::MAX - time_diff {
                        time_since_last_trigger + time_diff
                    } else {
                        u64::MAX
                    };
                    if t >= interval_ms {
                        new_time_type = TimeType::Periodic {
                            instant_application,
                            interval_ms,
                            trigger_count: trigger_count - 1,
                            time_since_last_trigger: t - interval_ms,
                        };
                        fires = true;
                    } else {
                        new_time_type = TimeType::Periodic {
                            instant_application,
                            interval_ms,
                            trigger_count,
                            time_since_last_trigger: t,
                        };
                        fires = false;
                    }
                },
                TimeType::Instant => {
                    new_time_type = TimeType::Instant;
                    fires = false;
                },
                TimeType::Permanent => {
                    new_time_type = TimeType::Permanent;
                    fires = false;
                },
            }
            proof {
                assert(fires == periodic_fires(rest0[0].effect, time_diff));
                assert(fired_damages(rest0, time_diff, p0.id) =~= (if periodic_fires(
                    rest0[0].effect,
                    time_diff,
                ) {
                    fire_damages(rest0[0].effect.player_attributes, rest0[0].owner, p0.id)
                } else {
                    Seq::<DamageTrackerV>::empty()
                }) + fired_damages(rest0.drop_first(), time_diff, p0.id));
                assert(fired_skills(rest0, time_diff) =~= (if periodic_fires(
                    rest0[0].effect,
                    time_diff,
                ) {
                    rest0[0].effect.skills_keys_to_execute
                } else {
                    Seq::<Seq<char>>::empty()
                }) + fired_skills(rest0.drop_first(), time_diff));
            }
            if fires {
                let mut c: usize = 0;
                let ghost cs = player_attributes.deep_view();
                proof {
                    assert(cs =~= rest0[0].effect.player_attributes);
                    assert(cs.skip(0) =~= cs);
                    assert(owner == rest0[0].owner);
                }
                while c < player_attributes.len()
                    invariant
                        cs == player_attributes.deep_view(),
                        0 <= c <= player_attributes@.len(),
                        fired_damages(all, time_diff, p0.id) =~= damages.deep_view()
                            + fire_damages(cs.skip(c as int), owner, p0.id) + fired_damages(
                            rest.deep_view(),
                            time_diff,
                            p0.id,
                        ),
                    decreases player_attributes@.len() - c,
                {
                    proof {
                        assert(cs.skip(c as int)[0] == cs[c as int]);
                        assert(cs.skip(c as int).drop_first() =~= cs.skip(c + 1));
                        assert(cs[c as int] == player_attributes@[c as int]);
                    }
                    let change = &player_attributes[c];
                    if change.attribute == Attribute::Health {
                        damages.push(DamageTracker {
                            damage: change.value,
                            attacker: owner,
                            attacked_id: player_id,
                            on_hit_effects: Vec::new(),
                        });
                        proof {
                            assert(damages.deep_view().last() =~= (DamageTrackerV {
                                damage: cs[c as int].value,
                                attacker: owner,
                                attacked_id: p0.id,
                                on_hit_effects: Seq::empty(),
                            }));
                            assert(fired_damages(all, time_diff, p0.id) =~= damages.deep_view()
                                + fire_damages(cs.skip(c + 1), owner, p0.id) + fired_damages(
                                rest.deep_view(), time_diff, p0.id));
                        }
                    }
                    c = c + 1;
                }
                proof {
                    assert(cs.skip(player_attributes@.len() as int)
                        =~= Seq::<AttributeChange>::empty());
                }
                let mut s: usize = 0;
                let ghost ks = skills_keys_to_execute.deep_view();
                while s < skills_keys_to_execute.len()
                    invariant
                        ks == skills_keys_to_execute.deep_view(),
                        0 <= s <= skills_keys_to_execute@.len(),
                        fired_skills(all, time_diff) =~= skills.deep_view() + ks.skip(s as int)
                            + fired_skills(rest.deep_view(), time_diff),
                    decreases skills_keys_to_execute@.len() - s,
                {
                    proof {
                        assert(ks.skip(s as int)[0] == ks[s as int]);
                        assert(ks.skip(s as int).drop_first() =~= ks.skip(s + 1));
                        assert(ks[s as int] == skills_keys_to_execute@[s as int]@);
                    }
                    skills.push(skills_keys_to_execute[s].clone());
                    proof {
                        assert(fired_skills(all, time_diff) =~= skills.deep_view() + ks.skip(s + 1)
                            + fired_skills(rest.deep_view(), time_diff));
                    }
                    s = s + 1;
                }
                proof {
                    assert(ks.skip(skills_keys_to_execute@.len() as int)
                        =~= Seq::<Seq<char>>::empty());
                }
            }
            let new_entry = AppliedEffect {
                effect: Effect {
                    name,
                    is_reversable,
                    effect_time_type: new_time_type,
                    player_attributes,
                    projectile_attributes,
                    skills_keys_to_execute,
                },
                owner,
            };
            proof {
                assert(new_entry.deep_view() =~= (AppliedEffectV {
                    effect: spec_tick_effect(rest0[0].effect, time_diff),
                    owner: rest0[0].owner,
                }));
            }
            ticked.push(new_entry);
            proof {
                assert(ticked.deep_view() =~= ticked_effects(all, time_diff).take(done + 1));
                if !periodic_fires(rest0[0].effect, time_diff) {
                    assert(fired_damages(rest0, time_diff, p0.id) =~= fired_damages(
                        rest.deep_view(), time_diff, p0.id));
                    assert(fired_skills(rest0, time_diff) =~= fired_skills(rest.deep_view(),
                        time_diff));
                }
            }
        }
        core::mem::swap(&mut ticked, &mut self.effects);
        core::mem::swap(&mut skills, &mut self.skills_keys_to_execute);
        proof {
            assert(ticked_effects(all, time_diff).take(all.len() as int) =~= ticked_effects(all,
                time_diff));
            assert(fired_damages(Seq::<AppliedEffectV>::empty(), time_diff, p0.id)
                =~= Seq::<DamageTrackerV>::empty());
            assert(fired_skills(Seq::<AppliedEffectV>::empty(), time_diff)
                =~= Seq::<Seq<char>>::empty());
            assert(damages.deep_view() =~= fired_damages(all, time_diff, p0.id));
            assert(self.deep_view() =~= (PlayerV {
                effects: ticked_effects(all, time_diff),
                skills_keys_to_execute: fired_skills(all, time_diff),
                ..p0
            }));
        }
        damages
    }

    /// Whether the given skill key is on cooldown.
    pub fn has_cooldown(&self, skill_key: &String) -> (r: bool)
        ensures
            r == (cooldown_index(self.deep_view().cooldowns, skill_key@) >= 0),
    {
        let mut i: usize = 0;
        while i < self.cooldowns.len()
            invariant
                0 <= i <= self.cooldowns@.len(),
                forall|k: int|
                    0 <= k < i ==> (#[trigger] self.deep_view().cooldowns[k]).key != skill_key@,
            decreases self.cooldowns@.len() - i,
        {
            proof {
                assert(self.deep_view().cooldowns[i as int] == self.cooldowns@[
                    i as int].deep_view());
            }
            if self.cooldowns[i].key.eq(skill_key) {
                proof {
                    lemma_cooldown_index_of_match(self.deep_view().cooldowns, skill_key@, i as int);
                }
                return true;
            }
            i = i + 1;
        }
        proof {
            lemma_cooldown_index_none(self.deep_view().cooldowns, skill_key@);
        }
        false
    }

    /// Starts a cooldown for the skill key, replacing an entry already
    /// there, and uses up one burst load (bottoming out at none).
    pub fn add_cooldown(&mut self, skill_key: &String, cooldown_ms: u64)
        ensures
            final(self).deep_view() == (PlayerV {
                cooldowns: spec_add_cooldown(
                    old(self).deep_view().cooldowns,
                    skill_key@,
                    cooldown_ms,
                ),
                available_burst_loads: sat_sub64(old(self).available_burst_loads, 1),
                ..old(self).deep_view()
            }),
    {
        let ghost p0 = self.deep_view();
        let mut i: usize = 0;
        while i < self.cooldowns.len()
            invariant
                self.deep_view() == p0,
                0 <= i <= self.cooldowns@.len(),
                forall|k: int|
                    0 <= k < i ==> (#[trigger] p0.cooldowns[k]).key != skill_key@,
            decreases self.cooldowns@.len() - i,
        {
            proof {
                assert(p0.cooldowns[i as int] == self.cooldowns@[i as int].deep_view());
            }
            if self.cooldowns[i].key.eq(skill_key) {
                proof {
                    lemma_cooldown_index_of_match(p0.cooldowns, skill_key@, i as int);
                }
                let _ = self.cooldowns.remove(i);
                self.cooldowns.insert(i, Cooldown { key: skill_key.clone(), remaining_ms: cooldown_ms });
                proof {
                    assert(self.cooldowns.deep_view() =~= p0.cooldowns.update(i as int, CooldownV {
                        key: skill_key@,
                        remaining_ms: cooldown_ms,
                    }));
                }
                self.available_burst_loads = if self.available_burst_loads >= 1 {
                    self.available_burst_loads - 1
                } else {
                    0
                };
                proof {
                    assert(self.deep_view() =~= (PlayerV {
                        cooldowns: p0.cooldowns.update(i as int, CooldownV {
                            key: skill_key@,
                            remaining_ms: cooldown_ms,
                        }),
                        available_burst_loads: sat_sub64(p0.available_burst_loads, 1),
                        ..p0
                    }));
                }
                return ;
            }
            i = i + 1;
        }
        proof {
            lemma_cooldown_index_none(p0.cooldowns, skill_key@);
        }
        self.cooldowns.push(Cooldown { key: skill_key.clone(), remaining_ms: cooldown_ms });
        self.available_burst_loads = if self.available_burst_loads >= 1 {
            self.available_burst_loads - 1
        } else {
            0
        };
        proof {
            assert(self.cooldowns.deep_view() =~= p0.cooldowns.push(CooldownV {
                key: skill_key@,
                remaining_ms: cooldown_ms,
            }));
            assert(self.deep_view() =~= (PlayerV {
                cooldowns: p0.cooldowns.push(CooldownV { key: skill_key@, remaining_ms: cooldown_ms }),
                available_burst_loads: sat_sub64(p0.available_burst_loads, 1),
                ..p0
            }));
        }
    }

    /// Shortens every cooldown by the elapsed time; entries that reach
    /// zero leave the list. When the burst key is off cooldown afterwards,
    /// one burst load returns (up to the character's cap), and while still
    /// below the cap the burst key goes back on a five-second cooldown.
    pub fn reduce_cooldowns(&mut self, elapsed_time_ms: u64)
        ensures
            final(self).deep_view() == spec_reduce_cooldowns(
                old(self).deep_view(),
                elapsed_time_ms,
            ),
    {
        let ghost p0 = self.deep_view();
        let ghost all = p0.cooldowns;
        let mut rest: Vec<Cooldown> = Vec::new();
        core::mem::swap(&mut rest, &mut self.cooldowns);
        let mut kept: Vec<Cooldown> = Vec::new();
        while rest.len() > 0
            invariant
                self.deep_view() == (PlayerV { cooldowns: Seq::<CooldownV>::empty(), ..p0 }),
                tick_cooldowns(all, elapsed_time_ms) =~= kept.deep_view() + tick_cooldowns(
                    rest.deep_view(),
                    elapsed_time_ms,
                ),
            decreases rest@.len(),
        {
            let ghost rest0 = rest.deep_view();
            let entry = rest.remove(0);
            proof {
                assert(rest.deep_view() =~= rest0.drop_first());
                assert(entry.deep_view() == rest0[0]);
            }
            let remaining = if entry.remaining_ms >= elapsed_time_ms {
                entry.remaining_ms - elapsed_time_ms
            } else {
                0
            };
            if remaining > 0 {
                kept.push(Cooldown { key: entry.key, remaining_ms: remaining });
            }
            proof {
                assert(tick_cooldowns(all, elapsed_time_ms) =~= kept.deep_view() + tick_cooldowns(
                    rest.deep_view(), elapsed_time_ms));
            }
        }
        core::mem::swap(&mut kept, &mut self.cooldowns);
        proof {
            assert(tick_cooldowns(Seq::<CooldownV>::empty(), elapsed_time_ms)
                =~= Seq::<CooldownV>::empty());
            assert(self.cooldowns.deep_view() =~= tick_cooldowns(all, elapsed_time_ms));
            assert(self.deep_view() =~= (PlayerV {
                cooldowns: tick_cooldowns(all, elapsed_time_ms),
                ..p0
            }));
        }
        let burst_key = String::from_str("1");
        proof {
            reveal_strlit("1");
        }
        if !self.has_cooldown(&burst_key) {
            let cap = self.character.burst_loads;
            self.available_burst_loads = if self.available_burst_loads < cap {
                self.available_burst_loads + 1
            } else {
                cap
            };
            if self.available_burst_loads < cap {
                self.cooldowns.push(Cooldown { key: burst_key, remaining_ms: 5000 });
                proof {
                    assert(self.cooldowns.deep_view() =~= tick_cooldowns(all,
                        elapsed_time_ms).push(CooldownV { key: "1"@, remaining_ms: 5000u64 }));
                }
            }
            proof {
                assert(self.deep_view() =~= spec_reduce_cooldowns(p0, elapsed_time_ms));
            }
        } else {
            proof {
                assert(self.deep_view() =~= spec_reduce_cooldowns(p0, elapsed_time_ms));
            }
        }
    }

    /// Whether the player may fire the given skill: nothing in progress,
    /// and either a burst load is available while the burst key cools
    /// down, or neither the burst key nor the skill key is cooling down.
    pub fn can_perform_attack(&self, skill_key: &String) -> (r: bool)
        ensures
            r == (self.action_duration_ms == 0 && ((cooldown_index(
                self.deep_view().cooldowns,
                "1"@,
            ) >= 0 && self.available_burst_loads > 0) || (cooldown_index(
                self.deep_view().cooldowns,
                "1"@,
            ) < 0 && cooldown_index(self.deep_view().cooldowns, skill_key@) < 0))),
    {
        if self.action_duration_ms != 0 {
            return false;
        }
        let burst_key = String::from_str("1");
        proof {
            reveal_strlit("1");
        }
        let burst_cooling = self.has_cooldown(&burst_key);
        if burst_cooling {
            self.available_burst_loads > 0
        } else {
            !self.has_cooldown(skill_key)
        }
    }

    /// Queues an action for the next tick, unless the same action is
    /// already committed; its duration extends the busy window.
    pub fn add_action(&mut self, action: Action, duration_ms: u64)
        requires
            old(self).action_duration_ms + duration_ms <= u64::MAX,
        ensures
            final(self).deep_view() == spec_add_action(
                old(self).deep_view(),
                action.deep_view(),
                duration_ms,
            ),
    {
        let ghost p0 = self.deep_view();
        let mut i: usize = 0;
        while i < self.actions.len()
            invariant
                self.deep_view() == p0,
                0 <= i <= self.actions@.len(),
                forall|k: int| 0 <= k < i ==> (#[trigger] p0.actions[k]) != action.deep_view(),
            decreases self.actions@.len() - i,
        {
            proof {
                assert(p0.actions[i as int] == self.actions@[i as int].deep_view());
            }
            let same = match (&self.actions[i], &action) {
                (Action::Nothing, Action::Nothing) => true,
                (Action::Moving, Action::Moving) => true,
                (Action::UsingSkill(a), Action::UsingSkill(b)) => a.eq(b),
                _ => false,
            };
            if same {
                return ;
            }
            i = i + 1;
        }
        self.next_actions.push(action);
        self.action_duration_ms = self.action_duration_ms + duration_ms;
        proof {
            assert(!contains_action(p0.actions, action.deep_view()));
            assert(self.next_actions.deep_view() =~= p0.next_actions.push(action.deep_view()));
            assert(self.deep_view() =~= (PlayerV {
                next_actions: p0.next_actions.push(action.deep_view()),
                action_duration_ms: (p0.action_duration_ms + duration_ms) as u64,
                ..p0
            }));
        }
    }

    /// Commits the queued actions for this tick and shortens the busy
    /// window; once it closes, only movement survives in the queue.
    pub fn update_actions(&mut self, elapsed_time_ms: u64)
        ensures
            final(self).deep_view() == spec_update_actions(old(self).deep_view(), elapsed_time_ms),
    {
        let ghost p0 = self.deep_view();
        self.action_duration_ms = if self.action_duration_ms >= elapsed_time_ms {
            self.action_duration_ms - elapsed_time_ms
        } else {
            0
        };
        if self.action_duration_ms == 0 {
            let ghost all = p0.next_actions;
            let mut rest: Vec<Action> = Vec::new();
            core::mem::swap(&mut rest, &mut self.next_actions);
            let mut kept: Vec<Action> = Vec::new();
            while rest.len() > 0
                invariant
                    keep_moving(all) =~= kept.deep_view() + keep_moving(rest.deep_view()),
                decreases rest@.len(),
            {
                let ghost rest0 = rest.deep_view();
                let entry = rest.remove(0);
                proof {
                    assert(rest.deep_view() =~= rest0.drop_first());
                    assert(entry.deep_view() == rest0[0]);
                }
                if matches!(entry, Action::Moving) {
                    kept.push(entry);
                }
                proof {
                    assert(keep_moving(all) =~= kept.deep_view() + keep_moving(rest.deep_view()));
                }
            }
            core::mem::swap(&mut kept, &mut self.next_actions);
            proof {
                assert(keep_moving(Seq::<ActionV>::empty()) =~= Seq::<ActionV>::empty());
                assert(self.next_actions.deep_view() =~= keep_moving(all));
            }
        }
        let committed = clone_actions(&self.next_actions);
        let mut committed = committed;
        core::mem::swap(&mut committed, &mut self.actions);
        proof {
            let d = sat_sub64(p0.action_duration_ms, elapsed_time_ms);
            if d == 0 {
                assert(self.deep_view() =~= (PlayerV {
                    action_duration_ms: d,
                    next_actions: keep_moving(p0.next_actions),
                    actions: keep_moving(p0.next_actions),
                    ..p0
                }));
            } else {
                assert(self.deep_view() =~= (PlayerV {
                    action_duration_ms: d,
                    next_actions: p0.next_actions,
                    actions: p0.next_actions,
                    ..p0
                }));
            }
        }
    }

    /// Stores a loot in the first empty inventory slot; tells whether one
    /// was free.
    pub fn put_in_inventory(&mut self, loot: &Loot) -> (stored: bool)
        ensures
            ({
                let inv = old(self).deep_view().inventory;
                let idx = first_free_slot(inv);
                &&& stored == (idx >= 0)
                &&& final(self).deep_view() == (if idx < 0 {
                    old(self).deep_view()
                } else {
                    PlayerV {
                        inventory: inv.update(idx, Some(loot.deep_view())),
                        ..old(self).deep_view()
                    }
                })
            }),
    {
        let ghost p0 = self.deep_view();
        let mut i: usize = 0;
        while i < self.inventory.len()
            invariant
                self.deep_view() == p0,
                0 <= i <= self.inventory@.len(),
                forall|k: int| 0 <= k < i ==> !((#[trigger] p0.inventory[k]) is None),
            decreases self.inventory@.len() - i,
        {
            proof {
                assert(p0.inventory[i as int] == self.inventory@[i as int].deep_view());
            }
            let free = self.inventory[i].is_none();
            if free {
                proof {
                    lemma_first_free_slot_of_match(p0.inventory, i as int);
                }
                let _ = self.inventory.remove(i);
                self.inventory.insert(i, Some(loot.clone()));
                proof {
                    assert(self.inventory.deep_view() =~= p0.inventory.update(i as int, Some(
                        loot.deep_view())));
                    assert(self.deep_view() =~= (PlayerV {
                        inventory: p0.inventory.update(i as int, Some(loot.deep_view())),
                        ..p0
                    }));
                }
                return true;
            }
            i = i + 1;
        }
        proof {
            lemma_first_free_slot_none(p0.inventory);
        }
        false
    }

    /// Takes the loot out of the given inventory slot, leaving it empty.
    pub fn inventory_take_at(&mut self, inventory_at: usize) -> (r: Option<Loot>)
        requires
            inventory_at < old(self).deep_view().inventory.len(),
        ensures
            ({
                let inv = old(self).deep_view().inventory;
                &&& final(self).deep_view() == (PlayerV {
                    inventory: inv.update(inventory_at as int, None),
                    ..old(self).deep_view()
                })
                &&& r.deep_view() == inv[inventory_at as int]
            }),
    {
        let ghost p0 = self.deep_view();
        let taken = self.inventory.remove(inventory_at);
        self.inventory.insert(inventory_at, None);
        proof {
            assert(self.inventory.deep_view() =~= p0.inventory.update(inventory_at as int,
                None::<LootV>));
            assert(self.deep_view() =~= (PlayerV {
                inventory: p0.inventory.update(inventory_at as int, None),
                ..p0
            }));
            assert(taken.deep_view() == p0.inventory[inventory_at as int]);
        }
        taken
    }

    /// Walks one step along `dir` at the player's speed, turning to face
    /// that way; a player with no speed cannot move. Queues the movement
    /// as an action of this tick.
    pub fn move_position(&mut self, dir: Direction, map_radius: u64)
        requires
            player_geometry_wf(old(self).deep_view()),
            dir_valid(dir),
            0 < map_radius <= WORLD_MAX as u64,
            old(self).action_duration_ms < u64::MAX,
        ensures
            final(self).deep_view() == spec_move_position(
                old(self).deep_view(),
                dir,
                map_radius as int,
            ),
            in_world(final(self).position),
    {
        if self.speed == 0 {
            return ;
        }
        self.add_action(Action::Moving, 0);
        self.direction = dir;
        let amount = if self.speed > WORLD_MAX as u64 {
            WORLD_MAX as u64
        } else {
            self.speed
        };
        let new_pos = next_position(&self.position, &dir, amount, map_radius);
        self.position = new_pos;
    }

    /// Starts a movement skill: the player will keep moving along
    /// `direction` at `speed` for `duration_ms`.
    pub fn set_moving_params(&mut self, duration_ms: u64, direction: Direction, speed: u64)
        ensures
            final(self).deep_view() == (PlayerV {
                moving_params: Some(MovingParams { duration_ms, direction, speed }),
                ..old(self).deep_view()
            }),
    {
        self.moving_params = Some(MovingParams { duration_ms, direction, speed });
        proof {
            assert(self.deep_view() =~= (PlayerV {
                moving_params: Some(MovingParams { duration_ms, direction, speed }),
                ..old(self).deep_view()
            }));
        }
    }

    /// One tick of movement-skill progress: the player advances along the
    /// stored direction and the window shrinks; when it closes, the
    /// movement ends.
    pub fn skill_move(&mut self, elapsed_time_ms: u64, map_radius: u64)
        requires
            player_geometry_wf(old(self).deep_view()),
            0 < map_radius <= WORLD_MAX as u64,
            match old(self).moving_params {
                Some(mp) => dir_valid(mp.direction),
                None => true,
            },
        ensures
            final(self).deep_view() == spec_skill_move(
                old(self).deep_view(),
                elapsed_time_ms,
                map_radius as int,
            ),
            in_world(final(self).position),
    {
        let mp = match &self.moving_params {
            Some(mp) => *mp,
            None => {
                return ;
            },
        };
        let amount = if mp.speed > WORLD_MAX as u64 {
            WORLD_MAX as u64
        } else {
            mp.speed
        };
        let new_pos = next_position(&self.position, &mp.direction, amount, map_radius);
        self.position = new_pos;
        let left = if mp.duration_ms >= elapsed_time_ms {
            mp.duration_ms - elapsed_time_ms
        } else {
            0
        };
        if left == 0 {
            self.moving_params = None;
        } else {
            self.moving_params = Some(MovingParams { duration_ms: left, ..mp });
        }
        proof {
            assert(self.deep_view() =~= (PlayerV {
                position: self.position,
                moving_params: self.moving_params,
                ..old(self).deep_view()
            }));
        }
    }
}

/// Applying effects touches only the effect list and the four stats.
pub proof fn lemma_apply_list_frame(p: PlayerV, es: Seq<EffectV>, owner: EntityOwner)
    ensures
        ({
            let q = spec_apply_effect_list(p, es, owner);
            &&& q.position == p.position
            &&& q.direction == p.direction
            &&& q.id == p.id
            &&& q.inventory == p.inventory
            &&& q.kill_count == p.kill_count
            &&& q.cooldowns == p.cooldowns
            &&& q.actions == p.actions
            &&& q.next_actions == p.next_actions
            &&& q.action_duration_ms == p.action_duration_ms
            &&& q.moving_params == p.moving_params
            &&& q.character == p.character
            &&& q.skills_keys_to_execute == p.skills_keys_to_execute
            &&& q.available_burst_loads == p.available_burst_loads
        }),
    decreases es.len(),
{
    if es.len() == 0 {
    } else {
        let stored = if es[0].effect_time_type != TimeType::Instant {
            PlayerV {
                effects: p.effects.push(AppliedEffectV { effect: es[0], owner }),
                ..p
            }
        } else {
            p
        };
        if applies_on_add(es[0]) {
            lemma_apply_changes_frame(stored, es[0].player_attributes);
        }
        lemma_apply_list_frame(spec_apply_effect(p, es[0], owner), es.drop_first(), owner);
    }
}

/// The committed actions of a tick: the busy window shrinks by the elapsed
/// time; once it closes, only movement survives in the queue; the queue
/// becomes this tick's action list.
pub open spec fn spec_update_actions(p: PlayerV, elapsed_time_ms: u64) -> PlayerV {
    let d = sat_sub64(p.action_duration_ms, elapsed_time_ms);
    let queued = if d == 0 {
        keep_moving(p.next_actions)
    } else {
        p.next_actions
    };
    PlayerV { action_duration_ms: d, next_actions: queued, actions: queued, ..p }
}

/// Applying sound effects keeps the stored effects sound.
pub proof fn lemma_apply_list_effects_wf(p: PlayerV, es: Seq<EffectV>, owner: EntityOwner)
    requires
        player_effects_wf(p),
        forall|i: int| 0 <= i < es.len() ==> crate::effect::effect_v_wf(#[trigger] es[i]),
    ensures
        player_effects_wf(spec_apply_effect_list(p, es, owner)),
    decreases es.len(),
{
    if es.len() == 0 {
    } else {
        let stored = if es[0].effect_time_type != TimeType::Instant {
            PlayerV { effects: p.effects.push(AppliedEffectV { effect: es[0], owner }), ..p }
        } else {
            p
        };
        assert(player_effects_wf(stored)) by {
            if es[0].effect_time_type != TimeType::Instant {
                assert(forall|k: int|
                    0 <= k < p.effects.len() ==> #[trigger] stored.effects[k] == p.effects[k]);
                assert(stored.effects.last().effect == es[0]);
            }
        }
        let applied = spec_apply_effect(p, es[0], owner);
        assert(player_effects_wf(applied)) by {
            if applies_on_add(es[0]) {
                lemma_apply_changes_frame(stored, es[0].player_attributes);
            }
        }
        assert(forall|k: int|
            0 <= k < es.drop_first().len() ==> #[trigger] es.drop_first()[k] == es[k + 1]);
        lemma_apply_list_effects_wf(applied, es.drop_first(), owner);
    }
}

/// Applying effects when absent keeps the stored effects sound.
pub proof fn lemma_apply_if_absent_effects_wf(p: PlayerV, es: Seq<EffectV>, owner: EntityOwner)
    requires
        player_effects_wf(p),
        forall|i: int| 0 <= i < es.len() ==> crate::effect::effect_v_wf(#[trigger] es[i]),
    ensures
        player_effects_wf(spec_apply_effects_if_absent(p, es, owner)),
    decreases es.len(),
{
    if es.len() == 0 {
    } else {
        let p1 = if first_effect_index(p.effects, es[0].name) >= 0 {
            p
        } else {
            spec_apply_effect(p, es[0], owner)
        };
        assert(player_effects_wf(p1)) by {
            if !(first_effect_index(p.effects, es[0].name) >= 0) {
                assert(es.drop_first().len() == es.len() - 1);
                lemma_apply_list_effects_wf(p, seq![es[0]], owner);
                assert(seq![es[0]].drop_first() =~= Seq::<EffectV>::empty());
                assert(spec_apply_effect_list(p, seq![es[0]], owner) == spec_apply_effect(p,
                    es[0], owner)) by {
                    reveal_with_fuel(spec_apply_effect_list, 3);
                    assert(seq![es[0]][0] == es[0]);
                }
            }
        }
        assert(forall|k: int|
            0 <= k < es.drop_first().len() ==> #[trigger] es.drop_first()[k] == es[k + 1]);
        lemma_apply_if_absent_effects_wf(p1, es.drop_first(), owner);
    }
}

/// Applying effects when absent touches only the effect list and the
/// stats.
pub proof fn lemma_apply_if_absent_frame(p: PlayerV, es: Seq<EffectV>, owner: EntityOwner)
    ensures
        ({
            let q = spec_apply_effects_if_absent(p, es, owner);
            &&& q.position == p.position
            &&& q.direction == p.direction
            &&& q.id == p.id
            &&& q.moving_params == p.moving_params
            &&& q.character == p.character
            &&& q.inventory == p.inventory
            &&& q.available_burst_loads == p.available_burst_loads
        }),
    decreases es.len(),
{
    if es.len() == 0 {
    } else {
        let p1 = if first_effect_index(p.effects, es[0].name) >= 0 {
            p
        } else {
            spec_apply_effect(p, es[0], owner)
        };
        if !(first_effect_index(p.effects, es[0].name) >= 0) {
            let stored = if es[0].effect_time_type != TimeType::Instant {
                PlayerV { effects: p.effects.push(AppliedEffectV { effect: es[0], owner }), ..p }
            } else {
                p
            };
            if applies_on_add(es[0]) {
                lemma_apply_changes_frame(stored, es[0].player_attributes);
            }
        }
        lemma_apply_if_absent_frame(p1, es.drop_first(), owner);
    }
}

/// The expiry sweep reverts only stats: everything else but the effect
/// list survives unchanged.
pub proof fn lemma_revert_expired_frame(p: PlayerV, es: Seq<AppliedEffectV>)
    ensures
        ({
            let q = revert_expired(p, es);
            &&& q.position == p.position
            &&& q.direction == p.direction
            &&& q.id == p.id
            &&& q.moving_params == p.moving_params
            &&& q.character == p.character
            &&& q.effects == p.effects
            &&& q.inventory == p.inventory
            &&& q.available_burst_loads == p.available_burst_loads
        }),
    decreases es.len(),
{
    if es.len() == 0 {
    } else {
        let p1 = if is_expired(es[0].effect) && es[0].effect.is_reversable {
            spec_revert_changes(p, es[0].effect.player_attributes)
        } else {
            p
        };
        if is_expired(es[0].effect) && es[0].effect.is_reversable {
            lemma_revert_changes_frame(p, es[0].effect.player_attributes);
        }
        lemma_revert_expired_frame(p1, es.drop_first());
    }
}

/// The survivors of the expiry sweep are a subset of the stored effects.
pub proof fn lemma_keep_unexpired_wf(es: Seq<AppliedEffectV>)
    requires
        forall|i: int|
            0 <= i < es.len() ==> crate::effect::effect_v_wf((#[trigger] es[i]).effect),
    ensures
        forall|i: int|
            0 <= i < keep_unexpired(es).len() ==> crate::effect::effect_v_wf(
                (#[trigger] keep_unexpired(es)[i]).effect,
            ),
    decreases es.len(),
{
    if es.len() == 0 {
    } else {
        assert(forall|k: int|
            0 <= k < es.drop_first().len() ==> #[trigger] es.drop_first()[k] == es[k + 1]);
        lemma_keep_unexpired_wf(es.drop_first());
        let rest = keep_unexpired(es.drop_first());
        if !is_expired(es[0].effect) {
            assert((seq![es[0]] + rest)[0] == es[0]);
            assert(forall|k: int|
                0 <= k < rest.len() ==> #[trigger] (seq![es[0]] + rest)[k + 1] == rest[k]);
        }
    }
}

/// Nothing that survives the expiry sweep is expired.
pub proof fn lemma_keep_unexpired_unexpired(es: Seq<AppliedEffectV>)
    ensures
        forall|i: int|
            0 <= i < keep_unexpired(es).len() ==> !is_expired(
                (#[trigger] keep_unexpired(es)[i]).effect,
            ),
    decreases es.len(),
{
    if es.len() == 0 {
    } else {
        lemma_keep_unexpired_unexpired(es.drop_first());
        let rest = keep_unexpired(es.drop_first());
        if !is_expired(es[0].effect) {
            assert((seq![es[0]] + rest)[0] == es[0]);
            assert(forall|k: int|
                0 <= k < rest.len() ==> #[trigger] (seq![es[0]] + rest)[k + 1] == rest[k]);
        }
    }
}

/// One walking step: the player turns to `dir` and advances one speed's
/// worth, pulled back inside the map circle; movement is queued as an
/// action. A player with no speed stays put.
pub open spec fn spec_move_position(p: PlayerV, dir: Direction, radius: int) -> PlayerV {
    if p.speed == 0 {
        p
    } else {
        let amount = if p.speed > WORLD_MAX as u64 {
            WORLD_MAX as u64
        } else {
            p.speed
        };
        let stepped = crate::map::spec_next_position(p.position, dir, amount as int, radius);
        let queued = if contains_action(p.actions, ActionV::Moving) {
            p.next_actions
        } else {
            p.next_actions.push(ActionV::Moving)
        };
        PlayerV {
            direction: dir,
            position: Position { x: stepped.0 as i64, y: stepped.1 as i64 },
            next_actions: queued,
            ..p
        }
    }
}

/// One tick of movement-skill progress.
pub open spec fn spec_skill_move(p: PlayerV, elapsed_time_ms: u64, radius: int) -> PlayerV {
    match p.moving_params {
        Some(mp) => {
            let amount = if mp.speed > WORLD_MAX as u64 {
                WORLD_MAX as u64
            } else {
                mp.speed
            };
            let stepped = crate::map::spec_next_position(p.position, mp.direction, amount as int, radius);
            let left = sat_sub64(mp.duration_ms, elapsed_time_ms);
            PlayerV {
                position: Position { x: stepped.0 as i64, y: stepped.1 as i64 },
                moving_params: if left == 0 {
                    None
                } else {
                    Some(MovingParams { duration_ms: left, ..mp })
                },
                ..p
            }
        },
        None => p,
    }
}

/// A copy of a list of actions; the model values are unchanged.
pub fn clone_actions(v: &Vec<Action>) -> (r: Vec<Action>)
    ensures
        r.deep_view() == v.deep_view(),
{
    let r = v.clone();
    proof {
        assert(r.deep_view() =~= v.deep_view());
    }
    r
}

/// A list of effects applied in order.
pub open spec fn spec_apply_effect_list(p: PlayerV, es: Seq<EffectV>, owner: EntityOwner) -> PlayerV
    decreases es.len(),
{
    if es.len() == 0 {
        p
    } else {
        spec_apply_effect_list(spec_apply_effect(p, es[0], owner), es.drop_first(), owner)
    }
}

pub proof fn lemma_apply_effect_list_push(p: PlayerV, s: Seq<EffectV>, e: EffectV, owner: EntityOwner)
    ensures
        spec_apply_effect_list(p, s.push(e), owner) == spec_apply_effect(
            spec_apply_effect_list(p, s, owner),
            e,
            owner,
        ),
    decreases s.len(),
{
    reveal_with_fuel(spec_apply_effect_list, 3);
    if s.len() == 0 {
        assert(s.push(e)[0] == e);
        assert(s.push(e).drop_first() =~= s);
    } else {
        assert(s.push(e)[0] == s[0]);
        assert(s.push(e).drop_first() =~= s.drop_first().push(e));
        lemma_apply_effect_list_push(spec_apply_effect(p, s[0], owner), s.drop_first(), e, owner);
    }
}

/// A list of effects applied in order, each one skipped when an effect of
/// its name is already stored.
pub open spec fn spec_apply_effects_if_absent(p: PlayerV, es: Seq<EffectV>, owner: EntityOwner)
    -> PlayerV
    decreases es.len(),
{
    if es.len() == 0 {
        p
    } else {
        let p1 = if first_effect_index(p.effects, es[0].name) >= 0 {
            p
        } else {
            spec_apply_effect(p, es[0], owner)
        };
        spec_apply_effects_if_absent(p1, es.drop_first(), owner)
    }
}

pub proof fn lemma_apply_if_absent_push(p: PlayerV, s: Seq<EffectV>, e: EffectV, owner: EntityOwner)
    ensures
        spec_apply_effects_if_absent(p, s.push(e), owner) == ({
            let q = spec_apply_effects_if_absent(p, s, owner);
            if first_effect_index(q.effects, e.name) >= 0 {
                q
            } else {
                spec_apply_effect(q, e, owner)
            }
        }),
    decreases s.len(),
{
    reveal_with_fuel(spec_apply_effects_if_absent, 3);
    if s.len() == 0 {
        assert(s.push(e)[0] == e);
        assert(s.push(e).drop_first() =~= s);
    } else {
        assert(s.push(e)[0] == s[0]);
        assert(s.push(e).drop_first() =~= s.drop_first().push(e));
        let p1 = if first_effect_index(p.effects, s[0].name) >= 0 {
            p
        } else {
            spec_apply_effect(p, s[0], owner)
        };
        lemma_apply_if_absent_push(p1, s.drop_first(), e, owner);
    }
}

/// `a - b`, saturating at zero.
pub open spec fn sat_sub64(a: u64, b: u64) -> u64 {
    if a >= b {
        (a - b) as u64
    } else {
        0u64
    }
}

/// `a + b`, saturating at the top of `u64`.
pub open spec fn sat_add64(a: u64, b: u64) -> u64 {
    if a + b > u64::MAX {
        u64::MAX
    } else {
        (a + b) as u64
    }
}

/// An effect whose time ran out: a duration at zero, or a periodic effect
/// with no triggers left.
pub open spec fn is_expired(e: EffectV) -> bool {
    match e.effect_time_type {
        TimeType::Duration { duration_ms } => duration_ms == 0,
        TimeType::Periodic { trigger_count, .. } => trigger_count == 0,
        _ => false,
    }
}

/// The stored effects that have not expired, in order.
pub open spec fn keep_unexpired(es: Seq<AppliedEffectV>) -> Seq<AppliedEffectV>
    decreases es.len(),
{
    if es.len() == 0 {
        Seq::empty()
    } else {
        let rest = keep_unexpired(es.drop_first());
        if is_expired(es[0].effect) {
            rest
        } else {
            seq![es[0]] + rest
        }
    }
}

/// The stats after every expired reversible effect of the list has been
/// reverted, in order.
pub open spec fn revert_expired(p: PlayerV, es: Seq<AppliedEffectV>) -> PlayerV
    decreases es.len(),
{
    if es.len() == 0 {
        p
    } else {
        let p1 = if is_expired(es[0].effect) && es[0].effect.is_reversable {
            spec_revert_changes(p, es[0].effect.player_attributes)
        } else {
            p
        };
        revert_expired(p1, es.drop_first())
    }
}

/// The player after the expiry sweep: expired reversible effects restore
/// their stats, and expired effects leave the list.
pub open spec fn spec_remove_expired(p: PlayerV) -> PlayerV {
    PlayerV { effects: keep_unexpired(p.effects), ..revert_expired(p, p.effects) }
}

/// One effect advanced by `dt` milliseconds: a duration counts down; a
/// periodic effect accumulates time and, when its interval is reached,
/// carries the remainder over and uses up one trigger.
pub open spec fn spec_tick_effect(e: EffectV, dt: u64) -> EffectV {
    match e.effect_time_type {
        TimeType::Duration { duration_ms } => EffectV {
            effect_time_type: TimeType::Duration { duration_ms: sat_sub64(duration_ms, dt) },
            ..e
        },
        TimeType::Periodic { instant_application, interval_ms, trigger_count, time_since_last_trigger } => {
            let t = sat_add64(time_since_last_trigger, dt);
            if t >= interval_ms {
                EffectV {
                    effect_time_type: TimeType::Periodic {
                        instant_application,
                        interval_ms,
                        trigger_count: (trigger_count - 1) as u64,
                        time_since_last_trigger: (t - interval_ms) as u64,
                    },
                    ..e
                }
            } else {
                EffectV {
                    effect_time_type: TimeType::Periodic {
                        instant_application,
                        interval_ms,
                        trigger_count,
                        time_since_last_trigger: t,
                    },
                    ..e
                }
            }
        },
        _ => e,
    }
}

/// Whether a periodic effect fires during a step of `dt` milliseconds.
pub open spec fn periodic_fires(e: EffectV, dt: u64) -> bool {
    match e.effect_time_type {
        TimeType::Periodic { interval_ms, time_since_last_trigger, .. } => sat_add64(
            time_since_last_trigger,
            dt,
        ) >= interval_ms,
        _ => false,
    }
}

/// The damages one firing effect queues: one entry per health change,
/// attributed to whoever caused the effect.
pub open spec fn fire_damages(
    cs: Seq<AttributeChange>,
    owner: EntityOwner,
    id: u64,
) -> Seq<DamageTrackerV>
    decreases cs.len(),
{
    if cs.len() == 0 {
        Seq::empty()
    } else {
        let rest = fire_damages(cs.drop_first(), owner, id);
        if cs[0].attribute == Attribute::Health {
            seq![
                DamageTrackerV {
                    damage: cs[0].value,
                    attacker: owner,
                    attacked_id: id,
                    on_hit_effects: Seq::empty(),
                },
            ] + rest
        } else {
            rest
        }
    }
}

/// All damages queued by the effects that fire during a step.
pub open spec fn fired_damages(es: Seq<AppliedEffectV>, dt: u64, id: u64) -> Seq<DamageTrackerV>
    decreases es.len(),
{
    if es.len() == 0 {
        Seq::empty()
    } else {
        let head = if periodic_fires(es[0].effect, dt) {
            fire_damages(es[0].effect.player_attributes, es[0].owner, id)
        } else {
            Seq::empty()
        };
        head + fired_damages(es.drop_first(), dt, id)
    }
}

/// All skill keys queued by the effects that fire during a step.
pub open spec fn fired_skills(es: Seq<AppliedEffectV>, dt: u64) -> Seq<Seq<char>>
    decreases es.len(),
{
    if es.len() == 0 {
        Seq::empty()
    } else {
        let head = if periodic_fires(es[0].effect, dt) {
            es[0].effect.skills_keys_to_execute
        } else {
            Seq::<Seq<char>>::empty()
        };
        head + fired_skills(es.drop_first(), dt)
    }
}

/// Every stored effect advanced by `dt`.
pub open spec fn ticked_effects(es: Seq<AppliedEffectV>, dt: u64) -> Seq<AppliedEffectV> {
    Seq::new(
        es.len(),
        |i: int| AppliedEffectV { effect: spec_tick_effect(es[i].effect, dt), owner: es[i].owner },
    )
}

/// The index of the first cooldown entry for `key`, or `-1`.
pub open spec fn cooldown_index(s: Seq<CooldownV>, key: Seq<char>) -> int
    decreases s.len(),
{
    if s.len() == 0 {
        -1
    } else if s[0].key == key {
        0
    } else {
        let r = cooldown_index(s.drop_first(), key);
        if r < 0 {
            -1
        } else {
            1 + r
        }
    }
}

proof fn lemma_cooldown_index_of_match(s: Seq<CooldownV>, key: Seq<char>, j: int)
    requires
        0 <= j < s.len(),
        s[j].key == key,
        forall|k: int| 0 <= k < j ==> (#[trigger] s[k]).key != key,
    ensures
        cooldown_index(s, key) == j,
    decreases s.len(),
{
    if j == 0 {
    } else {
        assert(s.drop_first()[j - 1] == s[j]);
        assert(forall|k: int| 0 <= k < j - 1 ==> #[trigger] s.drop_first()[k] == s[k + 1]);
        lemma_cooldown_index_of_match(s.drop_first(), key, j - 1);
    }
}

proof fn lemma_cooldown_index_none(s: Seq<CooldownV>, key: Seq<char>)
    requires
        forall|k: int| 0 <= k < s.len() ==> (#[trigger] s[k]).key != key,
    ensures
        cooldown_index(s, key) == -1,
    decreases s.len(),
{
    if s.len() == 0 {
    } else {
        assert(forall|k: int|
            0 <= k < s.drop_first().len() ==> #[trigger] s.drop_first()[k] == s[k + 1]);
        lemma_cooldown_index_none(s.drop_first(), key);
    }
}

/// The first cooldown index never reaches past the list.
pub proof fn lemma_cooldown_index_in_range(s: Seq<CooldownV>, key: Seq<char>)
    ensures
        cooldown_index(s, key) < s.len(),
    decreases s.len(),
{
    if s.len() == 0 {
    } else if s[0].key == key {
    } else {
        lemma_cooldown_index_in_range(s.drop_first(), key);
    }
}

/// Every cooldown shortened by `dt`; entries that reach zero leave.
pub open spec fn tick_cooldowns(s: Seq<CooldownV>, dt: u64) -> Seq<CooldownV>
    decreases s.len(),
{
    if s.len() == 0 {
        Seq::empty()
    } else {
        let rest = tick_cooldowns(s.drop_first(), dt);
        let rem = sat_sub64(s[0].remaining_ms, dt);
        if rem > 0 {
            seq![CooldownV { key: s[0].key, remaining_ms: rem }] + rest
        } else {
            rest
        }
    }
}

/// The cooldown pass of one tick: every entry shortened and the spent
/// ones dropped; then, when the burst key is off cooldown, one burst load
/// returns (up to the character's cap) and, while still below the cap,
/// the burst key goes back on a five-second cooldown.
pub open spec fn spec_reduce_cooldowns(p: PlayerV, elapsed_time_ms: u64) -> PlayerV {
    let ticked = tick_cooldowns(p.cooldowns, elapsed_time_ms);
    if cooldown_index(ticked, "1"@) >= 0 {
        PlayerV { cooldowns: ticked, ..p }
    } else {
        let avail = if p.available_burst_loads < p.character.burst_loads {
            (p.available_burst_loads + 1) as u64
        } else {
            p.character.burst_loads
        };
        let cds = if avail < p.character.burst_loads {
            ticked.push(CooldownV { key: "1"@, remaining_ms: 5000u64 })
        } else {
            ticked
        };
        PlayerV { cooldowns: cds, available_burst_loads: avail, ..p }
    }
}

/// The actions kept when an action window closes: only movement.
pub open spec fn keep_moving(s: Seq<ActionV>) -> Seq<ActionV>
    decreases s.len(),
{
    if s.len() == 0 {
        Seq::empty()
    } else {
        let rest = keep_moving(s.drop_first());
        if s[0] is Moving {
            seq![s[0]] + rest
        } else {
            rest
        }
    }
}

pub open spec fn contains_action(s: Seq<ActionV>, a: ActionV) -> bool {
    exists|i: int| 0 <= i < s.len() && s[i] == a
}

/// The cooldown list after starting a cooldown: the entry for the key is
/// replaced, or appended when there is none.
pub open spec fn spec_add_cooldown(s: Seq<CooldownV>, key: Seq<char>, remaining_ms: u64) -> Seq<
    CooldownV,
> {
    let entry = CooldownV { key, remaining_ms };
    let idx = cooldown_index(s, key);
    if idx < 0 {
        s.push(entry)
    } else {
        s.update(idx, entry)
    }
}

/// The player after queueing one action: nothing changes when the same
/// action is already committed; otherwise the action joins the queue and
/// its duration extends the busy window.
pub open spec fn spec_add_action(p: PlayerV, a: ActionV, duration_ms: u64) -> PlayerV {
    if contains_action(p.actions, a) {
        p
    } else {
        PlayerV {
            next_actions: p.next_actions.push(a),
            action_duration_ms: (p.action_duration_ms + duration_ms) as u64,
            ..p
        }
    }
}

/// The index of the first empty inventory slot, or `-1`.
pub open spec fn first_free_slot(inv: Seq<Option<LootV>>) -> int
    decreases inv.len(),
{
    if inv.len() == 0 {
        -1
    } else if inv[0] is None {
        0
    } else {
        let r = first_free_slot(inv.drop_first());
        if r < 0 {
            -1
        } else {
            1 + r
        }
    }
}

proof fn lemma_first_free_slot_of_match(inv: Seq<Option<LootV>>, j: int)
    requires
        0 <= j < inv.len(),
        inv[j] is None,
        forall|k: int| 0 <= k < j ==> !((#[trigger] inv[k]) is None),
    ensures
        first_free_slot(inv) == j,
    decreases inv.len(),
{
    if j == 0 {
    } else {
        assert(inv.drop_first()[j - 1] == inv[j]);
        assert(forall|k: int| 0 <= k < j - 1 ==> #[trigger] inv.drop_first()[k] == inv[k + 1]);
        lemma_first_free_slot_of_match(inv.drop_first(), j - 1);
    }
}

proof fn lemma_first_free_slot_none(inv: Seq<Option<LootV>>)
    requires
        forall|k: int| 0 <= k < inv.len() ==> !((#[trigger] inv[k]) is None),
    ensures
        first_free_slot(inv) == -1,
    decreases inv.len(),
{
    if inv.len() == 0 {
    } else {
        assert(forall|k: int|
            0 <= k < inv.drop_first().len() ==> #[trigger] inv.drop_first()[k] == inv[k + 1]);
        lemma_first_free_slot_none(inv.drop_first());
    }
}

} // verus!
