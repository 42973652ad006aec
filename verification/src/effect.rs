//! Effects: named bundles of attribute changes that are applied to players
//! (and read by skills), together with the arithmetic of applying and
//! reverting a single attribute change.
//!
//! Multiplicative factors are fixed-point values in thousandths, so applying
//! and reverting changes is exact integer arithmetic.

use vstd::prelude::*;

verus! {

/// The player stats an attribute change can address. `Damage` has no stored
/// player field; it scales `Hit` skills when those read the caster's effects.
#[derive(Clone, Copy, Debug, PartialEq, Eq, Structural)]
pub enum Attribute {
    Speed,
    Size,
    Health,
    Damage,
}

#[derive(Clone, Copy, Debug, PartialEq, Eq, Structural)]
pub enum AttributeModifier {
    Additive,
    Multiplicative,
    Override,
}

/// One change of one attribute. For `Additive` the value is the signed
/// amount; for `Multiplicative` it is the factor in thousandths; for
/// `Override` it is the new value itself.
#[derive(Clone, Copy, Debug, PartialEq, Eq, Structural)]
pub struct AttributeChange {
    pub attribute: Attribute,
    pub modifier: AttributeModifier,
    pub value: i64,
}

/// When and how often an effect acts.
#[derive(Clone, Copy, Debug, PartialEq, Eq, Structural)]
pub enum TimeType {
    Instant,
    Permanent,
    Duration { duration_ms: u64 },
    Periodic {
        instant_application: bool,
        interval_ms: u64,
        trigger_count: u64,
        time_since_last_trigger: u64,
    },
}

#[derive(Debug)]
pub struct Effect {
    pub name: String,
    pub is_reversable: bool,
    pub effect_time_type: TimeType,
    pub player_attributes: Vec<AttributeChange>,
    pub projectile_attributes: Vec<AttributeChange>,
    pub skills_keys_to_execute: Vec<String>,
}

/// A change the engine can apply without faulting: multiplicative factors
/// and override values are never negative.
pub open spec fn change_wf(c: AttributeChange) -> bool {
    match c.modifier {
        AttributeModifier::Additive => true,
        AttributeModifier::Multiplicative => c.value >= 0,
        AttributeModifier::Override => c.value >= 0,
    }
}

/// A change that can also be reverted: an override stores no prior value,
/// and only a positive factor can be divided out again.
pub open spec fn change_revertible(c: AttributeChange) -> bool {
    match c.modifier {
        AttributeModifier::Additive => true,
        AttributeModifier::Multiplicative => c.value > 0,
        AttributeModifier::Override => false,
    }
}

pub open spec fn effect_wf(e: Effect) -> bool {
    &&& forall|i: int|
        0 <= i < e.player_attributes.len() ==> change_wf(#[trigger] e.player_attributes[i])
    &&& e.is_reversable ==> forall|i: int|
        0 <= i < e.player_attributes.len() ==> change_revertible(
            #[trigger] e.player_attributes[i],
        )
}

/// The attribute value after applying one change, saturating at the `u64`
/// bounds exactly where the engine does.
pub open spec fn spec_modify(attr: int, modifier: AttributeModifier, value: int) -> int {
    match modifier {
        AttributeModifier::Additive => {
            if attr + value > u64::MAX {
                u64::MAX as int
            } else if attr + value < 0 {
                0
            } else {
                attr + value
            }
        },
        AttributeModifier::Multiplicative => {
            let scaled = (attr * value) / 1000;
            if scaled > u64::MAX {
                u64::MAX as int
            } else {
                scaled
            }
        },
        AttributeModifier::Override => value,
    }
}

/// The attribute value after reverting one change.
pub open spec fn spec_revert(attr: int, modifier: AttributeModifier, value: int) -> int {
    match modifier {
        AttributeModifier::Additive => {
            if attr - value < 0 {
                0
            } else if attr - value > u64::MAX {
                u64::MAX as int
            } else {
                attr - value
            }
        },
        AttributeModifier::Multiplicative => {
            let scaled = (attr * 1000) / value;
            if scaled > u64::MAX {
                u64::MAX as int
            } else {
                scaled
            }
        },
        AttributeModifier::Override => attr,
    }
}

/// Applies one attribute change to a stat, saturating at the `u64` bounds.
pub fn modify_attribute(attribute_value: &mut u64, change: &AttributeChange)
    requires
        change_wf(*change),
    ensures
        *final(attribute_value) == spec_modify(
            *old(attribute_value) as int,
            change.modifier,
            change.value as int,
        ),
{
    match change.modifier {
        AttributeModifier::Additive => {
            if change.value >= 0 {
                let add: u64 = change.value as u64;
                if *attribute_value <= u64::MAX - add {
                    *attribute_value = *attribute_value + add;
                } else {
                    *attribute_value = u64::MAX;
                }
            } else {
                let sub: u64 = if change.value == i64::MIN {
                    0x8000_0000_0000_0000u64
                } else {
                    (-change.value) as u64
                };
                if *attribute_value >= sub {
                    *attribute_value = *attribute_value - sub;
                } else {
                    *attribute_value = 0;
                }
            }
        },
        AttributeModifier::Multiplicative => {
            proof {
                let a: int = *attribute_value as int;
                let b: int = change.value as int;
                assert(0 <= a * b <= u128::MAX) by (nonlinear_arith)
                    requires
                        0 <= a <= u64::MAX,
                        0 <= b <= i64::MAX,
                ;
            }
            let prod: u128 = (*attribute_value as u128) * (change.value as u128);
            let scaled: u128 = prod / 1000;
            if scaled > u64::MAX as u128 {
                *attribute_value = u64::MAX;
            } else {
                *attribute_value = scaled as u64;
            }
        },
        AttributeModifier::Override => {
            *attribute_value = change.value as u64;
        },
    }
}

/// Reverts one attribute change on a stat; the change must be revertible.
pub fn revert_attribute(attribute_value: &mut u64, change: &AttributeChange)
    requires
        change_revertible(*change),
    ensures
        *final(attribute_value) == spec_revert(
            *old(attribute_value) as int,
            change.modifier,
            change.value as int,
        ),
{
    match change.modifier {
        AttributeModifier::Additive => {
            if change.value >= 0 {
                let sub: u64 = change.value as u64;
                if *attribute_value >= sub {
                    *attribute_value = *attribute_value - sub;
                } else {
                    *attribute_value = 0;
                }
            } else {
                let add: u64 = if change.value == i64::MIN {
                    0x8000_0000_0000_0000u64
                } else {
                    (-change.value) as u64
                };
                if *attribute_value <= u64::MAX - add {
                    *attribute_value = *attribute_value + add;
                } else {
                    *attribute_value = u64::MAX;
                }
            }
        },
        AttributeModifier::Multiplicative => {
            let prod: u128 = (*attribute_value as u128) * 1000;
            let scaled: u128 = prod / (change.value as u128);
            if scaled > u64::MAX as u128 {
                *attribute_value = u64::MAX;
            } else {
                *attribute_value = scaled as u64;
            }
        },
        AttributeModifier::Override => {
        },
    }
}

/// The mathematical shadow of an [`Effect`]: its fields as sequences.
#[verifier::ext_equal]
pub ghost struct EffectV {
    pub name: Seq<char>,
    pub is_reversable: bool,
    pub effect_time_type: TimeType,
    pub player_attributes: Seq<AttributeChange>,
    pub projectile_attributes: Seq<AttributeChange>,
    pub skills_keys_to_execute: Seq<Seq<char>>,
}

impl DeepView for AttributeChange {
    type V = AttributeChange;

    open spec fn deep_view(&self) -> AttributeChange {
        *self
    }
}

impl DeepView for Effect {
    type V = EffectV;

    open spec fn deep_view(&self) -> EffectV {
        EffectV {
            name: self.name.deep_view(),
            is_reversable: self.is_reversable,
            effect_time_type: self.effect_time_type,
            player_attributes: self.player_attributes.deep_view(),
            projectile_attributes: self.projectile_attributes.deep_view(),
            skills_keys_to_execute: self.skills_keys_to_execute.deep_view(),
        }
    }
}

pub open spec fn effect_v_wf(e: EffectV) -> bool {
    &&& forall|i: int| 0 <= i < e.player_attributes.len() ==> change_wf(#[trigger] e.player_attributes[i])
    &&& e.is_reversable ==> forall|i: int|
        0 <= i < e.player_attributes.len() ==> change_revertible(#[trigger] e.player_attributes[i])
}

impl Clone for Effect {
    fn clone(&self) -> (r: Self)
        ensures
            r.deep_view() == self.deep_view(),
    {
        let r = Effect {
            name: self.name.clone(),
            is_reversable: self.is_reversable,
            effect_time_type: self.effect_time_type,
            player_attributes: self.player_attributes.clone(),
            projectile_attributes: self.projectile_attributes.clone(),
            skills_keys_to_execute: self.skills_keys_to_execute.clone(),
        };
        proof {
            assert(r.player_attributes.deep_view() =~= self.player_attributes.deep_view());
            assert(r.projectile_attributes.deep_view() =~= self.projectile_attributes.deep_view());
            assert(r.skills_keys_to_execute.deep_view() =~= self.skills_keys_to_execute.deep_view());
            assert(r.deep_view() =~= self.deep_view());
        }
        r
    }
}

/// A copy of a list of effects; the model values are unchanged.
pub fn clone_effects(v: &Vec<Effect>) -> (r: Vec<Effect>)
    ensures
        r.deep_view() == v.deep_view(),
{
    let r = v.clone();
    proof {
        assert(r.deep_view() =~= v.deep_view());
    }
    r
}

/// A copy of a list of names; the model values are unchanged.
pub fn clone_strings(v: &Vec<String>) -> (r: Vec<String>)
    ensures
        r.deep_view() == v.deep_view(),
{
    let r = v.clone();
    proof {
        assert(r.deep_view() =~= v.deep_view());
    }
    r
}

/// Whether `names` holds the name `n`.
pub open spec fn name_in(names: Seq<Seq<char>>, n: Seq<char>) -> bool {
    exists|i: int| 0 <= i < names.len() && names[i] == n
}

/// The effects of `effects`, in order, whose names occur in `names`.
pub open spec fn effects_named(effects: Seq<EffectV>, names: Seq<Seq<char>>) -> Seq<EffectV>
    decreases effects.len(),
{
    if effects.len() == 0 {
        Seq::empty()
    } else {
        let rest = effects_named(effects.drop_last(), names);
        if name_in(names, effects.last().name) {
            rest.push(effects.last())
        } else {
            rest
        }
    }
}

pub fn name_list_contains(names: &Vec<String>, n: &String) -> (r: bool)
    ensures
        r == name_in(names.deep_view(), n@),
{
    let mut i: usize = 0;
    while i < names.len()
        invariant
            0 <= i <= names.len(),
            forall|k: int| 0 <= k < i ==> names.deep_view()[k] != n@,
        decreases names.len() - i,
    {
        proof {
            assert(names.deep_view()[i as int] == names@[i as int]@);
        }
        if names[i].eq(n) {
            return true;
        }
        i = i + 1;
    }
    false
}

/// All effects whose names occur in `names`, keeping the order of `effects`.
/// This is how configuration cross-references are resolved.
pub fn select_effects_by_name(effects: &Vec<Effect>, names: &Vec<String>) -> (r: Vec<Effect>)
    ensures
        r.deep_view() == effects_named(effects.deep_view(), names.deep_view()),
{
    let mut out: Vec<Effect> = Vec::new();
    let mut i: usize = 0;
    while i < effects.len()
        invariant
            0 <= i <= effects.len(),
            out.deep_view() == effects_named(effects.deep_view().take(i as int), names.deep_view()),
        decreases effects.len() - i,
    {
        proof {
            assert(effects.deep_view().take(i + 1).drop_last() =~= effects.deep_view().take(
                i as int));
            assert(effects.deep_view().take(i + 1).last() == effects@[i as int].deep_view());
        }
        if name_list_contains(names, &effects[i].name) {
            let e = effects[i].clone();
            out.push(e);
            proof {
                assert(out.deep_view() =~= effects_named(effects.deep_view().take(i + 1),
                    names.deep_view()));
            }
        } else {
            proof {
                assert(out.deep_view() =~= effects_named(effects.deep_view().take(i + 1),
                    names.deep_view()));
            }
        }
        i = i + 1;
    }
    proof {
        assert(effects.deep_view().take(effects.deep_view().len() as int) =~= effects.deep_view());
    }
    out
}

/// Applying an additive change and then reverting it restores the stat
/// exactly, whichever sign the change has, as long as the addition itself
/// did not saturate at either end.
pub proof fn lemma_additive_round_trip(attr: int, value: int)
    requires
        0 <= attr <= u64::MAX,
        -0x8000_0000_0000_0000 <= value < 0x8000_0000_0000_0000,
        0 <= attr + value <= u64::MAX,
    ensures
        spec_revert(
            spec_modify(attr, AttributeModifier::Additive, value),
            AttributeModifier::Additive,
            value,
        ) == attr,
{
}

} // verus!
