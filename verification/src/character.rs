//! Characters: the stat base and skill bindings a player is created from.

use vstd::prelude::*;

use crate::config::ConfigError;
use crate::skill::{SkillConfig, SkillConfigV};

verus! {

/// A character as it stands in the configuration document, its skills
/// bound by slot key to skill names.
#[derive(Debug)]
pub struct CharacterConfigFile {
    pub name: String,
    pub active: bool,
    pub base_speed: u64,
    pub base_size: u64,
    pub base_health: u64,
    pub max_inventory_size: u64,
    pub burst_loads: u64,
    pub skills: Vec<(String, String)>,
}

/// One resolved skill binding: the slot key and the skill it fires.
#[derive(Debug)]
pub struct SkillSlot {
    pub key: String,
    pub skill: SkillConfig,
}

/// The mathematical shadow of a [`SkillSlot`].
#[verifier::ext_equal]
pub ghost struct SkillSlotV {
    pub key: Seq<char>,
    pub skill: SkillConfigV,
}

impl DeepView for SkillSlot {
    type V = SkillSlotV;

    open spec fn deep_view(&self) -> SkillSlotV {
        SkillSlotV { key: self.key.deep_view(), skill: self.skill.deep_view() }
    }
}

impl Clone for SkillSlot {
    fn clone(&self) -> (r: Self)
        ensures
            r.deep_view() == self.deep_view(),
    {
        let r = SkillSlot { key: self.key.clone(), skill: self.skill.clone() };
        proof {
            assert(r.deep_view() =~= self.deep_view());
        }
        r
    }
}

/// A character with its skill bindings resolved: each slot key carries the
/// skill it fires.
#[derive(Debug)]
pub struct CharacterConfig {
    pub name: String,
    pub active: bool,
    pub base_speed: u64,
    pub base_size: u64,
    pub base_health: u64,
    pub max_inventory_size: u64,
    pub burst_loads: u64,
    pub skills: Vec<SkillSlot>,
}

/// The mathematical shadow of a [`CharacterConfig`].
#[verifier::ext_equal]
pub ghost struct CharacterConfigV {
    pub name: Seq<char>,
    pub active: bool,
    pub base_speed: u64,
    pub base_size: u64,
    pub base_health: u64,
    pub max_inventory_size: u64,
    pub burst_loads: u64,
    pub skills: Seq<SkillSlotV>,
}

impl DeepView for CharacterConfig {
    type V = CharacterConfigV;

    open spec fn deep_view(&self) -> CharacterConfigV {
        CharacterConfigV {
            name: self.name.deep_view(),
            active: self.active,
            base_speed: self.base_speed,
            base_size: self.base_size,
            base_health: self.base_health,
            max_inventory_size: self.max_inventory_size,
            burst_loads: self.burst_loads,
            skills: self.skills.deep_view(),
        }
    }
}

fn clone_bindings(v: &Vec<SkillSlot>) -> (r: Vec<SkillSlot>)
    ensures
        r.deep_view() == v.deep_view(),
{
    let r = v.clone();
    proof {
        assert(r.deep_view() =~= v.deep_view());
    }
    r
}

impl Clone for CharacterConfig {
    fn clone(&self) -> (r: Self)
        ensures
            r.deep_view() == self.deep_view(),
    {
        let r = CharacterConfig {
            name: self.name.clone(),
            active: self.active,
            base_speed: self.base_speed,
            base_size: self.base_size,
            base_health: self.base_health,
            max_inventory_size: self.max_inventory_size,
            burst_loads: self.burst_loads,
            skills: clone_bindings(&self.skills),
        };
        proof {
            assert(r.deep_view() =~= self.deep_view());
        }
        r
    }
}

/// `j` is the index of the first skill named `name`.
pub open spec fn skill_first_match(ss: Seq<SkillConfigV>, name: Seq<char>, j: int) -> bool {
    &&& 0 <= j < ss.len()
    &&& ss[j].name == name
    &&& forall|k: int| 0 <= k < j ==> (#[trigger] ss[k]).name != name
}

/// The index of the first skill named `name`, or `-1` when there is none.
pub open spec fn first_skill_index(ss: Seq<SkillConfigV>, name: Seq<char>) -> int
    decreases ss.len(),
{
    if ss.len() == 0 {
        -1
    } else if ss[0].name == name {
        0
    } else {
        let r = first_skill_index(ss.drop_first(), name);
        if r < 0 {
            -1
        } else {
            1 + r
        }
    }
}

pub proof fn lemma_first_skill_index_of_match(ss: Seq<SkillConfigV>, name: Seq<char>, j: int)
    requires
        skill_first_match(ss, name, j),
    ensures
        first_skill_index(ss, name) == j,
    decreases ss.len(),
{
    if j == 0 {
    } else {
        assert(ss[0].name != name);
        assert(skill_first_match(ss.drop_first(), name, j - 1)) by {
            assert(ss.drop_first()[j - 1] == ss[j]);
            assert(forall|k: int|
                0 <= k < j - 1 ==> #[trigger] ss.drop_first()[k] == ss[k + 1]);
        }
        lemma_first_skill_index_of_match(ss.drop_first(), name, j - 1);
    }
}

/// A non-negative first index is a match.
pub proof fn lemma_first_index_gives_match(ss: Seq<SkillConfigV>, name: Seq<char>)
    requires
        first_skill_index(ss, name) >= 0,
    ensures
        0 <= first_skill_index(ss, name) < ss.len(),
        ss[first_skill_index(ss, name)].name == name,
    decreases ss.len(),
{
    if ss.len() == 0 {
    } else if ss[0].name == name {
    } else {
        lemma_first_index_gives_match(ss.drop_first(), name);
        assert(ss.drop_first()[first_skill_index(ss.drop_first(), name)] == ss[first_skill_index(
            ss, name)]);
    }
}

fn find_skill<'a>(skills: &'a Vec<SkillConfig>, name: &String) -> (r: Option<&'a SkillConfig>)
    ensures
        match r {
            Some(s) => exists|j: int|
                skill_first_match(skills.deep_view(), name@, j) && s.deep_view()
                    == skills.deep_view()[j],
            None => forall|k: int|
                0 <= k < skills.deep_view().len() ==> (#[trigger] skills.deep_view()[k]).name
                    != name@,
        },
{
    let mut i: usize = 0;
    while i < skills.len()
        invariant
            0 <= i <= skills@.len(),
            forall|k: int| 0 <= k < i ==> (#[trigger] skills.deep_view()[k]).name != name@,
        decreases skills@.len() - i,
    {
        proof {
            assert(skills.deep_view()[i as int] == skills@[i as int].deep_view());
        }
        if skills[i].name.eq(name) {
            proof {
                assert(skill_first_match(skills.deep_view(), name@, i as int));
            }
            return Some(&skills[i]);
        }
        i = i + 1;
    }
    None
}

/// The character a configuration entry resolves to: each binding carries
/// the first skill of its name.
pub open spec fn resolve_character(f: CharacterConfigFile, skills: Seq<SkillConfigV>)
    -> CharacterConfigV {
    CharacterConfigV {
        name: f.name@,
        active: f.active,
        base_speed: f.base_speed,
        base_size: f.base_size,
        base_health: f.base_health,
        max_inventory_size: f.max_inventory_size,
        burst_loads: f.burst_loads,
        skills: Seq::new(
            f.skills@.len(),
            |b: int| SkillSlotV {
                key: f.skills@[b].0@,
                skill: skills[first_skill_index(skills, f.skills@[b].1@)],
            },
        ),
    }
}

pub open spec fn resolve_characters(files: Seq<CharacterConfigFile>, skills: Seq<SkillConfigV>)
    -> Seq<CharacterConfigV> {
    Seq::new(files.len(), |i: int| resolve_character(files[i], skills))
}

/// Every binding of the character names a skill that exists.
pub open spec fn character_resolvable(f: CharacterConfigFile, skills: Seq<SkillConfigV>) -> bool {
    forall|b: int|
        0 <= b < f.skills@.len() ==> first_skill_index(skills, (#[trigger] f.skills@[b]).1@) >= 0
}

/// The index of the first binding with the given slot key, or `-1`.
pub open spec fn slot_index_by_key(slots: Seq<SkillSlotV>, key: Seq<char>) -> int
    decreases slots.len(),
{
    if slots.len() == 0 {
        -1
    } else if slots[0].key == key {
        0
    } else {
        let r = slot_index_by_key(slots.drop_first(), key);
        if r < 0 {
            -1
        } else {
            1 + r
        }
    }
}

proof fn lemma_slot_index_of_match(slots: Seq<SkillSlotV>, key: Seq<char>, j: int)
    requires
        0 <= j < slots.len(),
        slots[j].key == key,
        forall|k: int| 0 <= k < j ==> (#[trigger] slots[k]).key != key,
    ensures
        slot_index_by_key(slots, key) == j,
    decreases slots.len(),
{
    if j == 0 {
    } else {
        assert(slots.drop_first()[j - 1] == slots[j]);
        assert(forall|k: int| 0 <= k < j - 1 ==> #[trigger] slots.drop_first()[k] == slots[k + 1]);
        lemma_slot_index_of_match(slots.drop_first(), key, j - 1);
    }
}

proof fn lemma_slot_index_none(slots: Seq<SkillSlotV>, key: Seq<char>)
    requires
        forall|k: int| 0 <= k < slots.len() ==> (#[trigger] slots[k]).key != key,
    ensures
        slot_index_by_key(slots, key) == -1,
    decreases slots.len(),
{
    if slots.len() == 0 {
    } else {
        assert(forall|k: int|
            0 <= k < slots.drop_first().len() ==> #[trigger] slots.drop_first()[k] == slots[k
                + 1]);
        lemma_slot_index_none(slots.drop_first(), key);
    }
}

impl CharacterConfig {
    /// The skill bound to the given slot key.
    pub fn skill_by_key<'a>(&'a self, key: &String) -> (r: Option<&'a SkillConfig>)
        ensures
            ({
                let idx = slot_index_by_key(self.deep_view().skills, key@);
                match r {
                    Some(s) => 0 <= idx < self.deep_view().skills.len() && s.deep_view()
                        == self.deep_view().skills[idx].skill,
                    None => idx < 0,
                }
            }),
    {
        let mut i: usize = 0;
        while i < self.skills.len()
            invariant
                0 <= i <= self.skills@.len(),
                forall|k: int|
                    0 <= k < i ==> (#[trigger] self.deep_view().skills[k]).key != key@,
            decreases self.skills@.len() - i,
        {
            proof {
                assert(self.deep_view().skills[i as int] == self.skills@[i as int].deep_view());
            }
            if self.skills[i].key.eq(key) {
                proof {
                    lemma_slot_index_of_match(self.deep_view().skills, key@, i as int);
                }
                return Some(&self.skills[i].skill);
            }
            i = i + 1;
        }
        proof {
            lemma_slot_index_none(self.deep_view().skills, key@);
        }
        None
    }
}

impl CharacterConfig {
    /// Resolves the skill bindings of every character. A binding that
    /// names an unknown skill is a configuration error.
    pub fn from_config_file(characters: &Vec<CharacterConfigFile>, skills: &Vec<SkillConfig>) -> (r:
        Result<Vec<CharacterConfig>, ConfigError>)
        ensures
            match r {
                Ok(v) => {
                    &&& v.deep_view() == resolve_characters(characters@, skills.deep_view())
                    &&& forall|i: int|
                        0 <= i < characters@.len() ==> character_resolvable(
                            #[trigger] characters@[i],
                            skills.deep_view(),
                        )
                },
                Err(e) => {
                    &&& e == ConfigError::UnknownSkill
                    &&& exists|i: int|
                        0 <= i < characters@.len() && !character_resolvable(
                            #[trigger] characters@[i],
                            skills.deep_view(),
                        )
                },
            },
    {
        let mut out: Vec<CharacterConfig> = Vec::new();
        let mut i: usize = 0;
        while i < characters.len()
            invariant
                0 <= i <= characters@.len(),
                out@.len() == i,
                out.deep_view() =~= resolve_characters(characters@, skills.deep_view()).take(
                    i as int,
                ),
                forall|k: int|
                    0 <= k < i ==> character_resolvable(
                        #[trigger] characters@[k],
                        skills.deep_view(),
                    ),
            decreases characters@.len() - i,
        {
            let config = &characters[i];
            let mut bound: Vec<SkillSlot> = Vec::new();
            let ghost goal = resolve_character(characters@[i as int], skills.deep_view());
            let mut b: usize = 0;
            while b < config.skills.len()
                invariant
                    0 <= b <= config.skills@.len(),
                    bound@.len() == b,
                    goal == resolve_character(characters@[i as int], skills.deep_view()),
                    0 <= i < characters@.len(),
                    config == &characters@[i as int],
                    bound.deep_view() =~= goal.skills.take(b as int),
                    forall|k: int|
                        0 <= k < b ==> first_skill_index(
                            skills.deep_view(),
                            (#[trigger] config.skills@[k]).1@,
                        ) >= 0,
                decreases config.skills@.len() - b,
            {
                let binding = &config.skills[b];
                match find_skill(skills, &binding.1) {
                    Some(skill) => {
                        let copy = SkillSlot { key: binding.0.clone(), skill: skill.clone() };
                        proof {
                            let j = choose|j: int|
                                skill_first_match(skills.deep_view(), binding.1@, j)
                                    && skill.deep_view() == skills.deep_view()[j];
                            lemma_first_skill_index_of_match(skills.deep_view(), binding.1@, j);
                        }
                        bound.push(copy);
                        proof {
                            assert(bound.deep_view()[b as int] == bound@[b as int].deep_view());
                            assert(bound@[b as int].deep_view() =~= goal.skills[b as int]);
                            assert(bound.deep_view() =~= goal.skills.take(b + 1));
                        }
                    },
                    None => {
                        proof {
                            if first_skill_index(skills.deep_view(), binding.1@) >= 0 {
                                lemma_first_index_gives_match(skills.deep_view(), binding.1@);
                            }
                            assert(!character_resolvable(characters@[i as int],
                                skills.deep_view()));
                        }
                        return Err(ConfigError::UnknownSkill);
                    },
                }
                b = b + 1;
            }
            out.push(CharacterConfig {
                name: config.name.clone(),
                active: config.active,
                base_speed: config.base_speed,
                base_size: config.base_size,
                base_health: config.base_health,
                max_inventory_size: config.max_inventory_size,
                burst_loads: config.burst_loads,
                skills: bound,
            });
            proof {
                assert(out.deep_view()[i as int] == out@[i as int].deep_view());
                assert(goal.skills.take(config.skills@.len() as int) =~= goal.skills);
                assert(out@[i as int].deep_view() =~= goal);
                assert(out.deep_view() =~= resolve_characters(characters@,
                    skills.deep_view()).take(i + 1));
                assert(character_resolvable(characters@[i as int], skills.deep_view()));
            }
            i = i + 1;
        }
        proof {
            assert(resolve_characters(characters@, skills.deep_view()).take(
                characters@.len() as int) =~= resolve_characters(characters@, skills.deep_view()));
        }
        Ok(out)
    }
}

} // verus!
