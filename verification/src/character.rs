//! A character sheet: attributes, skills, combat techniques, spells and
//! chants with their levels, and the levels that are derived from them.

use crate::text::{eq_ignore_ascii_case, same_ignoring_ascii_case};
use vstd::prelude::*;

pub mod default;

verus! {

/// An ability that is either one of the rule book, named by its id, or one of
/// the character's own, with the attributes it is checked against.
#[derive(Debug)]
pub enum IdOrCustomInfo {
    Id(String),
    RuleElement { name: String, attributes: Vec<String> },
}

/// A combat technique that is either one of the rule book, named by its id,
/// or one of the character's own.
#[derive(Debug)]
pub enum IdOrCustomId {
    Id(String),
    RuleElement { name: String },
}

#[derive(Debug)]
pub struct CharacterSkill {
    pub id: String,
    pub level: i64,
}

#[derive(Debug)]
pub struct CharacterAttribute {
    pub id: String,
    pub level: i64,
}

#[derive(Debug)]
pub struct CharacterCombatTechnique {
    pub id_or_custom_id: IdOrCustomId,
    pub level: i64,
}

#[derive(Debug)]
pub struct CharacterSpell {
    pub id_or_rule_element: IdOrCustomInfo,
    pub level: Option<i64>,
}

#[derive(Debug)]
pub struct CharacterChant {
    pub id_or_rule_element: IdOrCustomInfo,
    pub level: Option<i64>,
}

#[derive(Debug)]
pub struct Character {
    pub name: String,
    pub attributes: Vec<CharacterAttribute>,
    pub skills: Vec<CharacterSkill>,
    pub combattechniques: Vec<CharacterCombatTechnique>,
    pub spells: Vec<CharacterSpell>,
    pub chants: Vec<CharacterChant>,
}

/// The level a combat technique has when the sheet does not list it.
pub const UNTRAINED_TECHNIQUE_LEVEL: i64 = 6;

/// The first place from `from` on where `names` holds `wanted`, up to the
/// case of letters; the length of `names` if there is none.
pub open spec fn first_named(names: Seq<Seq<char>>, wanted: Seq<char>, from: int) -> int
    decreases names.len() - from,
{
    if from >= names.len() {
        names.len() as int
    } else if same_ignoring_ascii_case(names[from], wanted) {
        from
    } else {
        first_named(names, wanted, from + 1)
    }
}

/// The level listed with the first of `names` that is `wanted`, or
/// `otherwise` if none is.
pub open spec fn level_of(
    names: Seq<Seq<char>>,
    levels: Seq<i64>,
    wanted: Seq<char>,
    otherwise: i64,
) -> i64 {
    let place = first_named(names, wanted, 0);
    if place < names.len() {
        levels[place]
    } else {
        otherwise
    }
}

/// `x` divided by `d`, rounded towards zero.
pub open spec fn div_towards_zero(x: int, d: int) -> int {
    if x >= 0 {
        x / d
    } else {
        -((-x) / d)
    }
}

/// The bonus that a leading attribute of level `level` gives in combat: a
/// third of what it has above 8.
pub open spec fn combat_bonus(level: int) -> int {
    if level > 8 {
        (level - 8) / 3
    } else {
        0
    }
}

impl IdOrCustomInfo {
    /// The name the ability goes by.
    pub open spec fn spec_name(&self) -> Seq<char> {
        match self {
            IdOrCustomInfo::Id(id) => id@,
            IdOrCustomInfo::RuleElement { name, .. } => name@,
        }
    }

    /// Tells whether the ability goes by `input_name`, up to the case of
    /// letters.
    pub fn matches_name(&self, input_name: &str) -> (same: bool)
        ensures
            same == same_ignoring_ascii_case(self.spec_name(), input_name@),
    {
        match self {
            IdOrCustomInfo::Id(id) => eq_ignore_ascii_case(id.as_str(), input_name),
            IdOrCustomInfo::RuleElement { name, .. } => eq_ignore_ascii_case(
                name.as_str(),
                input_name,
            ),
        }
    }
}

impl IdOrCustomId {
    /// The name the technique goes by.
    pub open spec fn spec_name(&self) -> Seq<char> {
        match self {
            IdOrCustomId::Id(id) => id@,
            IdOrCustomId::RuleElement { name } => name@,
        }
    }

    /// Tells whether the technique goes by `input_name`, up to the case of
    /// letters.
    pub fn matches_name(&self, input_name: &str) -> (same: bool)
        ensures
            same == same_ignoring_ascii_case(self.spec_name(), input_name@),
    {
        match self {
            IdOrCustomId::Id(id) => eq_ignore_ascii_case(id.as_str(), input_name),
            IdOrCustomId::RuleElement { name } => eq_ignore_ascii_case(name.as_str(), input_name),
        }
    }
}

/// The ids of the attributes, in the order of the sheet.
pub open spec fn attribute_names(attributes: Seq<CharacterAttribute>) -> Seq<Seq<char>> {
    Seq::new(attributes.len(), |i: int| attributes[i].id@)
}

/// The levels of the attributes, in the order of the sheet.
pub open spec fn attribute_levels(attributes: Seq<CharacterAttribute>) -> Seq<i64> {
    Seq::new(attributes.len(), |i: int| attributes[i].level)
}

pub open spec fn skill_names(skills: Seq<CharacterSkill>) -> Seq<Seq<char>> {
    Seq::new(skills.len(), |i: int| skills[i].id@)
}

pub open spec fn skill_levels(skills: Seq<CharacterSkill>) -> Seq<i64> {
    Seq::new(skills.len(), |i: int| skills[i].level)
}

pub open spec fn technique_names(techniques: Seq<CharacterCombatTechnique>) -> Seq<Seq<char>> {
    Seq::new(techniques.len(), |i: int| techniques[i].id_or_custom_id.spec_name())
}

pub open spec fn technique_levels(techniques: Seq<CharacterCombatTechnique>) -> Seq<i64> {
    Seq::new(techniques.len(), |i: int| techniques[i].level)
}

/// The level that counts for an ability whose level may be left out.
pub open spec fn level_or_zero(level: Option<i64>) -> i64 {
    match level {
        Some(l) => l,
        None => 0,
    }
}

pub open spec fn spell_names(spells: Seq<CharacterSpell>) -> Seq<Seq<char>> {
    Seq::new(spells.len(), |i: int| spells[i].id_or_rule_element.spec_name())
}

pub open spec fn spell_levels(spells: Seq<CharacterSpell>) -> Seq<i64> {
    Seq::new(spells.len(), |i: int| level_or_zero(spells[i].level))
}

pub open spec fn chant_names(chants: Seq<CharacterChant>) -> Seq<Seq<char>> {
    Seq::new(chants.len(), |i: int| chants[i].id_or_rule_element.spec_name())
}

pub open spec fn chant_levels(chants: Seq<CharacterChant>) -> Seq<i64> {
    Seq::new(chants.len(), |i: int| level_or_zero(chants[i].level))
}

/// The level of the last of the first `k` attributes that is called
/// `wanted`, up to the case of letters and unless it is also called
/// `unless`; 0 if there is none.
pub open spec fn last_level(
    attributes: Seq<CharacterAttribute>,
    wanted: Seq<char>,
    unless: Option<Seq<char>>,
    k: int,
) -> i64
    decreases k,
{
    if k <= 0 {
        0
    } else if same_ignoring_ascii_case(attributes[k - 1].id@, wanted) && !(unless matches Some(other)
        && same_ignoring_ascii_case(attributes[k - 1].id@, other)) {
        attributes[k - 1].level
    } else {
        last_level(attributes, wanted, unless, k - 1)
    }
}

/// The attribute id is one of `names`, up to the case of letters.
pub open spec fn named_among(id: Seq<char>, names: Seq<String>) -> bool {
    exists|j: int| 0 <= j < names.len() && same_ignoring_ascii_case(id, #[trigger] names[j]@)
}

/// The highest level among those of the first `k` attributes that are named
/// in `names`, and 0.
pub open spec fn best_level(attributes: Seq<CharacterAttribute>, names: Seq<String>, k: int) -> i64
    decreases k,
{
    if k <= 0 {
        0
    } else {
        let rest = best_level(attributes, names, k - 1);
        if named_among(attributes[k - 1].id@, names) && attributes[k - 1].level > rest {
            attributes[k - 1].level
        } else {
            rest
        }
    }
}

/// The names of the combat techniques among the first `k` that are the
/// character's own.
pub open spec fn custom_technique_names(techniques: Seq<CharacterCombatTechnique>, k: int) -> Seq<
    String,
>
    decreases k,
{
    if k <= 0 {
        Seq::empty()
    } else {
        match techniques[k - 1].id_or_custom_id {
            IdOrCustomId::Id(_) => custom_technique_names(techniques, k - 1),
            IdOrCustomId::RuleElement { name } => custom_technique_names(techniques, k - 1).push(
                name,
            ),
        }
    }
}

/// The abilities among `abilities` that are the character's own, each with
/// its name and the attributes it is checked against.
pub open spec fn custom_elements(abilities: Seq<IdOrCustomInfo>) -> Seq<(Seq<char>, Seq<String>)>
    decreases abilities.len(),
{
    if abilities.len() == 0 {
        Seq::empty()
    } else {
        match abilities.last() {
            IdOrCustomInfo::Id(_) => custom_elements(abilities.drop_last()),
            IdOrCustomInfo::RuleElement { name, attributes } => custom_elements(
                abilities.drop_last(),
            ).push((name@, attributes@)),
        }
    }
}

/// The names and attribute lists as plain sequences.
pub open spec fn element_views(elements: Seq<(String, Vec<String>)>) -> Seq<
    (Seq<char>, Seq<String>),
> {
    Seq::new(elements.len(), |i: int| (elements[i].0@, elements[i].1@))
}

/// A copy of the strings.
pub fn clone_strings(strings: &Vec<String>) -> (copy: Vec<String>)
    ensures
        copy@ == strings@,
{
    let mut copy: Vec<String> = Vec::new();
    let mut i: usize = 0;
    while i < strings.len()
        invariant
            i <= strings@.len(),
            copy@ == strings@.subrange(0, i as int),
        decreases strings@.len() - i,
    {
        copy.push(strings[i].clone());
        assert(copy@ =~= strings@.subrange(0, i + 1));
        i = i + 1;
    }
    assert(copy@ =~= strings@);
    copy
}

/// The own abilities among `abilities`, which are the spell or chant entries
/// of a sheet.
fn collect_custom(abilities: &Vec<&IdOrCustomInfo>) -> (found: Vec<(String, Vec<String>)>)
    ensures
        element_views(found@) == custom_elements(Seq::new(abilities@.len(), |i: int| *abilities@[i])),
{
    let ghost all = Seq::new(abilities@.len(), |i: int| *abilities@[i]);
    let mut found: Vec<(String, Vec<String>)> = Vec::new();
    let mut k: usize = 0;
    while k < abilities.len()
        invariant
            k <= abilities@.len(),
            all == Seq::new(abilities@.len(), |i: int| *abilities@[i]),
            element_views(found@) == custom_elements(all.take(k as int)),
        decreases abilities@.len() - k,
    {
        assert(all.take(k + 1).drop_last() =~= all.take(k as int));
        assert(all.take(k + 1).last() == *abilities@[k as int]);
        let ghost before = found@;
        match abilities[k] {
            IdOrCustomInfo::Id(_) => {},
            IdOrCustomInfo::RuleElement { name, attributes } => {
                found.push((name.clone(), clone_strings(attributes)));
                assert(element_views(found@) =~= element_views(before).push((name@, attributes@)));
            },
        }
        k = k + 1;
    }
    assert(all.take(k as int) =~= all);
    found
}

impl Character {
    pub fn get_name(&self) -> (name: &str)
        ensures
            name@ == self.name@,
    {
        self.name.as_str()
    }

    /// The level of the skill `skill_id`, 0 if the sheet does not list it.
    pub fn get_skill_level(&self, skill_id: &str) -> (level: i64)
        ensures
            level == level_of(skill_names(self.skills@), skill_levels(self.skills@), skill_id@, 0),
    {
        let ghost names = skill_names(self.skills@);
        let mut i: usize = 0;
        while i < self.skills.len()
            invariant
                i <= self.skills@.len(),
                names == skill_names(self.skills@),
                first_named(names, skill_id@, i as int) == first_named(names, skill_id@, 0),
            decreases self.skills@.len() - i,
        {
            if eq_ignore_ascii_case(self.skills[i].id.as_str(), skill_id) {
                return self.skills[i].level;
            }
            i = i + 1;
        }
        0
    }

    /// The level of the attribute `attr_id`, 0 if the sheet does not list it.
    pub fn get_attribute_level(&self, attr_id: &str) -> (level: i64)
        ensures
            level == level_of(
                attribute_names(self.attributes@),
                attribute_levels(self.attributes@),
                attr_id@,
                0,
            ),
    {
        let ghost names = attribute_names(self.attributes@);
        let mut i: usize = 0;
        while i < self.attributes.len()
            invariant
                i <= self.attributes@.len(),
                names == attribute_names(self.attributes@),
                first_named(names, attr_id@, i as int) == first_named(names, attr_id@, 0),
            decreases self.attributes@.len() - i,
        {
            if eq_ignore_ascii_case(self.attributes[i].id.as_str(), attr_id) {
                return self.attributes[i].level;
            }
            i = i + 1;
        }
        0
    }

    /// The level of the combat technique `technique_id`,
    /// [`UNTRAINED_TECHNIQUE_LEVEL`] if the sheet does not list it.
    pub fn get_technique_level(&self, technique_id: &str) -> (level: i64)
        ensures
            level == self.spec_technique_level(technique_id@),
    {
        let ghost names = technique_names(self.combattechniques@);
        let mut i: usize = 0;
        while i < self.combattechniques.len()
            invariant
                i <= self.combattechniques@.len(),
                names == technique_names(self.combattechniques@),
                first_named(names, technique_id@, i as int) == first_named(names, technique_id@, 0),
            decreases self.combattechniques@.len() - i,
        {
            if self.combattechniques[i].id_or_custom_id.matches_name(technique_id) {
                return self.combattechniques[i].level;
            }
            i = i + 1;
        }
        UNTRAINED_TECHNIQUE_LEVEL
    }

    pub open spec fn spec_technique_level(&self, technique_id: Seq<char>) -> i64 {
        level_of(
            technique_names(self.combattechniques@),
            technique_levels(self.combattechniques@),
            technique_id,
            UNTRAINED_TECHNIQUE_LEVEL,
        )
    }

    /// The attack level with a technique: its level plus the combat bonus of
    /// the attribute `mut`.
    pub open spec fn spec_attack_level(&self, technique_id: Seq<char>) -> int {
        self.spec_technique_level(technique_id) + combat_bonus(
            level_of(
                attribute_names(self.attributes@),
                attribute_levels(self.attributes@),
                "mut"@,
                0,
            ) as int,
        )
    }

    /// The attack level with the technique `technique_id`, unless it is
    /// beyond the range of 64-bit integers.
    pub fn checked_attack_level(&self, technique_id: &str) -> (level: Option<i64>)
        ensures
            level is Some <==> self.spec_attack_level(technique_id@) <= i64::MAX,
            level matches Some(l) ==> l == self.spec_attack_level(technique_id@),
    {
        let courage = self.get_attribute_level("mut");
        let bonus = if courage > 8 {
            (courage - 8) / 3
        } else {
            0
        };
        self.get_technique_level(technique_id).checked_add(bonus)
    }

    /// The attack level with the technique `technique_id`.
    pub fn get_attack_level(&self, technique_id: &str) -> (level: i64)
        requires
            self.spec_attack_level(technique_id@) <= i64::MAX,
        ensures
            level == self.spec_attack_level(technique_id@),
    {
        let courage = self.get_attribute_level("mut");
        let bonus = if courage > 8 {
            (courage - 8) / 3
        } else {
            0
        };
        self.get_technique_level(technique_id) + bonus
    }

    /// The level of the spell `spell_id`; 0 if the sheet does not list it or
    /// gives it no level.
    pub fn get_spell_level(&self, spell_id: &str) -> (level: i64)
        ensures
            level == level_of(spell_names(self.spells@), spell_levels(self.spells@), spell_id@, 0),
    {
        let ghost names = spell_names(self.spells@);
        let mut i: usize = 0;
        while i < self.spells.len()
            invariant
                i <= self.spells@.len(),
                names == spell_names(self.spells@),
                first_named(names, spell_id@, i as int) == first_named(names, spell_id@, 0),
            decreases self.spells@.len() - i,
        {
            if self.spells[i].id_or_rule_element.matches_name(spell_id) {
                return match self.spells[i].level {
                    Some(l) => l,
                    None => 0,
                };
            }
            i = i + 1;
        }
        0
    }

    /// The level of the chant `chant_id`; 0 if the sheet does not list it or
    /// gives it no level.
    pub fn get_chant_level(&self, chant_id: &str) -> (level: i64)
        ensures
            level == level_of(chant_names(self.chants@), chant_levels(self.chants@), chant_id@, 0),
    {
        let ghost names = chant_names(self.chants@);
        let mut i: usize = 0;
        while i < self.chants.len()
            invariant
                i <= self.chants@.len(),
                names == chant_names(self.chants@),
                first_named(names, chant_id@, i as int) == first_named(names, chant_id@, 0),
            decreases self.chants@.len() - i,
        {
            if self.chants[i].id_or_rule_element.matches_name(chant_id) {
                return match self.chants[i].level {
                    Some(l) => l,
                    None => 0,
                };
            }
            i = i + 1;
        }
        0
    }

    /// The dodge level: half the level of the attribute `gewandtheit`,
    /// rounded towards zero.
    pub fn get_dodge_level(&self) -> (level: i64)
        ensures
            level == div_towards_zero(
                level_of(
                    attribute_names(self.attributes@),
                    attribute_levels(self.attributes@),
                    "gewandtheit"@,
                    0,
                ) as int,
                2,
            ),
    {
        self.get_attribute_level("gewandtheit") / 2
    }

    /// The initiative level: the mean of the attributes `mut` and
    /// `gewandtheit`, rounded towards zero. Where the sheet lists one of
    /// them more than once, the last entry counts.
    pub fn get_initiative_level(&self) -> (level: i64)
        ensures
            level == div_towards_zero(
                last_level(self.attributes@, "mut"@, None, self.attributes@.len() as int)
                    + last_level(
                    self.attributes@,
                    "gewandtheit"@,
                    Some("mut"@),
                    self.attributes@.len() as int,
                ),
                2,
            ),
    {
        let mut courage: i64 = 0;
        let mut agility: i64 = 0;
        let mut i: usize = 0;
        while i < self.attributes.len()
            invariant
                i <= self.attributes@.len(),
                courage == last_level(self.attributes@, "mut"@, None, i as int),
                agility == last_level(self.attributes@, "gewandtheit"@, Some("mut"@), i as int),
            decreases self.attributes@.len() - i,
        {
            if eq_ignore_ascii_case(self.attributes[i].id.as_str(), "mut") {
                courage = self.attributes[i].level;
            } else if eq_ignore_ascii_case(self.attributes[i].id.as_str(), "gewandtheit") {
                agility = self.attributes[i].level;
            }
            i = i + 1;
        }
        ((courage as i128 + agility as i128) / 2) as i64
    }

    /// The parry level with a technique: half its level, rounded towards
    /// zero, plus the combat bonus of the best of the technique's leading
    /// attributes.
    pub fn get_parry_level(&self, technique_id: &str, technique_attributes: &Vec<String>) -> (level:
        i64)
        ensures
            level == div_towards_zero(self.spec_technique_level(technique_id@) as int, 2)
                + combat_bonus(
                best_level(
                    self.attributes@,
                    technique_attributes@,
                    self.attributes@.len() as int,
                ) as int,
            ),
    {
        let technique_level = self.get_technique_level(technique_id);
        let mut best: i64 = 0;
        let mut i: usize = 0;
        while i < self.attributes.len()
            invariant
                i <= self.attributes@.len(),
                best == best_level(self.attributes@, technique_attributes@, i as int),
                best >= 0,
            decreases self.attributes@.len() - i,
        {
            let mut named = false;
            let mut j: usize = 0;
            while j < technique_attributes.len()
                invariant
                    j <= technique_attributes@.len(),
                    i < self.attributes@.len(),
                    named == exists|x: int|
                        0 <= x < j && same_ignoring_ascii_case(
                            self.attributes@[i as int].id@,
                            #[trigger] technique_attributes@[x]@,
                        ),
                decreases technique_attributes@.len() - j,
            {
                if eq_ignore_ascii_case(
                    self.attributes[i].id.as_str(),
                    technique_attributes[j].as_str(),
                ) {
                    named = true;
                }
                j = j + 1;
            }
            assert(named == named_among(self.attributes@[i as int].id@, technique_attributes@));
            if named && self.attributes[i].level > best {
                best = self.attributes[i].level;
            }
            i = i + 1;
        }
        let bonus = if best > 8 {
            (best - 8) / 3
        } else {
            0
        };
        technique_level / 2 + bonus
    }

    /// The names of the combat techniques that are the character's own.
    pub fn get_custom_techniques(&self) -> (names: Vec<String>)
        ensures
            names@ == custom_technique_names(
                self.combattechniques@,
                self.combattechniques@.len() as int,
            ),
    {
        let mut names: Vec<String> = Vec::new();
        let mut k: usize = 0;
        while k < self.combattechniques.len()
            invariant
                k <= self.combattechniques@.len(),
                names@ == custom_technique_names(self.combattechniques@, k as int),
            decreases self.combattechniques@.len() - k,
        {
            match &self.combattechniques[k].id_or_custom_id {
                IdOrCustomId::Id(_) => {},
                IdOrCustomId::RuleElement { name } => {
                    names.push(name.clone());
                },
            }
            k = k + 1;
        }
        names
    }

    /// The spells that are the character's own, each with its name and the
    /// attributes it is checked against.
    pub fn get_custom_spells(&self) -> (found: Vec<(String, Vec<String>)>)
        ensures
            element_views(found@) == custom_elements(
                Seq::new(self.spells@.len(), |i: int| self.spells@[i].id_or_rule_element),
            ),
    {
        let mut abilities: Vec<&IdOrCustomInfo> = Vec::new();
        let mut i: usize = 0;
        while i < self.spells.len()
            invariant
                i <= self.spells@.len(),
                abilities@.len() == i,
                forall|j: int| 0 <= j < i ==> *#[trigger] abilities@[j] == self.spells@[j].id_or_rule_element,
            decreases self.spells@.len() - i,
        {
            abilities.push(&self.spells[i].id_or_rule_element);
            i = i + 1;
        }
        assert(Seq::new(abilities@.len(), |i: int| *abilities@[i]) =~= Seq::new(
            self.spells@.len(),
            |i: int| self.spells@[i].id_or_rule_element,
        ));
        collect_custom(&abilities)
    }

    /// The chants that are the character's own, each with its name and the
    /// attributes it is checked against.
    pub fn get_custom_chants(&self) -> (found: Vec<(String, Vec<String>)>)
        ensures
            element_views(found@) == custom_elements(
                Seq::new(self.chants@.len(), |i: int| self.chants@[i].id_or_rule_element),
            ),
    {
        let mut abilities: Vec<&IdOrCustomInfo> = Vec::new();
        let mut i: usize = 0;
        while i < self.chants.len()
            invariant
                i <= self.chants@.len(),
                abilities@.len() == i,
                forall|j: int| 0 <= j < i ==> *#[trigger] abilities@[j] == self.chants@[j].id_or_rule_element,
            decreases self.chants@.len() - i,
        {
            abilities.push(&self.chants[i].id_or_rule_element);
            i = i + 1;
        }
        assert(Seq::new(abilities@.len(), |i: int| *abilities@[i]) =~= Seq::new(
            self.chants@.len(),
            |i: int| self.chants@[i].id_or_rule_element,
        ));
        collect_custom(&abilities)
    }
}

} // verus!
