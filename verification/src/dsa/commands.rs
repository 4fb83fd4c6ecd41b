//! The checks a player can ask for: what is rolled against which levels for
//! an attribute, a skill, an attack, a spell, a chant, a dodge or a parry.

use crate::character::{
    attribute_levels, attribute_names, best_level, chant_levels, chant_names, clone_strings,
    combat_bonus, custom_elements, custom_technique_names, div_towards_zero, element_views,
    level_of, skill_levels, skill_names, spell_levels, spell_names, Character,
};
use crate::config::{
    found_name, names_of, AttributeConfig, CombatTechniqueConfig, Config, ConfigDSACritType, DSAData,
    SpellConfig, TalentConfig,
};
use crate::dice::Dice;
use crate::dsa::check::{
    is_resolvable, is_rolled_resolution, line_levels, resolvable, roll_check, AttributeLine,
    CheckKind, CheckResult, CritRule, Facilitation,
};
use crate::dsa::facilitation::{facilitation_fault_message, facilitation_of, get_facilitation};
use crate::text::{str_equal, string_views, text_of};
use crate::util::{invalid_argument, is_invalid_argument, Error};
use vstd::prelude::*;
use vstd::string::StringExecFns;

verus! {

/// What a player wrote when asking for a check.
#[derive(Debug)]
pub struct CheckArguments {
    /// The name, or part of the name, of what is to be checked. Checks that
    /// need no name pass it over.
    pub name: String,
    /// The modifier for all lines.
    pub facilitation: String,
    /// Modifiers for single attributes, as `name:amount` entries separated
    /// by commas.
    pub attribute_facilitation: Option<String>,
    /// Points added to the level of the skill.
    pub bonus_points: Option<String>,
}

/// A check that was rolled, with everything that went into it.
#[derive(Debug)]
pub struct CheckReport {
    pub check_name: String,
    pub character_name: String,
    pub lines: Vec<AttributeLine>,
    pub kind: CheckKind,
    pub crit_rule: CritRule,
    pub facilitation: Facilitation,
    pub result: CheckResult,
}

/// What is to be rolled for a check, in plain values.
pub struct CheckPlan {
    pub check_name: Seq<char>,
    pub labels: Seq<Seq<char>>,
    pub levels: Seq<i64>,
    pub kind: CheckKind,
    pub crit_rule: CritRule,
    pub modifiers: Seq<i64>,
    pub points_bonus: i64,
}

/// The message for levels and modifiers that a points counter cannot hold.
pub open spec fn out_of_range_message() -> Seq<char> {
    "Unable to roll check: "@ + "Levels and facilitation are out of range"@
}

/// What a player wrote about facilitation, as plain values.
pub open spec fn written(text: Option<String>) -> Option<Seq<char>> {
    match text {
        Some(t) => Some(t@),
        None => None,
    }
}

/// The plan for a check of the given lines, once the facilitation that the
/// player wrote is read.
pub open spec fn planned(
    check_name: Seq<char>,
    facilitation_labels: Seq<Seq<char>>,
    labels: Seq<Seq<char>>,
    levels: Seq<i64>,
    kind: CheckKind,
    crit_rule: CritRule,
    args: CheckArguments,
) -> Result<CheckPlan, Seq<char>> {
    match facilitation_of(
        args.facilitation@,
        written(args.attribute_facilitation),
        written(args.bonus_points),
        facilitation_labels,
    ) {
        Err(fault) => Err(facilitation_fault_message(fault)),
        Ok((modifiers, points_bonus)) => Ok(
            CheckPlan { check_name, labels, levels, kind, crit_rule, modifiers, points_bonus },
        ),
    }
}

/// The lines have the given labels and levels.
pub open spec fn lines_are(lines: Seq<AttributeLine>, labels: Seq<Seq<char>>, levels: Seq<i64>) -> bool {
    &&& lines.len() == labels.len()
    &&& lines.len() == levels.len()
    &&& forall|i: int|
        0 <= i < lines.len() ==> (#[trigger] lines[i]).label@ == labels[i] && lines[i].level
            == levels[i]
}

/// The report is one of a check that was rolled as planned.
pub open spec fn report_as_planned(report: CheckReport, character_name: Seq<char>, plan: CheckPlan) -> bool {
    &&& report.check_name@ == plan.check_name
    &&& report.character_name@ == character_name
    &&& lines_are(report.lines@, plan.labels, plan.levels)
    &&& report.kind == plan.kind
    &&& report.crit_rule == plan.crit_rule
    &&& report.facilitation.per_line_modifier@ == plan.modifiers
    &&& report.facilitation.points_bonus == plan.points_bonus
    &&& is_rolled_resolution(
        report.result,
        plan.levels,
        plan.kind,
        plan.crit_rule,
        plan.modifiers,
        plan.points_bonus,
    )
}

/// `result` is what asking for a check gives when `plan` is what the request
/// comes to: the error that the plan names; an error for a plan whose points
/// counter could leave its range; otherwise the report of a check rolled as
/// planned.
pub open spec fn follows_plan(
    result: Result<CheckReport, Error>,
    character_name: Seq<char>,
    plan: Result<CheckPlan, Seq<char>>,
) -> bool {
    match plan {
        Err(message) => result matches Err(e) && is_invalid_argument(e, message),
        Ok(plan) => if resolvable(plan.levels, plan.kind, plan.modifiers, plan.points_bonus) {
            result matches Ok(report) && report_as_planned(report, character_name, plan)
        } else {
            result matches Err(e) && is_invalid_argument(e, out_of_range_message())
        },
    }
}

/// The crit rule that checks with points are rolled with under the given
/// house rule.
pub open spec fn crit_rule_for(rules: ConfigDSACritType) -> CritRule {
    match rules {
        ConfigDSACritType::NoCrits => CritRule::NoCrits,
        ConfigDSACritType::DefaultCrits => CritRule::ThresholdCount(2),
        ConfigDSACritType::AlternativeCrits => CritRule::Confirmable,
    }
}

/// The place of the first attribute of the rule data from `from` on that is
/// called exactly `id`; the number of attributes if there is none.
pub open spec fn attribute_place(attributes: Seq<(String, AttributeConfig)>, id: Seq<char>, from: int) -> int
    decreases attributes.len() - from,
{
    if from >= attributes.len() {
        attributes.len() as int
    } else if attributes[from].0@ == id {
        from
    } else {
        attribute_place(attributes, id, from + 1)
    }
}

/// The short name that the rule data gives the attribute `id`; `id` itself
/// where the rule data does not know it.
pub open spec fn short_name_of(attributes: Seq<(String, AttributeConfig)>, id: Seq<char>) -> Seq<
    char,
> {
    let place = attribute_place(attributes, id, 0);
    if place < attributes.len() {
        attributes[place].1.short_name@
    } else {
        id
    }
}

/// The level the character has in the attribute `id`.
pub open spec fn attribute_level(character: Character, id: Seq<char>) -> i64 {
    level_of(
        attribute_names(character.attributes@),
        attribute_levels(character.attributes@),
        id,
        0,
    )
}

/// The labels of the lines for a check against the attributes `ids`.
pub open spec fn attribute_labels(dsa_data: DSAData, ids: Seq<Seq<char>>) -> Seq<Seq<char>> {
    Seq::new(ids.len(), |i: int| short_name_of(dsa_data.attributes@, ids[i]))
}

/// The character's levels of the attributes `ids`.
pub open spec fn levels_of_attributes(character: Character, ids: Seq<Seq<char>>) -> Seq<i64> {
    Seq::new(ids.len(), |i: int| attribute_level(character, ids[i]))
}

impl DSAData {
    /// The short name of the attribute `id`; `id` itself where the rule data
    /// does not know it.
    pub fn get_attr_short_name<'a>(&'a self, id: &'a str) -> (short: &'a str)
        ensures
            short@ == short_name_of(self.attributes@, id@),
    {
        let mut i: usize = 0;
        while i < self.attributes.len()
            invariant
                i <= self.attributes@.len(),
                attribute_place(self.attributes@, id@, i as int) == attribute_place(
                    self.attributes@,
                    id@,
                    0,
                ),
            decreases self.attributes@.len() - i,
        {
            if str_equal(self.attributes[i].0.as_str(), id) {
                return self.attributes[i].1.short_name.as_str();
            }
            i = i + 1;
        }
        id
    }
}

/// The crit rule that checks with points are rolled with.
pub fn points_crit_rule(config: &Config) -> (rule: CritRule)
    ensures
        rule == crit_rule_for(config.dsa_rules.crit_rules),
{
    match config.dsa_rules.crit_rules {
        ConfigDSACritType::NoCrits => CritRule::NoCrits,
        ConfigDSACritType::DefaultCrits => CritRule::ThresholdCount(2),
        ConfigDSACritType::AlternativeCrits => CritRule::Confirmable,
    }
}

/// One line for each of the attributes `ids`: its short name and the level
/// the character has in it.
pub fn attribute_lines(ids: &Vec<String>, character: &Character, dsa_data: &DSAData) -> (lines:
    Vec<AttributeLine>)
    ensures
        lines_are(
            lines@,
            attribute_labels(*dsa_data, string_views(ids@)),
            levels_of_attributes(*character, string_views(ids@)),
        ),
{
    let mut lines: Vec<AttributeLine> = Vec::new();
    let mut i: usize = 0;
    while i < ids.len()
        invariant
            i <= ids@.len(),
            lines@.len() == i,
            forall|j: int|
                0 <= j < i ==> (#[trigger] lines@[j]).label@ == short_name_of(
                    dsa_data.attributes@,
                    ids@[j]@,
                ) && lines@[j].level == level_of(
                    attribute_names(character.attributes@),
                    attribute_levels(character.attributes@),
                    ids@[j]@,
                    0,
                ),
        decreases ids@.len() - i,
    {
        let label = String::from_str(dsa_data.get_attr_short_name(ids[i].as_str()));
        let level = character.get_attribute_level(ids[i].as_str());
        lines.push(AttributeLine { label, level });
        i = i + 1;
    }
    lines
}

/// Reads the facilitation, and rolls the check if its points counter can
/// hold whatever is rolled.
pub fn roll_planned(
    check_name: String,
    facilitation_labels: &Vec<String>,
    lines: Vec<AttributeLine>,
    kind: CheckKind,
    crit_rule: CritRule,
    args: &CheckArguments,
    character_name: &str,
    dice: &mut Dice,
) -> (result: Result<CheckReport, Error>)
    ensures
        forall|labels: Seq<Seq<char>>, levels: Seq<i64>|
            lines_are(lines@, labels, levels) ==> follows_plan(
                result,
                character_name@,
                #[trigger] planned(
                    check_name@,
                    string_views(facilitation_labels@),
                    labels,
                    levels,
                    kind,
                    crit_rule,
                    *args,
                ),
            ),
{
    let by_attribute = match &args.attribute_facilitation {
        Some(text) => Some(text.as_str()),
        None => None,
    };
    let bonus = match &args.bonus_points {
        Some(text) => Some(text.as_str()),
        None => None,
    };
    assert(text_of(by_attribute) == written(args.attribute_facilitation));
    assert(text_of(bonus) == written(args.bonus_points));
    let facilitation = match get_facilitation(
        args.facilitation.as_str(),
        by_attribute,
        bonus,
        facilitation_labels,
    ) {
        Ok(f) => f,
        Err(e) => {
            return Err(e);
        },
    };
    assert forall|labels: Seq<Seq<char>>, levels: Seq<i64>| lines_are(lines@, labels, levels) implies levels
        == line_levels(lines@) by {
        assert(levels =~= line_levels(lines@));
    }
    if !is_resolvable(&lines, kind, &facilitation) {
        return Err(
            invalid_argument("Unable to roll check: ", "Levels and facilitation are out of range"),
        );
    }
    let result = roll_check(&lines, kind, crit_rule, &facilitation, dice);
    Ok(
        CheckReport {
            check_name,
            character_name: String::from_str(character_name),
            lines,
            kind,
            crit_rule,
            facilitation,
            result,
        },
    )
}

/// Names with the attributes listed under them, as plain values.
pub open spec fn ability_views(list: Seq<(String, Vec<String>)>) -> Seq<
    (Seq<char>, Seq<Seq<char>>),
> {
    Seq::new(list.len(), |i: int| (list[i].0@, string_views(list[i].1@)))
}

/// The names of the abilities.
pub open spec fn ability_names(list: Seq<(Seq<char>, Seq<Seq<char>>)>) -> Seq<Seq<char>> {
    Seq::new(list.len(), |i: int| list[i].0)
}

/// The skills of the rule data, each with the attributes it is checked
/// against.
pub open spec fn talent_list(entries: Seq<(String, TalentConfig)>) -> Seq<
    (Seq<char>, Seq<Seq<char>>),
> {
    Seq::new(entries.len(), |i: int| (entries[i].0@, string_views(entries[i].1.attributes@)))
}

/// The spells or chants of the rule data, followed by the character's own,
/// each with the attributes it is checked against.
pub open spec fn spell_list(
    entries: Seq<(String, SpellConfig)>,
    custom: Seq<(Seq<char>, Seq<String>)>,
) -> Seq<(Seq<char>, Seq<Seq<char>>)> {
    Seq::new(
        entries.len() + custom.len(),
        |i: int|
            if i < entries.len() {
                (entries[i].0@, string_views(entries[i].1.attributes@))
            } else {
                (custom[i - entries.len()].0, string_views(custom[i - entries.len()].1))
            },
    )
}

/// The combat techniques of the rule data, followed by the character's own.
pub open spec fn technique_list(
    entries: Seq<(String, CombatTechniqueConfig)>,
    custom: Seq<String>,
) -> Seq<Seq<char>> {
    Seq::new(
        entries.len() + custom.len(),
        |i: int|
            if i < entries.len() {
                entries[i].0@
            } else {
                custom[i - entries.len()]@
            },
    )
}

/// The skills a check with points can be about.
#[derive(Clone, Copy, Debug, PartialEq, Eq, Structural)]
pub enum AbilitySort {
    Talent,
    Spell,
    Chant,
}

/// The level the character has in the ability `name` of the given sort.
pub open spec fn ability_level(character: Character, sort: AbilitySort, name: Seq<char>) -> i64 {
    match sort {
        AbilitySort::Talent => level_of(
            skill_names(character.skills@),
            skill_levels(character.skills@),
            name,
            0,
        ),
        AbilitySort::Spell => level_of(
            spell_names(character.spells@),
            spell_levels(character.spells@),
            name,
            0,
        ),
        AbilitySort::Chant => level_of(
            chant_names(character.chants@),
            chant_levels(character.chants@),
            name,
            0,
        ),
    }
}

/// The plan for a check with points: the ability among `list` whose name
/// fits what the player wrote, checked against its attributes, with the
/// character's level in it as points.
pub open spec fn points_plan(
    list: Seq<(Seq<char>, Seq<Seq<char>>)>,
    sort: AbilitySort,
    args: CheckArguments,
    character: Character,
    dsa_data: DSAData,
    config: Config,
) -> Result<CheckPlan, Seq<char>> {
    match found_name(ability_names(list), args.name@) {
        Err(message) => Err(message),
        Ok(i) => planned(
            list[i].0,
            list[i].1,
            attribute_labels(dsa_data, list[i].1),
            levels_of_attributes(character, list[i].1),
            CheckKind::PointsBudget(ability_level(character, sort, list[i].0)),
            crit_rule_for(config.dsa_rules.crit_rules),
            args,
        ),
    }
}

/// The plan for an attribute check: the attribute whose name fits what the
/// player wrote, as a simple check with confirmable crits.
pub open spec fn attribute_plan(args: CheckArguments, character: Character, dsa_data: DSAData) -> Result<
    CheckPlan,
    Seq<char>,
> {
    match found_name(names_of(dsa_data.attributes@), args.name@) {
        Err(message) => Err(message),
        Ok(i) => planned(
            dsa_data.attributes@[i].0@,
            seq![dsa_data.attributes@[i].0@],
            seq![dsa_data.attributes@[i].1.short_name@],
            seq![attribute_level(character, dsa_data.attributes@[i].0@)],
            CheckKind::Simple,
            CritRule::Confirmable,
            args,
        ),
    }
}

/// The plan for an attack: the combat technique whose name fits what the
/// player wrote, as a simple check against the attack level with it.
pub open spec fn attack_plan(args: CheckArguments, character: Character, dsa_data: DSAData) -> Result<
    CheckPlan,
    Seq<char>,
> {
    let techniques = technique_list(
        dsa_data.combat_techniques@,
        custom_technique_names(character.combattechniques@, character.combattechniques@.len() as int),
    );
    match found_name(techniques, args.name@) {
        Err(message) => Err(message),
        Ok(i) => if character.spec_attack_level(techniques[i]) > i64::MAX {
            Err(out_of_range_message())
        } else {
            planned(
                "Attack: "@ + techniques[i],
                seq!["attack"@],
                seq![techniques[i]],
                seq![character.spec_attack_level(techniques[i]) as i64],
                CheckKind::Simple,
                CritRule::Confirmable,
                args,
            )
        },
    }
}

/// The plan for a dodge: a simple check against the dodge level.
pub open spec fn dodge_plan(args: CheckArguments, character: Character) -> Result<
    CheckPlan,
    Seq<char>,
> {
    planned(
        "Dodge"@,
        seq!["dodge"@],
        seq!["Dodge"@],
        seq![
            div_towards_zero(attribute_level(character, "gewandtheit"@) as int, 2) as i64,
        ],
        CheckKind::Simple,
        CritRule::Confirmable,
        args,
    )
}

/// The plan for a parry: the combat technique of the rule data whose name
/// fits what the player wrote, as a simple check against the parry level
/// with it.
pub open spec fn parry_plan(args: CheckArguments, character: Character, dsa_data: DSAData) -> Result<
    CheckPlan,
    Seq<char>,
> {
    match found_name(names_of(dsa_data.combat_techniques@), args.name@) {
        Err(message) => Err(message),
        Ok(i) => planned(
            "Parry: "@ + dsa_data.combat_techniques@[i].0@,
            seq!["parry"@],
            seq!["Parry"@],
            seq![
                (div_towards_zero(
                    character.spec_technique_level(dsa_data.combat_techniques@[i].0@) as int,
                    2,
                ) + combat_bonus(
                    best_level(
                        character.attributes@,
                        dsa_data.combat_techniques@[i].1.attributes@,
                        character.attributes@.len() as int,
                    ) as int,
                )) as i64,
            ],
            CheckKind::Simple,
            CritRule::Confirmable,
            args,
        ),
    }
}

/// A list with the one label `text`.
pub fn single_label(text: &str) -> (labels: Vec<String>)
    ensures
        string_views(labels@) == seq![text@],
{
    let mut labels: Vec<String> = Vec::new();
    labels.push(String::from_str(text));
    assert(string_views(labels@) =~= seq![text@]);
    labels
}

/// A list with the one line of the given label and level.
pub fn single_line(label: &str, level: i64) -> (lines: Vec<AttributeLine>)
    ensures
        lines_are(lines@, seq![label@], seq![level]),
{
    let mut lines: Vec<AttributeLine> = Vec::new();
    lines.push(AttributeLine { label: String::from_str(label), level });
    lines
}

/// Rolls the check with points for the ability among `candidates` whose name
/// fits what the player wrote.
pub fn points_check(
    candidates: &Vec<(String, Vec<String>)>,
    sort: AbilitySort,
    args: &CheckArguments,
    character: &Character,
    dsa_data: &DSAData,
    config: &Config,
    dice: &mut Dice,
) -> (result: Result<CheckReport, Error>)
    ensures
        follows_plan(
            result,
            character.name@,
            points_plan(ability_views(candidates@), sort, *args, *character, *dsa_data, *config),
        ),
{
    assert(names_of(candidates@) =~= ability_names(ability_views(candidates@)));
    let place = match DSAData::search_place(candidates, args.name.as_str()) {
        Ok(place) => place,
        Err(e) => {
            return Err(e);
        },
    };
    let name = candidates[place].0.as_str();
    let ids = &candidates[place].1;
    let lines = attribute_lines(ids, character, dsa_data);
    let level = match sort {
        AbilitySort::Talent => character.get_skill_level(name),
        AbilitySort::Spell => character.get_spell_level(name),
        AbilitySort::Chant => character.get_chant_level(name),
    };
    roll_planned(
        String::from_str(name),
        ids,
        lines,
        CheckKind::PointsBudget(level),
        points_crit_rule(config),
        args,
        character.get_name(),
        dice,
    )
}

/// Rolls an attribute check for the attribute whose name fits what the
/// player wrote.
pub fn attribute_check(
    args: &CheckArguments,
    character: &Character,
    dsa_data: &DSAData,
    config: &Config,
    dice: &mut Dice,
) -> (result: Result<CheckReport, Error>)
    ensures
        follows_plan(result, character.name@, attribute_plan(*args, *character, *dsa_data)),
{
    let place = match DSAData::search_place(&dsa_data.attributes, args.name.as_str()) {
        Ok(place) => place,
        Err(e) => {
            return Err(e);
        },
    };
    let name = dsa_data.attributes[place].0.as_str();
    let labels = single_label(name);
    let lines = single_line(
        dsa_data.attributes[place].1.short_name.as_str(),
        character.get_attribute_level(name),
    );
    roll_planned(
        String::from_str(name),
        &labels,
        lines,
        CheckKind::Simple,
        CritRule::Confirmable,
        args,
        character.get_name(),
        dice,
    )
}

/// Rolls a skill check for the skill whose name fits what the player wrote.
pub fn talent_check(
    args: &CheckArguments,
    character: &Character,
    dsa_data: &DSAData,
    config: &Config,
    dice: &mut Dice,
) -> (result: Result<CheckReport, Error>)
    ensures
        follows_plan(
            result,
            character.name@,
            points_plan(
                talent_list(dsa_data.talents@),
                AbilitySort::Talent,
                *args,
                *character,
                *dsa_data,
                *config,
            ),
        ),
{
    let mut candidates: Vec<(String, Vec<String>)> = Vec::new();
    let mut i: usize = 0;
    while i < dsa_data.talents.len()
        invariant
            i <= dsa_data.talents@.len(),
            candidates@.len() == i,
            forall|j: int|
                0 <= j < i ==> (#[trigger] candidates@[j]).0@ == dsa_data.talents@[j].0@
                    && candidates@[j].1@ == dsa_data.talents@[j].1.attributes@,
        decreases dsa_data.talents@.len() - i,
    {
        candidates.push(
            (dsa_data.talents[i].0.clone(), clone_strings(&dsa_data.talents[i].1.attributes)),
        );
        i = i + 1;
    }
    assert(ability_views(candidates@) =~= talent_list(dsa_data.talents@));
    points_check(&candidates, AbilitySort::Talent, args, character, dsa_data, config, dice)
}

/// The spells or chants of the rule data, followed by the character's own.
pub fn spell_candidates(entries: &Vec<(String, SpellConfig)>, custom: Vec<(String, Vec<String>)>) -> (candidates:
    Vec<(String, Vec<String>)>)
    ensures
        ability_views(candidates@) == spell_list(entries@, element_views(custom@)),
{
    let mut candidates: Vec<(String, Vec<String>)> = Vec::new();
    let mut i: usize = 0;
    while i < entries.len()
        invariant
            i <= entries@.len(),
            candidates@.len() == i,
            forall|j: int|
                0 <= j < i ==> (#[trigger] candidates@[j]).0@ == entries@[j].0@ && candidates@[j].1@
                    == entries@[j].1.attributes@,
        decreases entries@.len() - i,
    {
        candidates.push((entries[i].0.clone(), clone_strings(&entries[i].1.attributes)));
        i = i + 1;
    }
    let mut k: usize = 0;
    while k < custom.len()
        invariant
            k <= custom@.len(),
            candidates@.len() == entries@.len() + k,
            forall|j: int|
                0 <= j < entries@.len() ==> (#[trigger] candidates@[j]).0@ == entries@[j].0@
                    && candidates@[j].1@ == entries@[j].1.attributes@,
            forall|j: int|
                0 <= j < k ==> (#[trigger] candidates@[entries@.len() + j]).0@ == custom@[j].0@
                    && candidates@[entries@.len() + j].1@ == custom@[j].1@,
        decreases custom@.len() - k,
    {
        candidates.push((custom[k].0.clone(), clone_strings(&custom[k].1)));
        k = k + 1;
    }
    assert forall|i: int| 0 <= i < candidates@.len() implies ability_views(candidates@)[i]
        == spell_list(entries@, element_views(custom@))[i] by {
        if i >= entries@.len() {
            assert(candidates@[entries@.len() + (i - entries@.len())].0@ == custom@[i
                - entries@.len()].0@);
        }
    }
    assert(ability_views(candidates@) =~= spell_list(entries@, element_views(custom@)));
    candidates
}

/// Rolls a check for the spell whose name fits what the player wrote, among
/// the spells of the rule data and the character's own.
pub fn spell_check(
    args: &CheckArguments,
    character: &Character,
    dsa_data: &DSAData,
    config: &Config,
    dice: &mut Dice,
) -> (result: Result<CheckReport, Error>)
    ensures
        follows_plan(
            result,
            character.name@,
            points_plan(
                spell_list(
                    dsa_data.spells@,
                    custom_elements(
                        Seq::new(
                            character.spells@.len(),
                            |i: int| character.spells@[i].id_or_rule_element,
                        ),
                    ),
                ),
                AbilitySort::Spell,
                *args,
                *character,
                *dsa_data,
                *config,
            ),
        ),
{
    let candidates = spell_candidates(&dsa_data.spells, character.get_custom_spells());
    points_check(&candidates, AbilitySort::Spell, args, character, dsa_data, config, dice)
}

/// Rolls a check for the chant whose name fits what the player wrote, among
/// the chants of the rule data and the character's own.
pub fn chant_check(
    args: &CheckArguments,
    character: &Character,
    dsa_data: &DSAData,
    config: &Config,
    dice: &mut Dice,
) -> (result: Result<CheckReport, Error>)
    ensures
        follows_plan(
            result,
            character.name@,
            points_plan(
                spell_list(
                    dsa_data.chants@,
                    custom_elements(
                        Seq::new(
                            character.chants@.len(),
                            |i: int| character.chants@[i].id_or_rule_element,
                        ),
                    ),
                ),
                AbilitySort::Chant,
                *args,
                *character,
                *dsa_data,
                *config,
            ),
        ),
{
    let candidates = spell_candidates(&dsa_data.chants, character.get_custom_chants());
    points_check(&candidates, AbilitySort::Chant, args, character, dsa_data, config, dice)
}

/// Rolls an attack with the combat technique whose name fits what the player
/// wrote, among the techniques of the rule data and the character's own.
pub fn attack_check(
    args: &CheckArguments,
    character: &Character,
    dsa_data: &DSAData,
    config: &Config,
    dice: &mut Dice,
) -> (result: Result<CheckReport, Error>)
    ensures
        follows_plan(result, character.name@, attack_plan(*args, *character, *dsa_data)),
{
    let custom = character.get_custom_techniques();
    let mut candidates: Vec<(String, ())> = Vec::new();
    let mut i: usize = 0;
    while i < dsa_data.combat_techniques.len()
        invariant
            i <= dsa_data.combat_techniques@.len(),
            candidates@.len() == i,
            forall|j: int|
                0 <= j < i ==> (#[trigger] candidates@[j]).0@ == dsa_data.combat_techniques@[j].0@,
        decreases dsa_data.combat_techniques@.len() - i,
    {
        candidates.push((dsa_data.combat_techniques[i].0.clone(), ()));
        i = i + 1;
    }
    let mut k: usize = 0;
    while k < custom.len()
        invariant
            k <= custom@.len(),
            candidates@.len() == dsa_data.combat_techniques@.len() + k,
            forall|j: int|
                0 <= j < dsa_data.combat_techniques@.len() ==> (#[trigger] candidates@[j]).0@
                    == dsa_data.combat_techniques@[j].0@,
            forall|j: int|
                0 <= j < k ==> (#[trigger] candidates@[dsa_data.combat_techniques@.len() + j]).0@
                    == custom@[j]@,
        decreases custom@.len() - k,
    {
        candidates.push((custom[k].clone(), ()));
        k = k + 1;
    }
    let ghost techniques = technique_list(dsa_data.combat_techniques@, custom@);
    assert forall|i: int| 0 <= i < candidates@.len() implies names_of(candidates@)[i]
        == techniques[i] by {
        if i >= dsa_data.combat_techniques@.len() {
            let j = i - dsa_data.combat_techniques@.len();
            assert(candidates@[dsa_data.combat_techniques@.len() + j].0@ == custom@[j]@);
        }
    }
    assert(names_of(candidates@) =~= techniques);
    let place = match DSAData::search_place(&candidates, args.name.as_str()) {
        Ok(place) => place,
        Err(e) => {
            return Err(e);
        },
    };
    let name = candidates[place].0.as_str();
    let level = match character.checked_attack_level(name) {
        Some(level) => level,
        None => {
            return Err(
                invalid_argument(
                    "Unable to roll check: ",
                    "Levels and facilitation are out of range",
                ),
            );
        },
    };
    let labels = single_label("attack");
    let lines = single_line(name, level);
    roll_planned(
        String::from_str("Attack: ").concat(name),
        &labels,
        lines,
        CheckKind::Simple,
        CritRule::Confirmable,
        args,
        character.get_name(),
        dice,
    )
}

/// Rolls a dodge.
pub fn dodge_check(
    args: &CheckArguments,
    character: &Character,
    dsa_data: &DSAData,
    config: &Config,
    dice: &mut Dice,
) -> (result: Result<CheckReport, Error>)
    ensures
        follows_plan(result, character.name@, dodge_plan(*args, *character)),
{
    let labels = single_label("dodge");
    let lines = single_line("Dodge", character.get_dodge_level());
    roll_planned(
        String::from_str("Dodge"),
        &labels,
        lines,
        CheckKind::Simple,
        CritRule::Confirmable,
        args,
        character.get_name(),
        dice,
    )
}

/// Rolls a parry with the combat technique of the rule data whose name fits
/// what the player wrote.
pub fn parry_check(
    args: &CheckArguments,
    character: &Character,
    dsa_data: &DSAData,
    config: &Config,
    dice: &mut Dice,
) -> (result: Result<CheckReport, Error>)
    ensures
        follows_plan(result, character.name@, parry_plan(*args, *character, *dsa_data)),
{
    let place = match DSAData::search_place(&dsa_data.combat_techniques, args.name.as_str()) {
        Ok(place) => place,
        Err(e) => {
            return Err(e);
        },
    };
    let name = dsa_data.combat_techniques[place].0.as_str();
    let level = character.get_parry_level(name, &dsa_data.combat_techniques[place].1.attributes);
    let labels = single_label("parry");
    let lines = single_line("Parry", level);
    roll_planned(
        String::from_str("Parry: ").concat(name),
        &labels,
        lines,
        CheckKind::Simple,
        CritRule::Confirmable,
        args,
        character.get_name(),
        dice,
    )
}

} // verus!
