use dsa_cli::character::default::{chants, combattechniques, skills, spells};
use dsa_cli::character::{
    clone_strings, Character, CharacterAttribute, CharacterChant, CharacterCombatTechnique,
    CharacterSkill, CharacterSpell, IdOrCustomId, IdOrCustomInfo,
};

fn attribute(id: &str, level: i64) -> CharacterAttribute {
    CharacterAttribute { id: String::from(id), level }
}

fn custom(name: &str, attributes: &[&str]) -> IdOrCustomInfo {
    IdOrCustomInfo::RuleElement {
        name: String::from(name),
        attributes: attributes.iter().map(|a| String::from(*a)).collect(),
    }
}

fn hero() -> Character {
    Character {
        name: String::from("Alrik"),
        attributes: vec![
            attribute("Mut", 14),
            attribute("klugheit", 11),
            attribute("gewandtheit", 13),
            attribute("koerperkraft", 15),
            attribute("MUT", 20),
        ],
        skills: vec![
            CharacterSkill { id: String::from("klettern"), level: 7 },
            CharacterSkill { id: String::from("Schwimmen"), level: -1 },
            CharacterSkill { id: String::from("KLETTERN"), level: 99 },
        ],
        combattechniques: vec![
            CharacterCombatTechnique {
                id_or_custom_id: IdOrCustomId::Id(String::from("schwerter")),
                level: 12,
            },
            CharacterCombatTechnique {
                id_or_custom_id: IdOrCustomId::RuleElement { name: String::from("Peitschen") },
                level: 9,
            },
            CharacterCombatTechnique {
                id_or_custom_id: IdOrCustomId::RuleElement { name: String::from("Faecher") },
                level: 7,
            },
        ],
        spells: vec![
            CharacterSpell {
                id_or_rule_element: IdOrCustomInfo::Id(String::from("ignifaxius")),
                level: Some(8),
            },
            CharacterSpell {
                id_or_rule_element: custom("Hexenknoten", &["mut", "klugheit", "charisma"]),
                level: None,
            },
        ],
        chants: vec![
            CharacterChant {
                id_or_rule_element: custom("Segen", &["mut", "intuition", "charisma"]),
                level: Some(5),
            },
            CharacterChant {
                id_or_rule_element: IdOrCustomInfo::Id(String::from("bannstrahl")),
                level: Some(3),
            },
        ],
    }
}

fn nobody() -> Character {
    Character {
        name: String::new(),
        attributes: vec![],
        skills: skills(),
        combattechniques: combattechniques(),
        spells: spells(),
        chants: chants(),
    }
}

#[test]
fn a_sheet_names_no_abilities_unless_it_lists_them() {
    assert!(skills().is_empty());
    assert!(combattechniques().is_empty());
    assert!(spells().is_empty());
    assert!(chants().is_empty());
}

#[test]
fn names_match_whatever_the_case() {
    let id = IdOrCustomId::Id(String::from("Schwerter"));
    assert!(id.matches_name("schwerter"));
    assert!(id.matches_name("SCHWERTER"));
    assert!(!id.matches_name("schwert"));
    let own = IdOrCustomId::RuleElement { name: String::from("Peitschen") };
    assert!(own.matches_name("peitschen"));
    assert!(!own.matches_name(""));
    let info = IdOrCustomInfo::Id(String::from("ignifaxius"));
    assert!(info.matches_name("Ignifaxius"));
    assert!(!info.matches_name("ignifaxius "));
    assert!(custom("Segen", &[]).matches_name("SEGEN"));
    assert!(!custom("Segen", &["segen2"]).matches_name("segen2"));
}

#[test]
fn the_name_is_handed_out() {
    assert_eq!(hero().get_name(), "Alrik");
    assert_eq!(nobody().get_name(), "");
}

#[test]
fn levels_are_those_of_the_first_entry_that_matches() {
    let hero = hero();
    assert_eq!(hero.get_attribute_level("mut"), 14);
    assert_eq!(hero.get_attribute_level("KLUGHEIT"), 11);
    assert_eq!(hero.get_attribute_level("charisma"), 0);
    assert_eq!(hero.get_skill_level("Klettern"), 7);
    assert_eq!(hero.get_skill_level("schwimmen"), -1);
    assert_eq!(hero.get_skill_level("reiten"), 0);
    assert_eq!(hero.get_technique_level("Schwerter"), 12);
    assert_eq!(hero.get_technique_level("peitschen"), 9);
    assert_eq!(hero.get_technique_level("dolche"), 6);
    assert_eq!(hero.get_spell_level("Ignifaxius"), 8);
    assert_eq!(hero.get_spell_level("hexenknoten"), 0);
    assert_eq!(hero.get_spell_level("balsam"), 0);
    assert_eq!(hero.get_chant_level("segen"), 5);
    assert_eq!(hero.get_chant_level("Bannstrahl"), 3);
    assert_eq!(hero.get_chant_level("x"), 0);
    assert_eq!(nobody().get_technique_level("schwerter"), 6);
}

#[test]
fn attack_level_adds_a_third_of_courage_above_eight() {
    let hero = hero();
    // Courage 14: (14 - 8) / 3 = 2.
    assert_eq!(hero.get_attack_level("schwerter"), 14);
    assert_eq!(hero.checked_attack_level("schwerter"), Some(14));
    assert_eq!(hero.get_attack_level("dolche"), 8);
    assert_eq!(nobody().get_attack_level("dolche"), 6);
    for (courage, bonus) in [(-20, 0), (0, 0), (8, 0), (10, 0), (11, 1), (13, 1), (14, 2), (17, 3)]
    {
        let mut character = nobody();
        character.attributes.push(attribute("mut", courage));
        assert_eq!(character.get_attack_level("any"), 6 + bonus, "courage {}", courage);
    }
    let mut low = nobody();
    low.attributes.push(attribute("mut", i64::MIN));
    assert_eq!(low.get_attack_level("any"), 6);
}

#[test]
fn attack_level_beyond_the_integer_range_is_reported() {
    let mut character = nobody();
    character.attributes.push(attribute("mut", 11));
    character.combattechniques.push(CharacterCombatTechnique {
        id_or_custom_id: IdOrCustomId::Id(String::from("schwerter")),
        level: i64::MAX,
    });
    assert_eq!(character.checked_attack_level("schwerter"), None);
    assert_eq!(character.checked_attack_level("dolche"), Some(7));
    character.attributes[0].level = 10;
    assert_eq!(character.checked_attack_level("schwerter"), Some(i64::MAX));
}

#[test]
fn dodge_level_is_half_the_agility_rounded_towards_zero() {
    assert_eq!(hero().get_dodge_level(), 6);
    assert_eq!(nobody().get_dodge_level(), 0);
    for (agility, dodge) in [(12, 6), (1, 0), (-1, 0), (-3, -1), (-4, -2), (i64::MIN, i64::MIN / 2)]
    {
        let mut character = nobody();
        character.attributes.push(attribute("Gewandtheit", agility));
        assert_eq!(character.get_dodge_level(), dodge);
    }
}

#[test]
fn initiative_level_is_the_mean_of_courage_and_agility() {
    // The last entry for courage counts: (20 + 13) / 2.
    assert_eq!(hero().get_initiative_level(), 16);
    assert_eq!(nobody().get_initiative_level(), 0);
    let mut character = nobody();
    character.attributes.push(attribute("mut", -4));
    character.attributes.push(attribute("gewandtheit", 1));
    assert_eq!(character.get_initiative_level(), -1);
    character.attributes.push(attribute("GEWANDTHEIT", i64::MAX));
    character.attributes.push(attribute("Mut", i64::MAX));
    assert_eq!(character.get_initiative_level(), i64::MAX);
}

#[test]
fn parry_level_is_half_the_technique_plus_the_bonus_of_the_best_leading_attribute() {
    let hero = hero();
    let leading = vec![String::from("Gewandtheit"), String::from("koerperkraft")];
    // 12 / 2 + (15 - 8) / 3.
    assert_eq!(hero.get_parry_level("schwerter", &leading), 8);
    assert_eq!(hero.get_parry_level("schwerter", &vec![]), 6);
    assert_eq!(hero.get_parry_level("dolche", &leading), 3 + 2);
    assert_eq!(hero.get_parry_level("peitschen", &vec![String::from("mut")]), 4 + 4);
    assert_eq!(hero.get_parry_level("schwerter", &vec![String::from("klugheit")]), 6 + 1);
    let mut weak = nobody();
    weak.attributes.push(attribute("mut", -5));
    weak.combattechniques.push(CharacterCombatTechnique {
        id_or_custom_id: IdOrCustomId::Id(String::from("dolche")),
        level: -7,
    });
    assert_eq!(weak.get_parry_level("dolche", &vec![String::from("mut")]), -3);
}

#[test]
fn own_abilities_are_listed_in_the_order_of_the_sheet() {
    let hero = hero();
    assert_eq!(hero.get_custom_techniques(), vec!["Peitschen", "Faecher"]);
    assert_eq!(
        hero.get_custom_spells(),
        vec![(
            String::from("Hexenknoten"),
            vec![String::from("mut"), String::from("klugheit"), String::from("charisma")]
        )]
    );
    assert_eq!(
        hero.get_custom_chants(),
        vec![(
            String::from("Segen"),
            vec![String::from("mut"), String::from("intuition"), String::from("charisma")]
        )]
    );
    assert!(nobody().get_custom_techniques().is_empty());
    assert!(nobody().get_custom_spells().is_empty());
    assert!(nobody().get_custom_chants().is_empty());
}

#[test]
fn strings_are_copied() {
    let strings = vec![String::from("a"), String::new(), String::from("ß")];
    assert_eq!(clone_strings(&strings), strings);
    assert!(clone_strings(&vec![]).is_empty());
}
