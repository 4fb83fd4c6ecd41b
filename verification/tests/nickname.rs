use dsa_cli::nickname::{
    after_separator, calculate_name, find_after_last_blank, without_initiative,
};
use dsa_cli::util::{ErrorType, InputErrorType};

/// The nickname as the plain rules give it, for names that take one byte
/// for each character.
fn expected(character_name: &str, org_name: &str, limit: usize) -> Option<String> {
    if org_name.len() + 3 > limit {
        return None;
    }
    let mut words = character_name.split(' ');
    let mut allowed = limit - org_name.len() - 3;
    let mut shown = String::new();
    let first = words.next().unwrap();
    let rest = words.clone().count();
    if first.len() > allowed {
        shown.push_str(&first[..allowed]);
    } else {
        shown.push_str(first);
        allowed -= first.len();
        let last = words.clone().last().unwrap_or("");
        if allowed > last.len() + 1 {
            allowed -= last.len() + 1;
            for (index, middle) in words.enumerate() {
                if index >= rest - 1 || middle.len() + 1 > allowed {
                    break;
                }
                allowed -= middle.len() + 1;
                shown.push(' ');
                shown.push_str(middle);
            }
            shown.push(' ');
            shown.push_str(last);
        }
    }
    Some(format!("{} Ξ {}", shown, org_name))
}

#[test]
fn nicknames_show_as_much_of_the_character_name_as_fits() {
    assert_eq!(
        calculate_name("Alrik von Gareth", "player", 32).unwrap(),
        "Alrik von Gareth Ξ player"
    );
    assert_eq!(
        calculate_name("Alrik Immo Praiodan von Gareth", "player", 32).unwrap(),
        "Alrik Immo Gareth Ξ player"
    );
    assert_eq!(calculate_name("Alrik von Gareth", "player", 14).unwrap(), "Alrik Ξ player");
    assert_eq!(calculate_name("Alrik von Gareth", "player", 12).unwrap(), "Alr Ξ player");
    assert_eq!(calculate_name("Alrik von Gareth", "player", 9).unwrap(), " Ξ player");
}

#[test]
fn a_name_of_one_word_counts_as_having_an_empty_last_name() {
    assert_eq!(calculate_name("Alrik", "player", 32).unwrap(), "Alrik  Ξ player");
    assert_eq!(calculate_name("Alrik", "player", 15).unwrap(), "Alrik Ξ player");
    assert_eq!(calculate_name("", "player", 32).unwrap(), "  Ξ player");
}

#[test]
fn a_player_name_that_leaves_no_room_is_rejected() {
    let error = calculate_name("Alrik", "player", 8).unwrap_err();
    assert_eq!(error.message(), "player: Display Name is too large!");
    assert_eq!(*error.err_type(), ErrorType::InvalidInput(InputErrorType::InvalidDiscordContext));
    assert!(calculate_name("Alrik", "player", 0).is_err());
    assert!(calculate_name("Alrik", "", 2).is_err());
    assert_eq!(calculate_name("Alrik", "", 3).unwrap(), " Ξ ");
}

#[test]
fn nicknames_follow_the_plain_rules() {
    let names = [
        "", " ", "  ", "a", "a b", "a  b", " a b ", "Alrik", "Alrik von Gareth", "A B C D E F G",
        "Alrik Immo Praiodan von Gareth", "Maximilian Mustermann", "a bb ccc dddd eeeee",
        "eeeee dddd ccc bb a", "x y", "one two ", " one two", "one  two  three",
    ];
    for name in names {
        for org in ["", "p", "player", "a very long player name"] {
            for limit in 0..40 {
                let shown = calculate_name(name, org, limit).ok();
                assert_eq!(shown, expected(name, org, limit), "{:?} {:?} {}", name, org, limit);
            }
        }
    }
}

#[test]
fn lengths_count_characters() {
    assert_eq!(calculate_name("Ällrik Öl", "übel", 12).unwrap(), "Ällri Ξ übel");
    assert_eq!(calculate_name("Ällrik Öl", "übel", 18).unwrap(), "Ällrik Öl Ξ übel");
}

#[test]
fn the_place_after_the_last_blank_is_found() {
    let chars = |text: &str| text.chars().collect::<Vec<char>>();
    assert_eq!(find_after_last_blank(&chars("")), 0);
    assert_eq!(find_after_last_blank(&chars("abc")), 0);
    assert_eq!(find_after_last_blank(&chars("a bc")), 2);
    assert_eq!(find_after_last_blank(&chars("a b c")), 4);
    assert_eq!(find_after_last_blank(&chars("ab ")), 3);
}

#[test]
fn the_initiative_before_a_name_is_taken_away() {
    let name = |text: &str| Some(String::from(text));
    assert_eq!(without_initiative("17 Alrik"), name("Alrik"));
    assert_eq!(without_initiative("17,12,3 Alrik von Gareth"), name("Alrik von Gareth"));
    assert_eq!(without_initiative("-4,+2 Alrik"), name("Alrik"));
    assert_eq!(without_initiative("17 "), name(""));
    assert_eq!(without_initiative("Alrik"), name(""));
    assert_eq!(without_initiative(""), name(""));
    assert_eq!(without_initiative("Alrik von Gareth"), None);
    assert_eq!(without_initiative("17, Alrik"), None);
    assert_eq!(without_initiative(",17 Alrik"), None);
    assert_eq!(without_initiative("17,x Alrik"), None);
    assert_eq!(without_initiative(" Alrik"), None);
    assert_eq!(without_initiative("9223372036854775808 Alrik"), None);
}

#[test]
fn the_name_after_the_separator_is_found() {
    assert_eq!(after_separator("Alrik Ξ player"), Some(String::from(" player")));
    assert_eq!(after_separator("Ξ"), Some(String::new()));
    assert_eq!(after_separator("a Ξ b Ξ c"), Some(String::from(" b Ξ c")));
    assert_eq!(after_separator("player"), None);
    assert_eq!(after_separator(""), None);
}
