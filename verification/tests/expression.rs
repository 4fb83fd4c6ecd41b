use dsa_cli::dice::Dice;
use dsa_cli::dsa::expression::{
    evaluate_terms, parse_expression, parse_term, roll, roll_terms, terms_are_valid, DieRoll,
    RollTerm, TermFault,
};
use dsa_cli::text::find_first_of;
use dsa_cli::util::{ErrorType, InputErrorType};

fn chars(text: &str) -> Vec<char> {
    text.chars().collect()
}

fn term(text: &str) -> Result<RollTerm, TermFault> {
    let chars = chars(text);
    parse_term(&chars, 0, chars.len())
}

fn dice_term(negative: bool, count: u32, sides: u32) -> RollTerm {
    RollTerm::Dice { negative, count, sides }
}

fn rejected(expr: &str) -> String {
    let error = parse_expression(expr).expect_err("the expression should be rejected");
    assert!(matches!(
        error.err_type(),
        ErrorType::InvalidInput(InputErrorType::InvalidArgument)
    ));
    String::from(error.message())
}

#[test]
fn three_d6_rolls_three_dice_that_sum_to_the_total() {
    for seed in 0..500u64 {
        let outcome = roll("3d6", &mut Dice::from_seed(seed)).unwrap();
        assert!((3..=18).contains(&outcome.total));
        assert_eq!(outcome.dice.len(), 3);
        for die in &outcome.dice {
            assert_eq!(die.sides, 6);
            assert!((1..=6).contains(&die.value));
        }
        let sum: i64 = outcome.dice.iter().map(|die| die.value).sum();
        assert_eq!(outcome.total, sum as i128);
    }
}

#[test]
fn one_d20_plus_five_is_between_six_and_twenty_five() {
    let mut seen_low = false;
    let mut seen_high = false;
    for seed in 0..500u64 {
        let outcome = roll("1d20+5", &mut Dice::from_seed(seed)).unwrap();
        assert!((6..=25).contains(&outcome.total));
        assert_eq!(outcome.dice.len(), 1);
        assert_eq!(outcome.total, outcome.dice[0].value as i128 + 5);
        seen_low |= outcome.total <= 10;
        seen_high |= outcome.total >= 21;
    }
    assert!(seen_low && seen_high);
}

#[test]
fn a_die_without_faces_is_rejected() {
    assert_eq!(rejected("2d0"), "Invalid die type in expression \"2d0\"");
    assert_eq!(term("2d0"), Err(TermFault::NoSides));
    assert_eq!(term("d0"), Err(TermFault::NoSides));
    assert!(roll("2d0", &mut Dice::from_seed(1)).is_err());
}

#[test]
fn more_than_a_hundred_dice_are_rejected() {
    assert_eq!(
        rejected("101d6"),
        "Number of dice exceeds maximum of 100 in expression \"101d6\""
    );
    assert_eq!(term("101d6"), Err(TermFault::TooManyDice));
    assert_eq!(term("100d6"), Ok(dice_term(false, 100, 6)));
    assert!(roll("101d6", &mut Dice::from_seed(1)).is_err());
    assert_eq!(roll("100d6", &mut Dice::from_seed(1)).unwrap().dice.len(), 100);
}

#[test]
fn terms_are_numbers_or_dice_with_an_optional_count() {
    assert_eq!(term("5"), Ok(RollTerm::Constant(5)));
    assert_eq!(term("+5"), Ok(RollTerm::Constant(5)));
    assert_eq!(term("-5"), Ok(RollTerm::Constant(-5)));
    assert_eq!(term(" 12 "), Ok(RollTerm::Constant(12)));
    assert_eq!(term("007"), Ok(RollTerm::Constant(7)));
    assert_eq!(term("9223372036854775807"), Ok(RollTerm::Constant(i64::MAX)));
    assert_eq!(term("-9223372036854775807"), Ok(RollTerm::Constant(-i64::MAX)));
    assert_eq!(term("d6"), Ok(dice_term(false, 1, 6)));
    assert_eq!(term("w20"), Ok(dice_term(false, 1, 20)));
    assert_eq!(term("3d6"), Ok(dice_term(false, 3, 6)));
    assert_eq!(term("-2w8"), Ok(dice_term(true, 2, 8)));
    assert_eq!(term("+ 2 d 8 "), Ok(dice_term(false, 2, 8)));
    assert_eq!(term("0d6"), Ok(dice_term(false, 0, 6)));
    assert_eq!(term("1d4294967295"), Ok(dice_term(false, 1, u32::MAX)));
}

#[test]
fn every_fault_of_a_term_is_told_apart() {
    assert_eq!(term("3d"), Err(TermFault::MissingDieType));
    assert_eq!(term("d"), Err(TermFault::MissingDieType));
    assert_eq!(term("3d "), Err(TermFault::MissingDieType));
    assert_eq!(term("1d2d3"), Err(TermFault::TooManySeparators));
    assert_eq!(term("3dd6"), Err(TermFault::TooManySeparators));
    assert_eq!(term("1d6w"), Err(TermFault::TooManySeparators));
    assert_eq!(term("xd6"), Err(TermFault::InvalidDieNumber));
    assert_eq!(term("4294967296d6"), Err(TermFault::InvalidDieNumber));
    assert_eq!(term("3dx"), Err(TermFault::InvalidDieType));
    assert_eq!(term("3d4294967296"), Err(TermFault::InvalidDieType));
    assert_eq!(term("3d6 6"), Err(TermFault::InvalidDieType));
    assert_eq!(term("3d0"), Err(TermFault::NoSides));
    assert_eq!(term("101d1"), Err(TermFault::TooManyDice));
    assert_eq!(term(""), Err(TermFault::InvalidNumber));
    assert_eq!(term("+"), Err(TermFault::InvalidNumber));
    assert_eq!(term("abc"), Err(TermFault::InvalidNumber));
    assert_eq!(term("1 2"), Err(TermFault::InvalidNumber));
    assert_eq!(term("9223372036854775808"), Err(TermFault::InvalidNumber));
    assert_eq!(term("3D6"), Err(TermFault::InvalidNumber));
}

#[test]
fn the_count_is_read_before_the_faces() {
    assert_eq!(term("xdx"), Err(TermFault::InvalidDieNumber));
    assert_eq!(term("101d0"), Err(TermFault::NoSides));
}

#[test]
fn expressions_are_split_at_signs() {
    assert_eq!(
        parse_expression("3d6+5-w20").unwrap(),
        vec![dice_term(false, 3, 6), RollTerm::Constant(5), dice_term(true, 1, 20)]
    );
    assert_eq!(
        parse_expression("-4 + 2d4 ").unwrap(),
        vec![RollTerm::Constant(-4), dice_term(false, 2, 4)]
    );
    assert_eq!(parse_expression("17").unwrap(), vec![RollTerm::Constant(17)]);
}

#[test]
fn faults_name_the_term_they_were_found_in() {
    assert_eq!(rejected(""), "Unable to parse number \"\"");
    assert_eq!(rejected("   "), "Unable to parse number \"   \"");
    assert_eq!(rejected("3d6+"), "Unable to parse number \"\"");
    assert_eq!(rejected("3d6++2"), "Unable to parse number \"\"");
    assert_eq!(rejected("1+x-2"), "Unable to parse number \"x\"");
    assert_eq!(rejected("2d6 - 3d"), "Die type missing in expression \" 3d\"");
    assert_eq!(rejected("1d2d3"), "Too many \"d\"s and/or \"w\"s in expression \"1d2d3\"");
    assert_eq!(rejected("5+ad6"), "Invalid die number in expression \"ad6\"");
    assert_eq!(rejected("5+3db"), "Unable to parse die type in expression \"3db\"");
}

#[test]
fn more_than_twenty_terms_are_rejected() {
    let twenty = vec!["1"; 20].join("+");
    assert_eq!(parse_expression(&twenty).unwrap().len(), 20);
    let twenty_one = vec!["1"; 21].join("+");
    assert_eq!(rejected(&twenty_one), "Number of roll expressions exceeds maximum of 20");
    assert!(roll(&twenty_one, &mut Dice::from_seed(1)).is_err());
}

#[test]
fn the_first_fault_is_the_one_reported() {
    assert_eq!(rejected("1+x+3dd4"), "Unable to parse number \"x\"");
    let many = format!("{}+x", vec!["1"; 20].join("+"));
    assert_eq!(rejected(&many), "Number of roll expressions exceeds maximum of 20");
    let early = format!("x+{}", vec!["1"; 25].join("+"));
    assert_eq!(rejected(&early), "Unable to parse number \"x\"");
}

#[test]
fn terms_are_added_up_for_given_dice() {
    let terms = vec![dice_term(false, 2, 6), RollTerm::Constant(5), dice_term(true, 1, 20)];
    let dice = vec![
        DieRoll { value: 3, sides: 6 },
        DieRoll { value: 6, sides: 6 },
        DieRoll { value: 11, sides: 20 },
    ];
    assert_eq!(evaluate_terms(&terms, &dice), 3 + 6 + 5 - 11);
    assert_eq!(evaluate_terms(&vec![], &vec![]), 0);
    assert_eq!(evaluate_terms(&vec![RollTerm::Constant(-8)], &vec![]), -8);
}

#[test]
fn totals_beyond_sixty_four_bits_stay_exact() {
    let terms = vec![RollTerm::Constant(i64::MAX), RollTerm::Constant(i64::MAX)];
    assert_eq!(evaluate_terms(&terms, &vec![]), 2 * (i64::MAX as i128));
    let outcome = roll("9223372036854775807+9223372036854775807", &mut Dice::from_seed(0));
    assert_eq!(outcome.unwrap().total, 2 * (i64::MAX as i128));
}

#[test]
fn rolled_terms_report_their_dice_in_order() {
    let terms = vec![
        dice_term(false, 2, 4),
        RollTerm::Constant(3),
        dice_term(true, 3, 10),
        dice_term(false, 0, 2),
        dice_term(false, 1, 1),
    ];
    for seed in 0..200u64 {
        let outcome = roll_terms(&terms, &mut Dice::from_seed(seed));
        let sides: Vec<u32> = outcome.dice.iter().map(|die| die.sides).collect();
        assert_eq!(sides, vec![4, 4, 10, 10, 10, 1]);
        for die in &outcome.dice {
            assert!(1 <= die.value && die.value <= die.sides as i64);
        }
        assert_eq!(outcome.total, evaluate_terms(&terms, &outcome.dice));
        let values: Vec<i128> = outcome.dice.iter().map(|die| die.value as i128).collect();
        assert_eq!(
            outcome.total,
            values[0] + values[1] + 3 - values[2] - values[3] - values[4] + 1
        );
    }
}

#[test]
fn find_first_of_finds_the_first_of_two_characters() {
    let text = chars("ab+c-d");
    assert_eq!(find_first_of(&text, 0, 6, '+', '-'), 2);
    assert_eq!(find_first_of(&text, 3, 6, '+', '-'), 4);
    assert_eq!(find_first_of(&text, 5, 6, '+', '-'), 6);
    assert_eq!(find_first_of(&text, 0, 2, '+', '-'), 2);
    assert_eq!(find_first_of(&text, 2, 2, '+', '-'), 2);
}

#[test]
fn terms_are_valid_within_the_limits_of_an_expression() {
    assert!(terms_are_valid(&vec![]));
    assert!(terms_are_valid(&vec![dice_term(true, 100, 1), RollTerm::Constant(i64::MIN)]));
    assert!(!terms_are_valid(&vec![dice_term(false, 101, 6)]));
    assert!(!terms_are_valid(&vec![dice_term(false, 1, 0)]));
    assert!(terms_are_valid(&vec![RollTerm::Constant(1); 20]));
    assert!(!terms_are_valid(&vec![RollTerm::Constant(1); 21]));
}
