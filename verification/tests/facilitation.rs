use dsa_cli::dsa::check::Facilitation;
use dsa_cli::dsa::facilitation::{facilitation_error, get_facilitation, FacilitationFault};
use dsa_cli::util::{Error, ErrorType, InputErrorType};

fn labels(names: &[&str]) -> Vec<String> {
    names.iter().map(|name| String::from(*name)).collect()
}

fn accepted(result: Result<Facilitation, Error>) -> (Vec<i64>, i64) {
    let facilitation = result.expect("the facilitation should be accepted");
    (facilitation.per_line_modifier, facilitation.points_bonus)
}

fn rejected(result: Result<Facilitation, Error>) -> String {
    let error = result.expect_err("the facilitation should be rejected");
    assert!(matches!(
        error.err_type(),
        ErrorType::InvalidInput(InputErrorType::InvalidArgument)
    ));
    String::from(error.message())
}

#[test]
fn the_flat_modifier_applies_to_every_line() {
    let names = labels(&["mut", "klugheit", "intuition"]);
    assert_eq!(accepted(get_facilitation("2", None, None, &names)), (vec![2, 2, 2], 0));
    assert_eq!(accepted(get_facilitation("-3", None, None, &names)), (vec![-3, -3, -3], 0));
    assert_eq!(accepted(get_facilitation("+4", None, None, &names)), (vec![4, 4, 4], 0));
    assert_eq!(accepted(get_facilitation("0", None, None, &labels(&[]))), (vec![], 0));
}

#[test]
fn the_number_of_modifiers_is_the_number_of_lines() {
    for count in 0..5 {
        let names: Vec<String> = (0..count).map(|i| format!("attribute{}", i)).collect();
        let (modifiers, _) = accepted(get_facilitation("1", Some("attribute1:5"), None, &names));
        assert_eq!(modifiers.len(), count);
    }
}

#[test]
fn overrides_are_added_for_the_named_lines_whatever_the_case() {
    let names = labels(&["mut", "klugheit", "Mut"]);
    assert_eq!(
        accepted(get_facilitation("1", Some("MUT:3"), None, &names)),
        (vec![4, 1, 4], 0)
    );
    assert_eq!(
        accepted(get_facilitation("0", Some("mut:3,klugheit:-2,mut:1"), None, &names)),
        (vec![4, -2, 4], 0)
    );
}

#[test]
fn overrides_for_unknown_names_are_passed_over() {
    let names = labels(&["mut", "klugheit"]);
    assert_eq!(
        accepted(get_facilitation("1", Some("charisma:3"), None, &names)),
        (vec![1, 1], 0)
    );
    assert_eq!(accepted(get_facilitation("1", Some(":3"), None, &names)), (vec![1, 1], 0));
    assert_eq!(
        accepted(get_facilitation("1", Some(" mut:3"), None, &names)),
        (vec![1, 1], 0)
    );
}

#[test]
fn bonus_points_are_read_when_given() {
    let names = labels(&["mut"]);
    assert_eq!(accepted(get_facilitation("0", None, Some("3"), &names)), (vec![0], 3));
    assert_eq!(accepted(get_facilitation("0", None, Some("-2"), &names)), (vec![0], -2));
    assert_eq!(
        accepted(get_facilitation("0", Some("mut:1"), Some("7"), &names)),
        (vec![1], 7)
    );
}

#[test]
fn extreme_integers_are_read() {
    let names = labels(&["mut"]);
    assert_eq!(
        accepted(get_facilitation("-9223372036854775808", None, None, &names)),
        (vec![i64::MIN], 0)
    );
    assert_eq!(
        accepted(get_facilitation("9223372036854775807", None, Some("-0"), &names)),
        (vec![i64::MAX], 0)
    );
}

#[test]
fn a_flat_modifier_that_is_no_integer_is_rejected() {
    let names = labels(&["mut"]);
    let message = "Unable to parse facilitation: Argument must be an integer";
    for text in ["", "x", "1.5", " 1", "1 ", "--1", "+", "-", "9223372036854775808", "1_000"] {
        assert_eq!(rejected(get_facilitation(text, None, None, &names)), message);
    }
}

#[test]
fn an_override_without_exactly_one_colon_is_rejected() {
    let names = labels(&["mut"]);
    let message = "Unable to parse facilitation: Attribute name and facilitation must be \
                   separated by a colon";
    for text in ["", "mut", "mut:1:2", "mut:1,", "mut:1,,mut:2", ",mut:1", "mut:1,klugheit"] {
        assert_eq!(rejected(get_facilitation("0", Some(text), None, &names)), message);
    }
}

#[test]
fn an_override_amount_that_is_no_integer_is_rejected() {
    let names = labels(&["mut"]);
    let message = "Unable to parse facilitation: Invalid attribute facilitation amount";
    for text in ["mut:", "mut:x", "mut: 1", "mut:1 ", "mut:1,mut:y", "other:z"] {
        assert_eq!(rejected(get_facilitation("0", Some(text), None, &names)), message);
    }
}

#[test]
fn an_override_that_leaves_the_integer_range_is_rejected() {
    let names = labels(&["mut", "klugheit"]);
    let message = "Unable to parse facilitation: Attribute facilitation is out of range";
    assert_eq!(
        rejected(get_facilitation("9223372036854775807", Some("mut:1"), None, &names)),
        message
    );
    assert_eq!(
        rejected(get_facilitation("-2", Some("klugheit:-9223372036854775807"), None, &names)),
        message
    );
    assert_eq!(
        accepted(get_facilitation("9223372036854775807", Some("other:1"), None, &names)),
        (vec![i64::MAX, i64::MAX], 0)
    );
    assert_eq!(
        accepted(get_facilitation("9223372036854775806", Some("mut:1"), None, &names)),
        (vec![i64::MAX, i64::MAX - 1], 0)
    );
}

#[test]
fn bonus_points_that_are_no_integer_are_rejected() {
    let names = labels(&["mut"]);
    let message = "Unable to parse facilitation: bonus-points must be an integer";
    for text in ["", "x", "1.0", "1 "] {
        assert_eq!(rejected(get_facilitation("0", None, Some(text), &names)), message);
    }
}

#[test]
fn the_first_facilitation_fault_is_the_one_reported() {
    let names = labels(&["mut"]);
    assert_eq!(
        rejected(get_facilitation("x", Some("mut"), Some("y"), &names)),
        "Unable to parse facilitation: Argument must be an integer"
    );
    assert_eq!(
        rejected(get_facilitation("1", Some("mut:x,mut"), Some("y"), &names)),
        "Unable to parse facilitation: Invalid attribute facilitation amount"
    );
    assert_eq!(
        rejected(get_facilitation("1", Some("mut,mut:x"), Some("y"), &names)),
        "Unable to parse facilitation: Attribute name and facilitation must be separated by a \
         colon"
    );
}

#[test]
fn every_fault_has_its_message() {
    let messages: Vec<String> = [
        FacilitationFault::Flat,
        FacilitationFault::Pair,
        FacilitationFault::Amount,
        FacilitationFault::Range,
        FacilitationFault::Bonus,
    ]
    .iter()
    .map(|fault| String::from(facilitation_error(*fault).message()))
    .collect();
    for (i, message) in messages.iter().enumerate() {
        assert!(message.starts_with("Unable to parse facilitation: "));
        for other in messages.iter().skip(i + 1) {
            assert_ne!(message, other);
        }
    }
}
