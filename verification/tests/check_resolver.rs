use dsa_cli::dice::Dice;
use dsa_cli::dsa::check::{
    classify_roll, evaluate_check, is_resolvable, quality_level, roll_check, AttributeLine,
    CheckKind, CheckResult, CritRule, Facilitation, LineCrit,
};

fn lines(levels: &[i64]) -> Vec<AttributeLine> {
    levels
        .iter()
        .enumerate()
        .map(|(i, level)| AttributeLine { label: format!("line {}", i), level: *level })
        .collect()
}

fn flat(modifier: i64, count: usize, points_bonus: i64) -> Facilitation {
    Facilitation { per_line_modifier: vec![modifier; count], points_bonus }
}

fn evaluate(
    levels: &[i64],
    kind: CheckKind,
    rule: CritRule,
    facilitation: &Facilitation,
    rolls: &[i64],
    confirmations: &[i64],
) -> CheckResult {
    let lines = lines(levels);
    assert!(is_resolvable(&lines, kind, facilitation));
    evaluate_check(&lines, kind, rule, facilitation, &rolls.to_vec(), &confirmations.to_vec())
}

#[test]
fn simple_check_passes_when_roll_is_within_level() {
    let result = evaluate(&[10], CheckKind::Simple, CritRule::NoCrits, &flat(0, 1, 0), &[5], &[]);
    assert!(result.passed);
    assert_eq!(result.remaining_points, 0);
    assert_eq!(result.quality, None);
    assert_eq!(result.rolls, vec![5]);
}

#[test]
fn roll_of_one_is_free_whatever_the_level() {
    for level in [-50, -1, 0, 1, 20] {
        let result =
            evaluate(&[level], CheckKind::Simple, CritRule::NoCrits, &flat(0, 1, 0), &[1], &[]);
        assert!(result.passed);
        assert_eq!(result.remaining_points, 0);
    }
    let result =
        evaluate(&[0], CheckKind::Simple, CritRule::NoCrits, &flat(-100, 1, 0), &[1], &[]);
    assert!(result.passed);
}

#[test]
fn roll_of_twenty_fails_against_level_zero() {
    let result = evaluate(&[0], CheckKind::Simple, CritRule::NoCrits, &flat(0, 1, 0), &[20], &[]);
    assert!(!result.passed);
    assert_eq!(result.remaining_points, -20);
    assert_eq!(result.quality, None);
}

#[test]
fn points_budget_is_untouched_by_rolls_within_level() {
    let result = evaluate(
        &[10, 10, 10],
        CheckKind::PointsBudget(9),
        CritRule::NoCrits,
        &flat(0, 3, 0),
        &[10, 10, 10],
        &[],
    );
    assert_eq!(result.remaining_points, 9);
    assert!(result.passed);
    assert_eq!(result.quality, Some(3));
}

#[test]
fn points_budget_is_overspent_by_high_rolls() {
    let result = evaluate(
        &[10, 10, 10],
        CheckKind::PointsBudget(9),
        CritRule::NoCrits,
        &flat(0, 3, 0),
        &[15, 15, 15],
        &[],
    );
    assert_eq!(result.remaining_points, -6);
    assert!(!result.passed);
    assert_eq!(result.quality, None);
}

#[test]
fn threshold_rule_counts_one_crit_for_two_ones() {
    let result = evaluate(
        &[10, 10, 10],
        CheckKind::PointsBudget(5),
        CritRule::ThresholdCount(2),
        &flat(0, 3, 0),
        &[1, 1, 15],
        &[],
    );
    assert_eq!(result.crit_successes, 1);
    assert_eq!(result.crit_failures, 0);
    assert_eq!(result.unconfirmed_crit_successes, 0);
    assert_eq!(result.unconfirmed_crit_failures, 0);
}

#[test]
fn threshold_rule_needs_the_required_number_of_ones() {
    let result = evaluate(
        &[10, 10, 10],
        CheckKind::PointsBudget(5),
        CritRule::ThresholdCount(2),
        &flat(0, 3, 0),
        &[1, 15, 15],
        &[],
    );
    assert_eq!(result.crit_successes, 0);
    assert_eq!(result.crit_failures, 0);
}

#[test]
fn threshold_rule_counts_one_crit_failure_for_three_twenties() {
    let result = evaluate(
        &[10, 10, 10],
        CheckKind::PointsBudget(5),
        CritRule::ThresholdCount(2),
        &flat(0, 3, 0),
        &[20, 20, 20],
        &[],
    );
    assert_eq!(result.crit_successes, 0);
    assert_eq!(result.crit_failures, 1);
    assert_eq!(result.remaining_points, 5 - 30);
}

#[test]
fn confirmed_critical_success() {
    let result =
        evaluate(&[8], CheckKind::Simple, CritRule::Confirmable, &flat(0, 1, 0), &[1], &[5]);
    assert_eq!(result.crit_successes, 1);
    assert_eq!(result.unconfirmed_crit_successes, 0);
    assert_eq!(result.confirmation_rolls, vec![Some(5)]);
}

#[test]
fn unconfirmed_critical_success() {
    let result =
        evaluate(&[8], CheckKind::Simple, CritRule::Confirmable, &flat(0, 1, 0), &[1], &[15]);
    assert_eq!(result.crit_successes, 0);
    assert_eq!(result.unconfirmed_crit_successes, 1);
    assert_eq!(result.confirmation_rolls, vec![Some(15)]);
}

#[test]
fn confirmed_and_unconfirmed_critical_failure() {
    let confirmed =
        evaluate(&[8], CheckKind::Simple, CritRule::Confirmable, &flat(0, 1, 0), &[20], &[9]);
    assert_eq!(confirmed.crit_failures, 1);
    assert_eq!(confirmed.unconfirmed_crit_failures, 0);
    let unconfirmed =
        evaluate(&[8], CheckKind::Simple, CritRule::Confirmable, &flat(0, 1, 0), &[20], &[8]);
    assert_eq!(unconfirmed.crit_failures, 0);
    assert_eq!(unconfirmed.unconfirmed_crit_failures, 1);
}

#[test]
fn confirmation_compares_with_the_level_without_facilitation() {
    let result =
        evaluate(&[8], CheckKind::Simple, CritRule::Confirmable, &flat(5, 1, 0), &[1], &[10]);
    assert_eq!(result.crit_successes, 0);
    assert_eq!(result.unconfirmed_crit_successes, 1);
}

#[test]
fn confirmation_rolls_are_reported_only_for_extreme_rolls() {
    let result = evaluate(
        &[10, 10, 10],
        CheckKind::Simple,
        CritRule::Confirmable,
        &flat(0, 3, 0),
        &[1, 7, 20],
        &[3, 4, 19],
    );
    assert_eq!(result.confirmation_rolls, vec![Some(3), None, Some(19)]);
    assert_eq!(result.crit_successes, 1);
    assert_eq!(result.crit_failures, 1);
    let none = evaluate(
        &[10, 10],
        CheckKind::Simple,
        CritRule::NoCrits,
        &flat(0, 2, 0),
        &[1, 20],
        &[],
    );
    assert_eq!(none.confirmation_rolls, vec![None, None]);
    assert_eq!(none.crit_successes, 0);
    assert_eq!(none.crit_failures, 0);
}

#[test]
fn facilitation_shifts_the_level_of_each_line() {
    let facilitation = Facilitation { per_line_modifier: vec![2, -3], points_bonus: 0 };
    let result = evaluate(
        &[10, 10],
        CheckKind::PointsBudget(4),
        CritRule::NoCrits,
        &facilitation,
        &[12, 9],
        &[],
    );
    // 12 against 12 costs nothing, 9 against 7 costs 2.
    assert_eq!(result.remaining_points, 2);
    assert_eq!(result.quality, Some(1));
}

#[test]
fn points_bonus_is_added_and_the_start_is_never_negative() {
    let bonus = evaluate(
        &[10],
        CheckKind::PointsBudget(4),
        CritRule::NoCrits,
        &flat(0, 1, 3),
        &[10],
        &[],
    );
    assert_eq!(bonus.remaining_points, 7);
    assert_eq!(bonus.quality, Some(3));
    let negative = evaluate(
        &[10],
        CheckKind::PointsBudget(2),
        CritRule::NoCrits,
        &flat(0, 1, -5),
        &[10],
        &[],
    );
    assert_eq!(negative.remaining_points, 0);
    assert!(negative.passed);
    assert_eq!(negative.quality, Some(1));
}

#[test]
fn quality_is_a_third_of_the_points_rounded_up_within_one_to_six() {
    let points = CheckKind::PointsBudget(0);
    assert_eq!(quality_level(points, -1), None);
    assert_eq!(quality_level(points, 0), Some(1));
    assert_eq!(quality_level(points, 1), Some(1));
    assert_eq!(quality_level(points, 3), Some(1));
    assert_eq!(quality_level(points, 4), Some(2));
    assert_eq!(quality_level(points, 6), Some(2));
    assert_eq!(quality_level(points, 7), Some(3));
    assert_eq!(quality_level(points, 9), Some(3));
    assert_eq!(quality_level(points, 10), Some(4));
    assert_eq!(quality_level(points, 13), Some(5));
    assert_eq!(quality_level(points, 15), Some(5));
    assert_eq!(quality_level(points, 16), Some(6));
    assert_eq!(quality_level(points, 18), Some(6));
    assert_eq!(quality_level(points, 19), Some(6));
    assert_eq!(quality_level(points, i64::MAX), Some(6));
    assert_eq!(quality_level(CheckKind::Simple, 9), None);
}

#[test]
fn classify_roll_tells_the_five_cases_apart() {
    assert_eq!(classify_roll(1, 8, 8), LineCrit::Success);
    assert_eq!(classify_roll(1, 9, 8), LineCrit::UnconfirmedSuccess);
    assert_eq!(classify_roll(20, 9, 8), LineCrit::Failure);
    assert_eq!(classify_roll(20, 8, 8), LineCrit::UnconfirmedFailure);
    assert_eq!(classify_roll(2, 1, 8), LineCrit::Nothing);
    assert_eq!(classify_roll(19, 20, 8), LineCrit::Nothing);
}

#[test]
fn a_check_needs_one_modifier_for_each_line() {
    let two = lines(&[10, 10]);
    assert!(!is_resolvable(&two, CheckKind::Simple, &flat(0, 1, 0)));
    assert!(!is_resolvable(&two, CheckKind::Simple, &flat(0, 3, 0)));
    assert!(is_resolvable(&two, CheckKind::Simple, &flat(0, 2, 0)));
    assert!(is_resolvable(&lines(&[]), CheckKind::Simple, &flat(0, 0, 0)));
}

#[test]
fn a_check_whose_points_could_leave_their_range_cannot_be_resolved() {
    let one = lines(&[i64::MIN]);
    assert!(!is_resolvable(&one, CheckKind::Simple, &flat(-1, 1, 0)));
    let low = lines(&[i64::MIN + 30]);
    assert!(is_resolvable(&low, CheckKind::Simple, &flat(0, 1, 0)));
    let max = lines(&[10]);
    assert!(!is_resolvable(&max, CheckKind::PointsBudget(i64::MAX), &flat(0, 1, 1)));
    assert!(is_resolvable(&max, CheckKind::PointsBudget(i64::MAX), &flat(0, 1, 0)));
}

#[test]
fn points_stay_exact_at_the_edge_of_their_range() {
    let result = evaluate(
        &[i64::MIN + 20],
        CheckKind::Simple,
        CritRule::NoCrits,
        &flat(0, 1, 0),
        &[20],
        &[],
    );
    assert_eq!(result.remaining_points, i64::MIN);
    assert!(!result.passed);
}

#[test]
fn rolled_checks_are_resolutions_of_their_own_rolls() {
    let lines = lines(&[12, 9, 14]);
    let facilitation = Facilitation { per_line_modifier: vec![1, 0, -2], points_bonus: 1 };
    let kind = CheckKind::PointsBudget(6);
    for seed in 0..300u64 {
        let mut dice = Dice::from_seed(seed);
        let rolled = roll_check(&lines, kind, CritRule::Confirmable, &facilitation, &mut dice);
        assert_eq!(rolled.rolls.len(), 3);
        assert!(rolled.rolls.iter().all(|roll| (1..=20).contains(roll)));
        assert_eq!(rolled.confirmation_rolls.len(), 3);
        let mut confirmations = Vec::new();
        for (roll, confirmation) in rolled.rolls.iter().zip(rolled.confirmation_rolls.iter()) {
            assert_eq!(confirmation.is_some(), *roll == 1 || *roll == 20);
            if let Some(c) = confirmation {
                assert!((1..=20).contains(c));
            }
            confirmations.push(confirmation.unwrap_or(1));
        }
        let again = evaluate_check(
            &lines,
            kind,
            CritRule::Confirmable,
            &facilitation,
            &rolled.rolls,
            &confirmations,
        );
        assert_eq!(again.remaining_points, rolled.remaining_points);
        assert_eq!(again.passed, rolled.passed);
        assert_eq!(again.quality, rolled.quality);
        assert_eq!(again.crit_successes, rolled.crit_successes);
        assert_eq!(again.unconfirmed_crit_successes, rolled.unconfirmed_crit_successes);
        assert_eq!(again.crit_failures, rolled.crit_failures);
        assert_eq!(again.unconfirmed_crit_failures, rolled.unconfirmed_crit_failures);
        assert_eq!(again.confirmation_rolls, rolled.confirmation_rolls);
    }
}

#[test]
fn the_same_seed_rolls_the_same_check() {
    let lines = lines(&[12, 9, 14]);
    let facilitation = flat(0, 3, 0);
    let first = roll_check(
        &lines,
        CheckKind::Simple,
        CritRule::Confirmable,
        &facilitation,
        &mut Dice::from_seed(99),
    );
    let second = roll_check(
        &lines,
        CheckKind::Simple,
        CritRule::Confirmable,
        &facilitation,
        &mut Dice::from_seed(99),
    );
    assert_eq!(first.rolls, second.rolls);
    assert_eq!(first.confirmation_rolls, second.confirmation_rolls);
    assert_eq!(first.remaining_points, second.remaining_points);
}
