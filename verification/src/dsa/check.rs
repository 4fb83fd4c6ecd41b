//! Resolution of a single check: points spent on the rolls, pass or fail,
//! quality level and critical results.

use crate::dice::Dice;
use vstd::prelude::*;

verus! {

/// One governing attribute or technique that takes part in a check.
#[derive(Debug)]
pub struct AttributeLine {
    pub label: String,
    pub level: i64,
}

/// The situational modifiers of one check.
///
/// `per_line_modifier` holds one entry for each line of the check it is used
/// with; `points_bonus` is added to the budget of a points check.
#[derive(Debug)]
pub struct Facilitation {
    pub per_line_modifier: Vec<i64>,
    pub points_bonus: i64,
}

/// Whether rolls only have to stay below the levels, or may be compensated
/// from a budget of points.
#[derive(Clone, Copy, Debug, PartialEq, Eq, Structural)]
pub enum CheckKind {
    Simple,
    PointsBudget(i64),
}

/// How rolls of 1 and 20 are turned into critical results.
#[derive(Clone, Copy, Debug, PartialEq, Eq, Structural)]
pub enum CritRule {
    /// Extreme rolls have no further meaning.
    NoCrits,
    /// Every 1 and every 20 is followed by a second roll that confirms it or
    /// does not.
    Confirmable,
    /// One critical result once at least this many lines show the same
    /// extreme roll.
    ThresholdCount(u32),
}

/// What a line's roll means under [`CritRule::Confirmable`].
#[derive(Clone, Copy, Debug, PartialEq, Eq, Structural)]
pub enum LineCrit {
    Nothing,
    Success,
    UnconfirmedSuccess,
    Failure,
    UnconfirmedFailure,
}

/// The structured outcome of a check.
#[derive(Debug)]
pub struct CheckResult {
    /// The raw roll of each line, in line order.
    pub rolls: Vec<i64>,
    /// The confirmation roll of each line that needed one.
    pub confirmation_rolls: Vec<Option<i64>>,
    pub remaining_points: i64,
    pub passed: bool,
    pub quality: Option<u8>,
    pub crit_successes: usize,
    pub unconfirmed_crit_successes: usize,
    pub crit_failures: usize,
    pub unconfirmed_crit_failures: usize,
}

/// Number of faces of the die every line is rolled with.
pub const CHECK_DIE: i64 = 20;

/// The points a check starts with.
pub open spec fn starting_points(kind: CheckKind, points_bonus: i64) -> int {
    match kind {
        CheckKind::Simple => 0,
        CheckKind::PointsBudget(available) => if available + points_bonus > 0 {
            available + points_bonus
        } else {
            0
        },
    }
}

/// The points one line costs: nothing for a roll of 1 or a roll within the
/// modified level, otherwise the amount by which the roll exceeds it.
pub open spec fn deficit(roll: int, level: int, modifier: int) -> int {
    if roll == 1 || roll <= level + modifier {
        0
    } else {
        roll - (level + modifier)
    }
}

/// The points the first `k` lines cost together.
pub open spec fn points_spent(
    levels: Seq<i64>,
    modifiers: Seq<i64>,
    rolls: Seq<i64>,
    k: int,
) -> int
    decreases k,
{
    if k <= 0 {
        0
    } else {
        points_spent(levels, modifiers, rolls, k - 1) + deficit(
            rolls[k - 1] as int,
            levels[k - 1] as int,
            modifiers[k - 1] as int,
        )
    }
}

/// The most the first `k` lines can cost: what they cost when each shows 20.
pub open spec fn most_points_spent(levels: Seq<i64>, modifiers: Seq<i64>, k: int) -> int
    decreases k,
{
    if k <= 0 {
        0
    } else {
        most_points_spent(levels, modifiers, k - 1) + deficit(
            CHECK_DIE as int,
            levels[k - 1] as int,
            modifiers[k - 1] as int,
        )
    }
}

/// The levels of the lines, in order.
pub open spec fn line_levels(lines: Seq<AttributeLine>) -> Seq<i64> {
    Seq::new(lines.len(), |i: int| lines[i].level)
}

/// A check can be resolved when there is one modifier for each line and the
/// points counter stays representable whatever is rolled.
pub open spec fn resolvable(
    levels: Seq<i64>,
    kind: CheckKind,
    modifiers: Seq<i64>,
    points_bonus: i64,
) -> bool {
    &&& modifiers.len() == levels.len()
    &&& starting_points(kind, points_bonus) <= i64::MAX
    &&& starting_points(kind, points_bonus) - most_points_spent(
        levels,
        modifiers,
        levels.len() as int,
    ) >= i64::MIN
}

/// The check with these lines and this facilitation can be resolved.
pub open spec fn check_resolvable(
    lines: Seq<AttributeLine>,
    kind: CheckKind,
    facilitation: Facilitation,
) -> bool {
    resolvable(
        line_levels(lines),
        kind,
        facilitation.per_line_modifier@,
        facilitation.points_bonus,
    )
}

/// Every entry is a face of the twenty-sided die.
pub open spec fn all_d20(rolls: Seq<i64>) -> bool {
    forall|i: int| 0 <= i < rolls.len() ==> 1 <= #[trigger] rolls[i] <= CHECK_DIE
}

/// A third of `points`, rounded up.
pub open spec fn third_rounded_up(points: int) -> int {
    (points + 2) / 3
}

/// The quality level of a check that ended with `remaining` points: none for
/// simple or failed checks, otherwise a third of the points, rounded up and
/// kept within 1 to 6.
pub open spec fn quality_of(kind: CheckKind, remaining: int) -> Option<u8> {
    if kind is Simple || remaining < 0 {
        None
    } else if third_rounded_up(remaining) < 1 {
        Some(1u8)
    } else if third_rounded_up(remaining) > 6 {
        Some(6u8)
    } else {
        Some(third_rounded_up(remaining) as u8)
    }
}

/// What a roll and its confirmation roll mean for a line of the given level.
pub open spec fn line_crit(roll: i64, confirmation: i64, level: i64) -> LineCrit {
    if roll == 1 {
        if confirmation <= level {
            LineCrit::Success
        } else {
            LineCrit::UnconfirmedSuccess
        }
    } else if roll == CHECK_DIE {
        if confirmation > level {
            LineCrit::Failure
        } else {
            LineCrit::UnconfirmedFailure
        }
    } else {
        LineCrit::Nothing
    }
}

/// How many of the first `k` lines have the critical result `which`.
pub open spec fn count_crits(
    levels: Seq<i64>,
    rolls: Seq<i64>,
    confirmations: Seq<i64>,
    which: LineCrit,
    k: int,
) -> nat
    decreases k,
{
    if k <= 0 {
        0
    } else {
        count_crits(levels, rolls, confirmations, which, k - 1) + if line_crit(
            rolls[k - 1],
            confirmations[k - 1],
            levels[k - 1],
        ) == which {
            1nat
        } else {
            0nat
        }
    }
}

/// How many of the first `k` rolls show `face`.
pub open spec fn count_face(rolls: Seq<i64>, face: i64, k: int) -> nat
    decreases k,
{
    if k <= 0 {
        0
    } else {
        count_face(rolls, face, k - 1) + if rolls[k - 1] == face {
            1nat
        } else {
            0nat
        }
    }
}

/// The number of critical results of one sort that a check reports.
///
/// `confirmed` and `unconfirmed` name the two results a confirmation roll can
/// have for the extreme roll `face`.
pub open spec fn crit_count(
    rule: CritRule,
    levels: Seq<i64>,
    rolls: Seq<i64>,
    confirmations: Seq<i64>,
    which: LineCrit,
) -> nat {
    match rule {
        CritRule::NoCrits => 0,
        CritRule::Confirmable => count_crits(
            levels,
            rolls,
            confirmations,
            which,
            levels.len() as int,
        ),
        CritRule::ThresholdCount(required) => match which {
            LineCrit::Success => if count_face(rolls, 1, rolls.len() as int) >= required {
                1
            } else {
                0
            },
            LineCrit::Failure => if count_face(rolls, CHECK_DIE, rolls.len() as int)
                >= required {
                1
            } else {
                0
            },
            _ => 0,
        },
    }
}

/// The confirmation roll that is reported for a line: the one that was made
/// for a 1 or a 20 under [`CritRule::Confirmable`], and none otherwise.
pub open spec fn reported_confirmation(rule: CritRule, roll: i64, confirmation: i64) -> Option<
    i64,
> {
    if rule is Confirmable && (roll == 1 || roll == CHECK_DIE) {
        Some(confirmation)
    } else {
        None
    }
}

/// The points left after all lines were rolled.
pub open spec fn points_left(
    levels: Seq<i64>,
    kind: CheckKind,
    modifiers: Seq<i64>,
    points_bonus: i64,
    rolls: Seq<i64>,
) -> int {
    starting_points(kind, points_bonus) - points_spent(levels, modifiers, rolls, levels.len() as int)
}

/// `result` is the outcome of the check for the given rolls and confirmation
/// rolls. A confirmation roll counts only for a line that shows 1 or 20.
pub open spec fn is_resolution(
    result: CheckResult,
    levels: Seq<i64>,
    kind: CheckKind,
    rule: CritRule,
    modifiers: Seq<i64>,
    points_bonus: i64,
    rolls: Seq<i64>,
    confirmations: Seq<i64>,
) -> bool {
    let left = points_left(levels, kind, modifiers, points_bonus, rolls);
    &&& result.rolls@ == rolls
    &&& result.confirmation_rolls@.len() == levels.len()
    &&& forall|i: int|
        0 <= i < levels.len() ==> #[trigger] result.confirmation_rolls@[i] == reported_confirmation(
            rule,
            rolls[i],
            confirmations[i],
        )
    &&& result.remaining_points == left
    &&& result.passed == (left >= 0)
    &&& result.quality == quality_of(kind, left)
    &&& result.crit_successes == crit_count(rule, levels, rolls, confirmations, LineCrit::Success)
    &&& result.unconfirmed_crit_successes == crit_count(
        rule,
        levels,
        rolls,
        confirmations,
        LineCrit::UnconfirmedSuccess,
    )
    &&& result.crit_failures == crit_count(rule, levels, rolls, confirmations, LineCrit::Failure)
    &&& result.unconfirmed_crit_failures == crit_count(
        rule,
        levels,
        rolls,
        confirmations,
        LineCrit::UnconfirmedFailure,
    )
}

/// `result` is the outcome of the check with these lines and this
/// facilitation for the given rolls and confirmation rolls.
pub open spec fn resolves(
    result: CheckResult,
    lines: Seq<AttributeLine>,
    kind: CheckKind,
    rule: CritRule,
    facilitation: Facilitation,
    rolls: Seq<i64>,
    confirmations: Seq<i64>,
) -> bool {
    is_resolution(
        result,
        line_levels(lines),
        kind,
        rule,
        facilitation.per_line_modifier@,
        facilitation.points_bonus,
        rolls,
        confirmations,
    )
}

/// `result` is an outcome that rolling the check can have: its resolution
/// for the rolls it reports and for some confirmation rolls, all of them
/// faces of the die.
pub open spec fn is_rolled_resolution(
    result: CheckResult,
    levels: Seq<i64>,
    kind: CheckKind,
    rule: CritRule,
    modifiers: Seq<i64>,
    points_bonus: i64,
) -> bool {
    &&& result.rolls@.len() == levels.len()
    &&& all_d20(result.rolls@)
    &&& exists|confirmations: Seq<i64>|
        {
            &&& confirmations.len() == levels.len()
            &&& all_d20(confirmations)
            &&& #[trigger] is_resolution(
                result,
                levels,
                kind,
                rule,
                modifiers,
                points_bonus,
                result.rolls@,
                confirmations,
            )
        }
}

/// A roll never costs more than a 20 does.
pub proof fn lemma_deficit_bounded(roll: int, level: int, modifier: int)
    requires
        1 <= roll <= CHECK_DIE,
    ensures
        0 <= deficit(roll, level, modifier) <= deficit(CHECK_DIE as int, level, modifier),
{
}

/// The most that can be spent grows with the number of lines and is never
/// negative.
pub proof fn lemma_most_points_spent_monotone(
    lines: Seq<i64>,
    modifiers: Seq<i64>,
    j: int,
    k: int,
)
    requires
        j <= k,
    ensures
        0 <= most_points_spent(lines, modifiers, j) <= most_points_spent(lines, modifiers, k),
    decreases k,
{
    if k <= 0 {
    } else if j == k {
        lemma_most_points_spent_monotone(lines, modifiers, j - 1, k - 1);
    } else {
        lemma_most_points_spent_monotone(lines, modifiers, j, k - 1);
    }
}

/// Whatever is rolled costs between nothing and the most that can be spent.
pub proof fn lemma_points_spent_bounded(
    lines: Seq<i64>,
    modifiers: Seq<i64>,
    rolls: Seq<i64>,
    k: int,
)
    requires
        all_d20(rolls),
        k <= rolls.len(),
    ensures
        0 <= points_spent(lines, modifiers, rolls, k) <= most_points_spent(lines, modifiers, k),
    decreases k,
{
    if k > 0 {
        lemma_points_spent_bounded(lines, modifiers, rolls, k - 1);
        lemma_deficit_bounded(
            rolls[k - 1] as int,
            lines[k - 1] as int,
            modifiers[k - 1] as int,
        );
    }
}

/// Lines that show 1 cost nothing, whatever their levels and modifiers: a
/// check in which every line shows 1 ends with the points it started with,
/// and so is passed.
pub proof fn lemma_rolls_of_one_are_free(
    levels: Seq<i64>,
    kind: CheckKind,
    modifiers: Seq<i64>,
    points_bonus: i64,
    rolls: Seq<i64>,
    k: int,
)
    requires
        0 <= k <= rolls.len(),
        forall|i: int| 0 <= i < k ==> #[trigger] rolls[i] == 1,
    ensures
        points_spent(levels, modifiers, rolls, k) == 0,
        k == levels.len() ==> points_left(levels, kind, modifiers, points_bonus, rolls)
            == starting_points(kind, points_bonus) && points_left(
            levels,
            kind,
            modifiers,
            points_bonus,
            rolls,
        ) >= 0,
    decreases k,
{
    if k > 0 {
        lemma_rolls_of_one_are_free(levels, kind, modifiers, points_bonus, rolls, k - 1);
    }
}

/// Under a threshold rule a check reports at most one critical success and
/// at most one critical failure, and none that is unconfirmed.
pub proof fn lemma_threshold_reports_at_most_one(
    required: u32,
    levels: Seq<i64>,
    rolls: Seq<i64>,
    confirmations: Seq<i64>,
    which: LineCrit,
)
    ensures
        crit_count(CritRule::ThresholdCount(required), levels, rolls, confirmations, which) <= 1,
        which is UnconfirmedSuccess || which is UnconfirmedFailure || which is Nothing
            ==> crit_count(CritRule::ThresholdCount(required), levels, rolls, confirmations, which)
            == 0,
{
}

/// A simple check has no quality level and a failed check has none; every
/// other check has one of 1 to 6, which for 1 to 18 remaining points is a
/// third of them, rounded up.
pub proof fn lemma_quality_range(kind: CheckKind, remaining: int)
    ensures
        quality_of(kind, remaining) is None <==> kind is Simple || remaining < 0,
        quality_of(kind, remaining) matches Some(q) ==> 1 <= q <= 6,
        quality_of(kind, remaining) matches Some(q) ==> (1 <= remaining <= 18 ==> 3 * (q - 1)
            < remaining <= 3 * q),
{
}

fn starting_points_of(kind: CheckKind, points_bonus: i64) -> (start: i128)
    ensures
        start == starting_points(kind, points_bonus),
{
    match kind {
        CheckKind::Simple => 0,
        CheckKind::PointsBudget(available) => {
            let sum: i128 = available as i128 + points_bonus as i128;
            if sum > 0 {
                sum
            } else {
                0
            }
        },
    }
}

fn deficit_of(roll: i64, level: i64, modifier: i64) -> (cost: i128)
    ensures
        cost == deficit(roll as int, level as int, modifier as int),
{
    let target: i128 = level as i128 + modifier as i128;
    if roll == 1 || roll as i128 <= target {
        0
    } else {
        roll as i128 - target
    }
}

/// Tells whether a check with these lines and this facilitation can be
/// resolved: one modifier per line, and a points counter that fits its type
/// for every possible roll.
pub fn is_resolvable(lines: &Vec<AttributeLine>, kind: CheckKind, facilitation: &Facilitation) -> (ok:
    bool)
    ensures
        ok == check_resolvable(lines@, kind, *facilitation),
{
    let ghost levels = line_levels(lines@);
    if facilitation.per_line_modifier.len() != lines.len() {
        return false;
    }
    let start = starting_points_of(kind, facilitation.points_bonus);
    if start > i64::MAX as i128 {
        return false;
    }
    let mut spent: i128 = 0;
    let mut i: usize = 0;
    while i < lines.len()
        invariant
            i <= lines.len(),
            facilitation.per_line_modifier@.len() == lines@.len(),
            levels == line_levels(lines@),
            start == starting_points(kind, facilitation.points_bonus),
            0 <= start <= i64::MAX,
            spent == most_points_spent(levels, facilitation.per_line_modifier@, i as int),
            start - spent >= i64::MIN,
        decreases lines.len() - i,
    {
        proof {
            lemma_most_points_spent_monotone(
                levels,
                facilitation.per_line_modifier@,
                i as int,
                i as int,
            );
        }
        let cost = deficit_of(CHECK_DIE, lines[i].level, facilitation.per_line_modifier[i]);
        spent = spent + cost;
        i = i + 1;
        assert(spent == most_points_spent(levels, facilitation.per_line_modifier@, i as int));
        if start - spent < i64::MIN as i128 {
            proof {
                lemma_most_points_spent_monotone(
                    levels,
                    facilitation.per_line_modifier@,
                    i as int,
                    lines@.len() as int,
                );
            }
            return false;
        }
    }
    true
}

/// Tells what a roll and its confirmation roll mean for a line of the given
/// level under [`CritRule::Confirmable`].
pub fn classify_roll(roll: i64, confirmation: i64, level: i64) -> (crit: LineCrit)
    ensures
        crit == line_crit(roll, confirmation, level),
{
    if roll == 1 {
        if confirmation <= level {
            LineCrit::Success
        } else {
            LineCrit::UnconfirmedSuccess
        }
    } else if roll == CHECK_DIE {
        if confirmation > level {
            LineCrit::Failure
        } else {
            LineCrit::UnconfirmedFailure
        }
    } else {
        LineCrit::Nothing
    }
}

/// The quality level for the points a check ended with.
pub fn quality_level(kind: CheckKind, remaining: i64) -> (quality: Option<u8>)
    ensures
        quality == quality_of(kind, remaining as int),
{
    match kind {
        CheckKind::Simple => None,
        CheckKind::PointsBudget(_) => {
            if remaining < 0 {
                None
            } else if remaining <= 3 {
                Some(1)
            } else if remaining >= 16 {
                Some(6)
            } else {
                Some(((remaining + 2) / 3) as u8)
            }
        },
    }
}

/// Resolves a check whose dice have already been cast.
///
/// `rolls` holds the roll of each line. `confirmations` holds the second roll
/// of each line and is read only under [`CritRule::Confirmable`], and there
/// only for lines that show 1 or 20.
pub fn evaluate_check(
    lines: &Vec<AttributeLine>,
    kind: CheckKind,
    crit_rule: CritRule,
    facilitation: &Facilitation,
    rolls: &Vec<i64>,
    confirmations: &Vec<i64>,
) -> (result: CheckResult)
    requires
        check_resolvable(lines@, kind, *facilitation),
        rolls@.len() == lines@.len(),
        all_d20(rolls@),
        crit_rule is Confirmable ==> confirmations@.len() == lines@.len(),
    ensures
        resolves(result, lines@, kind, crit_rule, *facilitation, rolls@, confirmations@),
{
    let ghost levels = line_levels(lines@);
    let n = lines.len();
    let start = starting_points_of(kind, facilitation.points_bonus);
    let mut points: i128 = start;
    let mut i: usize = 0;
    while i < n
        invariant
            i <= n,
            n == lines@.len(),
            levels == line_levels(lines@),
            rolls@.len() == n,
            all_d20(rolls@),
            check_resolvable(lines@, kind, *facilitation),
            start == starting_points(kind, facilitation.points_bonus),
            points == start - points_spent(
                levels,
                facilitation.per_line_modifier@,
                rolls@,
                i as int,
            ),
            i64::MIN <= points <= i64::MAX,
        decreases n - i,
    {
        proof {
            lemma_points_spent_bounded(
                levels,
                facilitation.per_line_modifier@,
                rolls@,
                i as int + 1,
            );
            lemma_points_spent_bounded(levels, facilitation.per_line_modifier@, rolls@, i as int);
            lemma_most_points_spent_monotone(
                levels,
                facilitation.per_line_modifier@,
                i as int + 1,
                n as int,
            );
        }
        let cost = deficit_of(rolls[i], lines[i].level, facilitation.per_line_modifier[i]);
        points = points - cost;
        i = i + 1;
    }
    let remaining = points as i64;

    let mut confirmation_rolls: Vec<Option<i64>> = Vec::new();
    let mut crit_successes: usize = 0;
    let mut unconfirmed_crit_successes: usize = 0;
    let mut crit_failures: usize = 0;
    let mut unconfirmed_crit_failures: usize = 0;
    match crit_rule {
        CritRule::NoCrits => {
            let mut j: usize = 0;
            while j < n
                invariant
                    j <= n,
                    confirmation_rolls@.len() == j,
                    forall|k: int| 0 <= k < j ==> #[trigger] confirmation_rolls@[k] == None::<i64>,
                decreases n - j,
            {
                confirmation_rolls.push(None);
                j = j + 1;
            }
        },
        CritRule::Confirmable => {
            let mut j: usize = 0;
            while j < n
                invariant
                    j <= n,
                    n == lines@.len(),
                    levels == line_levels(lines@),
                    rolls@.len() == n,
                    confirmations@.len() == n,
                    confirmation_rolls@.len() == j,
                    forall|k: int|
                        0 <= k < j ==> #[trigger] confirmation_rolls@[k] == reported_confirmation(
                            crit_rule,
                            rolls@[k],
                            confirmations@[k],
                        ),
                    crit_rule is Confirmable,
                    crit_successes == count_crits(
                        levels,
                        rolls@,
                        confirmations@,
                        LineCrit::Success,
                        j as int,
                    ),
                    unconfirmed_crit_successes == count_crits(
                        levels,
                        rolls@,
                        confirmations@,
                        LineCrit::UnconfirmedSuccess,
                        j as int,
                    ),
                    crit_failures == count_crits(
                        levels,
                        rolls@,
                        confirmations@,
                        LineCrit::Failure,
                        j as int,
                    ),
                    unconfirmed_crit_failures == count_crits(
                        levels,
                        rolls@,
                        confirmations@,
                        LineCrit::UnconfirmedFailure,
                        j as int,
                    ),
                    crit_successes <= j,
                    unconfirmed_crit_successes <= j,
                    crit_failures <= j,
                    unconfirmed_crit_failures <= j,
                decreases n - j,
            {
                let roll = rolls[j];
                match classify_roll(roll, confirmations[j], lines[j].level) {
                    LineCrit::Nothing => {},
                    LineCrit::Success => {
                        crit_successes = crit_successes + 1;
                    },
                    LineCrit::UnconfirmedSuccess => {
                        unconfirmed_crit_successes = unconfirmed_crit_successes + 1;
                    },
                    LineCrit::Failure => {
                        crit_failures = crit_failures + 1;
                    },
                    LineCrit::UnconfirmedFailure => {
                        unconfirmed_crit_failures = unconfirmed_crit_failures + 1;
                    },
                }
                if roll == 1 || roll == CHECK_DIE {
                    confirmation_rolls.push(Some(confirmations[j]));
                } else {
                    confirmation_rolls.push(None);
                }
                j = j + 1;
            }
        },
        CritRule::ThresholdCount(required) => {
            let mut ones: usize = 0;
            let mut twenties: usize = 0;
            let mut j: usize = 0;
            while j < n
                invariant
                    j <= n,
                    rolls@.len() == n,
                    confirmation_rolls@.len() == j,
                    forall|k: int| 0 <= k < j ==> #[trigger] confirmation_rolls@[k] == None::<i64>,
                    ones == count_face(rolls@, 1, j as int),
                    twenties == count_face(rolls@, CHECK_DIE, j as int),
                    ones <= j,
                    twenties <= j,
                decreases n - j,
            {
                if rolls[j] == 1 {
                    ones = ones + 1;
                } else if rolls[j] == CHECK_DIE {
                    twenties = twenties + 1;
                }
                confirmation_rolls.push(None);
                j = j + 1;
            }
            if ones as u64 >= required as u64 {
                crit_successes = 1;
            }
            if twenties as u64 >= required as u64 {
                crit_failures = 1;
            }
        },
    }
    CheckResult {
        rolls: rolls.clone(),
        confirmation_rolls,
        remaining_points: remaining,
        passed: remaining >= 0,
        quality: quality_level(kind, remaining),
        crit_successes,
        unconfirmed_crit_successes,
        crit_failures,
        unconfirmed_crit_failures,
    }
}

/// Rolls a check: one twenty-sided die for each line, then, under
/// [`CritRule::Confirmable`], one more for each line that shows 1 or 20.
///
/// The outcome is the resolution of the check for the rolls that are
/// reported in it and for some confirmation rolls, all of them faces of the
/// die.
pub fn roll_check(
    lines: &Vec<AttributeLine>,
    kind: CheckKind,
    crit_rule: CritRule,
    facilitation: &Facilitation,
    dice: &mut Dice,
) -> (result: CheckResult)
    requires
        check_resolvable(lines@, kind, *facilitation),
    ensures
        is_rolled_resolution(
            result,
            line_levels(lines@),
            kind,
            crit_rule,
            facilitation.per_line_modifier@,
            facilitation.points_bonus,
        ),
{
    let n = lines.len();
    let mut rolls: Vec<i64> = Vec::new();
    let mut i: usize = 0;
    while i < n
        invariant
            i <= n,
            rolls@.len() == i,
            all_d20(rolls@),
        decreases n - i,
    {
        let roll = dice.roll(1, CHECK_DIE);
        rolls.push(roll);
        i = i + 1;
    }
    let mut confirmations: Vec<i64> = Vec::new();
    let mut j: usize = 0;
    while j < n
        invariant
            j <= n,
            rolls@.len() == n,
            confirmations@.len() == j,
            all_d20(confirmations@),
        decreases n - j,
    {
        let needed = match crit_rule {
            CritRule::Confirmable => rolls[j] == 1 || rolls[j] == CHECK_DIE,
            _ => false,
        };
        // A line without an extreme roll gets no second roll; its entry is
        // never read.
        let confirmation = if needed {
            dice.roll(1, CHECK_DIE)
        } else {
            1
        };
        confirmations.push(confirmation);
        j = j + 1;
    }
    let result = evaluate_check(lines, kind, crit_rule, facilitation, &rolls, &confirmations);
    assert(is_resolution(
        result,
        line_levels(lines@),
        kind,
        crit_rule,
        facilitation.per_line_modifier@,
        facilitation.points_bonus,
        result.rolls@,
        confirmations@,
    ));
    result
}

} // verus!
