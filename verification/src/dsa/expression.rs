//! Dice expressions such as `3d6 + 5 - w20`: reading them, rolling the dice
//! they ask for, and adding everything up.

use crate::dice::Dice;
use crate::text::{
    chars_of, find_first_of, first_of, parse_unsigned, parsed_unsigned, trim_range, trimmed,
};
use crate::util::{invalid_argument, is_invalid_argument, Error};
use vstd::prelude::*;
use vstd::string::StrSliceExecFns;
use vstd::string::StringExecFns;

verus! {

/// The most dice a single term may ask for.
pub const MAX_NUM_DICE: u32 = 100;

/// The most terms an expression may have.
pub const MAX_ROLL_EXPRESSIONS: usize = 20;

/// One term of a dice expression.
#[derive(Clone, Copy, Debug, PartialEq, Eq, Structural)]
pub enum RollTerm {
    /// A number, with its sign.
    Constant(i64),
    /// `count` dice with `sides` faces each, added or, if `negative`,
    /// subtracted.
    Dice { negative: bool, count: u32, sides: u32 },
}

/// Why an expression was rejected.
#[derive(Clone, Copy, Debug, PartialEq, Eq, Structural)]
pub enum TermFault {
    /// Nothing follows the `d` or `w`.
    MissingDieType,
    /// A term holds more than one `d` or `w`.
    TooManySeparators,
    /// What stands before the `d` or `w` is no number.
    InvalidDieNumber,
    /// What follows the `d` or `w` is no number.
    InvalidDieType,
    /// A die without faces.
    NoSides,
    /// More than [`MAX_NUM_DICE`] dice in one term.
    TooManyDice,
    /// A term without `d` or `w` that is no number.
    InvalidNumber,
    /// More than [`MAX_ROLL_EXPRESSIONS`] terms.
    TooManyTerms,
}

/// One die that was rolled for an expression.
#[derive(Clone, Copy, Debug, PartialEq, Eq, Structural)]
pub struct DieRoll {
    pub value: i64,
    pub sides: u32,
}

/// What an expression came to: the sum of its terms and every die that was
/// rolled for it, in the order of the expression.
#[derive(Debug)]
pub struct RollOutcome {
    pub total: i128,
    pub dice: Vec<DieRoll>,
}

/// Where the text of the term `s[from..to]` starts once its sign is left out.
pub open spec fn body_start(s: Seq<char>, from: int, to: int) -> int {
    if from < to && (s[from] == '+' || s[from] == '-') {
        from + 1
    } else {
        from
    }
}

/// What the term `s[from..to]` reads as.
///
/// After an optional sign a term is either a number, or dice: an optional
/// count, one `d` or `w`, and the number of faces. White space around the
/// numbers does not count.
pub open spec fn parsed_term(s: Seq<char>, from: int, to: int) -> Result<RollTerm, TermFault> {
    let negative = from < to && s[from] == '-';
    let start = body_start(s, from, to);
    let separator = first_of(s, start, to, 'd', 'w');
    if separator < to {
        let count_text = trimmed(s.subrange(start, separator));
        let sides_text = trimmed(s.subrange(separator + 1, to));
        let count = if count_text.len() == 0 {
            Some(1int)
        } else {
            parsed_unsigned(count_text, u32::MAX as int)
        };
        let sides = parsed_unsigned(sides_text, u32::MAX as int);
        if first_of(s, separator + 1, to, 'd', 'w') < to {
            Err(TermFault::TooManySeparators)
        } else if sides_text.len() == 0 {
            Err(TermFault::MissingDieType)
        } else if count is None {
            Err(TermFault::InvalidDieNumber)
        } else if sides is None {
            Err(TermFault::InvalidDieType)
        } else if sides->0 < 1 {
            Err(TermFault::NoSides)
        } else if count->0 > MAX_NUM_DICE {
            Err(TermFault::TooManyDice)
        } else {
            Ok(RollTerm::Dice { negative, count: count->0 as u32, sides: sides->0 as u32 })
        }
    } else {
        match parsed_unsigned(trimmed(s.subrange(start, to)), i64::MAX as int) {
            Some(v) => Ok(
                RollTerm::Constant(
                    if negative {
                        (-v) as i64
                    } else {
                        v as i64
                    },
                ),
            ),
            None => Err(TermFault::InvalidNumber),
        }
    }
}

/// What `s` reads as from `begin` on, after the terms `terms`: the terms of
/// the whole expression, or the first fault with the term it was found in.
///
/// A term ends where the next `+` or `-` stands.
pub open spec fn parsed_from(s: Seq<char>, begin: int, terms: Seq<RollTerm>) -> Result<
    Seq<RollTerm>,
    (TermFault, int, int),
>
    decreases MAX_ROLL_EXPRESSIONS - terms.len(),
{
    if terms.len() >= MAX_ROLL_EXPRESSIONS {
        Err((TermFault::TooManyTerms, begin, s.len() as int))
    } else {
        let end = first_of(s, begin + 1, s.len() as int, '+', '-');
        match parsed_term(s, begin, end) {
            Err(fault) => Err((fault, begin, end)),
            Ok(term) => if end >= s.len() {
                Ok(terms.push(term))
            } else {
                parsed_from(s, end, terms.push(term))
            },
        }
    }
}

/// What the expression `s` reads as.
pub open spec fn parsed_expression(s: Seq<char>) -> Result<Seq<RollTerm>, (TermFault, int, int)> {
    parsed_from(s, 0, Seq::empty())
}

/// The message that reports `fault`, found in the term `s[from..to]`.
pub open spec fn fault_message(fault: TermFault, s: Seq<char>, from: int, to: int) -> Seq<char> {
    let body = s.subrange(body_start(s, from, to), to);
    match fault {
        TermFault::MissingDieType => "Die type missing in expression \""@ + body + "\""@,
        TermFault::TooManySeparators => "Too many \"d\"s and/or \"w\"s in expression \""@ + body
            + "\""@,
        TermFault::InvalidDieNumber => "Invalid die number in expression \""@ + body + "\""@,
        TermFault::InvalidDieType => "Unable to parse die type in expression \""@ + body + "\""@,
        TermFault::NoSides => "Invalid die type in expression \""@ + body + "\""@,
        TermFault::TooManyDice => "Number of dice exceeds maximum of 100 in expression \""@ + body
            + "\""@,
        TermFault::InvalidNumber => "Unable to parse number \""@ + body + "\""@,
        TermFault::TooManyTerms => "Number of roll expressions exceeds maximum of 20"@,
    }
}

/// The terms are such as an expression can have: at most
/// [`MAX_ROLL_EXPRESSIONS`] of them, and dice of at least one face, at most
/// [`MAX_NUM_DICE`] in a term.
pub open spec fn valid_terms(terms: Seq<RollTerm>) -> bool {
    &&& terms.len() <= MAX_ROLL_EXPRESSIONS
    &&& forall|k: int|
        0 <= k < terms.len() ==> (#[trigger] terms[k] matches RollTerm::Dice { count, sides, .. }
            ==> count <= MAX_NUM_DICE && sides >= 1)
}

/// The number of dice that the terms ask for.
pub open spec fn dice_needed(terms: Seq<RollTerm>) -> nat
    decreases terms.len(),
{
    if terms.len() == 0 {
        0
    } else {
        dice_needed(terms.drop_last()) + match terms.last() {
            RollTerm::Constant(_) => 0nat,
            RollTerm::Dice { count, .. } => count as nat,
        }
    }
}

/// The sum of the values of `dice[from..to]`.
pub open spec fn sum_of_dice(dice: Seq<DieRoll>, from: int, to: int) -> int
    decreases to - from,
{
    if to <= from {
        0
    } else {
        sum_of_dice(dice, from, to - 1) + dice[to - 1].value
    }
}

/// The dice `dice[from..to]` were rolled with `sides` faces.
pub open spec fn dice_rolled_with(dice: Seq<DieRoll>, from: int, to: int, sides: u32) -> bool {
    forall|i: int|
        from <= i < to ==> (#[trigger] dice[i]).sides == sides && 1 <= dice[i].value <= sides
}

/// `dice` are dice as the terms ask for them: for every term with dice, in
/// order, as many as it counts, each showing one of its faces.
pub open spec fn dice_match(terms: Seq<RollTerm>, dice: Seq<DieRoll>) -> bool {
    &&& dice.len() == dice_needed(terms)
    &&& forall|k: int|
        0 <= k < terms.len() ==> (#[trigger] terms[k] matches RollTerm::Dice { count, sides, .. }
            ==> dice_rolled_with(
            dice,
            dice_needed(terms.take(k)) as int,
            dice_needed(terms.take(k)) + count,
            sides,
        ))
}

/// The sum of the terms when their dice show `dice`.
pub open spec fn total_of(terms: Seq<RollTerm>, dice: Seq<DieRoll>) -> int
    decreases terms.len(),
{
    if terms.len() == 0 {
        0
    } else {
        let before = dice_needed(terms.drop_last()) as int;
        total_of(terms.drop_last(), dice) + match terms.last() {
            RollTerm::Constant(value) => value as int,
            RollTerm::Dice { negative, count, .. } => if negative {
                -sum_of_dice(dice, before, before + count)
            } else {
                sum_of_dice(dice, before, before + count)
            },
        }
    }
}

/// Dice that were rolled with `sides` faces add up to at least their number
/// and at most their number times `sides`.
pub proof fn lemma_sum_of_dice_bounds(dice: Seq<DieRoll>, from: int, to: int, sides: u32)
    requires
        from <= to,
        dice_rolled_with(dice, from, to, sides),
    ensures
        to - from <= sum_of_dice(dice, from, to) <= (to - from) * sides,
    decreases to - from,
{
    if from < to {
        lemma_sum_of_dice_bounds(dice, from, to - 1, sides);
        assert(1 <= dice[to - 1].value <= sides);
        assert((to - 1 - from) * sides + sides == (to - from) * sides) by (nonlinear_arith);
    } else {
        assert((to - from) * sides == 0) by (nonlinear_arith)
            requires
                to - from == 0,
        ;
    }
}

/// The sum of some dice depends on those dice only.
pub proof fn lemma_sum_of_dice_same(first: Seq<DieRoll>, second: Seq<DieRoll>, from: int, to: int)
    requires
        forall|i: int| from <= i < to ==> first[i] == second[i],
    ensures
        sum_of_dice(first, from, to) == sum_of_dice(second, from, to),
    decreases to - from,
{
    if from < to {
        lemma_sum_of_dice_same(first, second, from, to - 1);
    }
}

/// The dice needed never get fewer when terms follow.
pub proof fn lemma_dice_needed_grows(terms: Seq<RollTerm>, k: int)
    requires
        0 <= k <= terms.len(),
    ensures
        dice_needed(terms.take(k)) <= dice_needed(terms),
    decreases terms.len() - k,
{
    if k == terms.len() {
        assert(terms.take(k) =~= terms);
    } else {
        lemma_dice_needed_grows(terms, k + 1);
        assert(terms.take(k + 1).drop_last() =~= terms.take(k));
    }
}

/// The total of some terms depends only on the dice rolled for them.
pub proof fn lemma_total_of_same(terms: Seq<RollTerm>, first: Seq<DieRoll>, second: Seq<DieRoll>)
    requires
        forall|i: int| 0 <= i < dice_needed(terms) ==> first[i] == second[i],
    ensures
        total_of(terms, first) == total_of(terms, second),
    decreases terms.len(),
{
    if terms.len() > 0 {
        let rest = terms.drop_last();
        lemma_total_of_same(rest, first, second);
        match terms.last() {
            RollTerm::Constant(_) => {},
            RollTerm::Dice { count, .. } => {
                lemma_sum_of_dice_same(
                    first,
                    second,
                    dice_needed(rest) as int,
                    dice_needed(rest) + count,
                );
            },
        }
    }
}

/// The least a term can come to.
pub open spec fn least_of_term(term: RollTerm) -> int {
    match term {
        RollTerm::Constant(value) => value as int,
        RollTerm::Dice { negative, count, sides } => if negative {
            -(count * sides)
        } else {
            count as int
        },
    }
}

/// The most a term can come to.
pub open spec fn most_of_term(term: RollTerm) -> int {
    match term {
        RollTerm::Constant(value) => value as int,
        RollTerm::Dice { negative, count, sides } => if negative {
            -(count as int)
        } else {
            count * sides
        },
    }
}

/// The least the terms can come to together.
pub open spec fn least_total(terms: Seq<RollTerm>) -> int
    decreases terms.len(),
{
    if terms.len() == 0 {
        0
    } else {
        least_total(terms.drop_last()) + least_of_term(terms.last())
    }
}

/// The most the terms can come to together.
pub open spec fn most_total(terms: Seq<RollTerm>) -> int
    decreases terms.len(),
{
    if terms.len() == 0 {
        0
    } else {
        most_total(terms.drop_last()) + most_of_term(terms.last())
    }
}

/// Whatever the dice show, the first `k` terms come to no less than
/// every die showing 1 where it is added and its highest face where it is
/// subtracted, and to no more than the other way round.
pub proof fn lemma_total_bounds(terms: Seq<RollTerm>, dice: Seq<DieRoll>, k: int)
    requires
        dice_match(terms, dice),
        0 <= k <= terms.len(),
    ensures
        least_total(terms.take(k)) <= total_of(terms.take(k), dice) <= most_total(terms.take(k)),
    decreases k,
{
    if k > 0 {
        lemma_total_bounds(terms, dice, k - 1);
        assert(terms.take(k).drop_last() =~= terms.take(k - 1));
        assert(terms.take(k).last() == terms[k - 1]);
        match terms[k - 1] {
            RollTerm::Constant(_) => {},
            RollTerm::Dice { negative, count, sides } => {
                let offset = dice_needed(terms.take(k - 1)) as int;
                assert(dice_rolled_with(dice, offset, offset + count, sides));
                lemma_sum_of_dice_bounds(dice, offset, offset + count, sides);
            },
        }
    }
}

/// A single term of dice that are added comes to at least the number of dice
/// and at most that number times the faces of a die, and reports exactly
/// that many dice.
pub proof fn lemma_dice_term_bounds(count: u32, sides: u32, dice: Seq<DieRoll>)
    requires
        dice_match(seq![RollTerm::Dice { negative: false, count, sides }], dice),
    ensures
        dice.len() == count,
        count <= total_of(seq![RollTerm::Dice { negative: false, count, sides }], dice) <= count
            * sides,
{
    let terms = seq![RollTerm::Dice { negative: false, count, sides }];
    assert(terms.drop_last() =~= Seq::<RollTerm>::empty());
    assert(terms.take(0) =~= Seq::<RollTerm>::empty());
    assert(dice_needed(terms.drop_last()) == 0);
    assert(dice_needed(terms) == count);
    assert(terms[0] matches RollTerm::Dice { count: c, sides: f, .. } && c == count && f == sides);
    assert(dice_rolled_with(dice, 0, count as int, sides));
    lemma_sum_of_dice_bounds(dice, 0, count as int, sides);
    assert(total_of(terms.drop_last(), dice) == 0);
}

/// Reads the term `chars[from..to]`.
pub fn parse_term(chars: &Vec<char>, from: usize, to: usize) -> (term: Result<RollTerm, TermFault>)
    requires
        from <= to <= chars@.len(),
    ensures
        term == parsed_term(chars@, from as int, to as int),
        term matches Ok(RollTerm::Dice { count, sides, .. }) ==> count <= MAX_NUM_DICE && sides >= 1,
{
    let negative = from < to && chars[from] == '-';
    let start = if from < to && (chars[from] == '+' || chars[from] == '-') {
        from + 1
    } else {
        from
    };
    let separator = find_first_of(chars, start, to, 'd', 'w');
    if separator < to {
        if find_first_of(chars, separator + 1, to, 'd', 'w') < to {
            return Err(TermFault::TooManySeparators);
        }
        let (sides_from, sides_to) = trim_range(chars, separator + 1, to);
        if sides_from == sides_to {
            return Err(TermFault::MissingDieType);
        }
        let (count_from, count_to) = trim_range(chars, start, separator);
        let count: u64 = if count_from == count_to {
            1
        } else {
            match parse_unsigned(chars, count_from, count_to, 0xFFFF_FFFF) {
                Some(c) => c,
                None => {
                    return Err(TermFault::InvalidDieNumber);
                },
            }
        };
        let sides: u64 = match parse_unsigned(chars, sides_from, sides_to, 0xFFFF_FFFF) {
            Some(f) => f,
            None => {
                return Err(TermFault::InvalidDieType);
            },
        };
        if sides < 1 {
            return Err(TermFault::NoSides);
        }
        if count > MAX_NUM_DICE as u64 {
            return Err(TermFault::TooManyDice);
        }
        Ok(RollTerm::Dice { negative, count: count as u32, sides: sides as u32 })
    } else {
        let (number_from, number_to) = trim_range(chars, start, to);
        match parse_unsigned(chars, number_from, number_to, 0x7FFF_FFFF_FFFF_FFFF) {
            Some(v) => Ok(
                RollTerm::Constant(
                    if negative {
                        -(v as i64)
                    } else {
                        v as i64
                    },
                ),
            ),
            None => Err(TermFault::InvalidNumber),
        }
    }
}

/// The error that reports `fault`, found in the term `expr[from..to]`.
pub fn fault_error(fault: TermFault, expr: &str, chars: &Vec<char>, from: usize, to: usize) -> (e:
    Error)
    requires
        chars@ == expr@,
        from <= to <= chars@.len(),
    ensures
        is_invalid_argument(e, fault_message(fault, expr@, from as int, to as int)),
{
    let start = if from < to && (chars[from] == '+' || chars[from] == '-') {
        from + 1
    } else {
        from
    };
    let body = expr.substring_char(start, to);
    let prefix = match fault {
        TermFault::MissingDieType => "Die type missing in expression \"",
        TermFault::TooManySeparators => "Too many \"d\"s and/or \"w\"s in expression \"",
        TermFault::InvalidDieNumber => "Invalid die number in expression \"",
        TermFault::InvalidDieType => "Unable to parse die type in expression \"",
        TermFault::NoSides => "Invalid die type in expression \"",
        TermFault::TooManyDice => "Number of dice exceeds maximum of 100 in expression \"",
        TermFault::InvalidNumber => "Unable to parse number \"",
        TermFault::TooManyTerms => {
            proof {
                reveal_strlit("");
            }
            let e = invalid_argument("Number of roll expressions exceeds maximum of 20", "");
            assert("Number of roll expressions exceeds maximum of 20"@ + ""@
                =~= "Number of roll expressions exceeds maximum of 20"@);
            return e;
        },
    };
    let quoted = String::from_str(body).concat("\"");
    assert(prefix@ + (body@ + "\""@) =~= prefix@ + body@ + "\""@);
    invalid_argument(prefix, quoted.as_str())
}

/// Reads a dice expression: terms that follow each other, every one but the
/// first starting with its sign.
///
/// Reading stops at the first fault, which is reported with the text of the
/// term it was found in.
pub fn parse_expression(expr: &str) -> (result: Result<Vec<RollTerm>, Error>)
    ensures
        match parsed_expression(expr@) {
            Ok(terms) => result matches Ok(found) && found@ == terms,
            Err((fault, from, to)) => result matches Err(e) && is_invalid_argument(
                e,
                fault_message(fault, expr@, from, to),
            ),
        },
        result matches Ok(found) ==> valid_terms(found@),
{
    let chars = chars_of(expr);
    let n = chars.len();
    let mut terms: Vec<RollTerm> = Vec::new();
    let mut begin: usize = 0;
    loop
        invariant
            chars@ == expr@,
            n == chars@.len(),
            begin <= n,
            parsed_from(expr@, begin as int, terms@) == parsed_expression(expr@),
            valid_terms(terms@),
        decreases n - begin,
    {
        if terms.len() >= MAX_ROLL_EXPRESSIONS {
            return Err(fault_error(TermFault::TooManyTerms, expr, &chars, begin, n));
        }
        let end = if begin < n {
            find_first_of(&chars, begin + 1, n, '+', '-')
        } else {
            n
        };
        match parse_term(&chars, begin, end) {
            Err(fault) => {
                return Err(fault_error(fault, expr, &chars, begin, end));
            },
            Ok(term) => {
                terms.push(term);
                if end >= n {
                    return Ok(terms);
                }
                begin = end;
            },
        }
    }
}

/// Adds up the values of `dice[from..to]`, dice with `sides` faces.
fn sum_dice(dice: &Vec<DieRoll>, from: usize, to: usize, sides: u32) -> (sum: i128)
    requires
        from <= to <= dice@.len(),
        to - from <= MAX_NUM_DICE,
        dice_rolled_with(dice@, from as int, to as int, sides),
    ensures
        sum == sum_of_dice(dice@, from as int, to as int),
        0 <= sum <= 0x1_0000_0000 * MAX_NUM_DICE,
{
    let mut sum: i128 = 0;
    let mut i: usize = from;
    while i < to
        invariant
            from <= i <= to <= dice@.len(),
            to - from <= MAX_NUM_DICE,
            dice_rolled_with(dice@, from as int, to as int, sides),
            sum == sum_of_dice(dice@, from as int, i as int),
            0 <= sum <= 0x1_0000_0000 * (i - from),
        decreases to - i,
    {
        assert(1 <= dice@[i as int].value <= sides);
        sum = sum + dice[i].value as i128;
        i = i + 1;
    }
    sum
}

/// Adds up the terms of an expression for dice that have already been cast.
pub fn evaluate_terms(terms: &Vec<RollTerm>, dice: &Vec<DieRoll>) -> (total: i128)
    requires
        valid_terms(terms@),
        dice_match(terms@, dice@),
    ensures
        total == total_of(terms@, dice@),
{
    let mut total: i128 = 0;
    let mut offset: usize = 0;
    let mut k: usize = 0;
    let available = dice.len();
    while k < terms.len()
        invariant
            k <= terms@.len(),
            available == dice@.len(),
            valid_terms(terms@),
            dice_match(terms@, dice@),
            offset == dice_needed(terms@.take(k as int)),
            offset <= available,
            total == total_of(terms@.take(k as int), dice@),
            -0x8000_0000_0000_0000 * k <= total <= 0x8000_0000_0000_0000 * k,
        decreases terms@.len() - k,
    {
        let ghost shorter = terms@.take(k as int);
        let ghost longer = terms@.take(k + 1);
        proof {
            lemma_dice_needed_grows(terms@, k + 1);
            assert(longer.drop_last() =~= shorter);
            assert(longer.last() == terms@[k as int]);
        }
        let term = terms[k];
        let value: i128 = match term {
            RollTerm::Constant(value) => value as i128,
            RollTerm::Dice { negative, count, sides } => {
                assert(terms@[k as int] matches RollTerm::Dice { count: c, sides: f, .. } && c
                    == count && f == sides);
                assert(dice_rolled_with(dice@, offset as int, offset + count, sides));
                assert(dice_needed(longer) == offset + count);
                let subtotal = sum_dice(dice, offset, offset + count as usize, sides);
                offset = offset + count as usize;
                if negative {
                    -subtotal
                } else {
                    subtotal
                }
            },
        };
        assert(total_of(longer, dice@) == total + value);
        total = total + value;
        k = k + 1;
    }
    assert(terms@.take(k as int) =~= terms@);
    total
}

/// Tells whether the terms are such as an expression can have.
pub fn terms_are_valid(terms: &Vec<RollTerm>) -> (ok: bool)
    ensures
        ok == valid_terms(terms@),
{
    if terms.len() > MAX_ROLL_EXPRESSIONS {
        return false;
    }
    let mut k: usize = 0;
    while k < terms.len()
        invariant
            k <= terms@.len(),
            terms@.len() <= MAX_ROLL_EXPRESSIONS,
            forall|h: int|
                0 <= h < k ==> (#[trigger] terms@[h] matches RollTerm::Dice { count, sides, .. }
                    ==> count <= MAX_NUM_DICE && sides >= 1),
        decreases terms@.len() - k,
    {
        match terms[k] {
            RollTerm::Constant(_) => {},
            RollTerm::Dice { negative, count, sides } => {
                if count > MAX_NUM_DICE || sides < 1 {
                    return false;
                }
            },
        }
        k = k + 1;
    }
    true
}

/// Rolls the dice that the terms ask for and adds the terms up.
pub fn roll_terms(terms: &Vec<RollTerm>, dice: &mut Dice) -> (outcome: RollOutcome)
    requires
        valid_terms(terms@),
    ensures
        dice_match(terms@, outcome.dice@),
        outcome.total == total_of(terms@, outcome.dice@),
{
    let mut rolled: Vec<DieRoll> = Vec::new();
    let mut k: usize = 0;
    while k < terms.len()
        invariant
            k <= terms@.len(),
            valid_terms(terms@),
            rolled@.len() == dice_needed(terms@.take(k as int)),
            rolled@.len() <= MAX_NUM_DICE * k,
            forall|h: int|
                0 <= h < k ==> (#[trigger] terms@[h] matches RollTerm::Dice { count, sides, .. }
                    ==> dice_needed(terms@.take(h)) + count <= rolled@.len() && dice_rolled_with(
                    rolled@,
                    dice_needed(terms@.take(h)) as int,
                    dice_needed(terms@.take(h)) + count,
                    sides,
                )),
        decreases terms@.len() - k,
    {
        proof {
            assert(terms@.take(k + 1).drop_last() =~= terms@.take(k as int));
        }
        let ghost offset = rolled@.len();
        match terms[k] {
            RollTerm::Constant(_) => {},
            RollTerm::Dice { negative, count, sides } => {
                let mut j: u32 = 0;
                while j < count
                    invariant
                        j <= count,
                        count <= MAX_NUM_DICE,
                        sides >= 1,
                        k < terms@.len(),
                        k < MAX_ROLL_EXPRESSIONS,
                        offset <= MAX_NUM_DICE * k,
                        rolled@.len() == offset + j,
                        dice_rolled_with(rolled@, offset as int, offset + j, sides),
                        forall|h: int|
                            0 <= h < k ==> (#[trigger] terms@[h] matches RollTerm::Dice {
                                count,
                                sides,
                                ..
                            } ==> dice_needed(terms@.take(h)) + count <= offset && dice_rolled_with(
                                rolled@,
                                dice_needed(terms@.take(h)) as int,
                                dice_needed(terms@.take(h)) + count,
                                sides,
                            )),
                    decreases count - j,
                {
                    let value = dice.roll(1, sides as i64);
                    rolled.push(DieRoll { value, sides });
                    j = j + 1;
                }
            },
        }
        proof {
            assert forall|h: int| 0 <= h < k + 1 implies (#[trigger] terms@[h] matches RollTerm::Dice {
                count,
                sides,
                ..
            } ==> dice_needed(terms@.take(h)) + count <= rolled@.len() && dice_rolled_with(
                rolled@,
                dice_needed(terms@.take(h)) as int,
                dice_needed(terms@.take(h)) + count,
                sides,
            )) by {
                if h < k {
                    lemma_dice_needed_grows(terms@.take(k as int), h + 1);
                    assert(terms@.take(k as int).take(h + 1) =~= terms@.take(h + 1));
                    assert(terms@.take(h + 1).drop_last() =~= terms@.take(h));
                }
            }
        }
        k = k + 1;
    }
    assert(terms@.take(k as int) =~= terms@);
    let total = evaluate_terms(terms, &rolled);
    RollOutcome { total, dice: rolled }
}

/// Reads a dice expression, rolls its dice and adds its terms up.
///
/// An expression that cannot be read is rejected before any die is cast.
pub fn roll(expr: &str, dice: &mut Dice) -> (result: Result<RollOutcome, Error>)
    ensures
        match parsed_expression(expr@) {
            Ok(terms) => result matches Ok(outcome) && dice_match(terms, outcome.dice@)
                && outcome.total == total_of(terms, outcome.dice@),
            Err((fault, from, to)) => result matches Err(e) && is_invalid_argument(
                e,
                fault_message(fault, expr@, from, to),
            ),
        },
{
    match parse_expression(expr) {
        Ok(terms) => Ok(roll_terms(&terms, dice)),
        Err(e) => Err(e),
    }
}

} // verus!
