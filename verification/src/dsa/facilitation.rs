//! Turning what a user wrote about facilitation into the modifiers of a
//! check.

use crate::dsa::check::Facilitation;
use crate::text::{
    chars_of, find_first_of, first_of, lemma_first_of_bounds, parse_i64, parse_integer,
    parsed_i64, range_eq_ignore_ascii_case, same_ignoring_ascii_case, string_views, text_of,
};
use crate::util::{invalid_argument, is_invalid_argument, Error};
use vstd::prelude::*;

verus! {

/// Why a facilitation was rejected.
#[derive(Clone, Copy, Debug, PartialEq, Eq, Structural)]
pub enum FacilitationFault {
    /// The modifier for all lines is no integer.
    Flat,
    /// An entry for a single attribute is not a name, a colon and an amount.
    Pair,
    /// The amount for a single attribute is no integer.
    Amount,
    /// A modifier left the range of 64-bit integers.
    Range,
    /// The bonus points are no integer.
    Bonus,
}

/// The message that reports `fault`.
pub open spec fn facilitation_fault_message(fault: FacilitationFault) -> Seq<char> {
    "Unable to parse facilitation: "@ + match fault {
        FacilitationFault::Flat => "Argument must be an integer"@,
        FacilitationFault::Pair => "Attribute name and facilitation must be separated by a colon"@,
        FacilitationFault::Amount => "Invalid attribute facilitation amount"@,
        FacilitationFault::Range => "Attribute facilitation is out of range"@,
        FacilitationFault::Bonus => "bonus-points must be an integer"@,
    }
}

/// What the entry `s[from..end]` for a single attribute reads as: the place
/// of its colon, before which the name stands, and the amount after it.
pub open spec fn parsed_pair(s: Seq<char>, from: int, end: int) -> Result<
    (int, i64),
    FacilitationFault,
> {
    let colon = first_of(s, from, end, ':', ':');
    if colon >= end || first_of(s, colon + 1, end, ':', ':') < end {
        Err(FacilitationFault::Pair)
    } else {
        match parsed_i64(s.subrange(colon + 1, end)) {
            None => Err(FacilitationFault::Amount),
            Some(amount) => Ok((colon, amount)),
        }
    }
}

/// Adding `amount` to every modifier whose line is labelled `name`, up to
/// the case of letters, stays within range.
pub open spec fn override_fits(
    modifiers: Seq<i64>,
    labels: Seq<Seq<char>>,
    name: Seq<char>,
    amount: i64,
) -> bool {
    forall|i: int|
        0 <= i < modifiers.len() && same_ignoring_ascii_case(name, labels[i]) ==> i64::MIN
            <= #[trigger] modifiers[i] + amount <= i64::MAX
}

/// The modifiers after `amount` was added for every line labelled `name`, up
/// to the case of letters. A name that labels no line changes nothing.
pub open spec fn with_override(
    modifiers: Seq<i64>,
    labels: Seq<Seq<char>>,
    name: Seq<char>,
    amount: i64,
) -> Seq<i64> {
    Seq::new(
        modifiers.len(),
        |i: int|
            if same_ignoring_ascii_case(name, labels[i]) {
                (modifiers[i] + amount) as i64
            } else {
                modifiers[i]
            },
    )
}

/// The modifiers after the entries of `s` from `from` on were applied, or
/// the first fault. Entries are separated by commas.
pub open spec fn overridden(s: Seq<char>, from: int, modifiers: Seq<i64>, labels: Seq<Seq<char>>) -> Result<
    Seq<i64>,
    FacilitationFault,
>
    decreases s.len() - from,
{
    if from > s.len() {
        Ok(modifiers)
    } else {
        let end = first_of(s, from, s.len() as int, ',', ',');
        match parsed_pair(s, from, end) {
            Err(fault) => Err(fault),
            Ok((colon, amount)) => {
                let name = s.subrange(from, colon);
                if !override_fits(modifiers, labels, name, amount) {
                    Err(FacilitationFault::Range)
                } else if end >= s.len() {
                    Ok(with_override(modifiers, labels, name, amount))
                } else {
                    proof {
                        lemma_first_of_bounds(s, from, s.len() as int, ',', ',');
                    }
                    overridden(s, end + 1, with_override(modifiers, labels, name, amount), labels)
                }
            },
        }
    }
}

/// The modifiers and the bonus points that the three texts ask for: the
/// modifier for all lines, the entries for single attributes, and the bonus
/// points.
pub open spec fn facilitation_of(
    flat: Seq<char>,
    by_attribute: Option<Seq<char>>,
    bonus: Option<Seq<char>>,
    labels: Seq<Seq<char>>,
) -> Result<(Seq<i64>, i64), FacilitationFault> {
    match parsed_i64(flat) {
        None => Err(FacilitationFault::Flat),
        Some(all) => {
            let even = Seq::new(labels.len(), |i: int| all);
            let modifiers = match by_attribute {
                None => Ok(even),
                Some(entries) => overridden(entries, 0, even, labels),
            };
            match modifiers {
                Err(fault) => Err(fault),
                Ok(found) => match bonus {
                    None => Ok((found, 0i64)),
                    Some(points) => match parsed_i64(points) {
                        None => Err(FacilitationFault::Bonus),
                        Some(p) => Ok((found, p)),
                    },
                },
            }
        },
    }
}

/// The error that reports `fault`.
pub fn facilitation_error(fault: FacilitationFault) -> (e: Error)
    ensures
        is_invalid_argument(e, facilitation_fault_message(fault)),
{
    let detail = match fault {
        FacilitationFault::Flat => "Argument must be an integer",
        FacilitationFault::Pair => "Attribute name and facilitation must be separated by a colon",
        FacilitationFault::Amount => "Invalid attribute facilitation amount",
        FacilitationFault::Range => "Attribute facilitation is out of range",
        FacilitationFault::Bonus => "bonus-points must be an integer",
    };
    invalid_argument("Unable to parse facilitation: ", detail)
}

/// Applies the entries for single attributes in `entries` to `modifiers`.
fn apply_overrides(entries: &str, given: Vec<i64>, labels: &Vec<String>) -> (result: Result<
    Vec<i64>,
    FacilitationFault,
>)
    requires
        given@.len() == labels@.len(),
    ensures
        match overridden(entries@, 0, given@, string_views(labels@)) {
            Ok(found) => result matches Ok(v) && v@ == found,
            Err(fault) => result == Err::<Vec<i64>, FacilitationFault>(fault),
        },
        result matches Ok(v) ==> v@.len() == labels@.len(),
{
    let ghost views = string_views(labels@);
    let chars = chars_of(entries);
    let n = chars.len();
    let mut names: Vec<Vec<char>> = Vec::new();
    let mut l: usize = 0;
    while l < labels.len()
        invariant
            l <= labels@.len(),
            names@.len() == l,
            forall|i: int| 0 <= i < l ==> (#[trigger] names@[i])@ == labels@[i]@,
        decreases labels@.len() - l,
    {
        names.push(chars_of(labels[l].as_str()));
        l = l + 1;
    }
    let mut modifiers = given;
    let mut from: usize = 0;
    loop
        invariant
            chars@ == entries@,
            n == chars@.len(),
            from <= n,
            names@.len() == labels@.len(),
            forall|i: int| 0 <= i < labels@.len() ==> (#[trigger] names@[i])@ == labels@[i]@,
            modifiers@.len() == labels@.len(),
            views == string_views(labels@),
            overridden(entries@, from as int, modifiers@, views) == overridden(
                entries@,
                0,
                given@,
                views,
            ),
        decreases n - from,
    {
        let end = find_first_of(&chars, from, n, ',', ',');
        let colon = find_first_of(&chars, from, end, ':', ':');
        if colon >= end {
            return Err(FacilitationFault::Pair);
        }
        if find_first_of(&chars, colon + 1, end, ':', ':') < end {
            return Err(FacilitationFault::Pair);
        }
        let amount = match parse_i64(&chars, colon + 1, end) {
            Some(a) => a,
            None => {
                return Err(FacilitationFault::Amount);
            },
        };
        let ghost name = entries@.subrange(from as int, colon as int);
        let ghost before = modifiers@;
        assert(parsed_pair(entries@, from as int, end as int) == Ok::<
            (int, i64),
            FacilitationFault,
        >((colon as int, amount)));
        let mut i: usize = 0;
        while i < modifiers.len()
            invariant
                i <= modifiers@.len(),
                from <= n,
                n == entries@.len(),
                end == first_of(entries@, from as int, n as int, ',', ','),
                parsed_pair(entries@, from as int, end as int) == Ok::<
                    (int, i64),
                    FacilitationFault,
                >((colon as int, amount)),
                views == string_views(labels@),
                overridden(entries@, from as int, before, views) == overridden(
                    entries@,
                    0,
                    given@,
                    views,
                ),
                from <= colon <= chars@.len(),
                chars@ == entries@,
                name == entries@.subrange(from as int, colon as int),
                modifiers@.len() == labels@.len(),
                before.len() == labels@.len(),
                names@.len() == labels@.len(),
                forall|j: int| 0 <= j < labels@.len() ==> (#[trigger] names@[j])@ == labels@[j]@,
                forall|j: int|
                    0 <= j < i ==> #[trigger] modifiers@[j] == with_override(
                        before,
                        views,
                        name,
                        amount,
                    )[j],
                forall|j: int|
                    0 <= j < i && same_ignoring_ascii_case(name, views[j]) ==> i64::MIN
                        <= #[trigger] before[j] + amount <= i64::MAX,
                forall|j: int| i <= j < modifiers@.len() ==> #[trigger] modifiers@[j] == before[j],
            decreases modifiers@.len() - i,
        {
            let same = range_eq_ignore_ascii_case(&chars, from, colon, &names[i]);
            assert(chars@.subrange(from as int, colon as int) == name);
            if same {
                let sum: i128 = modifiers[i] as i128 + amount as i128;
                if sum < i64::MIN as i128 || sum > i64::MAX as i128 {
                    assert(!override_fits(before, views, name, amount));
                    return Err(FacilitationFault::Range);
                }
                modifiers[i] = sum as i64;
            }
            i = i + 1;
        }
        assert(override_fits(before, views, name, amount));
        assert(modifiers@ =~= with_override(before, views, name, amount));
        if end >= n {
            return Ok(modifiers);
        }
        from = end + 1;
    }
}

/// Builds the facilitation of a check from what the user wrote.
///
/// `facilitation` is the modifier that every line gets. `attribute_facilitation`
/// holds entries `name:amount`, separated by commas, each of which adds its
/// amount for the lines labelled with that name; the case of letters does
/// not count, and a name that labels no line is passed over. `bonus_points`
/// is added to the points of a check that has points.
pub fn get_facilitation(
    facilitation: &str,
    attribute_facilitation: Option<&str>,
    bonus_points: Option<&str>,
    attributes: &Vec<String>,
) -> (result: Result<Facilitation, Error>)
    ensures
        match facilitation_of(
            facilitation@,
            text_of(attribute_facilitation),
            text_of(bonus_points),
            string_views(attributes@),
        ) {
            Ok((modifiers, bonus)) => result matches Ok(found) && found.per_line_modifier@
                == modifiers && found.points_bonus == bonus,
            Err(fault) => result matches Err(e) && is_invalid_argument(
                e,
                facilitation_fault_message(fault),
            ),
        },
        result matches Ok(found) ==> found.per_line_modifier@.len() == attributes@.len(),
{
    let flat = match parse_integer(facilitation) {
        Some(f) => f,
        None => {
            return Err(facilitation_error(FacilitationFault::Flat));
        },
    };
    let mut even: Vec<i64> = Vec::new();
    let mut i: usize = 0;
    while i < attributes.len()
        invariant
            i <= attributes@.len(),
            even@.len() == i,
            forall|j: int| 0 <= j < i ==> #[trigger] even@[j] == flat,
        decreases attributes@.len() - i,
    {
        even.push(flat);
        i = i + 1;
    }
    assert(even@ =~= Seq::new(attributes@.len(), |i: int| flat));
    let modifiers = match attribute_facilitation {
        None => even,
        Some(entries) => match apply_overrides(entries, even, attributes) {
            Ok(found) => found,
            Err(fault) => {
                return Err(facilitation_error(fault));
            },
        },
    };
    let points_bonus = match bonus_points {
        None => 0,
        Some(points) => match parse_integer(points) {
            Some(p) => p,
            None => {
                return Err(facilitation_error(FacilitationFault::Bonus));
            },
        },
    };
    Ok(Facilitation { per_line_modifier: modifiers, points_bonus })
}

} // verus!
