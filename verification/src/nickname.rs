//! Nicknames that show a character's name before a player's own name.

use crate::text::{
    chars_of, find_first_of, first_of, lemma_first_of_at_most, lemma_first_of_bounds, parse_i64,
    parsed_i64,
};
use crate::util::{Error, ErrorType, InputErrorType};
use vstd::prelude::*;
use vstd::string::StrSliceExecFns;
use vstd::string::StringExecFns;

verus! {

/// What stands between the character's name and the player's name.
pub open spec fn separator() -> Seq<char> {
    " Ξ "@
}

/// The number of characters that the separator counts for.
pub const SEPARATOR_LENGTH: usize = 3;

/// The place right after the last blank among the first `k` characters of
/// `s`; 0 if there is no blank.
pub open spec fn after_last_blank(s: Seq<char>, k: int) -> int
    decreases k,
{
    if k <= 0 {
        0
    } else if s[k - 1] == ' ' {
        k
    } else {
        after_last_blank(s, k - 1)
    }
}

/// `taken`, followed by as many of the words of `s` between `from` and
/// `until` as fit into `allowed` characters, each with a blank before it.
/// Words are taken in order until one does not fit.
pub open spec fn with_middle_names(s: Seq<char>, from: int, until: int, allowed: int, taken: Seq<char>) -> Seq<
    char,
>
    decreases until + 1 - from,
{
    if from > until || from > s.len() {
        taken
    } else {
        let end = first_of(s, from, s.len() as int, ' ', ' ');
        if end < from || end > until || end - from + 1 > allowed {
            taken
        } else {
            with_middle_names(
                s,
                end + 1,
                until,
                allowed - (end - from + 1),
                taken + seq![' '] + s.subrange(from, end),
            )
        }
    }
}

/// The place after the last blank lies behind every blank.
pub proof fn lemma_after_last_blank(s: Seq<char>, k: int, p: int)
    requires
        0 <= p < k,
        s[p] == ' ',
    ensures
        p < after_last_blank(s, k) <= k,
        s[after_last_blank(s, k) - 1] == ' ',
    decreases k,
{
    if s[k - 1] != ' ' {
        lemma_after_last_blank(s, k - 1, p);
    }
}

/// The character's name as it is shown in `room` characters.
///
/// The first name is cut off if it does not fit. Otherwise it stands in
/// full, and if more than the last name and a blank would still fit, it is
/// followed by the middle names that fit beside the last name, and by the
/// last name. A name of one word counts as having an empty last name.
pub open spec fn shown_name(s: Seq<char>, room: int) -> Seq<char> {
    let first_end = first_of(s, 0, s.len() as int, ' ', ' ');
    let first = s.subrange(0, first_end);
    if first_end > room {
        s.subrange(0, room)
    } else {
        let last_start = if first_end < s.len() {
            after_last_blank(s, s.len() as int)
        } else {
            s.len() as int
        };
        let last = s.subrange(last_start, s.len() as int);
        let left = room - first_end;
        if left > last.len() + 1 {
            with_middle_names(s, first_end + 1, last_start - 1, left - (last.len() + 1), first)
                + seq![' '] + last
        } else {
            first
        }
    }
}

/// The error for a player's name that leaves no room before it.
pub open spec fn is_too_long(e: Error, org_name: Seq<char>) -> bool {
    &&& e.spec_message() == org_name + ": Display Name is too large!"@
    &&& e.spec_err_type() == ErrorType::InvalidInput(InputErrorType::InvalidDiscordContext)
}

/// Finds the place right after the last blank of `chars`.
pub fn find_after_last_blank(chars: &Vec<char>) -> (place: usize)
    ensures
        place == after_last_blank(chars@, chars@.len() as int),
        place <= chars@.len(),
        place > 0 ==> chars@[place - 1] == ' ',
{
    let mut k = chars.len();
    while k > 0 && chars[k - 1] != ' '
        invariant
            k <= chars@.len(),
            after_last_blank(chars@, k as int) == after_last_blank(chars@, chars@.len() as int),
        decreases k,
    {
        k = k - 1;
    }
    k
}

/// The nickname that shows `character_name` before `org_name` within `limit`
/// characters: as much of the character's name as [`shown_name`] says, the
/// separator, and the player's name in full.
///
/// Lengths count characters, and the separator counts for three.
pub fn calculate_name(character_name: &str, org_name: &str, limit: usize) -> (result: Result<
    String,
    Error,
>)
    ensures
        org_name@.len() + SEPARATOR_LENGTH > limit ==> (result matches Err(e) && is_too_long(
            e,
            org_name@,
        )),
        org_name@.len() + SEPARATOR_LENGTH <= limit ==> (result matches Ok(name) && name@
            == shown_name(character_name@, limit - org_name@.len() - SEPARATOR_LENGTH) + separator()
            + org_name@),
{
    let org_length = org_name.unicode_len();
    if org_length > limit || limit - org_length < SEPARATOR_LENGTH {
        return Err(
            Error::new(
                String::from_str(org_name).concat(": Display Name is too large!"),
                ErrorType::InvalidInput(InputErrorType::InvalidDiscordContext),
            ),
        );
    }
    let room = limit - org_length - SEPARATOR_LENGTH;
    let chars = chars_of(character_name);
    let n = chars.len();
    let first_end = find_first_of(&chars, 0, n, ' ', ' ');
    let mut shown: String;
    if first_end > room {
        shown = String::from_str(character_name.substring_char(0, room));
    } else {
        shown = String::from_str(character_name.substring_char(0, first_end));
        let last_start = if first_end < n {
            proof {
                lemma_after_last_blank(chars@, n as int, first_end as int);
            }
            find_after_last_blank(&chars)
        } else {
            n
        };
        let last_length = n - last_start;
        let left = room - first_end;
        if left > last_length && left - last_length > 1 {
            let mut allowed = left - last_length - 1;
            let mut from = first_end + 1;
            let ghost wanted = with_middle_names(
                character_name@,
                first_end + 1,
                last_start - 1,
                allowed as int,
                shown@,
            );
            loop
                invariant
                    chars@ == character_name@,
                    n == chars@.len(),
                    last_start <= n,
                    first_end <= n,
                    first_end < from,
                    first_end < n ==> last_start > 0 && chars@[last_start - 1] == ' ',
                    from <= n + 1,
                    with_middle_names(
                        character_name@,
                        from as int,
                        last_start - 1,
                        allowed as int,
                        shown@,
                    ) == wanted,
                ensures
                    shown@ == wanted,
                decreases n + 1 - from,
            {
                if from > n || from >= last_start {
                    break;
                }
                let end = find_first_of(&chars, from, n, ' ', ' ');
                proof {
                    lemma_first_of_at_most(chars@, from as int, n as int, ' ', ' ', last_start - 1);
                }
                if end - from >= allowed {
                    break;
                }
                let ghost before = shown@;
                shown.append(" ");
                shown.append(character_name.substring_char(from, end));
                proof {
                    reveal_strlit(" ");
                    assert(" "@ =~= seq![' ']);
                    assert(shown@ =~= before + seq![' '] + character_name@.subrange(
                        from as int,
                        end as int,
                    ));
                }
                allowed = allowed - (end - from) - 1;
                from = end + 1;
            }
            let ghost middle = shown@;
            shown.append(" ");
            shown.append(character_name.substring_char(last_start, n));
            proof {
                reveal_strlit(" ");
                assert(" "@ =~= seq![' ']);
                assert(shown@ =~= middle + seq![' '] + character_name@.subrange(
                    last_start as int,
                    n as int,
                ));
            }
        }
    }
    let ghost name = shown@;
    shown.append(" Ξ ");
    shown.append(org_name);
    assert(shown@ =~= name + separator() + org_name@);
    Ok(shown)
}

/// Every part of `s[from..to]` between commas reads as a 64-bit integer.
pub open spec fn all_integers(s: Seq<char>, from: int, to: int) -> bool
    decreases to - from,
{
    if from > to {
        false
    } else {
        let end = first_of(s, from, to, ',', ',');
        if parsed_i64(s.subrange(from, end)) is None {
            false
        } else if end >= to {
            true
        } else {
            proof {
                lemma_first_of_bounds(s, from, to, ',', ',');
            }
            all_integers(s, end + 1, to)
        }
    }
}

/// The nickname without the initiative that stands before it.
///
/// A nickname without a blank gives the empty name. Otherwise, if what
/// stands before the first blank is integers separated by commas, the name
/// is what follows the blank; if it is not, there is no initiative to take
/// away.
pub open spec fn name_without_initiative(nickname: Seq<char>) -> Option<Seq<char>> {
    let blank = first_of(nickname, 0, nickname.len() as int, ' ', ' ');
    if blank >= nickname.len() {
        Some(Seq::empty())
    } else if all_integers(nickname, 0, blank) {
        Some(nickname.subrange(blank + 1, nickname.len() as int))
    } else {
        None
    }
}

/// Takes the initiative away that stands before a name in a nickname.
pub fn without_initiative(nickname: &str) -> (name: Option<String>)
    ensures
        match name_without_initiative(nickname@) {
            Some(rest) => name matches Some(found) && found@ == rest,
            None => name is None,
        },
{
    let chars = chars_of(nickname);
    let n = chars.len();
    let blank = find_first_of(&chars, 0, n, ' ', ' ');
    if blank >= n {
        return Some(String::new());
    }
    let mut from: usize = 0;
    loop
        invariant
            chars@ == nickname@,
            n == chars@.len(),
            blank < n,
            from <= blank,
            blank == first_of(nickname@, 0, n as int, ' ', ' '),
            all_integers(nickname@, from as int, blank as int) == all_integers(
                nickname@,
                0,
                blank as int,
            ),
        decreases blank - from,
    {
        let end = find_first_of(&chars, from, blank, ',', ',');
        if parse_i64(&chars, from, end).is_none() {
            return None;
        }
        if end >= blank {
            return Some(String::from_str(nickname.substring_char(blank + 1, n)));
        }
        from = end + 1;
    }
}

/// The place of the first `Ξ` of `s` from `from` on; the length of `s` if
/// there is none.
pub open spec fn separator_place(s: Seq<char>) -> int {
    first_of(s, 0, s.len() as int, 'Ξ', 'Ξ')
}

/// What follows the first `Ξ` of a nickname, if it has one.
pub fn after_separator(nickname: &str) -> (name: Option<String>)
    ensures
        separator_place(nickname@) >= nickname@.len() ==> name is None,
        separator_place(nickname@) < nickname@.len() ==> (name matches Some(found) && found@
            == nickname@.subrange(separator_place(nickname@) + 1, nickname@.len() as int)),
{
    let chars = chars_of(nickname);
    let n = chars.len();
    let place = find_first_of(&chars, 0, n, 'Ξ', 'Ξ');
    if place >= n {
        None
    } else {
        Some(String::from_str(nickname.substring_char(place + 1, n)))
    }
}

} // verus!
