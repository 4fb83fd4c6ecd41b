//! The characters that users have uploaded, and which of them each user has
//! selected.

use crate::config::Config;
use crate::text::{
    ascii_lower_code, chars_of, lower_code, str_equal, text_of, trim_range, trimmed,
};
use crate::util::{invalid_argument, is_invalid_argument, Error, ErrorType, InputErrorType};
use std::collections::HashMap;
use vstd::prelude::*;
use vstd::string::StrSliceExecFns;
use vstd::string::StringExecFns;

verus! {

broadcast use vstd::std_specs::hash::group_hash_axioms;

/// The number under which an uploaded character is stored.
#[derive(Clone, Copy, Debug, PartialEq, Eq, Structural)]
pub struct CharacterId(pub u64);

/// One uploaded character of a user.
#[derive(Debug)]
pub struct CharacterInfo {
    pub character_id: CharacterId,
    pub name: String,
    pub selected: bool,
}

/// All uploaded characters, by the user they belong to.
pub struct CharacterList {
    pub next_character_id: CharacterId,
    pub characters: HashMap<u64, Vec<CharacterInfo>>,
}

pub struct CharacterManager {
    pub characters: CharacterList,
}

/// The name of the first character that is selected, if one is.
pub open spec fn selected_name(characters: Seq<CharacterInfo>, from: int) -> Option<String>
    decreases characters.len() - from,
{
    if from >= characters.len() {
        None
    } else if characters[from].selected {
        Some(characters[from].name)
    } else {
        selected_name(characters, from + 1)
    }
}

/// The names of the characters among the first `k` that are not selected.
pub open spec fn other_names(characters: Seq<CharacterInfo>, k: int) -> Seq<String>
    decreases k,
{
    if k <= 0 {
        Seq::empty()
    } else if characters[k - 1].selected {
        other_names(characters, k - 1)
    } else {
        other_names(characters, k - 1).push(characters[k - 1].name)
    }
}

/// The place of the first character from `from` on that is stored under
/// `id`; the number of characters if there is none.
pub open spec fn place_of(characters: Seq<CharacterInfo>, id: CharacterId, from: int) -> int
    decreases characters.len() - from,
{
    if from >= characters.len() {
        characters.len() as int
    } else if characters[from].character_id == id {
        from
    } else {
        place_of(characters, id, from + 1)
    }
}

/// An error that tells that a character is missing.
pub open spec fn is_missing_character(e: Error, message: Seq<char>) -> bool {
    &&& e.spec_message() == message
    &&& e.spec_err_type() == ErrorType::InvalidInput(InputErrorType::MissingCharacter)
}

impl CharacterList {
    /// A list without characters, whose first character will get the
    /// number 0.
    pub fn new() -> (list: CharacterList)
        ensures
            list.next_character_id == CharacterId(0),
            list.characters@ == Map::<u64, Vec<CharacterInfo>>::empty(),
    {
        CharacterList { next_character_id: CharacterId(0), characters: HashMap::new() }
    }
}

impl CharacterManager {
    /// The name of the character that the user has selected, if any, and the
    /// names of the user's other characters.
    pub fn list_characters(&self, user_id: u64) -> (names: (Option<String>, Vec<String>))
        ensures
            match self.characters.characters@.get(user_id) {
                None => names.0 is None && names.1@.len() == 0,
                Some(list) => names.0 == selected_name(list@, 0) && names.1@ == other_names(
                    list@,
                    list@.len() as int,
                ),
            },
    {
        match self.characters.characters.get(&user_id) {
            None => (None, Vec::new()),
            Some(list) => {
                let mut selected: Option<String> = None;
                let mut others: Vec<String> = Vec::new();
                let mut i: usize = 0;
                while i < list.len()
                    invariant
                        i <= list@.len(),
                        others@ == other_names(list@, i as int),
                        match selected {
                            None => selected_name(list@, i as int) == selected_name(list@, 0),
                            Some(name) => selected_name(list@, 0) == Some(name),
                        },
                    decreases list@.len() - i,
                {
                    if list[i].selected {
                        if selected.is_none() {
                            selected = Some(list[i].name.clone());
                        }
                    } else {
                        others.push(list[i].name.clone());
                    }
                    i = i + 1;
                }
                (selected, others)
            },
        }
    }

    /// The name of the user's character that is stored under `character_id`.
    pub fn get_character_name<'a>(&'a self, user_id: u64, character_id: CharacterId) -> (result:
        Result<&'a str, Error>)
        ensures
            match self.characters.characters@.get(user_id) {
                None => result matches Err(e) && is_missing_character(
                    e,
                    "Error getting character name: No character found for this account"@,
                ),
                Some(list) => if place_of(list@, character_id, 0) < list@.len() {
                    result matches Ok(name) && name@ == list@[place_of(
                        list@,
                        character_id,
                        0,
                    )].name@
                } else {
                    result matches Err(e) && is_missing_character(
                        e,
                        "Error getting character name: No character found with the given id"@,
                    )
                },
            },
    {
        match self.characters.characters.get(&user_id) {
            None => Err(
                Error::new(
                    String::from_str(
                        "Error getting character name: No character found for this account",
                    ),
                    ErrorType::InvalidInput(InputErrorType::MissingCharacter),
                ),
            ),
            Some(list) => {
                let mut i: usize = 0;
                while i < list.len()
                    invariant
                        i <= list@.len(),
                        self.characters.characters@.get(user_id) == Some(*list),
                        place_of(list@, character_id, i as int) == place_of(
                            list@,
                            character_id,
                            0,
                        ),
                    decreases list@.len() - i,
                {
                    if list[i].character_id.0 == character_id.0 {
                        return Ok(list[i].name.as_str());
                    }
                    i = i + 1;
                }
                Err(
                    Error::new(
                        String::from_str(
                            "Error getting character name: No character found with the given id",
                        ),
                        ErrorType::InvalidInput(InputErrorType::MissingCharacter),
                    ),
                )
            },
        }
    }
}

/// `needle` stands in `hay` at place `k`, up to the case of the letters `a`
/// to `z`.
pub open spec fn holds_ignoring_case(hay: Seq<char>, needle: Seq<char>, k: int) -> bool {
    &&& 0 <= k
    &&& k + needle.len() <= hay.len()
    &&& forall|i: int|
        0 <= i < needle.len() ==> ascii_lower_code(hay[k + i]) == ascii_lower_code(
            #[trigger] needle[i],
        )
}

/// `needle` stands somewhere in `hay`, up to the case of the letters `a` to
/// `z`.
pub open spec fn contains_ignoring_case(hay: Seq<char>, needle: Seq<char>) -> bool {
    exists|k: int| #[trigger] holds_ignoring_case(hay, needle, k)
}

/// The character's name holds `search`, without the white space around it
/// and whatever the case of letters.
pub open spec fn named_like(character: CharacterInfo, search: Seq<char>) -> bool {
    contains_ignoring_case(character.name@, trimmed(search))
}

/// The place of the first character from `from` on whose name holds
/// `search`; the number of characters if there is none.
pub open spec fn next_named(characters: Seq<CharacterInfo>, search: Seq<char>, from: int) -> int
    decreases characters.len() - from,
{
    if from >= characters.len() {
        characters.len() as int
    } else if named_like(characters[from], search) {
        from
    } else {
        next_named(characters, search, from + 1)
    }
}

/// The place of the first character from `from` on that is selected; the
/// number of characters if there is none.
pub open spec fn next_selected(characters: Seq<CharacterInfo>, from: int) -> int
    decreases characters.len() - from,
{
    if from >= characters.len() {
        characters.len() as int
    } else if characters[from].selected {
        from
    } else {
        next_selected(characters, from + 1)
    }
}

/// What a search among characters came to.
#[derive(Clone, Copy, Debug, PartialEq, Eq, Structural)]
pub enum RosterMatch {
    /// No name holds what was searched for.
    Nobody,
    /// Exactly the character at this place.
    One(usize),
    /// More than one character; these are the places of the first two.
    Several(usize, usize),
}

/// What a search for `search` among the characters comes to.
pub open spec fn roster_match(characters: Seq<CharacterInfo>, search: Seq<char>) -> RosterMatch {
    let first = next_named(characters, search, 0);
    let second = next_named(characters, search, first + 1);
    if first >= characters.len() {
        RosterMatch::Nobody
    } else if second >= characters.len() {
        RosterMatch::One(first as usize)
    } else {
        RosterMatch::Several(first as usize, second as usize)
    }
}

/// The message that tells that a name fits both `first` and `second`.
pub open spec fn ambiguous_name_message(prefix: Seq<char>, first: Seq<char>, second: Seq<char>) -> Seq<
    char,
> {
    prefix + first + "\" and \""@ + second + "\""@
}

/// Tells whether `needle[from..to]` stands in `hay` at place `k`, up to the
/// case of the letters `a` to `z`.
pub fn holds_at(hay: &Vec<char>, needle: &Vec<char>, from: usize, to: usize, k: usize) -> (found:
    bool)
    requires
        from <= to <= needle@.len(),
    ensures
        found == holds_ignoring_case(hay@, needle@.subrange(from as int, to as int), k as int),
{
    let length = to - from;
    let n = hay.len();
    if k > n || length > n - k {
        return false;
    }
    let ghost part = needle@.subrange(from as int, to as int);
    let mut i: usize = 0;
    while i < length
        invariant
            i <= length,
            length == to - from,
            from <= to <= needle@.len(),
            n == hay@.len(),
            k + length <= n,
            part == needle@.subrange(from as int, to as int),
            forall|j: int|
                0 <= j < i ==> ascii_lower_code(hay@[k + j]) == ascii_lower_code(#[trigger] part[j]),
        decreases length - i,
    {
        assert(part[i as int] == needle@[from + i]);
        if lower_code(hay[k + i]) != lower_code(needle[from + i]) {
            return false;
        }
        i = i + 1;
    }
    true
}

/// Tells whether `needle[from..to]` stands somewhere in `hay`, up to the
/// case of the letters `a` to `z`.
pub fn contains_ignore_ascii_case(hay: &Vec<char>, needle: &Vec<char>, from: usize, to: usize) -> (found:
    bool)
    requires
        from <= to <= needle@.len(),
    ensures
        found == contains_ignoring_case(hay@, needle@.subrange(from as int, to as int)),
{
    let ghost part = needle@.subrange(from as int, to as int);
    let length = to - from;
    let n = hay.len();
    if length > n {
        assert forall|k: int| !#[trigger] holds_ignoring_case(hay@, part, k) by {}
        return false;
    }
    let last = n - length;
    let mut k: usize = 0;
    while k <= last
        invariant
            k <= last + 1,
            n == hay@.len(),
            last == n - length,
            length == to - from,
            from <= to <= needle@.len(),
            part == needle@.subrange(from as int, to as int),
            forall|j: int| 0 <= j < k ==> !#[trigger] holds_ignoring_case(hay@, part, j),
        decreases last + 1 - k,
    {
        let same = holds_at(hay, needle, from, to, k);
        if same {
            return true;
        }
        if k == last {
            assert forall|j: int| !#[trigger] holds_ignoring_case(hay@, part, j) by {}
            return false;
        }
        k = k + 1;
    }
    assert forall|j: int| !#[trigger] holds_ignoring_case(hay@, part, j) by {}
    false
}

/// Searches the characters for those whose name holds `search`.
pub fn search_roster(characters: &Vec<CharacterInfo>, search: &str) -> (found: RosterMatch)
    ensures
        found == roster_match(characters@, search@),
        found matches RosterMatch::One(i) ==> i < characters@.len(),
        found matches RosterMatch::Several(i, j) ==> i < j < characters@.len(),
{
    let pattern = chars_of(search);
    let (from, to) = trim_range(&pattern, 0, pattern.len());
    assert(pattern@.subrange(0, pattern@.len() as int) =~= search@);
    let mut first: Option<usize> = None;
    let mut i: usize = 0;
    while i < characters.len()
        invariant
            i <= characters@.len(),
            from <= to <= pattern@.len(),
            pattern@.subrange(from as int, to as int) == trimmed(search@),
            match first {
                None => next_named(characters@, search@, i as int) == next_named(
                    characters@,
                    search@,
                    0,
                ),
                Some(f) => f < i && next_named(characters@, search@, 0) == f && next_named(
                    characters@,
                    search@,
                    i as int,
                ) == next_named(characters@, search@, f + 1),
            },
        decreases characters@.len() - i,
    {
        let name = chars_of(characters[i].name.as_str());
        if contains_ignore_ascii_case(&name, &pattern, from, to) {
            match first {
                None => {
                    first = Some(i);
                },
                Some(f) => {
                    return RosterMatch::Several(f, i);
                },
            }
        }
        i = i + 1;
    }
    match first {
        None => RosterMatch::Nobody,
        Some(f) => RosterMatch::One(f),
    }
}

/// The error that tells that a character is missing.
pub fn missing_character(message: &str) -> (e: Error)
    ensures
        is_missing_character(e, message@),
{
    Error::new(String::from_str(message), ErrorType::InvalidInput(InputErrorType::MissingCharacter))
}

/// The error that tells that a name fits both `first` and `second`.
pub fn ambiguous_name(prefix: &str, first: &str, second: &str) -> (e: Error)
    ensures
        is_invalid_argument(e, ambiguous_name_message(prefix@, first@, second@)),
{
    let detail = String::from_str(first).concat("\" and \"").concat(second).concat("\"");
    assert(prefix@ + detail@ =~= ambiguous_name_message(prefix@, first@, second@));
    invalid_argument(prefix, detail.as_str())
}

/// What looking for a character of one user comes to: with no name, the
/// character that is selected; with a name, the one character whose name
/// holds it.
pub open spec fn found_character(
    list: Option<Vec<CharacterInfo>>,
    name: Option<Seq<char>>,
    result: Result<CharacterId, Error>,
) -> bool {
    match list {
        None => result matches Err(e) && is_missing_character(
            e,
            "Error getting character: No character found for this discord account"@,
        ),
        Some(characters) => match name {
            None => if next_selected(characters@, 0) < characters@.len() {
                result matches Ok(id) && id == characters@[next_selected(
                    characters@,
                    0,
                )].character_id
            } else {
                result matches Err(e) && is_missing_character(
                    e,
                    "Error getting character: No character is currently selected"@,
                )
            },
            Some(text) => match roster_match(characters@, text) {
                RosterMatch::Nobody => result matches Err(e) && is_missing_character(
                    e,
                    "Error getting character: No matching character found"@,
                ),
                RosterMatch::One(i) => result matches Ok(id) && id
                    == characters@[i as int].character_id,
                RosterMatch::Several(i, j) => result matches Err(e) && is_invalid_argument(
                    e,
                    ambiguous_name_message(
                        "Ambiguous character name, matches \""@,
                        characters@[i as int].name@,
                        characters@[j as int].name@,
                    ),
                ),
            },
        },
    }
}

/// The selection flags after the character at `chosen` was selected: that
/// character's number is selected, all others are not.
pub open spec fn selection_made(before: Seq<CharacterInfo>, after: Seq<CharacterInfo>, chosen: int) -> bool {
    &&& after.len() == before.len()
    &&& forall|i: int|
        0 <= i < before.len() ==> {
            &&& (#[trigger] after[i]).character_id == before[i].character_id
            &&& after[i].name == before[i].name
            &&& after[i].selected == (before[i].character_id == before[chosen].character_id)
        }
}

/// What selecting a character of `user_id` by `name` comes to: the one
/// character whose name holds `name` is selected and no other of the user,
/// and its full name is handed out; where there is no such character, or
/// more than one, nothing changes.
pub open spec fn selected_character(
    before: Map<u64, Vec<CharacterInfo>>,
    after: Map<u64, Vec<CharacterInfo>>,
    user_id: u64,
    name: Seq<char>,
    result: Result<String, Error>,
) -> bool {
    match before.get(user_id) {
        None => {
            &&& after == before
            &&& result matches Err(e)
            &&& is_missing_character(e, "No character found for your discord account"@)
        },
        Some(characters) => match roster_match(characters@, name) {
            RosterMatch::Nobody => {
                &&& after == before
                &&& result matches Err(e)
                &&& is_missing_character(e, "No matching character found"@)
            },
            RosterMatch::Several(i, j) => {
                &&& after == before
                &&& result matches Err(e)
                &&& is_invalid_argument(
                    e,
                    ambiguous_name_message(
                        "Ambiguous name, matches \""@,
                        characters@[i as int].name@,
                        characters@[j as int].name@,
                    ),
                )
            },
            RosterMatch::One(i) => {
                &&& result matches Ok(selected)
                &&& selected == characters@[i as int].name
                &&& after.remove(user_id) == before.remove(user_id)
                &&& after.get(user_id) matches Some(list)
                &&& selection_made(characters@, list@, i as int)
            },
        },
    }
}

/// The characters among the first `k` whose name does not hold `search`.
pub open spec fn kept_characters(characters: Seq<CharacterInfo>, search: Seq<char>, k: int) -> Seq<
    CharacterInfo,
>
    decreases k,
{
    if k <= 0 {
        Seq::empty()
    } else if named_like(characters[k - 1], search) {
        kept_characters(characters, search, k - 1)
    } else {
        kept_characters(characters, search, k - 1).push(characters[k - 1])
    }
}

/// The characters among the first `k` whose name holds `search`.
pub open spec fn removed_characters(characters: Seq<CharacterInfo>, search: Seq<char>, k: int) -> Seq<
    CharacterInfo,
>
    decreases k,
{
    if k <= 0 {
        Seq::empty()
    } else if named_like(characters[k - 1], search) {
        removed_characters(characters, search, k - 1).push(characters[k - 1])
    } else {
        removed_characters(characters, search, k - 1)
    }
}

/// The place of the first character from `from` on that is called exactly
/// `name`; the number of characters if there is none.
pub open spec fn place_called(characters: Seq<CharacterInfo>, name: Seq<char>, from: int) -> int
    decreases characters.len() - from,
{
    if from >= characters.len() {
        characters.len() as int
    } else if characters[from].name@ == name {
        from
    } else {
        place_called(characters, name, from + 1)
    }
}

/// What became of a character that was handed in.
#[derive(Clone, Copy, Debug, PartialEq, Eq, Structural)]
pub enum Registration {
    /// It takes the place of the character stored under this number, which
    /// has the same name.
    Replaced(CharacterId),
    /// It is new and stored under this number.
    Added(CharacterId),
}

impl CharacterManager {
    /// Looks for a character of the user: with no name for the one that is
    /// selected, with a name for the one whose name holds it.
    pub fn find_character_for_user(&self, user_id: u64, name: Option<&str>) -> (result: Result<
        CharacterId,
        Error,
    >)
        ensures
            found_character(
                self.characters.characters@.get(user_id),
                text_of(name),
                result,
            ),
    {
        let characters = match self.characters.characters.get(&user_id) {
            None => {
                return Err(
                    missing_character(
                        "Error getting character: No character found for this discord account",
                    ),
                );
            },
            Some(characters) => characters,
        };
        match name {
            None => {
                let mut i: usize = 0;
                while i < characters.len()
                    invariant
                        i <= characters@.len(),
                        self.characters.characters@.get(user_id) == Some(*characters),
                        name is None,
                        next_selected(characters@, i as int) == next_selected(characters@, 0),
                    decreases characters@.len() - i,
                {
                    if characters[i].selected {
                        return Ok(characters[i].character_id);
                    }
                    i = i + 1;
                }
                Err(missing_character("Error getting character: No character is currently selected"))
            },
            Some(text) => match search_roster(characters, text) {
                RosterMatch::Nobody => Err(
                    missing_character("Error getting character: No matching character found"),
                ),
                RosterMatch::One(i) => Ok(characters[i].character_id),
                RosterMatch::Several(i, j) => Err(
                    ambiguous_name(
                        "Ambiguous character name, matches \"",
                        characters[i].name.as_str(),
                        characters[j].name.as_str(),
                    ),
                ),
            },
        }
    }

    /// Selects the one character of the user whose name holds `name`, and
    /// hands out its full name.
    pub fn select_character(&mut self, user_id: u64, name: &str) -> (result: Result<String, Error>)
        ensures
            final(self).characters.next_character_id == old(self).characters.next_character_id,
            selected_character(
                old(self).characters.characters@,
                final(self).characters.characters@,
                user_id,
                name@,
                result,
            ),
    {
        let ghost before = self.characters.characters@;
        let mut characters = match self.characters.characters.remove(&user_id) {
            None => {
                assert(self.characters.characters@ =~= before);
                return Err(missing_character("No character found for your discord account"));
            },
            Some(characters) => characters,
        };
        let ghost listed = characters@;
        let found = search_roster(&characters, name);
        let result = match found {
            RosterMatch::Nobody => Err(missing_character("No matching character found")),
            RosterMatch::Several(i, j) => Err(
                ambiguous_name(
                    "Ambiguous name, matches \"",
                    characters[i].name.as_str(),
                    characters[j].name.as_str(),
                ),
            ),
            RosterMatch::One(chosen) => {
                let selected_id = characters[chosen].character_id;
                let selected_name = characters[chosen].name.clone();
                let mut k: usize = 0;
                while k < characters.len()
                    invariant
                        k <= characters@.len(),
                        characters@.len() == listed.len(),
                        chosen < listed.len(),
                        selected_id == listed[chosen as int].character_id,
                        forall|i: int|
                            0 <= i < listed.len() ==> {
                                &&& (#[trigger] characters@[i]).character_id
                                    == listed[i].character_id
                                &&& characters@[i].name == listed[i].name
                            },
                        forall|i: int|
                            0 <= i < k ==> (#[trigger] characters@[i]).selected == (
                            listed[i].character_id == selected_id),
                    decreases characters@.len() - k,
                {
                    let is_chosen = characters[k].character_id.0 == selected_id.0;
                    characters[k].selected = is_chosen;
                    k = k + 1;
                }
                Ok(selected_name)
            },
        };
        self.characters.characters.insert(user_id, characters);
        proof {
            if !(found is One) {
                assert(characters@ == listed);
                assert(self.characters.characters@ =~= before);
            } else {
                assert(self.characters.characters@.remove(user_id) =~= before.remove(user_id));
            }
        }
        result
    }
}

/// The number of bytes that `text` takes.
pub open spec fn byte_length(text: Seq<char>) -> nat {
    vstd::utf8::encode_utf8(text).len()
}

/// None of the characters is selected.
pub open spec fn none_selected(characters: Seq<CharacterInfo>) -> bool {
    forall|i: int| 0 <= i < characters.len() ==> !(#[trigger] characters[i]).selected
}

/// What removing the characters of `user_id` whose names hold `name` comes
/// to: they are handed out, in order, and the others stay; for a user
/// without characters nothing changes.
pub open spec fn removed_from(
    before: Map<u64, Vec<CharacterInfo>>,
    after: Map<u64, Vec<CharacterInfo>>,
    user_id: u64,
    name: Seq<char>,
    removed: Seq<CharacterInfo>,
) -> bool {
    match before.get(user_id) {
        None => after == before && removed.len() == 0,
        Some(characters) => {
            &&& removed == removed_characters(characters@, name, characters@.len() as int)
            &&& after.remove(user_id) == before.remove(user_id)
            &&& after.get(user_id) matches Some(kept)
            &&& kept@ == kept_characters(characters@, name, characters@.len() as int)
        },
    }
}

/// An error of the given category with the given message.
pub open spec fn is_input_error(e: Error, category: InputErrorType, message: Seq<char>) -> bool {
    &&& e.spec_message() == message
    &&& e.spec_err_type() == ErrorType::InvalidInput(category)
}

/// What handing in a character called `name` for `user_id` comes to.
///
/// The name counts without the white space around it. It is rejected when
/// it takes more bytes than the settings allow. A character of the user with
/// exactly that name is replaced. Otherwise the character is added under the
/// next free number, selected if no other character of the user is, unless
/// the user has as many characters as the settings allow or no number is
/// left.
pub open spec fn registered(
    before: CharacterList,
    after: CharacterList,
    user_id: u64,
    name: Seq<char>,
    config: Config,
    result: Result<Registration, Error>,
) -> bool {
    let called = trimmed(name);
    let next = before.next_character_id;
    let unchanged = after.characters@ == before.characters@ && after.next_character_id == next;
    let listed = match before.characters@.get(user_id) {
        Some(characters) => characters@,
        None => Seq::<CharacterInfo>::empty(),
    };
    let place = place_called(listed, called, 0);
    if byte_length(called) > config.discord.max_name_length {
        &&& unchanged
        &&& result matches Err(e)
        &&& is_input_error(
            e,
            InputErrorType::CharacterNameTooLong,
            "Character name exceeds maximum length"@,
        )
    } else if place < listed.len() {
        &&& unchanged
        &&& result == Ok::<Registration, Error>(Registration::Replaced(listed[place].character_id))
    } else if listed.len() >= config.discord.max_num_characters || next.0 == u64::MAX {
        &&& unchanged
        &&& result matches Err(e)
        &&& is_input_error(
            e,
            InputErrorType::TooManyCharacters,
            "Exceeded maximum number of characters, use the \"remove\" command to free up space."@,
        )
    } else {
        &&& result == Ok::<Registration, Error>(Registration::Added(next))
        &&& after.next_character_id == CharacterId((next.0 + 1) as u64)
        &&& after.characters@.remove(user_id) == before.characters@.remove(user_id)
        &&& after.characters@.get(user_id) matches Some(list)
        &&& list@.len() == listed.len() + 1
        &&& list@.take(listed.len() as int) == listed
        &&& list@.last().character_id == next
        &&& list@.last().name@ == called
        &&& list@.last().selected == none_selected(listed)
    }
}

impl CharacterManager {
    /// Removes the characters of the user whose names hold `name`, and hands
    /// them out.
    pub fn delete_character(&mut self, user_id: u64, name: &str) -> (removed: Vec<CharacterInfo>)
        ensures
            final(self).characters.next_character_id == old(self).characters.next_character_id,
            removed_from(
                old(self).characters.characters@,
                final(self).characters.characters@,
                user_id,
                name@,
                removed@,
            ),
    {
        let ghost before = self.characters.characters@;
        let characters = match self.characters.characters.remove(&user_id) {
            None => {
                assert(self.characters.characters@ =~= before);
                return Vec::new();
            },
            Some(characters) => characters,
        };
        let pattern = chars_of(name);
        let (from, to) = trim_range(&pattern, 0, pattern.len());
        assert(pattern@.subrange(0, pattern@.len() as int) =~= name@);
        let mut removed: Vec<CharacterInfo> = Vec::new();
        let mut kept: Vec<CharacterInfo> = Vec::new();
        let mut k: usize = 0;
        while k < characters.len()
            invariant
                k <= characters@.len(),
                from <= to <= pattern@.len(),
                pattern@.subrange(from as int, to as int) == trimmed(name@),
                removed@ == removed_characters(characters@, name@, k as int),
                kept@ == kept_characters(characters@, name@, k as int),
            decreases characters@.len() - k,
        {
            let copy = CharacterInfo {
                character_id: characters[k].character_id,
                name: characters[k].name.clone(),
                selected: characters[k].selected,
            };
            assert(copy == characters@[k as int]);
            let letters = chars_of(characters[k].name.as_str());
            if contains_ignore_ascii_case(&letters, &pattern, from, to) {
                removed.push(copy);
            } else {
                kept.push(copy);
            }
            k = k + 1;
        }
        self.characters.characters.insert(user_id, kept);
        assert(self.characters.characters@.remove(user_id) =~= before.remove(user_id));
        removed
    }

    /// Takes note of a character that the user handed in, whose sheet names
    /// it `name`.
    pub fn register_character(&mut self, user_id: u64, name: &str, config: &Config) -> (result:
        Result<Registration, Error>)
        ensures
            registered(
                old(self).characters,
                final(self).characters,
                user_id,
                name@,
                *config,
                result,
            ),
    {
        let ghost before = self.characters.characters@;
        let letters = chars_of(name);
        let (from, to) = trim_range(&letters, 0, letters.len());
        assert(letters@.subrange(0, letters@.len() as int) =~= name@);
        let called = name.substring_char(from, to);
        assert(called@ == trimmed(name@));
        let bytes = called.as_bytes().len();
        assert(bytes == byte_length(called@));
        if bytes > config.discord.max_name_length {
            return Err(
                Error::new(
                    String::from_str("Character name exceeds maximum length"),
                    ErrorType::InvalidInput(InputErrorType::CharacterNameTooLong),
                ),
            );
        }
        let next = self.characters.next_character_id;
        let (had_list, mut characters) = match self.characters.characters.remove(&user_id) {
            None => (false, Vec::new()),
            Some(characters) => (true, characters),
        };
        let ghost listed = characters@;
        let mut unselected = true;
        let mut replaced: Option<CharacterId> = None;
        let mut k: usize = 0;
        while k < characters.len()
            invariant
                k <= characters@.len(),
                characters@ == listed,
                unselected == none_selected(listed.take(k as int)),
                match replaced {
                    None => place_called(listed, called@, k as int) == place_called(
                        listed,
                        called@,
                        0,
                    ),
                    Some(id) => place_called(listed, called@, 0) < listed.len() && id
                        == listed[place_called(listed, called@, 0)].character_id,
                },
            decreases characters@.len() - k,
        {
            if replaced.is_none() && str_equal(characters[k].name.as_str(), called) {
                replaced = Some(characters[k].character_id);
            }
            if characters[k].selected {
                unselected = false;
                assert(listed.take(k + 1)[k as int].selected);
            } else {
                assert forall|i: int| 0 <= i < k + 1 && none_selected(
                    listed.take(k as int),
                ) implies !(#[trigger] listed.take(k + 1)[i]).selected by {
                    if i < k {
                        assert(listed.take(k as int)[i] == listed.take(k + 1)[i]);
                    }
                }
                assert(none_selected(listed.take(k + 1)) ==> none_selected(listed.take(k as int))) by {
                    if none_selected(listed.take(k + 1)) {
                        assert forall|i: int| 0 <= i < k implies !(#[trigger] listed.take(
                            k as int,
                        )[i]).selected by {
                            assert(listed.take(k as int)[i] == listed.take(k + 1)[i]);
                        }
                    }
                }
            }
            k = k + 1;
        }
        assert(listed.take(listed.len() as int) =~= listed);
        let mut added = false;
        let result = match replaced {
            Some(id) => Ok(Registration::Replaced(id)),
            None => {
                if characters.len() >= config.discord.max_num_characters || next.0 == u64::MAX {
                    Err(
                        Error::new(
                            String::from_str(
                                "Exceeded maximum number of characters, use the \"remove\" command to free up space.",
                            ),
                            ErrorType::InvalidInput(InputErrorType::TooManyCharacters),
                        ),
                    )
                } else {
                    characters.push(
                        CharacterInfo {
                            character_id: next,
                            name: String::from_str(called),
                            selected: unselected,
                        },
                    );
                    assert(characters@.take(listed.len() as int) =~= listed);
                    self.characters.next_character_id = CharacterId(next.0 + 1);
                    added = true;
                    Ok(Registration::Added(next))
                }
            },
        };
        if had_list || added {
            self.characters.characters.insert(user_id, characters);
        }
        proof {
            if !added {
                assert(self.characters.characters@ =~= before);
            } else {
                assert(self.characters.characters@.remove(user_id) =~= before.remove(user_id));
            }
        }
        result
    }
}

/// The characters of the first `k` of the users `members`, user after user.
pub open spec fn channel_roster(
    characters: Map<u64, Vec<CharacterInfo>>,
    members: Seq<u64>,
    k: int,
) -> Seq<CharacterInfo>
    decreases k,
{
    if k <= 0 {
        Seq::empty()
    } else {
        channel_roster(characters, members, k - 1) + match characters.get(members[k - 1]) {
            Some(list) => list@,
            None => Seq::empty(),
        }
    }
}

/// What looking among the user's own characters for one whose name holds
/// `name` comes to: that character, nothing if there is none, and an error
/// if there are several.
pub open spec fn found_own(
    list: Option<Vec<CharacterInfo>>,
    name: Seq<char>,
    result: Result<Option<CharacterId>, Error>,
) -> bool {
    match list {
        None => result matches Ok(None),
        Some(characters) => match roster_match(characters@, name) {
            RosterMatch::Nobody => result matches Ok(None),
            RosterMatch::One(i) => result matches Ok(Some(id)) && id
                == characters@[i as int].character_id,
            RosterMatch::Several(i, j) => result matches Err(e) && is_invalid_argument(
                e,
                ambiguous_name_message(
                    "Ambiguous character name, matches \""@,
                    characters@[i as int].name@,
                    characters@[j as int].name@,
                ),
            ),
        },
    }
}

/// What looking among `roster` for the one character whose name holds `name`
/// comes to.
pub open spec fn found_among(
    roster: Seq<CharacterInfo>,
    name: Seq<char>,
    result: Result<CharacterId, Error>,
) -> bool {
    match roster_match(roster, name) {
        RosterMatch::Nobody => result matches Err(e) && is_missing_character(
            e,
            "Error getting character: No matching character found"@,
        ),
        RosterMatch::One(i) => result matches Ok(id) && id == roster[i as int].character_id,
        RosterMatch::Several(i, j) => result matches Err(e) && is_invalid_argument(
            e,
            ambiguous_name_message(
                "Ambiguous character name, matches \""@,
                roster[i as int].name@,
                roster[j as int].name@,
            ),
        ),
    }
}

impl CharacterManager {
    /// Looks among the user's own characters for the one whose name holds
    /// `name`.
    pub fn find_own_character(&self, user_id: u64, name: &str) -> (result: Result<
        Option<CharacterId>,
        Error,
    >)
        ensures
            found_own(self.characters.characters@.get(user_id), name@, result),
    {
        match self.characters.characters.get(&user_id) {
            None => Ok(None),
            Some(characters) => match search_roster(characters, name) {
                RosterMatch::Nobody => Ok(None),
                RosterMatch::One(i) => Ok(Some(characters[i].character_id)),
                RosterMatch::Several(i, j) => Err(
                    ambiguous_name(
                        "Ambiguous character name, matches \"",
                        characters[i].name.as_str(),
                        characters[j].name.as_str(),
                    ),
                ),
            },
        }
    }

    /// Looks among the characters of the users `members` for the one whose
    /// name holds `name`.
    pub fn find_character_among(&self, members: &Vec<u64>, name: &str) -> (result: Result<
        CharacterId,
        Error,
    >)
        ensures
            found_among(
                channel_roster(self.characters.characters@, members@, members@.len() as int),
                name@,
                result,
            ),
    {
        let mut roster: Vec<CharacterInfo> = Vec::new();
        let mut m: usize = 0;
        while m < members.len()
            invariant
                m <= members@.len(),
                roster@ == channel_roster(self.characters.characters@, members@, m as int),
            decreases members@.len() - m,
        {
            let ghost before = roster@;
            match self.characters.characters.get(&members[m]) {
                None => {
                    assert(before + Seq::<CharacterInfo>::empty() =~= before);
                },
                Some(list) => {
                    let mut k: usize = 0;
                    while k < list.len()
                        invariant
                            k <= list@.len(),
                            roster@ == before + list@.take(k as int),
                        decreases list@.len() - k,
                    {
                        roster.push(
                            CharacterInfo {
                                character_id: list[k].character_id,
                                name: list[k].name.clone(),
                                selected: list[k].selected,
                            },
                        );
                        assert(roster@ =~= before + list@.take(k + 1));
                        k = k + 1;
                    }
                    assert(list@.take(list@.len() as int) =~= list@);
                },
            }
            m = m + 1;
        }
        match search_roster(&roster, name) {
            RosterMatch::Nobody => Err(
                missing_character("Error getting character: No matching character found"),
            ),
            RosterMatch::One(i) => Ok(roster[i].character_id),
            RosterMatch::Several(i, j) => Err(
                ambiguous_name(
                    "Ambiguous character name, matches \"",
                    roster[i].name.as_str(),
                    roster[j].name.as_str(),
                ),
            ),
        }
    }
}

} // verus!
