//! Settings, and the data of the rule book: which attributes a skill, a
//! combat technique, a spell or a chant is checked against.

use crate::text::{
    chars_of, contains_range, contains_text, ends_with_text, stands_at, starts_with_text,
    str_equal,
};
use crate::util::{invalid_argument, is_invalid_argument, Error};
use vstd::prelude::*;
use vstd::string::StringExecFns;

pub mod default;

verus! {

/// The version of the rule data that this library knows as the newest.
pub const DSA_DATA_NEWEST_VERSION: u64 = 2;

#[derive(Debug)]
pub struct Config {
    pub auto_update_dsa_data: bool,
    pub dsa_rules: ConfigDSARules,
    pub discord: ConfigDiscord,
}

#[derive(Debug)]
pub struct ConfigDiscord {
    pub login_token: Option<String>,
    pub application_id: Option<u64>,
    pub use_slash_commands: bool,
    pub num_threads: usize,
    pub require_complete_command: bool,
    pub use_reply: bool,
    pub max_attachement_size: u64,
    pub max_name_length: usize,
    pub max_num_characters: usize,
}

#[derive(Debug)]
pub struct ConfigDSARules {
    pub crit_rules: ConfigDSACritType,
}

/// Which house rule for critical results a group plays by.
#[derive(Clone, Copy, Debug, PartialEq, Eq, Structural)]
pub enum ConfigDSACritType {
    NoCrits,
    DefaultCrits,
    AlternativeCrits,
}

/// The rule data. Every table lists its entries by name, no name twice.
#[derive(Debug)]
pub struct DSAData {
    pub version: u64,
    pub attributes: Vec<(String, AttributeConfig)>,
    pub talents: Vec<(String, TalentConfig)>,
    pub combat_techniques: Vec<(String, CombatTechniqueConfig)>,
    pub spells: Vec<(String, SpellConfig)>,
    pub chants: Vec<(String, SpellConfig)>,
}

#[derive(Debug)]
pub struct AttributeConfig {
    pub short_name: String,
}

#[derive(Debug)]
pub struct TalentConfig {
    pub attributes: Vec<String>,
}

#[derive(Debug)]
pub struct CombatTechniqueConfig {
    pub attributes: Vec<String>,
}

#[derive(Debug)]
pub struct SpellConfig {
    pub attributes: Vec<String>,
}

/// No two entries have the same name.
pub open spec fn distinct_names<V>(entries: Seq<(String, V)>) -> bool {
    forall|i: int, j: int|
        0 <= i < j < entries.len() ==> (#[trigger] entries[i]).0@ != (#[trigger] entries[j]).0@
}

/// Tells whether no two entries have the same name.
pub fn has_distinct_names<V>(entries: &Vec<(String, V)>) -> (ok: bool)
    ensures
        ok == distinct_names(entries@),
{
    let mut j: usize = 0;
    while j < entries.len()
        invariant
            j <= entries@.len(),
            forall|a: int, b: int|
                0 <= a < b < j ==> (#[trigger] entries@[a]).0@ != (#[trigger] entries@[b]).0@,
        decreases entries@.len() - j,
    {
        let mut i: usize = 0;
        while i < j
            invariant
                i <= j < entries@.len(),
                forall|a: int| 0 <= a < i ==> (#[trigger] entries@[a]).0@ != entries@[j as int].0@,
            decreases j - i,
        {
            if str_equal(entries[i].0.as_str(), entries[j].0.as_str()) {
                return false;
            }
            i = i + 1;
        }
        j = j + 1;
    }
    true
}

/// What a search among names came to.
#[derive(Clone, Copy, Debug, PartialEq, Eq, Structural)]
pub enum SearchOutcome {
    /// Exactly this entry fits.
    Found(usize),
    /// No entry fits.
    NotFound,
    /// More than one entry fits; these are the first two.
    Ambiguous(usize, usize),
}

/// The text in small letters, as `str::to_lowercase` gives it.
pub uninterp spec fn lowercase_of(text: Seq<char>) -> Seq<char>;

/// The text in small letters.
///
/// Calls `str::to_lowercase`, which maps every character to its lowercase
/// form as Unicode defines it. The result is named, not spelled out.
#[verifier::external_body]
fn to_lowercase(text: &str) -> (lower: String)
    ensures
        lower@ == lowercase_of(text@),
{
    text.to_lowercase()
}

/// The search asks for names that begin with what is searched for.
pub open spec fn anchored_at_start(pattern: Seq<char>) -> bool {
    pattern.len() > 0 && pattern[0] == '_'
}

/// Where in `pattern` the text that is searched for begins.
pub open spec fn needle_start(pattern: Seq<char>) -> int {
    if anchored_at_start(pattern) {
        1
    } else {
        0
    }
}

/// The search asks for names that end with what is searched for.
pub open spec fn anchored_at_end(pattern: Seq<char>) -> bool {
    pattern.len() > needle_start(pattern) && pattern.last() == '_'
}

/// Where in `pattern` the text that is searched for ends.
pub open spec fn needle_end(pattern: Seq<char>) -> int {
    if anchored_at_end(pattern) {
        pattern.len() - 1
    } else {
        pattern.len() as int
    }
}

/// The text that is searched for: `pattern` without the `_` that may stand
/// at its start and at its end.
pub open spec fn needle_of(pattern: Seq<char>) -> Seq<char> {
    pattern.subrange(needle_start(pattern), needle_end(pattern))
}

/// `name` fits the search `pattern`: it holds what is searched for, at its
/// start if `pattern` begins with `_`, and at its end if `pattern` ends with
/// `_`.
pub open spec fn name_fits(name: Seq<char>, pattern: Seq<char>) -> bool {
    &&& contains_text(name, needle_of(pattern))
    &&& anchored_at_start(pattern) ==> starts_with_text(name, needle_of(pattern))
    &&& anchored_at_end(pattern) ==> ends_with_text(name, needle_of(pattern))
}

/// The first place from `from` on where a name fits; the number of names if
/// none does.
pub open spec fn next_fit(names: Seq<Seq<char>>, pattern: Seq<char>, from: int) -> int
    decreases names.len() - from,
{
    if from >= names.len() {
        names.len() as int
    } else if name_fits(names[from], pattern) {
        from
    } else {
        next_fit(names, pattern, from + 1)
    }
}

/// What a search for `pattern` among `names` comes to.
pub open spec fn search_outcome(names: Seq<Seq<char>>, pattern: Seq<char>) -> SearchOutcome {
    let first = next_fit(names, pattern, 0);
    let second = next_fit(names, pattern, first + 1);
    if first >= names.len() {
        SearchOutcome::NotFound
    } else if second >= names.len() {
        SearchOutcome::Found(first as usize)
    } else {
        SearchOutcome::Ambiguous(first as usize, second as usize)
    }
}

/// Tells whether `name` fits the search `pattern`.
pub fn fits(name: &Vec<char>, pattern: &Vec<char>) -> (fit: bool)
    ensures
        fit == name_fits(name@, pattern@),
{
    let n = pattern.len();
    let at_start = n > 0 && pattern[0] == '_';
    let from: usize = if at_start {
        1
    } else {
        0
    };
    let at_end = n > from && pattern[n - 1] == '_';
    let to: usize = if at_end {
        n - 1
    } else {
        n
    };
    if !contains_range(name, pattern, from, to) {
        return false;
    }
    if at_start && !stands_at(name, pattern, from, to, 0) {
        return false;
    }
    if at_end {
        let length = to - from;
        if length > name.len() {
            return false;
        }
        if !stands_at(name, pattern, from, to, name.len() - length) {
            return false;
        }
    }
    true
}

/// Searches the names for the one that fits `pattern`. Both are taken as
/// they stand; see [`DSAData::match_search`] for a search that does not mind
/// the case of letters.
pub fn search_names(names: &Vec<Vec<char>>, pattern: &Vec<char>) -> (outcome: SearchOutcome)
    ensures
        outcome == search_outcome(key_texts(names@), pattern@),
        outcome matches SearchOutcome::Found(i) ==> i < names@.len(),
        outcome matches SearchOutcome::Ambiguous(i, j) ==> i < j < names@.len(),
{
    let ghost texts = key_texts(names@);
    let mut first: Option<usize> = None;
    let mut i: usize = 0;
    while i < names.len()
        invariant
            i <= names@.len(),
            texts == key_texts(names@),
            match first {
                None => next_fit(texts, pattern@, i as int) == next_fit(texts, pattern@, 0),
                Some(f) => f < i && next_fit(texts, pattern@, 0) == f && next_fit(
                    texts,
                    pattern@,
                    i as int,
                ) == next_fit(texts, pattern@, f + 1),
            },
        decreases names@.len() - i,
    {
        if fits(&names[i], pattern) {
            match first {
                None => {
                    first = Some(i);
                },
                Some(f) => {
                    return SearchOutcome::Ambiguous(f, i);
                },
            }
        }
        i = i + 1;
    }
    match first {
        None => SearchOutcome::NotFound,
        Some(f) => SearchOutcome::Found(f),
    }
}

/// The names as plain sequences of characters.
pub open spec fn key_texts(names: Seq<Vec<char>>) -> Seq<Seq<char>> {
    Seq::new(names.len(), |i: int| names[i]@)
}

/// The names of the entries.
pub open spec fn names_of<V>(entries: Seq<(String, V)>) -> Seq<Seq<char>> {
    Seq::new(entries.len(), |i: int| entries[i].0@)
}

/// The names in small letters.
pub open spec fn lowercase_all(names: Seq<Seq<char>>) -> Seq<Seq<char>> {
    Seq::new(names.len(), |i: int| lowercase_of(names[i]))
}

/// The message that tells that nothing fits `search`.
pub open spec fn no_match_message(search: Seq<char>) -> Seq<char> {
    "No matches found for \""@ + search + "\""@
}

/// The message that tells that `search` fits both `first` and `second`.
pub open spec fn ambiguous_message(search: Seq<char>, first: Seq<char>, second: Seq<char>) -> Seq<
    char,
> {
    "Ambiguous identifier \""@ + search + "\": Matched \""@ + first + "\" and \""@ + second
        + "\".\nNote: You can use \"_\" to mark the beginning and/or end of the name."@
}

/// What a search for `search` among the names comes to: the place of the
/// one name that fits, whatever the case of letters, or the message that
/// tells why there is none.
pub open spec fn found_name(names: Seq<Seq<char>>, search: Seq<char>) -> Result<int, Seq<char>> {
    match search_outcome(lowercase_all(names), lowercase_of(search)) {
        SearchOutcome::Found(i) => Ok(i as int),
        SearchOutcome::NotFound => Err(no_match_message(search)),
        SearchOutcome::Ambiguous(i, j) => Err(
            ambiguous_message(search, names[i as int], names[j as int]),
        ),
    }
}

impl DSAData {
    /// The rule data is well formed when no table lists a name twice.
    pub open spec fn wf(&self) -> bool {
        &&& distinct_names(self.attributes@)
        &&& distinct_names(self.talents@)
        &&& distinct_names(self.combat_techniques@)
        &&& distinct_names(self.spells@)
        &&& distinct_names(self.chants@)
    }

    /// Tells whether the rule data is well formed.
    pub fn is_well_formed(&self) -> (ok: bool)
        ensures
            ok == self.wf(),
    {
        has_distinct_names(&self.attributes) && has_distinct_names(&self.talents)
            && has_distinct_names(&self.combat_techniques) && has_distinct_names(&self.spells)
            && has_distinct_names(&self.chants)
    }

    /// Searches the entries for the one whose name fits `search` and tells
    /// its place.
    ///
    /// A name fits when it holds `search`, whatever the case of letters. A
    /// `_` at the start of `search` asks for names that begin with the rest,
    /// a `_` at its end for names that end with it. The search fails when no
    /// name fits, and when more than one does; the error then names the
    /// first two.
    pub fn search_place<V>(entries: &Vec<(String, V)>, search: &str) -> (result: Result<usize, Error>)
        ensures
            match found_name(names_of(entries@), search@) {
                Ok(i) => result matches Ok(place) && place == i && place < entries@.len(),
                Err(message) => result matches Err(e) && is_invalid_argument(e, message),
            },
    {
        let pattern = chars_of(to_lowercase(search).as_str());
        let mut names: Vec<Vec<char>> = Vec::new();
        let mut i: usize = 0;
        while i < entries.len()
            invariant
                i <= entries@.len(),
                names@.len() == i,
                forall|j: int| 0 <= j < i ==> (#[trigger] names@[j])@ == lowercase_of(entries@[j].0@),
            decreases entries@.len() - i,
        {
            names.push(chars_of(to_lowercase(entries[i].0.as_str()).as_str()));
            i = i + 1;
        }
        assert(key_texts(names@) =~= lowercase_all(names_of(entries@)));
        match search_names(&names, &pattern) {
            SearchOutcome::Found(i) => Ok(i),
            SearchOutcome::NotFound => {
                let quoted = String::from_str(search).concat("\"");
                assert("No matches found for \""@ + (search@ + "\""@) =~= no_match_message(
                    search@,
                ));
                Err(invalid_argument("No matches found for \"", quoted.as_str()))
            },
            SearchOutcome::Ambiguous(i, j) => {
                let detail = String::from_str(search).concat("\": Matched \"").concat(
                    entries[i].0.as_str(),
                ).concat("\" and \"").concat(entries[j].0.as_str()).concat(
                    "\".\nNote: You can use \"_\" to mark the beginning and/or end of the name.",
                );
                assert("Ambiguous identifier \""@ + detail@ =~= ambiguous_message(
                    search@,
                    entries@[i as int].0@,
                    entries@[j as int].0@,
                ));
                Err(invalid_argument("Ambiguous identifier \"", detail.as_str()))
            },
        }
    }

    /// Searches the entries for the one whose name fits `search`, as
    /// [`DSAData::search_place`] does, and hands out its name and what is
    /// listed under it.
    pub fn match_search<'a, V>(entries: &'a Vec<(String, V)>, search: &str) -> (result: Result<
        (&'a str, &'a V),
        Error,
    >)
        ensures
            match found_name(names_of(entries@), search@) {
                Ok(i) => result matches Ok((name, entry)) && name@ == entries@[i].0@ && *entry
                    == entries@[i].1,
                Err(message) => result matches Err(e) && is_invalid_argument(e, message),
            },
    {
        match Self::search_place(entries, search) {
            Ok(place) => Ok((entries[place].0.as_str(), &entries[place].1)),
            Err(e) => Err(e),
        }
    }

    /// Tells whether the rule data should be replaced by the newest version:
    /// when the settings allow it and the data is older.
    pub fn check_replacement_needed(&self, config: &Config) -> (needed: bool)
        ensures
            needed == (config.auto_update_dsa_data && self.version < DSA_DATA_NEWEST_VERSION),
    {
        config.auto_update_dsa_data && self.version < DSA_DATA_NEWEST_VERSION
    }
}

} // verus!
