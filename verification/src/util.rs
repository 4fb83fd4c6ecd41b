//! Error values shared by every part of the engine, and a small text helper.

use vstd::prelude::*;
use vstd::string::StrSliceExecFns;
use vstd::string::StringExecFns;

verus! {

/// What went wrong while reading or writing outside data.
#[derive(Clone, Copy, Debug, PartialEq, Eq, Structural)]
pub enum IOErrorType {
    Unknown,
    MissingEnvironmentVariable,
    MissingFile,
    Discord,
    UnknownInteractionType,
}

/// What was wrong with something a user handed in.
#[derive(Clone, Copy, Debug, PartialEq, Eq, Structural)]
pub enum InputErrorType {
    InvalidFormat,
    InvalidArgument,
    InvalidDiscordContext,
    MissingCharacter,
    CharacterNameTooLong,
    TooManyCharacters,
}

/// The category of an [`Error`].
#[derive(Clone, Copy, Debug, PartialEq, Eq, Structural)]
pub enum ErrorType {
    Unknown,
    InvalidInput(InputErrorType),
    IO(IOErrorType),
}

/// An error: a message for the user and the category it falls under.
#[derive(Debug)]
pub struct Error {
    message: String,
    err_type: ErrorType,
}

impl Error {
    /// The message as a sequence of characters.
    pub closed spec fn spec_message(&self) -> Seq<char> {
        self.message@
    }

    /// The category.
    pub closed spec fn spec_err_type(&self) -> ErrorType {
        self.err_type
    }

    pub fn new(message: String, err_type: ErrorType) -> (e: Error)
        ensures
            e.spec_message() == message@,
            e.spec_err_type() == err_type,
    {
        Error { message, err_type }
    }

    pub fn message<'a>(&'a self) -> (m: &'a str)
        ensures
            m@ == self.spec_message(),
    {
        self.message.as_str()
    }

    pub fn err_type(&self) -> (t: &ErrorType)
        ensures
            *t == self.spec_err_type(),
    {
        &self.err_type
    }
}

/// The error every rejected user input is reported with.
pub open spec fn is_invalid_argument(e: Error, message: Seq<char>) -> bool {
    &&& e.spec_message() == message
    &&& e.spec_err_type() == ErrorType::InvalidInput(InputErrorType::InvalidArgument)
}

/// Builds the "invalid argument" error whose message is `prefix` followed by
/// `detail`.
pub fn invalid_argument(prefix: &str, detail: &str) -> (e: Error)
    ensures
        is_invalid_argument(e, prefix@ + detail@),
{
    let message = String::from_str(prefix).concat(detail);
    Error::new(message, ErrorType::InvalidInput(InputErrorType::InvalidArgument))
}

/// The capital form of `c`, as `char::to_uppercase` gives it. It may have
/// more than one character.
pub uninterp spec fn uppercase_of(c: char) -> Seq<char>;

/// The capital form of `c`.
///
/// Calls `char::to_uppercase` and collects what it yields: the uppercase
/// mapping of the character as Unicode defines it. The result is named, not
/// spelled out.
#[verifier::external_body]
fn to_uppercase(c: char) -> (upper: String)
    ensures
        upper@ == uppercase_of(c),
{
    c.to_uppercase().collect()
}

/// `text` with `replacement` in the place of its first character; nothing
/// if `text` is empty.
pub open spec fn first_replaced(text: Seq<char>, replacement: Seq<char>) -> Seq<char> {
    if text.len() == 0 {
        Seq::empty()
    } else {
        replacement + text.skip(1)
    }
}

/// Puts `replacement` in the place of the first character of `text`.
pub fn replace_first(text: &str, replacement: &str) -> (result: String)
    ensures
        result@ == first_replaced(text@, replacement@),
{
    let n = text.unicode_len();
    if n == 0 {
        String::new()
    } else {
        let rest = text.substring_char(1, n);
        assert(rest@ =~= text@.skip(1));
        String::from_str(replacement).concat(rest)
    }
}

/// `s` with its first character in capital form.
pub fn uppercase_first(s: &str) -> (result: String)
    ensures
        s@.len() == 0 ==> result@.len() == 0,
        s@.len() > 0 ==> result@ == first_replaced(s@, uppercase_of(s@[0])),
{
    if s.unicode_len() == 0 {
        String::new()
    } else {
        let upper = to_uppercase(s.get_char(0));
        replace_first(s, upper.as_str())
    }
}

} // verus!
