//! Helpers for reading text character by character: white space, decimal
//! numbers, and searching one text in another.

use vstd::prelude::*;
use vstd::string::StrSliceExecFns;

verus! {

/// `c` is one of the ten decimal digits.
pub open spec fn is_digit(c: char) -> bool {
    '0' <= c && c <= '9'
}

/// The number a decimal digit stands for.
pub open spec fn digit_value(c: char) -> int {
    c as int - '0' as int
}

/// `c` is white space: a character with the Unicode property `White_Space`.
pub open spec fn is_whitespace(c: char) -> bool {
    let code = c as u32;
    ||| 0x09 <= code <= 0x0D
    ||| code == 0x20
    ||| code == 0x85
    ||| code == 0xA0
    ||| code == 0x1680
    ||| 0x2000 <= code <= 0x200A
    ||| code == 0x2028
    ||| code == 0x2029
    ||| code == 0x202F
    ||| code == 0x205F
    ||| code == 0x3000
}

/// `s` without the white space at its start and at its end.
pub open spec fn trimmed(s: Seq<char>) -> Seq<char>
    decreases s.len(),
{
    if s.len() > 0 && is_whitespace(s[0]) {
        trimmed(s.skip(1))
    } else if s.len() > 0 && is_whitespace(s.last()) {
        trimmed(s.drop_last())
    } else {
        s
    }
}

/// `s` is a digit followed by nothing but digits.
pub open spec fn is_digits(s: Seq<char>) -> bool {
    &&& s.len() > 0
    &&& forall|i: int| 0 <= i < s.len() ==> is_digit(#[trigger] s[i])
}

/// The number that the digits of `s` write in base ten.
pub open spec fn decimal_value(s: Seq<char>) -> int
    decreases s.len(),
{
    if s.len() == 0 {
        0
    } else {
        decimal_value(s.drop_last()) * 10 + digit_value(s.last())
    }
}

/// What `s` reads as when it has to be a number without sign of at most
/// `limit`.
pub open spec fn parsed_unsigned(s: Seq<char>, limit: int) -> Option<int> {
    if is_digits(s) && decimal_value(s) <= limit {
        Some(decimal_value(s))
    } else {
        None
    }
}

/// What `s` reads as when it has to be a 64-bit integer: digits, with `+` or
/// `-` before them or without.
pub open spec fn parsed_i64(s: Seq<char>) -> Option<i64> {
    if s.len() > 0 && s[0] == '-' {
        match parsed_unsigned(s.skip(1), -(i64::MIN as int)) {
            Some(v) => Some((-v) as i64),
            None => None,
        }
    } else if s.len() > 0 && s[0] == '+' {
        match parsed_unsigned(s.skip(1), i64::MAX as int) {
            Some(v) => Some(v as i64),
            None => None,
        }
    } else {
        match parsed_unsigned(s, i64::MAX as int) {
            Some(v) => Some(v as i64),
            None => None,
        }
    }
}

/// The value of `c` as a decimal digit, if it is one.
pub fn digit_of(c: char) -> (d: Option<u8>)
    ensures
        d is Some <==> is_digit(c),
        d matches Some(v) ==> v == digit_value(c) && v <= 9,
{
    if '0' <= c && c <= '9' {
        Some((c as u32 - '0' as u32) as u8)
    } else {
        None
    }
}

/// Tells whether `c` is white space.
pub fn is_space(c: char) -> (space: bool)
    ensures
        space == is_whitespace(c),
{
    let code = c as u32;
    (0x09 <= code && code <= 0x0D) || code == 0x20 || code == 0x85 || code == 0xA0 || code
        == 0x1680 || (0x2000 <= code && code <= 0x200A) || code == 0x2028 || code == 0x2029
        || code == 0x202F || code == 0x205F || code == 0x3000
}

/// The characters of `s` as a vector.
pub fn chars_of(s: &str) -> (chars: Vec<char>)
    ensures
        chars@ == s@,
{
    let n = s.unicode_len();
    let mut chars: Vec<char> = Vec::new();
    let mut i: usize = 0;
    while i < n
        invariant
            i <= n,
            n == s@.len(),
            chars@ == s@.subrange(0, i as int),
        decreases n - i,
    {
        chars.push(s.get_char(i));
        assert(chars@ =~= s@.subrange(0, i + 1));
        i = i + 1;
    }
    assert(chars@ =~= s@);
    chars
}

/// The part of `chars[from..to]` that is left when the white space at both
/// ends is taken away, as a range of indices.
pub fn trim_range(chars: &Vec<char>, from: usize, to: usize) -> (range: (usize, usize))
    requires
        from <= to <= chars@.len(),
    ensures
        from <= range.0 <= range.1 <= to,
        chars@.subrange(range.0 as int, range.1 as int) == trimmed(
            chars@.subrange(from as int, to as int),
        ),
{
    let mut start = from;
    while start < to && is_space(chars[start])
        invariant
            from <= start <= to <= chars@.len(),
            trimmed(chars@.subrange(start as int, to as int)) == trimmed(
                chars@.subrange(from as int, to as int),
            ),
        decreases to - start,
    {
        assert(chars@.subrange(start as int, to as int).skip(1) =~= chars@.subrange(
            start + 1,
            to as int,
        ));
        start = start + 1;
    }
    let mut end = to;
    while start < end && is_space(chars[end - 1])
        invariant
            from <= start <= end <= to <= chars@.len(),
            start < end ==> !is_whitespace(chars@[start as int]),
            trimmed(chars@.subrange(start as int, end as int)) == trimmed(
                chars@.subrange(from as int, to as int),
            ),
        decreases end - start,
    {
        assert(chars@.subrange(start as int, end as int).drop_last() =~= chars@.subrange(
            start as int,
            end - 1,
        ));
        end = end - 1;
    }
    (start, end)
}

/// The value of digits never shrinks when more digits follow.
pub proof fn lemma_decimal_value_grows(s: Seq<char>, k: int)
    requires
        0 <= k <= s.len(),
        forall|i: int| 0 <= i < s.len() ==> is_digit(#[trigger] s[i]),
    ensures
        0 <= decimal_value(s.take(k)) <= decimal_value(s),
    decreases s.len() - k,
{
    if k == s.len() {
        assert(s.take(k) =~= s);
        lemma_decimal_value_nonnegative(s);
    } else {
        lemma_decimal_value_grows(s, k + 1);
        assert(s.take(k + 1).drop_last() =~= s.take(k));
        lemma_decimal_value_nonnegative(s.take(k));
    }
}

/// The value of digits is not negative.
pub proof fn lemma_decimal_value_nonnegative(s: Seq<char>)
    requires
        forall|i: int| 0 <= i < s.len() ==> is_digit(#[trigger] s[i]),
    ensures
        0 <= decimal_value(s),
    decreases s.len(),
{
    if s.len() > 0 {
        lemma_decimal_value_nonnegative(s.drop_last());
    }
}

/// Reads `chars[from..to]` as a number without sign that is at most `limit`.
pub fn parse_unsigned(chars: &Vec<char>, from: usize, to: usize, limit: u64) -> (value: Option<u64>)
    requires
        from <= to <= chars@.len(),
    ensures
        value is Some <==> parsed_unsigned(chars@.subrange(from as int, to as int), limit as int)
            is Some,
        value matches Some(v) ==> parsed_unsigned(
            chars@.subrange(from as int, to as int),
            limit as int,
        ) == Some(v as int),
{
    let ghost text = chars@.subrange(from as int, to as int);
    if from == to {
        return None;
    }
    let mut acc: u64 = 0;
    let mut i: usize = from;
    while i < to
        invariant
            from <= i <= to <= chars@.len(),
            text == chars@.subrange(from as int, to as int),
            forall|j: int| 0 <= j < i - from ==> is_digit(#[trigger] text[j]),
            acc == decimal_value(text.take(i - from)),
            acc <= limit,
        decreases to - i,
    {
        let digit = match digit_of(chars[i]) {
            Some(d) => d,
            None => {
                assert(!is_digit(text[i - from]));
                return None;
            },
        };
        assert(text.take(i - from + 1).drop_last() =~= text.take(i - from));
        let next: u128 = acc as u128 * 10 + digit as u128;
        if next > limit as u128 {
            proof {
                if is_digits(text) {
                    lemma_decimal_value_grows(text, i - from + 1);
                }
            }
            return None;
        }
        acc = next as u64;
        i = i + 1;
    }
    assert(text.take(to - from) =~= text);
    Some(acc)
}

/// Reads `chars[from..to]` as a 64-bit integer with or without sign.
pub fn parse_i64(chars: &Vec<char>, from: usize, to: usize) -> (value: Option<i64>)
    requires
        from <= to <= chars@.len(),
    ensures
        value == parsed_i64(chars@.subrange(from as int, to as int)),
{
    let ghost text = chars@.subrange(from as int, to as int);
    if from < to && chars[from] == '-' {
        assert(text.skip(1) =~= chars@.subrange(from + 1, to as int));
        match parse_unsigned(chars, from + 1, to, 0x8000_0000_0000_0000) {
            Some(v) => {
                if v == 0x8000_0000_0000_0000 {
                    Some(i64::MIN)
                } else {
                    Some(-(v as i64))
                }
            },
            None => None,
        }
    } else if from < to && chars[from] == '+' {
        assert(text.skip(1) =~= chars@.subrange(from + 1, to as int));
        match parse_unsigned(chars, from + 1, to, 0x7FFF_FFFF_FFFF_FFFF) {
            Some(v) => Some(v as i64),
            None => None,
        }
    } else {
        match parse_unsigned(chars, from, to, 0x7FFF_FFFF_FFFF_FFFF) {
            Some(v) => Some(v as i64),
            None => None,
        }
    }
}

/// Reads the whole of `s` as a 64-bit integer with or without sign.
pub fn parse_integer(s: &str) -> (value: Option<i64>)
    ensures
        value == parsed_i64(s@),
{
    let chars = chars_of(s);
    assert(chars@.subrange(0, chars@.len() as int) =~= s@);
    parse_i64(&chars, 0, chars.len())
}

/// The code of `c`, or of its small letter if `c` is one of the capital
/// letters `A` to `Z`.
pub open spec fn ascii_lower_code(c: char) -> u32 {
    if 'A' <= c && c <= 'Z' {
        (c as u32 + 32) as u32
    } else {
        c as u32
    }
}

/// The two texts are equal up to the case of the letters `a` to `z`.
pub open spec fn same_ignoring_ascii_case(a: Seq<char>, b: Seq<char>) -> bool {
    &&& a.len() == b.len()
    &&& forall|i: int| 0 <= i < a.len() ==> ascii_lower_code(#[trigger] a[i]) == ascii_lower_code(b[i])
}

/// The code of `c`, with the capital letters `A` to `Z` taken as small ones.
pub fn lower_code(c: char) -> (code: u32)
    ensures
        code == ascii_lower_code(c),
{
    if 'A' <= c && c <= 'Z' {
        c as u32 + 32
    } else {
        c as u32
    }
}

/// Tells whether `chars[from..to]` and `other` are equal up to the case of
/// the letters `a` to `z`.
pub fn range_eq_ignore_ascii_case(chars: &Vec<char>, from: usize, to: usize, other: &Vec<char>) -> (same:
    bool)
    requires
        from <= to <= chars@.len(),
    ensures
        same == same_ignoring_ascii_case(chars@.subrange(from as int, to as int), other@),
{
    if to - from != other.len() {
        return false;
    }
    let mut i: usize = 0;
    while i < other.len()
        invariant
            from <= to <= chars@.len(),
            to - from == other@.len(),
            i <= other@.len(),
            forall|j: int|
                0 <= j < i ==> ascii_lower_code(
                    #[trigger] chars@.subrange(from as int, to as int)[j],
                ) == ascii_lower_code(other@[j]),
        decreases other@.len() - i,
    {
        if lower_code(chars[from + i]) != lower_code(other[i]) {
            assert(chars@.subrange(from as int, to as int)[i as int] == chars@[from + i]);
            return false;
        }
        assert(chars@.subrange(from as int, to as int)[i as int] == chars@[from + i]);
        i = i + 1;
    }
    true
}

/// Tells whether the two texts are equal up to the case of the letters `a`
/// to `z`.
pub fn eq_ignore_ascii_case(a: &str, b: &str) -> (same: bool)
    ensures
        same == same_ignoring_ascii_case(a@, b@),
{
    let left = chars_of(a);
    let right = chars_of(b);
    assert(left@.subrange(0, left@.len() as int) =~= a@);
    range_eq_ignore_ascii_case(&left, 0, left.len(), &right)
}

/// `needle` stands in `hay` at place `k`.
pub open spec fn occurs_at(hay: Seq<char>, needle: Seq<char>, k: int) -> bool {
    &&& 0 <= k
    &&& k + needle.len() <= hay.len()
    &&& forall|i: int| 0 <= i < needle.len() ==> hay[k + i] == #[trigger] needle[i]
}

/// `needle` stands somewhere in `hay`.
pub open spec fn contains_text(hay: Seq<char>, needle: Seq<char>) -> bool {
    exists|k: int| #[trigger] occurs_at(hay, needle, k)
}

/// `hay` begins with `needle`.
pub open spec fn starts_with_text(hay: Seq<char>, needle: Seq<char>) -> bool {
    occurs_at(hay, needle, 0)
}

/// `hay` ends with `needle`.
pub open spec fn ends_with_text(hay: Seq<char>, needle: Seq<char>) -> bool {
    occurs_at(hay, needle, hay.len() - needle.len())
}

/// Tells whether `needle[from..to]` stands in `hay` at place `k`.
pub fn stands_at(hay: &Vec<char>, needle: &Vec<char>, from: usize, to: usize, k: usize) -> (found:
    bool)
    requires
        from <= to <= needle@.len(),
    ensures
        found == occurs_at(hay@, needle@.subrange(from as int, to as int), k as int),
{
    let length = to - from;
    let n = hay.len();
    if k > n || length > n - k {
        return false;
    }
    let ghost part = needle@.subrange(from as int, to as int);
    let mut i: usize = 0;
    while i < length
        invariant
            i <= length,
            length == to - from,
            from <= to <= needle@.len(),
            n == hay@.len(),
            k + length <= n,
            part == needle@.subrange(from as int, to as int),
            forall|j: int| 0 <= j < i ==> hay@[k + j] == #[trigger] part[j],
        decreases length - i,
    {
        if hay[k + i] != needle[from + i] {
            assert(part[i as int] == needle@[from + i]);
            return false;
        }
        assert(part[i as int] == needle@[from + i]);
        i = i + 1;
    }
    true
}

/// Tells whether `needle[from..to]` stands somewhere in `hay`.
pub fn contains_range(hay: &Vec<char>, needle: &Vec<char>, from: usize, to: usize) -> (found: bool)
    requires
        from <= to <= needle@.len(),
    ensures
        found == contains_text(hay@, needle@.subrange(from as int, to as int)),
{
    let ghost part = needle@.subrange(from as int, to as int);
    let length = to - from;
    if length > hay.len() {
        assert forall|k: int| !#[trigger] occurs_at(hay@, part, k) by {}
        return false;
    }
    let n = hay.len();
    let last = n - length;
    let mut k: usize = 0;
    while k <= last
        invariant
            k <= last + 1,
            n == hay@.len(),
            last == n - length,
            last < n || length == 0,
            length == to - from,
            from <= to <= needle@.len(),
            part == needle@.subrange(from as int, to as int),
            forall|j: int| 0 <= j < k ==> !#[trigger] occurs_at(hay@, part, j),
        decreases last + 1 - k,
    {
        if stands_at(hay, needle, from, to, k) {
            return true;
        }
        k = k + 1;
    }
    assert forall|j: int| !#[trigger] occurs_at(hay@, part, j) by {}
    false
}

/// Tells whether the two texts are the same.
pub fn str_equal(a: &str, b: &str) -> (same: bool)
    ensures
        same == (a@ == b@),
{
    let left = chars_of(a);
    let right = chars_of(b);
    if left.len() != right.len() {
        return false;
    }
    let mut i: usize = 0;
    while i < left.len()
        invariant
            i <= left@.len(),
            left@ == a@,
            right@ == b@,
            left@.len() == right@.len(),
            forall|j: int| 0 <= j < i ==> left@[j] == right@[j],
        decreases left@.len() - i,
    {
        if left[i] != right[i] {
            return false;
        }
        i = i + 1;
    }
    assert(left@ =~= right@);
    true
}

/// The strings as plain sequences of characters.
pub open spec fn string_views(strings: Seq<String>) -> Seq<Seq<char>> {
    Seq::new(strings.len(), |i: int| strings[i]@)
}

/// The first place from `from` on, and before `to`, where `s` holds `a` or
/// `b`; `to` if there is none.
pub open spec fn first_of(s: Seq<char>, from: int, to: int, a: char, b: char) -> int
    decreases to - from,
{
    if from >= to {
        to
    } else if s[from] == a || s[from] == b {
        from
    } else {
        first_of(s, from + 1, to, a, b)
    }
}

/// `first_of` looks no further back than where it starts.
pub proof fn lemma_first_of_bounds(s: Seq<char>, from: int, to: int, a: char, b: char)
    requires
        from <= to,
    ensures
        from <= first_of(s, from, to, a, b) <= to,
    decreases to - from,
{
    if from < to && !(s[from] == a || s[from] == b) {
        lemma_first_of_bounds(s, from + 1, to, a, b);
    }
}

/// `first_of` finds a place no later than any place that holds one of the
/// two characters.
pub proof fn lemma_first_of_at_most(s: Seq<char>, from: int, to: int, a: char, b: char, p: int)
    requires
        from <= p < to,
        s[p] == a || s[p] == b,
    ensures
        first_of(s, from, to, a, b) <= p,
    decreases p - from,
{
    if from < p && !(s[from] == a || s[from] == b) {
        lemma_first_of_at_most(s, from + 1, to, a, b, p);
    }
}

/// Finds the first of the characters `a` and `b` in `chars[from..to]`.
pub fn find_first_of(chars: &Vec<char>, from: usize, to: usize, a: char, b: char) -> (place: usize)
    requires
        from <= to <= chars@.len(),
    ensures
        place == first_of(chars@, from as int, to as int, a, b),
        from <= place <= to,
        place < to ==> chars@[place as int] == a || chars@[place as int] == b,
{
    let mut i = from;
    while i < to && !(chars[i] == a || chars[i] == b)
        invariant
            from <= i <= to <= chars@.len(),
            first_of(chars@, i as int, to as int, a, b) == first_of(
                chars@,
                from as int,
                to as int,
                a,
                b,
            ),
        decreases to - i,
    {
        i = i + 1;
    }
    i
}

/// What was written, if anything was.
pub open spec fn text_of(written: Option<&str>) -> Option<Seq<char>> {
    match written {
        Some(text) => Some(text@),
        None => None,
    }
}

} // verus!
