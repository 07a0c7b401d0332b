//! Character and string primitives shared by the text-processing modules.
//!
//! Strings are handled as `Vec<char>` inside the library; these helpers move
//! between `&str`/`String` and that form, and give Verus the meaning of the
//! Unicode classification functions of `core` that the text rules rely on.

use vstd::prelude::*;

verus! {

/// `String::push` appends one character at the end of the string.
pub assume_specification[ String::push ](string: &mut String, ch: char)
    ensures
        final(string)@ == old(string)@.push(ch),
;

/// `String::push_str` appends the given string slice at the end.
pub assume_specification[ String::push_str ](string: &mut String, other: &str)
    ensures
        final(string)@ == old(string)@ + other@,
;

/// Whether a character has the Unicode `White_Space` property (what
/// `char::is_whitespace` reports): tab, line feed, vertical tab, form feed,
/// carriage return, space, next line, no-break space, the Ogham space mark,
/// the spaces from en quad to hair space, the line and paragraph
/// separators, the narrow no-break space, the medium mathematical space and
/// the ideographic space.
pub open spec fn unicode_whitespace(c: char) -> bool {
    let n = c as u32;
    ||| 0x09 <= n <= 0x0D
    ||| n == 0x20
    ||| n == 0x85
    ||| n == 0xA0
    ||| n == 0x1680
    ||| 0x2000 <= n <= 0x200A
    ||| n == 0x2028
    ||| n == 0x2029
    ||| n == 0x202F
    ||| n == 0x205F
    ||| n == 0x3000
}

/// Whether a character has the Unicode `Alphabetic` property
/// (what `char::is_alphabetic` reports).
pub uninterp spec fn unicode_alphabetic(c: char) -> bool;

/// Whether a character is `Alphabetic` or `Numeric` in Unicode
/// (what `char::is_alphanumeric` reports).
pub uninterp spec fn unicode_alphanumeric(c: char) -> bool;

/// The Unicode lower-case mapping of a whole string, as `str::to_lowercase`
/// computes it.
pub uninterp spec fn unicode_lowercase(s: Seq<char>) -> Seq<char>;

/// The Unicode lower-case mapping of one character (possibly several
/// characters), as `char::to_lowercase` yields it.
pub uninterp spec fn char_lowercase(c: char) -> Seq<char>;

/// `char::is_whitespace`: reports the `White_Space` property.
pub assume_specification[ char::is_whitespace ](c: char) -> (r: bool)
    ensures
        r == unicode_whitespace(c),
;

/// `char::is_alphabetic`: reports the `Alphabetic` property.
pub assume_specification[ char::is_alphabetic ](c: char) -> (r: bool)
    ensures
        r == unicode_alphabetic(c),
;

/// `char::is_alphanumeric`: reports `Alphabetic` or `Numeric`.
pub assume_specification[ char::is_alphanumeric ](c: char) -> (r: bool)
    ensures
        r == unicode_alphanumeric(c),
;

/// `str::to_lowercase`: the lower-case mapping of the whole string. Every
/// character maps to one or more characters, so the result is at least as
/// long as the text.
pub assume_specification[ str::to_lowercase ](s: &str) -> (r: String)
    ensures
        r@ == unicode_lowercase(s@),
        r@.len() >= s@.len(),
;

/// Compares two characters by their lower-case mappings: the call
/// `a.to_lowercase().eq(b.to_lowercase())` of `char::to_lowercase`.
#[verifier::external_body]
pub(crate) fn char_lowercase_eq(a: char, b: char) -> (r: bool)
    ensures
        r == (char_lowercase(a) == char_lowercase(b)),
{
    a.to_lowercase().eq(b.to_lowercase())
}

/// ASCII letter `a..=z` or `A..=Z`.
pub open spec fn is_ascii_letter(c: char) -> bool {
    ('a' <= c && c <= 'z') || ('A' <= c && c <= 'Z')
}

/// ASCII digit `0..=9`.
pub open spec fn is_ascii_digit(c: char) -> bool {
    '0' <= c && c <= '9'
}

/// ASCII upper-case letter.
pub open spec fn is_ascii_upper(c: char) -> bool {
    'A' <= c && c <= 'Z'
}

pub fn ascii_letter(c: char) -> (r: bool)
    ensures
        r == is_ascii_letter(c),
{
    ('a' <= c && c <= 'z') || ('A' <= c && c <= 'Z')
}

pub fn ascii_digit(c: char) -> (r: bool)
    ensures
        r == is_ascii_digit(c),
{
    '0' <= c && c <= '9'
}

/// The characters of a string slice, in order.
pub fn chars_of(s: &str) -> (r: Vec<char>)
    ensures
        r@ == s@,
{
    broadcast use vstd::string::group_string_axioms;

    let mut r: Vec<char> = Vec::new();
    for c in it: s.chars()
        invariant
            it.seq() == s@,
            r@ == s@.take(it.index() as int),
    {
        r.push(c);
    }
    assert(s@.take(s@.len() as int) == s@);
    r
}

/// A string made of the characters `v[from..to]`.
pub fn string_of_range(v: &Vec<char>, from: usize, to: usize) -> (r: String)
    requires
        from <= to <= v.len(),
    ensures
        r@ == v@.subrange(from as int, to as int),
{
    let mut r = String::new();
    let mut i: usize = from;
    while i < to
        invariant
            from <= i <= to <= v.len(),
            r@ == v@.subrange(from as int, i as int),
        decreases to - i,
    {
        r.push(v[i]);
        i = i + 1;
        assert(r@ == v@.subrange(from as int, i as int));
    }
    r
}

/// A string made of all the characters of `v`.
pub fn string_of(v: &Vec<char>) -> (r: String)
    ensures
        r@ == v@,
{
    let r = string_of_range(v, 0, v.len());
    assert(v@.subrange(0, v@.len() as int) == v@);
    r
}

/// Index of the first character that is not white space (the length if none).
pub open spec fn trim_start_index(s: Seq<char>) -> int
    decreases s.len(),
{
    if s.len() == 0 {
        0
    } else if unicode_whitespace(s[0]) {
        1 + trim_start_index(s.drop_first())
    } else {
        0
    }
}

/// One past the last character that is not white space (0 if none).
pub open spec fn trim_end_index(s: Seq<char>) -> int
    decreases s.len(),
{
    if s.len() == 0 {
        0
    } else if unicode_whitespace(s.last()) {
        trim_end_index(s.drop_last())
    } else {
        s.len() as int
    }
}

/// `s` without leading and trailing white space, as `str::trim` leaves it.
pub open spec fn trimmed(s: Seq<char>) -> Seq<char> {
    if trim_start_index(s) >= trim_end_index(s) {
        Seq::empty()
    } else {
        s.subrange(trim_start_index(s), trim_end_index(s))
    }
}

pub proof fn lemma_trim_start_bounds(s: Seq<char>)
    ensures
        0 <= trim_start_index(s) <= s.len(),
        forall|i: int| 0 <= i < trim_start_index(s) ==> unicode_whitespace(#[trigger] s[i]),
        trim_start_index(s) < s.len() ==> !unicode_whitespace(s[trim_start_index(s)]),
    decreases s.len(),
{
    if s.len() > 0 && unicode_whitespace(s[0]) {
        lemma_trim_start_bounds(s.drop_first());
        assert forall|i: int| 0 <= i < trim_start_index(s) implies unicode_whitespace(#[trigger] s[i]) by {
            if i > 0 {
                assert(s[i] == s.drop_first()[i - 1]);
            }
        }
    }
}

pub proof fn lemma_trim_end_bounds(s: Seq<char>)
    ensures
        0 <= trim_end_index(s) <= s.len(),
        forall|i: int| trim_end_index(s) <= i < s.len() ==> unicode_whitespace(#[trigger] s[i]),
        trim_end_index(s) > 0 ==> !unicode_whitespace(s[trim_end_index(s) - 1]),
    decreases s.len(),
{
    if s.len() > 0 && unicode_whitespace(s.last()) {
        lemma_trim_end_bounds(s.drop_last());
        assert forall|i: int| trim_end_index(s) <= i < s.len() implies unicode_whitespace(#[trigger] s[i]) by {
            if i < s.len() - 1 {
                assert(s[i] == s.drop_last()[i]);
            }
        }
    }
}

/// Bounds of the trimmed part of `v`: `v[start..end]` is `trimmed(v)`.
pub fn trim_bounds(v: &Vec<char>) -> (r: (usize, usize))
    ensures
        r.0 <= r.1 <= v.len(),
        v@.subrange(r.0 as int, r.1 as int) == trimmed(v@),
{
    proof {
        lemma_trim_start_bounds(v@);
        lemma_trim_end_bounds(v@);
    }
    let mut start: usize = 0;
    while start < v.len() && v[start].is_whitespace()
        invariant
            start <= v.len(),
            forall|i: int| 0 <= i < start ==> unicode_whitespace(#[trigger] v@[i]),
        decreases v.len() - start,
    {
        start = start + 1;
    }
    let mut end: usize = v.len();
    while end > start && v[end - 1].is_whitespace()
        invariant
            start <= end <= v.len(),
            forall|i: int| end <= i < v.len() ==> unicode_whitespace(#[trigger] v@[i]),
        decreases end,
    {
        end = end - 1;
    }
    proof {
        lemma_trim_index_start(v@, start as int);
        lemma_trim_index_end(v@, start as int, end as int);
    }
    (start, end)
}

/// Characterises `trim_start_index` by the first non-white-space position.
proof fn lemma_trim_index_start(s: Seq<char>, k: int)
    requires
        0 <= k <= s.len(),
        forall|i: int| 0 <= i < k ==> unicode_whitespace(#[trigger] s[i]),
        k < s.len() ==> !unicode_whitespace(s[k]),
    ensures
        trim_start_index(s) == k,
    decreases s.len(),
{
    if k > 0 {
        assert(unicode_whitespace(s[0]));
        assert forall|i: int| 0 <= i < k - 1 implies unicode_whitespace(#[trigger] s.drop_first()[i]) by {
            assert(s.drop_first()[i] == s[i + 1]);
        }
        if k < s.len() {
            assert(s.drop_first()[k - 1] == s[k]);
        }
        lemma_trim_index_start(s.drop_first(), k - 1);
    }
}

/// With `start` the first non-white-space position (or the length) and
/// `end` the trimmed end found from the right, the subrange is `trimmed`.
proof fn lemma_trim_index_end(s: Seq<char>, start: int, end: int)
    requires
        0 <= start <= end <= s.len(),
        trim_start_index(s) == start,
        forall|i: int| 0 <= i < start ==> unicode_whitespace(#[trigger] s[i]),
        start < s.len() ==> !unicode_whitespace(s[start]),
        forall|i: int| end <= i < s.len() ==> unicode_whitespace(#[trigger] s[i]),
        end > start ==> !unicode_whitespace(s[end - 1]),
    ensures
        s.subrange(start, end) == trimmed(s),
{
    lemma_trim_end_bounds(s);
    if end > start {
        lemma_trim_end_exact(s, end);
    } else {
        // all characters are white space from `start` on, so the end index
        // cannot lie beyond `start`
        assert(start == end);
        if trim_end_index(s) > start {
            assert(!unicode_whitespace(s[trim_end_index(s) - 1]));
            if trim_end_index(s) - 1 >= start {
                assert(unicode_whitespace(s[trim_end_index(s) - 1]));
            }
        }
    }
}

proof fn lemma_trim_end_exact(s: Seq<char>, end: int)
    requires
        0 < end <= s.len(),
        forall|i: int| end <= i < s.len() ==> unicode_whitespace(#[trigger] s[i]),
        !unicode_whitespace(s[end - 1]),
    ensures
        trim_end_index(s) == end,
    decreases s.len(),
{
    if end < s.len() {
        assert(unicode_whitespace(s.last()));
        assert forall|i: int| end <= i < s.drop_last().len() implies unicode_whitespace(#[trigger] s.drop_last()[i]) by {
            assert(s.drop_last()[i] == s[i]);
        }
        assert(s.drop_last()[end - 1] == s[end - 1]);
        lemma_trim_end_exact(s.drop_last(), end);
    }
}

/// `str::trim` on characters: the characters of `v` without leading and
/// trailing white space.
pub fn trim_chars(v: &Vec<char>) -> (r: Vec<char>)
    ensures
        r@ == trimmed(v@),
{
    let (start, end) = trim_bounds(v);
    let mut r: Vec<char> = Vec::new();
    let mut i = start;
    while i < end
        invariant
            start <= i <= end <= v.len(),
            r@ == v@.subrange(start as int, i as int),
        decreases end - i,
    {
        r.push(v[i]);
        i = i + 1;
        assert(r@ == v@.subrange(start as int, i as int));
    }
    r
}

/// `str::trim` returning an owned string.
pub fn trim_string(s: &str) -> (r: String)
    ensures
        r@ == trimmed(s@),
{
    let v = chars_of(s);
    let (start, end) = trim_bounds(&v);
    string_of_range(&v, start, end)
}

/// Character-wise equality of two character vectors.
pub fn chars_equal(a: &Vec<char>, b: &Vec<char>) -> (r: bool)
    ensures
        r == (a@ == b@),
{
    if a.len() != b.len() {
        return false;
    }
    let mut i: usize = 0;
    while i < a.len()
        invariant
            a.len() == b.len(),
            i <= a.len(),
            forall|j: int| 0 <= j < i ==> a@[j] == b@[j],
        decreases a.len() - i,
    {
        if a[i] != b[i] {
            return false;
        }
        i = i + 1;
    }
    assert(a@ == b@);
    true
}

} // verus!
