//! Filtering of OCR output and splitting of recognised lines into words.
//!
//! The English recognition model only knows Latin script; what it makes of
//! Cyrillic, CJK or Arabic text is garbage that must not reach sentence
//! assembly. A token is kept when it has no non-Latin letter and no digit
//! glued to a letter, unless the token is a legitimate alphanumeric form
//! ("MP3", "1080p", "4K", "2nd").

use vstd::prelude::*;
use crate::text::{
    ascii_digit, ascii_letter, chars_of, is_ascii_digit, is_ascii_letter, is_ascii_upper,
    string_of_range, unicode_alphabetic, unicode_whitespace,
};

verus! {

/// Latin letters, accented ones included (`U+00C0..=U+024F`).
pub open spec fn spec_is_latin_letter(c: char) -> bool {
    is_ascii_letter(c) || ('\u{00C0}' <= c && c <= '\u{00FF}') || ('\u{0100}' <= c && c
        <= '\u{024F}')
}

pub fn is_latin_letter(ch: char) -> (r: bool)
    ensures
        r == spec_is_latin_letter(ch),
{
    ascii_letter(ch) || ('\u{00C0}' <= ch && ch <= '\u{00FF}') || ('\u{0100}' <= ch && ch
        <= '\u{024F}')
}

/// Some letter of `s` is alphabetic but not Latin.
pub open spec fn spec_has_non_latin_letters(s: Seq<char>) -> bool {
    exists|i: int| 0 <= i < s.len() && unicode_alphabetic(#[trigger] s[i]) && !spec_is_latin_letter(s[i])
}

pub fn has_non_latin_letters(text: &str) -> (r: bool)
    ensures
        r == spec_has_non_latin_letters(text@),
{
    let chars = chars_of(text);
    let mut i: usize = 0;
    while i < chars.len()
        invariant
            chars@ == text@,
            i <= chars.len(),
            forall|j: int| 0 <= j < i ==> !(unicode_alphabetic(#[trigger] chars@[j]) && !spec_is_latin_letter(chars@[j])),
        decreases chars.len() - i,
    {
        let ch = chars[i];
        if ch.is_alphabetic() && !is_latin_letter(ch) {
            return true;
        }
        i = i + 1;
    }
    false
}

/// End of the run of ASCII letters that starts at `i`.
pub open spec fn letter_run_end(s: Seq<char>, i: int) -> int
    decreases s.len() - i,
{
    if 0 <= i < s.len() && is_ascii_letter(s[i]) {
        letter_run_end(s, i + 1)
    } else {
        i
    }
}

/// End of the run of ASCII digits that starts at `i`.
pub open spec fn digit_run_end(s: Seq<char>, i: int) -> int
    decreases s.len() - i,
{
    if 0 <= i < s.len() && is_ascii_digit(s[i]) {
        digit_run_end(s, i + 1)
    } else {
        i
    }
}

pub open spec fn ascii_lower(c: char) -> char {
    if 'A' <= c && c <= 'Z' {
        ((c as u8) + 32) as char
    } else {
        c
    }
}

/// A two-letter English ordinal suffix, compared ignoring ASCII case.
pub open spec fn is_ordinal_suffix(s: Seq<char>) -> bool {
    s.len() == 2 && {
        let a = ascii_lower(s[0]);
        let b = ascii_lower(s[1]);
        (a == 's' && b == 't') || (a == 'n' && b == 'd') || (a == 'r' && b == 'd') || (a == 't'
            && b == 'h')
    }
}

/// The white-list of alphanumeric tokens: an optional letter prefix, a digit
/// core and an optional letter suffix covering the whole token, in one of
/// the shapes "MP3", "1080p", "4K" (upper-case suffix of 1 to 3 letters)
/// or an ordinal "2nd".
pub open spec fn spec_token_is_allowed(s: Seq<char>) -> bool {
    let a = letter_run_end(s, 0);
    let d = digit_run_end(s, a);
    let b = letter_run_end(s, d);
    let letters_before = a;
    let digits = d - a;
    let letters_after = b - d;
    &&& b == s.len()
    &&& {
        ||| (letters_before > 0 && digits > 0 && letters_after == 0)
        ||| (letters_before == 0 && digits >= 2 && letters_after <= 2)
        ||| (letters_before == 0 && digits == 1 && 1 <= letters_after <= 3 && forall|k: int|
            d <= k < s.len() ==> is_ascii_upper(#[trigger] s[k]))
        ||| (letters_before == 0 && digits >= 1 && letters_after <= 2 && is_ordinal_suffix(
            s.subrange(d, s.len() as int),
        ))
    }
}

proof fn lemma_letter_run_bounds(s: Seq<char>, i: int)
    requires
        0 <= i <= s.len(),
    ensures
        i <= letter_run_end(s, i) <= s.len(),
        forall|k: int| i <= k < letter_run_end(s, i) ==> is_ascii_letter(#[trigger] s[k]),
    decreases s.len() - i,
{
    if i < s.len() && is_ascii_letter(s[i]) {
        lemma_letter_run_bounds(s, i + 1);
    }
}

proof fn lemma_digit_run_bounds(s: Seq<char>, i: int)
    requires
        0 <= i <= s.len(),
    ensures
        i <= digit_run_end(s, i) <= s.len(),
    decreases s.len() - i,
{
    if i < s.len() && is_ascii_digit(s[i]) {
        lemma_digit_run_bounds(s, i + 1);
    }
}

/// Runs over the letters of `chars` from `start` and returns where they end.
fn letter_run(chars: &Vec<char>, start: usize) -> (r: usize)
    requires
        start <= chars.len(),
    ensures
        r == letter_run_end(chars@, start as int),
{
    let mut index = start;
    while index < chars.len() && ascii_letter(chars[index])
        invariant
            start <= index <= chars.len(),
            letter_run_end(chars@, start as int) == letter_run_end(chars@, index as int),
        decreases chars.len() - index,
    {
        index = index + 1;
    }
    index
}

/// Runs over the digits of `chars` from `start` and returns where they end.
fn digit_run(chars: &Vec<char>, start: usize) -> (r: usize)
    requires
        start <= chars.len(),
    ensures
        r == digit_run_end(chars@, start as int),
{
    let mut index = start;
    while index < chars.len() && ascii_digit(chars[index])
        invariant
            start <= index <= chars.len(),
            digit_run_end(chars@, start as int) == digit_run_end(chars@, index as int),
        decreases chars.len() - index,
    {
        index = index + 1;
    }
    index
}

fn lower_ascii(c: char) -> (r: char)
    ensures
        r == ascii_lower(c),
{
    if 'A' <= c && c <= 'Z' {
        ((c as u8) + 32) as char
    } else {
        c
    }
}

/// White-list of legitimate alphanumeric tokens ("MP3", "F15", "v2",
/// "1080p", "3D", "4K", "2nd"); anything else mixing letters and digits,
/// such as "cgeran6bl" or "4TO-TO", is garbage.
pub fn alphanumeric_token_is_allowed(chars: &Vec<char>) -> (r: bool)
    ensures
        r == spec_token_is_allowed(chars@),
{
    let s = Ghost(chars@);
    proof {
        lemma_letter_run_bounds(s@, 0);
    }
    let letters_end = letter_run(chars, 0);
    proof {
        lemma_digit_run_bounds(s@, letters_end as int);
    }
    let digits_end = digit_run(chars, letters_end);
    proof {
        lemma_letter_run_bounds(s@, digits_end as int);
    }
    let index = letter_run(chars, digits_end);
    let letters_before = letters_end;
    let digits = digits_end - letters_end;
    let letters_after = index - digits_end;

    if index != chars.len() {
        return false;
    }
    if letters_before > 0 && digits > 0 && letters_after == 0 {
        return true;
    }
    if letters_before == 0 && digits >= 2 && letters_after <= 2 {
        return true;
    }
    if letters_before == 0 && digits == 1 && letters_after >= 1 && letters_after <= 3 {
        let mut k = digits_end;
        let mut all_upper = true;
        while k < chars.len()
            invariant
                digits_end <= k <= chars.len(),
                all_upper == (forall|j: int| digits_end <= j < k ==> is_ascii_upper(#[trigger] chars@[j])),
            decreases chars.len() - k,
        {
            if !('A' <= chars[k] && chars[k] <= 'Z') {
                all_upper = false;
            }
            k = k + 1;
        }
        if all_upper {
            return true;
        }
    }
    if letters_before == 0 && digits >= 1 && letters_after <= 2 {
        if letters_after == 2 {
            let a = lower_ascii(chars[digits_end]);
            let b = lower_ascii(chars[digits_end + 1]);
            if (a == 's' && b == 't') || (a == 'n' && b == 'd') || (a == 'r' && b == 'd') || (a
                == 't' && b == 'h') {
                assert(chars@.subrange(digits_end as int, chars@.len() as int)[0] == chars@[digits_end as int]);
                assert(chars@.subrange(digits_end as int, chars@.len() as int)[1] == chars@[digits_end + 1]);
                return true;
            }
            assert(chars@.subrange(digits_end as int, chars@.len() as int)[0] == chars@[digits_end as int]);
            assert(chars@.subrange(digits_end as int, chars@.len() as int)[1] == chars@[digits_end + 1]);
        }
    }
    false
}

proof fn lemma_digit_run_to(s: Seq<char>, i: int, n: int)
    requires
        0 <= i <= n <= s.len(),
        forall|k: int| i <= k < n ==> is_ascii_digit(#[trigger] s[k]),
        n == s.len() || !is_ascii_digit(s[n]),
    ensures
        digit_run_end(s, i) == n,
    decreases n - i,
{
    if i < n {
        lemma_digit_run_to(s, i + 1, n);
    }
}

proof fn lemma_letter_run_to(s: Seq<char>, i: int, n: int)
    requires
        0 <= i <= n <= s.len(),
        forall|k: int| i <= k < n ==> is_ascii_letter(#[trigger] s[k]),
        n == s.len() || !is_ascii_letter(s[n]),
    ensures
        letter_run_end(s, i) == n,
    decreases n - i,
{
    if i < n {
        lemma_letter_run_to(s, i + 1, n);
    }
}

/// An English ordinal, one or more ASCII digits followed by "st", "nd",
/// "rd" or "th" in any ASCII case ("1st", "4th", "22nd", "3RD"), passes the
/// digit filter: the white-list allows it, so only a non-Latin letter could
/// reject it, and it has none.
pub proof fn lemma_ordinals_are_kept(digits: Seq<char>, a: char, b: char)
    requires
        digits.len() >= 1,
        forall|k: int| 0 <= k < digits.len() ==> '0' <= #[trigger] digits[k] <= '9',
        ((a == 's' || a == 'S') && (b == 't' || b == 'T')) || ((a == 'n' || a == 'N') && (b == 'd' || b == 'D'))
            || ((a == 'r' || a == 'R') && (b == 'd' || b == 'D')) || ((a == 't' || a == 'T') && (b == 'h' || b
            == 'H')),
    ensures
        spec_token_is_allowed(digits + seq![a, b]),
        !spec_has_embedded_digits(digits + seq![a, b]),
        spec_is_acceptable_ocr_text(digits + seq![a, b]) == !spec_has_non_latin_letters(digits + seq![a, b]),
{
    let s = digits + seq![a, b];
    let n = digits.len() as int;
    assert(s[n] == a && s[n + 1] == b);
    assert forall|k: int| 0 <= k < n implies is_ascii_digit(#[trigger] s[k]) by {
        assert(s[k] == digits[k]);
    }
    assert(!is_ascii_letter(s[0]));
    lemma_letter_run_to(s, 0, 0);
    lemma_digit_run_to(s, 0, n);
    lemma_letter_run_to(s, n, n + 2);
    assert(s.subrange(n, s.len() as int) =~= seq![a, b]);
    assert(is_ordinal_suffix(seq![a, b]));
}

/// A digit at position `i` touches an ASCII letter on either side.
pub open spec fn digit_touches_letter(s: Seq<char>, i: int) -> bool {
    &&& is_ascii_digit(s[i])
    &&& ((i > 0 && is_ascii_letter(s[i - 1])) || (i + 1 < s.len() && is_ascii_letter(s[i + 1])))
}

/// Some digit is pressed against a letter and the token is not white-listed.
pub open spec fn spec_has_embedded_digits(s: Seq<char>) -> bool {
    (exists|i: int| 0 <= i < s.len() && #[trigger] digit_touches_letter(s, i)) && !spec_token_is_allowed(s)
}

pub fn has_embedded_digits(text: &str) -> (r: bool)
    ensures
        r == spec_has_embedded_digits(text@),
{
    let chars = chars_of(text);
    let mut index: usize = 0;
    while index < chars.len()
        invariant
            chars@ == text@,
            index <= chars.len(),
            forall|j: int| 0 <= j < index ==> !#[trigger] digit_touches_letter(chars@, j),
        decreases chars.len() - index,
    {
        let ch = chars[index];
        if ascii_digit(ch) {
            let previous_is_letter = index > 0 && ascii_letter(chars[index - 1]);
            let next_is_letter = index + 1 < chars.len() && ascii_letter(chars[index + 1]);
            if previous_is_letter || next_is_letter {
                assert(digit_touches_letter(chars@, index as int));
                return !alphanumeric_token_is_allowed(&chars);
            }
        }
        index = index + 1;
    }
    false
}

/// Whether the OCR text of a box is kept: no non-Latin letter and no digit
/// glued to a letter outside the white-list.
pub open spec fn spec_is_acceptable_ocr_text(s: Seq<char>) -> bool {
    !spec_has_non_latin_letters(s) && !spec_has_embedded_digits(s)
}

pub fn is_acceptable_ocr_text(text: &str) -> (r: bool)
    ensures
        r == spec_is_acceptable_ocr_text(text@),
{
    !has_non_latin_letters(text) && !has_embedded_digits(text)
}

/// A word of a recognised line: character positions `start..end` and its text.
pub struct Word {
    pub start: usize,
    pub end: usize,
    pub text: String,
}

/// `ws` are exactly the maximal runs of non-white-space characters of `s`,
/// in order, each with its text.
pub open spec fn words_of(s: Seq<char>, ws: Seq<Word>) -> bool {
    &&& forall|k: int|
        0 <= k < ws.len() ==> {
            let w = #[trigger] ws[k];
            &&& w.start < w.end <= s.len()
            &&& w.text@ == s.subrange(w.start as int, w.end as int)
            &&& forall|i: int| w.start <= i < w.end ==> !unicode_whitespace(#[trigger] s[i])
            &&& (w.start == 0 || unicode_whitespace(s[w.start - 1]))
            &&& (w.end == s.len() || unicode_whitespace(s[w.end as int]))
        }
    &&& forall|k: int| 0 <= k < ws.len() - 1 ==> (#[trigger] ws[k]).end < ws[k + 1].start
    &&& forall|i: int|
        0 <= i < s.len() && !unicode_whitespace(#[trigger] s[i]) ==> exists|k: int|
            0 <= k < ws.len() && (#[trigger] ws[k]).start <= i < ws[k].end
}

/// Splits text into words at white space, keeping each word's character
/// positions (not byte offsets) for the box estimation.
pub fn split_words(text: &str) -> (words: Vec<Word>)
    ensures
        words_of(text@, words@),
{
    let chars = chars_of(text);
    let ghost s = chars@;
    let mut words: Vec<Word> = Vec::new();
    let mut in_word = false;
    let mut word_start: usize = 0;
    let mut i: usize = 0;
    while i < chars.len()
        invariant
            s == chars@,
            s == text@,
            i <= chars.len(),
            in_word ==> word_start < i,
            in_word ==> (word_start == 0 || unicode_whitespace(s[word_start - 1])),
            in_word ==> forall|j: int| word_start <= j < i ==> !unicode_whitespace(#[trigger] s[j]),
            !in_word ==> (i == 0 || unicode_whitespace(s[i - 1])),
            forall|k: int|
                0 <= k < words.len() ==> {
                    let w = #[trigger] words@[k];
                    &&& w.start < w.end < i
                    &&& w.end < s.len()
                    &&& w.text@ == s.subrange(w.start as int, w.end as int)
                    &&& forall|j: int| w.start <= j < w.end ==> !unicode_whitespace(#[trigger] s[j])
                    &&& (w.start == 0 || unicode_whitespace(s[w.start - 1]))
                    &&& unicode_whitespace(s[w.end as int])
                },
            forall|k: int| 0 <= k < words.len() - 1 ==> (#[trigger] words@[k]).end < words@[k + 1].start,
            words.len() > 0 && in_word ==> words@[words.len() - 1].end < word_start,
            forall|j: int|
                0 <= j < i && !unicode_whitespace(#[trigger] s[j]) ==> (in_word && word_start <= j)
                    || exists|k: int| 0 <= k < words.len() && (#[trigger] words@[k]).start <= j < words@[k].end,
        decreases chars.len() - i,
    {
        let ch = chars[i];
        if ch.is_whitespace() {
            if in_word {
                let word_text = string_of_range(&chars, word_start, i);
                let ghost before = words@;
                words.push(Word { start: word_start, end: i, text: word_text });
                proof {
                    assert forall|j: int|
                        0 <= j < i + 1 && !unicode_whitespace(#[trigger] s[j]) implies exists|k: int|
                            0 <= k < words.len() && (#[trigger] words@[k]).start <= j < words@[k].end by {
                        if j >= word_start {
                            assert(words@[words.len() - 1].start <= j < words@[words.len() - 1].end);
                        } else {
                            let k = choose|k: int| 0 <= k < before.len() && (#[trigger] before[k]).start <= j < before[k].end;
                            assert(words@[k] == before[k]);
                        }
                    }
                }
                in_word = false;
            }
        } else if !in_word {
            in_word = true;
            word_start = i;
        }
        i = i + 1;
    }
    if in_word {
        let word_text = string_of_range(&chars, word_start, chars.len());
        let ghost before = words@;
        words.push(Word { start: word_start, end: chars.len(), text: word_text });
        proof {
            assert forall|j: int|
                0 <= j < s.len() && !unicode_whitespace(#[trigger] s[j]) implies exists|k: int|
                    0 <= k < words.len() && (#[trigger] words@[k]).start <= j < words@[k].end by {
                if j >= word_start {
                    assert(words@[words.len() - 1].start <= j < words@[words.len() - 1].end);
                } else {
                    let k = choose|k: int| 0 <= k < before.len() && (#[trigger] before[k]).start <= j < before[k].end;
                    assert(words@[k] == before[k]);
                }
            }
        }
    }
    words
}

} // verus!
