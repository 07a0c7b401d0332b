//! Post-processing of the language model's lookup answer.
//!
//! A small model makes systematic mistakes: it answers in English instead of
//! Russian, writes the English word in Cyrillic letters ("Армадилло" for
//! "armadillo"), repeats the target word among its synonyms, returns the
//! word translation in a grammatical form that does not occur in the
//! sentence translation, or a topic outside the fixed list. The functions
//! here detect and repair those answers deterministically.

use vstd::prelude::*;
use crate::text::{
    char_lowercase, char_lowercase_eq, chars_equal, chars_of, string_of, string_of_range,
    trim_bounds, trim_chars, trim_string, trimmed, unicode_alphanumeric, unicode_lowercase,
};

verus! {

// ---------------------------------------------------------------------------
// Cyrillic detection
// ---------------------------------------------------------------------------

/// A character of the Cyrillic block `U+0400..=U+04FF`.
pub open spec fn is_cyrillic(c: char) -> bool {
    '\u{0400}' <= c && c <= '\u{04FF}'
}

pub open spec fn spec_contains_cyrillic(s: Seq<char>) -> bool {
    exists|i: int| 0 <= i < s.len() && is_cyrillic(#[trigger] s[i])
}

fn cyrillic_in(chars: &Vec<char>, from: usize, to: usize) -> (r: bool)
    requires
        from <= to <= chars.len(),
    ensures
        r == spec_contains_cyrillic(chars@.subrange(from as int, to as int)),
{
    let mut i = from;
    while i < to
        invariant
            from <= i <= to <= chars.len(),
            forall|j: int| from <= j < i ==> !is_cyrillic(#[trigger] chars@[j]),
        decreases to - i,
    {
        if '\u{0400}' <= chars[i] && chars[i] <= '\u{04FF}' {
            assert(chars@.subrange(from as int, to as int)[i - from] == chars@[i as int]);
            return true;
        }
        i = i + 1;
    }
    assert forall|j: int| 0 <= j < to - from implies !is_cyrillic(
        #[trigger] chars@.subrange(from as int, to as int)[j],
    ) by {
        assert(chars@.subrange(from as int, to as int)[j] == chars@[from + j]);
    }
    false
}

/// "The text is Russian": it holds at least one Cyrillic character.
pub fn contains_cyrillic(text: &str) -> (r: bool)
    ensures
        r == spec_contains_cyrillic(text@),
{
    let chars = chars_of(text);
    let r = cyrillic_in(&chars, 0, chars.len());
    assert(chars@.subrange(0, chars@.len() as int) == chars@);
    r
}

// ---------------------------------------------------------------------------
// Transliteration
// ---------------------------------------------------------------------------

/// Rough Latin spelling of one lower-case Cyrillic letter; any other
/// character stands for itself.
pub open spec fn translit_char(c: char) -> Seq<char> {
    if c == 'а' { seq!['a'] }
    else if c == 'б' { seq!['b'] }
    else if c == 'в' { seq!['v'] }
    else if c == 'г' { seq!['g'] }
    else if c == 'д' { seq!['d'] }
    else if c == 'е' || c == 'ё' { seq!['e'] }
    else if c == 'ж' { seq!['z', 'h'] }
    else if c == 'з' { seq!['z'] }
    else if c == 'и' { seq!['i'] }
    else if c == 'й' { seq!['y'] }
    else if c == 'к' { seq!['k'] }
    else if c == 'л' { seq!['l'] }
    else if c == 'м' { seq!['m'] }
    else if c == 'н' { seq!['n'] }
    else if c == 'о' { seq!['o'] }
    else if c == 'п' { seq!['p'] }
    else if c == 'р' { seq!['r'] }
    else if c == 'с' { seq!['s'] }
    else if c == 'т' { seq!['t'] }
    else if c == 'у' { seq!['u'] }
    else if c == 'ф' { seq!['f'] }
    else if c == 'х' { seq!['h'] }
    else if c == 'ц' { seq!['t', 's'] }
    else if c == 'ч' { seq!['c', 'h'] }
    else if c == 'ш' { seq!['s', 'h'] }
    else if c == 'щ' { seq!['s', 'h', 'c', 'h'] }
    else if c == 'ъ' || c == 'ь' { seq![] }
    else if c == 'ы' { seq!['y'] }
    else if c == 'э' { seq!['e'] }
    else if c == 'ю' { seq!['y', 'u'] }
    else if c == 'я' { seq!['y', 'a'] }
    else { seq![c] }
}

/// Letter-by-letter Latin spelling of a character sequence.
pub open spec fn translit_seq(s: Seq<char>) -> Seq<char>
    decreases s.len(),
{
    if s.len() == 0 {
        Seq::empty()
    } else {
        translit_seq(s.drop_last()) + translit_char(s.last())
    }
}

fn push_translit(out: &mut Vec<char>, c: char)
    ensures
        final(out)@ == old(out)@ + translit_char(c),
{
    if c == 'а' { out.push('a'); }
    else if c == 'б' { out.push('b'); }
    else if c == 'в' { out.push('v'); }
    else if c == 'г' { out.push('g'); }
    else if c == 'д' { out.push('d'); }
    else if c == 'е' || c == 'ё' { out.push('e'); }
    else if c == 'ж' { out.push('z'); out.push('h'); }
    else if c == 'з' { out.push('z'); }
    else if c == 'и' { out.push('i'); }
    else if c == 'й' { out.push('y'); }
    else if c == 'к' { out.push('k'); }
    else if c == 'л' { out.push('l'); }
    else if c == 'м' { out.push('m'); }
    else if c == 'н' { out.push('n'); }
    else if c == 'о' { out.push('o'); }
    else if c == 'п' { out.push('p'); }
    else if c == 'р' { out.push('r'); }
    else if c == 'с' { out.push('s'); }
    else if c == 'т' { out.push('t'); }
    else if c == 'у' { out.push('u'); }
    else if c == 'ф' { out.push('f'); }
    else if c == 'х' { out.push('h'); }
    else if c == 'ц' { out.push('t'); out.push('s'); }
    else if c == 'ч' { out.push('c'); out.push('h'); }
    else if c == 'ш' { out.push('s'); out.push('h'); }
    else if c == 'щ' { out.push('s'); out.push('h'); out.push('c'); out.push('h'); }
    else if c == 'ъ' || c == 'ь' { }
    else if c == 'ы' { out.push('y'); }
    else if c == 'э' { out.push('e'); }
    else if c == 'ю' { out.push('y'); out.push('u'); }
    else if c == 'я' { out.push('y'); out.push('a'); }
    else { out.push(c); }
}

fn translit_chars(chars: &Vec<char>) -> (r: Vec<char>)
    ensures
        r@ == translit_seq(chars@),
{
    let mut out: Vec<char> = Vec::new();
    let mut i: usize = 0;
    while i < chars.len()
        invariant
            i <= chars.len(),
            out@ == translit_seq(chars@.take(i as int)),
        decreases chars.len() - i,
    {
        push_translit(&mut out, chars[i]);
        assert(chars@.take(i + 1).drop_last() == chars@.take(i as int));
        i = i + 1;
    }
    assert(chars@.take(chars@.len() as int) == chars@);
    out
}

/// Rough transliteration of Cyrillic into Latin letters, applied to the
/// lower-cased text. Used only to detect an English word written in
/// Russian letters.
pub fn translit_cyrillic_to_latin(text: &str) -> (r: String)
    ensures
        r@ == translit_seq(unicode_lowercase(text@)),
{
    let lowered = text.to_lowercase();
    let chars = chars_of(lowered.as_str());
    let out = translit_chars(&chars);
    string_of(&out)
}

/// The ASCII letters and digits of `s`, in order.
pub open spec fn ascii_alphanumerics(s: Seq<char>) -> Seq<char> {
    s.filter(|c: char| ('a' <= c && c <= 'z') || ('A' <= c && c <= 'Z') || ('0' <= c && c <= '9'))
}

/// A token of `s`: the maximal run `s[i..j]` of characters satisfying
/// `alnum`, non-empty.
pub open spec fn is_alnum_token(s: Seq<char>, i: int, j: int) -> bool {
    &&& 0 <= i < j <= s.len()
    &&& forall|k: int| i <= k < j ==> unicode_alphanumeric(#[trigger] s[k])
    &&& (i == 0 || !unicode_alphanumeric(s[i - 1]))
    &&& (j == s.len() || !unicode_alphanumeric(s[j]))
}

/// A token whose Latin spelling is the target, or the target with a plural "s".
pub open spec fn token_spells(s: Seq<char>, i: int, j: int, target: Seq<char>) -> bool {
    let back = translit_seq(unicode_lowercase(s.subrange(i, j)));
    &&& spec_contains_cyrillic(s.subrange(i, j))
    &&& back.len() > 0
    &&& (back == target || back.push('s') == target)
}

/// The Russian text holds a word that is the English `word` in Cyrillic
/// letters ("Армадилло" for "armadillo"); an empty target never matches.
pub open spec fn spec_is_transliteration(word: Seq<char>, russian: Seq<char>) -> bool {
    let target = unicode_lowercase(ascii_alphanumerics(word));
    &&& target.len() > 0
    &&& exists|i: int, j: int| #[trigger] is_alnum_token(russian, i, j) && token_spells(russian, i, j, target)
}

fn ascii_alnum_filter(chars: &Vec<char>) -> (r: Vec<char>)
    ensures
        r@ == ascii_alphanumerics(chars@),
{
    let mut out: Vec<char> = Vec::new();
    let mut i: usize = 0;
    while i < chars.len()
        invariant
            i <= chars.len(),
            out@ == ascii_alphanumerics(chars@.take(i as int)),
        decreases chars.len() - i,
    {
        let c = chars[i];
        proof {
            assert(chars@.take(i + 1).drop_last() == chars@.take(i as int));
            reveal(Seq::filter);
        }
        if ('a' <= c && c <= 'z') || ('A' <= c && c <= 'Z') || ('0' <= c && c <= '9') {
            out.push(c);
        }
        i = i + 1;
    }
    assert(chars@.take(chars@.len() as int) == chars@);
    out
}

/// Whether a token of `russian` spells out the English `word` in Cyrillic.
pub fn is_transliteration(word: &str, russian_text: &str) -> (r: bool)
    ensures
        r == spec_is_transliteration(word@, russian_text@),
{
    let word_chars = chars_of(word);
    let filtered = ascii_alnum_filter(&word_chars);
    let filtered_string = string_of(&filtered);
    let target_string = filtered_string.as_str().to_lowercase();
    let target = chars_of(target_string.as_str());
    if target.len() == 0 {
        return false;
    }
    let s = chars_of(russian_text);
    let ghost sv = s@;
    let mut i: usize = 0;
    while i < s.len()
        invariant
            sv == s@,
            sv == russian_text@,
            target@ == unicode_lowercase(ascii_alphanumerics(word@)),
            i <= s.len(),
            i < s.len() ==> (i == 0 || !unicode_alphanumeric(s@[i - 1]) || !unicode_alphanumeric(s@[i as int])),
            forall|a: int, b: int| #[trigger] is_alnum_token(sv, a, b) && a < i ==> !token_spells(sv, a, b, target@),
        decreases s.len() - i,
    {
        if !s[i].is_alphanumeric() {
            i = i + 1;
            proof {
                assert forall|a: int, b: int| #[trigger] is_alnum_token(sv, a, b) && a < i implies !token_spells(sv, a, b, target@) by {
                    if a == i - 1 {
                        assert(unicode_alphanumeric(sv[a]));
                    }
                }
            }
        } else {
            let start = i;
            let mut end = i;
            while end < s.len() && s[end].is_alphanumeric()
                invariant
                    start <= end <= s.len(),
                    forall|k: int| start <= k < end ==> unicode_alphanumeric(#[trigger] s@[k]),
                decreases s.len() - end,
            {
                end = end + 1;
            }
            assert(is_alnum_token(sv, start as int, end as int));
            let has_cyr = cyrillic_in(&s, start, end);
            let token = string_of_range(&s, start, end);
            let back_string = translit_cyrillic_to_latin(token.as_str());
            let back = chars_of(back_string.as_str());
            if has_cyr && back.len() > 0 {
                let mut plural = back.clone();
                plural.push('s');
                if chars_equal(&back, &target) || chars_equal(&plural, &target) {
                    assert(token_spells(sv, start as int, end as int, target@));
                    return true;
                }
            }
            proof {
                assert forall|a: int, b: int| #[trigger] is_alnum_token(sv, a, b) && a < end implies !token_spells(sv, a, b, target@) by {
                    if a >= start {
                        if a > start {
                            assert(unicode_alphanumeric(sv[a - 1]));
                        }
                        if b < end {
                            assert(unicode_alphanumeric(sv[b]));
                        }
                        if b > end {
                            assert(unicode_alphanumeric(sv[end as int]));
                        }
                    }
                }
            }
            i = end;
        }
    }
    false
}

// ---------------------------------------------------------------------------
// JSON fences
// ---------------------------------------------------------------------------

/// The text cut to its outermost braces: trimmed, then from the first `{`
/// to the last `}` when both exist in that order; the trimmed text otherwise.
pub open spec fn spec_strip_json_fences(s: Seq<char>) -> Seq<char> {
    let t = trimmed(s);
    if exists|i: int, j: int| 0 <= i <= j < t.len() && t[i] == '{' && t[j] == '}' {
        let i = choose|i: int| 0 <= i < t.len() && t[i] == '{' && forall|k: int| 0 <= k < i ==> t[k] != '{';
        let j = choose|j: int| 0 <= j < t.len() && t[j] == '}' && forall|k: int| j < k < t.len() ==> t[k] != '}';
        t.subrange(i, j + 1)
    } else {
        t
    }
}

/// Cuts away a markdown fence or prose around the JSON object of a reply.
pub fn strip_json_fences(text: &str) -> (r: String)
    ensures
        r@ == spec_strip_json_fences(text@),
{
    let all = chars_of(text);
    let t = trim_chars(&all);
    let ghost tv = t@;
    let mut first: usize = 0;
    while first < t.len() && t[first] != '{'
        invariant
            first <= t.len(),
            forall|k: int| 0 <= k < first ==> t@[k] != '{',
        decreases t.len() - first,
    {
        first = first + 1;
    }
    let mut last: usize = t.len();
    while last > 0 && t[last - 1] != '}'
        invariant
            last <= t.len(),
            forall|k: int| last <= k < t.len() ==> t@[k] != '}',
        decreases last,
    {
        last = last - 1;
    }
    if first < t.len() && last > 0 && first <= last - 1 {
        proof {
            let i = choose|i: int| 0 <= i < tv.len() && tv[i] == '{' && forall|k: int| 0 <= k < i ==> tv[k] != '{';
            let j = choose|j: int| 0 <= j < tv.len() && tv[j] == '}' && forall|k: int| j < k < tv.len() ==> tv[k] != '}';
            assert(tv[first as int] == '{');
            assert(tv[last - 1] == '}');
            assert(i == first) by {
                if i < first { assert(tv[i] != '{'); }
                if i > first { assert(tv[first as int] != '{'); }
            }
            assert(j == last - 1) by {
                if j < last - 1 { assert(tv[last - 1] != '}'); }
                if j > last - 1 { assert(tv[j] != '}'); }
            }
        }
        string_of_range(&t, first, last)
    } else {
        proof {
            assert forall|i: int, j: int| 0 <= i <= j < tv.len() && tv[i] == '{' implies tv[j] != '}' by {
                if first == tv.len() {
                    assert(tv[i] != '{');
                } else if last == 0 {
                    assert(tv[j] != '}');
                } else {
                    if i < first { assert(tv[i] != '{'); }
                    if j >= last { assert(tv[j] != '}'); }
                }
            }
        }
        string_of(&t)
    }
}


// ---------------------------------------------------------------------------
// Topics
// ---------------------------------------------------------------------------

/// The complete list of lookup topics. The JSON schema of the model's
/// answer enumerates exactly these values and the system prompt names them.
pub const TOPICS: [&'static str; 30] = [
    "Дом и быт",
    "Семья и отношения",
    "Еда и напитки",
    "Одежда и аксессуары",
    "Покупки и магазины",
    "Путешествия",
    "Транспорт",
    "Город и места",
    "Работа и профессии",
    "Учёба и образование",
    "Внешность и характер",
    "Эмоции и чувства",
    "Время, даты и календарь",
    "Погода и природа",
    "Здоровье и тело",
    "Спорт и физическая активность",
    "Хобби и досуг",
    "Технологии и гаджеты",
    "Интернет и социальные сети",
    "Кино, музыка и развлечения",
    "Страны и национальности",
    "Деньги и финансы",
    "Ресторан и кафе",
    "Отель и гостиница",
    "Домашние дела и уборка",
    "Природа и животные",
    "Повседневные действия и глаголы",
    "Общение и социальные фразы",
    "Телефон, сообщения и переписка",
    "Любовь, знакомства и отношения",
];

pub open spec fn topic_at(i: int) -> Seq<char> {
    TOPICS@[i]@
}

/// `t` is exactly the topic at position `i`.
pub open spec fn topic_matches(i: int, t: Seq<char>) -> bool {
    0 <= i < 30 && topic_at(i) == t
}

/// The topic at position `i` equals `t` ignoring case.
pub open spec fn topic_matches_ignoring_case(i: int, t: Seq<char>) -> bool {
    0 <= i < 30 && unicode_lowercase(topic_at(i)) == unicode_lowercase(t)
}

/// The topic of an answer made canonical: empty stays empty, a listed topic
/// stays as it is, a listed topic in other letter case becomes the listed
/// spelling (the first one that matches), anything else is kept trimmed.
pub open spec fn spec_canonicalize_topic(topic: Seq<char>) -> Seq<char> {
    let t = trimmed(topic);
    if t.len() == 0 {
        Seq::empty()
    } else if exists|i: int| #[trigger] topic_matches(i, t) {
        t
    } else if exists|i: int| #[trigger] topic_matches_ignoring_case(i, t) {
        let i = choose|i: int| #[trigger] topic_matches_ignoring_case(i, t) && forall|k: int| 0 <= k < i ==> !topic_matches_ignoring_case(k, t);
        topic_at(i)
    } else {
        t
    }
}

pub fn canonicalize_topic(topic: &str) -> (r: String)
    ensures
        r@ == spec_canonicalize_topic(topic@),
{
    let trimmed_string = trim_string(topic);
    let t = chars_of(trimmed_string.as_str());
    if t.len() == 0 {
        return String::new();
    }
    let mut i: usize = 0;
    while i < 30
        invariant
            t@ == trimmed(topic@),
            t@ == trimmed_string@,
            t@.len() > 0,
            i <= 30,
            forall|k: int| 0 <= k < i ==> !topic_matches(k, t@),
        decreases 30 - i,
    {
        let candidate = chars_of(TOPICS[i]);
        if chars_equal(&candidate, &t) {
            assert(topic_matches(i as int, t@));
            assert(trimmed_string@ == t@);
            assert(t@.len() > 0);
            assert(spec_canonicalize_topic(topic@) == t@);
            return trimmed_string;
        }
        i = i + 1;
    }
    let lowered = trimmed_string.as_str().to_lowercase();
    let lowered_chars = chars_of(lowered.as_str());
    let mut i: usize = 0;
    while i < 30
        invariant
            t@ == trimmed(topic@),
            t@ == trimmed_string@,
            t@.len() > 0,
            lowered_chars@ == unicode_lowercase(t@),
            i <= 30,
            forall|k: int| 0 <= k < 30 ==> !topic_matches(k, t@),
            forall|k: int| 0 <= k < i ==> !topic_matches_ignoring_case(k, t@),
        decreases 30 - i,
    {
        let candidate_lower = TOPICS[i].to_lowercase();
        let candidate_chars = chars_of(candidate_lower.as_str());
        if chars_equal(&candidate_chars, &lowered_chars) {
            assert(topic_matches_ignoring_case(i as int, t@));
            proof {
                let j = choose|j: int| #[trigger] topic_matches_ignoring_case(j, t@) && forall|k: int| 0 <= k < j ==> !topic_matches_ignoring_case(k, t@);
                if j < i { assert(!topic_matches_ignoring_case(j, t@)); }
                if j > i { assert(!topic_matches_ignoring_case(i as int, t@)); }
            }
            let found = chars_of(TOPICS[i]);
            return string_of(&found);
        }
        i = i + 1;
    }
    trimmed_string
}

// ---------------------------------------------------------------------------
// Synonyms
// ---------------------------------------------------------------------------

/// Whether a synonym `s` is kept after the already kept ones `acc`: it is
/// non-empty once trimmed, differs from the target word and from every kept
/// synonym ignoring case.
pub open spec fn synonym_kept(target: Seq<char>, acc: Seq<Seq<char>>, s: Seq<char>) -> bool {
    &&& trimmed(s).len() > 0
    &&& unicode_lowercase(trimmed(s)) != target
    &&& forall|k: int| 0 <= k < acc.len() ==> unicode_lowercase(#[trigger] acc[k]) != unicode_lowercase(trimmed(s))
}

/// The trimmed synonyms kept from `syns`, in order, without a length limit.
pub open spec fn kept_synonyms(target: Seq<char>, syns: Seq<Seq<char>>) -> Seq<Seq<char>>
    decreases syns.len(),
{
    if syns.len() == 0 {
        Seq::empty()
    } else {
        let acc = kept_synonyms(target, syns.drop_last());
        if synonym_kept(target, acc, syns.last()) {
            acc.push(trimmed(syns.last()))
        } else {
            acc
        }
    }
}

/// At most three cleaned synonyms: the first three that `kept_synonyms` keeps.
pub open spec fn spec_clean_synonyms(word: Seq<char>, syns: Seq<Seq<char>>) -> Seq<Seq<char>> {
    let all = kept_synonyms(unicode_lowercase(trimmed(word)), syns);
    if all.len() <= 3 {
        all
    } else {
        all.take(3)
    }
}

pub open spec fn string_views(v: Seq<String>) -> Seq<Seq<char>> {
    v.map_values(|s: String| s@)
}

/// The synonyms kept from a prefix are a prefix of those kept from the whole.
proof fn lemma_kept_prefix(target: Seq<char>, syns: Seq<Seq<char>>, n: int)
    requires
        0 <= n <= syns.len(),
    ensures
        kept_synonyms(target, syns.take(n)).len() <= kept_synonyms(target, syns).len(),
        kept_synonyms(target, syns).take(kept_synonyms(target, syns.take(n)).len() as int)
            == kept_synonyms(target, syns.take(n)),
    decreases syns.len(),
{
    if n == syns.len() {
        assert(syns.take(n) == syns);
    } else {
        assert(syns.drop_last().take(n) == syns.take(n));
        lemma_kept_prefix(target, syns.drop_last(), n);
    }
}

/// Whether `v` holds a string equal to `s`.
fn contains_string(v: &Vec<String>, s: &String) -> (r: bool)
    ensures
        r == exists|k: int| 0 <= k < v.len() && (#[trigger] v@[k])@ == s@,
{
    let mut k: usize = 0;
    while k < v.len()
        invariant
            k <= v.len(),
            forall|j: int| 0 <= j < k ==> (#[trigger] v@[j])@ != s@,
        decreases v.len() - k,
    {
        if v[k] == *s {
            return true;
        }
        k = k + 1;
    }
    false
}

/// Cleans the model's synonyms: drops empty ones, the target word itself and
/// case-insensitive duplicates, trims them and keeps at most three.
pub fn clean_synonyms(word: &str, synonyms: Vec<String>) -> (r: Vec<String>)
    ensures
        string_views(r@) == spec_clean_synonyms(word@, string_views(synonyms@)),
{
    let ghost syns = string_views(synonyms@);
    let ghost target_spec = unicode_lowercase(trimmed(word@));
    let trimmed_word = trim_string(word);
    let target = trimmed_word.as_str().to_lowercase();
    let mut cleaned: Vec<String> = Vec::new();
    let mut cleaned_lower: Vec<String> = Vec::new();
    let mut i: usize = 0;
    while i < synonyms.len()
        invariant
            syns == string_views(synonyms@),
            target_spec == unicode_lowercase(trimmed(word@)),
            target@ == target_spec,
            i <= synonyms.len(),
            cleaned.len() < 3,
            string_views(cleaned@) == kept_synonyms(target_spec, syns.take(i as int)),
            cleaned_lower.len() == cleaned.len(),
            forall|k: int| 0 <= k < cleaned.len() ==> (#[trigger] cleaned_lower@[k])@ == unicode_lowercase(cleaned@[k]@),
        decreases synonyms.len() - i,
    {
        let trimmed_synonym = trim_string(synonyms[i].as_str());
        let lowered = trimmed_synonym.as_str().to_lowercase();
        let ghost acc = kept_synonyms(target_spec, syns.take(i as int));
        proof {
            assert(syns.take(i + 1).drop_last() == syns.take(i as int));
            assert(syns.take(i + 1).last() == synonyms@[i as int]@);
        }
        let duplicate = contains_string(&cleaned_lower, &lowered);
        let non_empty = !trimmed_synonym.as_str().is_empty();
        let differs = !(lowered == target);
        let keep = non_empty && differs && !duplicate;
        proof {
            if keep {
                assert forall|k: int| 0 <= k < acc.len() implies unicode_lowercase(#[trigger] acc[k]) != unicode_lowercase(trimmed(syns[i as int])) by {
                    assert(cleaned_lower@[k]@ != lowered@);
                }
            } else if non_empty && differs {
                let k = choose|k: int| 0 <= k < cleaned_lower.len() && (#[trigger] cleaned_lower@[k])@ == lowered@;
                assert(unicode_lowercase(acc[k]) == unicode_lowercase(trimmed(syns[i as int])));
            }
        }
        if keep {
            cleaned.push(trimmed_synonym);
            cleaned_lower.push(lowered);
            assert(string_views(cleaned@) == acc.push(trimmed(syns[i as int])));
        } else {
            assert(string_views(cleaned@) == acc);
        }
        i = i + 1;
        if cleaned.len() >= 3 {
            proof {
                lemma_kept_prefix(target_spec, syns, i as int);
                let all = kept_synonyms(target_spec, syns);
                assert(all.take(3) == string_views(cleaned@));
                assert(string_views(cleaned@).len() == 3);
                assert(all.len() >= 3);
                if all.len() == 3 {
                    assert(all.take(3) == all);
                }
                assert(string_views(cleaned@) == spec_clean_synonyms(word@, syns));
            }
            return cleaned;
        }
    }
    proof {
        assert(syns.take(synonyms.len() as int) == syns);
    }
    cleaned
}


proof fn lemma_kept_synonyms_distinct(target: Seq<char>, syns: Seq<Seq<char>>)
    ensures
        forall|k: int| 0 <= k < kept_synonyms(target, syns).len() ==> {
            let s = #[trigger] kept_synonyms(target, syns)[k];
            s.len() > 0 && unicode_lowercase(s) != target
        },
        forall|a: int, b: int|
            0 <= a < b < kept_synonyms(target, syns).len() ==> unicode_lowercase(
                #[trigger] kept_synonyms(target, syns)[a],
            ) != unicode_lowercase(#[trigger] kept_synonyms(target, syns)[b]),
    decreases syns.len(),
{
    if syns.len() > 0 {
        lemma_kept_synonyms_distinct(target, syns.drop_last());
        let acc = kept_synonyms(target, syns.drop_last());
        let r = kept_synonyms(target, syns);
        if synonym_kept(target, acc, syns.last()) {
            assert(r == acc.push(trimmed(syns.last())));
            assert forall|k: int| 0 <= k < r.len() implies {
                let s = #[trigger] r[k];
                s.len() > 0 && unicode_lowercase(s) != target
            } by {
                if k < acc.len() {
                    assert(r[k] == acc[k]);
                }
            }
            assert forall|a: int, b: int| 0 <= a < b < r.len() implies unicode_lowercase(#[trigger] r[a])
                != unicode_lowercase(#[trigger] r[b]) by {
                assert(r[a] == acc[a]);
                if b < acc.len() {
                    assert(r[b] == acc[b]);
                }
            }
        }
    }
}

/// The cleaned synonyms are at most three, none is empty, none is the target
/// word and no two of them differ only in letter case.
pub proof fn lemma_clean_synonyms_laws(word: Seq<char>, syns: Seq<Seq<char>>)
    ensures
        spec_clean_synonyms(word, syns).len() <= 3,
        forall|k: int| 0 <= k < spec_clean_synonyms(word, syns).len() ==> {
            let s = #[trigger] spec_clean_synonyms(word, syns)[k];
            s.len() > 0 && unicode_lowercase(s) != unicode_lowercase(trimmed(word))
        },
        forall|a: int, b: int|
            0 <= a < b < spec_clean_synonyms(word, syns).len() ==> unicode_lowercase(
                #[trigger] spec_clean_synonyms(word, syns)[a],
            ) != unicode_lowercase(#[trigger] spec_clean_synonyms(word, syns)[b]),
{
    let target = unicode_lowercase(trimmed(word));
    lemma_kept_synonyms_distinct(target, syns);
    let all = kept_synonyms(target, syns);
    if all.len() > 3 {
        assert forall|k: int| 0 <= k < 3 implies #[trigger] all.take(3)[k] == all[k] by {}
    }
}


// ---------------------------------------------------------------------------
// Word translation alignment
// ---------------------------------------------------------------------------

/// `needle` occurs in `s` at position `i`.
pub open spec fn occurs_at(s: Seq<char>, needle: Seq<char>, i: int) -> bool {
    0 <= i && i + needle.len() <= s.len() && s.subrange(i, i + needle.len()) == needle
}

/// `needle` occurs in `s` at position `i` when every character is compared
/// by its lower-case mapping.
pub open spec fn occurs_at_ignoring_case(s: Seq<char>, needle: Seq<char>, i: int) -> bool {
    &&& 0 <= i && i + needle.len() <= s.len()
    &&& forall|k: int| 0 <= k < needle.len() ==> char_lowercase(#[trigger] s[i + k]) == char_lowercase(needle[k])
}

/// A character that may belong to a word of the sentence translation:
/// alphanumeric or a hyphen.
pub open spec fn is_word_char(c: char) -> bool {
    unicode_alphanumeric(c) || c == '-'
}

/// `s[i..j]` is a maximal non-empty run of word characters.
pub open spec fn is_word_token(s: Seq<char>, i: int, j: int) -> bool {
    &&& 0 <= i < j <= s.len()
    &&& forall|k: int| i <= k < j ==> is_word_char(#[trigger] s[k])
    &&& (i == 0 || !is_word_char(s[i - 1]))
    &&& (j == s.len() || !is_word_char(s[j]))
}

/// End of the common prefix of `a` and `b` from position `k` on.
pub open spec fn common_prefix_end(a: Seq<char>, b: Seq<char>, k: int) -> int
    decreases a.len() - k,
{
    if 0 <= k < a.len() && k < b.len() && a[k] == b[k] {
        common_prefix_end(a, b, k + 1)
    } else {
        k
    }
}

/// Length of the common prefix of `a` and `b`.
pub open spec fn common_prefix_len(a: Seq<char>, b: Seq<char>) -> int {
    common_prefix_end(a, b, 0)
}

/// The shared prefix of the model's form and the token, both lower-cased.
pub open spec fn token_common(s: Seq<char>, needle: Seq<char>, i: int, j: int) -> int {
    common_prefix_len(needle, unicode_lowercase(s.subrange(i, j)))
}

/// A token shares a prefix of at least five characters with the model's
/// form, covering at least 55% of both words.
pub open spec fn token_qualifies(s: Seq<char>, needle: Seq<char>, i: int, j: int) -> bool {
    let c = token_common(s, needle, i, j);
    &&& is_word_token(s, i, j)
    &&& c >= 5
    &&& c * 20 >= needle.len() * 11
    &&& c * 20 >= unicode_lowercase(s.subrange(i, j)).len() * 11
}

/// The qualifying token with the longest shared prefix, the last one on a tie.
pub open spec fn best_token(s: Seq<char>, needle: Seq<char>, i: int, j: int) -> bool {
    &&& token_qualifies(s, needle, i, j)
    &&& forall|a: int, b: int| #[trigger] token_qualifies(s, needle, a, b) ==> token_common(s, needle, a, b) <= token_common(s, needle, i, j)
    &&& forall|a: int, b: int| #[trigger] token_qualifies(s, needle, a, b) && a > i ==> token_common(s, needle, a, b) < token_common(s, needle, i, j)
}

/// The form of the word translation to highlight inside the sentence
/// translation: the trimmed word translation when it occurs as it is; else
/// the first case-insensitive occurrence, as written in the sentence; else
/// the sentence word sharing the longest prefix with it (see
/// `token_qualifies`); else the trimmed word translation unchanged.
pub open spec fn spec_align_word_translation(word: Seq<char>, sentence: Seq<char>) -> Seq<char> {
    let wt = trimmed(word);
    let needle = unicode_lowercase(wt);
    let stem = unicode_lowercase(needle);
    if wt.len() == 0 {
        Seq::empty()
    } else if exists|i: int| #[trigger] occurs_at(sentence, wt, i) {
        wt
    } else if exists|i: int| #[trigger] occurs_at_ignoring_case(sentence, needle, i) {
        let i = choose|i: int| #[trigger] occurs_at_ignoring_case(sentence, needle, i) && forall|k: int| 0 <= k < i ==> !occurs_at_ignoring_case(sentence, needle, k);
        sentence.subrange(i, i + needle.len())
    } else if exists|i: int, j: int| #[trigger] token_qualifies(sentence, stem, i, j) {
        let (i, j) = choose|i: int, j: int| #[trigger] best_token(sentence, stem, i, j);
        sentence.subrange(i, j)
    } else {
        wt
    }
}

/// Whether `needle` occurs in `s` (`str::contains`).
fn occurs_in(s: &Vec<char>, needle: &Vec<char>) -> (r: bool)
    ensures
        r == exists|i: int| #[trigger] occurs_at(s@, needle@, i),
{
    if needle.len() > s.len() {
        return false;
    }
    let mut start: usize = 0;
    while start <= s.len() - needle.len()
        invariant
            needle.len() <= s.len(),
            start <= s.len() - needle.len() + 1,
            forall|i: int| 0 <= i < start ==> !#[trigger] occurs_at(s@, needle@, i),
        decreases s.len() - needle.len() + 1 - start,
    {
        let mut k: usize = 0;
        let mut all = true;
        while k < needle.len()
            invariant
                needle.len() <= s.len(),
                start <= s.len() - needle.len(),
                k <= needle.len(),
                all == forall|m: int| 0 <= m < k ==> s@[start + m] == needle@[m],
            decreases needle.len() - k,
        {
            if s[start + k] != needle[k] {
                all = false;
            }
            k = k + 1;
        }
        if all {
            assert(s@.subrange(start as int, start + needle.len()) == needle@);
            assert(occurs_at(s@, needle@, start as int));
            return true;
        }
        assert(!occurs_at(s@, needle@, start as int)) by {
            if occurs_at(s@, needle@, start as int) {
                let m = choose|m: int| 0 <= m < needle.len() && s@[start + m] != needle@[m];
                assert(s@.subrange(start as int, start + needle.len())[m] == s@[start + m]);
            }
        }
        start = start + 1;
    }
    false
}

/// First position where `needle` occurs in `s` ignoring letter case.
fn find_ignoring_case(s: &Vec<char>, needle: &Vec<char>) -> (r: Option<usize>)
    ensures
        r is None ==> forall|i: int| !#[trigger] occurs_at_ignoring_case(s@, needle@, i),
        r matches Some(i) ==> occurs_at_ignoring_case(s@, needle@, i as int) && forall|k: int|
            0 <= k < i ==> !occurs_at_ignoring_case(s@, needle@, k),
{
    if needle.len() > s.len() {
        return None;
    }
    let mut start: usize = 0;
    while start <= s.len() - needle.len()
        invariant
            needle.len() <= s.len(),
            start <= s.len() - needle.len() + 1,
            forall|i: int| 0 <= i < start ==> !#[trigger] occurs_at_ignoring_case(s@, needle@, i),
        decreases s.len() - needle.len() + 1 - start,
    {
        let mut k: usize = 0;
        let mut all = true;
        while k < needle.len()
            invariant
                needle.len() <= s.len(),
                start <= s.len() - needle.len(),
                k <= needle.len(),
                all == forall|m: int| 0 <= m < k ==> char_lowercase(#[trigger] s@[start + m]) == char_lowercase(needle@[m]),
            decreases needle.len() - k,
        {
            if !char_lowercase_eq(s[start + k], needle[k]) {
                all = false;
            }
            k = k + 1;
        }
        if all {
            return Some(start);
        }
        start = start + 1;
    }
    None
}

proof fn lemma_common_prefix_bounds(a: Seq<char>, b: Seq<char>, k: int)
    requires
        0 <= k,
    ensures
        k <= common_prefix_end(a, b, k),
        k <= a.len() && k <= b.len() ==> common_prefix_end(a, b, k) <= a.len() && common_prefix_end(a, b, k) <= b.len(),
    decreases a.len() - k,
{
    if 0 <= k < a.len() && k < b.len() && a[k] == b[k] {
        lemma_common_prefix_bounds(a, b, k + 1);
    }
}

/// Length of the common prefix of two character vectors.
fn common_prefix(a: &Vec<char>, b: &Vec<char>) -> (r: usize)
    ensures
        r == common_prefix_len(a@, b@),
        r <= a.len(),
        r <= b.len(),
{
    proof {
        lemma_common_prefix_bounds(a@, b@, 0);
    }
    let mut k: usize = 0;
    while k < a.len() && k < b.len() && a[k] == b[k]
        invariant
            k <= a.len(),
            k <= b.len(),
            common_prefix_end(a@, b@, 0) == common_prefix_end(a@, b@, k as int),
        decreases a.len() - k,
    {
        k = k + 1;
    }
    k
}

/// Among the word tokens of `s`, the one that `best_token` selects.
fn find_best_token(s: &Vec<char>, stem: &Vec<char>) -> (r: Option<(usize, usize)>)
    ensures
        r is None ==> forall|i: int, j: int| !#[trigger] token_qualifies(s@, stem@, i, j),
        r matches Some((i, j)) ==> best_token(s@, stem@, i as int, j as int),
{
    let ghost sv = s@;
    let mut best: Option<(usize, usize, usize)> = None;
    let mut i: usize = 0;
    while i < s.len()
        invariant
            sv == s@,
            i <= s.len(),
            i < s.len() ==> (i == 0 || !is_word_char(sv[i - 1]) || !is_word_char(sv[i as int])),
            best is None ==> forall|a: int, b: int| #[trigger] token_qualifies(sv, stem@, a, b) ==> a >= i,
            best matches Some((bi, bj, bc)) ==> {
                &&& bi < i
                &&& token_qualifies(sv, stem@, bi as int, bj as int)
                &&& bc == token_common(sv, stem@, bi as int, bj as int)
                &&& forall|a: int, b: int| #[trigger] token_qualifies(sv, stem@, a, b) && a < i ==> token_common(sv, stem@, a, b) <= bc
                &&& forall|a: int, b: int| #[trigger] token_qualifies(sv, stem@, a, b) && a < i && a > bi ==> token_common(sv, stem@, a, b) < bc
            },
        decreases s.len() - i,
    {
        let c = s[i];
        if !(c.is_alphanumeric() || c == '-') {
            i = i + 1;
            proof {
                assert forall|a: int, b: int| #[trigger] token_qualifies(sv, stem@, a, b) implies a != i - 1 by {
                    if a == i - 1 {
                        assert(is_word_char(sv[a]));
                    }
                }
            }
        } else {
            let start = i;
            let mut end = i;
            while end < s.len() && (s[end].is_alphanumeric() || s[end] == '-')
                invariant
                    start <= end <= s.len(),
                    forall|k: int| start <= k < end ==> is_word_char(#[trigger] s@[k]),
                decreases s.len() - end,
            {
                end = end + 1;
            }
            assert(is_word_token(sv, start as int, end as int));
            proof {
                // the only token starting in `start..end` is `start..end` itself
                assert forall|a: int, b: int| #[trigger] token_qualifies(sv, stem@, a, b) && start <= a < end implies a == start && b == end by {
                    if a > start {
                        assert(is_word_char(sv[a - 1]));
                    }
                    if b < end {
                        assert(is_word_char(sv[b]));
                    }
                    if b > end {
                        assert(is_word_char(sv[end as int]));
                    }
                }
            }
            let token = string_of_range(s, start, end);
            let lowered = token.as_str().to_lowercase();
            let candidate = chars_of(lowered.as_str());
            let common = common_prefix(stem, &candidate);
            let qualifies = common >= 5 && (common as u128) * 20 >= (stem.len() as u128) * 11
                && (common as u128) * 20 >= (candidate.len() as u128) * 11;
            assert(qualifies == token_qualifies(sv, stem@, start as int, end as int));
            if qualifies {
                let better = match best {
                    None => true,
                    Some((_, _, bc)) => common >= bc,
                };
                if better {
                    best = Some((start, end, common));
                }
            }
            i = end;
        }
    }
    match best {
        None => None,
        Some((bi, bj, _)) => Some((bi, bj)),
    }
}

/// Returns the form of the word translation that actually stands in the
/// sentence translation, so that the front end can highlight it by exact
/// occurrence; see `spec_align_word_translation`.
pub fn align_word_translation(word_translation: &str, sentence_translation: &str) -> (r: String)
    ensures
        r@ == spec_align_word_translation(word_translation@, sentence_translation@),
        r@.len() == 0 <==> trimmed(word_translation@).len() == 0,
        r@ != trimmed(word_translation@) ==> exists|i: int| #[trigger] occurs_at(sentence_translation@, r@, i),
{
    let wt_string = trim_string(word_translation);
    let wt = chars_of(wt_string.as_str());
    if wt.len() == 0 {
        let empty = String::new();
        assert(empty@ =~= trimmed(word_translation@));
        return empty;
    }
    let sentence = chars_of(sentence_translation);
    if occurs_in(&sentence, &wt) {
        return wt_string;
    }
    let needle_string = wt_string.as_str().to_lowercase();
    let needle = chars_of(needle_string.as_str());
    match find_ignoring_case(&sentence, &needle) {
        Some(start) => {
            proof {
                let i = choose|i: int| #[trigger] occurs_at_ignoring_case(sentence@, needle@, i) && forall|k: int| 0 <= k < i ==> !occurs_at_ignoring_case(sentence@, needle@, k);
                if i < start { assert(!occurs_at_ignoring_case(sentence@, needle@, i)); }
                if i > start { assert(!occurs_at_ignoring_case(sentence@, needle@, start as int)); }
            }
            assert(occurs_at_ignoring_case(sentence@, needle@, start as int));
            assert(start + needle.len() <= sentence.len());
            let found = string_of_range(&sentence, start, start + needle.len());
            proof {
                assert(occurs_at(sentence_translation@, found@, start as int));
            }
            return found;
        },
        None => {},
    }
    let stem_string = needle_string.as_str().to_lowercase();
    let stem = chars_of(stem_string.as_str());
    match find_best_token(&sentence, &stem) {
        Some((i, j)) => {
            proof {
                lemma_best_token_unique(sentence@, stem@, i as int, j as int);
            }
            let found = string_of_range(&sentence, i, j);
            proof {
                assert(occurs_at(sentence_translation@, found@, i as int));
            }
            found
        },
        None => wt_string,
    }
}

/// Only one token is the best one.
proof fn lemma_best_token_unique(s: Seq<char>, stem: Seq<char>, i: int, j: int)
    requires
        best_token(s, stem, i, j),
    ensures
        forall|a: int, b: int| #[trigger] best_token(s, stem, a, b) ==> a == i && b == j,
{
    assert forall|a: int, b: int| #[trigger] best_token(s, stem, a, b) implies a == i && b == j by {
        if a > i {
            assert(token_common(s, stem, a, b) < token_common(s, stem, i, j));
            assert(token_common(s, stem, i, j) <= token_common(s, stem, a, b));
        } else if a < i {
            assert(token_common(s, stem, i, j) < token_common(s, stem, a, b));
            assert(token_common(s, stem, a, b) <= token_common(s, stem, i, j));
        } else {
            if b < j {
                assert(is_word_char(s[b]));
            }
            if b > j {
                assert(is_word_char(s[j]));
            }
        }
    }
}


// ---------------------------------------------------------------------------
// Loosely typed answer fields
// ---------------------------------------------------------------------------

/// A JSON field of the model's answer whose type the model does not always
/// respect: a string, an array (its string items; `None` for items of
/// another type), `null`, or any other JSON value given by its JSON text.
pub enum ModelValue {
    Null,
    Text(String),
    List(Vec<Option<String>>),
    Other(String),
}

/// The trimmed, non-empty strings among `items`, in order.
pub open spec fn listed_strings(items: Seq<Option<String>>) -> Seq<Seq<char>>
    decreases items.len(),
{
    if items.len() == 0 {
        Seq::empty()
    } else {
        let rest = listed_strings(items.drop_last());
        match items.last() {
            Some(s) => if trimmed(s@).len() > 0 {
                rest.push(trimmed(s@))
            } else {
                rest
            },
            None => rest,
        }
    }
}

/// The pieces of `s` between commas (`str::split(',')`).
pub open spec fn comma_pieces(s: Seq<char>) -> Seq<Seq<char>>
    decreases s.len(),
{
    if s.len() == 0 {
        seq![Seq::empty()]
    } else {
        let rest = comma_pieces(s.drop_last());
        if s.last() == ',' {
            rest.push(Seq::empty())
        } else {
            rest.update(rest.len() - 1, rest.last().push(s.last()))
        }
    }
}

/// The trimmed, non-empty entries of `list`, in order.
pub open spec fn trimmed_entries(list: Seq<Seq<char>>) -> Seq<Seq<char>>
    decreases list.len(),
{
    if list.len() == 0 {
        Seq::empty()
    } else {
        let rest = trimmed_entries(list.drop_last());
        if trimmed(list.last()).len() > 0 {
            rest.push(trimmed(list.last()))
        } else {
            rest
        }
    }
}

/// `list` joined with `sep` between neighbours.
pub open spec fn joined(list: Seq<Seq<char>>, sep: Seq<char>) -> Seq<char>
    decreases list.len(),
{
    if list.len() == 0 {
        Seq::empty()
    } else if list.len() == 1 {
        list[0]
    } else {
        joined(list.drop_last(), sep) + sep + list.last()
    }
}

/// End of the run of `"` characters that starts at `i`.
pub open spec fn quote_run_end(s: Seq<char>, i: int) -> int
    decreases s.len() - i,
{
    if 0 <= i < s.len() && s[i] == '"' {
        quote_run_end(s, i + 1)
    } else {
        i
    }
}

/// Start of the run of `"` characters that ends at `j`, not going below `lo`.
pub open spec fn quote_run_start(s: Seq<char>, lo: int, j: int) -> int
    decreases j - lo,
{
    if lo < j <= s.len() && s[j - 1] == '"' {
        quote_run_start(s, lo, j - 1)
    } else {
        j
    }
}

/// `s` without any leading or trailing `"` (`str::trim_matches('"')`).
pub open spec fn without_quotes(s: Seq<char>) -> Seq<char> {
    let a = quote_run_end(s, 0);
    s.subrange(a, quote_run_start(s, a, s.len() as int))
}

proof fn lemma_quote_runs(s: Seq<char>, i: int, lo: int, j: int)
    requires
        0 <= i <= s.len(),
        0 <= lo <= j <= s.len(),
    ensures
        i <= quote_run_end(s, i) <= s.len(),
        lo <= quote_run_start(s, lo, j) <= j,
    decreases s.len() - i + j - lo,
{
    if i < s.len() && s[i] == '"' {
        lemma_quote_runs(s, i + 1, lo, j);
    } else if lo < j && s[j - 1] == '"' {
        lemma_quote_runs(s, i, lo, j - 1);
    }
}

/// The topic field as one string: a string trimmed; the strings of an array
/// trimmed, without empty ones, joined with ", "; nothing for `null`; the
/// JSON text of any other value without surrounding quotes.
pub open spec fn spec_topic_to_string(topic: ModelValue) -> Seq<char> {
    match topic {
        ModelValue::Text(t) => trimmed(t@),
        ModelValue::List(items) => joined(listed_strings(items@), seq![',', ' ']),
        ModelValue::Null => Seq::empty(),
        ModelValue::Other(json) => without_quotes(json@),
    }
}

/// The synonyms field as a list: the strings of an array, or the pieces of
/// a comma-separated string, trimmed and without empty ones; nothing for
/// any other value.
pub open spec fn spec_synonyms_to_vec(synonyms: ModelValue) -> Seq<Seq<char>> {
    match synonyms {
        ModelValue::List(items) => listed_strings(items@),
        ModelValue::Text(t) => trimmed_entries(comma_pieces(t@)),
        _ => Seq::empty(),
    }
}

fn listed(items: &Vec<Option<String>>) -> (r: Vec<String>)
    ensures
        string_views(r@) == listed_strings(items@),
{
    let mut out: Vec<String> = Vec::new();
    let mut i: usize = 0;
    while i < items.len()
        invariant
            i <= items.len(),
            string_views(out@) == listed_strings(items@.take(i as int)),
        decreases items.len() - i,
    {
        assert(items@.take(i + 1).drop_last() == items@.take(i as int));
        match &items[i] {
            Some(s) => {
                let t = trim_string(s.as_str());
                if !t.as_str().is_empty() {
                    out.push(t);
                }
            },
            None => {},
        }
        i = i + 1;
    }
    assert(items@.take(items.len() as int) == items@);
    out
}

fn split_commas(chars: &Vec<char>) -> (r: Vec<Vec<char>>)
    ensures
        r@.map_values(|v: Vec<char>| v@) == comma_pieces(chars@),
{
    let mut pieces: Vec<Vec<char>> = Vec::new();
    let mut current: Vec<char> = Vec::new();
    let mut i: usize = 0;
    while i < chars.len()
        invariant
            i <= chars.len(),
            pieces@.map_values(|v: Vec<char>| v@).push(current@) == comma_pieces(chars@.take(i as int)),
        decreases chars.len() - i,
    {
        assert(chars@.take(i + 1).drop_last() == chars@.take(i as int));
        let ghost before = pieces@.map_values(|v: Vec<char>| v@).push(current@);
        if chars[i] == ',' {
            let finished = current;
            pieces.push(finished);
            current = Vec::new();
            assert(pieces@.map_values(|v: Vec<char>| v@).push(current@) == before.push(Seq::empty()));
        } else {
            current.push(chars[i]);
            assert(pieces@.map_values(|v: Vec<char>| v@).push(current@) == before.update(before.len() - 1, before.last().push(chars@[i as int])));
        }
        i = i + 1;
    }
    pieces.push(current);
    assert(chars@.take(chars.len() as int) == chars@);
    pieces
}

fn trimmed_pieces(list: &Vec<Vec<char>>) -> (r: Vec<String>)
    ensures
        string_views(r@) == trimmed_entries(list@.map_values(|v: Vec<char>| v@)),
{
    let ghost lv = list@.map_values(|v: Vec<char>| v@);
    let mut out: Vec<String> = Vec::new();
    let mut i: usize = 0;
    while i < list.len()
        invariant
            lv == list@.map_values(|v: Vec<char>| v@),
            i <= list.len(),
            string_views(out@) == trimmed_entries(lv.take(i as int)),
        decreases list.len() - i,
    {
        assert(lv.take(i + 1).drop_last() == lv.take(i as int));
        let t = trim_chars(&list[i]);
        if t.len() > 0 {
            out.push(string_of(&t));
        }
        i = i + 1;
    }
    assert(lv.take(list.len() as int) == lv);
    out
}

pub(crate) fn join_strings(list: &Vec<String>, sep: &Vec<char>) -> (r: String)
    ensures
        r@ == joined(string_views(list@), sep@),
{
    let ghost lv = string_views(list@);
    let mut out: Vec<char> = Vec::new();
    let mut i: usize = 0;
    while i < list.len()
        invariant
            lv == string_views(list@),
            i <= list.len(),
            out@ == joined(lv.take(i as int), sep@),
        decreases list.len() - i,
    {
        assert(lv.take(i + 1).drop_last() == lv.take(i as int));
        let item = chars_of(list[i].as_str());
        if i > 0 {
            let mut k: usize = 0;
            let ghost base = out@;
            while k < sep.len()
                invariant
                    k <= sep.len(),
                    out@ == base + sep@.take(k as int),
                decreases sep.len() - k,
            {
                out.push(sep[k]);
                k = k + 1;
                assert(out@ == base + sep@.take(k as int));
            }
            assert(sep@.take(sep.len() as int) == sep@);
        }
        let mut k: usize = 0;
        let ghost base = out@;
        while k < item.len()
            invariant
                k <= item.len(),
                out@ == base + item@.take(k as int),
            decreases item.len() - k,
        {
            out.push(item[k]);
            k = k + 1;
            assert(out@ == base + item@.take(k as int));
        }
        assert(item@.take(item.len() as int) == item@);
        if i == 0 {
            assert(out@ == joined(lv.take(1), sep@));
        }
        i = i + 1;
    }
    assert(lv.take(list.len() as int) == lv);
    string_of(&out)
}

fn strip_quotes(s: &str) -> (r: String)
    ensures
        r@ == without_quotes(s@),
{
    let v = chars_of(s);
    proof {
        lemma_quote_runs(v@, 0, 0, 0);
    }
    let mut start: usize = 0;
    while start < v.len() && v[start] == '"'
        invariant
            start <= v.len(),
            quote_run_end(v@, 0) == quote_run_end(v@, start as int),
        decreases v.len() - start,
    {
        start = start + 1;
    }
    proof {
        lemma_quote_runs(v@, 0, start as int, v@.len() as int);
    }
    let mut end: usize = v.len();
    while end > start && v[end - 1] == '"'
        invariant
            start <= end <= v.len(),
            quote_run_start(v@, start as int, v@.len() as int) == quote_run_start(v@, start as int, end as int),
        decreases end,
    {
        end = end - 1;
    }
    string_of_range(&v, start, end)
}

/// The topic field as one string (see `spec_topic_to_string`).
pub fn topic_to_string(topic: &ModelValue) -> (r: String)
    ensures
        r@ == spec_topic_to_string(*topic),
{
    match topic {
        ModelValue::Text(text) => trim_string(text.as_str()),
        ModelValue::List(items) => {
            let strings = listed(items);
            let mut sep: Vec<char> = Vec::new();
            sep.push(',');
            sep.push(' ');
            assert(sep@ == seq![',', ' ']);
            join_strings(&strings, &sep)
        },
        ModelValue::Null => String::new(),
        ModelValue::Other(json) => strip_quotes(json.as_str()),
    }
}

/// The synonyms field as a list (see `spec_synonyms_to_vec`).
pub fn synonyms_to_vec(synonyms: &ModelValue) -> (r: Vec<String>)
    ensures
        string_views(r@) == spec_synonyms_to_vec(*synonyms),
{
    match synonyms {
        ModelValue::List(items) => listed(items),
        ModelValue::Text(text) => {
            let chars = chars_of(text.as_str());
            let pieces = split_commas(&chars);
            trimmed_pieces(&pieces)
        },
        _ => Vec::new(),
    }
}


// ---------------------------------------------------------------------------
// System prompt
// ---------------------------------------------------------------------------

/// The rules given to the model, up to the list of topics.
pub const PROMPT_HEAD: &'static str = r#"You are an English learning assistant. The user gives you an English sentence (extracted from the screen by OCR, so it may contain minor artifacts) and a target English word from it.

Reply with exactly one JSON object with these fields:
- "word": string. Copy the target word exactly as given.
- "sentence_translation": string. The complete, natural Russian translation of the WHOLE context sentence (or of the single word if the context is one word). Just the translation: no explanations, no alternatives, no transliteration.
- "word_translation": string. The natural Russian translation of the target word AS USED IN THIS CONTEXT, in the same grammatical form as it appears inside sentence_translation, so that this exact string occurs inside sentence_translation. Example: for "more" in "More instructions" it must be "Больше", not "более". NEVER transliterate the English word into Russian letters: the English word "armadillo" is "броненосец" in Russian, never "Армадилло" — such words do not exist in Russian.
- "meaning": string. ONE short simple English sentence at A1-A2 level, using only common words, that explains what the target word means in this context. Never use the target word itself inside meaning. Do not just repeat sentence_translation.
- "synonyms": array of English words that are TRUE synonyms of the target word in this context: they must be interchangeable with the target word in the SAME sentence with almost no change of meaning, and be the same part of speech. Words from the same category are NOT synonyms: for "armadillo" the words "crocodile" and "turtle" are different animals, not synonyms. If the word has no true synonyms — return an empty array []. Most concrete nouns (animals, objects, places) have no synonyms at all. Maximum 3 items. Never Russian words. Never the target word itself.
- "part_of_speech": string. Grammatical category of the word in this sentence (noun, verb, adjective, adverb, ...).
- "topic": string. EXACTLY one value from this list, nothing else: "#;

/// The rules given to the model, after the list of topics.
pub const PROMPT_TAIL: &'static str = r#"

Example reply for the word "run" in the sentence "He likes to run in the park every morning":
{"word":"run","sentence_translation":"Он любит бегать в парке каждое утро.","word_translation":"бегать","meaning":"He moves fast using his legs.","synonyms":["jog","sprint"],"part_of_speech":"verb","topic":"Спорт и физическая активность"}

Example reply for the word "armadillo" in "The armadillo rolled into a ball" (note the real Russian word, not a transliteration, and empty synonyms):
{"word":"armadillo","sentence_translation":"Броненосец свернулся в клубок.","word_translation":"Броненосец","meaning":"It is a small animal with a hard shell on its back.","synonyms":[],"part_of_speech":"noun","topic":"Природа и животные"}

Use the context to resolve ambiguity. Do not invent meanings unsupported by the context."#;

/// The views of all topics, in order.
pub open spec fn topic_views() -> Seq<Seq<char>> {
    Seq::new(30, |i: int| topic_at(i))
}

/// The system prompt: the rules with every topic named, separated by " / ".
/// Built from `TOPICS`, so the prompt and the answer schema cannot disagree.
pub fn system_prompt() -> (r: String)
    ensures
        r@ == PROMPT_HEAD@ + joined(topic_views(), seq![' ', '/', ' ']) + PROMPT_TAIL@,
{
    let mut topics: Vec<String> = Vec::new();
    let mut i: usize = 0;
    while i < 30
        invariant
            i <= 30,
            string_views(topics@) == topic_views().take(i as int),
        decreases 30 - i,
    {
        let t = chars_of(TOPICS[i]);
        assert(t@ == topic_at(i as int));
        let ghost before = topics@;
        topics.push(string_of(&t));
        assert(string_views(topics@) == string_views(before).push(topic_at(i as int)));
        i = i + 1;
        assert(topic_views().take(i as int) == topic_views().take(i - 1).push(topic_at(i - 1)));
    }
    assert(topic_views().take(30) == topic_views());
    let mut sep: Vec<char> = Vec::new();
    sep.push(' ');
    sep.push('/');
    sep.push(' ');
    assert(sep@ == seq![' ', '/', ' ']);
    let list = join_strings(&topics, &sep);
    let mut prompt = String::new();
    prompt.push_str(PROMPT_HEAD);
    prompt.push_str(list.as_str());
    prompt.push_str(PROMPT_TAIL);
    prompt
}

} // verus!
