//! Getting the JSON object out of a model's free-form reply: reasoning
//! blocks are cut out, and the first span from a `{` to the last `}` that
//! parses as JSON (once markdown fences are removed) is taken.

use vstd::prelude::*;
use crate::lookup_text::occurs_at;
use crate::lookup_text::string_views;
use crate::text::{chars_of, string_of, trim_chars, trimmed};

verus! {

// ---------------------------------------------------------------------------
// Searching and replacing
// ---------------------------------------------------------------------------

/// The first position at or after `from` where `pat` occurs (`str::find`
/// on the rest of the text).
pub open spec fn find_from(s: Seq<char>, pat: Seq<char>, from: int) -> Option<int>
    decreases s.len() + 1 - from,
{
    if from < 0 || from + pat.len() > s.len() {
        None
    } else if occurs_at(s, pat, from) {
        Some(from)
    } else {
        find_from(s, pat, from + 1)
    }
}

/// What `find_from` reports: an occurrence, the first one from `from`.
pub proof fn lemma_find_from(s: Seq<char>, pat: Seq<char>, from: int)
    requires
        0 <= from,
    ensures
        find_from(s, pat, from) matches Some(i) ==> from <= i && occurs_at(s, pat, i) && forall|k: int|
            from <= k < i ==> !occurs_at(s, pat, k),
        find_from(s, pat, from) is None ==> forall|k: int| from <= k ==> !occurs_at(s, pat, k),
    decreases s.len() + 1 - from,
{
    if from < 0 || from + pat.len() > s.len() {
    } else if occurs_at(s, pat, from) {
    } else {
        lemma_find_from(s, pat, from + 1);
    }
}

/// `s` with every occurrence of `pat` from `from` on replaced by `rep`,
/// scanning left to right (`str::replace`).
pub open spec fn replace_from(s: Seq<char>, pat: Seq<char>, rep: Seq<char>, from: int) -> Seq<char>
    decreases s.len() + 1 - from,
{
    if pat.len() == 0 || from < 0 || from > s.len() {
        s.subrange(from, s.len() as int)
    } else {
        match find_from(s, pat, from) {
            Some(j) => {
                proof {
                    lemma_find_from(s, pat, from);
                }
                s.subrange(from, j) + rep + replace_from(s, pat, rep, j + pat.len())
            },
            None => s.subrange(from, s.len() as int),
        }
    }
}

/// `str::replace` of a non-empty pattern.
pub open spec fn replace_all(s: Seq<char>, pat: Seq<char>, rep: Seq<char>) -> Seq<char> {
    replace_from(s, pat, rep, 0)
}

/// Compares `pat` with `s` at position `i`.
fn occurs_at_exec(s: &Vec<char>, pat: &Vec<char>, i: usize) -> (r: bool)
    ensures
        r == occurs_at(s@, pat@, i as int),
{
    if i > s.len() || pat.len() > s.len() - i {
        return false;
    }
    let mut k: usize = 0;
    while k < pat.len()
        invariant
            i + pat.len() <= s.len(),
            k <= pat.len(),
            forall|m: int| 0 <= m < k ==> s@[i + m] == pat@[m],
        decreases pat.len() - k,
    {
        if s[i + k] != pat[k] {
            assert(s@.subrange(i as int, i + pat.len())[k as int] != pat@[k as int]);
            return false;
        }
        k = k + 1;
    }
    assert(s@.subrange(i as int, i + pat.len()) == pat@);
    true
}

/// `str::find` from a position.
fn find_exec(s: &Vec<char>, pat: &Vec<char>, from: usize) -> (r: Option<usize>)
    ensures
        match r {
            Some(i) => find_from(s@, pat@, from as int) == Some(i as int),
            None => find_from(s@, pat@, from as int) is None,
        },
{
    if from > s.len() {
        return None;
    }
    let mut i: usize = from;
    loop
        invariant
            from <= i <= s.len(),
            find_from(s@, pat@, from as int) == find_from(s@, pat@, i as int),
        decreases s.len() - i,
    {
        if pat.len() > s.len() - i {
            return None;
        }
        if occurs_at_exec(s, pat, i) {
            return Some(i);
        }
        assert(pat.len() > 0) by {
            if pat.len() == 0 {
                assert(s@.subrange(i as int, i as int) == pat@);
            }
        }
        i = i + 1;
    }
}

/// `str::replace` of a non-empty pattern.
fn replace_exec(s: &Vec<char>, pat: &Vec<char>, rep: &Vec<char>) -> (r: Vec<char>)
    requires
        pat.len() > 0,
    ensures
        r@ == replace_all(s@, pat@, rep@),
{
    let mut out: Vec<char> = Vec::new();
    let mut pos: usize = 0;
    loop
        invariant
            pat.len() > 0,
            pos <= s.len(),
            out@ + replace_from(s@, pat@, rep@, pos as int) == replace_all(s@, pat@, rep@),
        decreases s.len() + 1 - pos,
    {
        let found = find_exec(s, pat, pos);
        proof {
            lemma_find_from(s@, pat@, pos as int);
        }
        match found {
            Some(j) => {
                let ghost before = out@;
                let mut k: usize = pos;
                while k < j
                    invariant
                        pos <= k <= j <= s.len(),
                        out@ == before + s@.subrange(pos as int, k as int),
                    decreases j - k,
                {
                    out.push(s[k]);
                    k = k + 1;
                    assert(out@ == before + s@.subrange(pos as int, k as int));
                }
                let mut k: usize = 0;
                let ghost mid = out@;
                while k < rep.len()
                    invariant
                        k <= rep.len(),
                        out@ == mid + rep@.subrange(0, k as int),
                    decreases rep.len() - k,
                {
                    out.push(rep[k]);
                    k = k + 1;
                    assert(out@ == mid + rep@.subrange(0, k as int));
                }
                assert(rep@.subrange(0, rep.len() as int) == rep@);
                assert(out@ == before + s@.subrange(pos as int, j as int) + rep@);
                assert(before + replace_from(s@, pat@, rep@, pos as int) == out@ + replace_from(
                    s@,
                    pat@,
                    rep@,
                    j + pat.len(),
                ));
                pos = j + pat.len();
            },
            None => {
                let ghost before = out@;
                let mut k: usize = pos;
                while k < s.len()
                    invariant
                        pos <= k <= s.len(),
                        out@ == before + s@.subrange(pos as int, k as int),
                    decreases s.len() - k,
                {
                    out.push(s[k]);
                    k = k + 1;
                    assert(out@ == before + s@.subrange(pos as int, k as int));
                }
                return out;
            },
        }
    }
}

// ---------------------------------------------------------------------------
// Reasoning blocks
// ---------------------------------------------------------------------------

/// `s` without its reasoning blocks: while the first opening tag comes
/// before the first closing tag, the text from the opening tag to the end
/// of the closing tag is cut out.
pub open spec fn without_tag_blocks(s: Seq<char>, open: Seq<char>, close: Seq<char>) -> Seq<char>
    decreases s.len(),
{
    let a = find_from(s, open, 0);
    let b = find_from(s, close, 0);
    if close.len() > 0 && a is Some && b is Some && b->0 > a->0 {
        proof {
            lemma_find_from(s, open, 0);
            lemma_find_from(s, close, 0);
        }
        without_tag_blocks(s.subrange(0, a->0) + s.subrange(b->0 + close.len(), s.len() as int), open, close)
    } else {
        s
    }
}

fn cut_tag_blocks(text: Vec<char>, open: &Vec<char>, close: &Vec<char>) -> (r: Vec<char>)
    ensures
        r@ == without_tag_blocks(text@, open@, close@),
{
    let ghost initial = text@;
    let mut s = text;
    loop
        invariant
            initial == text@,
            without_tag_blocks(s@, open@, close@) == without_tag_blocks(initial, open@, close@),
        decreases s.len(),
    {
        let a = find_exec(&s, open, 0);
        let b = find_exec(&s, close, 0);
        match (a, b) {
            (Some(start), Some(end)) => {
                if close.len() > 0 && end > start {
                    proof {
                        lemma_find_from(s@, open@, 0);
                        lemma_find_from(s@, close@, 0);
                    }
                    let mut next: Vec<char> = Vec::new();
                    let mut k: usize = 0;
                    while k < start
                        invariant
                            k <= start <= s.len(),
                            next@ == s@.subrange(0, k as int),
                        decreases start - k,
                    {
                        next.push(s[k]);
                        k = k + 1;
                    }
                    let mut k: usize = end + close.len();
                    let ghost head = next@;
                    while k < s.len()
                        invariant
                            end + close.len() <= k <= s.len(),
                            next@ == head + s@.subrange(end + close.len(), k as int),
                        decreases s.len() - k,
                    {
                        next.push(s[k]);
                        k = k + 1;
                        assert(next@ == head + s@.subrange(end + close.len(), k as int));
                    }
                    assert(next@ == s@.subrange(0, start as int) + s@.subrange(
                        end + close.len(),
                        s.len() as int,
                    ));
                    s = next;
                } else {
                    assert(without_tag_blocks(s@, open@, close@) == s@);
                    assert(s@ == without_tag_blocks(initial, open@, close@));
                    return s;
                }
            },
            _ => {
                assert(without_tag_blocks(s@, open@, close@) == s@);
                assert(s@ == without_tag_blocks(initial, open@, close@));
                return s;
            },
        }
    }
}


// ---------------------------------------------------------------------------
// Candidates
// ---------------------------------------------------------------------------

/// Position of the last `}` among the first `n` characters.
pub open spec fn last_close_brace_upto(t: Seq<char>, n: int) -> Option<int>
    decreases n,
{
    if n <= 0 {
        None
    } else if t[n - 1] == '}' {
        Some(n - 1)
    } else {
        last_close_brace_upto(t, n - 1)
    }
}

/// Position of the last `}` (`str::rfind('}')`).
pub open spec fn last_close_brace(t: Seq<char>) -> Option<int> {
    last_close_brace_upto(t, t.len() as int)
}

/// A span without markdown fences: every "```json", then every "```"
/// removed, and the rest trimmed.
pub open spec fn without_fences(c: Seq<char>) -> Seq<char> {
    trimmed(replace_all(replace_all(c, "```json"@, Seq::empty()), "```"@, Seq::empty()))
}

/// The cleaned spans that start at a `{` among the first `n` characters
/// and end at the last `}` of the text, in order.
pub open spec fn candidates_upto(t: Seq<char>, n: int) -> Seq<Seq<char>>
    decreases n,
{
    if n <= 0 {
        Seq::empty()
    } else {
        let rest = candidates_upto(t, n - 1);
        let i = n - 1;
        if t[i] == '{' && last_close_brace(t) is Some && last_close_brace(t)->0 > i {
            rest.push(without_fences(t.subrange(i, last_close_brace(t)->0 + 1)))
        } else {
            rest
        }
    }
}

/// The reply with its reasoning blocks cut out, trimmed.
pub open spec fn reply_body(raw: Seq<char>, open: Seq<char>, close: Seq<char>) -> Seq<char> {
    trimmed(without_tag_blocks(raw, open, close))
}

/// Every span of the reply that may hold its JSON object, in the order they
/// are tried: for each `{` of the reply body, the text from it to the last
/// `}`, without markdown fences and trimmed.
pub open spec fn spec_json_candidates(raw: Seq<char>, open: Seq<char>, close: Seq<char>) -> Seq<Seq<char>> {
    let t = reply_body(raw, open, close);
    candidates_upto(t, t.len() as int)
}

proof fn lemma_last_close_brace(t: Seq<char>, n: int)
    requires
        0 <= n <= t.len(),
    ensures
        last_close_brace_upto(t, n) matches Some(l) ==> 0 <= l < n && t[l] == '}' && forall|k: int|
            l < k < n ==> t[k] != '}',
        last_close_brace_upto(t, n) is None ==> forall|k: int| 0 <= k < n ==> t[k] != '}',
    decreases n,
{
    if n > 0 && t[n - 1] != '}' {
        lemma_last_close_brace(t, n - 1);
    }
}

fn remove_fences(c: &Vec<char>) -> (r: Vec<char>)
    ensures
        r@ == without_fences(c@),
{
    proof {
        reveal_strlit("```json");
        reveal_strlit("```");
    }
    let json_fence = chars_of("```json");
    let fence = chars_of("```");
    let empty: Vec<char> = Vec::new();
    assert(empty@ == Seq::<char>::empty());
    let first = replace_exec(c, &json_fence, &empty);
    let second = replace_exec(&first, &fence, &empty);
    trim_chars(&second)
}

/// The spans of a reply that may hold its JSON object, in the order they
/// are tried (see `spec_json_candidates`); `open_tag` and `close_tag`
/// delimit the reasoning blocks that are cut out first.
pub fn json_candidates(raw: &str, open_tag: &str, close_tag: &str) -> (r: Vec<String>)
    ensures
        string_views(r@) == spec_json_candidates(raw@, open_tag@, close_tag@),
{
    let open = chars_of(open_tag);
    let close = chars_of(close_tag);
    let body = cut_tag_blocks(chars_of(raw), &open, &close);
    let t = trim_chars(&body);
    let mut last: usize = t.len();
    while last > 0 && t[last - 1] != '}'
        invariant
            last <= t.len(),
            last_close_brace_upto(t@, t.len() as int) == last_close_brace_upto(t@, last as int),
        decreases last,
    {
        last = last - 1;
    }
    let mut out: Vec<String> = Vec::new();
    let mut i: usize = 0;
    while i < t.len()
        invariant
            i <= t.len(),
            last <= t.len(),
            last_close_brace(t@) == if last == 0 {
                None
            } else {
                Some(last - 1)
            },
            string_views(out@) == candidates_upto(t@, i as int),
        decreases t.len() - i,
    {
        if t[i] == '{' && last > 0 && last - 1 > i {
            let mut span: Vec<char> = Vec::new();
            let mut k: usize = i;
            while k < last
                invariant
                    i <= k <= last <= t.len(),
                    span@ == t@.subrange(i as int, k as int),
                decreases last - k,
            {
                span.push(t[k]);
                k = k + 1;
            }
            let cleaned = remove_fences(&span);
            out.push(string_of(&cleaned));
        }
        i = i + 1;
    }
    out
}

// ---------------------------------------------------------------------------
// Extraction
// ---------------------------------------------------------------------------

/// Whether `serde_json` parses the text as a JSON value.
pub uninterp spec fn json_parses(text: Seq<char>) -> bool;

/// `serde_json::from_str::<serde_json::Value>` succeeds on the text.
#[verifier::external_body]
fn is_json(text: &str) -> (r: bool)
    ensures
        r == json_parses(text@),
{
    serde_json::from_str::<serde_json::Value>(text).is_ok()
}

/// The first candidate that parses as JSON.
pub open spec fn first_parsing(cands: Seq<Seq<char>>) -> Option<Seq<char>>
    decreases cands.len(),
{
    if cands.len() == 0 {
        None
    } else if json_parses(cands[0]) {
        Some(cands[0])
    } else {
        first_parsing(cands.drop_first())
    }
}

/// The JSON object of a reply: the first candidate span that parses, or
/// `{}` when none does.
pub open spec fn spec_extract_json(raw: Seq<char>, open: Seq<char>, close: Seq<char>) -> Seq<char> {
    match first_parsing(spec_json_candidates(raw, open, close)) {
        Some(c) => c,
        None => "{}"@,
    }
}

/// The first of the candidates that parses as JSON, or `{}`.
pub fn first_json(candidates: &Vec<String>) -> (r: String)
    ensures
        r@ == match first_parsing(string_views(candidates@)) {
            Some(c) => c,
            None => "{}"@,
        },
{
    let ghost views = string_views(candidates@);
    assert(views.subrange(0, views.len() as int) == views);
    let mut i: usize = 0;
    while i < candidates.len()
        invariant
            views == string_views(candidates@),
            i <= candidates.len(),
            first_parsing(views) == first_parsing(views.subrange(i as int, views.len() as int)),
        decreases candidates.len() - i,
    {
        let ghost rest = views.subrange(i as int, views.len() as int);
        assert(rest.drop_first() == views.subrange(i + 1, views.len() as int));
        if is_json(candidates[i].as_str()) {
            return candidates[i].clone();
        }
        i = i + 1;
    }
    assert(views.subrange(i as int, views.len() as int).len() == 0);
    "{}".to_string()
}

/// The JSON object of a reply whose reasoning is wrapped in
/// `<thinking>` tags.
pub fn extract_json(raw: &str) -> (r: String)
    ensures
        r@ == spec_extract_json(raw@, "<thinking>"@, "</thinking>"@),
{
    first_json(&json_candidates(raw, "<thinking>", "</thinking>"))
}

/// The JSON object of a reply whose reasoning is wrapped in `<think>` tags.
pub fn extract_reply_json(raw: &str) -> (r: String)
    ensures
        r@ == spec_extract_json(raw@, "<think>"@, "</think>"@),
{
    first_json(&json_candidates(raw, "<think>", "</think>"))
}

} // verus!
