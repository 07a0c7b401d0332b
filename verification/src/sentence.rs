//! Pieces of sentence assembly from recognised text: joining the words of
//! a phrase and recognising where a sentence ends.

use vstd::prelude::*;
use crate::lookup_text::{join_strings, joined, string_views, trimmed_entries};
use crate::text::{chars_of, lemma_trim_end_bounds, lemma_trim_start_bounds, trim_end_index, trim_start_index, trimmed, trim_string, unicode_whitespace};

verus! {

/// The texts of the parts, as character sequences.
pub open spec fn part_views(parts: Seq<&str>) -> Seq<Seq<char>> {
    parts.map_values(|p: &str| p@)
}

/// The recognised texts of a phrase joined into one line: each trimmed,
/// empty ones dropped, the rest separated by one space.
pub fn join_ocr_text(parts: &[&str]) -> (r: String)
    ensures
        r@ == joined(trimmed_entries(part_views(parts@)), seq![' ']),
{
    let ghost views = part_views(parts@);
    let mut kept: Vec<String> = Vec::new();
    let mut i: usize = 0;
    while i < parts.len()
        invariant
            views == part_views(parts@),
            i <= parts.len(),
            string_views(kept@) == trimmed_entries(views.take(i as int)),
        decreases parts.len() - i,
    {
        assert(views.take(i + 1).drop_last() == views.take(i as int));
        let text = trim_string(parts[i]);
        if !text.as_str().is_empty() {
            kept.push(text);
        }
        i = i + 1;
    }
    assert(views.take(parts.len() as int) == views);
    let mut sep: Vec<char> = Vec::new();
    sep.push(' ');
    assert(sep@ == seq![' ']);
    join_strings(&kept, &sep)
}

/// Closing quotes and brackets that may follow the end of a sentence.
pub open spec fn is_closing_mark(c: char) -> bool {
    c == '"' || c == '\'' || c == ')' || c == ']' || c == '}' || c == '»'
}

/// Characters that end a sentence.
pub open spec fn is_sentence_end(c: char) -> bool {
    c == '.' || c == '?' || c == '!' || c == ';' || c == ':' || c == '…'
}

/// `s` without its trailing closing marks.
pub open spec fn without_closing_marks(s: Seq<char>) -> Seq<char>
    decreases s.len(),
{
    if s.len() > 0 && is_closing_mark(s.last()) {
        without_closing_marks(s.drop_last())
    } else {
        s
    }
}

/// The trimmed text, once its closing quotes and brackets are dropped,
/// ends with `.`, `?`, `!`, `;`, `:` or `…`.
pub open spec fn spec_ends_sentence(text: Seq<char>) -> bool {
    let core = without_closing_marks(trimmed(text));
    core.len() > 0 && is_sentence_end(core.last())
}

/// Appending a character that is not white space keeps where the leading
/// white space ends, once the text holds something else.
proof fn lemma_trim_start_push(t: Seq<char>, m: char)
    requires
        trim_start_index(t) < t.len(),
    ensures
        trim_start_index(t.push(m)) == trim_start_index(t),
    decreases t.len(),
{
    if unicode_whitespace(t[0]) {
        assert(t.push(m).drop_first() == t.drop_first().push(m));
        lemma_trim_start_push(t.drop_first(), m);
    }
}

/// A text ending in `.`, `?`, `!`, `;`, `:` or `…` still ends a sentence once
/// a closing quote or bracket (`"`, `'`, `)`, `]`, `}`, `»`) follows it, as
/// in `'Stop.'` or `(see below.)`.
pub proof fn lemma_closing_mark_after_sentence_end(t: Seq<char>, m: char)
    requires
        t.len() > 0,
        t.last() == '.' || t.last() == '?' || t.last() == '!' || t.last() == ';' || t.last() == ':'
            || t.last() == '…',
        m == '"' || m == '\'' || m == ')' || m == ']' || m == '}' || m == '»',
    ensures
        spec_ends_sentence(t),
        spec_ends_sentence(t.push(m)),
{
    let u = t.push(m);
    lemma_trim_start_bounds(t);
    lemma_trim_end_bounds(t);
    assert(!unicode_whitespace(t.last()));
    assert(trim_end_index(t) == t.len());
    assert(trim_start_index(t) < t.len()) by {
        if trim_start_index(t) == t.len() {
            assert(unicode_whitespace(t[t.len() - 1]));
        }
    }
    lemma_trim_start_push(t, m);
    assert(!unicode_whitespace(m));
    assert(u.last() == m);
    assert(trim_end_index(u) == u.len());
    let start = trim_start_index(t);
    let core = t.subrange(start, t.len() as int);
    assert(trimmed(t) == core);
    assert(trimmed(u) =~= core.push(m));
    assert(core.push(m).drop_last() == core);
    assert(core.last() == t.last());
    assert(without_closing_marks(core) == core);
    assert(without_closing_marks(core.push(m)) == without_closing_marks(core));
}

/// Whether a recognised text ends a sentence, such as `"go."`, `wait;`,
/// `(see below).` or `«so?»`.
pub fn ends_sentence(text: &str) -> (r: bool)
    ensures
        r == spec_ends_sentence(text@),
{
    let chars = chars_of(trim_string(text).as_str());
    let mut end: usize = chars.len();
    assert(chars@.take(chars.len() as int) == chars@);
    while end > 0 && (chars[end - 1] == '"' || chars[end - 1] == '\'' || chars[end - 1] == ')' || chars[end
        - 1] == ']' || chars[end - 1] == '}' || chars[end - 1] == '»')
        invariant
            end <= chars.len(),
            without_closing_marks(chars@) == without_closing_marks(chars@.take(end as int)),
        decreases end,
    {
        assert(chars@.take(end as int).drop_last() == chars@.take(end - 1));
        end = end - 1;
    }
    assert(chars@.take(chars.len() as int) == chars@);
    assert(without_closing_marks(chars@.take(end as int)) == chars@.take(end as int));
    if end == 0 {
        return false;
    }
    let last = chars[end - 1];
    last == '.' || last == '?' || last == '!' || last == ';' || last == ':' || last == '…'
}

/// The part of visual line `l` that a sentence from position `start_pos`
/// of line `start_line` to position `end_pos` of line `end_line` covers:
/// from the start position on the first line (else from the line's first
/// box) to the end position on the last line (else to the line's last box).
pub open spec fn line_part(
    lines: Seq<Vec<usize>>,
    l: int,
    start_line: int,
    start_pos: int,
    end_line: int,
    end_pos: int,
) -> Seq<usize> {
    let line = lines[l]@;
    let from = if l == start_line { start_pos } else { 0 };
    let to = if l == end_line { end_pos } else { line.len() - 1 };
    if from <= to {
        line.subrange(from, to + 1)
    } else {
        Seq::empty()
    }
}

/// The boxes of the sentence on lines `start_line` up to `l`, `l` excluded,
/// in reading order.
pub open spec fn span_upto(
    lines: Seq<Vec<usize>>,
    start_line: int,
    start_pos: int,
    end_line: int,
    end_pos: int,
    l: int,
) -> Seq<usize>
    decreases l - start_line,
{
    if l <= start_line {
        Seq::empty()
    } else {
        span_upto(lines, start_line, start_pos, end_line, end_pos, l - 1) + line_part(
            lines,
            l - 1,
            start_line,
            start_pos,
            end_line,
            end_pos,
        )
    }
}

/// The boxes of a sentence that runs from position `start_pos` of visual
/// line `start_line` to position `end_pos` of line `end_line`, in reading
/// order: line by line, each line left to right.
pub fn span_boxes(lines: &Vec<Vec<usize>>, start_line: usize, start_pos: usize, end_line: usize, end_pos: usize) -> (r:
    Vec<usize>)
    requires
        start_line <= end_line < lines.len(),
        start_pos < lines@[start_line as int].len(),
        end_pos < lines@[end_line as int].len(),
        forall|l: int| start_line <= l <= end_line ==> #[trigger] lines@[l].len() > 0,
    ensures
        r@ == span_upto(lines@, start_line as int, start_pos as int, end_line as int, end_pos as int, end_line + 1),
{
    let ghost all = lines@;
    let mut boxes: Vec<usize> = Vec::new();
    let mut l: usize = start_line;
    while l <= end_line
        invariant
            all == lines@,
            start_line <= l <= end_line + 1,
            end_line < lines.len(),
            start_pos < lines@[start_line as int].len(),
            end_pos < lines@[end_line as int].len(),
            forall|k: int| start_line <= k <= end_line ==> #[trigger] lines@[k].len() > 0,
            boxes@ == span_upto(all, start_line as int, start_pos as int, end_line as int, end_pos as int, l as int),
        decreases end_line + 1 - l,
    {
        let line = &lines[l];
        assert(line.len() > 0);
        let from = if l == start_line {
            start_pos
        } else {
            0
        };
        let to = if l == end_line {
            end_pos
        } else {
            line.len() - 1
        };
        let ghost before = boxes@;
        if from <= to {
            let mut position = from;
            while position <= to
                invariant
                    from <= position <= to + 1,
                    to < line.len(),
                    boxes@ == before + line@.subrange(from as int, position as int),
                decreases to + 1 - position,
            {
                boxes.push(line[position]);
                assert(line@.subrange(from as int, position + 1) == line@.subrange(from as int, position as int).push(
                    line@[position as int],
                ));
                position = position + 1;
            }
        }
        proof {
            assert(boxes@ == before + line_part(all, l as int, start_line as int, start_pos as int, end_line as int, end_pos as int));
        }
        l = l + 1;
    }
    boxes
}

} // verus!
