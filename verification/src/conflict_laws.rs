//! What holds of a text after its unwanted lines were cleared.

use vstd::prelude::*;
use crate::conflicts::{
    conflict_entry, conflicts_among, ending_at, final_ending, is_unwanted, kept_from,
    kept_solid_from, lemma_conflicts_membership, lemma_detected_lines_are_unwanted,
    lemma_kept_ends_line, line_at, without_lines,
};
use crate::document::{
    closing, ends_with_newline, marker, opening, outside_of, replaced, suffix_of, terminated,
};
use crate::document_laws::{
    front_of, lemma_marker_shape, lemma_marker_skips_newline, lemma_replaced_layout,
};
use crate::lines::{
    lemma_line_break_bounds, lemma_trim_idempotent, line_break, line_end, lines, lines_from,
    next_line, skip_space, skip_space_back, trim, white_space,
};
use crate::region::CatalogModel;
use crate::text::{contains, lemma_first_match_from_spec, lemma_first_match_is, occurs_at};

verus! {

/// The first line feed at or after `from` is where no character before it
/// is one.
proof fn lemma_line_break_is(s: Seq<char>, from: int, e: int)
    requires
        0 <= from <= e <= s.len(),
        forall|k: int| from <= k < e ==> s[k] != '\n',
        e < s.len() ==> s[e] == '\n',
    ensures
        line_break(s, from) == e,
    decreases e - from,
{
    if from < e {
        lemma_line_break_is(s, from + 1, e);
    }
}

/// The line feeds of the second of two joined texts stand where they stood,
/// moved by the length of the first.
proof fn lemma_line_break_shift(pre: Seq<char>, rest: Seq<char>, j: int)
    requires
        0 <= j <= rest.len(),
    ensures
        line_break(pre + rest, pre.len() + j) == pre.len() + line_break(rest, j),
{
    lemma_line_break_bounds(rest, j);
    let e = line_break(rest, j);
    assert forall|k: int| pre.len() + j <= k < pre.len() + e implies (pre + rest)[k] != '\n' by {
        assert((pre + rest)[k] == rest[k - pre.len()]);
    }
    if e < rest.len() {
        assert((pre + rest)[pre.len() + e] == rest[e]);
    }
    lemma_line_break_is(pre + rest, pre.len() + j, pre.len() + e);
}

/// The lines of the second of two joined texts are its lines, where the
/// first ends its last line.
proof fn lemma_lines_shift(pre: Seq<char>, rest: Seq<char>, j: int)
    requires
        0 <= j <= rest.len(),
    ensures
        lines_from(pre + rest, pre.len() + j) == lines_from(rest, j),
    decreases rest.len() - j,
{
    let s = pre + rest;
    let from = pre.len() + j;
    if j < rest.len() {
        lemma_line_break_shift(pre, rest, j);
        lemma_line_break_bounds(rest, j);
        let e = line_break(rest, j);
        if j < e {
            assert(s[pre.len() + e - 1] == rest[e - 1]);
        }
        assert(line_end(s, from) == pre.len() + line_end(rest, j));
        assert(next_line(s, from) == pre.len() + next_line(rest, j));
        assert(s.subrange(from, line_end(s, from)) =~= rest.subrange(j, line_end(rest, j)));
        lemma_lines_shift(pre, rest, next_line(rest, j));
    }
}

/// `content` holds no line feed, and `ending` is a line ending that ends it:
/// a line feed that follows no carriage return, or a carriage return and a
/// line feed.
pub open spec fn is_segment(content: Seq<char>, ending: Seq<char>) -> bool {
    &&& forall|k: int| 0 <= k < content.len() ==> content[k] != '\n'
    &&& {
        ||| ending == seq!['\r', '\n']
        ||| ending == seq!['\n'] && (content.len() == 0 || content.last() != '\r')
    }
}

/// A text that starts with a line and its line ending has that line as its
/// first, and then the lines of what follows.
proof fn lemma_lines_of_segment(content: Seq<char>, ending: Seq<char>, rest: Seq<char>)
    requires
        is_segment(content, ending),
    ensures
        lines(content + ending + rest) == seq![content] + lines(rest),
{
    let pre = content + ending;
    let s = pre + rest;
    let e = pre.len() - 1;
    assert(s[e] == '\n');
    assert forall|k: int| 0 <= k < e implies s[k] != '\n' by {
        if k < content.len() {
            assert(s[k] == content[k]);
        }
    }
    lemma_line_break_is(s, 0, e);
    if ending.len() == 2 {
        assert(s[e - 1] == '\r');
    } else if content.len() > 0 {
        assert(s[e - 1] == content.last());
    }
    assert(line_end(s, 0) == content.len());
    assert(s.subrange(0, content.len() as int) =~= content);
    lemma_lines_shift(pre, rest, 0);
}

/// A text without line feed is its only line; an empty text has no line.
proof fn lemma_lines_of_bare(content: Seq<char>)
    requires
        forall|k: int| 0 <= k < content.len() ==> content[k] != '\n',
    ensures
        lines(content) == if content.len() == 0 {
            Seq::<Seq<char>>::empty()
        } else {
            seq![content]
        },
{
    if content.len() > 0 {
        lemma_line_break_is(content, 0, content.len() as int);
        assert(content.subrange(0, content.len() as int) =~= content);
        assert(lines_from(content, content.len() as int) =~= Seq::<Seq<char>>::empty());
    }
}

/// The line that starts at `from` and its line ending are what a line and a
/// line ending are; the line ending is missing only where the text ends.
proof fn lemma_line_is_segment(s: Seq<char>, from: int)
    requires
        0 <= from < s.len(),
    ensures
        forall|k: int| 0 <= k < line_at(s, from).len() ==> line_at(s, from)[k] != '\n',
        ending_at(s, from).len() > 0 ==> is_segment(line_at(s, from), ending_at(s, from)),
        ending_at(s, from).len() == 0 ==> next_line(s, from) == s.len() && line_at(s, from).len()
            > 0,
        lines_from(s, from) == seq![line_at(s, from)] + lines_from(s, next_line(s, from)),
{
    lemma_line_break_bounds(s, from);
    let e = line_break(s, from);
    let content = line_at(s, from);
    assert forall|k: int| 0 <= k < content.len() implies content[k] != '\n' by {
        assert(content[k] == s[from + k]);
    }
    if e < s.len() {
        if from < e && s[e - 1] == '\r' {
            assert(ending_at(s, from) =~= seq!['\r', '\n']);
        } else {
            assert(ending_at(s, from) =~= seq!['\n']);
            if content.len() > 0 {
                assert(content.last() == s[e - 1]);
            }
        }
    }
}

/// `line` is empty, or it is one of `among` and not unwanted.
pub open spec fn is_kept_line(
    unwanted: Seq<Seq<char>>,
    among: Seq<Seq<char>>,
    line: Seq<char>,
) -> bool {
    line.len() == 0 || (!is_unwanted(unwanted, line) && among.contains(line))
}

/// Every line of `text` is empty, or one of `among` and not unwanted.
pub open spec fn has_kept_lines(
    unwanted: Seq<Seq<char>>,
    among: Seq<Seq<char>>,
    text: Seq<char>,
) -> bool {
    forall|i: int| 0 <= i < lines(text).len() ==> is_kept_line(unwanted, among, #[trigger] lines(text)[i])
}

/// What holds of the lines from the next line on holds of the lines from
/// this line on.
proof fn lemma_kept_lines_widen(
    unwanted: Seq<Seq<char>>,
    s: Seq<char>,
    from: int,
    text: Seq<char>,
)
    requires
        0 <= from < s.len(),
        has_kept_lines(unwanted, lines_from(s, next_line(s, from)), text),
    ensures
        has_kept_lines(unwanted, lines_from(s, from), text),
{
    lemma_line_is_segment(s, from);
    let narrow = lines_from(s, next_line(s, from));
    let wide = lines_from(s, from);
    assert forall|i: int| 0 <= i < lines(text).len() implies is_kept_line(
        unwanted,
        wide,
        #[trigger] lines(text)[i],
    ) by {
        let line = lines(text)[i];
        if line.len() > 0 {
            let k = choose|k: int| 0 <= k < narrow.len() && narrow[k] == line;
            assert(wide[k + 1] == line);
        }
    }
}

/// Every line of what is kept is a line of the text that is not unwanted.
proof fn lemma_kept_has_kept_lines(s: Seq<char>, unwanted: Seq<Seq<char>>, from: int)
    requires
        0 <= from <= s.len(),
    ensures
        has_kept_lines(unwanted, lines_from(s, from), kept_from(s, unwanted, from)),
    decreases s.len() - from,
{
    if from < s.len() {
        lemma_line_break_bounds(s, from);
        lemma_line_is_segment(s, from);
        let next = next_line(s, from);
        let rest = kept_from(s, unwanted, next);
        let line = line_at(s, from);
        let ending = ending_at(s, from);
        lemma_kept_has_kept_lines(s, unwanted, next);
        lemma_kept_lines_widen(unwanted, s, from, rest);
        if !is_unwanted(unwanted, line) {
            assert(lines_from(s, from)[0] == line);
            if ending.len() > 0 {
                lemma_lines_of_segment(line, ending, rest);
                assert(kept_from(s, unwanted, from) =~= line + ending + rest);
            } else {
                assert(rest =~= Seq::<char>::empty());
                assert(kept_from(s, unwanted, from) =~= line);
                lemma_lines_of_bare(line);
            }
        } else {
            assert(kept_from(s, unwanted, from) =~= rest);
        }
    } else {
        lemma_lines_of_bare(Seq::<char>::empty());
    }
}

/// Every line of what is kept up to the last line that is not empty is a
/// line of the text that is not unwanted.
proof fn lemma_solid_has_kept_lines(s: Seq<char>, unwanted: Seq<Seq<char>>, from: int)
    requires
        0 <= from <= s.len(),
    ensures
        has_kept_lines(unwanted, lines_from(s, from), kept_solid_from(s, unwanted, from)),
    decreases s.len() - from,
{
    if from < s.len() {
        lemma_line_break_bounds(s, from);
        lemma_line_is_segment(s, from);
        let next = next_line(s, from);
        let rest = kept_solid_from(s, unwanted, next);
        let line = line_at(s, from);
        let ending = ending_at(s, from);
        lemma_solid_has_kept_lines(s, unwanted, next);
        lemma_kept_lines_widen(unwanted, s, from, rest);
        if !is_unwanted(unwanted, line) {
            assert(lines_from(s, from)[0] == line);
            if rest.len() == 0 {
                lemma_lines_of_bare(line);
            } else {
                lemma_lines_of_segment(line, ending, rest);
            }
        }
    } else {
        lemma_lines_of_bare(Seq::<char>::empty());
    }
}

/// After the unwanted lines of a text were cleared, every line of it is a
/// line that it had before and that is not unwanted, or is empty.
pub proof fn lemma_cleared_has_kept_lines(text: Seq<char>, unwanted: Seq<Seq<char>>)
    ensures
        has_kept_lines(unwanted, lines(text), without_lines(text, unwanted)),
{
    if !ends_with_newline(text) {
        lemma_solid_has_kept_lines(text, unwanted, 0);
    } else if kept_from(text, unwanted, 0).len() == 0 {
        let ending = final_ending(text);
        lemma_lines_of_segment(Seq::empty(), ending, Seq::empty());
        lemma_lines_of_bare(Seq::empty());
        assert(Seq::<char>::empty() + ending + Seq::<char>::empty() =~= ending);
    } else {
        lemma_kept_has_kept_lines(text, unwanted, 0);
    }
}

/// Once the entries that were detected among the lines of a text are
/// cleared from it, no entry is detected among its lines.
pub proof fn lemma_nothing_detected_after_clearing(catalog: CatalogModel, text: Seq<char>)
    ensures
        conflicts_among(
            catalog,
            lines(without_lines(text, conflicts_among(catalog, lines(text)))),
        ).len() == 0,
{
    let detected = conflicts_among(catalog, lines(text));
    let cleared = without_lines(text, detected);
    let after = conflicts_among(catalog, lines(cleared));
    lemma_cleared_has_kept_lines(text, detected);
    if after.len() > 0 {
        let entry = after[0];
        lemma_conflicts_membership(catalog, lines(cleared), entry);
        assert(after.contains(entry));
        let i = choose|i: int|
            0 <= i < lines(cleared).len() && conflict_entry(catalog, #[trigger] lines(cleared)[i])
                == Some(entry);
        let line = lines(cleared)[i];
        assert(is_kept_line(detected, lines(text), line));
        assert(line.len() > 0);
        let k = choose|k: int| 0 <= k < lines(text).len() && lines(text)[k] == line;
        lemma_detected_lines_are_unwanted(catalog, lines(text), k);
    }
}

/// Every line of a text stands in the text.
proof fn lemma_line_stands_in_text(s: Seq<char>, from: int, k: int)
    requires
        0 <= from <= s.len(),
        0 <= k < lines_from(s, from).len(),
    ensures
        exists|a: int, b: int|
            from <= a <= b <= s.len() && #[trigger] s.subrange(a, b) == lines_from(s, from)[k],
    decreases s.len() - from,
{
    lemma_line_break_bounds(s, from);
    lemma_line_is_segment(s, from);
    if k == 0 {
        assert(s.subrange(from, line_end(s, from)) == lines_from(s, from)[0]);
    } else {
        let next = next_line(s, from);
        lemma_line_stands_in_text(s, next, k - 1);
        assert(lines_from(s, from)[k] == lines_from(s, next)[k - 1]);
        let (a, b) = choose|a: int, b: int|
            next <= a <= b <= s.len() && #[trigger] s.subrange(a, b) == lines_from(s, next)[k - 1];
        assert(from <= a <= b <= s.len() && s.subrange(a, b) == lines_from(s, from)[k]);
    }
}

/// What one of the lines of a text holds, the text holds.
proof fn lemma_held_by_line_held_by_text(s: Seq<char>, pat: Seq<char>, k: int)
    requires
        0 <= k < lines(s).len(),
        contains(lines(s)[k], pat),
    ensures
        contains(s, pat),
{
    lemma_line_stands_in_text(s, 0, k);
    let (a, b) = choose|a: int, b: int|
        0 <= a <= b <= s.len() && #[trigger] s.subrange(a, b) == lines(s)[k];
    let j = choose|j: int| occurs_at(lines(s)[k], pat, j);
    assert(s.subrange(a + j, a + j + pat.len()) =~= s.subrange(a, b).subrange(j, j + pat.len()));
    assert(occurs_at(s, pat, a + j));
}

/// `pat` is not empty and holds neither a line feed nor a carriage return.
pub open spec fn is_within_line(pat: Seq<char>) -> bool {
    pat.len() > 0 && forall|k: int| 0 <= k < pat.len() ==> pat[k] != '\n' && pat[k] != '\r'
}

/// What a text holds within a line, one of its lines holds.
proof fn lemma_held_by_text_held_by_line(s: Seq<char>, pat: Seq<char>, from: int, j: int)
    requires
        is_within_line(pat),
        0 <= from <= j,
        occurs_at(s, pat, j),
    ensures
        exists|k: int| 0 <= k < lines_from(s, from).len() && contains(#[trigger] lines_from(s, from)[k], pat),
    decreases s.len() - from,
{
    lemma_line_break_bounds(s, from);
    lemma_line_is_segment(s, from);
    let e = line_break(s, from);
    let end = line_end(s, from);
    let m = pat.len() as int;
    if j < next_line(s, from) {
        assert forall|i: int| j <= i < j + m implies s[i] != '\n' && s[i] != '\r' by {
            assert(s.subrange(j, j + m)[i - j] == s[i]);
        }
        assert(j + m <= end) by {
            if j + m > end {
                if end < s.len() {
                    if j <= end {
                        assert(s[end] == '\n' || s[end] == '\r');
                    } else {
                        assert(j == e);
                        assert(s[e] == '\n');
                    }
                }
            }
        }
        let line = line_at(s, from);
        assert(line.subrange(j - from, j - from + m) =~= s.subrange(j, j + m));
        assert(occurs_at(line, pat, j - from));
        assert(lines_from(s, from)[0] == line);
    } else {
        let next = next_line(s, from);
        lemma_held_by_text_held_by_line(s, pat, next, j);
        let k = choose|k: int|
            0 <= k < lines_from(s, next).len() && contains(#[trigger] lines_from(s, next)[k], pat);
        assert(lines_from(s, from)[k + 1] == lines_from(s, next)[k]);
    }
}

/// Clearing lines from a text that holds no marker gives a text that holds
/// none.
pub proof fn lemma_clearing_makes_no_marker(text: Seq<char>, unwanted: Seq<Seq<char>>)
    requires
        !contains(text, marker()),
    ensures
        !contains(without_lines(text, unwanted), marker()),
{
    let cleared = without_lines(text, unwanted);
    reveal_strlit("# --+ Make Your Choice +--");
    if contains(cleared, marker()) {
        let j = choose|j: int| occurs_at(cleared, marker(), j);
        lemma_held_by_text_held_by_line(cleared, marker(), 0, j);
        let k = choose|k: int|
            0 <= k < lines(cleared).len() && contains(#[trigger] lines(cleared)[k], marker());
        lemma_cleared_has_kept_lines(text, unwanted);
        let line = lines(cleared)[k];
        assert(is_kept_line(unwanted, lines(text), line));
        assert(line.len() > 0);
        let w = choose|w: int| 0 <= w < lines(text).len() && lines(text)[w] == line;
        lemma_held_by_line_held_by_text(text, marker(), w);
    }
}

/// In hosts content that has no managed block, nothing is detected any more
/// once the entries that were detected are cleared from it.
pub proof fn lemma_no_conflict_after_clearing_plain(catalog: CatalogModel, text: Seq<char>)
    requires
        opening(text) is None,
    ensures
        ({
            let detected = conflicts_among(catalog, lines(outside_of(text)));
            let cleared = without_lines(text, detected);
            conflicts_among(catalog, lines(outside_of(cleared))).len() == 0
        }),
{
    lemma_first_match_from_spec(text, marker(), 0);
    assert(outside_of(text) =~= text);
    let detected = conflicts_among(catalog, lines(text));
    let cleared = without_lines(text, detected);
    assert(!contains(text, marker())) by {
        if contains(text, marker()) {
            let j = choose|j: int| occurs_at(text, marker(), j);
            assert(0 <= j && occurs_at(text, marker(), j));
        }
    }
    lemma_clearing_makes_no_marker(text, detected);
    lemma_first_match_from_spec(cleared, marker(), 0);
    assert(opening(cleared) is None) by {
        if opening(cleared) is Some {
            assert(occurs_at(cleared, marker(), opening(cleared)->0));
        }
    }
    assert(outside_of(cleared) =~= cleared);
    lemma_nothing_detected_after_clearing(catalog, text);
}

/// `text` is empty or ends with a line feed: it ends no line halfway.
pub open spec fn ends_lines(text: Seq<char>) -> bool {
    text.len() == 0 || text.last() == '\n'
}

/// A line of the first of two joined texts, and its line ending, stand in the
/// joined text as they stand in the first, where the first ends its lines.
proof fn lemma_line_in_front(a: Seq<char>, b: Seq<char>, from: int)
    requires
        ends_lines(a),
        0 <= from < a.len(),
    ensures
        line_break(a + b, from) == line_break(a, from),
        line_end(a + b, from) == line_end(a, from),
        next_line(a + b, from) == next_line(a, from),
        line_at(a + b, from) == line_at(a, from),
        ending_at(a + b, from) == ending_at(a, from),
        next_line(a, from) <= a.len(),
{
    lemma_line_break_bounds(a, from);
    let e = line_break(a, from);
    assert(e < a.len()) by {
        if e == a.len() {
            assert(a[a.len() - 1] != '\n');
        }
    }
    assert forall|k: int| from <= k < e implies (a + b)[k] != '\n' by {
        assert((a + b)[k] == a[k]);
    }
    assert((a + b)[e] == a[e]);
    lemma_line_break_is(a + b, from, e);
    if from < e {
        assert((a + b)[e - 1] == a[e - 1]);
    }
    assert(line_at(a + b, from) =~= line_at(a, from));
    assert(ending_at(a + b, from) =~= ending_at(a, from));
}

/// A line of the second of two joined texts, and its line ending, stand in
/// the joined text as they stand in the second.
proof fn lemma_line_in_back(pre: Seq<char>, rest: Seq<char>, j: int)
    requires
        0 <= j < rest.len(),
    ensures
        line_at(pre + rest, pre.len() + j) == line_at(rest, j),
        ending_at(pre + rest, pre.len() + j) == ending_at(rest, j),
        next_line(pre + rest, pre.len() + j) == pre.len() + next_line(rest, j),
{
    let s = pre + rest;
    lemma_line_break_shift(pre, rest, j);
    lemma_line_break_bounds(rest, j);
    let e = line_break(rest, j);
    if j < e {
        assert(s[pre.len() + e - 1] == rest[e - 1]);
    }
    assert(line_at(s, pre.len() + j) =~= line_at(rest, j));
    assert(ending_at(s, pre.len() + j) =~= ending_at(rest, j));
}

/// What is kept of the second of two joined texts is what is kept of it
/// alone.
proof fn lemma_kept_shift(pre: Seq<char>, rest: Seq<char>, unwanted: Seq<Seq<char>>, j: int)
    requires
        0 <= j <= rest.len(),
    ensures
        kept_from(pre + rest, unwanted, pre.len() + j) == kept_from(rest, unwanted, j),
        kept_solid_from(pre + rest, unwanted, pre.len() + j) == kept_solid_from(rest, unwanted, j),
    decreases rest.len() - j,
{
    if j < rest.len() {
        lemma_line_in_back(pre, rest, j);
        lemma_line_break_bounds(rest, j);
        lemma_kept_shift(pre, rest, unwanted, next_line(rest, j));
    }
}

/// What is kept of two joined texts is what is kept of the one, followed by
/// what is kept of the other, where the first ends its lines.
#[verifier::rlimit(50)]
proof fn lemma_kept_of_joined(a: Seq<char>, b: Seq<char>, unwanted: Seq<Seq<char>>, from: int)
    requires
        ends_lines(a),
        0 <= from <= a.len(),
    ensures
        kept_from(a + b, unwanted, from) == kept_from(a, unwanted, from) + kept_from(
            b,
            unwanted,
            0,
        ),
        kept_solid_from(a + b, unwanted, from) == if kept_solid_from(b, unwanted, 0).len() == 0 {
            kept_solid_from(a, unwanted, from)
        } else {
            kept_from(a, unwanted, from) + kept_solid_from(b, unwanted, 0)
        },
    decreases a.len() - from,
{
    if from < a.len() {
        lemma_line_in_front(a, b, from);
        lemma_line_break_bounds(a, from);
        let next = next_line(a, from);
        lemma_kept_of_joined(a, b, unwanted, next);
        let line = line_at(a, from);
        let ending = ending_at(a, from);
        let kb = kept_from(b, unwanted, 0);
        let sb = kept_solid_from(b, unwanted, 0);
        if !is_unwanted(unwanted, line) {
            assert(line + ending + (kept_from(a, unwanted, next) + kb) =~= (line + ending
                + kept_from(a, unwanted, next)) + kb);
            if sb.len() > 0 {
                assert(line + ending + (kept_from(a, unwanted, next) + sb) =~= (line + ending
                    + kept_from(a, unwanted, next)) + sb);
            }
        }
    } else {
        lemma_kept_shift(a, b, unwanted, 0);
        assert(kept_from(a, unwanted, from) + kept_from(b, unwanted, 0) =~= kept_from(
            b,
            unwanted,
            0,
        ));
        assert(kept_from(a, unwanted, from) + kept_solid_from(b, unwanted, 0) =~= kept_solid_from(
            b,
            unwanted,
            0,
        ));
    }
}

/// The lines of two joined texts are the lines of the one, followed by the
/// lines of the other, where the first ends its lines.
proof fn lemma_lines_of_joined(a: Seq<char>, b: Seq<char>, from: int)
    requires
        ends_lines(a),
        0 <= from <= a.len(),
    ensures
        lines_from(a + b, from) == lines_from(a, from) + lines(b),
    decreases a.len() - from,
{
    if from < a.len() {
        lemma_line_in_front(a, b, from);
        lemma_line_break_bounds(a, from);
        lemma_lines_of_joined(a, b, next_line(a, from));
        assert(seq![line_at(a, from)] + (lines_from(a, next_line(a, from)) + lines(b)) =~= (
        seq![line_at(a, from)] + lines_from(a, next_line(a, from))) + lines(b));
    } else {
        lemma_lines_shift(a, b, 0);
        assert(lines_from(a, from) + lines(b) =~= lines(b));
    }
}

/// `e` is a line ending: a line feed, or a carriage return and a line feed.
pub open spec fn is_line_ending(e: Seq<char>) -> bool {
    e == seq!['\n'] || e == seq!['\r', '\n']
}

/// A text whose managed block stands between two marker lines: `before`, the
/// opening marker and its line ending `e1`, the content `body` of the block,
/// the closing marker and its line ending `e2`, and `after`.
pub open spec fn framed(
    before: Seq<char>,
    e1: Seq<char>,
    body: Seq<char>,
    e2: Seq<char>,
    after: Seq<char>,
) -> Seq<char> {
    before + marker() + e1 + body + marker() + e2 + after
}

/// The parts of a text whose markers stand on lines of their own. What is
/// before the opening marker ends its lines, and so does the content of the
/// block; neither holds a marker; each marker is followed by a line ending,
/// or, the closing one, by the end of the text.
pub open spec fn is_frame(
    before: Seq<char>,
    e1: Seq<char>,
    body: Seq<char>,
    e2: Seq<char>,
    after: Seq<char>,
) -> bool {
    &&& ends_lines(before)
    &&& !contains(before, marker())
    &&& is_line_ending(e1)
    &&& ends_lines(body)
    &&& !contains(body, marker())
    &&& (is_line_ending(e2) || (e2.len() == 0 && after.len() == 0))
}

/// In a text whose markers stand on lines of their own, the markers are
/// found where they stand, and the text outside them is what is before the
/// opening one and what is behind the closing one.
#[verifier::rlimit(50)]
proof fn lemma_frame_markers(
    before: Seq<char>,
    e1: Seq<char>,
    body: Seq<char>,
    e2: Seq<char>,
    after: Seq<char>,
)
    requires
        is_frame(before, e1, body, e2, after),
    ensures
        opening(framed(before, e1, body, e2, after)) == Some(before.len() as int),
        closing(framed(before, e1, body, e2, after)) == Some(
            (before.len() + 26 + e1.len() + body.len()) as int,
        ),
        outside_of(framed(before, e1, body, e2, after)) == before + (e2 + after),
{
    lemma_marker_shape();
    let text = framed(before, e1, body, e2, after);
    let f = before.len() as int;
    let start = f + 26 + e1.len();
    let c = start + body.len();
    assert(text.subrange(f, f + 26) =~= marker());
    assert(text.subrange(c, c + 26) =~= marker());
    assert forall|j: int| 0 <= j < f implies !occurs_at(text, marker(), j) by {
        if occurs_at(text, marker(), j) {
            if j + 26 <= f {
                assert(before.subrange(j, j + 26) =~= text.subrange(j, j + 26));
                assert(occurs_at(before, marker(), j));
            } else {
                assert(text[f - 1] == before.last());
                lemma_marker_skips_newline(text, j, f - 1);
            }
        }
    }
    lemma_first_match_is(text, marker(), 0, f);
    assert(text[start - 1] == '\n') by {
        assert(text[start - 1] == e1.last());
    }
    assert(text[c - 1] == '\n') by {
        if body.len() > 0 {
            assert(text[c - 1] == body.last());
        }
    }
    assert forall|j: int| f + 26 <= j < c implies !occurs_at(text, marker(), j) by {
        if occurs_at(text, marker(), j) {
            if j < start {
                lemma_marker_skips_newline(text, j, start - 1);
            } else if j + 26 > c - 1 {
                lemma_marker_skips_newline(text, j, c - 1);
            } else {
                assert(body.subrange(j - start, j - start + 26) =~= text.subrange(j, j + 26));
                assert(occurs_at(body, marker(), j - start));
            }
        }
    }
    lemma_first_match_is(text, marker(), f + 26, c);
    assert(text.subrange(0, f) =~= before);
    assert(text.subrange(c + 26, text.len() as int) =~= e2 + after);
}

/// No entry to be cleared is the marker line.
pub open spec fn keeps_marker(unwanted: Seq<Seq<char>>) -> bool {
    !is_unwanted(unwanted, marker())
}

/// The entries that are detected among lines never include the marker line:
/// an entry starts with no '#'.
proof fn lemma_detected_keep_marker(catalog: CatalogModel, lines: Seq<Seq<char>>)
    ensures
        keeps_marker(conflicts_among(catalog, lines)),
{
    let found = conflicts_among(catalog, lines);
    reveal_strlit("# --+ Make Your Choice +--");
    let m = marker();
    assert(!white_space(m[0]) && !white_space(m[25]));
    assert(skip_space(m, 0) == 0);
    assert(skip_space_back(m, 0, 26) == 26);
    assert(trim(m) =~= m);
    if is_unwanted(found, m) {
        let k = choose|k: int| 0 <= k < found.len() && trim(#[trigger] found[k]) == trim(m);
        let entry = found[k];
        lemma_conflicts_membership(catalog, lines, entry);
        assert(found.contains(entry));
        let i = choose|i: int|
            0 <= i < lines.len() && conflict_entry(catalog, #[trigger] lines[i]) == Some(entry);
        lemma_trim_idempotent(lines[i]);
        assert(entry == trim(lines[i]));
        assert(entry[0] != '#');
    }
}

/// A marker line that is kept stands in what is kept as it stood.
proof fn lemma_marker_line_kept(unwanted: Seq<Seq<char>>, ending: Seq<char>)
    requires
        keeps_marker(unwanted),
        is_line_ending(ending) || ending.len() == 0,
    ensures
        kept_from(marker() + ending, unwanted, 0) == marker() + ending,
        kept_solid_from(marker() + ending, unwanted, 0) == marker(),
        ending.len() > 0 ==> ends_lines(marker() + ending),
{
    lemma_marker_shape();
    reveal_strlit("# --+ Make Your Choice +--");
    let s = marker() + ending;
    let e = s.len() - 1;
    if ending.len() > 0 {
        assert(s[e] == '\n');
        assert forall|k: int| 0 <= k < e implies s[k] != '\n' by {
            if k < 26 {
                assert(s[k] == marker()[k]);
            }
        }
        lemma_line_break_is(s, 0, e);
        if ending.len() == 1 {
            assert(s[e - 1] == marker()[25]);
        }
        assert(line_at(s, 0) =~= marker());
        assert(ending_at(s, 0) =~= ending);
    } else {
        assert forall|k: int| 0 <= k < s.len() implies s[k] != '\n' by {
            assert(s[k] == marker()[k]);
        }
        lemma_line_break_is(s, 0, s.len() as int);
        assert(line_at(s, 0) =~= marker());
        assert(ending_at(s, 0) =~= ending);
    }
    assert(kept_from(s, unwanted, s.len() as int) =~= Seq::<char>::empty());
    assert(kept_solid_from(s, unwanted, s.len() as int) =~= Seq::<char>::empty());
    assert(marker() + ending + Seq::<char>::empty() =~= marker() + ending);
}

/// A text whose lines are all empty or lines of a text that holds no marker
/// holds no marker.
proof fn lemma_kept_lines_hold_no_marker(
    unwanted: Seq<Seq<char>>,
    source: Seq<char>,
    text: Seq<char>,
)
    requires
        has_kept_lines(unwanted, lines(source), text),
        !contains(source, marker()),
    ensures
        !contains(text, marker()),
{
    reveal_strlit("# --+ Make Your Choice +--");
    if contains(text, marker()) {
        let j = choose|j: int| occurs_at(text, marker(), j);
        lemma_held_by_text_held_by_line(text, marker(), 0, j);
        let k = choose|k: int|
            0 <= k < lines(text).len() && contains(#[trigger] lines(text)[k], marker());
        let line = lines(text)[k];
        assert(is_kept_line(unwanted, lines(source), line));
        assert(line.len() > 0);
        let w = choose|w: int| 0 <= w < lines(source).len() && lines(source)[w] == line;
        lemma_held_by_line_held_by_text(source, marker(), w);
    }
}

/// What is kept of a part that ends its lines and holds no marker ends its
/// lines and holds no marker, and its lines are lines of the part.
proof fn lemma_kept_part(part: Seq<char>, unwanted: Seq<Seq<char>>)
    requires
        ends_lines(part),
        !contains(part, marker()),
    ensures
        ends_lines(kept_from(part, unwanted, 0)),
        !contains(kept_from(part, unwanted, 0), marker()),
        has_kept_lines(unwanted, lines(part), kept_from(part, unwanted, 0)),
{
    lemma_kept_has_kept_lines(part, unwanted, 0);
    lemma_kept_lines_hold_no_marker(unwanted, part, kept_from(part, unwanted, 0));
    if kept_from(part, unwanted, 0).len() > 0 {
        lemma_kept_ends_line(part, unwanted, 0);
    }
}

/// Clearing lines from a text whose markers stand on lines of their own
/// gives such a text again: what was before the block and what was in it are
/// cleared each for itself, the marker lines stay, and what was after the
/// block is cleared for itself too; it ends where its last line that is not
/// empty ends, where the text ended with no line ending.
#[verifier::rlimit(50)]
proof fn lemma_cleared_frame(
    before: Seq<char>,
    e1: Seq<char>,
    body: Seq<char>,
    e2: Seq<char>,
    after: Seq<char>,
    unwanted: Seq<Seq<char>>,
)
    requires
        is_frame(before, e1, body, e2, after),
        keeps_marker(unwanted),
    ensures
        ({
            let cleared = without_lines(framed(before, e1, body, e2, after), unwanted);
            let kb = kept_from(before, unwanted, 0);
            let ki = kept_from(body, unwanted, 0);
            ||| e2.len() > 0 && cleared == framed(kb, e1, ki, e2, kept_from(after, unwanted, 0))
            ||| e2.len() > 0 && cleared == framed(
                kb,
                e1,
                ki,
                e2,
                kept_solid_from(after, unwanted, 0),
            )
            ||| cleared == framed(kb, e1, ki, Seq::empty(), Seq::empty())
        }),
{
    lemma_marker_shape();
    let none = Seq::<char>::empty();
    let text = framed(before, e1, body, e2, after);
    let open_line = marker() + e1;
    let close_line = marker() + e2;
    let a12 = before + open_line;
    let a123 = a12 + body;
    let x = a123 + close_line;
    let kb = kept_from(before, unwanted, 0);
    let ki = kept_from(body, unwanted, 0);
    assert(text =~= x + after);
    lemma_marker_line_kept(unwanted, e1);
    lemma_marker_line_kept(unwanted, e2);
    assert(ends_lines(a12)) by {
        assert(a12.last() == e1.last());
    }
    assert(ends_lines(a123)) by {
        if body.len() > 0 {
            assert(a123.last() == body.last());
        } else {
            assert(a123 =~= a12);
        }
    }
    lemma_kept_of_joined(before, open_line, unwanted, 0);
    lemma_kept_of_joined(a12, body, unwanted, 0);
    lemma_kept_of_joined(a123, close_line, unwanted, 0);
    let k123 = kept_from(a123, unwanted, 0);
    assert(k123 =~= kb + marker() + e1 + ki);
    assert(kept_from(x, unwanted, 0) =~= k123 + marker() + e2);
    assert(kept_solid_from(x, unwanted, 0) =~= k123 + marker());
    assert(framed(kb, e1, ki, none, none) =~= k123 + marker());
    if e2.len() > 0 {
        assert(ends_lines(x)) by {
            assert(x.last() == e2.last());
        }
        lemma_kept_of_joined(x, after, unwanted, 0);
        let ka = kept_from(after, unwanted, 0);
        let sa = kept_solid_from(after, unwanted, 0);
        assert(framed(kb, e1, ki, e2, ka) =~= k123 + marker() + e2 + ka);
        assert(framed(kb, e1, ki, e2, sa) =~= k123 + marker() + e2 + sa);
        assert(kept_from(text, unwanted, 0).len() > 0);
    } else {
        assert(text =~= x);
        assert(text.last() == marker()[25]);
        reveal_strlit("# --+ Make Your Choice +--");
    }
}

/// Among lines that are all empty or lines in which nothing is detected any
/// more, no entry is detected: where every line of `text` is empty, or one of
/// `source` that is not among what was detected in `source`.
proof fn lemma_nothing_detected_among_kept(
    catalog: CatalogModel,
    source: Seq<Seq<char>>,
    text: Seq<char>,
)
    requires
        has_kept_lines(conflicts_among(catalog, source), source, text),
    ensures
        conflicts_among(catalog, lines(text)).len() == 0,
{
    let detected = conflicts_among(catalog, source);
    let after = conflicts_among(catalog, lines(text));
    if after.len() > 0 {
        let entry = after[0];
        lemma_conflicts_membership(catalog, lines(text), entry);
        assert(after.contains(entry));
        let i = choose|i: int|
            0 <= i < lines(text).len() && conflict_entry(catalog, #[trigger] lines(text)[i])
                == Some(entry);
        let line = lines(text)[i];
        assert(is_kept_line(detected, source, line));
        assert(line.len() > 0);
        let k = choose|k: int| 0 <= k < source.len() && source[k] == line;
        lemma_detected_lines_are_unwanted(catalog, source, k);
    }
}

/// The lines of the text outside the markers, in a text whose markers stand
/// on lines of their own: the lines before the opening marker, an empty line
/// where the closing marker line has a line ending, and the lines after.
proof fn lemma_lines_outside(before: Seq<char>, e2: Seq<char>, after: Seq<char>)
    requires
        ends_lines(before),
        is_line_ending(e2) || (e2.len() == 0 && after.len() == 0),
    ensures
        lines(before + (e2 + after)) == lines(before) + if e2.len() > 0 {
            seq![Seq::<char>::empty()] + lines(after)
        } else {
            Seq::<Seq<char>>::empty()
        },
{
    lemma_lines_of_joined(before, e2 + after, 0);
    if e2.len() > 0 {
        lemma_lines_of_segment(Seq::empty(), e2, after);
        assert(Seq::<char>::empty() + e2 + after =~= e2 + after);
    } else {
        assert(e2 + after =~= Seq::<char>::empty());
        lemma_lines_of_bare(Seq::empty());
    }
}

/// In hosts content whose markers stand on lines of their own, nothing is
/// detected any more once the entries that were detected are cleared from it.
#[verifier::rlimit(50)]
pub proof fn lemma_no_conflict_after_clearing_framed(
    catalog: CatalogModel,
    before: Seq<char>,
    e1: Seq<char>,
    body: Seq<char>,
    e2: Seq<char>,
    after: Seq<char>,
)
    requires
        is_frame(before, e1, body, e2, after),
    ensures
        ({
            let text = framed(before, e1, body, e2, after);
            let detected = conflicts_among(catalog, lines(outside_of(text)));
            let cleared = without_lines(text, detected);
            conflicts_among(catalog, lines(outside_of(cleared))).len() == 0
        }),
{
    let none = Seq::<char>::empty();
    let text = framed(before, e1, body, e2, after);
    let source = lines(outside_of(text));
    let detected = conflicts_among(catalog, source);
    let cleared = without_lines(text, detected);
    let kb = kept_from(before, detected, 0);
    let ki = kept_from(body, detected, 0);
    lemma_frame_markers(before, e1, body, e2, after);
    lemma_lines_outside(before, e2, after);
    lemma_detected_keep_marker(catalog, source);
    lemma_cleared_frame(before, e1, body, e2, after, detected);
    lemma_kept_part(before, detected);
    lemma_kept_part(body, detected);
    let ka = kept_from(after, detected, 0);
    let sa = kept_solid_from(after, detected, 0);
    lemma_kept_has_kept_lines(after, detected, 0);
    lemma_solid_has_kept_lines(after, detected, 0);
    let (e3, rest) = if e2.len() > 0 && cleared == framed(kb, e1, ki, e2, ka) {
        (e2, ka)
    } else if e2.len() > 0 && cleared == framed(kb, e1, ki, e2, sa) {
        (e2, sa)
    } else {
        (none, none)
    };
    assert(cleared == framed(kb, e1, ki, e3, rest));
    assert(is_frame(kb, e1, ki, e3, rest));
    lemma_frame_markers(kb, e1, ki, e3, rest);
    lemma_lines_outside(kb, e3, rest);
    let outside = outside_of(cleared);
    assert forall|i: int| 0 <= i < lines(outside).len() implies is_kept_line(
        detected,
        source,
        #[trigger] lines(outside)[i],
    ) by {
        let line = lines(outside)[i];
        if line.len() > 0 {
            if i < lines(kb).len() {
                assert(lines(kb)[i] == line);
                assert(is_kept_line(detected, lines(before), line));
                let w = choose|w: int| 0 <= w < lines(before).len() && lines(before)[w] == line;
                assert(source[w] == line);
            } else {
                let j = i - lines(kb).len() - 1;
                assert(e3.len() > 0);
                assert(lines(rest)[j] == line);
                assert(is_kept_line(detected, lines(after), line));
                let w = choose|w: int| 0 <= w < lines(after).len() && lines(after)[w] == line;
                assert(source[lines(before).len() + 1 + w] == line);
            }
        }
    }
    lemma_nothing_detected_among_kept(catalog, source, outside);
}

/// The line ending with which `s` starts; empty where it starts with none.
pub open spec fn leading_ending(s: Seq<char>) -> Seq<char> {
    if s.len() >= 1 && s[0] == '\n' {
        seq!['\n']
    } else if s.len() >= 2 && s[0] == '\r' && s[1] == '\n' {
        seq!['\r', '\n']
    } else {
        Seq::empty()
    }
}

/// The markers of `text` stand on lines of their own: each starts a line
/// and is followed by a line ending, or, the last one, by the end of the
/// text. This speaks of a complete block, between two markers, and of a
/// block that an opening marker starts and no marker closes.
pub open spec fn markers_on_own_lines(text: Seq<char>) -> bool {
    match (opening(text), closing(text)) {
        (Some(f), Some(l)) => {
            let between = text.subrange(f + marker().len(), l);
            let behind = text.subrange(l + marker().len(), text.len() as int);
            &&& ends_lines(text.subrange(0, f))
            &&& leading_ending(between).len() > 0
            &&& ends_lines(between)
            &&& (behind.len() == 0 || leading_ending(behind).len() > 0)
        },
        (Some(f), None) => {
            let behind = text.subrange(f + marker().len(), text.len() as int);
            &&& ends_lines(text.subrange(0, f))
            &&& (behind.len() == 0 || leading_ending(behind).len() > 0)
        },
        _ => false,
    }
}

/// A text is what stands before a position, between it and a second, and
/// behind the second.
proof fn lemma_cut_in_three(text: Seq<char>, a: int, b: int)
    requires
        0 <= a <= b <= text.len(),
    ensures
        text == text.subrange(0, a) + text.subrange(a, b) + text.subrange(b, text.len() as int),
{
    assert(text =~= text.subrange(0, a) + text.subrange(a, b) + text.subrange(
        b,
        text.len() as int,
    ));
}

/// A text is the line ending that it starts with, and the rest.
proof fn lemma_cut_leading_ending(s: Seq<char>)
    ensures
        s == leading_ending(s) + s.subrange(leading_ending(s).len() as int, s.len() as int),
        leading_ending(s).len() > 0 ==> is_line_ending(leading_ending(s)),
{
    let e = leading_ending(s);
    assert(s =~= e + s.subrange(e.len() as int, s.len() as int));
}

/// A part of a text that lies before its first marker, or between the end
/// of the first marker and the start of the next, holds no marker.
proof fn lemma_part_holds_no_marker(text: Seq<char>, from: int, a: int, b: int)
    requires
        0 <= from <= a <= b <= text.len(),
        forall|j: int| from <= j && j + 26 <= b ==> !occurs_at(text, marker(), j),
    ensures
        !contains(text.subrange(a, b), marker()),
{
    lemma_marker_shape();
    let part = text.subrange(a, b);
    if contains(part, marker()) {
        let j = choose|j: int| occurs_at(part, marker(), j);
        assert(text.subrange(a + j, a + j + 26) =~= part.subrange(j, j + 26));
        assert(occurs_at(text, marker(), a + j));
    }
}

/// The parts of a text with a marker at `f` and another at `l`: what is
/// before the first, the line ending behind it, what follows up to the
/// second, the line ending behind the second, and the rest.
pub open spec fn parts_of(text: Seq<char>, f: int, l: int) -> (
    Seq<char>,
    Seq<char>,
    Seq<char>,
    Seq<char>,
    Seq<char>,
) {
    let between = text.subrange(f + 26, l);
    let behind = text.subrange(l + 26, text.len() as int);
    let e1 = leading_ending(between);
    let e2 = leading_ending(behind);
    (
        text.subrange(0, f),
        e1,
        between.subrange(e1.len() as int, between.len() as int),
        e2,
        behind.subrange(e2.len() as int, behind.len() as int),
    )
}

/// A text with a marker at `f` and another at `l` is put together from its
/// parts.
#[verifier::rlimit(50)]
proof fn lemma_text_of_parts(text: Seq<char>, m: Seq<char>, f: int, l: int)
    requires
        m.len() == 26,
        0 <= f,
        f + 26 <= l,
        l + 26 <= text.len(),
        text.subrange(f, f + 26) == m,
        text.subrange(l, l + 26) == m,
    ensures
        ({
            let parts = parts_of(text, f, l);
            text == parts.0 + m + parts.1 + parts.2 + m + parts.3 + parts.4
        }),
{
    let parts = parts_of(text, f, l);
    let size = text.len() as int;
    let between = text.subrange(f + 26, l);
    let behind = text.subrange(l + 26, size);
    lemma_cut_leading_ending(between);
    lemma_cut_leading_ending(behind);
    lemma_cut_in_three(text, f, f + 26);
    let tail = text.subrange(f + 26, size);
    lemma_cut_in_three(tail, l - f - 26, l - f);
    assert(tail.subrange(0, l - f - 26) =~= between);
    assert(tail.subrange(l - f - 26, l - f) =~= m);
    assert(tail.subrange(l - f, tail.len() as int) =~= behind);
    assert(parts.0 + m + (parts.1 + parts.2 + m + (parts.3 + parts.4)) =~= parts.0 + m + parts.1
        + parts.2 + m + parts.3 + parts.4);
}

/// The content of a block that ends its lines behind the line ending of the
/// opening marker ends its lines.
proof fn lemma_body_ends_lines(between: Seq<char>)
    requires
        ends_lines(between),
    ensures
        ends_lines(
            between.subrange(leading_ending(between).len() as int, between.len() as int),
        ),
{
    let body = between.subrange(leading_ending(between).len() as int, between.len() as int);
    if body.len() > 0 {
        assert(body.last() == between.last());
    }
}

/// A text whose markers stand on lines of their own is put together from
/// the parts of a frame.
#[verifier::rlimit(50)]
proof fn lemma_own_lines_frame(text: Seq<char>) -> (parts: (
    Seq<char>,
    Seq<char>,
    Seq<char>,
    Seq<char>,
    Seq<char>,
))
    requires
        markers_on_own_lines(text),
        closing(text) is Some,
    ensures
        text == framed(parts.0, parts.1, parts.2, parts.3, parts.4),
        is_frame(parts.0, parts.1, parts.2, parts.3, parts.4),
{
    lemma_marker_shape();
    lemma_first_match_from_spec(text, marker(), 0);
    let f = opening(text)->0;
    lemma_first_match_from_spec(text, marker(), f + 26);
    let l = closing(text)->0;
    let parts = parts_of(text, f, l);
    let between = text.subrange(f + 26, l);
    let behind = text.subrange(l + 26, text.len() as int);
    lemma_text_of_parts(text, marker(), f, l);
    lemma_cut_leading_ending(between);
    lemma_cut_leading_ending(behind);
    lemma_body_ends_lines(between);
    lemma_part_holds_no_marker(text, 0, 0, f);
    lemma_part_holds_no_marker(text, f + 26, f + 26 + parts.1.len(), l);
    assert(text.subrange(f + 26 + parts.1.len(), l) =~= parts.2);
    parts
}

/// A text whose block is not closed: `before`, the opening marker and its
/// line ending `e1`, and `rest`.
pub open spec fn open_framed(before: Seq<char>, e1: Seq<char>, rest: Seq<char>) -> Seq<char> {
    before + marker() + e1 + rest
}

/// The parts of a text whose only marker stands on a line of its own. What
/// is before it ends its lines; neither that nor what follows the marker
/// line holds a marker; the marker is followed by a line ending or by the end
/// of the text.
pub open spec fn is_open_frame(before: Seq<char>, e1: Seq<char>, rest: Seq<char>) -> bool {
    &&& ends_lines(before)
    &&& !contains(before, marker())
    &&& (is_line_ending(e1) || (e1.len() == 0 && rest.len() == 0))
    &&& !contains(rest, marker())
}

/// In a text whose only marker stands on a line of its own, the marker is
/// found where it stands, no closing marker is found, and the text outside
/// the block is what is before the marker.
#[verifier::rlimit(50)]
proof fn lemma_open_frame_markers(before: Seq<char>, e1: Seq<char>, rest: Seq<char>)
    requires
        is_open_frame(before, e1, rest),
    ensures
        opening(open_framed(before, e1, rest)) == Some(before.len() as int),
        closing(open_framed(before, e1, rest)) is None,
        outside_of(open_framed(before, e1, rest)) == before,
{
    lemma_marker_shape();
    let text = open_framed(before, e1, rest);
    let f = before.len() as int;
    let start = f + 26 + e1.len();
    assert(text.subrange(f, f + 26) =~= marker());
    assert forall|j: int| 0 <= j < f implies !occurs_at(text, marker(), j) by {
        if occurs_at(text, marker(), j) {
            if j + 26 <= f {
                assert(before.subrange(j, j + 26) =~= text.subrange(j, j + 26));
                assert(occurs_at(before, marker(), j));
            } else {
                assert(text[f - 1] == before.last());
                lemma_marker_skips_newline(text, j, f - 1);
            }
        }
    }
    lemma_first_match_is(text, marker(), 0, f);
    assert forall|j: int| f + 26 <= j implies !occurs_at(text, marker(), j) by {
        if occurs_at(text, marker(), j) {
            if j < start {
                assert(text[start - 1] == e1.last());
                lemma_marker_skips_newline(text, j, start - 1);
            } else {
                assert(rest.subrange(j - start, j - start + 26) =~= text.subrange(j, j + 26));
                assert(occurs_at(rest, marker(), j - start));
            }
        }
    }
    lemma_first_match_from_spec(text, marker(), f + 26);
    assert(text.subrange(0, f) =~= before);
    assert(before + Seq::<char>::empty() =~= before);
}

/// Clearing lines from a text whose only marker stands on a line of its own
/// gives such a text again.
#[verifier::rlimit(50)]
proof fn lemma_cleared_open_frame(
    before: Seq<char>,
    e1: Seq<char>,
    rest: Seq<char>,
    unwanted: Seq<Seq<char>>,
)
    requires
        is_open_frame(before, e1, rest),
        keeps_marker(unwanted),
    ensures
        ({
            let cleared = without_lines(open_framed(before, e1, rest), unwanted);
            let kb = kept_from(before, unwanted, 0);
            ||| e1.len() > 0 && cleared == open_framed(kb, e1, kept_from(rest, unwanted, 0))
            ||| e1.len() > 0 && cleared == open_framed(kb, e1, kept_solid_from(rest, unwanted, 0))
            ||| cleared == open_framed(kb, Seq::empty(), Seq::empty())
        }),
{
    lemma_marker_shape();
    let none = Seq::<char>::empty();
    let text = open_framed(before, e1, rest);
    let open_line = marker() + e1;
    let x = before + open_line;
    let kb = kept_from(before, unwanted, 0);
    assert(text =~= x + rest);
    lemma_marker_line_kept(unwanted, e1);
    lemma_kept_of_joined(before, open_line, unwanted, 0);
    assert(kept_from(x, unwanted, 0) =~= kb + marker() + e1);
    assert(kept_solid_from(x, unwanted, 0) =~= kb + marker());
    assert(open_framed(kb, none, none) =~= kb + marker());
    if e1.len() > 0 {
        assert(ends_lines(x)) by {
            assert(x.last() == e1.last());
        }
        lemma_kept_of_joined(x, rest, unwanted, 0);
        let kr = kept_from(rest, unwanted, 0);
        let sr = kept_solid_from(rest, unwanted, 0);
        assert(open_framed(kb, e1, kr) =~= kb + marker() + e1 + kr);
        assert(open_framed(kb, e1, sr) =~= kb + marker() + e1 + sr);
        assert(kept_from(text, unwanted, 0).len() > 0);
    } else {
        assert(text =~= x);
        assert(text.last() == marker()[25]);
        reveal_strlit("# --+ Make Your Choice +--");
    }
}

/// In hosts content whose block is not closed and whose marker stands on a
/// line of its own, nothing is detected any more once the entries that were
/// detected are cleared from it.
#[verifier::rlimit(50)]
pub proof fn lemma_no_conflict_after_clearing_unclosed(
    catalog: CatalogModel,
    before: Seq<char>,
    e1: Seq<char>,
    rest: Seq<char>,
)
    requires
        is_open_frame(before, e1, rest),
    ensures
        ({
            let text = open_framed(before, e1, rest);
            let detected = conflicts_among(catalog, lines(outside_of(text)));
            let cleared = without_lines(text, detected);
            conflicts_among(catalog, lines(outside_of(cleared))).len() == 0
        }),
{
    let none = Seq::<char>::empty();
    let text = open_framed(before, e1, rest);
    lemma_open_frame_markers(before, e1, rest);
    let source = lines(before);
    let detected = conflicts_among(catalog, source);
    let cleared = without_lines(text, detected);
    let kb = kept_from(before, detected, 0);
    lemma_detected_keep_marker(catalog, source);
    lemma_cleared_open_frame(before, e1, rest, detected);
    lemma_kept_part(before, detected);
    let kr = kept_from(rest, detected, 0);
    let sr = kept_solid_from(rest, detected, 0);
    lemma_kept_has_kept_lines(rest, detected, 0);
    lemma_solid_has_kept_lines(rest, detected, 0);
    lemma_kept_lines_hold_no_marker(detected, rest, kr);
    lemma_kept_lines_hold_no_marker(detected, rest, sr);
    let (e3, tail) = if e1.len() > 0 && cleared == open_framed(kb, e1, kr) {
        (e1, kr)
    } else if e1.len() > 0 && cleared == open_framed(kb, e1, sr) {
        (e1, sr)
    } else {
        (none, none)
    };
    assert(cleared == open_framed(kb, e3, tail));
    assert(!contains(none, marker())) by {
        lemma_marker_shape();
    }
    assert(is_open_frame(kb, e3, tail));
    lemma_open_frame_markers(kb, e3, tail);
    lemma_nothing_detected_among_kept(catalog, source, kb);
}

/// A text whose block is not closed and whose marker stands on a line of its
/// own is put together from the parts of such a text.
#[verifier::rlimit(50)]
proof fn lemma_own_line_open_frame(text: Seq<char>) -> (parts: (Seq<char>, Seq<char>, Seq<char>))
    requires
        markers_on_own_lines(text),
        closing(text) is None,
    ensures
        text == open_framed(parts.0, parts.1, parts.2),
        is_open_frame(parts.0, parts.1, parts.2),
{
    lemma_marker_shape();
    lemma_first_match_from_spec(text, marker(), 0);
    let f = opening(text)->0;
    lemma_first_match_from_spec(text, marker(), f + 26);
    let size = text.len() as int;
    let before = text.subrange(0, f);
    let behind = text.subrange(f + 26, size);
    let e1 = leading_ending(behind);
    let rest = behind.subrange(e1.len() as int, behind.len() as int);
    lemma_cut_leading_ending(behind);
    lemma_cut_in_three(text, f, f + 26);
    assert(before + marker() + (e1 + rest) =~= open_framed(before, e1, rest));
    lemma_part_holds_no_marker(text, 0, 0, f);
    lemma_part_holds_no_marker(text, f + 26, f + 26 + e1.len(), size);
    assert(text.subrange(f + 26 + e1.len(), size) =~= rest);
    (before, e1, rest)
}

/// Once the entries that were detected in hosts content are cleared from it,
/// nothing is detected in it any more. This holds of content that has no
/// managed block, and of content whose markers stand on lines of their own,
/// be its block complete or not closed.
pub proof fn lemma_no_conflict_after_clearing(catalog: CatalogModel, text: Seq<char>)
    requires
        opening(text) is None || markers_on_own_lines(text),
    ensures
        ({
            let detected = conflicts_among(catalog, lines(outside_of(text)));
            let cleared = without_lines(text, detected);
            conflicts_among(catalog, lines(outside_of(cleared))).len() == 0
        }),
{
    if opening(text) is None {
        lemma_no_conflict_after_clearing_plain(catalog, text);
    } else if closing(text) is None {
        let parts = lemma_own_line_open_frame(text);
        lemma_no_conflict_after_clearing_unclosed(catalog, parts.0, parts.1, parts.2);
    } else {
        let parts = lemma_own_lines_frame(text);
        lemma_no_conflict_after_clearing_framed(
            catalog,
            parts.0,
            parts.1,
            parts.2,
            parts.3,
            parts.4,
        );
    }
}

/// What is written keeps the markers on lines of their own: after the block
/// of content that has no block, or whose markers stand on lines of their
/// own, was replaced by content that is not empty and holds no marker, the
/// markers stand on lines of their own.
#[verifier::rlimit(50)]
pub proof fn lemma_written_block_on_own_lines(text: Seq<char>, inner: Seq<char>)
    requires
        opening(text) is None || markers_on_own_lines(text),
        inner.len() > 0,
        !contains(inner, marker()),
    ensures
        markers_on_own_lines(replaced(text, inner)),
{
    lemma_marker_shape();
    lemma_replaced_layout(text, inner);
    let out = replaced(text, inner);
    let front = front_of(text);
    let body = terminated(inner);
    let rest = suffix_of(text);
    let nl = seq!['\n'];
    assert(out =~= front + marker() + nl + body + marker() + nl + rest);
    let f = front.len() as int;
    lemma_first_match_from_spec(out, marker(), f + 26);
    let l = closing(out)->0;
    let span = out.subrange(f + 26, l);
    assert(out[f + 26] == '\n');
    assert(l == f + 26 + 1 + body.len()) by {
        if span.len() > 0 {
            assert(span[0] == '\n');
            assert(span.subrange(1, span.len() as int).len() == body.len());
        }
    }
    assert(span =~= nl + body);
    assert(out.subrange(l + 26, out.len() as int) =~= nl + rest);
    assert(out.subrange(0, f) =~= front);
    assert(ends_lines(front)) by {
        if opening(text) is None {
            assert(front.last() == '\n');
        }
    }
}

} // verus!
