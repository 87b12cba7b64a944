//! Lines of a text, and the words of a line.
//!
//! A line ends with a line feed, or with a carriage return and a line feed;
//! neither belongs to the line. The last line needs no line ending, and a
//! text that ends with one has no empty line after it. Words are the runs of
//! characters that are not white space.

use vstd::prelude::*;

verus! {

/// Whether a character is white space: whether it has the Unicode property
/// `White_Space`. These are the characters U+0009 to U+000D, U+0020, U+0085,
/// U+00A0, U+1680, U+2000 to U+200A, U+2028, U+2029, U+202F, U+205F and
/// U+3000.
pub open spec fn white_space(c: char) -> bool {
    let n = c as u32;
    ||| 0x0009 <= n <= 0x000D
    ||| n == 0x0020
    ||| n == 0x0085
    ||| n == 0x00A0
    ||| n == 0x1680
    ||| 0x2000 <= n <= 0x200A
    ||| n == 0x2028
    ||| n == 0x2029
    ||| n == 0x202F
    ||| n == 0x205F
    ||| n == 0x3000
}

/// Whether a character is white space.
pub fn is_white_space(c: char) -> (b: bool)
    ensures
        b == white_space(c),
{
    let n = c as u32;
    (0x0009 <= n && n <= 0x000D) || n == 0x0020 || n == 0x0085 || n == 0x00A0 || n == 0x1680 || (
    0x2000 <= n && n <= 0x200A) || n == 0x2028 || n == 0x2029 || n == 0x202F || n == 0x205F || n
        == 0x3000
}

/// The position of the first line feed at or after `from`, or the length of
/// `s` where there is none.
pub open spec fn line_break(s: Seq<char>, from: int) -> int
    decreases s.len() - from,
{
    if from < 0 || from >= s.len() {
        s.len() as int
    } else if s[from] == '\n' {
        from
    } else {
        line_break(s, from + 1)
    }
}

/// Where the line that starts at `from` ends: at its line feed, or before the
/// carriage return that precedes the line feed, or at the end of the text.
pub open spec fn line_end(s: Seq<char>, from: int) -> int {
    let e = line_break(s, from);
    if e < s.len() && from < e && s[e - 1] == '\r' {
        e - 1
    } else {
        e
    }
}

/// Where the line after the one that starts at `from` begins.
pub open spec fn next_line(s: Seq<char>, from: int) -> int {
    let e = line_break(s, from);
    if e < s.len() {
        e + 1
    } else {
        e
    }
}

/// The line feed of a line is not before its start.
pub proof fn lemma_line_break_bounds(s: Seq<char>, from: int)
    requires
        0 <= from <= s.len(),
    ensures
        from <= line_break(s, from) <= s.len(),
        line_break(s, from) < s.len() ==> s[line_break(s, from)] == '\n',
        forall|k: int| from <= k < line_break(s, from) ==> s[k] != '\n',
    decreases s.len() - from,
{
    if from < s.len() && s[from] != '\n' {
        lemma_line_break_bounds(s, from + 1);
    }
}

/// The lines of `s` from position `from` on.
pub open spec fn lines_from(s: Seq<char>, from: int) -> Seq<Seq<char>>
    decreases s.len() - from,
{
    if from < 0 || from >= s.len() {
        Seq::empty()
    } else {
        proof {
            lemma_line_break_bounds(s, from);
        }
        seq![s.subrange(from, line_end(s, from))] + lines_from(s, next_line(s, from))
    }
}

/// The lines of `s`.
pub open spec fn lines(s: Seq<char>) -> Seq<Seq<char>> {
    lines_from(s, 0)
}

/// The first position at or after `i` that holds no white space.
pub open spec fn skip_space(l: Seq<char>, i: int) -> int
    decreases l.len() - i,
{
    if 0 <= i < l.len() && white_space(l[i]) {
        skip_space(l, i + 1)
    } else {
        i
    }
}

/// The first position at or after `i` that holds white space.
pub open spec fn skip_word(l: Seq<char>, i: int) -> int
    decreases l.len() - i,
{
    if 0 <= i < l.len() && !white_space(l[i]) {
        skip_word(l, i + 1)
    } else {
        i
    }
}

/// The end of `l` without the white space before position `j`, and not
/// below `low`.
pub open spec fn skip_space_back(l: Seq<char>, low: int, j: int) -> int
    decreases j,
{
    if 0 <= low < j <= l.len() && white_space(l[j - 1]) {
        skip_space_back(l, low, j - 1)
    } else {
        j
    }
}

/// `l` without the white space at its start and at its end.
pub open spec fn trim(l: Seq<char>) -> Seq<char> {
    let a = skip_space(l, 0);
    l.subrange(a, skip_space_back(l, a, l.len() as int))
}

/// Skipping white space stops within the text, at a character that is none.
pub proof fn lemma_skip_space_stops(l: Seq<char>, i: int)
    requires
        0 <= i <= l.len(),
    ensures
        i <= skip_space(l, i) <= l.len(),
        skip_space(l, i) < l.len() ==> !white_space(l[skip_space(l, i)]),
    decreases l.len() - i,
{
    if i < l.len() && white_space(l[i]) {
        lemma_skip_space_stops(l, i + 1);
    }
}

/// Skipping white space backwards stops behind a character that is none,
/// or at the lower bound.
pub proof fn lemma_skip_space_back_stops(l: Seq<char>, low: int, j: int)
    requires
        0 <= low <= j <= l.len(),
    ensures
        low <= skip_space_back(l, low, j) <= j,
        skip_space_back(l, low, j) > low ==> !white_space(l[skip_space_back(l, low, j) - 1]),
    decreases j,
{
    if low < j && white_space(l[j - 1]) {
        lemma_skip_space_back_stops(l, low, j - 1);
    }
}

/// A text without the white space around it has none around it.
pub proof fn lemma_trim_idempotent(l: Seq<char>)
    ensures
        trim(trim(l)) == trim(l),
{
    let a = skip_space(l, 0);
    lemma_skip_space_stops(l, 0);
    let b = skip_space_back(l, a, l.len() as int);
    lemma_skip_space_back_stops(l, a, l.len() as int);
    let t = l.subrange(a, b);
    if a < b {
        assert(t[0] == l[a]);
        assert(t[t.len() - 1] == l[b - 1]);
        assert(skip_space(t, 0) == 0);
        assert(skip_space_back(t, 0, t.len() as int) == t.len());
        assert(t.subrange(0, t.len() as int) =~= t);
    } else {
        assert(skip_space(t, 0) == 0);
        assert(t.subrange(0, 0) =~= t);
    }
}

/// Where the second word of `l` starts and ends, if `l` has two words.
pub open spec fn second_word_bounds(l: Seq<char>) -> Option<(int, int)> {
    let from = skip_space(l, skip_word(l, skip_space(l, 0)));
    let to = skip_word(l, from);
    if from < to {
        Some((from, to))
    } else {
        None
    }
}

/// The second word of `l`, if `l` has two words.
pub open spec fn second_word(l: Seq<char>) -> Option<Seq<char>> {
    match second_word_bounds(l) {
        Some((from, to)) => Some(l.subrange(from, to)),
        None => None,
    }
}

/// The characters of `chars` from `from` up to `to`.
pub fn slice_of(chars: &Vec<char>, from: usize, to: usize) -> (out: Vec<char>)
    requires
        from <= to <= chars.len(),
    ensures
        out@ == chars@.subrange(from as int, to as int),
{
    let mut out: Vec<char> = Vec::new();
    let mut i: usize = from;
    while i < to
        invariant
            from <= i <= to <= chars.len(),
            out@ == chars@.subrange(from as int, i as int),
        decreases to - i,
    {
        out.push(chars[i]);
        i += 1;
    }
    out
}

/// Whether two texts hold the same characters.
pub fn same_chars(a: &Vec<char>, b: &Vec<char>) -> (same: bool)
    ensures
        same == (a@ == b@),
{
    if a.len() != b.len() {
        return false;
    }
    let mut i: usize = 0;
    while i < a.len()
        invariant
            i <= a.len(),
            a.len() == b.len(),
            forall|k: int| 0 <= k < i ==> a@[k] == b@[k],
        decreases a.len() - i,
    {
        if a[i] != b[i] {
            return false;
        }
        i += 1;
    }
    assert(a@ =~= b@);
    true
}

/// Whether `text` is one of `texts`.
pub fn holds_chars(texts: &Vec<Vec<char>>, text: &Vec<char>) -> (b: bool)
    ensures
        b == texts.deep_view().contains(text@),
{
    let mut i: usize = 0;
    while i < texts.len()
        invariant
            i <= texts.len(),
            forall|j: int| 0 <= j < i ==> texts.deep_view()[j] != text@,
        decreases texts.len() - i,
    {
        assert(texts.deep_view()[i as int] =~= texts[i as int]@);
        if same_chars(&texts[i], text) {
            return true;
        }
        i += 1;
    }
    false
}

/// Where the line that starts at `from` ends, and where the next line starts.
pub fn scan_line(chars: &Vec<char>, from: usize) -> (at: (usize, usize))
    requires
        from < chars.len(),
    ensures
        at.0 == line_end(chars@, from as int),
        at.1 == next_line(chars@, from as int),
        from <= at.0 <= at.1 <= chars.len(),
        from < at.1,
{
    let mut e: usize = from;
    while e < chars.len() && chars[e] != '\n'
        invariant
            from <= e <= chars.len(),
            line_break(chars@, from as int) == line_break(chars@, e as int),
        decreases chars.len() - e,
    {
        e += 1;
    }
    if e < chars.len() {
        if from < e && chars[e - 1] == '\r' {
            (e - 1, e + 1)
        } else {
            (e, e + 1)
        }
    } else {
        (e, e)
    }
}

/// The first position at or after `i` that holds no white space.
pub fn skip_space_from(line: &Vec<char>, i: usize) -> (at: usize)
    requires
        i <= line.len(),
    ensures
        at == skip_space(line@, i as int),
        i <= at <= line.len(),
{
    let mut k: usize = i;
    while k < line.len() && is_white_space(line[k])
        invariant
            i <= k <= line.len(),
            skip_space(line@, i as int) == skip_space(line@, k as int),
        decreases line.len() - k,
    {
        k += 1;
    }
    k
}

/// The first position at or after `i` that holds white space.
pub fn skip_word_from(line: &Vec<char>, i: usize) -> (at: usize)
    requires
        i <= line.len(),
    ensures
        at == skip_word(line@, i as int),
        i <= at <= line.len(),
{
    let mut k: usize = i;
    while k < line.len() && !is_white_space(line[k])
        invariant
            i <= k <= line.len(),
            skip_word(line@, i as int) == skip_word(line@, k as int),
        decreases line.len() - k,
    {
        k += 1;
    }
    k
}

/// Where `line` starts and ends without the white space around it.
pub fn trim_bounds(line: &Vec<char>) -> (at: (usize, usize))
    ensures
        at.0 <= at.1 <= line.len(),
        line@.subrange(at.0 as int, at.1 as int) == trim(line@),
{
    let a = skip_space_from(line, 0);
    let mut b: usize = line.len();
    while a < b && is_white_space(line[b - 1])
        invariant
            a <= b <= line.len(),
            skip_space_back(line@, a as int, line.len() as int) == skip_space_back(
                line@,
                a as int,
                b as int,
            ),
        decreases b,
    {
        b -= 1;
    }
    (a, b)
}

/// Where the second word of `line` starts and ends, if it has two words.
pub fn find_second_word(line: &Vec<char>) -> (at: Option<(usize, usize)>)
    ensures
        match at {
            Some((from, to)) => from < to <= line.len() && second_word_bounds(line@) == Some(
                (from as int, to as int),
            ),
            None => second_word_bounds(line@) is None,
        },
{
    let first = skip_space_from(line, 0);
    let gap = skip_word_from(line, first);
    let from = skip_space_from(line, gap);
    let to = skip_word_from(line, from);
    if from < to {
        Some((from, to))
    } else {
        None
    }
}

} // verus!
