//! Searching in character sequences.
//!
//! Text is modelled as `Seq<char>`, the view of `str` and `String`. The
//! executable functions work on `Vec<char>`, which `chars_of` obtains from a
//! string slice, so that an index is a character position on both sides.

use vstd::prelude::*;
use vstd::string::*;

verus! {

/// `pat` occurs in `s` at character position `i`.
pub open spec fn occurs_at(s: Seq<char>, pat: Seq<char>, i: int) -> bool {
    &&& 0 <= i
    &&& i + pat.len() <= s.len()
    &&& s.subrange(i, i + pat.len()) == pat
}

/// `pat` occurs somewhere in `s`.
pub open spec fn contains(s: Seq<char>, pat: Seq<char>) -> bool {
    exists|i: int| occurs_at(s, pat, i)
}

/// `s` begins with `pat`.
pub open spec fn starts_with(s: Seq<char>, pat: Seq<char>) -> bool {
    occurs_at(s, pat, 0)
}

/// `i` is the first position at or after `from` where `pat` occurs in `s`.
pub open spec fn is_first_match_from(s: Seq<char>, pat: Seq<char>, from: int, i: int) -> bool {
    &&& from <= i
    &&& occurs_at(s, pat, i)
    &&& forall|j: int| from <= j < i ==> !occurs_at(s, pat, j)
}

/// No occurrence of `pat` in `s` starts at or after `from`.
pub open spec fn no_match_from(s: Seq<char>, pat: Seq<char>, from: int) -> bool {
    forall|j: int| from <= j ==> !occurs_at(s, pat, j)
}

/// The first position at or after `from` where `pat` occurs in `s`, if any.
pub open spec fn first_match_from(s: Seq<char>, pat: Seq<char>, from: int) -> Option<int> {
    if exists|i: int| from <= i && occurs_at(s, pat, i) {
        Some(choose|i: int| is_first_match_from(s, pat, from, i))
    } else {
        None
    }
}

/// The first position where `pat` occurs in `s`, if any.
pub open spec fn first_match(s: Seq<char>, pat: Seq<char>) -> Option<int> {
    first_match_from(s, pat, 0)
}

/// A position that is a first match is the value of `first_match_from`.
pub proof fn lemma_first_match_is(s: Seq<char>, pat: Seq<char>, from: int, i: int)
    requires
        is_first_match_from(s, pat, from, i),
    ensures
        first_match_from(s, pat, from) == Some(i),
{
}

/// Without an occurrence at or after `from` there is no first match.
pub proof fn lemma_first_match_none(s: Seq<char>, pat: Seq<char>, from: int)
    requires
        no_match_from(s, pat, from),
    ensures
        first_match_from(s, pat, from) is None,
{
}

/// What `first_match_from` returns is a first match, and `None` means that
/// there is no occurrence.
pub proof fn lemma_first_match_from_spec(s: Seq<char>, pat: Seq<char>, from: int)
    requires
        0 <= from,
    ensures
        match first_match_from(s, pat, from) {
            Some(i) => is_first_match_from(s, pat, from, i),
            None => no_match_from(s, pat, from),
        },
{
    if exists|i: int| from <= i && occurs_at(s, pat, i) {
        let w = choose|i: int| from <= i && occurs_at(s, pat, i);
        lemma_least_match(s, pat, from, w);
    }
}

/// Below any occurrence at or after `from` there is a first one.
proof fn lemma_least_match(s: Seq<char>, pat: Seq<char>, from: int, w: int)
    requires
        0 <= from <= w,
        occurs_at(s, pat, w),
    ensures
        exists|i: int| is_first_match_from(s, pat, from, i),
    decreases w - from,
{
    if occurs_at(s, pat, from) {
        assert(is_first_match_from(s, pat, from, from));
    } else {
        let next = from + 1;
        lemma_least_match(s, pat, next, w);
        let i = choose|i: int| is_first_match_from(s, pat, next, i);
        assert(is_first_match_from(s, pat, from, i));
    }
}

/// The characters of `s`, in order.
pub fn chars_of(s: &str) -> (out: Vec<char>)
    ensures
        out@ == s@,
{
    let mut out: Vec<char> = Vec::new();
    for c in it: s.chars()
        invariant
            it.seq() == s@,
            out@ == s@.subrange(0, it.index() as int),
    {
        out.push(c);
    }
    out
}

/// Whether `pat` occurs in `hay` at position `i`.
pub fn matches_at(hay: &Vec<char>, pat: &Vec<char>, i: usize) -> (b: bool)
    ensures
        b == occurs_at(hay@, pat@, i as int),
{
    if pat.len() > hay.len() || i > hay.len() - pat.len() {
        return false;
    }
    let mut k: usize = 0;
    while k < pat.len()
        invariant
            i + pat.len() <= hay.len(),
            k <= pat.len(),
            forall|j: int| 0 <= j < k ==> hay@[i + j] == pat@[j],
        decreases pat.len() - k,
    {
        if hay[i + k] != pat[k] {
            return false;
        }
        k += 1;
    }
    assert(hay@.subrange(i as int, i + pat.len()) =~= pat@);
    true
}

/// The first position at or after `from` where `pat` occurs in `hay`.
pub fn find_from(hay: &Vec<char>, pat: &Vec<char>, from: usize) -> (found: Option<usize>)
    ensures
        match found {
            Some(i) => first_match_from(hay@, pat@, from as int) == Some(i as int),
            None => first_match_from(hay@, pat@, from as int) is None,
        },
{
    if pat.len() > hay.len() || from > hay.len() - pat.len() {
        proof {
            lemma_first_match_none(hay@, pat@, from as int);
        }
        return None;
    }
    let last: usize = hay.len() - pat.len();
    let mut i: usize = from;
    while !matches_at(hay, pat, i)
        invariant
            from <= i <= last,
            last == hay.len() - pat.len(),
            forall|j: int| from <= j < i ==> !occurs_at(hay@, pat@, j),
        decreases last - i,
    {
        if i == last {
            proof {
                lemma_first_match_none(hay@, pat@, from as int);
            }
            return None;
        }
        i += 1;
    }
    proof {
        lemma_first_match_is(hay@, pat@, from as int, i as int);
    }
    Some(i)
}

/// Whether `hay` begins with `pat`.
pub fn has_prefix(hay: &Vec<char>, pat: &Vec<char>) -> (b: bool)
    ensures
        b == starts_with(hay@, pat@),
{
    matches_at(hay, pat, 0)
}

/// Whether `pat` occurs anywhere in `hay`.
pub fn has_match(hay: &Vec<char>, pat: &Vec<char>) -> (b: bool)
    ensures
        b == contains(hay@, pat@),
{
    let found = find_from(hay, pat, 0);
    proof {
        lemma_first_match_from_spec(hay@, pat@, 0);
    }
    found.is_some()
}

/// The lower-case form of a text: what `str::to_lowercase` of the standard
/// library returns for it. It follows the Unicode lower-case mappings and
/// depends on nothing but the text.
pub uninterp spec fn lowercase(s: Seq<char>) -> Seq<char>;

/// Calls `str::to_lowercase`. Not proved, but taken on trust: the result is
/// a function of the characters of `s` alone, which `lowercase` names.
#[verifier::external_body]
pub(crate) fn to_lowercase(s: &str) -> (lower: String)
    ensures
        lower@ == lowercase(s@),
{
    s.to_lowercase()
}

/// Whether `name` is one of `names`.
pub fn is_listed(names: &Vec<String>, name: &String) -> (b: bool)
    ensures
        b == names.deep_view().contains(name@),
{
    let mut i: usize = 0;
    while i < names.len()
        invariant
            i <= names.len(),
            forall|j: int| 0 <= j < i ==> names.deep_view()[j] != name@,
        decreases names.len() - i,
    {
        if names[i] == *name {
            assert(names.deep_view()[i as int] == name@);
            return true;
        }
        i += 1;
    }
    false
}

/// Appends a copy of `name` to `names`.
pub fn push_name(names: &mut Vec<String>, name: &String)
    ensures
        final(names).deep_view() == old(names).deep_view().push(name@),
{
    names.push(name.clone());
}

/// `s` from position `from` on, without the occurrences of `pat`. They are
/// sought from left to right, each after the end of the one before, so that
/// no two of them overlap. An empty `pat` removes nothing.
pub open spec fn without_from(s: Seq<char>, pat: Seq<char>, from: int) -> Seq<char>
    decreases s.len() - from,
{
    if from < 0 || from > s.len() {
        Seq::empty()
    } else if pat.len() == 0 {
        s.subrange(from, s.len() as int)
    } else {
        match first_match_from(s, pat, from) {
            Some(i) => {
                proof {
                    lemma_first_match_from_spec(s, pat, from);
                }
                s.subrange(from, i) + without_from(s, pat, i + pat.len())
            },
            None => s.subrange(from, s.len() as int),
        }
    }
}

/// `s` without the occurrences of `pat`.
pub open spec fn without(s: Seq<char>, pat: Seq<char>) -> Seq<char> {
    without_from(s, pat, 0)
}

/// `text` without the occurrences of `pat`, sought from left to right.
pub fn remove_all(text: &str, pat: &str) -> (out: String)
    ensures
        out@ == without(text@, pat@),
{
    let chars = chars_of(text);
    let wanted = chars_of(pat);
    let mut out = String::new();
    if wanted.len() == 0 {
        out.append(text);
        return out;
    }
    let mut from: usize = 0;
    loop
        invariant
            from <= chars.len(),
            chars@ == text@,
            wanted@ == pat@,
            wanted.len() > 0,
            without(text@, pat@) == out@ + without_from(text@, pat@, from as int),
        decreases chars.len() - from,
    {
        proof {
            lemma_first_match_from_spec(text@, pat@, from as int);
        }
        match find_from(&chars, &wanted, from) {
            Some(i) => {
                out.append(text.substring_char(from, i));
                from = i + wanted.len();
            },
            None => {
                out.append(text.substring_char(from, chars.len()));
                return out;
            },
        }
    }
}

} // verus!
