//! What holds of a document after its managed block has been replaced.

use vstd::prelude::*;
use crate::document::{
    after_closing, closing, ends_with_newline, managed_inner, marker, opening, prefix_of,
    replaced, separator, suffix_of, terminated, wrapped,
};
use crate::text::{contains, lemma_first_match_from_spec, lemma_first_match_is, occurs_at};

verus! {

/// The marker has 26 characters, none of them a line feed.
pub proof fn lemma_marker_shape()
    ensures
        marker().len() == 26,
        forall|k: int| 0 <= k < 26 ==> marker()[k] != '\n',
{
    reveal_strlit("# --+ Make Your Choice +--");
}

/// An occurrence of the marker covers no line feed.
pub proof fn lemma_marker_skips_newline(s: Seq<char>, j: int, k: int)
    requires
        occurs_at(s, marker(), j),
        j <= k < j + 26,
    ensures
        s[k] != '\n',
{
    lemma_marker_shape();
    assert(s.subrange(j, j + 26)[k - j] == s[k]);
}

/// An occurrence that ends within the first of two joined texts is an
/// occurrence in that text.
proof fn lemma_occurrence_in_front(a: Seq<char>, b: Seq<char>, pat: Seq<char>, j: int)
    requires
        occurs_at(a + b, pat, j),
        j + pat.len() <= a.len(),
    ensures
        occurs_at(a, pat, j),
{
    assert(a.subrange(j, j + pat.len()) =~= (a + b).subrange(j, j + pat.len()));
}

/// No marker starts inside `front` when the marker is put behind it.
pub open spec fn no_early_marker(front: Seq<char>) -> bool {
    forall|j: int| 0 <= j < front.len() ==> !occurs_at(front + marker(), marker(), j)
}

/// The text before the first marker has no early marker.
proof fn lemma_prefix_no_early_marker(text: Seq<char>)
    requires
        opening(text) is Some,
    ensures
        no_early_marker(prefix_of(text)),
{
    lemma_first_match_from_spec(text, marker(), 0);
    lemma_marker_shape();
    let f = opening(text)->0;
    let front = text.subrange(0, f);
    assert forall|j: int| 0 <= j < front.len() implies !occurs_at(front + marker(), marker(), j) by {
        if occurs_at(front + marker(), marker(), j) {
            assert(text.subrange(j, j + 26) =~= (front + marker()).subrange(j, j + 26)) by {
                assert forall|i: int| j <= i < j + 26 implies #[trigger] text[i] == (front
                    + marker())[i] by {
                }
            }
            assert(occurs_at(text, marker(), j));
        }
    }
}

/// A text without marker, followed by its separator, has no early marker.
proof fn lemma_separated_no_early_marker(text: Seq<char>)
    requires
        opening(text) is None,
    ensures
        no_early_marker(text + separator(text)),
{
    lemma_first_match_from_spec(text, marker(), 0);
    lemma_marker_shape();
    let front = text + separator(text);
    assert forall|j: int| 0 <= j < front.len() implies !occurs_at(front + marker(), marker(), j) by {
        if occurs_at(front + marker(), marker(), j) {
            if j + 26 <= text.len() {
                lemma_occurrence_in_front(front, marker(), marker(), j);
                lemma_occurrence_in_front(text, separator(text), marker(), j);
            } else {
                let k = if j < text.len() {
                    text.len() as int
                } else {
                    j
                };
                lemma_marker_skips_newline(front + marker(), j, k);
            }
        }
    }
}

/// A text put together from a front without early marker, a block whose
/// content holds no marker, and any rest has its markers where the block's
/// marker lines are.
proof fn lemma_assembled(front: Seq<char>, body: Seq<char>, rest: Seq<char>)
    requires
        no_early_marker(front),
        ends_with_newline(body),
        !contains(body.drop_last(), marker()),
    ensures
        ({
            let text = front + marker() + seq!['\n'] + body + marker() + seq!['\n'] + rest;
            &&& opening(text) == Some(front.len() as int)
            &&& closing(text) == Some((front.len() + 26 + 1 + body.len()) as int)
        }),
{
    lemma_marker_shape();
    let nl = seq!['\n'];
    let text = front + marker() + nl + body + marker() + nl + rest;
    let f = front.len() as int;
    let start = f + 26 + 1;
    let c = start + body.len();
    assert(text.subrange(f, f + 26) =~= marker());
    assert(text.subrange(c, c + 26) =~= marker());
    assert forall|j: int| 0 <= j < f implies !occurs_at(text, marker(), j) by {
        if occurs_at(text, marker(), j) {
            assert((front + marker()).subrange(j, j + 26) =~= text.subrange(j, j + 26));
            assert(occurs_at(front + marker(), marker(), j));
        }
    }
    lemma_first_match_is(text, marker(), 0, f);
    assert forall|j: int| f + 26 <= j < c implies !occurs_at(text, marker(), j) by {
        if occurs_at(text, marker(), j) {
            if j == f + 26 {
                lemma_marker_skips_newline(text, j, j);
            } else if j + 26 > c - 1 {
                lemma_marker_skips_newline(text, j, c - 1);
            } else {
                assert(body.drop_last().subrange(j - start, j - start + 26) =~= text.subrange(
                    j,
                    j + 26,
                ));
                assert(occurs_at(body.drop_last(), marker(), j - start));
            }
        }
    }
    lemma_first_match_is(text, marker(), f + 26, c);
}

/// What comes before the block in `replaced(text, ..)`: the prefix of `text`,
/// followed by the separator where `text` has no marker.
pub open spec fn front_of(text: Seq<char>) -> Seq<char> {
    if opening(text) is Some {
        prefix_of(text)
    } else {
        text + separator(text)
    }
}

/// The content of a block holds no marker, if the text it was made of holds none.
proof fn lemma_terminated_clean(inner: Seq<char>)
    requires
        inner.len() > 0,
        !contains(inner, marker()),
    ensures
        ends_with_newline(terminated(inner)),
        !contains(terminated(inner).drop_last(), marker()),
{
    let body = terminated(inner);
    if contains(body.drop_last(), marker()) {
        let j = choose|j: int| occurs_at(body.drop_last(), marker(), j);
        if ends_with_newline(inner) {
            assert(inner.subrange(j, j + marker().len()) =~= inner.drop_last().subrange(
                j,
                j + marker().len(),
            ));
            assert(occurs_at(inner, marker(), j));
        } else {
            assert(body.drop_last() =~= inner);
        }
    }
}

/// Where the parts of a document stand after its managed block was replaced
/// by non-empty content that holds no marker: the block follows what stood
/// before it, both of its markers are found, its content reads back as it
/// was written (with its final line feed), and what followed the old block
/// follows the new one.
pub proof fn lemma_replaced_layout(text: Seq<char>, inner: Seq<char>)
    requires
        inner.len() > 0,
        !contains(inner, marker()),
    ensures
        replaced(text, inner) == front_of(text) + wrapped(inner) + suffix_of(text),
        opening(replaced(text, inner)) == Some(front_of(text).len() as int),
        closing(replaced(text, inner)) is Some,
        prefix_of(replaced(text, inner)) == front_of(text),
        managed_inner(replaced(text, inner)) == Some(terminated(inner)),
        suffix_of(replaced(text, inner)) == suffix_of(text),
{
    lemma_marker_shape();
    let front = front_of(text);
    let body = terminated(inner);
    let rest = suffix_of(text);
    let nl = seq!['\n'];
    let out = replaced(text, inner);
    if opening(text) is Some {
        lemma_prefix_no_early_marker(text);
    } else {
        lemma_separated_no_early_marker(text);
    }
    lemma_terminated_clean(inner);
    lemma_assembled(front, body, rest);
    assert(out =~= front + marker() + nl + body + marker() + nl + rest);
    assert(after_closing(out) =~= nl + rest);
    assert(suffix_of(out) =~= rest);
}

/// Content that ends with a line feed and holds no marker reads back from the
/// managed block exactly as it was written; content without a final line feed
/// reads back with one added.
pub proof fn lemma_block_round_trip(text: Seq<char>, inner: Seq<char>)
    requires
        inner.len() > 0,
        !contains(inner, marker()),
    ensures
        managed_inner(replaced(text, inner)) == Some(terminated(inner)),
        ends_with_newline(inner) ==> managed_inner(replaced(text, inner)) == Some(inner),
        !ends_with_newline(inner) ==> managed_inner(replaced(text, inner)) == Some(
            inner.push('\n'),
        ),
{
    lemma_replaced_layout(text, inner);
}

/// Writing the same content a second time changes nothing: the text is, to
/// the character, what the first writing left.
pub proof fn lemma_reapply_same_block(text: Seq<char>, inner: Seq<char>)
    requires
        inner.len() > 0,
        !contains(inner, marker()),
    ensures
        replaced(replaced(text, inner), inner) == replaced(text, inner),
{
    lemma_replaced_layout(text, inner);
    lemma_replaced_layout(replaced(text, inner), inner);
}

/// Writing new content over a block that was written before replaces that
/// block and nothing else: the result is what writing the new content in the
/// first place would have given.
pub proof fn lemma_rewrite_replaces_block(text: Seq<char>, first: Seq<char>, second: Seq<char>)
    requires
        first.len() > 0,
        !contains(first, marker()),
        second.len() > 0,
    ensures
        replaced(replaced(text, first), second) == replaced(text, second),
{
    lemma_replaced_layout(text, first);
    let once = replaced(text, first);
    assert(replaced(once, second) =~= front_of(text) + wrapped(second) + suffix_of(text));
    assert(replaced(text, second) =~= front_of(text) + wrapped(second) + suffix_of(text));
}

/// Removing the block after it was written leaves nothing of the block
/// behind: what stood before it and what stood after it are kept as they
/// were before the writing, and joined. A text that had no block before the
/// writing keeps the separator that was put behind it.
pub proof fn lemma_revert_keeps_outside(text: Seq<char>, inner: Seq<char>)
    requires
        inner.len() > 0,
        !contains(inner, marker()),
    ensures
        replaced(replaced(text, inner), Seq::empty()) == front_of(text) + suffix_of(text),
        opening(text) is Some ==> replaced(replaced(text, inner), Seq::empty()) == replaced(
            text,
            Seq::empty(),
        ),
{
    lemma_replaced_layout(text, inner);
}

/// Replacing a complete block changes the block and nothing else: what
/// stands before the opening marker and what stands behind the line feed of
/// the closing marker line are kept to the character, with the new block
/// between them. With empty content the two are joined.
pub proof fn lemma_complete_block_replaced(text: Seq<char>, inner: Seq<char>, f: int, l: int)
    requires
        opening(text) == Some(f),
        closing(text) == Some(l),
        l + marker().len() < text.len(),
        text[l + marker().len()] == '\n',
    ensures
        replaced(text, inner) == text.subrange(0, f) + wrapped(inner) + text.subrange(
            l + marker().len() + 1,
            text.len() as int,
        ),
{
    lemma_first_match_from_spec(text, marker(), 0);
    lemma_first_match_from_spec(text, marker(), f + marker().len());
    let rest = after_closing(text);
    assert(rest.subrange(1, rest.len() as int) =~= text.subrange(
        l + marker().len() + 1,
        text.len() as int,
    ));
}

/// Removing the block of a text that has none changes nothing.
pub proof fn lemma_revert_without_block(text: Seq<char>)
    requires
        opening(text) is None,
    ensures
        replaced(text, Seq::empty()) == text,
{
}

/// Replacing the block of a text that has an opening marker and no closing
/// one drops everything from the opening marker on: the result is the text
/// before that marker followed by the new block, and nothing more.
pub proof fn lemma_unclosed_block_dropped(text: Seq<char>, inner: Seq<char>)
    requires
        opening(text) is Some,
        closing(text) is None,
    ensures
        replaced(text, inner) == prefix_of(text) + wrapped(inner),
        inner.len() > 0 && !contains(inner, marker()) ==> {
            &&& closing(replaced(text, inner)) is Some
            &&& suffix_of(replaced(text, inner)) == Seq::<char>::empty()
        },
{
    if inner.len() > 0 && !contains(inner, marker()) {
        lemma_replaced_layout(text, inner);
    }
}

} // verus!
