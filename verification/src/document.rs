//! The hosts document: a text of which one delimited section is managed.
//!
//! A document falls into a prefix, a managed block and a suffix. The managed
//! block starts at the first occurrence of the marker and ends with the line
//! of the next occurrence after it: the line feed that ends the closing marker
//! line belongs to the block. With an opening marker and no closing one,
//! everything from the opening marker to the end of the text counts as
//! managed, and the suffix is empty. Without any marker the whole text is
//! prefix.

use vstd::prelude::*;
use vstd::string::*;
use crate::text::{
    chars_of, find_from, first_match, first_match_from, lemma_first_match_from_spec,
};

verus! {

/// The line that opens and closes the managed block.
pub const SECTION_MARKER: &'static str = "# --+ Make Your Choice +--";

/// The marker, as characters.
pub open spec fn marker() -> Seq<char> {
    "# --+ Make Your Choice +--"@
}

/// Where the opening marker starts.
pub open spec fn opening(text: Seq<char>) -> Option<int> {
    first_match(text, marker())
}

/// Where the closing marker starts: the first occurrence of the marker that
/// begins after the end of the opening one.
pub open spec fn closing(text: Seq<char>) -> Option<int> {
    match opening(text) {
        Some(f) => first_match_from(text, marker(), f + marker().len()),
        None => None,
    }
}

/// The text before the managed block.
pub open spec fn prefix_of(text: Seq<char>) -> Seq<char> {
    match opening(text) {
        Some(f) => text.subrange(0, f),
        None => text,
    }
}

/// The text that follows the closing marker, the end of its line included;
/// empty where there is no closing marker.
pub open spec fn after_closing(text: Seq<char>) -> Seq<char> {
    match closing(text) {
        Some(l) => text.subrange(l + marker().len(), text.len() as int),
        None => Seq::empty(),
    }
}

/// The text after the managed block: what follows the closing marker line.
/// The line feed that ends that line belongs to the block; where the closing
/// marker is followed by something else, the suffix starts right there.
pub open spec fn suffix_of(text: Seq<char>) -> Seq<char> {
    let rest = after_closing(text);
    if rest.len() > 0 && rest[0] == '\n' {
        rest.subrange(1, rest.len() as int)
    } else {
        rest
    }
}

/// The text outside the two markers: what stands before the opening marker
/// and what stands after the closing one, from the end of its line on, so
/// that no line of the one runs into a line of the other.
pub open spec fn outside_of(text: Seq<char>) -> Seq<char> {
    prefix_of(text) + after_closing(text)
}

/// `s` ends with a line feed.
pub open spec fn ends_with_newline(s: Seq<char>) -> bool {
    s.len() > 0 && s.last() == '\n'
}

/// `inner`, with a line feed added unless it ends with one.
pub open spec fn terminated(inner: Seq<char>) -> Seq<char> {
    if ends_with_newline(inner) {
        inner
    } else {
        inner.push('\n')
    }
}

/// The managed block that holds `inner`: the marker line, the content ending
/// in one line feed of its own, and the marker line again. Empty content gives
/// no block at all.
pub open spec fn wrapped(inner: Seq<char>) -> Seq<char> {
    if inner.len() == 0 {
        Seq::empty()
    } else {
        marker() + seq!['\n'] + terminated(inner) + marker() + seq!['\n']
    }
}

/// What is put between a text without markers and a block appended to it.
pub open spec fn separator(text: Seq<char>) -> Seq<char> {
    if ends_with_newline(text) {
        seq!['\n']
    } else {
        seq!['\n', '\n']
    }
}

/// `text` with its managed block replaced by the block for `inner`.
///
/// With both markers the block, from the opening marker to the end of the
/// closing marker line, is replaced. With only an opening marker everything
/// from it on is replaced. Without markers a block is appended after a
/// separator; where there is no block to append, the text stays as it is.
pub open spec fn replaced(text: Seq<char>, inner: Seq<char>) -> Seq<char> {
    match opening(text) {
        Some(_) => prefix_of(text) + wrapped(inner) + suffix_of(text),
        None => if inner.len() == 0 {
            text
        } else {
            text + separator(text) + wrapped(inner)
        },
    }
}

/// What stands between the two markers, after the line feed that ends the
/// opening marker line; `None` unless both markers are there.
pub open spec fn managed_inner(text: Seq<char>) -> Option<Seq<char>> {
    match (opening(text), closing(text)) {
        (Some(f), Some(l)) => {
            let span = text.subrange(f + marker().len(), l);
            if span.len() > 0 && span[0] == '\n' {
                Some(span.subrange(1, span.len() as int))
            } else {
                Some(span)
            }
        },
        _ => None,
    }
}

/// Where the markers of a text stand, in characters.
pub struct MarkerPositions {
    /// Start of the opening marker.
    pub opening: usize,
    /// End of the opening marker.
    pub body: usize,
    /// Start and end of the closing marker, where there is one.
    pub closing: Option<(usize, usize)>,
    /// Start of the suffix: behind the closing marker line, or the end of the
    /// text where there is no closing marker.
    pub suffix: usize,
}

/// Where the markers of `text` stand; `None` where it has no marker.
pub fn locate_markers(text: &Vec<char>) -> (found: Option<MarkerPositions>)
    ensures
        match found {
            Some(at) => {
                &&& opening(text@) == Some(at.opening as int)
                &&& at.body == at.opening + marker().len()
                &&& at.body <= text@.len()
                &&& at.suffix <= text@.len()
                &&& suffix_of(text@) == text@.subrange(at.suffix as int, text@.len() as int)
                &&& match at.closing {
                    Some((l, end)) => {
                        &&& closing(text@) == Some(l as int)
                        &&& at.body <= l
                        &&& end == l + marker().len()
                        &&& end <= at.suffix
                    },
                    None => closing(text@) is None,
                }
            },
            None => opening(text@) is None && closing(text@) is None,
        },
{
    let pat = chars_of(SECTION_MARKER);
    let width = pat.len();
    let size = text.len();
    if size < width {
        proof {
            lemma_first_match_from_spec(text@, marker(), 0);
        }
        return None;
    }
    proof {
        lemma_first_match_from_spec(text@, marker(), 0);
    }
    match find_from(text, &pat, 0) {
        Some(f) => {
            let body = f + width;
            proof {
                lemma_first_match_from_spec(text@, marker(), body as int);
            }
            match find_from(text, &pat, body) {
                Some(l) => {
                    let end = l + width;
                    let suffix = if end < size && text[end] == '\n' {
                        end + 1
                    } else {
                        end
                    };
                    assert(suffix_of(text@) =~= text@.subrange(suffix as int, size as int));
                    Some(MarkerPositions { opening: f, body, closing: Some((l, end)), suffix })
                },
                None => {
                    assert(suffix_of(text@) =~= text@.subrange(size as int, size as int));
                    Some(MarkerPositions { opening: f, body, closing: None, suffix: size })
                },
            }
        },
        None => None,
    }
}

/// The managed block for `inner`.
pub fn wrap_section(inner: &str) -> (block: String)
    ensures
        block@ == wrapped(inner@),
{
    let mut block = String::new();
    let chars = chars_of(inner);
    if chars.len() > 0 {
        proof {
            reveal_strlit("\n");
        }
        block.append(SECTION_MARKER);
        block.append("\n");
        block.append(inner);
        if chars[chars.len() - 1] != '\n' {
            block.append("\n");
        }
        block.append(SECTION_MARKER);
        block.append("\n");
    }
    block
}

/// Replaces the managed block of `text` by the block for `new_inner_content`.
/// Text outside the block is kept as it is. Empty content removes the block,
/// markers included, and leaves a text without block unchanged.
pub fn replace_managed_section(text: &str, new_inner_content: &str) -> (out: String)
    ensures
        out@ == replaced(text@, new_inner_content@),
{
    let chars = chars_of(text);
    let block = wrap_section(new_inner_content);
    let mut out = String::new();
    match locate_markers(&chars) {
        Some(at) => {
            out.append(text.substring_char(0, at.opening));
            out.append(block.as_str());
            out.append(text.substring_char(at.suffix, chars.len()));
        },
        None => {
            proof {
                reveal_strlit("\n");
                reveal_strlit("\n\n");
            }
            out.append(text);
            if !new_inner_content.is_empty() {
                if chars.len() > 0 && chars[chars.len() - 1] == '\n' {
                    out.append("\n");
                } else {
                    out.append("\n\n");
                }
                out.append(block.as_str());
            }
        },
    }
    out
}

/// The text of `text` outside its two markers: what stands before the
/// opening marker, joined with what stands after the closing one.
pub fn outside_content(text: &str) -> (out: String)
    ensures
        out@ == outside_of(text@),
{
    let chars = chars_of(text);
    let mut out = String::new();
    match locate_markers(&chars) {
        Some(at) => {
            out.append(text.substring_char(0, at.opening));
            match at.closing {
                Some((_, end)) => {
                    out.append(text.substring_char(end, chars.len()));
                },
                None => {},
            }
        },
        None => {
            out.append(text);
        },
    }
    out
}

/// The content of the managed block of `text`, where both markers are there.
pub fn managed_section(text: &str) -> (inner: Option<String>)
    ensures
        match inner {
            Some(s) => managed_inner(text@) == Some(s@),
            None => managed_inner(text@) is None,
        },
{
    let chars = chars_of(text);
    match locate_markers(&chars) {
        Some(MarkerPositions { opening: _, body, closing: Some((l, _)), suffix: _ }) => {
            let start = if body < l && chars[body] == '\n' {
                body + 1
            } else {
                body
            };
            let inner = text.substring_char(start, l).to_string();
            Some(inner)
        },
        _ => None,
    }
}

} // verus!
