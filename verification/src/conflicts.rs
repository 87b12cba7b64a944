//! Entries outside the managed block that name a managed hostname.
//!
//! Such an entry is a line that is neither empty nor a comment and whose
//! second word, compared in lower case, is a hostname of the catalog.

use vstd::prelude::*;
use vstd::string::*;
use crate::document::ends_with_newline;
use crate::lines::{
    find_second_word, holds_chars, lemma_line_break_bounds, lemma_trim_idempotent, line_break,
    line_end, lines, lines_from, next_line, scan_line, second_word, slice_of, trim, trim_bounds,
};
use crate::region::{CatalogModel, RegionInfo};
use crate::text::{chars_of, is_listed, lowercase, push_name, to_lowercase};

verus! {

/// `host` is the lower-case form of hostname `j` of one of the first `i`
/// regions, or of one of the first `j` hostnames of region `i`.
pub open spec fn is_managed_before(catalog: CatalogModel, i: int, j: int, host: Seq<char>) -> bool {
    exists|a: int, b: int|
        0 <= a < catalog.len() && 0 <= b < catalog[a].1.hosts.len() && (a < i || (a == i && b
            < j)) && lowercase(#[trigger] catalog[a].1.hosts[b]) == host
}

/// `host` is the lower-case form of a hostname of the catalog.
pub open spec fn is_managed_host(catalog: CatalogModel, host: Seq<char>) -> bool {
    is_managed_before(catalog, catalog.len() as int, 0, host)
}

/// The hostnames of the catalog in lower case, each of them once.
pub fn managed_hostnames(regions: &Vec<(String, RegionInfo)>) -> (hostnames: Vec<String>)
    ensures
        hostnames.deep_view().no_duplicates(),
        forall|host: Seq<char>|
            hostnames.deep_view().contains(host) <==> is_managed_host(regions.deep_view(), host),
{
    let ghost catalog = regions.deep_view();
    let mut hostnames: Vec<String> = Vec::new();
    let mut i: usize = 0;
    while i < regions.len()
        invariant
            i <= regions.len(),
            catalog == regions.deep_view(),
            hostnames.deep_view().no_duplicates(),
            forall|host: Seq<char>|
                hostnames.deep_view().contains(host) <==> is_managed_before(
                    catalog,
                    i as int,
                    0,
                    host,
                ),
        decreases regions.len() - i,
    {
        let hosts = &regions[i].1.hosts;
        let ghost at = i as int;
        let mut j: usize = 0;
        while j < hosts.len()
            invariant
                j <= hosts.len(),
                at == i < regions.len(),
                catalog == regions.deep_view(),
                catalog[at].1.hosts == hosts.deep_view(),
                hostnames.deep_view().no_duplicates(),
                forall|host: Seq<char>|
                    hostnames.deep_view().contains(host) <==> is_managed_before(
                        catalog,
                        at,
                        j as int,
                        host,
                    ),
            decreases hosts.len() - j,
        {
            let ghost before = hostnames.deep_view();
            let ghost pos = j as int;
            let lowered = to_lowercase(hosts[j].as_str());
            let known = is_listed(&hostnames, &lowered);
            if !known {
                push_name(&mut hostnames, &lowered);
            }
            j += 1;
            proof {
                assert forall|host: Seq<char>|
                    hostnames.deep_view().contains(host) <==> is_managed_before(
                        catalog,
                        at,
                        j as int,
                        host,
                    ) by {
                    lemma_managed_next(catalog, at, pos, host);
                    if !known {
                        lemma_pushed(before, lowered@, host);
                    }
                }
            }
        }
        i += 1;
        proof {
            assert forall|host: Seq<char>|
                is_managed_before(catalog, at, hosts.len() as int, host) <==> is_managed_before(
                    catalog,
                    at + 1,
                    0,
                    host,
                ) by {
                lemma_managed_row(catalog, at, host);
            }
        }
    }
    hostnames
}

/// A list without duplicates stays so when an item that it does not hold is
/// added, and then holds what it held before, and that item.
proof fn lemma_pushed(list: Seq<Seq<char>>, item: Seq<char>, x: Seq<char>)
    requires
        list.no_duplicates(),
        !list.contains(item),
    ensures
        list.push(item).no_duplicates(),
        list.push(item).contains(x) <==> list.contains(x) || x == item,
{
    if list.contains(x) {
        let w = choose|w: int| 0 <= w < list.len() && list[w] == x;
        assert(list.push(item)[w] == x);
    }
    if x == item {
        assert(list.push(item)[list.len() as int] == x);
    }
}

/// What one more hostname of region `i` adds to the managed hostnames.
proof fn lemma_managed_next(catalog: CatalogModel, i: int, j: int, host: Seq<char>)
    requires
        0 <= i < catalog.len(),
        0 <= j < catalog[i].1.hosts.len(),
    ensures
        is_managed_before(catalog, i, j + 1, host) <==> is_managed_before(catalog, i, j, host)
            || lowercase(catalog[i].1.hosts[j]) == host,
{
}

/// All hostnames of region `i` taken is the same as none of region `i + 1`.
proof fn lemma_managed_row(catalog: CatalogModel, i: int, host: Seq<char>)
    requires
        0 <= i < catalog.len(),
    ensures
        is_managed_before(catalog, i, catalog[i].1.hosts.len() as int, host) <==> is_managed_before(
            catalog,
            i + 1,
            0,
            host,
        ),
{
}

/// The entry that `line` holds for a managed hostname: the line without the
/// white space around it, where it is neither empty nor a comment and its
/// second word is a managed hostname in any letter case.
pub open spec fn conflict_entry(catalog: CatalogModel, line: Seq<char>) -> Option<Seq<char>> {
    let entry = trim(line);
    if entry.len() == 0 || entry[0] == '#' {
        None
    } else {
        match second_word(entry) {
            Some(host) => if is_managed_host(catalog, lowercase(host)) {
                Some(entry)
            } else {
                None
            },
            None => None,
        }
    }
}

/// The entries for managed hostnames among `lines`, each of them once, in the
/// order in which they first occur.
pub open spec fn conflicts_among(catalog: CatalogModel, lines: Seq<Seq<char>>) -> Seq<Seq<char>>
    decreases lines.len(),
{
    if lines.len() == 0 {
        Seq::empty()
    } else {
        let found = conflicts_among(catalog, lines.drop_last());
        match conflict_entry(catalog, lines.last()) {
            Some(entry) => if found.contains(entry) {
                found
            } else {
                found.push(entry)
            },
            None => found,
        }
    }
}

/// An entry is found among `lines` exactly where it is the entry of one of
/// them.
pub proof fn lemma_conflicts_membership(
    catalog: CatalogModel,
    lines: Seq<Seq<char>>,
    entry: Seq<char>,
)
    ensures
        conflicts_among(catalog, lines).contains(entry) <==> exists|k: int|
            0 <= k < lines.len() && conflict_entry(catalog, #[trigger] lines[k]) == Some(entry),
    decreases lines.len(),
{
    if lines.len() > 0 {
        let front = lines.drop_last();
        let found = conflicts_among(catalog, front);
        lemma_conflicts_membership(catalog, front, entry);
        if found.contains(entry) {
            let w = choose|w: int| 0 <= w < found.len() && found[w] == entry;
            assert(conflicts_among(catalog, lines)[w] == entry);
        }
        if conflict_entry(catalog, lines.last()) == Some(entry) {
            if !found.contains(entry) {
                assert(found.push(entry)[found.len() as int] == entry);
            }
        }
        if exists|k: int|
            0 <= k < lines.len() && conflict_entry(catalog, #[trigger] lines[k]) == Some(entry) {
            let k = choose|k: int|
                0 <= k < lines.len() && conflict_entry(catalog, #[trigger] lines[k]) == Some(
                    entry,
                );
            if k < lines.len() - 1 {
                assert(front[k] == lines[k]);
            }
        }
    }
}

/// No entry is found twice.
pub proof fn lemma_conflicts_distinct(catalog: CatalogModel, lines: Seq<Seq<char>>)
    ensures
        conflicts_among(catalog, lines).no_duplicates(),
    decreases lines.len(),
{
    if lines.len() > 0 {
        lemma_conflicts_distinct(catalog, lines.drop_last());
    }
}

/// The entries of `outside` that name a managed hostname, each of them once,
/// in the order in which they first occur.
pub fn find_conflicts(outside: &str, regions: &Vec<(String, RegionInfo)>) -> (conflicts: Vec<
    String,
>)
    ensures
        conflicts.deep_view() == conflicts_among(regions.deep_view(), lines(outside@)),
{
    let ghost catalog = regions.deep_view();
    let managed = managed_hostnames(regions);
    let chars = chars_of(outside);
    let mut conflicts: Vec<String> = Vec::new();
    let ghost mut done: Seq<Seq<char>> = Seq::empty();
    let mut from: usize = 0;
    while from < chars.len()
        invariant
            from <= chars.len(),
            chars@ == outside@,
            catalog == regions.deep_view(),
            forall|host: Seq<char>|
                managed.deep_view().contains(host) <==> is_managed_host(catalog, host),
            lines(outside@) == done + lines_from(chars@, from as int),
            conflicts.deep_view() == conflicts_among(catalog, done),
        decreases chars.len() - from,
    {
        let (end, next) = scan_line(&chars, from);
        let line = slice_of(&chars, from, end);
        let (a, b) = trim_bounds(&line);
        let entry = slice_of(&line, a, b);
        proof {
            assert(done.push(line@).drop_last() =~= done);
        }
        if entry.len() > 0 && entry[0] != '#' {
            match find_second_word(&entry) {
                Some((p, q)) => {
                    let host = outside.substring_char(from + a + p, from + a + q);
                    assert(host@ =~= entry@.subrange(p as int, q as int));
                    let lowered = to_lowercase(host);
                    if is_listed(&managed, &lowered) {
                        let text = outside.substring_char(from + a, from + b).to_string();
                        assert(text@ =~= entry@);
                        if !is_listed(&conflicts, &text) {
                            push_name(&mut conflicts, &text);
                        }
                    }
                },
                None => {},
            }
        }
        proof {
            done = done.push(line@);
        }
        from = next;
    }
    conflicts
}

/// `line`, without the white space around it, is one of `unwanted`, each of
/// them taken without the white space around it.
pub open spec fn is_unwanted(unwanted: Seq<Seq<char>>, line: Seq<char>) -> bool {
    exists|k: int| 0 <= k < unwanted.len() && trim(#[trigger] unwanted[k]) == trim(line)
}

/// Every line in which an entry is detected is unwanted once the detected
/// entries are given to be cleared: clearing what was detected keeps no line
/// that holds such an entry.
pub proof fn lemma_detected_lines_are_unwanted(
    catalog: CatalogModel,
    lines: Seq<Seq<char>>,
    k: int,
)
    requires
        0 <= k < lines.len(),
        conflict_entry(catalog, lines[k]) is Some,
    ensures
        is_unwanted(conflicts_among(catalog, lines), lines[k]),
{
    let found = conflicts_among(catalog, lines);
    let entry = conflict_entry(catalog, lines[k])->0;
    lemma_conflicts_membership(catalog, lines, entry);
    let w = choose|w: int| 0 <= w < found.len() && found[w] == entry;
    lemma_trim_idempotent(lines[k]);
    assert(trim(found[w]) == trim(lines[k]));
}

/// The line that starts at `from`, without its line ending.
pub open spec fn line_at(s: Seq<char>, from: int) -> Seq<char> {
    s.subrange(from, line_end(s, from))
}

/// The line ending of the line that starts at `from`: a line feed, a carriage
/// return and a line feed, or nothing where the text ends without one.
pub open spec fn ending_at(s: Seq<char>, from: int) -> Seq<char> {
    s.subrange(line_end(s, from), next_line(s, from))
}

/// The lines of `s` from position `from` on that are not unwanted, each as it
/// stands in `s`, with its own line ending.
pub open spec fn kept_from(s: Seq<char>, unwanted: Seq<Seq<char>>, from: int) -> Seq<char>
    decreases s.len() - from,
{
    if from < 0 || from >= s.len() {
        Seq::empty()
    } else {
        proof {
            lemma_line_break_bounds(s, from);
        }
        (if is_unwanted(unwanted, line_at(s, from)) {
            Seq::empty()
        } else {
            line_at(s, from) + ending_at(s, from)
        }) + kept_from(s, unwanted, next_line(s, from))
    }
}

/// The lines of `s` from position `from` on that are not unwanted, each as it
/// stands in `s`, up to the end of the last of them that is not empty: that
/// line stands without its line ending, and empty lines behind it are left
/// out.
pub open spec fn kept_solid_from(s: Seq<char>, unwanted: Seq<Seq<char>>, from: int) -> Seq<char>
    decreases s.len() - from,
{
    if from < 0 || from >= s.len() {
        Seq::empty()
    } else {
        proof {
            lemma_line_break_bounds(s, from);
        }
        let rest = kept_solid_from(s, unwanted, next_line(s, from));
        if is_unwanted(unwanted, line_at(s, from)) {
            rest
        } else if rest.len() == 0 {
            line_at(s, from)
        } else {
            line_at(s, from) + ending_at(s, from) + rest
        }
    }
}

/// The line ending with which `s` ends; empty where it ends with none.
pub open spec fn final_ending(s: Seq<char>) -> Seq<char> {
    if !ends_with_newline(s) {
        Seq::empty()
    } else if s.len() >= 2 && s[s.len() - 2] == '\r' {
        seq!['\r', '\n']
    } else {
        seq!['\n']
    }
}

/// `text` without its unwanted lines. Every line that is kept stands as it
/// stood, to the character, and keeps its own line ending.
///
/// The result ends with a line ending exactly where `text` does. Where `text`
/// ends with one and no line is kept, that line ending is what is left. Where
/// `text` ends without one, the result ends with its last line that is not
/// empty, which stands without its line ending.
pub open spec fn without_lines(text: Seq<char>, unwanted: Seq<Seq<char>>) -> Seq<char> {
    if !ends_with_newline(text) {
        kept_solid_from(text, unwanted, 0)
    } else if kept_from(text, unwanted, 0).len() == 0 {
        final_ending(text)
    } else {
        kept_from(text, unwanted, 0)
    }
}

/// With nothing unwanted, every line is kept.
proof fn lemma_all_kept(s: Seq<char>, from: int)
    requires
        0 <= from <= s.len(),
    ensures
        kept_from(s, Seq::empty(), from) == s.subrange(from, s.len() as int),
        !ends_with_newline(s) ==> kept_solid_from(s, Seq::empty(), from) == s.subrange(
            from,
            s.len() as int,
        ),
    decreases s.len() - from,
{
    let none = Seq::<Seq<char>>::empty();
    if from < s.len() {
        lemma_line_break_bounds(s, from);
        let next = next_line(s, from);
        lemma_all_kept(s, next);
        assert(!is_unwanted(none, line_at(s, from)));
        assert(line_at(s, from) + ending_at(s, from) =~= s.subrange(from, next));
        assert(s.subrange(from, next) + s.subrange(next, s.len() as int) =~= s.subrange(
            from,
            s.len() as int,
        ));
        if !ends_with_newline(s) && kept_solid_from(s, none, next).len() == 0 {
            assert(next == s.len());
            assert(line_at(s, from) =~= s.subrange(from, s.len() as int));
        }
    }
}

/// Clearing nothing changes nothing.
pub proof fn lemma_nothing_cleared(text: Seq<char>)
    ensures
        without_lines(text, Seq::empty()) == text,
{
    lemma_all_kept(text, 0);
    assert(text.subrange(0, text.len() as int) =~= text);
}

/// What is kept of a text that ends with a line ending ends with one, unless
/// nothing is kept.
pub proof fn lemma_kept_ends_line(s: Seq<char>, unwanted: Seq<Seq<char>>, from: int)
    requires
        0 <= from,
        ends_with_newline(s),
        kept_from(s, unwanted, from).len() > 0,
    ensures
        ends_with_newline(kept_from(s, unwanted, from)),
    decreases s.len() - from,
{
    if from < s.len() {
        lemma_line_break_bounds(s, from);
        let next = next_line(s, from);
        if kept_from(s, unwanted, next).len() > 0 {
            lemma_kept_ends_line(s, unwanted, next);
        } else {
            assert(line_break(s, from) < s.len());
            assert(ending_at(s, from).last() == '\n');
        }
    }
}

/// What is kept up to the last line that is not empty ends with no line
/// ending.
proof fn lemma_solid_ends_no_line(s: Seq<char>, unwanted: Seq<Seq<char>>, from: int)
    requires
        0 <= from,
    ensures
        !ends_with_newline(kept_solid_from(s, unwanted, from)),
    decreases s.len() - from,
{
    if from < s.len() {
        lemma_line_break_bounds(s, from);
        lemma_solid_ends_no_line(s, unwanted, next_line(s, from));
        let line = line_at(s, from);
        if line.len() > 0 {
            assert(line.last() == s[line_end(s, from) - 1]);
        }
    }
}

/// A text ends with a line ending after its unwanted lines were cleared
/// exactly where it ended with one before.
pub proof fn lemma_cleared_keeps_final_ending(text: Seq<char>, unwanted: Seq<Seq<char>>)
    ensures
        ends_with_newline(without_lines(text, unwanted)) == ends_with_newline(text),
{
    if ends_with_newline(text) {
        if kept_from(text, unwanted, 0).len() > 0 {
            lemma_kept_ends_line(text, unwanted, 0);
        }
    } else {
        lemma_solid_ends_no_line(text, unwanted, 0);
    }
}

/// Each of `texts` without the white space around it.
fn trimmed_all(texts: &Vec<String>) -> (out: Vec<Vec<char>>)
    ensures
        out.deep_view().len() == texts.len(),
        forall|k: int| 0 <= k < texts.len() ==> out.deep_view()[k] == trim(texts.deep_view()[k]),
{
    let mut out: Vec<Vec<char>> = Vec::new();
    let mut k: usize = 0;
    while k < texts.len()
        invariant
            k <= texts.len(),
            out.len() == k,
            forall|m: int| 0 <= m < k ==> out.deep_view()[m] == trim(texts.deep_view()[m]),
        decreases texts.len() - k,
    {
        let ghost before = out.deep_view();
        let chars = chars_of(texts[k].as_str());
        let (a, b) = trim_bounds(&chars);
        let entry = slice_of(&chars, a, b);
        out.push(entry);
        proof {
            assert forall|m: int| 0 <= m < k implies out.deep_view()[m] == trim(
                texts.deep_view()[m],
            ) by {
                assert(out.deep_view()[m] == before[m]);
            }
        }
        k += 1;
    }
    out
}

/// `text` without the lines that are, white space around them aside, one of
/// `unwanted`. Every other line is kept as it stands, with its own line
/// ending, and the result ends with a line ending exactly where `text` does.
pub fn remove_lines(text: &str, unwanted: &Vec<String>) -> (cleaned: String)
    ensures
        cleaned@ == without_lines(text@, unwanted.deep_view()),
{
    let ghost drop = unwanted.deep_view();
    let wanted_out = trimmed_all(unwanted);
    let chars = chars_of(text);
    let size = chars.len();
    let mut cleaned = String::new();
    // What was kept behind the last line that is not empty: line endings
    // only. They are written when such a line follows, or at the end where
    // the text ends with a line ending.
    let mut held = String::new();
    let mut any = false;
    let mut from: usize = 0;
    while from < size
        invariant
            from <= size == chars.len(),
            chars@ == text@,
            drop == unwanted.deep_view(),
            wanted_out.deep_view().len() == drop.len(),
            forall|k: int| 0 <= k < drop.len() ==> wanted_out.deep_view()[k] == trim(drop[k]),
            any == (cleaned@.len() + held@.len() > 0),
            kept_from(text@, drop, 0) == cleaned@ + held@ + kept_from(text@, drop, from as int),
            kept_solid_from(text@, drop, 0) == if kept_solid_from(text@, drop, from as int).len()
                == 0 {
                cleaned@
            } else {
                cleaned@ + held@ + kept_solid_from(text@, drop, from as int)
            },
        decreases size - from,
    {
        let (end, next) = scan_line(&chars, from);
        let line = slice_of(&chars, from, end);
        let (a, b) = trim_bounds(&line);
        let entry = slice_of(&line, a, b);
        let ghost before = cleaned@;
        let ghost pending = held@;
        let ghost ending = text@.subrange(end as int, next as int);
        let ghost kept_rest = kept_from(text@, drop, next as int);
        let ghost solid_rest = kept_solid_from(text@, drop, next as int);
        proof {
            lemma_line_break_bounds(text@, from as int);
            if is_unwanted(drop, line@) {
                let k = choose|k: int| 0 <= k < drop.len() && trim(#[trigger] drop[k]) == trim(line@);
                assert(wanted_out.deep_view()[k] == entry@);
            }
        }
        if !holds_chars(&wanted_out, &entry) {
            if from < end {
                cleaned.append(held.as_str());
                cleaned.append(text.substring_char(from, end));
                held = String::new();
            }
            held.append(text.substring_char(end, next));
            any = true;
            proof {
                assert(before + pending + (line@ + ending + kept_rest) =~= cleaned@ + held@
                    + kept_rest);
                assert(before + pending + (line@ + ending + solid_rest) =~= cleaned@ + held@
                    + solid_rest);
                if from < end {
                    assert(before + pending + line@ =~= cleaned@);
                }
            }
        }
        from = next;
    }
    if size > 0 && chars[size - 1] == '\n' {
        if any {
            cleaned.append(held.as_str());
        } else if size >= 2 && chars[size - 2] == '\r' {
            cleaned.append(text.substring_char(size - 2, size));
        } else {
            cleaned.append(text.substring_char(size - 1, size));
        }
    }
    cleaned
}

} // verus!
