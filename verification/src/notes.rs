//! The version of the program and the notes on what is new in it.

use vstd::prelude::*;
use vstd::string::*;

verus! {

/// The version that is shown where the version information cannot be read.
pub const UNKNOWN_VERSION: &'static str = "v0.0.0";

/// `notes` as a list: each note on a line of its own behind "- ", the lines
/// joined by line feeds.
pub open spec fn bullet_list(notes: Seq<Seq<char>>) -> Seq<char>
    decreases notes.len(),
{
    if notes.len() == 0 {
        Seq::empty()
    } else if notes.len() == 1 {
        "- "@ + notes[0]
    } else {
        bullet_list(notes.drop_last()) + "\n"@ + "- "@ + notes.last()
    }
}

/// The message that presents `notes`.
pub open spec fn notes_message(notes: Seq<Seq<char>>) -> Seq<char> {
    "Here are some new features and changes:\n\n"@ + bullet_list(notes)
}

/// The message that presents `notes`: a heading, and the notes as a list.
pub fn patch_notes_message(notes: &Vec<String>) -> (message: String)
    ensures
        message@ == notes_message(notes.deep_view()),
{
    let ghost all = notes.deep_view();
    let mut message = String::new();
    message.append("Here are some new features and changes:\n\n");
    let mut i: usize = 0;
    while i < notes.len()
        invariant
            i <= notes.len(),
            all == notes.deep_view(),
            message@ == notes_message(all.subrange(0, i as int)),
        decreases notes.len() - i,
    {
        if i > 0 {
            message.append("\n");
        }
        message.append("- ");
        message.append(notes[i].as_str());
        proof {
            let upto = all.subrange(0, i + 1);
            assert(upto.drop_last() =~= all.subrange(0, i as int));
        }
        i += 1;
    }
    assert(all.subrange(0, all.len() as int) =~= all);
    message
}

/// The version and the message to show, given the version information where
/// it could be read: its version and the message for its notes, or a version
/// that stands for "unknown" and a message that says so.
pub fn version_info(parsed: Option<(String, Vec<String>)>) -> (info: (String, String))
    ensures
        match parsed {
            Some((version, notes)) => info.0@ == version@ && info.1@ == notes_message(
                notes.deep_view(),
            ),
            None => info.0@ == UNKNOWN_VERSION@ && info.1@ == "Failed to get version info."@,
        },
{
    match parsed {
        Some((version, notes)) => {
            let message = patch_notes_message(&notes);
            (version, message)
        },
        None => (UNKNOWN_VERSION.to_string(), "Failed to get version info.".to_string()),
    }
}

} // verus!
