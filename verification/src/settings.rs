//! The user's settings, as a value that is handed to the policy engine.

use vstd::prelude::*;
use crate::region::{ApplyMode, BlockMode};

verus! {

/// What the user has chosen.
#[derive(Debug, Clone)]
pub struct UserSettings {
    pub apply_mode: ApplyMode,
    pub block_mode: BlockMode,
    pub merge_unstable: bool,
    pub last_launched_version: String,
}

impl Default for UserSettings {
    /// Gatekeep on both kinds of hostnames, with unstable regions merged, and
    /// no version launched yet.
    fn default() -> (settings: Self)
        ensures
            settings.apply_mode == ApplyMode::Gatekeep,
            settings.block_mode == BlockMode::Both,
            settings.merge_unstable,
            settings.last_launched_version@ == Seq::<char>::empty(),
    {
        Self {
            apply_mode: ApplyMode::Gatekeep,
            block_mode: BlockMode::Both,
            merge_unstable: true,
            last_launched_version: String::new(),
        }
    }
}

impl UserSettings {
    /// Whether `current_version` is launched for the first time, so that its
    /// patch notes are due.
    pub fn is_first_launch_of(&self, current_version: &String) -> (first: bool)
        ensures
            first == (self.last_launched_version@ != current_version@),
    {
        self.last_launched_version != *current_version
    }
}

} // verus!
