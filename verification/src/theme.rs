//! The colour theme of the window.

use vstd::prelude::*;

verus! {

/// The theme in which the window is drawn.
#[derive(Debug, Clone, Copy, PartialEq, Eq, Structural)]
pub enum Theme {
    Light,
    Dark,
}

/// What the desktop says about its colour scheme.
#[derive(Debug, Clone, Copy, PartialEq, Eq, Structural)]
pub enum SystemMode {
    Dark,
    Light,
    /// The desktop states no preference.
    Unspecified,
}

/// The theme for a desktop in `mode`: dark for a dark desktop, light for
/// every other.
pub open spec fn theme_of(mode: SystemMode) -> Theme {
    match mode {
        SystemMode::Dark => Theme::Dark,
        SystemMode::Light => Theme::Light,
        SystemMode::Unspecified => Theme::Light,
    }
}

/// The theme for a desktop in `mode`.
pub fn theme_for(mode: SystemMode) -> (theme: Theme)
    ensures
        theme == theme_of(mode),
{
    match mode {
        SystemMode::Dark => Theme::Dark,
        SystemMode::Light => Theme::Light,
        SystemMode::Unspecified => Theme::Light,
    }
}

} // verus!
