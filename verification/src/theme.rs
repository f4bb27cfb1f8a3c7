//! The editor's color theme choice.

use vstd::prelude::*;

verus! {

/// Whether the editor draws with the light or the dark palette.
#[derive(Clone, Copy, Debug, PartialEq, Eq, Structural)]
pub enum Theme {
    Light,
    Dark,
}

impl Default for Theme {
    fn default() -> (r: Self)
        ensures
            r == Theme::Light,
    {
        Theme::Light
    }
}

} // verus!
