//! How the document is drawn: set as text, or as skeleton bars.

use vstd::prelude::*;

verus! {

/// How the document is drawn.
#[derive(Debug, Clone, Copy, PartialEq, Eq, Default, Structural)]
pub enum Mode {
    /// The corpus, set in the window's text style.
    #[default]
    Text,
    /// The same lines, with their glyphs replaced by bars.
    ///
    /// The layout is identical — a bar is as wide as the word it stands in for,
    /// and sits on the same line — so the two can be compared directly. What it
    /// saves is text shaping.
    Skeleton,
}

/// The other mode.
pub open spec fn toggled_mode(mode: Mode) -> Mode {
    match mode {
        Mode::Text => Mode::Skeleton,
        Mode::Skeleton => Mode::Text,
    }
}

impl Mode {
    /// Whether lines are drawn as bars.
    pub fn is_skeleton(self) -> (skeleton: bool)
        ensures
            skeleton == (self == Mode::Skeleton),
    {
        matches!(self, Mode::Skeleton)
    }

    /// The other mode: what the document switch flips to.
    pub fn toggled(self) -> (other: Self)
        ensures
            other == toggled_mode(self),
    {
        match self {
            Mode::Text => Mode::Skeleton,
            Mode::Skeleton => Mode::Text,
        }
    }
}

/// Flipping the document switch always changes how the document is drawn, and
/// flipping it twice puts it back.
pub proof fn lemma_toggle_flips(mode: Mode)
    ensures
        toggled_mode(mode) != mode,
        (toggled_mode(mode) == Mode::Skeleton) == (mode != Mode::Skeleton),
        toggled_mode(toggled_mode(mode)) == mode,
{
}

} // verus!
