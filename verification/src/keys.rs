//! Plain model of a keyboard event: a key code plus a modifier set.
//!
//! The terminal backend delivers its own event type; the surrounding binary
//! converts each event to this form before handing it to the component tree,
//! so everything the components decide on is a plain value.

use vstd::prelude::*;

verus! {

/// The key codes the component tree distinguishes. Every other key arrives
/// as `Other` and falls through the tree unhandled.
#[derive(Clone, Copy, PartialEq, Eq, Structural, Debug)]
pub enum KeyCode {
    Char(char),
    Enter,
    Backspace,
    Esc,
    Up,
    Down,
    Left,
    Right,
    Other,
}

/// One keyboard event: a code and the modifier keys held with it.
#[derive(Clone, Copy, PartialEq, Eq, Structural, Debug)]
pub struct KeyEvent {
    pub code: KeyCode,
    pub ctrl: bool,
    pub alt: bool,
    pub shift: bool,
}

impl KeyEvent {
    /// True when no modifier key is held.
    pub open spec fn no_modifiers(self) -> bool {
        !self.ctrl && !self.alt && !self.shift
    }

    /// A plain (unmodified) key press with the given code.
    pub fn plain(code: KeyCode) -> (k: KeyEvent)
        ensures
            k.code == code,
            k.no_modifiers(),
    {
        KeyEvent { code, ctrl: false, alt: false, shift: false }
    }
}

} // verus!
