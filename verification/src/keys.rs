//! The keyboard input that the notebook reacts to, as plain values.

use vstd::prelude::*;

verus! {

/// The key that was hit.
#[derive(Clone, Copy, Debug, PartialEq, Eq, Structural)]
pub enum KeyCode {
    Char(char),
    Enter,
    Esc,
    Backspace,
    Left,
    Right,
    Up,
    Down,
    /// Any key that the notebook never reacts to.
    Other,
}

/// The modifier keys held with a key: exactly none, exactly Control, or
/// any other combination.
#[derive(Clone, Copy, Debug, PartialEq, Eq, Structural)]
pub enum Modifiers {
    Plain,
    Control,
    Other,
}

/// Whether the key went down, repeats, or went up.
#[derive(Clone, Copy, Debug, PartialEq, Eq, Structural)]
pub enum KeyKind {
    Press,
    Repeat,
    Release,
}

/// One key event.
#[derive(Clone, Copy, Debug, PartialEq, Eq, Structural)]
pub struct KeyEvent {
    pub code: KeyCode,
    pub modifiers: Modifiers,
    pub kind: KeyKind,
}

/// A terminal event: a key, or anything else (mouse, resize, focus, paste).
#[derive(Clone, Copy, Debug, PartialEq, Eq, Structural)]
pub enum Event {
    Key(KeyEvent),
    Other,
}

impl KeyEvent {
    /// A key pressed down with no modifier.
    pub open spec fn is_plain_press(self) -> bool {
        self.modifiers == Modifiers::Plain && self.kind == KeyKind::Press
    }

    /// Whether this key was pressed with no modifier.
    pub fn plain_press(&self) -> (b: bool)
        ensures
            b == self.is_plain_press(),
    {
        match (self.modifiers, self.kind) {
            (Modifiers::Plain, KeyKind::Press) => true,
            _ => false,
        }
    }
}

} // verus!
