//! Input events, as the terminal backend reports them.

use vstd::prelude::*;

verus! {

/// A key of the keyboard.
#[derive(Clone, Copy, Debug, PartialEq, Eq, Hash, Structural)]
pub enum KeyCode {
    Backspace,
    Enter,
    Left,
    Right,
    Up,
    Down,
    Home,
    End,
    PageUp,
    PageDown,
    Tab,
    BackTab,
    Delete,
    Insert,
    F(u8),
    Char(char),
    Null,
    Esc,
}

/// The bit of the shift key in [`KeyEvent::modifiers`].
pub const SHIFT: u8 = 1;

/// The bit of the control key in [`KeyEvent::modifiers`].
pub const CONTROL: u8 = 2;

/// The bit of the alt key in [`KeyEvent::modifiers`].
pub const ALT: u8 = 4;

/// A key press, with the modifier keys held as a bit set.
#[derive(Clone, Copy, Debug, PartialEq, Eq, Structural)]
pub struct KeyEvent {
    pub code: KeyCode,
    pub modifiers: u8,
}

impl KeyEvent {
    pub fn new(code: KeyCode, modifiers: u8) -> (r: KeyEvent)
        ensures
            r == (KeyEvent { code, modifiers }),
    {
        KeyEvent { code, modifiers }
    }
}

/// An input event.
#[derive(Clone, Copy, Debug, PartialEq, Eq, Structural)]
pub enum Event {
    Key(KeyEvent),
    Mouse,
    /// The terminal has now this many columns and rows.
    Resize(u16, u16),
}

} // verus!
