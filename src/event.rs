use vstd::prelude::*;

verus! {

/// The modifier bit of the Control key.
pub const CONTROL: u8 = 0x02;

/// The key of a key press, as far as this layer tells keys apart.
#[derive(Debug, Clone, Copy, PartialEq, Eq, Structural)]
pub enum Key {
    Char(char),
    Other,
}

/// An event of the terminal driver: a key press with the bits of the modifier
/// keys held, or anything else (a resize, a mouse action).
#[derive(Debug, Clone, Copy, PartialEq, Eq, Structural)]
pub enum TerminalEvent {
    Key { key: Key, modifiers: u8 },
    Other,
}

/// The cancellation chord: Control alone held, and the character `c`.
pub open spec fn is_cancel_spec(e: TerminalEvent) -> bool {
    e == TerminalEvent::Key { key: Key::Char('c'), modifiers: CONTROL }
}

impl TerminalEvent {
    pub fn is_cancel(&self) -> (r: bool)
        ensures
            r == is_cancel_spec(*self),
    {
        match self {
            TerminalEvent::Key { key: Key::Char(c), modifiers } => *c == 'c' && *modifiers == CONTROL,
            _ => false,
        }
    }
}

} // verus!
