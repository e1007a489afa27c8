//! Keyboard events as the widgets see them.
use vstd::prelude::*;

verus! {

/// Keys with a name.
#[derive(Clone, Copy, Debug, PartialEq, Eq, Structural)]
pub enum NamedKey {
    Backspace,
    Delete,
    Enter,
    Space,
    Tab,
    Escape,
    ArrowLeft,
    ArrowRight,
    ArrowUp,
    ArrowDown,
    Home,
    End,
}

/// The key of an event, apart from the text that it types.
#[derive(Clone, Copy, Debug, PartialEq, Eq, Structural)]
pub enum Key {
    Named(NamedKey),
    /// A key that stands for one character.
    Character(char),
    /// Any other key.
    Unidentified,
}

/// A key that was pressed or released, with the text that the press types.
#[derive(Debug)]
pub struct KeyEvent {
    pub pressed: bool,
    pub key: Key,
    pub text: Vec<char>,
}

/// The modifier keys that are held.
#[derive(Clone, Copy, Debug, PartialEq, Eq, Structural)]
pub struct Modifiers {
    pub shift: bool,
    pub control: bool,
    /// The command or system key.
    pub logo: bool,
}

impl Modifiers {
    /// Control and the system key stand for each other in editing shortcuts.
    pub open spec fn chord(self) -> bool {
        self.control || self.logo
    }

    /// Control and the system key stand for each other in editing shortcuts.
    pub fn is_chord(self) -> (b: bool)
        ensures
            b == self.chord(),
    {
        self.control || self.logo
    }
}

/// What a widget made of an event.
#[derive(Clone, Copy, Debug, PartialEq, Eq, Structural)]
pub enum EventResponse {
    Handled,
    Pass,
}

/// An event that presses Enter or Space, which activates a widget.
pub open spec fn activates(e: &KeyEvent) -> bool {
    e.pressed && (e.key == Key::Named(NamedKey::Enter) || e.key == Key::Named(NamedKey::Space))
}

/// An event that presses Enter or Space, which activates a widget.
pub fn is_activation(e: &KeyEvent) -> (b: bool)
    ensures
        b == activates(e),
{
    if !e.pressed {
        return false;
    }
    match e.key {
        Key::Named(NamedKey::Enter) => true,
        Key::Named(NamedKey::Space) => true,
        _ => false,
    }
}

} // verus!
