//! What the keys and terminal events mean to the watcher.

use vstd::prelude::*;

verus! {

/// The modifier bit that is set while Control is held.
pub const CONTROL: u8 = 0b0000_0010;

/// No modifier held.
pub const NO_MODIFIERS: u8 = 0;

/// What the user asks for with a key.
#[derive(Debug, Clone, Copy, PartialEq, Eq, Structural)]
pub enum Action {
    /// Leave the watcher.
    Quit,
    /// Run the command now.
    Trigger,
    /// Save the frame that is on screen.
    Screenshot,
}

/// The key that was pressed, as far as the watcher tells keys apart.
#[derive(Debug, Clone, Copy, PartialEq, Eq, Structural)]
pub enum KeyCode {
    /// A key that produces a character.
    Char(char),
    /// Any other key.
    Other,
}

/// One key press with the modifiers held, as a set of bits.
#[derive(Debug, Clone, Copy, PartialEq, Eq, Structural)]
pub struct KeyEvent {
    pub code: KeyCode,
    pub modifiers: u8,
}

/// One event that the terminal reports.
#[derive(Debug, Clone, Copy, PartialEq, Eq, Structural)]
pub enum Event {
    /// A key was pressed.
    Key(KeyEvent),
    /// The terminal now has this many columns and rows.
    Resize(u16, u16),
    /// The user asks for a screenshot of the frame on screen.
    Screenshot,
    /// Anything else: focus, mouse, paste.
    Other,
}

impl KeyEvent {
    /// A key press with the given modifiers held.
    pub fn new(code: KeyCode, modifiers: u8) -> (key: KeyEvent)
        ensures
            key == (KeyEvent { code, modifiers }),
    {
        KeyEvent { code, modifiers }
    }
}

impl From<KeyCode> for KeyEvent {
    /// A key press with no modifier held.
    fn from(code: KeyCode) -> (key: KeyEvent) {
        KeyEvent { code, modifiers: NO_MODIFIERS }
    }
}

impl vstd::std_specs::convert::FromSpecImpl<KeyCode> for KeyEvent {
    open spec fn obeys_from_spec() -> bool {
        true
    }

    open spec fn from_spec(code: KeyCode) -> KeyEvent {
        KeyEvent { code, modifiers: NO_MODIFIERS }
    }
}

/// What a key press asks for: `q` or `Q` with any modifiers, and `c` with
/// Control alone, quit; the space bar with any modifiers runs the command
/// now; no other key means anything.
pub open spec fn key_action(key: KeyEvent) -> Option<Action> {
    match key.code {
        KeyCode::Char(c) => if c == 'q' || c == 'Q' {
            Some(Action::Quit)
        } else if c == 'c' && key.modifiers == CONTROL {
            Some(Action::Quit)
        } else if c == ' ' {
            Some(Action::Trigger)
        } else {
            None
        },
        KeyCode::Other => None,
    }
}

/// What an event asks for: a key press what its key means, a request for a
/// screenshot a screenshot, anything else nothing.
pub open spec fn event_action(event: Event) -> Option<Action> {
    match event {
        Event::Key(key) => key_action(key),
        Event::Screenshot => Some(Action::Screenshot),
        _ => None,
    }
}

/// What a key press asks for.
pub fn action_from_key(key: KeyEvent) -> (action: Option<Action>)
    ensures
        action == key_action(key),
{
    match key.code {
        KeyCode::Char(c) => {
            if c == 'q' || c == 'Q' {
                Some(Action::Quit)
            } else if c == 'c' && key.modifiers == CONTROL {
                Some(Action::Quit)
            } else if c == ' ' {
                Some(Action::Trigger)
            } else {
                None
            }
        },
        KeyCode::Other => None,
    }
}

/// What an event asks for.
pub fn action_from_event(event: Event) -> (action: Option<Action>)
    ensures
        action == event_action(event),
{
    match event {
        Event::Key(key) => action_from_key(key),
        Event::Screenshot => Some(Action::Screenshot),
        _ => None,
    }
}

} // verus!
