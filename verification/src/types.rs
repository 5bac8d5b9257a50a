//! Plain data carried through the control loop: environment events, intent
//! actions, key descriptions, and the rectangles of the split-pane layout.

use vstd::prelude::*;

verus! {

/// A key code as reported by the terminal, reduced to what the loop reads.
#[derive(Clone, Copy, Debug, PartialEq, Eq, Structural)]
pub enum KeyCode {
    Char(char),
    Enter,
    Esc,
    Backspace,
    Left,
    Right,
    Up,
    Down,
    Other,
}

/// The modifier keys held together with a key press.
#[derive(Clone, Copy, Debug, PartialEq, Eq, Structural)]
pub struct KeyMods {
    pub control: bool,
    pub alt: bool,
    pub shift: bool,
}

/// One key press: a code and the modifiers held with it.
#[derive(Clone, Copy, Debug, PartialEq, Eq, Structural)]
pub struct KeyEvent {
    pub code: KeyCode,
    pub mods: KeyMods,
}

/// A fact about the environment, produced by the event source.
#[derive(Clone, Copy, Debug, PartialEq, Eq, Structural)]
pub enum Event {
    /// A timer tick carrying its sequence number.
    Tick(u64),
    /// A request to render one frame.
    Render,
    /// A key press.
    Key(KeyEvent),
    /// A mouse event at the given column and row.
    Mouse(u16, u16),
    /// The terminal was resized to the given width and height.
    Resize(u16, u16),
    /// The event source is shutting down.
    Quit,
}

/// An intent flowing through the action queue: derived from an event by the
/// orchestrator, or produced by a component.
#[derive(Clone, Debug, PartialEq, Eq)]
pub enum Action {
    /// Periodic tick carrying its sequence number; a multiple of ten is due
    /// for persistence.
    Tick(u64),
    /// Render one frame.
    Render,
    /// Request shutdown; the queue is still drained before the loop exits.
    Quit,
    /// A recoverable error surfaced to the components.
    Error(String),
    /// A domain-specific intent, opaque to the orchestrator: it is fanned out
    /// to every component's update handler.
    Custom(u64),
}

/// Terminal dimensions handed to component initialization.
#[derive(Clone, Copy, Debug, PartialEq, Eq, Structural)]
pub struct Size {
    pub width: u16,
    pub height: u16,
}

/// A rectangular render region in terminal cells.
#[derive(Clone, Copy, Debug, PartialEq, Eq, Structural)]
pub struct Rect {
    pub x: u16,
    pub y: u16,
    pub width: u16,
    pub height: u16,
}

} // verus!
