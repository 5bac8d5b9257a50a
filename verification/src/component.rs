//! The component capability: the one contract every pluggable UI unit
//! implements, and the opaque frame handle a component draws into.
//!
//! A component talks back to the orchestrator only through the actions it
//! returns from [`Component::handle_events`] and [`Component::update`]; the
//! orchestrator enqueues them, which keeps the whole intent flow visible to
//! its contracts.

use vstd::prelude::*;

use crate::types::{Action, Event, Rect, Size};

verus! {

#[verifier::external_type_specification]
#[verifier::external_body]
pub struct ExFrame<'a>(ratatui::Frame<'a>);

/// The polymorphic contract of a pluggable UI unit. The orchestrator promises
/// nothing about what an implementation computes; its own contracts hold for
/// every implementation.
pub trait Component {
    /// Synchronous initialization, given the current terminal size. An error
    /// aborts startup.
    fn init(&mut self, size: Size) -> Result<(), String>;

    /// Given an event (or none, for a poll-style call), optionally derive one
    /// action. Must not block.
    fn handle_events(&mut self, event: Option<Event>) -> Option<Action>;

    /// React to one dispatched action, optionally returning a follow-up
    /// action; the follow-up is drained within the same pass.
    fn update(&mut self, action: Action) -> Option<Action>;

    /// Render this component's state into `area` of the frame. An error is
    /// recoverable: the orchestrator turns it into an `Action::Error` instead
    /// of abandoning the frame.
    fn draw(&mut self, frame: &mut ratatui::Frame<'_>, area: Rect) -> Result<(), String>;
}

} // verus!
