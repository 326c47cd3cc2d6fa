//! Interaction events as the engines see them. The surrounding command
//! dispatcher classifies every inbound gateway interaction once, at the
//! boundary, into a closed tagged-variant action; the engines then decide
//! on plain values and never re-parse strings.

use vstd::prelude::*;

verus! {

/// Sort direction of a leaderboard view.
#[derive(Clone, Copy, Debug, PartialEq, Eq, Structural)]
pub enum Direction {
    Ascending,
    Descending,
}

/// The action carried by an interaction, decoded once at the boundary:
/// a button press that increments, an explicit stop, a leaderboard
/// sort-direction selection, or anything unrecognised.
#[derive(Clone, Copy, Debug, PartialEq, Eq, Structural)]
pub enum ActionTag {
    Increment,
    Stop,
    SortToggle(Direction),
    Unknown,
}

/// What a waiting engine observes next: the inactivity timeout elapsing,
/// or an interaction event tagged with its originating identity.
pub enum SessionEvent {
    Timeout,
    Interaction { actor_id: String, action: ActionTag },
}

/// Mathematical image of an event.
pub enum EventView {
    Timeout,
    Interaction { actor_id: Seq<char>, action: ActionTag },
}

impl View for SessionEvent {
    type V = EventView;

    open spec fn view(&self) -> EventView {
        match self {
            SessionEvent::Timeout => EventView::Timeout,
            SessionEvent::Interaction { actor_id, action } => EventView::Interaction {
                actor_id: actor_id@,
                action: *action,
            },
        }
    }
}

} // verus!
