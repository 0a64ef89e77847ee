//! Where events go.

use vstd::prelude::*;

use crate::protocol::Event;

verus! {

/// Takes the events of the sessions. Who listens to them is not the sessions' concern.
pub trait EventSink: Send + Sync {
    fn publish(&self, event: Event);
}

/// Drops every event.
pub struct NullSink;

impl EventSink for NullSink {
    fn publish(&self, _event: Event) {
    }
}

} // verus!
