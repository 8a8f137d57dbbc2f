//! The decisions of the simulation tick.
//!
//! Each tick takes at most `CONNECTIONS_PER_TICK` connection events, in the
//! order they were recorded, and turns each into one change of the world;
//! then at most `RESPONSES_PER_TICK` inbound messages are taken.
use vstd::prelude::*;

use crate::registry::{ConnectionEvent, PeersContainer};

verus! {

/// Most connection events handled in one tick.
pub const CONNECTIONS_PER_TICK: usize = 2;

/// Most inbound messages taken in one tick.
pub const RESPONSES_PER_TICK: usize = 10;

/// A change that the world makes for a connection event.
#[derive(Clone, Copy, Debug, PartialEq, Eq, Structural)]
pub enum WorldAction {
    /// Create the entity of this peer.
    CreatePlayer(u32),
    /// Destroy the entity of this peer.
    RemovePlayer(u32),
}

/// The change of the world that `event` calls for.
pub open spec fn action_for(event: ConnectionEvent) -> WorldAction {
    match event {
        ConnectionEvent::Connected(id) => WorldAction::CreatePlayer(id),
        ConnectionEvent::Disconnected(id) => WorldAction::RemovePlayer(id),
    }
}

/// The change of the world that `event` calls for.
pub fn handle_connection_event(event: ConnectionEvent) -> (r: WorldAction)
    ensures
        r == action_for(event),
{
    match event {
        ConnectionEvent::Connected(id) => WorldAction::CreatePlayer(id),
        ConnectionEvent::Disconnected(id) => WorldAction::RemovePlayer(id),
    }
}

/// The first step of a tick: takes up to `CONNECTIONS_PER_TICK` recorded
/// events from `peers`, oldest first, and returns the world changes they
/// call for, in the same order.
pub fn connection_actions<T>(peers: &mut PeersContainer<T>) -> (r: Vec<WorldAction>)
    requires
        old(peers).wf(),
    ensures
        final(peers).wf(),
        final(peers).slots_view() == old(peers).slots_view(),
        ({
            let n = vstd::math::min(CONNECTIONS_PER_TICK as int, old(peers).events().len() as int);
            &&& r@ == old(peers).events().take(n).map_values(|e: ConnectionEvent| action_for(e))
            &&& final(peers).events() == old(peers).events().skip(n)
        }),
{
    let events = peers.poll_events(CONNECTIONS_PER_TICK);
    let mut actions: Vec<WorldAction> = Vec::new();
    let mut i: usize = 0;
    while i < events.len()
        invariant
            i <= events@.len(),
            actions@ == events@.take(i as int).map_values(|e: ConnectionEvent| action_for(e)),
        decreases events@.len() - i,
    {
        actions.push(handle_connection_event(events[i]));
        i = i + 1;
        assert(actions@ =~= events@.take(i as int).map_values(|e: ConnectionEvent| action_for(e)));
    }
    assert(events@.take(events@.len() as int) =~= events@);
    actions
}

} // verus!
