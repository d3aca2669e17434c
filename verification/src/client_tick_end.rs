//! End of a client tick: a player from whom no movement arrived during the
//! tick is standing still.

use vstd::prelude::*;

verus! {

/// The per-connection state that the end of a tick reads.
pub struct JavaClient {
    received_movement_this_tick: bool,
}

impl JavaClient {
    pub closed spec fn received(&self) -> bool {
        self.received_movement_this_tick
    }

    pub fn new() -> (c: JavaClient)
        ensures
            !c.received(),
    {
        JavaClient { received_movement_this_tick: false }
    }

    /// Notes that a movement packet arrived during this tick.
    pub fn mark_movement_received(&mut self)
        ensures
            final(self).received(),
    {
        self.received_movement_this_tick = true;
    }

    /// Ends the tick: clears the flag and tells whether the player's known
    /// movement is to be set to zero, which is when no movement arrived.
    pub fn handle_client_tick_end(&mut self) -> (zero_movement: bool)
        ensures
            !final(self).received(),
            zero_movement == !old(self).received(),
    {
        let received = self.received_movement_this_tick;
        self.received_movement_this_tick = false;
        !received
    }
}

} // verus!
