use crate::guest::Guest;
use vstd::prelude::*;

verus! {

/// Chips a guest brings to a seat.
pub const INITIAL_STACK: usize = 1000;

/// Chips a seat needs to be ready for a hand.
pub const MIN_READY_STACK: usize = 10;

/// A guest's state at a table.
#[derive(Debug, Clone)]
pub struct Seat {
    pub guest: Guest,
    pub ready: bool,
    /// Chips in front of the player.
    pub stack: usize,
    /// Chips the player has put into the pot during the current hand.
    pub bet: usize,
    pub fold: bool,
}

/// The seat a guest takes when joining a table.
pub open spec fn seat_for(guest: Guest) -> Seat {
    Seat { guest, ready: false, stack: INITIAL_STACK, bet: 0, fold: false }
}

impl Seat {
    /// Whether the player has put the whole stack in.
    pub fn allin(&self) -> (r: bool)
        ensures
            r == (self.stack == 0),
    {
        self.stack == 0
    }
}

impl From<Guest> for Seat {
    fn from(guest: Guest) -> (r: Seat) {
        Seat { guest, ready: false, stack: INITIAL_STACK, bet: 0, fold: false }
    }
}

impl vstd::std_specs::convert::FromSpecImpl<Guest> for Seat {
    open spec fn obeys_from_spec() -> bool {
        true
    }

    open spec fn from_spec(guest: Guest) -> Seat {
        seat_for(guest)
    }
}

} // verus!
