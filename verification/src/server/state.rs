//! The coordinator's state.

use crate::rendezvous::MatchMap;
use crate::server::messages::Outbox;
use crate::table::Table;
use vstd::prelude::*;

verus! {

/// The user registry and the rendezvous table. The registry holds at most
/// one outbox per identity.
pub struct State {
    pub usrs: Table<Outbox>,
    pub rooms: MatchMap,
}

impl State {
    /// A coordinator that knows no user and no room.
    pub fn new() -> (state: Self)
        ensures
            state.usrs@ == Map::<Seq<u8>, Outbox>::empty(),
            state.rooms@ == Map::<Seq<u8>, crate::rendezvous::RoomStatus>::empty(),
    {
        State { usrs: Table::new(), rooms: Table::new() }
    }
}

} // verus!
