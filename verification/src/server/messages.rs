//! Messages between sessions and the coordinator.

use crate::server::user::User;
use crate::table::Key;
use vstd::prelude::*;

verus! {

/// A one-time room secret.
pub type RoomId = Key;

/// A handle on the channel that delivers notifications to one session.
/// The library stores and compares handles; whoever drives it knows which
/// channel a handle stands for and reports whether a delivery succeeded.
#[derive(Clone, Copy, Debug, PartialEq, Eq)]
pub struct Outbox {
    pub id: u64,
}

/// A request for a room, on its way from the proposer to the other user.
#[derive(Clone, Copy, Debug, PartialEq, Eq)]
pub struct RoomProposal {
    pub proposer: User,
    pub proposer_tx: Outbox,
}

/// What a session finds in its outbox.
#[derive(Clone, Copy, Debug, PartialEq, Eq)]
pub enum ServerMessage {
    /// Another user wants a room with this session's user.
    RoomProposal { proposal: RoomProposal },
    /// How a negotiation ended: the room's secret, or `None` where it failed.
    RoomAffirmation { room_id: Option<RoomId> },
}

/// What a session asks of the coordinator.
#[derive(Clone, Copy, Debug, PartialEq, Eq)]
pub enum SocketMessage {
    /// Look up the outbox of `receiver`.
    RoomRequest { receiver: User },
    /// Register `tx` as the outbox of `user`, in place of any earlier one.
    SubscribeUser { user: User, tx: Outbox },
    /// Forget the outbox of `user`.
    Disconnect { user: User },
    /// Mint a room for two users who agreed on one.
    GenerateRoom { proposer_tx: Outbox, proposer: User, recipient_tx: Outbox, recipient: User },
}

} // verus!
