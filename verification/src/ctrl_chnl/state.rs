//! The state of one control-channel session.

use crate::server::messages::{Outbox, RoomProposal};
use crate::server::user::User;
use vstd::prelude::*;

verus! {

/// Where a session stands in its protocol. A session moves from
/// `Connecting` through `Authenticating` into `Active`, leaves `Active`
/// only for one of the three bounded waits and comes back from them, and
/// ends in `Closed`, which it never leaves.
#[derive(Clone, Copy, Debug, PartialEq, Eq)]
pub enum Phase {
    /// The secure channel is not yet established.
    Connecting,
    /// The greeting was written; the client's 32 identity bytes are awaited.
    Authenticating,
    /// The normal loop: a client message or a notification is awaited.
    Active { user: User },
    /// The coordinator was asked for the outbox of `target`; its answer is awaited.
    AwaitingRoute { user: User, target: User },
    /// A proposal was handed to the outbox of `target`; the outcome is awaited.
    AwaitingDelivery { user: User, target: User },
    /// The client was told of `proposal`; its `Accept` is awaited.
    AwaitingAccept { user: User, proposal: RoomProposal },
    /// The session is over.
    Closed,
}

/// A session: its own outbox and its place in the protocol.
#[derive(Clone, Copy, Debug, PartialEq, Eq)]
pub struct State {
    /// The outbox that delivers notifications to this session.
    pub tx: Outbox,
    pub phase: Phase,
}

impl State {
    /// A session on a connection that was just accepted.
    pub fn new(tx: Outbox) -> (state: Self)
        ensures
            state == (State { tx, phase: Phase::Connecting }),
    {
        State { tx, phase: Phase::Connecting }
    }

    /// The authenticated user, once there is one.
    pub open spec fn spec_user(&self) -> Option<User> {
        match self.phase {
            Phase::Connecting => None,
            Phase::Authenticating => None,
            Phase::Active { user } => Some(user),
            Phase::AwaitingRoute { user, .. } => Some(user),
            Phase::AwaitingDelivery { user, .. } => Some(user),
            Phase::AwaitingAccept { user, .. } => Some(user),
            Phase::Closed => None,
        }
    }

    /// The authenticated user, once there is one.
    #[verifier::when_used_as_spec(spec_user)]
    pub fn user(&self) -> (user: Option<User>)
        ensures
            user == self.spec_user(),
    {
        match self.phase {
            Phase::Connecting => None,
            Phase::Authenticating => None,
            Phase::Active { user } => Some(user),
            Phase::AwaitingRoute { user, .. } => Some(user),
            Phase::AwaitingDelivery { user, .. } => Some(user),
            Phase::AwaitingAccept { user, .. } => Some(user),
            Phase::Closed => None,
        }
    }

    /// Whether the session is over.
    pub open spec fn spec_is_closed(&self) -> bool {
        self.phase is Closed
    }

    /// Whether the session is over.
    #[verifier::when_used_as_spec(spec_is_closed)]
    pub fn is_closed(&self) -> (closed: bool)
        ensures
            closed == (self.phase is Closed),
    {
        match self.phase {
            Phase::Closed => true,
            _ => false,
        }
    }
}

} // verus!
