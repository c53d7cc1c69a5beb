//! Rendezvous brokering between two users identified by 32-byte keys.
//!
//! Each user holds a control connection to the coordinator. Either may ask
//! for a room with another user; when both agree, the coordinator mints a
//! one-time room secret, and the two then present it on a datagram side
//! channel to learn each other's public address.
//!
//! The library holds the decisions: the session's protocol, the
//! coordinator, and the rendezvous matcher. Sockets, clocks and channels
//! belong to whoever drives it:
//!
//! - For each control connection the driver keeps a
//!   [`ctrl_chnl::state::State`], hands every event to
//!   [`ctrl_chnl::handle`] and performs the actions it returns.
//! - For the coordinator the driver keeps one [`server::state::State`],
//!   hands every message of a session to [`handle_sock_msg`], and reports
//!   the deliveries of a minted room to [`commit_room`].
//! - Every datagram on the side channel goes to
//!   [`rendezvous::handle_datagram`], together with the rendezvous table
//!   of the coordinator's state; the datagrams in the reply are sent.
//!
//! Time is a count of nanoseconds on a clock that never runs backwards.

use rand::RngCore;
use vstd::prelude::*;

pub mod ctrl_chnl;
pub mod rendezvous;
pub mod server;
pub mod table;
pub mod wire;

use crate::rendezvous::{MatchMap, RoomStatus};
use crate::server::messages::{Outbox, RoomId, SocketMessage};
use crate::server::state::State;
use crate::server::user::User;

verus! {

/// How long, in nanoseconds, a session or a rendezvous entry may wait: ten seconds.
pub const TIMEOUT: u64 = 10_000_000_000;

/// How often the coordinator draws a room secret before it gives up on a room.
pub const MAX_DRAWS: u32 = 64;

/// What the coordinator answers to a message.
#[derive(Clone, Copy, Debug, PartialEq, Eq)]
pub enum Reaction {
    /// The registry was updated; nobody is answered.
    Done,
    /// The answer to a `RoomRequest`: the receiver's outbox, if it has one.
    Route(Option<Outbox>),
    /// The outcome of `GenerateRoom`. Both outboxes are to be sent a
    /// `RoomAffirmation` with `room_id`. Where `room_id` is a secret, the
    /// room is then committed with `commit_room`, which is told which of
    /// the two deliveries succeeded.
    Affirm { room_id: Option<RoomId>, proposer_tx: Outbox, recipient_tx: Outbox },
}

/// The registry after the coordinator handled `msg`: subscribing overwrites
/// the user's entry, disconnecting deletes it, and nothing else changes it.
pub open spec fn registry_after(usrs: Map<Seq<u8>, Outbox>, msg: SocketMessage) -> Map<
    Seq<u8>,
    Outbox,
> {
    match msg {
        SocketMessage::SubscribeUser { user, tx } => usrs.insert(user.key@, tx),
        SocketMessage::Disconnect { user } => usrs.remove(user.key@),
        SocketMessage::RoomRequest { .. } => usrs,
        SocketMessage::GenerateRoom { .. } => usrs,
    }
}

/// The outbox that the registry holds for `receiver`.
pub open spec fn route_to(usrs: Map<Seq<u8>, Outbox>, receiver: User) -> Option<Outbox> {
    if usrs.contains_key(receiver.key@) {
        Some(usrs[receiver.key@])
    } else {
        None
    }
}

/// Draws 32 bytes from `rand::thread_rng()` with `RngCore::fill_bytes`.
/// Nothing is claimed of the bytes drawn. The generator panics where the
/// system gives it no entropy, be it to start from or to reseed itself
/// with later on.
#[verifier::external_body]
fn draw_room_id() -> (candidate: RoomId) {
    let mut candidate = [0u8; 32];
    rand::thread_rng().fill_bytes(&mut candidate);
    candidate
}

/// Whether `candidate` may become a new room's secret: no room in the
/// table is open under it.
pub fn is_vacant(rooms: &MatchMap, candidate: &RoomId) -> (vacant: bool)
    ensures
        vacant == !rooms@.contains_key(candidate@),
{
    !rooms.contains_key(candidate)
}

/// Draws random room secrets until one is vacant in `rooms`, at most
/// `MAX_DRAWS` times. A secret that is returned is vacant. With an empty
/// table the first draw is vacant, so a secret is returned.
pub fn generate_room_id(rooms: &MatchMap) -> (room_id: Option<RoomId>)
    ensures
        room_id matches Some(id) ==> !rooms@.contains_key(id@),
        rooms@ == Map::<Seq<u8>, RoomStatus>::empty() ==> room_id is Some,
{
    let mut draws: u32 = 0;
    while draws < MAX_DRAWS
        invariant
            draws <= MAX_DRAWS,
            draws > 0 ==> rooms@ != Map::<Seq<u8>, RoomStatus>::empty(),
        decreases MAX_DRAWS - draws,
    {
        let candidate = draw_room_id();
        if is_vacant(rooms, &candidate) {
            return Some(candidate);
        }
        draws += 1;
    }
    None
}

/// Handles one message from a session.
///
/// `SubscribeUser` and `Disconnect` update the registry. `RoomRequest` is
/// answered with the receiver's outbox. `GenerateRoom` mints a room
/// secret that no open room bears and names the two outboxes to notify.
/// No message changes the rendezvous table.
pub fn handle_sock_msg(msg: SocketMessage, state: &mut State) -> (reaction: Reaction)
    ensures
        final(state).usrs@ == registry_after(old(state).usrs@, msg),
        final(state).rooms@ == old(state).rooms@,
        match msg {
            SocketMessage::SubscribeUser { .. } => reaction == Reaction::Done,
            SocketMessage::Disconnect { .. } => reaction == Reaction::Done,
            SocketMessage::RoomRequest { receiver } => reaction == Reaction::Route(
                route_to(old(state).usrs@, receiver),
            ),
            SocketMessage::GenerateRoom { proposer_tx, recipient_tx, .. } => {
                &&& reaction matches Reaction::Affirm { room_id, proposer_tx: p, recipient_tx: r }
                &&& p == proposer_tx
                &&& r == recipient_tx
                &&& room_id matches Some(id) ==> !old(state).rooms@.contains_key(id@)
                &&& old(state).rooms@ == Map::<Seq<u8>, RoomStatus>::empty() ==> room_id is Some
            },
        },
{
    match msg {
        SocketMessage::SubscribeUser { user, tx } => {
            state.usrs.insert(user.key, tx);
            Reaction::Done
        },
        SocketMessage::Disconnect { user } => {
            state.usrs.remove(&user.key);
            Reaction::Done
        },
        SocketMessage::RoomRequest { receiver } => {
            match state.usrs.get(&receiver.key) {
                Some(route) => Reaction::Route(Some(*route)),
                None => Reaction::Route(None),
            }
        },
        SocketMessage::GenerateRoom { proposer_tx, recipient_tx, .. } => {
            let room_id = generate_room_id(&state.rooms);
            Reaction::Affirm { room_id, proposer_tx, recipient_tx }
        },
    }
}

/// The rendezvous table once a minted room was committed: where at least
/// one of the two deliveries succeeded and no room is open under the
/// secret, the room is entered as idle since `now`; otherwise the table
/// stays as it is.
pub open spec fn rooms_after_commit(
    rooms: Map<Seq<u8>, RoomStatus>,
    room_id: Seq<u8>,
    proposer_delivered: bool,
    recipient_delivered: bool,
    now: u64,
) -> Map<Seq<u8>, RoomStatus> {
    if (proposer_delivered || recipient_delivered) && !rooms.contains_key(room_id) {
        rooms.insert(room_id, RoomStatus::Idle(now))
    } else {
        rooms
    }
}

/// Commits a minted room once both outboxes were sent its secret. The
/// room is entered as idle since `now` where at least one delivery
/// succeeded. A secret under which a room is open already is the secret
/// of that room and not a minted one: the table then stays as it is.
/// Returns whether the room was entered.
pub fn commit_room(
    state: &mut State,
    room_id: RoomId,
    proposer_delivered: bool,
    recipient_delivered: bool,
    now: u64,
) -> (committed: bool)
    ensures
        committed == ((proposer_delivered || recipient_delivered) && !old(state).rooms@.contains_key(
            room_id@,
        )),
        final(state).usrs@ == old(state).usrs@,
        final(state).rooms@ == rooms_after_commit(
            old(state).rooms@,
            room_id@,
            proposer_delivered,
            recipient_delivered,
            now,
        ),
{
    if (recipient_delivered || proposer_delivered) && is_vacant(&state.rooms, &room_id) {
        state.rooms.insert(room_id, RoomStatus::Idle(now));
        true
    } else {
        false
    }
}

/// The registry after the coordinator handled `msgs` one after the other.
pub open spec fn registry_after_all(usrs: Map<Seq<u8>, Outbox>, msgs: Seq<SocketMessage>) -> Map<
    Seq<u8>,
    Outbox,
>
    decreases msgs.len(),
{
    if msgs.len() == 0 {
        usrs
    } else {
        registry_after(registry_after_all(usrs, msgs.drop_last()), msgs.last())
    }
}

/// Whether `msg` subscribes the user with the key `key`.
pub open spec fn subscribes(msg: SocketMessage, key: Seq<u8>) -> bool {
    msg matches SocketMessage::SubscribeUser { user, .. } && user.key@ == key
}

/// A user is found right after subscribing, under the outbox it subscribed with.
pub proof fn lemma_subscribed_user_is_found(usrs: Map<Seq<u8>, Outbox>, user: User, tx: Outbox)
    ensures
        route_to(registry_after(usrs, SocketMessage::SubscribeUser { user, tx }), user) == Some(tx),
{
}

/// A user is not found right after disconnecting.
pub proof fn lemma_disconnected_user_is_not_found(usrs: Map<Seq<u8>, Outbox>, user: User)
    ensures
        route_to(registry_after(usrs, SocketMessage::Disconnect { user }), user) == None::<Outbox>,
{
}

/// An identity that never subscribed is not found: where the registry
/// does not hold `receiver` and none of `msgs` subscribes it, it is not
/// found after the coordinator handled them all.
pub proof fn lemma_never_subscribed_is_not_found(
    usrs: Map<Seq<u8>, Outbox>,
    msgs: Seq<SocketMessage>,
    receiver: User,
)
    requires
        !usrs.contains_key(receiver.key@),
        forall|i: int| 0 <= i < msgs.len() ==> !subscribes(#[trigger] msgs[i], receiver.key@),
    ensures
        route_to(registry_after_all(usrs, msgs), receiver) == None::<Outbox>,
    decreases msgs.len(),
{
    if msgs.len() > 0 {
        let front = msgs.drop_last();
        assert forall|i: int| 0 <= i < front.len() implies !subscribes(
            #[trigger] front[i],
            receiver.key@,
        ) by {}
        lemma_never_subscribed_is_not_found(usrs, front, receiver);
    }
}

/// Subscribing and disconnecting one user leaves every other user's entry as it was.
pub proof fn lemma_other_users_are_kept(usrs: Map<Seq<u8>, Outbox>, msg: SocketMessage, other: User)
    requires
        msg matches SocketMessage::SubscribeUser { user, .. } ==> user.key@ != other.key@,
        msg matches SocketMessage::Disconnect { user } ==> user.key@ != other.key@,
    ensures
        route_to(registry_after(usrs, msg), other) == route_to(usrs, other),
{
}

/// A minted room that reached a party is idle. Where the secret is
/// vacant, as every minted secret is, and at least one delivery
/// succeeded, committing adds exactly this room, idle since `now`, and
/// leaves every other room as it was. Where no delivery succeeded, the
/// table stays as it is.
pub proof fn lemma_minted_room_is_idle(
    rooms: Map<Seq<u8>, RoomStatus>,
    room_id: Seq<u8>,
    proposer_delivered: bool,
    recipient_delivered: bool,
    now: u64,
)
    requires
        rooms.dom().finite(),
        !rooms.contains_key(room_id),
    ensures
        ({
            let after = rooms_after_commit(
                rooms,
                room_id,
                proposer_delivered,
                recipient_delivered,
                now,
            );
            if proposer_delivered || recipient_delivered {
                &&& after.contains_key(room_id)
                &&& after[room_id] == RoomStatus::Idle(now)
                &&& after.len() == rooms.len() + 1
                &&& after.remove(room_id) == rooms
            } else {
                after == rooms
            }
        }),
{
    if proposer_delivered || recipient_delivered {
        assert(rooms.insert(room_id, RoomStatus::Idle(now)).remove(room_id) =~= rooms);
    }
}

/// Committing never touches a room that is open: every secret in the
/// table before is in it afterwards, with the status it had.
pub proof fn lemma_commit_keeps_open_rooms(
    rooms: Map<Seq<u8>, RoomStatus>,
    room_id: Seq<u8>,
    proposer_delivered: bool,
    recipient_delivered: bool,
    now: u64,
    open: Seq<u8>,
)
    requires
        rooms.contains_key(open),
    ensures
        ({
            let after = rooms_after_commit(
                rooms,
                room_id,
                proposer_delivered,
                recipient_delivered,
                now,
            );
            after.contains_key(open) && after[open] == rooms[open]
        }),
{
}

} // verus!
