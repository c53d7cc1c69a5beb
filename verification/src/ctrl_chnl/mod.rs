//! The control-channel session.
//!
//! A session is driven by events: what was read from the client, what the
//! coordinator or another session delivered, and what failed. For each
//! event it moves to its next phase and names the actions to perform:
//! what to write to the client, what to tell the coordinator, what to put
//! into another session's outbox.

pub mod life;
pub mod request;
pub mod response;
pub mod state;

use crate::ctrl_chnl::request::Request;
use crate::ctrl_chnl::response::Response;
use crate::ctrl_chnl::state::{Phase, State};
use crate::server::messages::{Outbox, RoomId, RoomProposal, ServerMessage, SocketMessage};
use crate::server::user::User;
use crate::table::Key;
use crate::{registry_after, route_to};
use vstd::prelude::*;
use vstd::string::{StrSliceExecFns, StringSliceAdditionalSpecFns};

verus! {

/// What happened on a session's connection or in its outbox.
#[derive(Clone, Copy, Debug, PartialEq, Eq)]
pub enum Event {
    /// The secure channel is established.
    Connected,
    /// The client's 32 identity bytes were read.
    Identity(Key),
    /// A framed client message was read.
    Message(Request),
    /// A notification arrived in the session's outbox.
    Notification(ServerMessage),
    /// The coordinator answered a `RoomRequest`.
    Route(Option<Outbox>),
    /// The proposal was handed to the peer's outbox, or the peer is gone.
    Delivered(bool),
    /// The awaited operation took longer than the timeout.
    Timeout,
    /// A frame was read that is no client message.
    Malformed,
    /// Reading from or writing to the client failed.
    IoError,
    /// The coordinator's inbox is closed.
    ChannelClosed,
}

/// What the session's driver is to do.
#[derive(Clone, Copy, Debug, PartialEq, Eq)]
pub enum Action {
    /// Write the greeting line to the client.
    Greet,
    /// Write a framed message to the client.
    Send(Response),
    /// Send a message to the coordinator.
    Tell(SocketMessage),
    /// Put a message into another session's outbox. The outcome of
    /// delivering a proposal is reported back as `Event::Delivered`; that
    /// of delivering an affirmation is ignored.
    Deliver { to: Outbox, message: ServerMessage },
}

/// The refusal sent to a proposer whose proposal will not be accepted.
pub open spec fn refusal(proposal: RoomProposal) -> Action {
    Action::Deliver {
        to: proposal.proposer_tx,
        message: ServerMessage::RoomAffirmation { room_id: None },
    }
}

/// What a session does when it ends in `phase`: a pending proposal is
/// refused, and an authenticated session disconnects from the coordinator.
pub open spec fn teardown(phase: Phase) -> Seq<Action> {
    match phase {
        Phase::Connecting => seq![],
        Phase::Authenticating => seq![],
        Phase::Active { user } => seq![Action::Tell(SocketMessage::Disconnect { user })],
        Phase::AwaitingRoute { user, .. } => seq![
            Action::Tell(SocketMessage::Disconnect { user }),
        ],
        Phase::AwaitingDelivery { user, .. } => seq![
            Action::Tell(SocketMessage::Disconnect { user }),
        ],
        Phase::AwaitingAccept { user, proposal } => seq![
            refusal(proposal),
            Action::Tell(SocketMessage::Disconnect { user }),
        ],
        Phase::Closed => seq![],
    }
}

/// The session ends: the next phase is `Closed`, after the teardown of `phase`.
pub open spec fn close(phase: Phase) -> (Phase, Seq<Action>) {
    (Phase::Closed, teardown(phase))
}

/// Before the secure channel stands: once it does, the greeting is
/// written and the identity awaited. Anything else ends the session.
pub open spec fn connecting_step(event: Event) -> (Phase, Seq<Action>) {
    match event {
        Event::Connected => (Phase::Authenticating, seq![Action::Greet]),
        _ => close(Phase::Connecting),
    }
}

/// While the identity is awaited: the 32 bytes read become the session's
/// user, who is subscribed under the session's outbox. A timeout or a
/// failure ends the session, and the coordinator is told nothing.
pub open spec fn authenticating_step(tx: Outbox, event: Event) -> (Phase, Seq<Action>) {
    match event {
        Event::Identity(key) => {
            let user = User { key };
            (Phase::Active { user }, seq![Action::Tell(SocketMessage::SubscribeUser { user, tx })])
        },
        _ => close(Phase::Authenticating),
    }
}

/// The normal loop.
///
/// A heartbeat changes nothing. `Shutdown` ends the session. `Room` asks
/// the coordinator for the target's outbox. A proposal from the outbox is
/// shown to the client, whose `Accept` is then awaited. An affirmation
/// from the outbox is passed on to the client. Anything else, an `Accept`
/// that nobody asked for among it, ends the session.
pub open spec fn active_step(user: User, event: Event) -> (Phase, Seq<Action>) {
    match event {
        Event::Message(Request::Heartbeat) => (Phase::Active { user }, seq![]),
        Event::Message(Request::Room(target)) => (
            Phase::AwaitingRoute { user, target },
            seq![Action::Tell(SocketMessage::RoomRequest { receiver: target })],
        ),
        Event::Notification(ServerMessage::RoomProposal { proposal }) => (
            Phase::AwaitingAccept { user, proposal },
            seq![Action::Send(Response::WantsRoom(proposal.proposer))],
        ),
        Event::Notification(ServerMessage::RoomAffirmation { room_id }) => (
            Phase::Active { user },
            seq![Action::Send(Response::AcceptedRoom(room_id))],
        ),
        _ => close(Phase::Active { user }),
    }
}

/// While the coordinator's answer is awaited: without a route the client
/// is told so; with one, the session's proposal is handed to it.
pub open spec fn route_step(user: User, tx: Outbox, target: User, event: Event) -> (
    Phase,
    Seq<Action>,
) {
    match event {
        Event::Route(None) => (Phase::Active { user }, seq![Action::Send(Response::NoRoute(target))]),
        Event::Route(Some(route)) => (
            Phase::AwaitingDelivery { user, target },
            seq![
                Action::Deliver {
                    to: route,
                    message: ServerMessage::RoomProposal {
                        proposal: RoomProposal { proposer: user, proposer_tx: tx },
                    },
                },
            ],
        ),
        _ => close(Phase::AwaitingRoute { user, target }),
    }
}

/// While the outcome of the delivery is awaited: the client is told
/// whether its request reached the target.
pub open spec fn delivery_step(user: User, target: User, event: Event) -> (Phase, Seq<Action>) {
    match event {
        Event::Delivered(true) => (
            Phase::Active { user },
            seq![Action::Send(Response::HasRoute(target))],
        ),
        Event::Delivered(false) => (
            Phase::Active { user },
            seq![Action::Send(Response::NoRoute(target))],
        ),
        _ => close(Phase::AwaitingDelivery { user, target }),
    }
}

/// While the client's `Accept` is awaited.
///
/// `Accept(true)` asks the coordinator to mint the room. Any other
/// message of the client, `Accept(false)` among them, refuses the
/// proposal, and so does a timeout; the normal loop then goes on. A
/// malformed frame, a failure of the connection or of the coordinator's
/// inbox, and an event that this wait does not await refuse the proposal
/// and end the session.
pub open spec fn accept_step(user: User, tx: Outbox, proposal: RoomProposal, event: Event) -> (
    Phase,
    Seq<Action>,
) {
    match event {
        Event::Message(Request::Accept(true)) => (
            Phase::Active { user },
            seq![
                Action::Tell(
                    SocketMessage::GenerateRoom {
                        proposer_tx: proposal.proposer_tx,
                        proposer: proposal.proposer,
                        recipient_tx: tx,
                        recipient: user,
                    },
                ),
            ],
        ),
        Event::Message(_) => (Phase::Active { user }, seq![refusal(proposal)]),
        Event::Timeout => (Phase::Active { user }, seq![refusal(proposal)]),
        _ => close(Phase::AwaitingAccept { user, proposal }),
    }
}

/// The session's protocol: the state after `event` and the actions it calls for.
pub open spec fn step(state: State, event: Event) -> (State, Seq<Action>) {
    let (phase, actions) = match state.phase {
        Phase::Connecting => connecting_step(event),
        Phase::Authenticating => authenticating_step(state.tx, event),
        Phase::Active { user } => active_step(user, event),
        Phase::AwaitingRoute { user, target } => route_step(user, state.tx, target, event),
        Phase::AwaitingDelivery { user, target } => delivery_step(user, target, event),
        Phase::AwaitingAccept { user, proposal } => accept_step(user, state.tx, proposal, event),
        Phase::Closed => (Phase::Closed, seq![]),
    };
    (State { tx: state.tx, phase }, actions)
}

/// The greeting line that the server writes once the secure channel
/// stands: the protocol's name and version.
pub fn greeting() -> (line: Vec<u8>)
    ensures
        line@ == "rhizome v0.1.0\n".spec_bytes(),
{
    "rhizome v0.1.0\n".as_bytes_vec()
}

fn no_action() -> (actions: Vec<Action>)
    ensures
        actions@ == Seq::<Action>::empty(),
{
    Vec::new()
}

fn one_action(action: Action) -> (actions: Vec<Action>)
    ensures
        actions@ == seq![action],
{
    let mut actions: Vec<Action> = Vec::new();
    actions.push(action);
    actions
}

/// The delivery of a refusal to the proposer's outbox.
fn refuse(proposal: RoomProposal) -> (action: Action)
    ensures
        action == refusal(proposal),
{
    Action::Deliver {
        to: proposal.proposer_tx,
        message: ServerMessage::RoomAffirmation { room_id: None },
    }
}

/// Ends a session that was in `phase`.
fn shut_down(state: &mut State, phase: Phase) -> (actions: Vec<Action>)
    ensures
        final(state).tx == old(state).tx,
        (final(state).phase, actions@) == close(phase),
{
    let mut actions: Vec<Action> = Vec::new();
    match phase {
        Phase::Connecting => {},
        Phase::Authenticating => {},
        Phase::Active { user } => {
            actions.push(Action::Tell(SocketMessage::Disconnect { user }));
        },
        Phase::AwaitingRoute { user, .. } => {
            actions.push(Action::Tell(SocketMessage::Disconnect { user }));
        },
        Phase::AwaitingDelivery { user, .. } => {
            actions.push(Action::Tell(SocketMessage::Disconnect { user }));
        },
        Phase::AwaitingAccept { user, proposal } => {
            actions.push(refuse(proposal));
            actions.push(Action::Tell(SocketMessage::Disconnect { user }));
        },
        Phase::Closed => {},
    }
    state.phase = Phase::Closed;
    actions
}

/// The step of a session whose secure channel does not stand yet.
pub fn rhizome_handshake(state: &mut State, event: Event) -> (actions: Vec<Action>)
    ensures
        final(state).tx == old(state).tx,
        (final(state).phase, actions@) == connecting_step(event),
{
    match event {
        Event::Connected => {
            state.phase = Phase::Authenticating;
            one_action(Action::Greet)
        },
        _ => shut_down(state, Phase::Connecting),
    }
}

/// The step of a session that awaits its client's identity.
pub fn authenticate(state: &mut State, event: Event) -> (actions: Vec<Action>)
    ensures
        final(state).tx == old(state).tx,
        (final(state).phase, actions@) == authenticating_step(old(state).tx, event),
{
    match event {
        Event::Identity(key) => {
            let user = User { key };
            state.phase = Phase::Active { user };
            one_action(Action::Tell(SocketMessage::SubscribeUser { user, tx: state.tx }))
        },
        _ => shut_down(state, Phase::Authenticating),
    }
}

/// The step of the session of `user` in its normal loop.
pub fn handle_messages(state: &mut State, user: User, event: Event) -> (actions: Vec<Action>)
    ensures
        final(state).tx == old(state).tx,
        (final(state).phase, actions@) == active_step(user, event),
{
    match event {
        Event::Message(Request::Heartbeat) => {
            state.phase = Phase::Active { user };
            no_action()
        },
        Event::Message(Request::Room(target)) => {
            state.phase = Phase::AwaitingRoute { user, target };
            one_action(Action::Tell(SocketMessage::RoomRequest { receiver: target }))
        },
        Event::Notification(ServerMessage::RoomProposal { proposal }) => {
            state.phase = Phase::AwaitingAccept { user, proposal };
            one_action(Action::Send(Response::WantsRoom(proposal.proposer)))
        },
        Event::Notification(ServerMessage::RoomAffirmation { room_id }) => {
            state.phase = Phase::Active { user };
            one_action(Action::Send(Response::AcceptedRoom(room_id)))
        },
        _ => shut_down(state, Phase::Active { user }),
    }
}

/// The step of the session of `user` that asked for a room with `target`:
/// it awaits the route to `target`, or, with `proposed` set, the outcome
/// of handing its proposal to that route.
pub fn handle_room_request(
    state: &mut State,
    user: User,
    target: User,
    proposed: bool,
    event: Event,
) -> (actions: Vec<Action>)
    ensures
        final(state).tx == old(state).tx,
        (final(state).phase, actions@) == if proposed {
            delivery_step(user, target, event)
        } else {
            route_step(user, old(state).tx, target, event)
        },
{
    match (proposed, event) {
        (false, Event::Route(None)) => {
            state.phase = Phase::Active { user };
            one_action(Action::Send(Response::NoRoute(target)))
        },
        (false, Event::Route(Some(route))) => {
            state.phase = Phase::AwaitingDelivery { user, target };
            let proposal = RoomProposal { proposer: user, proposer_tx: state.tx };
            one_action(
                Action::Deliver { to: route, message: ServerMessage::RoomProposal { proposal } },
            )
        },
        (true, Event::Delivered(true)) => {
            state.phase = Phase::Active { user };
            one_action(Action::Send(Response::HasRoute(target)))
        },
        (true, Event::Delivered(false)) => {
            state.phase = Phase::Active { user };
            one_action(Action::Send(Response::NoRoute(target)))
        },
        (true, _) => shut_down(state, Phase::AwaitingDelivery { user, target }),
        (false, _) => shut_down(state, Phase::AwaitingRoute { user, target }),
    }
}

/// The step of the session of `user` that showed `proposal` to its client
/// and awaits the answer.
pub fn handle_room_proposal(state: &mut State, user: User, proposal: RoomProposal, event: Event) -> (actions:
    Vec<Action>)
    ensures
        final(state).tx == old(state).tx,
        (final(state).phase, actions@) == accept_step(user, old(state).tx, proposal, event),
{
    match event {
        Event::Message(Request::Accept(true)) => {
            state.phase = Phase::Active { user };
            one_action(
                Action::Tell(
                    SocketMessage::GenerateRoom {
                        proposer_tx: proposal.proposer_tx,
                        proposer: proposal.proposer,
                        recipient_tx: state.tx,
                        recipient: user,
                    },
                ),
            )
        },
        Event::Message(_) => {
            state.phase = Phase::Active { user };
            one_action(refuse(proposal))
        },
        Event::Timeout => {
            state.phase = Phase::Active { user };
            one_action(refuse(proposal))
        },
        _ => shut_down(state, Phase::AwaitingAccept { user, proposal }),
    }
}

/// Advances a session by one event and returns the actions to perform, in order.
pub fn handle(state: &mut State, event: Event) -> (actions: Vec<Action>)
    ensures
        (*final(state), actions@) == step(*old(state), event),
{
    match state.phase {
        Phase::Connecting => rhizome_handshake(state, event),
        Phase::Authenticating => authenticate(state, event),
        Phase::Active { user } => handle_messages(state, user, event),
        Phase::AwaitingRoute { user, target } => handle_room_request(
            state,
            user,
            target,
            false,
            event,
        ),
        Phase::AwaitingDelivery { user, target } => handle_room_request(
            state,
            user,
            target,
            true,
            event,
        ),
        Phase::AwaitingAccept { user, proposal } => handle_room_proposal(
            state,
            user,
            proposal,
            event,
        ),
        Phase::Closed => no_action(),
    }
}

/// A closed session stays closed and asks for nothing.
pub proof fn lemma_closed_is_final(state: State, event: Event)
    requires
        state.phase is Closed,
    ensures
        step(state, event) == (state, Seq::<Action>::empty()),
{
}

/// How far a session has got: connecting, authenticating, authenticated, closed.
pub open spec fn progress(phase: Phase) -> int {
    match phase {
        Phase::Connecting => 0,
        Phase::Authenticating => 1,
        Phase::Active { .. } => 2,
        Phase::AwaitingRoute { .. } => 2,
        Phase::AwaitingDelivery { .. } => 2,
        Phase::AwaitingAccept { .. } => 2,
        Phase::Closed => 3,
    }
}

/// A session never goes back: it gets from connecting to authenticating
/// to authenticated one step at a time, or closes. A session that waits
/// for its client's answer or for the outcome of a delivery returns to
/// the normal loop or closes; one that waits for a route may go on to
/// wait for the delivery.
pub proof fn lemma_no_way_back(state: State, event: Event)
    ensures
        ({
            let next = step(state, event).0.phase;
            &&& progress(state.phase) <= progress(next)
            &&& progress(next) <= progress(state.phase) + 1 || next is Closed
            &&& !(state.phase is Active) && progress(state.phase) == 2 && progress(next) == 2
                ==> next is Active || next is AwaitingDelivery && state.phase is AwaitingRoute
        }),
{
}

/// The coordinator is asked to subscribe a user only when a session
/// authenticates, and to mint a room only when a client accepts the
/// proposal that its session is waiting on.
pub proof fn lemma_requests_have_their_cause(state: State, event: Event, i: int)
    requires
        0 <= i < step(state, event).1.len(),
    ensures
        step(state, event).1[i] matches Action::Tell(SocketMessage::SubscribeUser { .. })
            ==> state.phase is Authenticating && event is Identity,
        step(state, event).1[i] matches Action::Tell(SocketMessage::GenerateRoom { .. })
            ==> state.phase is AwaitingAccept && event == Event::Message(Request::Accept(true)),
        step(state, event).1[i] matches Action::Tell(SocketMessage::RoomRequest { .. })
            ==> state.phase is Active && event matches Event::Message(Request::Room(_)),
{
}

/// A session keeps its outbox, and keeps its user until it closes.
pub proof fn lemma_identity_is_kept(state: State, event: Event)
    ensures
        step(state, event).0.tx == state.tx,
        state.spec_user() is Some && !(step(state, event).0.phase is Closed) ==> step(
            state,
            event,
        ).0.spec_user() == state.spec_user(),
{
}

/// A session that completes authentication is found right after. Once
/// the 32 identity bytes are read, the session is active for the user
/// with that key and tells the coordinator to subscribe it; once the
/// coordinator has done so, a request for that user is answered with the
/// session's outbox.
pub proof fn lemma_authenticated_session_is_found(
    state: State,
    key: Key,
    usrs: Map<Seq<u8>, Outbox>,
)
    requires
        state.phase is Authenticating,
    ensures
        ({
            let user = User { key };
            let subscribe = SocketMessage::SubscribeUser { user, tx: state.tx };
            &&& step(state, Event::Identity(key)) == (
                State { tx: state.tx, phase: Phase::Active { user } },
                seq![Action::Tell(subscribe)],
            )
            &&& route_to(registry_after(usrs, subscribe), user) == Some(state.tx)
        }),
{
}

/// Until the identity is read the coordinator is told nothing: a session
/// that fails to connect or to authenticate ends without a trace in the
/// registry.
pub proof fn lemma_failed_authentication_is_silent(state: State, event: Event)
    requires
        state.phase is Connecting || state.phase is Authenticating,
        !(state.phase is Authenticating && event is Identity),
    ensures
        forall|i: int|
            0 <= i < step(state, event).1.len() ==> !(#[trigger] step(state, event).1[i] is Tell),
        state.phase is Authenticating ==> step(state, event) == (
            State { tx: state.tx, phase: Phase::Closed },
            Seq::<Action>::empty(),
        ),
{
}

/// Every exit disconnects. Whatever event ends the session of an
/// authenticated user, the last thing the session does is to tell the
/// coordinator to disconnect that user, who is then no longer found. While
/// the session goes on, it tells no such thing.
pub proof fn lemma_every_exit_disconnects(state: State, event: Event, usrs: Map<Seq<u8>, Outbox>)
    requires
        state.spec_user() is Some,
    ensures
        ({
            let user = state.spec_user().unwrap();
            let disconnect = SocketMessage::Disconnect { user };
            let (next, actions) = step(state, event);
            &&& next.phase is Closed ==> actions.len() > 0 && actions.last() == Action::Tell(
                disconnect,
            )
            &&& !(next.phase is Closed) ==> forall|i: int|
                0 <= i < actions.len() ==> !(#[trigger] actions[i] matches Action::Tell(
                    SocketMessage::Disconnect { .. },
                ))
            &&& route_to(registry_after(usrs, disconnect), user) == None::<Outbox>
        }),
{
}

/// A proposal is always answered. While the client's `Accept` is
/// awaited, `Accept(true)` asks the coordinator for a room for the
/// proposer and this session's user, delivers nothing itself and returns
/// to the normal loop. Every other event sends the proposer a refusal
/// first and asks for no room. No event makes the session write to its
/// client, and none leaves it waiting.
pub proof fn lemma_proposal_is_answered(state: State, event: Event)
    requires
        state.phase is AwaitingAccept,
    ensures
        ({
            let (next, actions) = step(state, event);
            let proposal = state.phase->proposal;
            &&& next.phase is Active || next.phase is Closed
            &&& forall|i: int| 0 <= i < actions.len() ==> !(#[trigger] actions[i] is Send)
            &&& if event == Event::Message(Request::Accept(true)) {
                &&& next.phase is Active
                &&& actions == seq![
                    Action::Tell(
                        SocketMessage::GenerateRoom {
                            proposer_tx: proposal.proposer_tx,
                            proposer: proposal.proposer,
                            recipient_tx: state.tx,
                            recipient: state.spec_user().unwrap(),
                        },
                    ),
                ]
            } else {
                &&& actions.len() > 0
                &&& actions[0] == refusal(proposal)
                &&& forall|i: int|
                    0 <= i < actions.len() ==> !(#[trigger] actions[i] matches Action::Tell(
                        SocketMessage::GenerateRoom { .. },
                    ))
            }
        }),
{
}

/// Only a failure ends a session that awaits `Accept`. Whatever message
/// the client sends in place of `Accept(true)`, and likewise when it
/// sends none in time, the proposer is sent a refusal, the coordinator
/// is told nothing, and the session is back in its normal loop.
pub proof fn lemma_other_answers_refuse_and_resume(state: State, event: Event)
    requires
        state.phase is AwaitingAccept,
        event is Message || event is Timeout,
        event != Event::Message(Request::Accept(true)),
    ensures
        step(state, event) == (
            State { tx: state.tx, phase: Phase::Active { user: state.spec_user().unwrap() } },
            seq![refusal(state.phase->proposal)],
        ),
{
}

/// A declined proposal opens no room. The session tells the coordinator
/// nothing, so the rendezvous table stays as it is; the proposer is sent
/// a refusal, which its own session passes on to its client as
/// `AcceptedRoom(None)`.
pub proof fn lemma_declined_proposal_opens_no_room(recipient: State, proposer: State)
    requires
        recipient.phase is AwaitingAccept,
        proposer.phase is Active,
    ensures
        ({
            let proposal = recipient.phase->proposal;
            let (resumed, answered) = step(recipient, Event::Message(Request::Accept(false)));
            let (same, passed_on) = step(
                proposer,
                Event::Notification(ServerMessage::RoomAffirmation { room_id: None }),
            );
            &&& resumed.phase == (Phase::Active { user: recipient.spec_user().unwrap() })
            &&& answered == seq![
                Action::Deliver {
                    to: proposal.proposer_tx,
                    message: ServerMessage::RoomAffirmation { room_id: None },
                },
            ]
            &&& same == proposer
            &&& passed_on == seq![Action::Send(Response::AcceptedRoom(None))]
        }),
{
}

/// A request for a room with a user whom the registry holds reaches that
/// user. The session asks the coordinator; with the route in hand it
/// puts one proposal, bearing its own user and outbox, into that route;
/// and once the proposal is delivered the client is told `HasRoute` and
/// the normal loop goes on. Where the peer is gone by then, the client
/// is told `NoRoute` instead.
pub proof fn lemma_known_target_has_route(
    state: State,
    target: User,
    usrs: Map<Seq<u8>, Outbox>,
    delivered: bool,
)
    requires
        state.phase is Active,
        usrs.contains_key(target.key@),
    ensures
        ({
            let user = state.spec_user().unwrap();
            let (asking, asked) = step(state, Event::Message(Request::Room(target)));
            let (proposing, proposed) = step(asking, Event::Route(route_to(usrs, target)));
            let (answered, told) = step(proposing, Event::Delivered(delivered));
            &&& asked == seq![Action::Tell(SocketMessage::RoomRequest { receiver: target })]
            &&& proposed == seq![
                Action::Deliver {
                    to: usrs[target.key@],
                    message: ServerMessage::RoomProposal {
                        proposal: RoomProposal { proposer: user, proposer_tx: state.tx },
                    },
                },
            ]
            &&& told == seq![
                Action::Send(
                    if delivered {
                        Response::HasRoute(target)
                    } else {
                        Response::NoRoute(target)
                    },
                ),
            ]
            &&& answered == state
        }),
{
}

/// What arrives in the outbox of a session in its normal loop is passed
/// on to its client. A proposal is shown as `WantsRoom` with the
/// proposer's key, and the client's answer is then awaited; an
/// affirmation is shown as `AcceptedRoom` with the same secret, and the
/// normal loop goes on. Neither tells the coordinator anything.
pub proof fn lemma_notifications_are_passed_on(state: State, message: ServerMessage)
    requires
        state.phase is Active,
    ensures
        ({
            let user = state.spec_user().unwrap();
            let (next, actions) = step(state, Event::Notification(message));
            match message {
                ServerMessage::RoomProposal { proposal } => {
                    &&& next == State { tx: state.tx, phase: Phase::AwaitingAccept { user, proposal } }
                    &&& actions == seq![Action::Send(Response::WantsRoom(proposal.proposer))]
                },
                ServerMessage::RoomAffirmation { room_id } => {
                    &&& next == state
                    &&& actions == seq![Action::Send(Response::AcceptedRoom(room_id))]
                },
            }
        }),
{
}

/// How two users come to share a room. The proposer's session asks for
/// a room with the recipient, whose outbox the registry holds, and hands
/// it a proposal. The recipient's session shows its client `WantsRoom`
/// with the proposer's key and, on `Accept(true)`, asks the coordinator
/// for a room for the two outboxes. Whatever secret the coordinator then
/// puts into both outboxes, each session shows it to its client as
/// `AcceptedRoom` with that secret, and both are back in their normal
/// loops.
pub proof fn lemma_agreed_room_reaches_both(
    proposer: State,
    recipient: State,
    usrs: Map<Seq<u8>, Outbox>,
    room_id: Option<RoomId>,
)
    requires
        proposer.phase is Active,
        recipient.phase is Active,
        route_to(usrs, recipient.spec_user().unwrap()) == Some(recipient.tx),
    ensures
        ({
            let asks = proposer.spec_user().unwrap();
            let asked = recipient.spec_user().unwrap();
            let proposal = RoomProposal { proposer: asks, proposer_tx: proposer.tx };
            let affirmation = Event::Notification(ServerMessage::RoomAffirmation { room_id });
            let (asking, request) = step(proposer, Event::Message(Request::Room(asked)));
            let (handing, handed) = step(asking, Event::Route(route_to(usrs, asked)));
            let (routed, reached) = step(handing, Event::Delivered(true));
            let (shown, wanted) = step(
                recipient,
                Event::Notification(ServerMessage::RoomProposal { proposal }),
            );
            let (agreed, minting) = step(shown, Event::Message(Request::Accept(true)));
            let (proposer_after, to_proposer) = step(routed, affirmation);
            let (recipient_after, to_recipient) = step(agreed, affirmation);
            &&& request == seq![Action::Tell(SocketMessage::RoomRequest { receiver: asked })]
            &&& handed == seq![
                Action::Deliver {
                    to: recipient.tx,
                    message: ServerMessage::RoomProposal { proposal },
                },
            ]
            &&& reached == seq![Action::Send(Response::HasRoute(asked))]
            &&& wanted == seq![Action::Send(Response::WantsRoom(asks))]
            &&& minting == seq![
                Action::Tell(
                    SocketMessage::GenerateRoom {
                        proposer_tx: proposer.tx,
                        proposer: asks,
                        recipient_tx: recipient.tx,
                        recipient: asked,
                    },
                ),
            ]
            &&& to_proposer == seq![Action::Send(Response::AcceptedRoom(room_id))]
            &&& to_recipient == seq![Action::Send(Response::AcceptedRoom(room_id))]
            &&& proposer_after == proposer
            &&& recipient_after == recipient
        }),
{
}

/// A request for a room with a user whom the registry does not hold ends
/// in `NoRoute`: the session asks the coordinator, the answer is no
/// route, and the client is told so while the session goes on.
pub proof fn lemma_unknown_target_has_no_route(
    state: State,
    target: User,
    usrs: Map<Seq<u8>, Outbox>,
)
    requires
        state.phase is Active,
        !usrs.contains_key(target.key@),
    ensures
        ({
            let (asking, asked) = step(state, Event::Message(Request::Room(target)));
            let (answered, told) = step(asking, Event::Route(route_to(usrs, target)));
            &&& asked == seq![Action::Tell(SocketMessage::RoomRequest { receiver: target })]
            &&& told == seq![Action::Send(Response::NoRoute(target))]
            &&& answered == state
        }),
{
}

} // verus!
