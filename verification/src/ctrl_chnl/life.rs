//! The life of a session: what a run of events leaves in the registry.

use crate::ctrl_chnl::state::{Phase, State};
use crate::ctrl_chnl::{step, Action, Event};
use crate::server::messages::{Outbox, SocketMessage};
use crate::registry_after_all;
use vstd::prelude::*;

verus! {

/// The messages that `actions` tell the coordinator, in order.
pub open spec fn told(actions: Seq<Action>) -> Seq<SocketMessage>
    decreases actions.len(),
{
    if actions.len() == 0 {
        Seq::empty()
    } else {
        let front = told(actions.drop_last());
        match actions.last() {
            Action::Tell(message) => front.push(message),
            _ => front,
        }
    }
}

/// The state of a session after `events`, and the actions it called for
/// on the way, in order.
pub open spec fn run(state: State, events: Seq<Event>) -> (State, Seq<Action>)
    decreases events.len(),
{
    if events.len() == 0 {
        (state, Seq::empty())
    } else {
        let (before, done) = run(state, events.drop_last());
        let (after, actions) = step(before, events.last());
        (after, done + actions)
    }
}

/// What two runs of actions tell the coordinator is what the first
/// tells, and then what the second tells.
proof fn lemma_told_in_turn(first: Seq<Action>, second: Seq<Action>)
    ensures
        told(first + second) == told(first) + told(second),
    decreases second.len(),
{
    if second.len() > 0 {
        lemma_told_in_turn(first, second.drop_last());
        assert((first + second).drop_last() =~= first + second.drop_last());
    }
}

/// Handling two runs of messages is handling the first and then the second.
proof fn lemma_registry_in_turn(
    usrs: Map<Seq<u8>, Outbox>,
    first: Seq<SocketMessage>,
    second: Seq<SocketMessage>,
)
    ensures
        registry_after_all(usrs, first + second) == registry_after_all(
            registry_after_all(usrs, first),
            second,
        ),
    decreases second.len(),
{
    if second.len() > 0 {
        lemma_registry_in_turn(usrs, first, second.drop_last());
        assert((first + second).drop_last() =~= first + second.drop_last());
    }
}

/// What one step of a session tells the coordinator, and what that makes
/// of the registry: authenticating subscribes the user, closing an
/// authenticated session disconnects it, and no other step tells
/// anything that changes the registry.
proof fn lemma_step_in_registry(state: State, event: Event, usrs: Map<Seq<u8>, Outbox>)
    ensures
        ({
            let (after, actions) = step(state, event);
            let registry = registry_after_all(usrs, told(actions));
            match (state.spec_user(), after.spec_user()) {
                (None, Some(user)) => {
                    &&& told(actions) == seq![SocketMessage::SubscribeUser { user, tx: state.tx }]
                    &&& registry == usrs.insert(user.key@, state.tx)
                },
                (Some(user), None) => {
                    &&& told(actions) == seq![SocketMessage::Disconnect { user }]
                    &&& registry == usrs.remove(user.key@)
                },
                (Some(user), Some(same)) => {
                    &&& same == user
                    &&& told(actions).len() <= 1
                    &&& registry == usrs
                },
                (None, None) => told(actions).len() == 0 && registry == usrs,
            }
        }),
{
    reveal_with_fuel(told, 3);
    reveal_with_fuel(registry_after_all, 3);
}

/// The registry follows the session. Start with a registry `usrs` and a
/// new session with the outbox `tx`, let the session handle `events`, and
/// let the coordinator handle what the session tells it. Then:
///
/// - until the session is authenticated, the coordinator was told
///   nothing, and the registry is as it was;
/// - while the session is authenticated and open, the first thing told
///   was to subscribe its user, and the registry holds `tx` under that
///   user and is otherwise as it was;
/// - once the session is closed, either it never told anything, or it
///   subscribed its user first and disconnected it last, and the
///   registry holds nothing under that user and is otherwise as it was.
pub proof fn lemma_registry_follows_session(
    tx: Outbox,
    events: Seq<Event>,
    usrs: Map<Seq<u8>, Outbox>,
)
    ensures
        ({
            let (state, actions) = run(State { tx, phase: Phase::Connecting }, events);
            let messages = told(actions);
            let registry = registry_after_all(usrs, messages);
            &&& state.tx == tx
            &&& match state.spec_user() {
                Some(user) => {
                    &&& messages.len() > 0
                    &&& messages[0] == SocketMessage::SubscribeUser { user, tx }
                    &&& registry == usrs.insert(user.key@, tx)
                },
                None => messages.len() == 0 && registry == usrs || {
                    &&& state.phase is Closed
                    &&& messages[0] matches SocketMessage::SubscribeUser { user, tx: subscribed }
                    &&& subscribed == tx
                    &&& messages.last() == SocketMessage::Disconnect { user }
                    &&& registry == usrs.remove(user.key@)
                },
            }
        }),
    decreases events.len(),
{
    if events.len() > 0 {
        let start = State { tx, phase: Phase::Connecting };
        lemma_registry_follows_session(tx, events.drop_last(), usrs);
        let (before, done) = run(start, events.drop_last());
        let (after, actions) = step(before, events.last());
        lemma_told_in_turn(done, actions);
        lemma_registry_in_turn(usrs, told(done), told(actions));
        lemma_step_in_registry(before, events.last(), registry_after_all(usrs, told(done)));
    }
}

} // verus!
