use rhizome::ctrl_chnl::request::{recv_req, Received, Request};
use rhizome::ctrl_chnl::response::{Response, MAX_RESPONSE_LEN};
use rhizome::ctrl_chnl::state::{Phase, State as Session};
use rhizome::ctrl_chnl::{greeting, handle as advance, Action, Event};
use rhizome::rendezvous::{handle_datagram, send_info, Endpoint, Rejection, RoomStatus};
use rhizome::server::messages::{Outbox, ServerMessage, SocketMessage};
use rhizome::server::state::State as Coordinator;
use rhizome::server::user::User;
use rhizome::wire::{read_frame, Framing};
use rhizome::{commit_room, handle_sock_msg, Reaction};

/// One client and its session, as a driver would hold them.
struct Seat {
    session: Session,
    /// Notifications delivered to the session's outbox and not yet handled.
    outbox: Vec<ServerMessage>,
    /// The bytes written to the client so far.
    written: Vec<u8>,
}

/// A coordinator and its sessions, wired together in memory. The outbox
/// of the session in seat `n` has the handle `n`.
struct Server {
    coordinator: Coordinator,
    seats: Vec<Seat>,
    now: u64,
}

impl Server {
    fn new() -> Server {
        Server { coordinator: Coordinator::new(), seats: Vec::new(), now: 1_000 }
    }

    fn alive(&self, outbox: Outbox) -> bool {
        let seat = outbox.id as usize;
        seat < self.seats.len() && !self.seats[seat].session.is_closed()
    }

    fn deliver(&mut self, to: Outbox, message: ServerMessage) -> bool {
        if self.alive(to) {
            self.seats[to.id as usize].outbox.push(message);
            true
        } else {
            false
        }
    }

    fn feed(&mut self, seat: usize, event: Event) {
        let actions = advance(&mut self.seats[seat].session, event);
        for action in actions {
            self.perform(seat, action);
        }
    }

    fn perform(&mut self, seat: usize, action: Action) {
        match action {
            Action::Greet => {
                let line = greeting();
                self.seats[seat].written.extend_from_slice(&line);
            }
            Action::Send(response) => response.send_with(&mut self.seats[seat].written),
            Action::Tell(message) => match handle_sock_msg(message, &mut self.coordinator) {
                Reaction::Done => {}
                Reaction::Route(route) => self.feed(seat, Event::Route(route)),
                Reaction::Affirm { room_id, proposer_tx, recipient_tx } => {
                    let affirmation = ServerMessage::RoomAffirmation { room_id };
                    let recipient_delivered = self.deliver(recipient_tx, affirmation);
                    let proposer_delivered = self.deliver(proposer_tx, affirmation);
                    if let Some(room_id) = room_id {
                        commit_room(
                            &mut self.coordinator,
                            room_id,
                            proposer_delivered,
                            recipient_delivered,
                            self.now,
                        );
                    }
                }
            },
            Action::Deliver { to, message } => {
                let delivered = self.deliver(to, message);
                if let ServerMessage::RoomProposal { .. } = message {
                    self.feed(seat, Event::Delivered(delivered));
                }
            }
        }
    }

    /// Lets every session in its normal loop handle what is in its outbox.
    fn settle(&mut self) {
        loop {
            let ready = (0..self.seats.len()).find(|&seat| {
                !self.seats[seat].outbox.is_empty()
                    && matches!(self.seats[seat].session.phase, Phase::Active { .. })
            });
            match ready {
                Some(seat) => {
                    let message = self.seats[seat].outbox.remove(0);
                    self.feed(seat, Event::Notification(message));
                }
                None => break,
            }
        }
    }

    /// A client connects and authenticates with `key`.
    fn connect(&mut self, key: [u8; 32]) -> usize {
        let seat = self.seats.len();
        let session = Session::new(Outbox { id: seat as u64 });
        self.seats.push(Seat { session, outbox: Vec::new(), written: Vec::new() });
        self.feed(seat, Event::Connected);
        assert_eq!(self.seats[seat].written, b"rhizome v0.1.0\n".to_vec());
        self.seats[seat].written.clear();
        self.feed(seat, Event::Identity(key));
        seat
    }

    /// The client sends the frame of `request`.
    fn send(&mut self, seat: usize, request: Request) {
        let mut bytes = Vec::new();
        request.send_with(&mut bytes);
        let event = match recv_req(&bytes) {
            Received::Message { request, consumed } => {
                assert_eq!(consumed, bytes.len());
                Event::Message(request)
            }
            Received::Malformed => Event::Malformed,
            Received::Incomplete { .. } => Event::IoError,
        };
        self.feed(seat, event);
        self.settle();
    }

    /// What the client has been sent since it was last asked.
    fn received(&mut self, seat: usize) -> Vec<Response> {
        let mut responses = Vec::new();
        let written = std::mem::take(&mut self.seats[seat].written);
        let mut at = 0;
        while at < written.len() {
            match read_frame(&written[at..], MAX_RESPONSE_LEN) {
                Framing::Complete { end } => {
                    responses.push(Response::decode(&written[at + 4..at + end]).unwrap());
                    at += end;
                }
                other => panic!("the client was sent {:?}", other),
            }
        }
        responses
    }
}

const K1: [u8; 32] = [0x11; 32];
const K2: [u8; 32] = [0x22; 32];

fn u1() -> User {
    User { key: K1 }
}

fn u2() -> User {
    User { key: K2 }
}

fn addr(last: u8, port: u16) -> Endpoint {
    Endpoint::V4 { ip: [198, 51, 100, last], port }
}

/// Both users connect, the first asks for a room with the second, and
/// the second accepts. Returns the server and the room's secret.
fn agreed_room() -> (Server, [u8; 32]) {
    let mut server = Server::new();
    let first = server.connect(K1);
    let second = server.connect(K2);
    server.send(first, Request::Room(u2()));
    assert_eq!(server.received(first), vec![Response::HasRoute(u2())]);
    assert_eq!(server.received(second), vec![Response::WantsRoom(u1())]);
    server.send(second, Request::Accept(true));
    let to_first = server.received(first);
    let to_second = server.received(second);
    let room_id = match to_first.as_slice() {
        [Response::AcceptedRoom(Some(room_id))] => *room_id,
        other => panic!("the proposer was sent {:?}", other),
    };
    assert_eq!(to_second, vec![Response::AcceptedRoom(Some(room_id))]);
    (server, room_id)
}

#[test]
fn authenticated_session_is_discoverable_until_it_disconnects() {
    let mut server = Server::new();
    let first = server.connect(K1);
    let second = server.connect(K2);
    assert_eq!(server.coordinator.usrs.get(&K1), Some(&Outbox { id: first as u64 }));
    assert_eq!(server.coordinator.usrs.get(&K2), Some(&Outbox { id: second as u64 }));
    server.send(second, Request::Shutdown);
    assert!(server.seats[second].session.is_closed());
    assert_eq!(server.coordinator.usrs.get(&K2), None);
    server.send(first, Request::Room(u2()));
    assert_eq!(server.received(first), vec![Response::NoRoute(u2())]);
}

#[test]
fn session_that_fails_to_authenticate_leaves_no_trace() {
    let mut server = Server::new();
    let seat = server.seats.len();
    let session = Session::new(Outbox { id: seat as u64 });
    server.seats.push(Seat { session, outbox: Vec::new(), written: Vec::new() });
    server.feed(seat, Event::Connected);
    server.feed(seat, Event::Timeout);
    assert!(server.seats[seat].session.is_closed());
    assert_eq!(server.coordinator.usrs.len(), 0);
}

#[test]
fn accepted_room_is_affirmed_to_both_and_idle() {
    let (server, room_id) = agreed_room();
    assert_eq!(server.coordinator.rooms.get(&room_id), Some(&RoomStatus::Idle(server.now)));
    assert_eq!(server.coordinator.rooms.len(), 1);
    assert_eq!(server.seats[0].session.phase, Phase::Active { user: u1() });
    assert_eq!(server.seats[1].session.phase, Phase::Active { user: u2() });
}

#[test]
fn agreed_room_matches_two_datagrams_and_refuses_the_third() {
    let (mut server, room_id) = agreed_room();
    let addr1 = addr(1, 40_001);
    let addr2 = addr(2, 40_002);
    let rooms = &mut server.coordinator.rooms;
    let reply = handle_datagram(rooms, &room_id, addr1, 2_000);
    assert_eq!(reply.verdict, Ok(()));
    assert!(reply.datagrams.is_empty());
    assert_eq!(rooms.get(&room_id), Some(&RoomStatus::Waiting(addr1, 2_000)));
    let reply = handle_datagram(rooms, &room_id, addr2, 3_000);
    assert_eq!(reply.verdict, Ok(()));
    assert_eq!(reply.datagrams, vec![send_info(addr2, addr1), send_info(addr1, addr2)]);
    assert_eq!(reply.datagrams[1].to, addr1);
    assert_eq!(reply.datagrams[1].payload, vec![4, 198, 51, 100, 2, 0x9c, 0x42]);
    assert_eq!(reply.datagrams[0].to, addr2);
    assert_eq!(reply.datagrams[0].payload, vec![4, 198, 51, 100, 1, 0x9c, 0x41]);
    let reply = handle_datagram(rooms, &room_id, addr1, 4_000);
    assert_eq!(reply.verdict, Err(Rejection::RoomClosed));
    assert!(reply.datagrams.is_empty());
    assert_eq!(rooms.len(), 0);
}

#[test]
fn room_with_an_unknown_user_has_no_route() {
    let mut server = Server::new();
    let first = server.connect(K1);
    let unknown = User { key: [0x33; 32] };
    server.send(first, Request::Room(unknown));
    assert_eq!(server.received(first), vec![Response::NoRoute(unknown)]);
    assert_eq!(server.seats[first].session.phase, Phase::Active { user: u1() });
    assert_eq!(server.coordinator.rooms.len(), 0);
}

#[test]
fn declined_proposal_is_affirmed_with_no_room() {
    let mut server = Server::new();
    let first = server.connect(K1);
    let second = server.connect(K2);
    server.send(first, Request::Room(u2()));
    assert_eq!(server.received(first), vec![Response::HasRoute(u2())]);
    assert_eq!(server.received(second), vec![Response::WantsRoom(u1())]);
    server.send(second, Request::Accept(false));
    assert_eq!(server.received(first), vec![Response::AcceptedRoom(None)]);
    assert_eq!(server.received(second), vec![]);
    assert_eq!(server.coordinator.rooms.len(), 0);
    assert_eq!(server.seats[second].session.phase, Phase::Active { user: u2() });
}

#[test]
fn room_with_a_user_whose_session_is_gone_has_no_route() {
    let mut server = Server::new();
    let first = server.connect(K1);
    let second = server.connect(K2);
    // The second session dies, and its disconnect has not reached the coordinator yet.
    server.seats[second].session.phase = Phase::Closed;
    server.send(first, Request::Room(u2()));
    assert_eq!(server.received(first), vec![Response::NoRoute(u2())]);
}

#[test]
fn room_survives_when_one_party_is_gone() {
    let mut server = Server::new();
    let first = server.connect(K1);
    let second = server.connect(K2);
    server.send(first, Request::Room(u2()));
    // The proposer's session dies while the other client makes up its mind.
    server.seats[first].session.phase = Phase::Closed;
    server.send(second, Request::Accept(true));
    let room_id = match server.received(second).as_slice() {
        [Response::WantsRoom(_), Response::AcceptedRoom(Some(room_id))] => *room_id,
        other => panic!("the recipient was sent {:?}", other),
    };
    assert_eq!(server.coordinator.rooms.get(&room_id), Some(&RoomStatus::Idle(server.now)));
}

#[test]
fn proposal_that_is_not_answered_in_time_is_refused() {
    let mut server = Server::new();
    let first = server.connect(K1);
    let second = server.connect(K2);
    server.send(first, Request::Room(u2()));
    server.feed(second, Event::Timeout);
    server.settle();
    assert_eq!(
        server.received(first),
        vec![Response::HasRoute(u2()), Response::AcceptedRoom(None)]
    );
    assert_eq!(server.seats[second].session.phase, Phase::Active { user: u2() });
    assert_eq!(server.coordinator.rooms.len(), 0);
}

#[test]
fn message_that_is_no_accept_refuses_the_proposal_and_the_session_goes_on() {
    let mut server = Server::new();
    let first = server.connect(K1);
    let second = server.connect(K2);
    server.send(first, Request::Room(u2()));
    server.send(second, Request::Heartbeat);
    assert_eq!(
        server.received(first),
        vec![Response::HasRoute(u2()), Response::AcceptedRoom(None)]
    );
    assert_eq!(server.received(second), vec![Response::WantsRoom(u1())]);
    assert_eq!(server.seats[second].session.phase, Phase::Active { user: u2() });
    assert_eq!(server.coordinator.usrs.get(&K2), Some(&Outbox { id: second as u64 }));
    assert_eq!(server.coordinator.rooms.len(), 0);
    // The session still serves its client.
    server.send(second, Request::Room(u1()));
    assert_eq!(server.received(second), vec![Response::HasRoute(u1())]);
    assert_eq!(server.received(first), vec![Response::WantsRoom(u2())]);
}

#[test]
fn client_that_breaks_off_during_a_proposal_refuses_it_and_disconnects() {
    let mut server = Server::new();
    let first = server.connect(K1);
    let second = server.connect(K2);
    server.send(first, Request::Room(u2()));
    server.feed(second, Event::IoError);
    server.settle();
    assert_eq!(
        server.received(first),
        vec![Response::HasRoute(u2()), Response::AcceptedRoom(None)]
    );
    assert!(server.seats[second].session.is_closed());
    assert_eq!(server.coordinator.usrs.get(&K2), None);
    assert_eq!(server.coordinator.usrs.get(&K1), Some(&Outbox { id: first as u64 }));
}

#[test]
fn subscribe_message_of_an_authenticated_session_makes_it_discoverable() {
    let mut session = Session::new(Outbox { id: 5 });
    advance(&mut session, Event::Connected);
    let actions = advance(&mut session, Event::Identity(K1));
    let mut coordinator = Coordinator::new();
    for action in actions {
        match action {
            Action::Tell(message) => {
                assert_eq!(handle_sock_msg(message, &mut coordinator), Reaction::Done);
            }
            other => panic!("the session asked for {:?}", other),
        }
    }
    assert_eq!(
        handle_sock_msg(SocketMessage::RoomRequest { receiver: u1() }, &mut coordinator),
        Reaction::Route(Some(Outbox { id: 5 }))
    );
}
