//! The datagram side channel: pairing two arrivals under one room secret.
//!
//! A datagram carries a room secret and nothing else. The first arrival
//! under an idle room waits; the second is matched with it, and each of
//! the two is sent the other's address. Every lookup takes the entry out
//! of the table; only the step from idle to waiting puts one back.

use crate::table::{Key, Table};
use crate::wire::append_bytes;
use crate::TIMEOUT;
use vstd::prelude::*;

verus! {

/// The public address that a datagram came from.
#[allow(inconsistent_fields)]
#[derive(Clone, Copy, Debug, PartialEq, Eq)]
pub enum Endpoint {
    V4 { ip: [u8; 4], port: u16 },
    V6 { ip: [u8; 16], port: u16 },
}

impl Endpoint {
    /// Whether this is an IPv4 address.
    pub open spec fn spec_is_ipv4(&self) -> bool {
        self is V4
    }

    /// Whether this is an IPv4 address.
    #[verifier::when_used_as_spec(spec_is_ipv4)]
    pub fn is_ipv4(&self) -> (v4: bool)
        ensures
            v4 == (self is V4),
    {
        match self {
            Endpoint::V4 { .. } => true,
            Endpoint::V6 { .. } => false,
        }
    }

    /// The port.
    pub open spec fn spec_port(&self) -> u16 {
        match self {
            Endpoint::V4 { port, .. } => *port,
            Endpoint::V6 { port, .. } => *port,
        }
    }

    /// The port.
    #[verifier::when_used_as_spec(spec_port)]
    pub fn port(&self) -> (port: u16)
        ensures
            port == self.spec_port(),
    {
        match self {
            Endpoint::V4 { port, .. } => *port,
            Endpoint::V6 { port, .. } => *port,
        }
    }

    /// The raw address bytes: 4 for IPv4, 16 for IPv6.
    pub open spec fn octets(&self) -> Seq<u8> {
        match self {
            Endpoint::V4 { ip, .. } => ip@,
            Endpoint::V6 { ip, .. } => ip@,
        }
    }

    /// How the address is written in a datagram: the family tag (4 or 6),
    /// the raw address bytes, and the port, high byte first.
    pub open spec fn wire(&self) -> Seq<u8> {
        seq![if self is V4 { 4u8 } else { 6u8 }] + self.octets() + seq![
            (self.spec_port() / 256) as u8,
            (self.spec_port() % 256) as u8,
        ]
    }
}

/// The state of a room in the rendezvous table.
#[derive(Clone, Copy, Debug, PartialEq, Eq)]
pub enum RoomStatus {
    /// Nobody has arrived yet; the room was created at the given time.
    Idle(u64),
    /// The endpoint has been waiting for its peer since the given time.
    Waiting(Endpoint, u64),
}

/// The rendezvous table, keyed by room secret.
pub type MatchMap = Table<RoomStatus>;

/// Why a datagram was refused.
#[derive(Clone, Copy, Debug, PartialEq, Eq)]
pub enum Rejection {
    /// The datagram is not exactly one room secret long.
    BadLength,
    /// No room is open under this secret.
    RoomClosed,
    /// The room was created too long ago.
    IdleTooLong,
    /// The first arrival has waited too long.
    PeerWaitedTooLong,
    /// One address is IPv4 and the other IPv6.
    FamilyMismatch,
}

/// A datagram to send.
#[derive(Debug, PartialEq, Eq)]
pub struct Datagram {
    pub to: Endpoint,
    pub payload: Vec<u8>,
}

/// A datagram, in contracts.
pub ghost struct Packet {
    pub to: Endpoint,
    pub payload: Seq<u8>,
}

impl View for Datagram {
    type V = Packet;

    open spec fn view(&self) -> Packet {
        Packet { to: self.to, payload: self.payload@ }
    }
}

/// What the matcher decided: the datagrams to send, in order, and
/// whether the arrival was accepted.
#[derive(Debug, PartialEq, Eq)]
pub struct Reply {
    pub datagrams: Vec<Datagram>,
    pub verdict: Result<(), Rejection>,
}

/// A reply, in contracts.
pub ghost struct ReplyView {
    pub datagrams: Seq<Packet>,
    pub verdict: Result<(), Rejection>,
}

impl View for Reply {
    type V = ReplyView;

    open spec fn view(&self) -> ReplyView {
        ReplyView {
            datagrams: Seq::new(self.datagrams@.len(), |i: int| self.datagrams@[i]@),
            verdict: self.verdict,
        }
    }
}

/// The time that has passed at `now` since `instant`: none, should the clock have run backwards.
pub open spec fn elapsed(instant: u64, now: u64) -> int {
    if now >= instant {
        now - instant
    } else {
        0
    }
}

/// Whether more than `TIMEOUT` has passed at `now` since `instant`.
pub open spec fn timed_out(instant: u64, now: u64) -> bool {
    elapsed(instant, now) > TIMEOUT
}

/// Accepts when at most `TIMEOUT` has passed at `now` since `instant`,
/// and refuses with `rejection` otherwise.
pub fn check_timeout(instant: u64, now: u64, rejection: Rejection) -> (verdict: Result<(), Rejection>)
    ensures
        verdict == if timed_out(instant, now) {
            Err::<(), Rejection>(rejection)
        } else {
            Ok::<(), Rejection>(())
        },
{
    if now >= instant && now - instant > TIMEOUT {
        Err(rejection)
    } else {
        Ok(())
    }
}

/// The datagram that tells `to` the address `about`.
pub fn send_info(to: Endpoint, about: Endpoint) -> (datagram: Datagram)
    ensures
        datagram@ == (Packet { to, payload: about.wire() }),
{
    let mut packet: Vec<u8> = Vec::new();
    packet.push(if about.is_ipv4() { 4u8 } else { 6u8 });
    match about {
        Endpoint::V4 { ip, .. } => append_bytes(&mut packet, ip.as_slice()),
        Endpoint::V6 { ip, .. } => append_bytes(&mut packet, ip.as_slice()),
    }
    packet.push((about.port() / 256) as u8);
    packet.push((about.port() % 256) as u8);
    assert(packet@ =~= about.wire());
    Datagram { to, payload: packet }
}

/// The single zero byte sent to `to` when two addresses cannot be matched.
pub fn probe(to: Endpoint) -> (datagram: Datagram)
    ensures
        datagram@ == (Packet { to, payload: seq![0u8] }),
{
    let mut packet: Vec<u8> = Vec::new();
    packet.push(0u8);
    Datagram { to, payload: packet }
}

/// What matching `addr1` with `addr2` sends and returns. Two addresses of
/// one family are each told the other, `addr1` first. Two of different
/// families are each sent a single zero byte, and the match is refused.
pub open spec fn match_reply(addr1: Endpoint, addr2: Endpoint) -> ReplyView {
    if addr1.spec_is_ipv4() != addr2.spec_is_ipv4() {
        ReplyView {
            datagrams: seq![
                Packet { to: addr1, payload: seq![0u8] },
                Packet { to: addr2, payload: seq![0u8] },
            ],
            verdict: Err(Rejection::FamilyMismatch),
        }
    } else {
        ReplyView {
            datagrams: seq![
                Packet { to: addr1, payload: addr2.wire() },
                Packet { to: addr2, payload: addr1.wire() },
            ],
            verdict: Ok(()),
        }
    }
}

/// Matches `addr1` with `addr2`: tells each the address of the other.
pub fn make_match(addr1: Endpoint, addr2: Endpoint) -> (reply: Reply)
    ensures
        reply@ == match_reply(addr1, addr2),
{
    let mut datagrams: Vec<Datagram> = Vec::new();
    if addr1.is_ipv4() != addr2.is_ipv4() {
        datagrams.push(probe(addr1));
        datagrams.push(probe(addr2));
        let reply = Reply { datagrams, verdict: Err(Rejection::FamilyMismatch) };
        assert(reply@.datagrams =~= match_reply(addr1, addr2).datagrams);
        reply
    } else {
        datagrams.push(send_info(addr1, addr2));
        datagrams.push(send_info(addr2, addr1));
        let reply = Reply { datagrams, verdict: Ok(()) };
        assert(reply@.datagrams =~= match_reply(addr1, addr2).datagrams);
        reply
    }
}

/// A reply that sends nothing.
pub open spec fn silent(verdict: Result<(), Rejection>) -> ReplyView {
    ReplyView { datagrams: Seq::empty(), verdict }
}

/// A reply that sends nothing.
fn silent_reply(verdict: Result<(), Rejection>) -> (reply: Reply)
    ensures
        reply@ == silent(verdict),
{
    let reply = Reply { datagrams: Vec::new(), verdict };
    assert(reply@.datagrams =~= Seq::<Packet>::empty());
    reply
}

/// The matcher: the table and the reply after a datagram bearing `secret`
/// arrived from `addr` at time `now`.
///
/// An unknown secret is refused. An idle room that is not too old makes
/// `addr` wait, from `now` on. A waiting peer that has not waited too long
/// is matched with `addr`, and the room is gone. A room that is too old,
/// or whose peer waited too long, is refused and gone.
pub open spec fn arrival(
    table: Map<Seq<u8>, RoomStatus>,
    secret: Seq<u8>,
    addr: Endpoint,
    now: u64,
) -> (Map<Seq<u8>, RoomStatus>, ReplyView) {
    if !table.contains_key(secret) {
        (table, silent(Err(Rejection::RoomClosed)))
    } else {
        match table[secret] {
            RoomStatus::Waiting(peer, since) => if timed_out(since, now) {
                (table.remove(secret), silent(Err(Rejection::PeerWaitedTooLong)))
            } else {
                (table.remove(secret), match_reply(addr, peer))
            },
            RoomStatus::Idle(created) => if timed_out(created, now) {
                (table.remove(secret), silent(Err(Rejection::IdleTooLong)))
            } else {
                (table.insert(secret, RoomStatus::Waiting(addr, now)), silent(Ok(())))
            },
        }
    }
}

/// Handles a datagram that bears the room secret `packet` and came from
/// `addr` at time `now`.
pub fn handle(matchmap: &mut MatchMap, packet: &Key, addr: Endpoint, now: u64) -> (reply: Reply)
    ensures
        (final(matchmap)@, reply@) == arrival(old(matchmap)@, packet@, addr, now),
{
    match matchmap.remove(packet) {
        Some(RoomStatus::Waiting(peer_addr, since)) => {
            match check_timeout(since, now, Rejection::PeerWaitedTooLong) {
                Err(rejection) => silent_reply(Err(rejection)),
                Ok(()) => make_match(addr, peer_addr),
            }
        },
        Some(RoomStatus::Idle(created)) => {
            match check_timeout(created, now, Rejection::IdleTooLong) {
                Err(rejection) => silent_reply(Err(rejection)),
                Ok(()) => {
                    matchmap.insert(*packet, RoomStatus::Waiting(addr, now));
                    assert(matchmap@ =~= old(matchmap)@.insert(
                        packet@,
                        RoomStatus::Waiting(addr, now),
                    ));
                    silent_reply(Ok(()))
                },
            }
        },
        None => silent_reply(Err(Rejection::RoomClosed)),
    }
}

/// Handles a datagram of any length: one that is not exactly 32 bytes long
/// is refused and leaves the table as it is; any other is a room secret.
pub fn handle_datagram(matchmap: &mut MatchMap, datagram: &[u8], addr: Endpoint, now: u64) -> (reply:
    Reply)
    ensures
        datagram@.len() != 32 ==> final(matchmap)@ == old(matchmap)@ && reply@ == silent(
            Err(Rejection::BadLength),
        ),
        datagram@.len() == 32 ==> (final(matchmap)@, reply@) == arrival(
            old(matchmap)@,
            datagram@,
            addr,
            now,
        ),
{
    if datagram.len() != 32 {
        return silent_reply(Err(Rejection::BadLength));
    }
    let mut secret: Key = [0u8; 32];
    let mut i: usize = 0;
    while i < 32
        invariant
            i <= 32,
            datagram@.len() == 32,
            forall|j: int| 0 <= j < i ==> secret@[j] == datagram@[j],
        decreases 32 - i,
    {
        secret[i] = datagram[i];
        i += 1;
    }
    assert(secret@ =~= datagram@);
    handle(matchmap, &secret, addr, now)
}

/// Two addresses that are written alike are the same address.
pub proof fn lemma_wire_injective(a: Endpoint, b: Endpoint)
    requires
        a.wire() == b.wire(),
    ensures
        a == b,
{
    let x = a.wire();
    let y = b.wire();
    let n = a.octets().len() as int;
    assert(a.octets() =~= x.subrange(1, 1 + n));
    assert(b.octets() =~= y.subrange(1, 1 + n));
    assert(x[1 + n] == (a.spec_port() / 256) as u8);
    assert(y[1 + n] == (b.spec_port() / 256) as u8);
    assert(x[2 + n] == (a.spec_port() % 256) as u8);
    assert(y[2 + n] == (b.spec_port() % 256) as u8);
    match (a, b) {
        (Endpoint::V4 { ip: p, .. }, Endpoint::V4 { ip: q, .. }) => {
            assert(p =~= q);
        },
        (Endpoint::V6 { ip: p, .. }, Endpoint::V6 { ip: q, .. }) => {
            assert(p =~= q);
        },
        _ => {},
    }
}

/// The exchange is symmetric: two addresses of one family are each sent
/// the other's address, and matching them the other way round sends the
/// same two datagrams.
pub proof fn lemma_exchange_is_symmetric(a: Endpoint, b: Endpoint)
    requires
        a.spec_is_ipv4() == b.spec_is_ipv4(),
    ensures
        match_reply(a, b).verdict == Ok::<(), Rejection>(()),
        match_reply(a, b).datagrams == seq![
            Packet { to: a, payload: b.wire() },
            Packet { to: b, payload: a.wire() },
        ],
        match_reply(b, a).datagrams == seq![
            match_reply(a, b).datagrams[1],
            match_reply(a, b).datagrams[0],
        ],
{
    assert(match_reply(b, a).datagrams =~= seq![
        match_reply(a, b).datagrams[1],
        match_reply(a, b).datagrams[0],
    ]);
}

/// Two addresses of different families are never told of each other:
/// each is sent the single zero byte, which is no address, and the match
/// is refused.
pub proof fn lemma_mismatch_sends_probes_only(a: Endpoint, b: Endpoint)
    requires
        a.spec_is_ipv4() != b.spec_is_ipv4(),
    ensures
        match_reply(a, b).verdict == Err::<(), Rejection>(Rejection::FamilyMismatch),
        match_reply(a, b).datagrams == seq![
            Packet { to: a, payload: seq![0u8] },
            Packet { to: b, payload: seq![0u8] },
        ],
        forall|i: int, about: Endpoint|
            0 <= i < 2 ==> (#[trigger] match_reply(a, b).datagrams[i]).payload
                != #[trigger] about.wire(),
{
    assert forall|i: int, about: Endpoint| 0 <= i < 2 implies (#[trigger] match_reply(
        a,
        b,
    ).datagrams[i]).payload != #[trigger] about.wire() by {
        assert(about.wire().len() >= 7);
    }
}

/// A secret that the table does not hold is inert: the datagram is
/// refused and the table stays as it is.
pub proof fn lemma_unknown_secret_is_inert(
    table: Map<Seq<u8>, RoomStatus>,
    secret: Seq<u8>,
    addr: Endpoint,
    now: u64,
)
    requires
        !table.contains_key(secret),
    ensures
        arrival(table, secret, addr, now) == (table, silent(Err(Rejection::RoomClosed))),
{
}

/// The matcher opens no room: every secret in the table after an arrival
/// was in it before.
pub proof fn lemma_matcher_opens_no_room(
    table: Map<Seq<u8>, RoomStatus>,
    secret: Seq<u8>,
    addr: Endpoint,
    now: u64,
)
    ensures
        arrival(table, secret, addr, now).0.dom().subset_of(table.dom()),
{
}

/// An arrival touches no room but its own: every other secret is in the
/// table afterwards exactly when it was before, with the same status.
pub proof fn lemma_other_rooms_are_untouched(
    table: Map<Seq<u8>, RoomStatus>,
    secret: Seq<u8>,
    addr: Endpoint,
    now: u64,
    other: Seq<u8>,
)
    requires
        other != secret,
    ensures
        arrival(table, secret, addr, now).0.contains_key(other) == table.contains_key(other),
        table.contains_key(other) ==> arrival(table, secret, addr, now).0[other] == table[other],
{
}

/// A room outlives an arrival in one case only: it was idle and not too
/// old, and the arrival now waits in it.
pub proof fn lemma_room_survives_only_as_waiting(
    table: Map<Seq<u8>, RoomStatus>,
    secret: Seq<u8>,
    addr: Endpoint,
    now: u64,
)
    ensures
        ({
            let after = arrival(table, secret, addr, now).0;
            &&& after.contains_key(secret) <==> {
                &&& table.contains_key(secret)
                &&& table[secret] matches RoomStatus::Idle(created)
                &&& !timed_out(created, now)
            }
            &&& after.contains_key(secret) ==> after[secret] == RoomStatus::Waiting(addr, now)
        }),
{
}

/// A room is used at most once. Once a datagram arrived for a waiting
/// peer, whether the two were matched, were of different families, or
/// the peer had waited too long, every later datagram under the same
/// secret is refused as closed.
pub proof fn lemma_room_is_used_once(
    table: Map<Seq<u8>, RoomStatus>,
    secret: Seq<u8>,
    second: Endpoint,
    second_at: u64,
    third: Endpoint,
    third_at: u64,
)
    requires
        table.contains_key(secret),
        table[secret] is Waiting,
    ensures
        ({
            let used = arrival(table, secret, second, second_at).0;
            arrival(used, secret, third, third_at) == (used, silent(Err(Rejection::RoomClosed)))
        }),
{
}

/// An idle room that is older than the timeout is refused and closed: the
/// arrival is not made to wait, and a later arrival finds no room.
pub proof fn lemma_stale_idle_room_is_refused(
    table: Map<Seq<u8>, RoomStatus>,
    secret: Seq<u8>,
    created: u64,
    addr: Endpoint,
    now: u64,
    later: Endpoint,
    later_at: u64,
)
    requires
        table.contains_key(secret),
        table[secret] == RoomStatus::Idle(created),
        now - created > TIMEOUT,
    ensures
        arrival(table, secret, addr, now) == (
            table.remove(secret),
            silent(Err(Rejection::IdleTooLong)),
        ),
        arrival(table.remove(secret), secret, later, later_at) == (
            table.remove(secret),
            silent(Err(Rejection::RoomClosed)),
        ),
{
}

/// A peer that has waited longer than the timeout is not matched: the
/// arrival is refused, nothing is sent, and the room is closed.
pub proof fn lemma_stale_peer_is_not_matched(
    table: Map<Seq<u8>, RoomStatus>,
    secret: Seq<u8>,
    peer: Endpoint,
    since: u64,
    addr: Endpoint,
    now: u64,
)
    requires
        table.contains_key(secret),
        table[secret] == RoomStatus::Waiting(peer, since),
        now - since > TIMEOUT,
    ensures
        arrival(table, secret, addr, now) == (
            table.remove(secret),
            silent(Err(Rejection::PeerWaitedTooLong)),
        ),
{
}

/// The life of a room on the side channel. The first arrival under an
/// idle room waits and is sent nothing. The second, in time, is matched
/// with the first: each is sent what `match_reply` says. The third finds
/// the room closed.
pub proof fn lemma_three_arrivals(
    table: Map<Seq<u8>, RoomStatus>,
    secret: Seq<u8>,
    created: u64,
    first: Endpoint,
    first_at: u64,
    second: Endpoint,
    second_at: u64,
    third: Endpoint,
    third_at: u64,
)
    requires
        table.contains_key(secret),
        table[secret] == RoomStatus::Idle(created),
        !timed_out(created, first_at),
        !timed_out(first_at, second_at),
    ensures
        ({
            let (waiting, reply1) = arrival(table, secret, first, first_at);
            let (matched, reply2) = arrival(waiting, secret, second, second_at);
            let (closed, reply3) = arrival(matched, secret, third, third_at);
            &&& waiting == table.insert(secret, RoomStatus::Waiting(first, first_at))
            &&& reply1 == silent(Ok(()))
            &&& matched == table.remove(secret)
            &&& reply2 == match_reply(second, first)
            &&& closed == matched
            &&& reply3 == silent(Err(Rejection::RoomClosed))
        }),
{
}

/// One datagram, as the matcher sees it.
pub ghost struct Arrival {
    pub secret: Seq<u8>,
    pub addr: Endpoint,
    pub now: u64,
}

/// The table after the matcher handled `arrivals` one after the other.
pub open spec fn table_after(table: Map<Seq<u8>, RoomStatus>, arrivals: Seq<Arrival>) -> Map<
    Seq<u8>,
    RoomStatus,
>
    decreases arrivals.len(),
{
    if arrivals.len() == 0 {
        table
    } else {
        let last = arrivals.last();
        arrival(table_after(table, arrivals.drop_last()), last.secret, last.addr, last.now).0
    }
}

/// The reply to the datagram at position `i` of `arrivals`.
pub open spec fn reply_at(table: Map<Seq<u8>, RoomStatus>, arrivals: Seq<Arrival>, i: int) -> ReplyView {
    let at = arrivals[i];
    arrival(table_after(table, arrivals.take(i)), at.secret, at.addr, at.now).1
}

/// The table after one more arrival is what the matcher makes of the table before it.
proof fn lemma_table_after_next(table: Map<Seq<u8>, RoomStatus>, arrivals: Seq<Arrival>, i: int)
    requires
        0 <= i < arrivals.len(),
    ensures
        table_after(table, arrivals.take(i + 1)) == arrival(
            table_after(table, arrivals.take(i)),
            arrivals[i].secret,
            arrivals[i].addr,
            arrivals[i].now,
        ).0,
{
    assert(arrivals.take(i + 1).drop_last() =~= arrivals.take(i));
}

/// A secret that the table does not hold at one point of a run of
/// arrivals is not in it at any later point.
proof fn lemma_closed_stays_closed(
    table: Map<Seq<u8>, RoomStatus>,
    arrivals: Seq<Arrival>,
    from: int,
    to: int,
    secret: Seq<u8>,
)
    requires
        0 <= from <= to <= arrivals.len(),
        !table_after(table, arrivals.take(from)).contains_key(secret),
    ensures
        !table_after(table, arrivals.take(to)).contains_key(secret),
    decreases to - from,
{
    if from < to {
        lemma_closed_stays_closed(table, arrivals, from, to - 1, secret);
        lemma_table_after_next(table, arrivals, to - 1);
        let before = table_after(table, arrivals.take(to - 1));
        let at = arrivals[to - 1];
        lemma_matcher_opens_no_room(before, at.secret, at.addr, at.now);
    }
}

/// Over any run of arrivals the matcher opens no room: every secret in
/// the table afterwards was in it before.
pub proof fn lemma_arrivals_open_no_room(table: Map<Seq<u8>, RoomStatus>, arrivals: Seq<Arrival>)
    ensures
        table_after(table, arrivals).dom().subset_of(table.dom()),
{
    assert forall|secret: Seq<u8>| table_after(table, arrivals).contains_key(secret)
        implies table.contains_key(secret) by {
        if !table.contains_key(secret) {
            assert(arrivals.take(arrivals.len() as int) =~= arrivals);
            lemma_closed_stays_closed(table, arrivals, 0, arrivals.len() as int, secret);
        }
    }
}

/// A room secret is good for one match. In any run of arrivals, under
/// this secret and others, once an arrival was answered with datagrams,
/// every later arrival under the same secret is refused as closed.
pub proof fn lemma_matched_room_stays_closed(
    table: Map<Seq<u8>, RoomStatus>,
    arrivals: Seq<Arrival>,
    i: int,
    j: int,
)
    requires
        0 <= i < j < arrivals.len(),
        arrivals[i].secret == arrivals[j].secret,
        reply_at(table, arrivals, i).datagrams.len() > 0,
    ensures
        reply_at(table, arrivals, j) == silent(Err(Rejection::RoomClosed)),
{
    let secret = arrivals[i].secret;
    lemma_table_after_next(table, arrivals, i);
    lemma_closed_stays_closed(table, arrivals, i + 1, j, secret);
}

/// A refusal closes the room as well: once an arrival under a secret was
/// refused, every later arrival under it is refused as closed.
pub proof fn lemma_refused_room_stays_closed(
    table: Map<Seq<u8>, RoomStatus>,
    arrivals: Seq<Arrival>,
    i: int,
    j: int,
)
    requires
        0 <= i < j < arrivals.len(),
        arrivals[i].secret == arrivals[j].secret,
        reply_at(table, arrivals, i).verdict is Err,
    ensures
        reply_at(table, arrivals, j) == silent(Err(Rejection::RoomClosed)),
{
    let secret = arrivals[i].secret;
    lemma_table_after_next(table, arrivals, i);
    lemma_closed_stays_closed(table, arrivals, i + 1, j, secret);
}

/// A room that is not idle at one point of a run of arrivals is not idle
/// at any later point: the matcher makes no room idle.
proof fn lemma_idle_is_never_regained(
    table: Map<Seq<u8>, RoomStatus>,
    arrivals: Seq<Arrival>,
    from: int,
    to: int,
    secret: Seq<u8>,
)
    requires
        0 <= from <= to <= arrivals.len(),
        !(table_after(table, arrivals.take(from)).contains_key(secret) && table_after(
            table,
            arrivals.take(from),
        )[secret] is Idle),
    ensures
        !(table_after(table, arrivals.take(to)).contains_key(secret) && table_after(
            table,
            arrivals.take(to),
        )[secret] is Idle),
    decreases to - from,
{
    if from < to {
        lemma_idle_is_never_regained(table, arrivals, from, to - 1, secret);
        lemma_table_after_next(table, arrivals, to - 1);
    }
}

/// Only one arrival waits in a room. In any run of arrivals, once an
/// arrival under a secret was made to wait, no later arrival under it is:
/// each is matched with the one that waits, or refused.
pub proof fn lemma_room_is_waited_in_once(
    table: Map<Seq<u8>, RoomStatus>,
    arrivals: Seq<Arrival>,
    i: int,
    j: int,
)
    requires
        0 <= i < j < arrivals.len(),
        arrivals[i].secret == arrivals[j].secret,
        reply_at(table, arrivals, i) == silent(Ok(())),
    ensures
        reply_at(table, arrivals, j) != silent(Ok(())),
{
    let secret = arrivals[i].secret;
    lemma_table_after_next(table, arrivals, i);
    let before = table_after(table, arrivals.take(i));
    assert(before.contains_key(secret) && before[secret] is Idle) by {
        if before.contains_key(secret) && before[secret] is Waiting {
            let peer = before[secret]->Waiting_0;
            assert(match_reply(arrivals[i].addr, peer).datagrams.len() == 2);
        }
    }
    lemma_idle_is_never_regained(table, arrivals, i + 1, j, secret);
    let then = table_after(table, arrivals.take(j));
    if then.contains_key(secret) && then[secret] is Waiting {
        let peer = then[secret]->Waiting_0;
        assert(match_reply(arrivals[j].addr, peer).datagrams.len() == 2);
    }
}

} // verus!
