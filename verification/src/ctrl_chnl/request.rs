//! What a client sends on the control channel.
//!
//! A message is written as one tag byte and what the tag calls for:
//! `Room` is 0 and the user's 32 key bytes, `Accept` is 1 and one byte
//! that is 1 for yes and 0 for no, `Heartbeat` is 2, `Shutdown` is 3.

use crate::server::user::{lemma_key_bytes, User};
use crate::wire::{append_bytes, frame, framing, key_at, read_frame, write_frame, Framing};
use vstd::prelude::*;

verus! {

/// A framed message from a client.
#[derive(Clone, Copy, Debug, PartialEq, Eq)]
pub enum Request {
    /// Ask for a room with the given user.
    Room(User),
    /// Accept or decline the room that was just proposed.
    Accept(bool),
    /// Show that the client is alive; nothing is answered.
    Heartbeat,
    /// End the session.
    Shutdown,
}

/// The length of the longest client message.
pub const MAX_REQUEST_LEN: u32 = 33;

impl Request {
    /// The byte that tells which message this is.
    pub open spec fn tag(self) -> u8 {
        match self {
            Request::Room(_) => 0u8,
            Request::Accept(_) => 1u8,
            Request::Heartbeat => 2u8,
            Request::Shutdown => 3u8,
        }
    }

    /// The bytes that stand for this message: its tag and what the tag calls for.
    pub open spec fn payload(self) -> Seq<u8> {
        match self {
            Request::Room(user) => seq![self.tag()] + user.key@,
            Request::Accept(accept) => seq![self.tag(), if accept { 1u8 } else { 0u8 }],
            Request::Heartbeat => seq![self.tag()],
            Request::Shutdown => seq![self.tag()],
        }
    }

    /// The message that `bytes` stand for, if they stand for one.
    pub open spec fn parse(bytes: Seq<u8>) -> Option<Request> {
        if exists|request: Request| request.payload() == bytes {
            Some(choose|request: Request| request.payload() == bytes)
        } else {
            None
        }
    }

    /// Two messages that are written alike are the same message.
    pub proof fn lemma_payload_injective(self, other: Request)
        requires
            self.payload() == other.payload(),
        ensures
            self == other,
    {
        let a = self.payload();
        let b = other.payload();
        assert(a[0] == self.tag());
        assert(b[0] == other.tag());
        match (self, other) {
            (Request::Room(u), Request::Room(v)) => {
                assert(u.key@ =~= a.subrange(1, 33));
                assert(v.key@ =~= b.subrange(1, 33));
                lemma_key_bytes(u.key, v.key);
            },
            _ => {},
        }
    }

    /// Reading what was written gives the message back.
    pub proof fn lemma_parse_payload(self)
        ensures
            Request::parse(self.payload()) == Some(self),
    {
        let found = choose|request: Request| request.payload() == self.payload();
        found.lemma_payload_injective(self);
    }

    /// Writes the message.
    pub fn encode(&self) -> (bytes: Vec<u8>)
        ensures
            bytes@ == self.payload(),
    {
        let mut bytes: Vec<u8> = Vec::new();
        match self {
            Request::Room(user) => {
                bytes.push(0u8);
                append_bytes(&mut bytes, user.key.as_slice());
            },
            Request::Accept(accept) => {
                bytes.push(1u8);
                bytes.push(if *accept { 1u8 } else { 0u8 });
            },
            Request::Heartbeat => {
                bytes.push(2u8);
            },
            Request::Shutdown => {
                bytes.push(3u8);
            },
        }
        bytes
    }

    /// Reads a message: `bytes` must be exactly what one message is written as.
    pub fn decode(bytes: &[u8]) -> (request: Option<Request>)
        ensures
            request == Request::parse(bytes@),
    {
        let found = if bytes.len() == 33 && bytes[0] == 0u8 {
            Some(Request::Room(User { key: key_at(bytes, 1) }))
        } else if bytes.len() == 2 && bytes[0] == 1u8 && bytes[1] <= 1u8 {
            Some(Request::Accept(bytes[1] == 1u8))
        } else if bytes.len() == 1 && bytes[0] == 2u8 {
            Some(Request::Heartbeat)
        } else if bytes.len() == 1 && bytes[0] == 3u8 {
            Some(Request::Shutdown)
        } else {
            None
        };
        proof {
            match found {
                Some(request) => {
                    assert(request.payload() =~= bytes@);
                    request.lemma_parse_payload();
                },
                None => {
                    assert forall|request: Request| request.payload() != bytes@ by {}
                },
            }
        }
        found
    }

    /// Appends the frame of this message to `out`.
    pub fn send_with(self, out: &mut Vec<u8>)
        ensures
            final(out)@ == old(out)@ + frame(self.payload()),
    {
        let bytes = self.encode();
        write_frame(out, bytes.as_slice());
    }
}

/// What a buffer of bytes read from a client holds.
#[derive(Clone, Copy, Debug, PartialEq, Eq)]
pub enum Received {
    /// No whole frame yet: `missing` more bytes are to be read.
    Incomplete { missing: usize },
    /// The bytes are no framed client message.
    Malformed,
    /// The buffer starts with the frame of `request`, which takes up its
    /// first `consumed` bytes.
    Message { request: Request, consumed: usize },
}

/// What `buffer` holds. A frame that announces more bytes than the
/// longest message has is malformed at once; any other frame is judged
/// when it is whole.
pub open spec fn received(buffer: Seq<u8>) -> Received {
    match framing(buffer, MAX_REQUEST_LEN as int) {
        Framing::Incomplete { missing } => Received::Incomplete { missing },
        Framing::TooLong => Received::Malformed,
        Framing::Complete { end } => match Request::parse(buffer.subrange(4, end as int)) {
            Some(request) => Received::Message { request, consumed: end },
            None => Received::Malformed,
        },
    }
}

/// Looks for one framed client message at the start of `buffer`.
pub fn recv_req(buffer: &[u8]) -> (found: Received)
    ensures
        found == received(buffer@),
{
    match read_frame(buffer, MAX_REQUEST_LEN) {
        Framing::Incomplete { missing } => Received::Incomplete { missing },
        Framing::TooLong => Received::Malformed,
        Framing::Complete { end } => {
            let message = vstd::slice::slice_subrange(buffer, 4, end);
            match Request::decode(message) {
                Some(request) => Received::Message { request, consumed: end },
                None => Received::Malformed,
            }
        },
    }
}

/// A buffer that starts with the frame of a message is read as that
/// message, whatever follows the frame.
pub proof fn lemma_recv_sent(request: Request, rest: Seq<u8>)
    ensures
        received(frame(request.payload()) + rest) == (Received::Message {
            request,
            consumed: (4 + request.payload().len()) as usize,
        }),
{
    let message = request.payload();
    crate::wire::lemma_frame_is_read(message, rest, MAX_REQUEST_LEN as int);
    request.lemma_parse_payload();
}

} // verus!
