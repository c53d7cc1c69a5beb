//! What the server sends on the control channel.
//!
//! A message is written as one tag byte and what the tag calls for:
//! `HasRoute` is 0, `NoRoute` is 1 and `WantsRoom` is 2, each with the
//! user's 32 key bytes; `AcceptedRoom` is 3 and then either one byte 0
//! for no room, or one byte 1 and the room's 32 secret bytes.

use crate::server::messages::RoomId;
use crate::server::user::{lemma_key_bytes, User};
use crate::wire::{append_bytes, frame, key_at, write_frame};
use vstd::prelude::*;

verus! {

/// A framed message to a client.
#[derive(Clone, Copy, Debug, PartialEq, Eq)]
pub enum Response {
    /// The room request reached the given user.
    HasRoute(User),
    /// The given user cannot be reached.
    NoRoute(User),
    /// The given user asks for a room.
    WantsRoom(User),
    /// How a negotiation ended: the room's secret, or `None` where it failed.
    AcceptedRoom(Option<RoomId>),
}

/// The length of the longest server message.
pub const MAX_RESPONSE_LEN: u32 = 34;

impl Response {
    /// The byte that tells which message this is.
    pub open spec fn tag(self) -> u8 {
        match self {
            Response::HasRoute(_) => 0u8,
            Response::NoRoute(_) => 1u8,
            Response::WantsRoom(_) => 2u8,
            Response::AcceptedRoom(_) => 3u8,
        }
    }

    /// The bytes that stand for this message: its tag and what the tag calls for.
    pub open spec fn payload(self) -> Seq<u8> {
        match self {
            Response::HasRoute(user) => seq![self.tag()] + user.key@,
            Response::NoRoute(user) => seq![self.tag()] + user.key@,
            Response::WantsRoom(user) => seq![self.tag()] + user.key@,
            Response::AcceptedRoom(None) => seq![self.tag(), 0u8],
            Response::AcceptedRoom(Some(room_id)) => seq![self.tag(), 1u8] + room_id@,
        }
    }

    /// The message that `bytes` stand for, if they stand for one.
    pub open spec fn parse(bytes: Seq<u8>) -> Option<Response> {
        if exists|response: Response| response.payload() == bytes {
            Some(choose|response: Response| response.payload() == bytes)
        } else {
            None
        }
    }

    /// Two messages that are written alike are the same message.
    pub proof fn lemma_payload_injective(self, other: Response)
        requires
            self.payload() == other.payload(),
        ensures
            self == other,
    {
        let a = self.payload();
        let b = other.payload();
        assert(a[0] == self.tag());
        assert(b[0] == other.tag());
        match (self, other) {
            (Response::HasRoute(u), Response::HasRoute(v)) => {
                assert(u.key@ =~= a.subrange(1, 33));
                assert(v.key@ =~= b.subrange(1, 33));
                lemma_key_bytes(u.key, v.key);
            },
            (Response::NoRoute(u), Response::NoRoute(v)) => {
                assert(u.key@ =~= a.subrange(1, 33));
                assert(v.key@ =~= b.subrange(1, 33));
                lemma_key_bytes(u.key, v.key);
            },
            (Response::WantsRoom(u), Response::WantsRoom(v)) => {
                assert(u.key@ =~= a.subrange(1, 33));
                assert(v.key@ =~= b.subrange(1, 33));
                lemma_key_bytes(u.key, v.key);
            },
            (Response::AcceptedRoom(Some(x)), Response::AcceptedRoom(Some(y))) => {
                assert(x@ =~= a.subrange(2, 34));
                assert(y@ =~= b.subrange(2, 34));
                lemma_key_bytes(x, y);
            },
            _ => {},
        }
    }

    /// Reading what was written gives the message back.
    pub proof fn lemma_parse_payload(self)
        ensures
            Response::parse(self.payload()) == Some(self),
    {
        let found = choose|response: Response| response.payload() == self.payload();
        found.lemma_payload_injective(self);
    }

    /// Writes the message.
    pub fn encode(&self) -> (bytes: Vec<u8>)
        ensures
            bytes@ == self.payload(),
    {
        let mut bytes: Vec<u8> = Vec::new();
        match self {
            Response::HasRoute(user) => {
                bytes.push(0u8);
                append_bytes(&mut bytes, user.key.as_slice());
            },
            Response::NoRoute(user) => {
                bytes.push(1u8);
                append_bytes(&mut bytes, user.key.as_slice());
            },
            Response::WantsRoom(user) => {
                bytes.push(2u8);
                append_bytes(&mut bytes, user.key.as_slice());
            },
            Response::AcceptedRoom(None) => {
                bytes.push(3u8);
                bytes.push(0u8);
            },
            Response::AcceptedRoom(Some(room_id)) => {
                bytes.push(3u8);
                bytes.push(1u8);
                append_bytes(&mut bytes, room_id.as_slice());
            },
        }
        bytes
    }

    /// Reads a message: `bytes` must be exactly what one message is written as.
    pub fn decode(bytes: &[u8]) -> (response: Option<Response>)
        ensures
            response == Response::parse(bytes@),
    {
        let found = if bytes.len() == 33 && bytes[0] == 0u8 {
            Some(Response::HasRoute(User { key: key_at(bytes, 1) }))
        } else if bytes.len() == 33 && bytes[0] == 1u8 {
            Some(Response::NoRoute(User { key: key_at(bytes, 1) }))
        } else if bytes.len() == 33 && bytes[0] == 2u8 {
            Some(Response::WantsRoom(User { key: key_at(bytes, 1) }))
        } else if bytes.len() == 2 && bytes[0] == 3u8 && bytes[1] == 0u8 {
            Some(Response::AcceptedRoom(None))
        } else if bytes.len() == 34 && bytes[0] == 3u8 && bytes[1] == 1u8 {
            Some(Response::AcceptedRoom(Some(key_at(bytes, 2))))
        } else {
            None
        };
        proof {
            match found {
                Some(response) => {
                    assert(response.payload() =~= bytes@);
                    response.lemma_parse_payload();
                },
                None => {
                    assert forall|response: Response| response.payload() != bytes@ by {}
                },
            }
        }
        found
    }

    /// Appends the frame of this message to `out`: what is written to the client.
    pub fn send_with(self, out: &mut Vec<u8>)
        ensures
            final(out)@ == old(out)@ + frame(self.payload()),
    {
        let bytes = self.encode();
        write_frame(out, bytes.as_slice());
    }
}

} // verus!
