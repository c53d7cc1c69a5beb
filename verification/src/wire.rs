//! Frames on the control channel.
//!
//! After the greeting and the identity, every message in either direction
//! is a frame: the length of the message in four bytes, highest first,
//! and then the message.

use crate::table::Key;
use vstd::prelude::*;

verus! {

/// Appends `bytes` to `out`.
pub(crate) fn append_bytes(out: &mut Vec<u8>, bytes: &[u8])
    ensures
        final(out)@ == old(out)@ + bytes@,
{
    let mut i: usize = 0;
    while i < bytes.len()
        invariant
            i <= bytes@.len(),
            out@ == old(out)@ + bytes@.subrange(0, i as int),
        decreases bytes@.len() - i,
    {
        out.push(bytes[i]);
        i += 1;
    }
}

/// Copies the 32 bytes of `bytes` that start at position `from`.
pub(crate) fn key_at(bytes: &[u8], from: usize) -> (key: Key)
    requires
        from + 32 <= bytes@.len(),
    ensures
        key@ == bytes@.subrange(from as int, from + 32),
{
    let mut key: Key = [0u8; 32];
    let len: usize = bytes.len();
    let mut i: usize = 0;
    while i < 32
        invariant
            i <= 32,
            from + 32 <= len == bytes@.len(),
            forall|j: int| 0 <= j < i ==> key@[j] == bytes@[from + j],
        decreases 32 - i,
    {
        key[i] = bytes[from + i];
        i += 1;
    }
    key
}

/// The four bytes that stand for `n`, highest first.
pub open spec fn be32(n: int) -> Seq<u8> {
    seq![
        (n / 0x100_0000) as u8,
        (n / 0x1_0000 % 0x100) as u8,
        (n / 0x100 % 0x100) as u8,
        (n % 0x100) as u8,
    ]
}

/// The number that the first four bytes of `bytes` stand for, highest first.
pub open spec fn be32_value(bytes: Seq<u8>) -> int {
    bytes[0] * 0x100_0000 + bytes[1] * 0x1_0000 + bytes[2] * 0x100 + bytes[3]
}

/// A message with its length in front.
pub open spec fn frame(message: Seq<u8>) -> Seq<u8> {
    be32(message.len() as int) + message
}

/// The four length bytes hold the number they were written for.
pub proof fn lemma_be32_value(n: int)
    requires
        0 <= n <= u32::MAX,
    ensures
        be32(n).len() == 4,
        be32_value(be32(n)) == n,
{
}

/// Appends the frame of `message` to `out`.
pub fn write_frame(out: &mut Vec<u8>, message: &[u8])
    requires
        message@.len() <= u32::MAX,
    ensures
        final(out)@ == old(out)@ + frame(message@),
{
    let n: usize = message.len();
    out.push((n / 0x100_0000) as u8);
    out.push((n / 0x1_0000 % 0x100) as u8);
    out.push((n / 0x100 % 0x100) as u8);
    out.push((n % 0x100) as u8);
    append_bytes(out, message);
}

/// The message length that a frame's first four bytes announce.
pub fn frame_length(header: &[u8; 4]) -> (n: u32)
    ensures
        n == be32_value(header@),
{
    let b0: u32 = header[0] as u32;
    let b1: u32 = header[1] as u32;
    let b2: u32 = header[2] as u32;
    let b3: u32 = header[3] as u32;
    b0 * 0x100_0000 + b1 * 0x1_0000 + b2 * 0x100 + b3
}

/// How far a buffer has got towards holding one frame.
#[derive(Clone, Copy, Debug, PartialEq, Eq)]
pub enum Framing {
    /// The frame is not all there: `missing` more bytes are needed before
    /// more can be said.
    Incomplete { missing: usize },
    /// The frame announces a message longer than the limit.
    TooLong,
    /// The buffer starts with a whole frame, whose message is the bytes
    /// from position 4 up to `end`.
    Complete { end: usize },
}

/// How far `buffer` has got towards holding one frame whose message is at
/// most `limit` bytes long.
pub open spec fn framing(buffer: Seq<u8>, limit: int) -> Framing {
    if buffer.len() < 4 {
        Framing::Incomplete { missing: (4 - buffer.len()) as usize }
    } else if be32_value(buffer) > limit {
        Framing::TooLong
    } else if buffer.len() < 4 + be32_value(buffer) {
        Framing::Incomplete { missing: (4 + be32_value(buffer) - buffer.len()) as usize }
    } else {
        Framing::Complete { end: (4 + be32_value(buffer)) as usize }
    }
}

/// Looks for one frame at the start of `buffer`, with a message of at most
/// `limit` bytes.
pub fn read_frame(buffer: &[u8], limit: u32) -> (found: Framing)
    ensures
        found == framing(buffer@, limit as int),
        found matches Framing::Complete { end } ==> 4 <= end <= buffer@.len(),
{
    if buffer.len() < 4 {
        return Framing::Incomplete { missing: 4 - buffer.len() };
    }
    let header: [u8; 4] = [buffer[0], buffer[1], buffer[2], buffer[3]];
    let n: u32 = frame_length(&header);
    if n > limit {
        return Framing::TooLong;
    }
    let have: usize = buffer.len() - 4;
    if have < n as usize {
        Framing::Incomplete { missing: n as usize - have }
    } else {
        Framing::Complete { end: 4 + n as usize }
    }
}

/// A buffer that starts with the frame of a message within the limit
/// holds that frame whole, and the message is what the frame holds.
pub proof fn lemma_frame_is_read(message: Seq<u8>, rest: Seq<u8>, limit: int)
    requires
        message.len() <= limit <= u32::MAX,
    ensures
        framing(frame(message) + rest, limit) == (Framing::Complete {
            end: (4 + message.len()) as usize,
        }),
        (frame(message) + rest).subrange(4, 4 + message.len() as int) == message,
{
    lemma_be32_value(message.len() as int);
}

} // verus!
