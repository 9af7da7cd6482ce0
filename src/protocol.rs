use vstd::prelude::*;
use crate::board::{Board, Move};

verus! {

/// One message of the synchronisation protocol, sent in either direction.
pub enum ServerMessage {
    /// The whole board as the server holds it.
    BoardUpdate { board: Board },
    /// A move that a player asks the server to make.
    PlayerMove { player_move: Move },
}

/// Why a frame could not be read.
#[derive(Clone, Copy, Debug, PartialEq, Eq, Structural)]
pub enum FrameError {
    /// Fewer than the four bytes of the length prefix.
    MissingLength,
    /// Fewer payload bytes than the prefix announces.
    Truncated,
}

/// The four bytes of `n`, most significant first.
pub open spec fn be_bytes(n: u32) -> Seq<u8> {
    seq![(n >> 24u32) as u8, (n >> 16u32) as u8, (n >> 8u32) as u8, n as u8]
}

/// The number whose four bytes, most significant first, open `b`.
pub open spec fn be_value(b: Seq<u8>) -> u32 {
    ((b[0] as u32) << 24u32) | ((b[1] as u32) << 16u32) | ((b[2] as u32) << 8u32) | (b[3] as u32)
}

/// A frame: the payload's length as four bytes, most significant first, then
/// the payload.
pub open spec fn frame(payload: Seq<u8>) -> Seq<u8> {
    be_bytes(payload.len() as u32) + payload
}

/// The four bytes of `n`, most significant first.
pub fn length_prefix(n: u32) -> (r: Vec<u8>)
    ensures
        r@ == be_bytes(n),
{
    let mut r: Vec<u8> = Vec::new();
    r.push((n >> 24u32) as u8);
    r.push((n >> 16u32) as u8);
    r.push((n >> 8u32) as u8);
    r.push(n as u8);
    assert(r@ =~= be_bytes(n));
    r
}

/// The length that the first four bytes of `header` announce.
pub fn prefix_value(header: &Vec<u8>) -> (r: u32)
    requires
        header@.len() >= 4,
    ensures
        r == be_value(header@),
{
    ((header[0] as u32) << 24u32) | ((header[1] as u32) << 16u32) | ((header[2] as u32) << 8u32) | (header[3] as u32)
}

/// The frame that carries `payload`; nothing when its length does not fit in
/// the four-byte prefix.
pub fn encode_frame(payload: &Vec<u8>) -> (r: Option<Vec<u8>>)
    ensures
        r is Some <==> payload@.len() <= u32::MAX,
        r matches Some(v) ==> v@ == frame(payload@),
{
    if payload.len() > u32::MAX as usize {
        return None;
    }
    let mut out = length_prefix(payload.len() as u32);
    let mut i: usize = 0;
    while i < payload.len()
        invariant
            i <= payload@.len(),
            payload@.len() <= u32::MAX,
            out@ == be_bytes(payload@.len() as u32) + payload@.take(i as int),
        decreases payload@.len() - i,
    {
        out.push(payload[i]);
        assert(payload@.take(i as int + 1) =~= payload@.take(i as int).push(payload@[i as int]));
        i = i + 1;
    }
    assert(payload@.take(payload@.len() as int) =~= payload@);
    Some(out)
}

/// Reads the frame at the start of `bytes`: its payload, and how many bytes
/// the frame takes.
pub fn decode_frame(bytes: &Vec<u8>) -> (r: Result<(Vec<u8>, usize), FrameError>)
    ensures
        bytes@.len() < 4 <==> r == Err::<(Vec<u8>, usize), FrameError>(FrameError::MissingLength),
        bytes@.len() >= 4 && bytes@.len() - 4 < be_value(bytes@)
            <==> r == Err::<(Vec<u8>, usize), FrameError>(FrameError::Truncated),
        r matches Ok((p, used)) ==> used == 4 + be_value(bytes@) && p@ == bytes@.subrange(4, used as int),
{
    if bytes.len() < 4 {
        return Err(FrameError::MissingLength);
    }
    let n = prefix_value(bytes) as usize;
    if bytes.len() - 4 < n {
        return Err(FrameError::Truncated);
    }
    let mut p: Vec<u8> = Vec::new();
    let mut i: usize = 0;
    while i < n
        invariant
            4 + n <= bytes@.len() <= usize::MAX,
            i <= n,
            p@ == bytes@.subrange(4, 4 + i as int),
        decreases n - i,
    {
        p.push(bytes[4 + i]);
        assert(bytes@.subrange(4, 4 + i as int + 1) =~= bytes@.subrange(4, 4 + i as int).push(bytes@[4 + i as int]));
        i = i + 1;
    }
    Ok((p, 4 + n))
}

/// A frame read back gives its payload: whatever follows it, the prefix
/// announces the payload's length and the payload follows the prefix.
pub proof fn lemma_frame_round_trip(payload: Seq<u8>, rest: Seq<u8>)
    requires
        payload.len() <= u32::MAX,
    ensures
        (frame(payload) + rest).len() >= 4,
        be_value(frame(payload) + rest) == payload.len(),
        (frame(payload) + rest).subrange(4, 4 + payload.len() as int) == payload,
{
    let n = payload.len() as u32;
    let s = frame(payload) + rest;
    assert(s[0] == (n >> 24u32) as u8);
    assert(s[1] == (n >> 16u32) as u8);
    assert(s[2] == (n >> 8u32) as u8);
    assert(s[3] == n as u8);
    assert(((((n >> 24u32) as u8) as u32) << 24u32) | ((((n >> 16u32) as u8) as u32) << 16u32)
        | ((((n >> 8u32) as u8) as u32) << 8u32) | ((n as u8) as u32) == n) by (bit_vector);
    assert(s.subrange(4, 4 + payload.len() as int) =~= payload);
}

} // verus!
