//! Length-prefixed frames: a 4-byte big-endian length `L` followed by exactly
//! `L` payload bytes. The prefix is kept in a frame's wire form, since the
//! transports hand it on as it is.

use byteorder::{BigEndian, ByteOrder};
use vstd::prelude::*;

verus! {

/// Number of bytes in a frame's length field.
pub const PREFIX_LEN: usize = 4;

/// The integer that four bytes hold, most significant byte first.
pub open spec fn be_u32(b0: u8, b1: u8, b2: u8, b3: u8) -> u32 {
    ((b0 as u32) << 24u32) | ((b1 as u32) << 16u32) | ((b2 as u32) << 8u32) | (b3 as u32)
}

/// The four bytes of `n`, most significant first.
pub open spec fn be_bytes(n: u32) -> Seq<u8> {
    seq![(n >> 24u32) as u8, (n >> 16u32) as u8, (n >> 8u32) as u8, n as u8]
}

/// The length field at the start of `b`.
pub open spec fn length_field(b: Seq<u8>) -> u32
    recommends
        b.len() >= 4,
{
    be_u32(b[0], b[1], b[2], b[3])
}

/// The wire form of a frame that carries `payload`.
pub open spec fn frame_of(payload: Seq<u8>) -> Seq<u8> {
    be_bytes(payload.len() as u32) + payload
}

/// `b` starts with a whole frame: its length field and all the payload it
/// announces.
pub open spec fn holds_frame(b: Seq<u8>) -> bool {
    b.len() >= 4 && 4 + length_field(b) <= b.len()
}

/// Where the frame at the start of `b` ends.
pub open spec fn frame_end(b: Seq<u8>) -> int {
    4 + length_field(b)
}

/// The payload of the frame at the start of `b`.
pub open spec fn payload_of(b: Seq<u8>) -> Seq<u8> {
    b.subrange(4, frame_end(b))
}

/// The frame at the start of `b`, length field included.
pub open spec fn leading_frame(b: Seq<u8>) -> Seq<u8> {
    b.subrange(0, frame_end(b))
}

/// Relies on byteorder's `BigEndian::read_u32`: the big-endian integer in the
/// first four bytes of `buf` (it panics on fewer than four).
#[verifier::external_body]
fn read_be_u32(buf: &[u8]) -> (r: u32)
    requires
        buf@.len() >= 4,
    ensures
        r == length_field(buf@),
{
    BigEndian::read_u32(buf)
}

/// Relies on byteorder's `BigEndian::write_u32`: it stores `n` in the first
/// four bytes of the buffer, most significant byte first.
#[verifier::external_body]
fn write_be_u32(n: u32) -> (r: [u8; 4])
    ensures
        r@ == be_bytes(n),
{
    let mut buf = [0u8; 4];
    BigEndian::write_u32(&mut buf, n);
    buf
}

/// The bytes of `src` from `start` up to `end`, as a new vector.
pub fn copy_range(src: &[u8], start: usize, end: usize) -> (r: Vec<u8>)
    requires
        start <= end <= src@.len(),
    ensures
        r@ == src@.subrange(start as int, end as int),
{
    let mut out: Vec<u8> = Vec::with_capacity(end - start);
    let mut i: usize = start;
    while i < end
        invariant
            start <= i <= end <= src@.len(),
            out@ == src@.subrange(start as int, i as int),
        decreases end - i,
    {
        out.push(src[i]);
        i = i + 1;
    }
    out
}

/// The payload length announced by a frame's length field.
pub fn frame_length(header: &[u8]) -> (r: u32)
    requires
        header@.len() >= 4,
    ensures
        r == length_field(header@),
{
    read_be_u32(header)
}

/// The wire form of the frame that carries `payload`; `None` when its length
/// does not fit the 32-bit length field.
pub fn encode_frame(payload: &[u8]) -> (r: Option<Vec<u8>>)
    ensures
        r is None <==> payload@.len() > u32::MAX,
        r matches Some(f) ==> f@ == frame_of(payload@),
{
    if payload.len() > 0xffff_ffffusize {
        return None;
    }
    let prefix = write_be_u32(payload.len() as u32);
    let mut out: Vec<u8> = Vec::new();
    out.push(prefix[0]);
    out.push(prefix[1]);
    out.push(prefix[2]);
    out.push(prefix[3]);
    let mut i: usize = 0;
    while i < payload.len()
        invariant
            i <= payload@.len(),
            out@ == prefix@ + payload@.subrange(0, i as int),
        decreases payload@.len() - i,
    {
        out.push(payload[i]);
        i = i + 1;
    }
    proof {
        assert(payload@.subrange(0, payload@.len() as int) == payload@);
    }
    Some(out)
}

/// The payload of the frame at the start of `bytes`; `None` when `bytes` is
/// shorter than the length field or than the payload it announces.
pub fn decode_frame(bytes: &[u8]) -> (r: Option<Vec<u8>>)
    ensures
        r is Some <==> holds_frame(bytes@),
        r matches Some(p) ==> p@ == payload_of(bytes@),
{
    match frame_extent(bytes) {
        Some(end) => Some(copy_range(bytes, PREFIX_LEN, end)),
        None => None,
    }
}

/// The frame at the start of `bytes`, length field included; `None` when
/// `bytes` does not hold all of it.
pub fn split_frame(bytes: &[u8]) -> (r: Option<Vec<u8>>)
    ensures
        r is Some <==> holds_frame(bytes@),
        r matches Some(f) ==> f@ == leading_frame(bytes@),
{
    match frame_extent(bytes) {
        Some(end) => Some(copy_range(bytes, 0, end)),
        None => None,
    }
}

/// Where the frame at the start of `bytes` ends, if `bytes` holds all of it.
fn frame_extent(bytes: &[u8]) -> (r: Option<usize>)
    ensures
        r is Some <==> holds_frame(bytes@),
        r matches Some(end) ==> end == frame_end(bytes@) && end <= bytes@.len(),
{
    if bytes.len() < PREFIX_LEN {
        return None;
    }
    let len = frame_length(bytes) as usize;
    if len > bytes.len() - PREFIX_LEN {
        None
    } else {
        Some(PREFIX_LEN + len)
    }
}

/// Reading back the length field of a frame gives the length that was
/// written.
pub proof fn lemma_be_round_trip(n: u32)
    ensures
        be_u32(be_bytes(n)[0], be_bytes(n)[1], be_bytes(n)[2], be_bytes(n)[3]) == n,
{
    let b = be_bytes(n);
    assert(b[0] == (n >> 24u32) as u8 && b[1] == (n >> 16u32) as u8 && b[2] == (n >> 8u32) as u8
        && b[3] == n as u8);
    assert((((((n >> 24u32) as u8) as u32) << 24u32) | ((((n >> 16u32) as u8) as u32) << 16u32)
        | ((((n >> 8u32) as u8) as u32) << 8u32) | ((n as u8) as u32)) == n) by (bit_vector);
}

/// Frame round trip: decoding the frame that encodes a payload gives that
/// payload back, whole and unchanged.
pub proof fn lemma_frame_round_trip(payload: Seq<u8>)
    requires
        payload.len() <= u32::MAX,
    ensures
        holds_frame(frame_of(payload)),
        payload_of(frame_of(payload)) == payload,
        leading_frame(frame_of(payload)) == frame_of(payload),
{
    let f = frame_of(payload);
    lemma_be_round_trip(payload.len() as u32);
    assert(length_field(f) == payload.len());
    assert(payload_of(f) =~= payload);
    assert(leading_frame(f) =~= f);
}

} // verus!
