//! Framing of the Mumble TCP control channel: every message travels as a
//! six-byte header (a big-endian 16-bit kind number, then a big-endian
//! 32-bit payload length) followed by the payload.

use vstd::prelude::*;
use byteorder::{BigEndian, ByteOrder};
use crate::message_kind::NetworkMessage;

verus! {

/// Size of the header in front of every payload.
pub const METADATA_SIZE: usize = 6;

/// The big-endian 16-bit number held by `s[at]`, `s[at + 1]`.
pub open spec fn be16_at(s: Seq<u8>, at: int) -> int {
    s[at] * 256 + s[at + 1]
}

/// The big-endian 32-bit number held by `s[at] .. s[at + 4]`.
pub open spec fn be32_at(s: Seq<u8>, at: int) -> int {
    s[at] * 16777216 + s[at + 1] * 65536 + s[at + 2] * 256 + s[at + 3]
}

/// The two big-endian bytes of `v`.
pub open spec fn be16_bytes(v: u16) -> Seq<u8> {
    seq![(v / 256) as u8, (v % 256) as u8]
}

/// The four big-endian bytes of `v`.
pub open spec fn be32_bytes(v: u32) -> Seq<u8> {
    seq![(v / 16777216) as u8, ((v / 65536) % 256) as u8, ((v / 256) % 256) as u8, (v % 256) as u8]
}

/// The header and payload of one message on the wire.
pub open spec fn frame_bytes(kind: u16, payload: Seq<u8>) -> Seq<u8> {
    be16_bytes(kind) + be32_bytes(payload.len() as u32) + payload
}

/// `byteorder`'s `BigEndian::read_u16`: the first two bytes of `buf`,
/// most significant first. It panics on a shorter buffer.
#[verifier::external_body]
pub(crate) fn read_be_u16(buf: &[u8]) -> (r: u16)
    requires
        buf@.len() >= 2,
    ensures
        r == be16_at(buf@, 0),
{
    BigEndian::read_u16(buf)
}

/// `byteorder`'s `BigEndian::read_u32` on `buf[at..]`: the four bytes at
/// `at`, most significant first. It panics when fewer than four remain.
#[verifier::external_body]
pub(crate) fn read_be_u32_at(buf: &[u8], at: usize) -> (r: u32)
    requires
        at + 4 <= buf@.len(),
    ensures
        r == be32_at(buf@, at as int),
{
    BigEndian::read_u32(&buf[at..])
}

/// `byteorder`'s `BigEndian::write_u16` on `buf[at..]`: overwrites the two
/// bytes at `at` with `n`, most significant first, and nothing else.
#[verifier::external_body]
fn write_be_u16_at(buf: &mut Vec<u8>, at: usize, n: u16)
    requires
        at + 2 <= old(buf)@.len(),
    ensures
        final(buf)@ == old(buf)@.subrange(0, at as int) + be16_bytes(n) + old(buf)@.subrange(
            at + 2,
            old(buf)@.len() as int,
        ),
{
    BigEndian::write_u16(&mut buf[at..], n)
}

/// `byteorder`'s `BigEndian::write_u32` on `buf[at..]`: overwrites the four
/// bytes at `at` with `n`, most significant first, and nothing else.
#[verifier::external_body]
fn write_be_u32_at(buf: &mut Vec<u8>, at: usize, n: u32)
    requires
        at + 4 <= old(buf)@.len(),
    ensures
        final(buf)@ == old(buf)@.subrange(0, at as int) + be32_bytes(n) + old(buf)@.subrange(
            at + 4,
            old(buf)@.len() as int,
        ),
{
    BigEndian::write_u32(&mut buf[at..], n)
}

/// Reading back the bytes of a 16-bit number gives the number.
pub proof fn lemma_be16_roundtrip(v: u16)
    ensures
        be16_at(be16_bytes(v), 0) == v,
{
    let s = be16_bytes(v);
    assert(s[0] == v / 256);
    assert(s[1] == v % 256);
}

/// Reading back the bytes of a 32-bit number gives the number.
pub proof fn lemma_be32_roundtrip(v: u32)
    ensures
        be32_at(be32_bytes(v), 0) == v,
{
    let s = be32_bytes(v);
    assert(s[0] == v / 16777216);
    assert(s[1] == (v / 65536) % 256);
    assert(s[2] == (v / 256) % 256);
    assert(s[3] == v % 256);
    assert(v == (v / 16777216) * 16777216 + ((v / 65536) % 256) * 65536 + ((v / 256) % 256) * 256
        + v % 256) by (nonlinear_arith);
}

/// Frames `buffer` as a message of the given kind: the header, then the
/// payload.
pub fn serialize_message(message: NetworkMessage, buffer: &[u8]) -> (framed: Vec<u8>)
    requires
        buffer@.len() + METADATA_SIZE <= u32::MAX,
    ensures
        framed@ == frame_bytes(message.number(), buffer@),
{
    let length: u32 = buffer.len() as u32;
    let encoded_msg: u16 = message.to_u16();
    let total: usize = buffer.len() + METADATA_SIZE;
    let mut new_buffer: Vec<u8> = vec![0u8; total];
    write_be_u16_at(&mut new_buffer, 0, encoded_msg);
    write_be_u32_at(&mut new_buffer, 2, length);
    let mut i: usize = 0;
    while i < buffer.len()
        invariant
            i <= buffer@.len(),
            total == buffer@.len() + METADATA_SIZE,
            new_buffer@.len() == total,
            new_buffer@.subrange(0, 2) == be16_bytes(encoded_msg),
            new_buffer@.subrange(2, 6) == be32_bytes(length),
            forall|j: int| 0 <= j < i ==> new_buffer@[6 + j] == buffer@[j],
        decreases buffer@.len() - i,
    {
        new_buffer.set(i + METADATA_SIZE, buffer[i]);
        i = i + 1;
    }
    assert(new_buffer@ =~= frame_bytes(message.number(), buffer@));
    new_buffer
}

} // verus!
