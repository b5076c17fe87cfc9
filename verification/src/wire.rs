//! The protobuf wire encoding that the control messages use, stated as
//! spec functions, and the writers of `protobuf`'s `CodedOutputStream`
//! that produce it.

use vstd::prelude::*;
use vstd::utf8::{decode_utf8, encode_utf8, valid_utf8};
use protobuf::{CodedInputStream, CodedOutputStream, UnknownFields};

verus! {

/// `protobuf`'s error type, carried through unopened.
#[verifier::external_type_specification]
#[verifier::external_body]
pub struct ExProtobufError(protobuf::Error);

/// Largest field number protobuf allows.
pub const FIELD_NUMBER_MAX: u32 = 0x1fffffff;

/// Wire type of varint-encoded fields.
pub open spec fn wire_varint() -> nat {
    0
}

/// Wire type of length-delimited fields.
pub open spec fn wire_length_delimited() -> nat {
    2
}

/// The base-128 varint encoding of `v`: seven bits per byte, least
/// significant group first, the high bit set on every byte but the last.
pub open spec fn varint(v: nat) -> Seq<u8>
    decreases v,
{
    if v < 128 {
        seq![v as u8]
    } else {
        seq![(v % 128 + 128) as u8] + varint(v / 128)
    }
}

/// `128` to the power `k`.
pub open spec fn pow128(k: nat) -> nat
    decreases k,
{
    if k == 0 {
        1
    } else {
        128 * pow128((k - 1) as nat)
    }
}

/// The key in front of a field: its number and wire type, as a varint.
pub open spec fn field_key(field: u32, wire_type: nat) -> Seq<u8> {
    varint((field * 8 + wire_type) as nat)
}

/// An unsigned integer field (`uint32`, `uint64`, `bool`).
pub open spec fn uint_field(field: u32, v: nat) -> Seq<u8> {
    field_key(field, wire_varint()) + varint(v)
}

/// The 64-bit two's complement of a 32-bit signed value, as protobuf
/// writes an `int32`.
pub open spec fn int32_wire_value(v: i32) -> nat {
    if v >= 0 {
        v as nat
    } else {
        (v + 0x1_0000_0000_0000_0000int) as nat
    }
}

/// A signed `int32` field.
pub open spec fn int32_field(field: u32, v: i32) -> Seq<u8> {
    field_key(field, wire_varint()) + varint(int32_wire_value(v))
}

/// A `bool` field.
pub open spec fn bool_field(field: u32, b: bool) -> Seq<u8> {
    uint_field(field, if b { 1 } else { 0 })
}

/// A length-delimited field holding `bytes`.
pub open spec fn bytes_field(field: u32, bytes: Seq<u8>) -> Seq<u8> {
    field_key(field, wire_length_delimited()) + varint(bytes.len()) + bytes
}

/// A `string` field: its UTF-8 bytes, length-delimited.
pub open spec fn string_field(field: u32, s: Seq<char>) -> Seq<u8> {
    bytes_field(field, encode_utf8(s))
}

/// A varint takes at most `k` bytes when its value is below `128^k`, and
/// always at least one.
pub proof fn lemma_varint_len(v: nat, k: nat)
    requires
        1 <= k,
        v < pow128(k),
    ensures
        1 <= varint(v).len() <= k,
    decreases v,
{
    if v >= 128 {
        assert(k >= 2) by {
            if k == 1 {
                assert(pow128(1) == 128 * pow128(0));
            }
        }
        assert(pow128(k) == 128 * pow128((k - 1) as nat));
        lemma_varint_len(v / 128, (k - 1) as nat);
    }
}

/// Every varint is at least one byte long.
pub proof fn lemma_varint_nonempty(v: nat)
    ensures
        varint(v).len() >= 1,
{
}

/// A value that fits 32 bits takes at most five varint bytes; one that
/// fits 64 bits at most ten.
pub proof fn lemma_varint_len_bounds(v: nat)
    ensures
        v <= u32::MAX ==> varint(v).len() <= 5,
        v <= u64::MAX ==> varint(v).len() <= 10,
{
    reveal_with_fuel(pow128, 11);
    if v <= u32::MAX {
        lemma_varint_len(v, 5);
    }
    if v <= u64::MAX {
        lemma_varint_len(v, 10);
    }
}

/// A scalar's UTF-8 encoding takes one to four bytes.
pub proof fn lemma_encode_scalar_len(c: char)
    ensures
        1 <= vstd::utf8::encode_scalar(c as u32).len() <= 4,
{
}

/// A string's UTF-8 encoding takes at most four bytes per character.
pub proof fn lemma_utf8_len(s: Seq<char>)
    ensures
        s.len() <= encode_utf8(s).len() <= 4 * s.len(),
    decreases s.len(),
{
    if s.len() > 0 {
        lemma_encode_scalar_len(s[0]);
        lemma_utf8_len(s.drop_first());
    }
}

/// `CodedOutputStream::write_uint32` on a stream over `out`, then
/// `flush`: appends the field key (varint wire type) and the varint of
/// `value`. A stream over a `Vec` does not fail; field numbers out of
/// protobuf's range panic.
#[verifier::external_body]
pub(crate) fn put_uint32(out: &mut Vec<u8>, field: u32, value: u32) -> (r: Result<(), protobuf::Error>)
    requires
        1 <= field <= FIELD_NUMBER_MAX,
    ensures
        r is Ok,
        final(out)@ == old(out)@ + uint_field(field, value as nat),
{
    let mut os = CodedOutputStream::vec(out);
    os.write_uint32(field, value)?;
    os.flush()
}

/// `CodedOutputStream::write_uint64` on a stream over `out`, then
/// `flush`: appends the field key and the varint of `value`.
#[verifier::external_body]
pub(crate) fn put_uint64(out: &mut Vec<u8>, field: u32, value: u64) -> (r: Result<(), protobuf::Error>)
    requires
        1 <= field <= FIELD_NUMBER_MAX,
    ensures
        r is Ok,
        final(out)@ == old(out)@ + uint_field(field, value as nat),
{
    let mut os = CodedOutputStream::vec(out);
    os.write_uint64(field, value)?;
    os.flush()
}

/// `CodedOutputStream::write_int32` on a stream over `out`, then `flush`:
/// appends the field key and the varint of the value sign-extended to 64
/// bits.
#[verifier::external_body]
pub(crate) fn put_int32(out: &mut Vec<u8>, field: u32, value: i32) -> (r: Result<(), protobuf::Error>)
    requires
        1 <= field <= FIELD_NUMBER_MAX,
    ensures
        r is Ok,
        final(out)@ == old(out)@ + int32_field(field, value),
{
    let mut os = CodedOutputStream::vec(out);
    os.write_int32(field, value)?;
    os.flush()
}

/// `CodedOutputStream::write_bool` on a stream over `out`, then `flush`:
/// appends the field key and a varint 1 or 0.
#[verifier::external_body]
pub(crate) fn put_bool(out: &mut Vec<u8>, field: u32, value: bool) -> (r: Result<(), protobuf::Error>)
    requires
        1 <= field <= FIELD_NUMBER_MAX,
    ensures
        r is Ok,
        final(out)@ == old(out)@ + bool_field(field, value),
{
    let mut os = CodedOutputStream::vec(out);
    os.write_bool(field, value)?;
    os.flush()
}

/// `CodedOutputStream::write_string` on a stream over `out`, then
/// `flush`: appends the field key, the varint of the UTF-8 length and the
/// UTF-8 bytes. The length is written as a `u32`, so longer strings are
/// left out.
#[verifier::external_body]
pub(crate) fn put_string(out: &mut Vec<u8>, field: u32, value: &str) -> (r: Result<(), protobuf::Error>)
    requires
        1 <= field <= FIELD_NUMBER_MAX,
        encode_utf8(value@).len() <= u32::MAX,
    ensures
        r is Ok,
        final(out)@ == old(out)@ + string_field(field, value@),
{
    let mut os = CodedOutputStream::vec(out);
    os.write_string(field, value)?;
    os.flush()
}


/// `protobuf`'s input stream over a byte slice.
#[verifier::external_type_specification]
#[verifier::external_body]
pub struct ExCodedInputStream<'a>(CodedInputStream<'a>);

/// The bytes an input stream has not read yet.
pub uninterp spec fn unread_bytes(is: CodedInputStream) -> Seq<u8>;

/// The number of bytes protobuf's 32-bit varint reader takes from the
/// front of `bytes`, searching from byte `i`: up to and including the
/// first byte without the continuation bit, at most five bytes, and the
/// fifth at most `0x0f`; `None` when the bytes end first or the fifth byte
/// is larger.
pub open spec fn varint32_end(bytes: Seq<u8>, i: nat) -> Option<nat>
    decreases 5 - i,
{
    if i >= 5 || i >= bytes.len() {
        None
    } else if i == 4 {
        if bytes[4] <= 0x0f {
            Some(5)
        } else {
            None
        }
    } else if bytes[i as int] < 0x80 {
        Some(i + 1)
    } else {
        varint32_end(bytes, i + 1)
    }
}

/// The number the first `k` bytes of `bytes` encode as base-128 groups,
/// least significant first (the high bit of each byte is not part of its
/// group).
pub open spec fn varint_value(bytes: Seq<u8>, k: nat) -> nat
    decreases k,
{
    if k == 0 || bytes.len() == 0 {
        0
    } else {
        (bytes[0] % 128) as nat + 128 * varint_value(bytes.subrange(1, bytes.len() as int), (k - 1) as nat)
    }
}

/// What protobuf's 32-bit varint reader makes of `input`: the value and
/// the bytes after it, or `None` when `input` does not start with one.
pub open spec fn varint32_read(input: Seq<u8>) -> Option<(u32, Seq<u8>)> {
    match varint32_end(input, 0) {
        None => None,
        Some(k) => Some((varint_value(input, k) as u32, input.subrange(k as int, input.len() as int))),
    }
}

/// What `read_raw_tag_or_eof` makes of the unread bytes: `None` for the
/// key at the end of the input, else the key as a 32-bit varint, with the
/// bytes left after it; `None` (outside) on malformed input.
pub open spec fn tag_read(input: Seq<u8>) -> Option<(Option<u32>, Seq<u8>)> {
    if input.len() == 0 {
        Some((None, input))
    } else {
        match varint32_read(input) {
            None => None,
            Some((t, rest)) => Some((Some(t), rest)),
        }
    }
}

/// What `read_uint32` makes of the unread bytes: a 32-bit varint.
pub open spec fn uint32_read(input: Seq<u8>) -> Option<(u32, Seq<u8>)> {
    varint32_read(input)
}

/// What `read_string` makes of the unread bytes: a 32-bit varint length,
/// then that many bytes, which must be valid UTF-8; the characters and
/// the bytes left after them.
pub open spec fn string_read(input: Seq<u8>) -> Option<(Seq<char>, Seq<u8>)> {
    match varint32_read(input) {
        None => None,
        Some((n, rest)) => if rest.len() < n {
            None
        } else if valid_utf8(rest.subrange(0, n as int)) {
            Some((decode_utf8(rest.subrange(0, n as int)), rest.subrange(n as int, rest.len() as int)))
        } else {
            None
        },
    }
}

/// A 32-bit varint read takes at least one byte from the front.
pub proof fn lemma_varint32_read_shrinks(input: Seq<u8>)
    ensures
        varint32_read(input) matches Some((_, rest)) ==> rest.len() < input.len(),
{
    lemma_varint32_end_bounds(input, 0);
}

/// Where a 32-bit varint ends lies after the search start and within the
/// bytes.
pub proof fn lemma_varint32_end_bounds(bytes: Seq<u8>, i: nat)
    ensures
        varint32_end(bytes, i) matches Some(k) ==> i < k <= bytes.len(),
    decreases 5 - i,
{
    if i < 5 && i < bytes.len() && i != 4 && bytes[i as int] >= 0x80 {
        lemma_varint32_end_bounds(bytes, i + 1);
    }
}

/// What `rt::read_unknown_or_skip_group` makes of the unread bytes after
/// the key of a field the message does not define: the bytes left after
/// the field; `None` on a key with no valid wire type or field number, or
/// a malformed field. Groups are skipped recursively, so what it does is
/// named here rather than spelled out.
pub uninterp spec fn field_skip(tag: u32, input: Seq<u8>) -> Option<Seq<u8>>;


/// The bytes of a varint: every byte but the last has its high bit set,
/// the last has it clear, and the last, scaled back to its place, is no
/// more than the value.
pub proof fn lemma_varint_shape(v: nat)
    ensures
        forall|j: int| 0 <= j < varint(v).len() - 1 ==> #[trigger] varint(v)[j] >= 0x80,
        varint(v)[varint(v).len() - 1] < 0x80,
        varint(v)[varint(v).len() - 1] as nat * pow128((varint(v).len() - 1) as nat) <= v,
    decreases v,
{
    lemma_varint_nonempty(v);
    if v >= 128 {
        let t = varint(v / 128);
        lemma_varint_shape(v / 128);
        lemma_varint_nonempty(v / 128);
        let s = varint(v);
        assert(s == seq![(v % 128 + 128) as u8] + t);
        assert forall|j: int| 0 <= j < s.len() - 1 implies #[trigger] s[j] >= 0x80 by {
            if j > 0 {
                assert(s[j] == t[j - 1]);
            }
        }
        let last = t[t.len() - 1];
        assert(s[s.len() - 1] == last);
        let p = pow128((t.len() - 1) as nat);
        assert(pow128(t.len() as nat) == 128 * p);
        assert(last as nat * p <= v / 128);
        assert(last as nat * (128 * p) <= v) by (nonlinear_arith)
            requires
                last as nat * p <= v / 128,
        ;
        assert(s.len() - 1 == t.len());
        assert(pow128((s.len() - 1) as nat) == 128 * p);
        assert(s[s.len() - 1] as nat * pow128((s.len() - 1) as nat) <= v);
    } else {
        assert(varint(v) == seq![v as u8]);
        assert(pow128(0) == 1);
        let x = varint(v)[0] as nat;
        assert(x == v);
        assert(varint(v).len() - 1 == 0);
        assert(x * pow128(0) == x) by (nonlinear_arith)
            requires
                pow128(0) == 1,
        ;
    }
}

/// Reading a varint back gives the value, whatever follows it.
pub proof fn lemma_varint_value(v: nat, rest: Seq<u8>)
    ensures
        varint_value(varint(v) + rest, varint(v).len()) == v,
    decreases v,
{
    let s = varint(v) + rest;
    if v < 128 {
        assert(s[0] == v as u8);
        assert(varint_value(s.subrange(1, s.len() as int), 0) == 0);
    } else {
        lemma_varint_value(v / 128, rest);
        assert(s.subrange(1, s.len() as int) =~= varint(v / 128) + rest);
        assert(s[0] == (v % 128 + 128) as u8);
    }
}

/// Protobuf's 32-bit varint reader finds the end of an encoded value
/// that fits 32 bits.
proof fn lemma_varint32_end_of_varint(v: nat, rest: Seq<u8>, i: nat)
    requires
        v <= u32::MAX,
        i < varint(v).len(),
    ensures
        varint32_end(varint(v) + rest, i) == Some(varint(v).len()),
    decreases varint(v).len() - i,
{
    let s = varint(v) + rest;
    let k = varint(v).len();
    lemma_varint_len_bounds(v);
    lemma_varint_shape(v);
    if i + 1 == k {
        assert(s[i as int] == varint(v)[k - 1]);
        if i == 4 {
            reveal_with_fuel(pow128, 5);
            let last = varint(v)[4];
            assert(last as nat * 268435456 <= v);
            assert(last <= 0x0f);
        }
    } else {
        assert(s[i as int] == varint(v)[i as int]);
        assert(varint(v)[i as int] >= 0x80);
        lemma_varint32_end_of_varint(v, rest, i + 1);
    }
}

/// A value that fits 32 bits, written as a varint, is read back by
/// protobuf's 32-bit varint reader, and what follows is left as it was.
pub proof fn lemma_varint32_roundtrip(v: u32, rest: Seq<u8>)
    ensures
        varint32_read(varint(v as nat) + rest) == Some((v, rest)),
{
    lemma_varint_nonempty(v as nat);
    lemma_varint32_end_of_varint(v as nat, rest, 0);
    lemma_varint_value(v as nat, rest);
    let s = varint(v as nat) + rest;
    let k = varint(v as nat).len();
    assert(s.subrange(k as int, s.len() as int) =~= rest);
}

/// A string written as a length-delimited UTF-8 field body is read back
/// by protobuf's string reader, and what follows is left as it was.
pub proof fn lemma_string_roundtrip(s: Seq<char>, rest: Seq<u8>)
    requires
        encode_utf8(s).len() <= u32::MAX,
    ensures
        string_read(varint(encode_utf8(s).len()) + encode_utf8(s) + rest) == Some((s, rest)),
{
    let b = encode_utf8(s);
    let n = b.len() as u32;
    let input = varint(b.len()) + b + rest;
    assert(input =~= varint(n as nat) + (b + rest));
    lemma_varint32_roundtrip(n, b + rest);
    let after = b + rest;
    assert(after.subrange(0, n as int) =~= b);
    assert(after.subrange(n as int, after.len() as int) =~= rest);
    vstd::utf8::encode_utf8_valid_utf8(s);
    vstd::utf8::encode_utf8_decode_utf8(s);
}

/// `CodedInputStream::from_bytes`: a stream that has read nothing of
/// `bytes`.
#[verifier::external_body]
pub(crate) fn open_input<'a>(bytes: &'a [u8]) -> (is: CodedInputStream<'a>)
    ensures
        unread_bytes(is) == bytes@,
{
    CodedInputStream::from_bytes(bytes)
}

/// `CodedInputStream::read_raw_tag_or_eof`: the next field key, or `None`
/// when no byte is left. A key takes at least one byte.
#[verifier::external_body]
pub(crate) fn next_tag(is: &mut CodedInputStream) -> (r: Result<Option<u32>, protobuf::Error>)
    ensures
        match r {
            Ok(t) => tag_read(unread_bytes(*old(is))) == Some((t, unread_bytes(*final(is)))),
            Err(_) => tag_read(unread_bytes(*old(is))) is None,
        },
{
    is.read_raw_tag_or_eof()
}

/// `CodedInputStream::read_uint32`: a varint that fits 32 bits.
#[verifier::external_body]
pub(crate) fn next_uint32(is: &mut CodedInputStream) -> (r: Result<u32, protobuf::Error>)
    ensures
        match r {
            Ok(v) => uint32_read(unread_bytes(*old(is))) == Some((v, unread_bytes(*final(is)))),
            Err(_) => uint32_read(unread_bytes(*old(is))) is None,
        },
{
    is.read_uint32()
}

/// `CodedInputStream::read_string`: a length-delimited UTF-8 string.
#[verifier::external_body]
pub(crate) fn next_string(is: &mut CodedInputStream) -> (r: Result<String, protobuf::Error>)
    ensures
        match r {
            Ok(s) => string_read(unread_bytes(*old(is))) == Some((s@, unread_bytes(*final(is)))),
            Err(_) => string_read(unread_bytes(*old(is))) is None,
        },
{
    is.read_string()
}

/// `protobuf::rt::read_unknown_or_skip_group`, as a message reads a field
/// it does not define: checks the key and reads past the field (into a
/// scratch set of unknown fields, which is dropped).
#[verifier::external_body]
pub(crate) fn skip_field(tag: u32, is: &mut CodedInputStream) -> (r: Result<(), protobuf::Error>)
    ensures
        match r {
            Ok(_) => field_skip(tag, unread_bytes(*old(is))) == Some(unread_bytes(*final(is))),
            Err(_) => field_skip(tag, unread_bytes(*old(is))) is None,
        },
        r is Ok ==> unread_bytes(*final(is)).len() <= unread_bytes(*old(is)).len(),
{
    let mut unknown = UnknownFields::new();
    protobuf::rt::read_unknown_or_skip_group(tag, is, &mut unknown)
}

/// The number of bytes protobuf's 64-bit varint reader takes from the
/// front of `bytes`, searching from byte `i`: up to and including the
/// first byte without the continuation bit, at most ten bytes, and the
/// tenth at most 1; `None` when the bytes end first or the tenth byte is
/// larger.
pub open spec fn varint64_end(bytes: Seq<u8>, i: nat) -> Option<nat>
    decreases 10 - i,
{
    if i >= 10 || i >= bytes.len() {
        None
    } else if i == 9 {
        if bytes[9] <= 1 {
            Some(10)
        } else {
            None
        }
    } else if bytes[i as int] < 0x80 {
        Some(i + 1)
    } else {
        varint64_end(bytes, i + 1)
    }
}

/// What protobuf's 64-bit varint reader makes of `input`: the value and
/// the bytes after it.
pub open spec fn varint64_read(input: Seq<u8>) -> Option<(u64, Seq<u8>)> {
    match varint64_end(input, 0) {
        None => None,
        Some(k) => Some((varint_value(input, k) as u64, input.subrange(k as int, input.len() as int))),
    }
}

/// What `read_int32` makes of `input`: a 64-bit varint whose value, read
/// as a signed 64-bit number, fits 32 bits; that number and the bytes
/// after it.
pub open spec fn int32_read(input: Seq<u8>) -> Option<(i32, Seq<u8>)> {
    match varint64_read(input) {
        None => None,
        Some((v, rest)) => if v < 0x8000_0000 {
            Some((v as i32, rest))
        } else if v >= 0xffff_ffff_8000_0000 {
            Some(((v - 0x1_0000_0000_0000_0000) as i32, rest))
        } else {
            None
        },
    }
}

/// What `read_bytes` makes of `input`: a 32-bit varint length, then that
/// many bytes; those bytes and the bytes after them.
pub open spec fn bytes_read(input: Seq<u8>) -> Option<(Seq<u8>, Seq<u8>)> {
    match varint32_read(input) {
        None => None,
        Some((n, rest)) => if rest.len() < n {
            None
        } else {
            Some((rest.subrange(0, n as int), rest.subrange(n as int, rest.len() as int)))
        },
    }
}

/// What `read_repeated_packed_uint32_into` makes of `input`: a 64-bit
/// varint length, then 32-bit varints up to that limit or the end of the
/// input; the values read and the bytes after them. The limit handling is
/// named rather than spelled out.
pub uninterp spec fn packed_uint32_read(input: Seq<u8>) -> Option<(Seq<u32>, Seq<u8>)>;

/// What `read_repeated_packed_int32_into` makes of `input`: a 64-bit
/// varint length, then `int32` values up to that limit or the end of the
/// input; the values read and the bytes after them. The limit handling is
/// named rather than spelled out.
pub uninterp spec fn packed_int32_read(input: Seq<u8>) -> Option<(Seq<i32>, Seq<u8>)>;

/// Where a 64-bit varint ends lies after the search start and within the
/// bytes.
pub proof fn lemma_varint64_end_bounds(bytes: Seq<u8>, i: nat)
    ensures
        varint64_end(bytes, i) matches Some(k) ==> i < k <= bytes.len(),
    decreases 10 - i,
{
    if i < 10 && i < bytes.len() && i != 9 && bytes[i as int] >= 0x80 {
        lemma_varint64_end_bounds(bytes, i + 1);
    }
}

/// Protobuf's 64-bit varint reader finds the end of an encoded value
/// that fits 64 bits.
proof fn lemma_varint64_end_of_varint(v: nat, rest: Seq<u8>, i: nat)
    requires
        v <= u64::MAX,
        i < varint(v).len(),
    ensures
        varint64_end(varint(v) + rest, i) == Some(varint(v).len()),
    decreases varint(v).len() - i,
{
    let s = varint(v) + rest;
    let k = varint(v).len();
    lemma_varint_len_bounds(v);
    lemma_varint_shape(v);
    if i + 1 == k {
        assert(s[i as int] == varint(v)[k - 1]);
        if i == 9 {
            reveal_with_fuel(pow128, 10);
            let last = varint(v)[9];
            assert(last as nat * 0x8000_0000_0000_0000 <= v);
            assert(last <= 1) by (nonlinear_arith)
                requires
                    last as nat * 0x8000_0000_0000_0000 <= v,
                    v <= u64::MAX,
            ;
        }
    } else {
        assert(s[i as int] == varint(v)[i as int]);
        assert(varint(v)[i as int] >= 0x80);
        lemma_varint64_end_of_varint(v, rest, i + 1);
    }
}

/// A value that fits 64 bits, written as a varint, is read back by
/// protobuf's 64-bit varint reader, and what follows is left as it was.
pub proof fn lemma_varint64_roundtrip(v: u64, rest: Seq<u8>)
    ensures
        varint64_read(varint(v as nat) + rest) == Some((v, rest)),
{
    lemma_varint_nonempty(v as nat);
    lemma_varint64_end_of_varint(v as nat, rest, 0);
    lemma_varint_value(v as nat, rest);
    let s = varint(v as nat) + rest;
    let k = varint(v as nat).len();
    assert(s.subrange(k as int, s.len() as int) =~= rest);
}

/// An `int32` written as protobuf writes it is read back by `read_int32`,
/// and what follows is left as it was.
pub proof fn lemma_int32_roundtrip(v: i32, rest: Seq<u8>)
    ensures
        int32_read(varint(int32_wire_value(v)) + rest) == Some((v, rest)),
{
    let w = int32_wire_value(v);
    assert(w <= u64::MAX);
    lemma_varint64_roundtrip(w as u64, rest);
}

/// A byte string written as a length-delimited field body is read back by
/// protobuf's bytes reader, and what follows is left as it was.
pub proof fn lemma_bytes_roundtrip(b: Seq<u8>, rest: Seq<u8>)
    requires
        b.len() <= u32::MAX,
    ensures
        bytes_read(varint(b.len()) + b + rest) == Some((b, rest)),
{
    let n = b.len() as u32;
    let input = varint(b.len()) + b + rest;
    assert(input =~= varint(n as nat) + (b + rest));
    lemma_varint32_roundtrip(n, b + rest);
    let after = b + rest;
    assert(after.subrange(0, n as int) =~= b);
    assert(after.subrange(n as int, after.len() as int) =~= rest);
}

/// The ways a message reads one of its own fields.
#[derive(Clone, Copy, PartialEq, Eq, Structural)]
pub enum Reader {
    /// A `uint32`, one element of an unpacked `repeated uint32`.
    Varint32,
    /// A `uint64`.
    Varint64,
    /// An `int32`.
    Int32,
    /// A `bool`.
    Bool,
    /// A `string`, one element of a `repeated string`.
    Text,
    /// A `bytes`.
    Bytes,
    /// A packed `repeated uint32`.
    PackedVarint32,
    /// A packed `repeated int32`.
    PackedInt32,
}

/// A value read from a field of a message.
#[derive(Debug, PartialEq, Eq)]
pub enum FieldValue {
    UInt32(u32),
    UInt64(u64),
    Int32(i32),
    Bool(bool),
    Text(String),
    Bytes(Vec<u8>),
    /// The values of a packed `repeated uint32`.
    UInt32List(Vec<u32>),
    /// The values of a packed `repeated int32`.
    Int32List(Vec<i32>),
}

/// A field value, as plain values.
pub enum FieldView {
    UInt32(u32),
    UInt64(u64),
    Int32(i32),
    Bool(bool),
    Text(Seq<char>),
    Bytes(Seq<u8>),
    UInt32List(Seq<u32>),
    Int32List(Seq<i32>),
}

impl View for FieldValue {
    type V = FieldView;

    open spec fn view(&self) -> FieldView {
        match self {
            FieldValue::UInt32(v) => FieldView::UInt32(*v),
            FieldValue::UInt64(v) => FieldView::UInt64(*v),
            FieldValue::Int32(v) => FieldView::Int32(*v),
            FieldValue::Bool(b) => FieldView::Bool(*b),
            FieldValue::Text(t) => FieldView::Text(t@),
            FieldValue::Bytes(b) => FieldView::Bytes(b@),
            FieldValue::UInt32List(l) => FieldView::UInt32List(l@),
            FieldValue::Int32List(l) => FieldView::Int32List(l@),
        }
    }
}

/// What reading a field with `r` makes of `input`: the value and the
/// bytes after the field, or `None` when the read fails.
pub open spec fn typed_read(r: Reader, input: Seq<u8>) -> Option<(FieldView, Seq<u8>)> {
    match r {
        Reader::Varint32 => match uint32_read(input) {
            Some((v, rest)) => Some((FieldView::UInt32(v), rest)),
            None => None,
        },
        Reader::Varint64 => match varint64_read(input) {
            Some((v, rest)) => Some((FieldView::UInt64(v), rest)),
            None => None,
        },
        Reader::Bool => match varint64_read(input) {
            Some((v, rest)) => Some((FieldView::Bool(v != 0), rest)),
            None => None,
        },
        Reader::Int32 => match int32_read(input) {
            Some((v, rest)) => Some((FieldView::Int32(v), rest)),
            None => None,
        },
        Reader::Text => match string_read(input) {
            Some((t, rest)) => Some((FieldView::Text(t), rest)),
            None => None,
        },
        Reader::Bytes => match bytes_read(input) {
            Some((b, rest)) => Some((FieldView::Bytes(b), rest)),
            None => None,
        },
        Reader::PackedVarint32 => match packed_uint32_read(input) {
            Some((l, rest)) => Some((FieldView::UInt32List(l), rest)),
            None => None,
        },
        Reader::PackedInt32 => match packed_int32_read(input) {
            Some((l, rest)) => Some((FieldView::Int32List(l), rest)),
            None => None,
        },
    }
}

/// A typed read never makes the unread bytes longer.
pub proof fn lemma_typed_read_shrinks(r: Reader, input: Seq<u8>)
    ensures
        typed_read(r, input) matches Some((_, rest)) ==> (r != Reader::PackedVarint32 && r
            != Reader::PackedInt32 ==> rest.len() < input.len()),
{
    lemma_varint32_read_shrinks(input);
    lemma_varint64_end_bounds(input, 0);
}

/// `CodedInputStream::read_uint64`: a 64-bit varint.
#[verifier::external_body]
pub(crate) fn next_uint64(is: &mut CodedInputStream) -> (r: Result<u64, protobuf::Error>)
    ensures
        match r {
            Ok(v) => varint64_read(unread_bytes(*old(is))) == Some((v, unread_bytes(*final(is)))),
            Err(_) => varint64_read(unread_bytes(*old(is))) is None,
        },
{
    is.read_uint64()
}

/// `CodedInputStream::read_int32`: a 64-bit varint that, as a signed
/// 64-bit number, fits 32 bits.
#[verifier::external_body]
pub(crate) fn next_int32(is: &mut CodedInputStream) -> (r: Result<i32, protobuf::Error>)
    ensures
        match r {
            Ok(v) => int32_read(unread_bytes(*old(is))) == Some((v, unread_bytes(*final(is)))),
            Err(_) => int32_read(unread_bytes(*old(is))) is None,
        },
{
    is.read_int32()
}

/// `CodedInputStream::read_bool`: a 64-bit varint, true when not zero.
#[verifier::external_body]
fn next_bool(is: &mut CodedInputStream) -> (r: Result<bool, protobuf::Error>)
    ensures
        match r {
            Ok(b) => varint64_read(unread_bytes(*old(is))) matches Some((v, rest)) && rest
                == unread_bytes(*final(is)) && b == (v != 0),
            Err(_) => varint64_read(unread_bytes(*old(is))) is None,
        },
{
    is.read_bool()
}

/// `CodedInputStream::read_bytes`: a length-delimited byte string.
#[verifier::external_body]
fn next_bytes(is: &mut CodedInputStream) -> (r: Result<Vec<u8>, protobuf::Error>)
    ensures
        match r {
            Ok(b) => bytes_read(unread_bytes(*old(is))) == Some((b@, unread_bytes(*final(is)))),
            Err(_) => bytes_read(unread_bytes(*old(is))) is None,
        },
{
    is.read_bytes()
}

/// `CodedInputStream::read_repeated_packed_uint32_into`, into a new
/// vector: the values read.
#[verifier::external_body]
fn next_packed_uint32(is: &mut CodedInputStream) -> (r: Result<Vec<u32>, protobuf::Error>)
    ensures
        match r {
            Ok(l) => packed_uint32_read(unread_bytes(*old(is))) == Some(
                (l@, unread_bytes(*final(is))),
            ),
            Err(_) => packed_uint32_read(unread_bytes(*old(is))) is None,
        },
        r is Ok ==> unread_bytes(*final(is)).len() <= unread_bytes(*old(is)).len(),
{
    let mut values: Vec<u32> = Vec::new();
    is.read_repeated_packed_uint32_into(&mut values)?;
    Ok(values)
}

/// `CodedInputStream::read_repeated_packed_int32_into`, into a new
/// vector: the values read.
#[verifier::external_body]
fn next_packed_int32(is: &mut CodedInputStream) -> (r: Result<Vec<i32>, protobuf::Error>)
    ensures
        match r {
            Ok(l) => packed_int32_read(unread_bytes(*old(is))) == Some(
                (l@, unread_bytes(*final(is))),
            ),
            Err(_) => packed_int32_read(unread_bytes(*old(is))) is None,
        },
        r is Ok ==> unread_bytes(*final(is)).len() <= unread_bytes(*old(is)).len(),
{
    let mut values: Vec<i32> = Vec::new();
    is.read_repeated_packed_int32_into(&mut values)?;
    Ok(values)
}

/// Reads one field of a message's own with the reader `r`: its value.
pub(crate) fn read_typed(r: Reader, is: &mut CodedInputStream) -> (res: Result<
    FieldValue,
    protobuf::Error,
>)
    ensures
        match res {
            Ok(v) => typed_read(r, unread_bytes(*old(is))) == Some((v@, unread_bytes(*final(is)))),
            Err(_) => typed_read(r, unread_bytes(*old(is))) is None,
        },
        res is Ok ==> unread_bytes(*final(is)).len() <= unread_bytes(*old(is)).len(),
{
    proof {
        lemma_typed_read_shrinks(r, unread_bytes(*is));
    }
    match r {
        Reader::Varint32 => match next_uint32(is) {
            Ok(v) => Ok(FieldValue::UInt32(v)),
            Err(e) => Err(e),
        },
        Reader::Varint64 => match next_uint64(is) {
            Ok(v) => Ok(FieldValue::UInt64(v)),
            Err(e) => Err(e),
        },
        Reader::Int32 => match next_int32(is) {
            Ok(v) => Ok(FieldValue::Int32(v)),
            Err(e) => Err(e),
        },
        Reader::Bool => match next_bool(is) {
            Ok(b) => Ok(FieldValue::Bool(b)),
            Err(e) => Err(e),
        },
        Reader::Text => match next_string(is) {
            Ok(t) => Ok(FieldValue::Text(t)),
            Err(e) => Err(e),
        },
        Reader::Bytes => match next_bytes(is) {
            Ok(b) => Ok(FieldValue::Bytes(b)),
            Err(e) => Err(e),
        },
        Reader::PackedVarint32 => match next_packed_uint32(is) {
            Ok(l) => Ok(FieldValue::UInt32List(l)),
            Err(e) => Err(e),
        },
        Reader::PackedInt32 => match next_packed_int32(is) {
            Ok(l) => Ok(FieldValue::Int32List(l)),
            Err(e) => Err(e),
        },
    }
}

} // verus!
