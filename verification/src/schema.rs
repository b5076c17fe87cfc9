//! The fields of the control messages the client reads, and of the
//! authentication message it writes: the type of each field number, the
//! required fields, and a decoder that accepts a message exactly when the
//! message's own decoder does.
//!
//! The field tables follow the Mumble protocol's message definitions of the
//! generation whose version message has a single 32-bit version field and
//! whose authentication message has no client type.

use vstd::prelude::*;
use crate::message_kind::NetworkMessage;
use vstd::utf8::encode_utf8;
use crate::wire::{
    bool_field, bytes_field, int32_field, int32_wire_value, lemma_bytes_roundtrip,
    lemma_int32_roundtrip, lemma_string_roundtrip, lemma_varint64_roundtrip, string_field,
    uint_field, field_skip, lemma_typed_read_shrinks, lemma_varint32_read_shrinks,
    lemma_varint32_roundtrip, lemma_varint_nonempty, next_tag, open_input, varint,
    read_typed, skip_field, tag_read, typed_read, unread_bytes, FieldValue, FieldView, Reader,
};

verus! {

/// The declared type of a message field.
#[derive(Clone, Copy, PartialEq, Eq, Structural)]
pub enum FieldType {
    UInt32,
    UInt64,
    Int32,
    Bool,
    Str,
    Bytes,
    RepeatedUInt32,
    RepeatedInt32,
    RepeatedStr,
}

/// The declared type of field `field` of a message of kind `kind`, for the
/// kinds the client reads and for its authentication message; `None` for
/// a field the message does not define.
pub open spec fn field_type(kind: NetworkMessage, field: u32) -> Option<FieldType> {
    match kind {
        NetworkMessage::Version => if field == 1 {
            Some(FieldType::UInt32)
        } else if 2 <= field <= 4 {
            Some(FieldType::Str)
        } else {
            None
        },
        NetworkMessage::Authenticate => if field == 1 || field == 2 {
            Some(FieldType::Str)
        } else if field == 3 {
            Some(FieldType::RepeatedStr)
        } else if field == 4 {
            Some(FieldType::RepeatedInt32)
        } else if field == 5 {
            Some(FieldType::Bool)
        } else {
            None
        },
        NetworkMessage::CryptSetup => if 1 <= field <= 3 {
            Some(FieldType::Bytes)
        } else {
            None
        },
        NetworkMessage::CodecVersion => if field == 1 || field == 2 {
            Some(FieldType::Int32)
        } else if field == 3 || field == 4 {
            Some(FieldType::Bool)
        } else {
            None
        },
        NetworkMessage::PermissionQuery => if field == 1 || field == 2 {
            Some(FieldType::UInt32)
        } else if field == 3 {
            Some(FieldType::Bool)
        } else {
            None
        },
        NetworkMessage::UserState => if field == 1 || field == 2 || field == 4 || field == 5 {
            Some(FieldType::UInt32)
        } else if field == 3 || field == 13 || field == 14 || field == 15 {
            Some(FieldType::Str)
        } else if (6 <= field <= 10) || field == 18 || field == 19 {
            Some(FieldType::Bool)
        } else if field == 11 || field == 12 || field == 16 || field == 17 {
            Some(FieldType::Bytes)
        } else if field == 20 {
            Some(FieldType::RepeatedStr)
        } else {
            None
        },
        NetworkMessage::ServerSync => if field == 1 || field == 2 {
            Some(FieldType::UInt32)
        } else if field == 3 {
            Some(FieldType::Str)
        } else if field == 4 {
            Some(FieldType::UInt64)
        } else {
            None
        },
        NetworkMessage::ServerConfig => if field == 1 || (4 <= field <= 6) {
            Some(FieldType::UInt32)
        } else if field == 2 {
            Some(FieldType::Str)
        } else if field == 3 {
            Some(FieldType::Bool)
        } else {
            None
        },
        NetworkMessage::TextMessage => if field == 1 {
            Some(FieldType::UInt32)
        } else if 2 <= field <= 4 {
            Some(FieldType::RepeatedUInt32)
        } else if field == 5 {
            Some(FieldType::Str)
        } else {
            None
        },
        NetworkMessage::UserRemove => if field == 1 || field == 2 {
            Some(FieldType::UInt32)
        } else if field == 3 {
            Some(FieldType::Str)
        } else if field == 4 {
            Some(FieldType::Bool)
        } else {
            None
        },
        NetworkMessage::ChannelState => if field == 1 || field == 2 || field == 11 {
            Some(FieldType::UInt32)
        } else if field == 3 || field == 5 {
            Some(FieldType::Str)
        } else if field == 4 || field == 6 || field == 7 {
            Some(FieldType::RepeatedUInt32)
        } else if field == 8 {
            Some(FieldType::Bool)
        } else if field == 9 {
            Some(FieldType::Int32)
        } else if field == 10 {
            Some(FieldType::Bytes)
        } else {
            None
        },
        _ => None,
    }
}

/// How a message of kind `kind` reads a field with key `tag`: by the
/// field's declared type when the key's wire type fits it (a repeated
/// `uint32` also packed), `None` for a key the message does not define,
/// which it reads as an unknown field.
pub open spec fn tag_reader(kind: NetworkMessage, tag: u32) -> Option<Reader> {
    let w = tag % 8;
    match field_type(kind, tag / 8) {
        None => None,
        Some(t) => match t {
            FieldType::UInt32 => if w == 0 { Some(Reader::Varint32) } else { None },
            FieldType::UInt64 => if w == 0 { Some(Reader::Varint64) } else { None },
            FieldType::Int32 => if w == 0 { Some(Reader::Int32) } else { None },
            FieldType::Bool => if w == 0 { Some(Reader::Bool) } else { None },
            FieldType::Str => if w == 2 { Some(Reader::Text) } else { None },
            FieldType::Bytes => if w == 2 { Some(Reader::Bytes) } else { None },
            FieldType::RepeatedUInt32 => if w == 0 {
                Some(Reader::Varint32)
            } else if w == 2 {
                Some(Reader::PackedVarint32)
            } else {
                None
            },
            FieldType::RepeatedInt32 => if w == 0 {
                Some(Reader::Int32)
            } else if w == 2 {
                Some(Reader::PackedInt32)
            } else {
                None
            },
            FieldType::RepeatedStr => if w == 2 { Some(Reader::Text) } else { None },
        },
    }
}

/// The declared type of a field.
pub fn field_type_of(kind: NetworkMessage, field: u32) -> (r: Option<FieldType>)
    ensures
        r == field_type(kind, field),
{
    match kind {
        NetworkMessage::Version => if field == 1 {
            Some(FieldType::UInt32)
        } else if 2 <= field && field <= 4 {
            Some(FieldType::Str)
        } else {
            None
        },
        NetworkMessage::Authenticate => if field == 1 || field == 2 {
            Some(FieldType::Str)
        } else if field == 3 {
            Some(FieldType::RepeatedStr)
        } else if field == 4 {
            Some(FieldType::RepeatedInt32)
        } else if field == 5 {
            Some(FieldType::Bool)
        } else {
            None
        },
        NetworkMessage::CryptSetup => if 1 <= field && field <= 3 {
            Some(FieldType::Bytes)
        } else {
            None
        },
        NetworkMessage::CodecVersion => if field == 1 || field == 2 {
            Some(FieldType::Int32)
        } else if field == 3 || field == 4 {
            Some(FieldType::Bool)
        } else {
            None
        },
        NetworkMessage::PermissionQuery => if field == 1 || field == 2 {
            Some(FieldType::UInt32)
        } else if field == 3 {
            Some(FieldType::Bool)
        } else {
            None
        },
        NetworkMessage::UserState => if field == 1 || field == 2 || field == 4 || field == 5 {
            Some(FieldType::UInt32)
        } else if field == 3 || field == 13 || field == 14 || field == 15 {
            Some(FieldType::Str)
        } else if (6 <= field && field <= 10) || field == 18 || field == 19 {
            Some(FieldType::Bool)
        } else if field == 11 || field == 12 || field == 16 || field == 17 {
            Some(FieldType::Bytes)
        } else if field == 20 {
            Some(FieldType::RepeatedStr)
        } else {
            None
        },
        NetworkMessage::ServerSync => if field == 1 || field == 2 {
            Some(FieldType::UInt32)
        } else if field == 3 {
            Some(FieldType::Str)
        } else if field == 4 {
            Some(FieldType::UInt64)
        } else {
            None
        },
        NetworkMessage::ServerConfig => if field == 1 || (4 <= field && field <= 6) {
            Some(FieldType::UInt32)
        } else if field == 2 {
            Some(FieldType::Str)
        } else if field == 3 {
            Some(FieldType::Bool)
        } else {
            None
        },
        NetworkMessage::TextMessage => if field == 1 {
            Some(FieldType::UInt32)
        } else if 2 <= field && field <= 4 {
            Some(FieldType::RepeatedUInt32)
        } else if field == 5 {
            Some(FieldType::Str)
        } else {
            None
        },
        NetworkMessage::UserRemove => if field == 1 || field == 2 {
            Some(FieldType::UInt32)
        } else if field == 3 {
            Some(FieldType::Str)
        } else if field == 4 {
            Some(FieldType::Bool)
        } else {
            None
        },
        NetworkMessage::ChannelState => if field == 1 || field == 2 || field == 11 {
            Some(FieldType::UInt32)
        } else if field == 3 || field == 5 {
            Some(FieldType::Str)
        } else if field == 4 || field == 6 || field == 7 {
            Some(FieldType::RepeatedUInt32)
        } else if field == 8 {
            Some(FieldType::Bool)
        } else if field == 9 {
            Some(FieldType::Int32)
        } else if field == 10 {
            Some(FieldType::Bytes)
        } else {
            None
        },
        _ => None,
    }
}

/// How a message of kind `kind` reads the field with key `tag`.
pub fn reader_for(kind: NetworkMessage, tag: u32) -> (r: Option<Reader>)
    ensures
        r == tag_reader(kind, tag),
{
    let w: u32 = tag % 8;
    match field_type_of(kind, tag / 8) {
        None => None,
        Some(t) => match t {
            FieldType::UInt32 => if w == 0 { Some(Reader::Varint32) } else { None },
            FieldType::UInt64 => if w == 0 { Some(Reader::Varint64) } else { None },
            FieldType::Int32 => if w == 0 { Some(Reader::Int32) } else { None },
            FieldType::Bool => if w == 0 { Some(Reader::Bool) } else { None },
            FieldType::Str => if w == 2 { Some(Reader::Text) } else { None },
            FieldType::Bytes => if w == 2 { Some(Reader::Bytes) } else { None },
            FieldType::RepeatedUInt32 => if w == 0 {
                Some(Reader::Varint32)
            } else if w == 2 {
                Some(Reader::PackedVarint32)
            } else {
                None
            },
            FieldType::RepeatedInt32 => if w == 0 {
                Some(Reader::Int32)
            } else if w == 2 {
                Some(Reader::PackedInt32)
            } else {
                None
            },
            FieldType::RepeatedStr => if w == 2 { Some(Reader::Text) } else { None },
        },
    }
}

/// A field of a received message that the message defines: its number
/// and its value.
#[derive(Debug, PartialEq, Eq)]
pub struct DecodedField {
    pub number: u32,
    pub value: FieldValue,
}

impl View for DecodedField {
    type V = (u32, FieldView);

    open spec fn view(&self) -> (u32, FieldView) {
        (self.number, self.value@)
    }
}

/// Decoded fields, as plain values.
pub open spec fn fields_view(fs: Seq<DecodedField>) -> Seq<(u32, FieldView)> {
    fs.map_values(|f: DecodedField| f@)
}

/// Reads the fields of a message of kind `kind` from `input`: each key
/// the message defines with a fitting wire type is read by its type and
/// kept with its field number, in the order read; every other field is
/// read as unknown and dropped. `None` when a read fails.
pub open spec fn decoded_fields(kind: NetworkMessage, input: Seq<u8>) -> Option<
    Seq<(u32, FieldView)>,
>
    decreases input.len(),
{
    match tag_read(input) {
        None => None,
        Some((None, _)) => Some(Seq::empty()),
        Some((Some(tag), rest)) => {
            if rest.len() >= input.len() {
                None
            } else {
                match tag_reader(kind, tag) {
                    Some(r) => match typed_read(r, rest) {
                        None => None,
                        Some((v, after)) => if after.len() > rest.len() {
                            None
                        } else {
                            match decoded_fields(kind, after) {
                                None => None,
                                Some(fs) => Some(seq![(tag / 8, v)] + fs),
                            }
                        },
                    },
                    None => match field_skip(tag, rest) {
                        None => None,
                        Some(after) => if after.len() > rest.len() {
                            None
                        } else {
                            decoded_fields(kind, after)
                        },
                    },
                }
            }
        },
    }
}

/// Whether some field of `fs` has number `f`.
pub open spec fn has_field(fs: Seq<(u32, FieldView)>, f: u32) -> bool {
    exists|i: int| 0 <= i < fs.len() && (#[trigger] fs[i]).0 == f
}

/// Whether the fields `fs` include every field that a message of kind
/// `kind` requires.
pub open spec fn has_required_fields(kind: NetworkMessage, fs: Seq<(u32, FieldView)>) -> bool {
    match kind {
        NetworkMessage::TextMessage => has_field(fs, 5),
        NetworkMessage::UserRemove => has_field(fs, 1),
        NetworkMessage::CodecVersion => has_field(fs, 1) && has_field(fs, 2) && has_field(fs, 3),
        _ => true,
    }
}

/// Whether `data` decodes as a message of kind `kind`: every field reads,
/// and every required field was read.
pub open spec fn message_decodes(kind: NetworkMessage, data: Seq<u8>) -> bool {
    match decoded_fields(kind, data) {
        None => false,
        Some(fs) => has_required_fields(kind, fs),
    }
}

/// `fs` behind `prefix`, when there is `fs`.
pub open spec fn after_prefix(prefix: Seq<(u32, FieldView)>, fs: Option<Seq<(u32, FieldView)>>) -> Option<
    Seq<(u32, FieldView)>,
> {
    match fs {
        None => None,
        Some(s) => Some(prefix + s),
    }
}

/// Decodes `data` as a message of kind `kind`: the fields it defines, in
/// the order read, or `None` when it does not decode.
pub fn decode_message(kind: NetworkMessage, data: &[u8]) -> (r: Option<Vec<DecodedField>>)
    ensures
        match r {
            Some(fs) => message_decodes(kind, data@) && decoded_fields(kind, data@) == Some(
                fields_view(fs@),
            ),
            None => !message_decodes(kind, data@),
        },
{
    let mut is = open_input(data);
    let mut out: Vec<DecodedField> = Vec::new();
    let mut seen: Vec<bool> = vec![false; 32];
    loop
        invariant
            decoded_fields(kind, data@) == after_prefix(
                fields_view(out@),
                decoded_fields(kind, unread_bytes(is)),
            ),
            seen@.len() == 32,
            forall|f: u32| f < 32 ==> (seen@[f as int] <==> has_field(fields_view(out@), f)),
        ensures
            decoded_fields(kind, data@) == Some(fields_view(out@)),
            seen@.len() == 32,
            forall|f: u32| f < 32 ==> (seen@[f as int] <==> has_field(fields_view(out@), f)),
        decreases unread_bytes(is).len(),
    {
        let ghost before = unread_bytes(is);
        let ghost prefix = fields_view(out@);
        let tag: u32 = match next_tag(&mut is) {
            Err(_) => {
                assert(decoded_fields(kind, before) is None);
                return None;
            },
            Ok(None) => {
                assert(decoded_fields(kind, before) == Some(Seq::<(u32, FieldView)>::empty()));
                assert(prefix + Seq::<(u32, FieldView)>::empty() =~= prefix);
                break;
            },
            Ok(Some(t)) => t,
        };
        let ghost rest = unread_bytes(is);
        proof {
            lemma_varint32_read_shrinks(before);
        }
        match reader_for(kind, tag) {
            Some(r) => {
                proof {
                    lemma_typed_read_shrinks(r, rest);
                }
                match read_typed(r, &mut is) {
                    Err(_) => {
                        assert(decoded_fields(kind, before) is None);
                        return None;
                    },
                    Ok(v) => {
                        let field: u32 = tag / 8;
                        assert(field < 32);
                        let ghost x = (field, v@);
                        let ghost after = unread_bytes(is);
                        let ghost old_out = out@;
                        let ghost old_seen = seen@;
                        seen.set(field as usize, true);
                        out.push(DecodedField { number: field, value: v });
                        proof {
                            assert(fields_view(out@) =~= prefix.push(x)) by {
                                assert(out@ =~= old_out.push(out@[out@.len() - 1]));
                            }
                            match decoded_fields(kind, after) {
                                Some(fs) => {
                                    assert(prefix + (seq![x] + fs) =~= prefix.push(x) + fs);
                                },
                                None => {},
                            }
                            lemma_has_field_push(prefix, x);
                            assert forall|f: u32| f < 32 implies (seen@[f as int] <==> has_field(
                                fields_view(out@),
                                f,
                            )) by {
                                assert(old_seen[f as int] <==> has_field(prefix, f));
                            }
                        }
                    },
                }
            },
            None => match skip_field(tag, &mut is) {
                Err(_) => {
                    assert(decoded_fields(kind, before) is None);
                    return None;
                },
                Ok(_) => {},
            },
        }
    }
    let ghost fs = fields_view(out@);
    proof {
        assert(seen@[1] == has_field(fs, 1));
        assert(seen@[2] == has_field(fs, 2));
        assert(seen@[3] == has_field(fs, 3));
        assert(seen@[5] == has_field(fs, 5));
    }
    let ok: bool = match kind {
        NetworkMessage::TextMessage => seen[5],
        NetworkMessage::UserRemove => seen[1],
        NetworkMessage::CodecVersion => seen[1] && seen[2] && seen[3],
        _ => true,
    };
    if ok {
        Some(out)
    } else {
        None
    }
}

/// A field whose key the message defines, followed by `rest`, decodes to
/// that field in front of what `rest` decodes to.
pub proof fn lemma_decode_field(
    kind: NetworkMessage,
    tag: u32,
    r: Reader,
    v: FieldView,
    body: Seq<u8>,
    rest: Seq<u8>,
)
    requires
        tag_reader(kind, tag) == Some(r),
        typed_read(r, body + rest) == Some((v, rest)),
    ensures
        decoded_fields(kind, varint(tag as nat) + body + rest) == after_prefix(
            seq![(tag / 8, v)],
            decoded_fields(kind, rest),
        ),
{
    let input = varint(tag as nat) + body + rest;
    assert(input =~= varint(tag as nat) + (body + rest));
    lemma_varint32_roundtrip(tag, body + rest);
    lemma_varint_nonempty(tag as nat);
    assert(input.len() > 0);
    assert(tag_read(input) == Some((Some(tag), body + rest)));
}

/// The key of field `f` with wire type `w`, as a 32-bit tag: it names the
/// field and the wire type back.
proof fn lemma_key_tag(f: u32, w: nat)
    requires
        f < 0x2000_0000,
        w < 8,
    ensures
        (f * 8 + w) <= u32::MAX,
        ((f * 8 + w) as u32) / 8 == f,
        ((f * 8 + w) as u32) % 8 == w,
{
}

/// A `uint32` field (or one element of a `repeated uint32` field) of a
/// message decodes to its value, in front of what follows.
pub proof fn lemma_decode_uint32_field(kind: NetworkMessage, f: u32, v: u32, rest: Seq<u8>)
    requires
        f < 0x2000_0000,
        field_type(kind, f) == Some(FieldType::UInt32) || field_type(kind, f) == Some(
            FieldType::RepeatedUInt32,
        ),
    ensures
        decoded_fields(kind, uint_field(f, v as nat) + rest) == after_prefix(
            seq![(f, FieldView::UInt32(v))],
            decoded_fields(kind, rest),
        ),
{
    lemma_key_tag(f, 0);
    let tag = (f * 8) as u32;
    lemma_varint32_roundtrip(v, rest);
    lemma_decode_field(kind, tag, Reader::Varint32, FieldView::UInt32(v), varint(v as nat), rest);
}

/// A `uint64` field of a message decodes to its value, in front of what
/// follows.
pub proof fn lemma_decode_uint64_field(kind: NetworkMessage, f: u32, v: u64, rest: Seq<u8>)
    requires
        f < 0x2000_0000,
        field_type(kind, f) == Some(FieldType::UInt64),
    ensures
        decoded_fields(kind, uint_field(f, v as nat) + rest) == after_prefix(
            seq![(f, FieldView::UInt64(v))],
            decoded_fields(kind, rest),
        ),
{
    lemma_key_tag(f, 0);
    let tag = (f * 8) as u32;
    lemma_varint64_roundtrip(v, rest);
    lemma_decode_field(kind, tag, Reader::Varint64, FieldView::UInt64(v), varint(v as nat), rest);
}

/// An `int32` field (or one element of a `repeated int32` field) of a
/// message decodes to its value, in front of what follows.
pub proof fn lemma_decode_int32_field(kind: NetworkMessage, f: u32, v: i32, rest: Seq<u8>)
    requires
        f < 0x2000_0000,
        field_type(kind, f) == Some(FieldType::Int32) || field_type(kind, f) == Some(
            FieldType::RepeatedInt32,
        ),
    ensures
        decoded_fields(kind, int32_field(f, v) + rest) == after_prefix(
            seq![(f, FieldView::Int32(v))],
            decoded_fields(kind, rest),
        ),
{
    lemma_key_tag(f, 0);
    let tag = (f * 8) as u32;
    lemma_int32_roundtrip(v, rest);
    let body = varint(int32_wire_value(v));
    lemma_decode_field(kind, tag, Reader::Int32, FieldView::Int32(v), body, rest);
}

/// A `bool` field of a message decodes to its value, in front of what
/// follows.
pub proof fn lemma_decode_bool_field(kind: NetworkMessage, f: u32, b: bool, rest: Seq<u8>)
    requires
        f < 0x2000_0000,
        field_type(kind, f) == Some(FieldType::Bool),
    ensures
        decoded_fields(kind, bool_field(f, b) + rest) == after_prefix(
            seq![(f, FieldView::Bool(b))],
            decoded_fields(kind, rest),
        ),
{
    lemma_key_tag(f, 0);
    let tag = (f * 8) as u32;
    let n: u64 = if b { 1 } else { 0 };
    lemma_varint64_roundtrip(n, rest);
    lemma_decode_field(kind, tag, Reader::Bool, FieldView::Bool(b), varint(n as nat), rest);
}

/// A `string` field (or one element of a `repeated string` field) of a
/// message decodes to its text, in front of what follows.
pub proof fn lemma_decode_string_field(kind: NetworkMessage, f: u32, t: Seq<char>, rest: Seq<u8>)
    requires
        f < 0x2000_0000,
        encode_utf8(t).len() <= u32::MAX,
        field_type(kind, f) == Some(FieldType::Str) || field_type(kind, f) == Some(
            FieldType::RepeatedStr,
        ),
    ensures
        decoded_fields(kind, string_field(f, t) + rest) == after_prefix(
            seq![(f, FieldView::Text(t))],
            decoded_fields(kind, rest),
        ),
{
    lemma_key_tag(f, 2);
    let tag = (f * 8 + 2) as u32;
    let body = varint(encode_utf8(t).len()) + encode_utf8(t);
    lemma_string_roundtrip(t, rest);
    assert(body + rest =~= varint(encode_utf8(t).len()) + encode_utf8(t) + rest);
    assert(string_field(f, t) + rest =~= varint(tag as nat) + body + rest);
    lemma_decode_field(kind, tag, Reader::Text, FieldView::Text(t), body, rest);
}

/// A `bytes` field of a message decodes to its bytes, in front of what
/// follows.
pub proof fn lemma_decode_bytes_field(kind: NetworkMessage, f: u32, b: Seq<u8>, rest: Seq<u8>)
    requires
        f < 0x2000_0000,
        b.len() <= u32::MAX,
        field_type(kind, f) == Some(FieldType::Bytes),
    ensures
        decoded_fields(kind, bytes_field(f, b) + rest) == after_prefix(
            seq![(f, FieldView::Bytes(b))],
            decoded_fields(kind, rest),
        ),
{
    lemma_key_tag(f, 2);
    let tag = (f * 8 + 2) as u32;
    let body = varint(b.len()) + b;
    lemma_bytes_roundtrip(b, rest);
    assert(body + rest =~= varint(b.len()) + b + rest);
    assert(bytes_field(f, b) + rest =~= varint(tag as nat) + body + rest);
    lemma_decode_field(kind, tag, Reader::Bytes, FieldView::Bytes(b), body, rest);
}

/// A field whose key the message does not define, read as unknown, is
/// dropped.
pub proof fn lemma_decode_unknown_field(kind: NetworkMessage, tag: u32, body: Seq<u8>, rest: Seq<u8>)
    requires
        tag_reader(kind, tag) is None,
        field_skip(tag, body + rest) == Some(rest),
    ensures
        decoded_fields(kind, varint(tag as nat) + body + rest) == decoded_fields(kind, rest),
{
    let input = varint(tag as nat) + body + rest;
    assert(input =~= varint(tag as nat) + (body + rest));
    lemma_varint32_roundtrip(tag, body + rest);
    lemma_varint_nonempty(tag as nat);
}

/// The fields of the protocol's version message, each decoded by its
/// declared type in front of what follows (`uint32` 1; `string` 2, 3, 4; an
/// element of a repeated field as one field of its type); a field numbered
/// 0 or past 4 is read as unknown and dropped.
pub proof fn lemma_version_fields()
    ensures
        forall|f: u32, v: u32, rest: Seq<u8>|
            f == 1 ==> #[trigger] decoded_fields(
                NetworkMessage::Version,
                uint_field(f, v as nat) + rest,
            ) == after_prefix(
                seq![(f, FieldView::UInt32(v))],
                decoded_fields(NetworkMessage::Version, rest),
            ),
        forall|f: u32, v: Seq<char>, rest: Seq<u8>|
            (f == 2 || f == 3 || f == 4) && encode_utf8(v).len() <= u32::MAX ==> #[trigger] decoded_fields(
                NetworkMessage::Version,
                string_field(f, v) + rest,
            ) == after_prefix(
                seq![(f, FieldView::Text(v))],
                decoded_fields(NetworkMessage::Version, rest),
            ),
        forall|tag: u32, body: Seq<u8>, rest: Seq<u8>|
            (tag / 8 == 0 || tag / 8 > 4) && field_skip(tag, body + rest) == Some(rest) ==> #[trigger] decoded_fields(
                NetworkMessage::Version,
                varint(tag as nat) + body + rest,
            ) == decoded_fields(NetworkMessage::Version, rest),
{
    assert forall|f: u32, v: u32, rest: Seq<u8>|
        f == 1 implies #[trigger] decoded_fields(
            NetworkMessage::Version,
            uint_field(f, v as nat) + rest,
        ) == after_prefix(
            seq![(f, FieldView::UInt32(v))],
            decoded_fields(NetworkMessage::Version, rest),
        ) by {
        lemma_decode_uint32_field(NetworkMessage::Version, f, v, rest);
    }
    assert forall|f: u32, v: Seq<char>, rest: Seq<u8>|
        (f == 2 || f == 3 || f == 4) && encode_utf8(v).len() <= u32::MAX implies #[trigger] decoded_fields(
            NetworkMessage::Version,
            string_field(f, v) + rest,
        ) == after_prefix(
            seq![(f, FieldView::Text(v))],
            decoded_fields(NetworkMessage::Version, rest),
        ) by {
        lemma_decode_string_field(NetworkMessage::Version, f, v, rest);
    }
    assert forall|tag: u32, body: Seq<u8>, rest: Seq<u8>|
        (tag / 8 == 0 || tag / 8 > 4) && field_skip(tag, body + rest) == Some(rest) implies #[trigger] decoded_fields(
            NetworkMessage::Version,
            varint(tag as nat) + body + rest,
        ) == decoded_fields(NetworkMessage::Version, rest) by {
        lemma_decode_unknown_field(NetworkMessage::Version, tag, body, rest);
    }
}

/// The fields of the protocol's authentication message, each decoded by its
/// declared type in front of what follows (`string` 1, 2, 3; `int32` 4;
/// `bool` 5; an element of a repeated field as one field of its type); a
/// field numbered 0 or past 5 is read as unknown and dropped.
pub proof fn lemma_authenticate_fields()
    ensures
        forall|f: u32, v: Seq<char>, rest: Seq<u8>|
            (f == 1 || f == 2 || f == 3) && encode_utf8(v).len() <= u32::MAX ==> #[trigger] decoded_fields(
                NetworkMessage::Authenticate,
                string_field(f, v) + rest,
            ) == after_prefix(
                seq![(f, FieldView::Text(v))],
                decoded_fields(NetworkMessage::Authenticate, rest),
            ),
        forall|f: u32, v: i32, rest: Seq<u8>|
            f == 4 ==> #[trigger] decoded_fields(
                NetworkMessage::Authenticate,
                int32_field(f, v) + rest,
            ) == after_prefix(
                seq![(f, FieldView::Int32(v))],
                decoded_fields(NetworkMessage::Authenticate, rest),
            ),
        forall|f: u32, v: bool, rest: Seq<u8>|
            f == 5 ==> #[trigger] decoded_fields(
                NetworkMessage::Authenticate,
                bool_field(f, v) + rest,
            ) == after_prefix(
                seq![(f, FieldView::Bool(v))],
                decoded_fields(NetworkMessage::Authenticate, rest),
            ),
        forall|tag: u32, body: Seq<u8>, rest: Seq<u8>|
            (tag / 8 == 0 || tag / 8 > 5) && field_skip(tag, body + rest) == Some(rest) ==> #[trigger] decoded_fields(
                NetworkMessage::Authenticate,
                varint(tag as nat) + body + rest,
            ) == decoded_fields(NetworkMessage::Authenticate, rest),
{
    assert forall|f: u32, v: Seq<char>, rest: Seq<u8>|
        (f == 1 || f == 2 || f == 3) && encode_utf8(v).len() <= u32::MAX implies #[trigger] decoded_fields(
            NetworkMessage::Authenticate,
            string_field(f, v) + rest,
        ) == after_prefix(
            seq![(f, FieldView::Text(v))],
            decoded_fields(NetworkMessage::Authenticate, rest),
        ) by {
        lemma_decode_string_field(NetworkMessage::Authenticate, f, v, rest);
    }
    assert forall|f: u32, v: i32, rest: Seq<u8>|
        f == 4 implies #[trigger] decoded_fields(
            NetworkMessage::Authenticate,
            int32_field(f, v) + rest,
        ) == after_prefix(
            seq![(f, FieldView::Int32(v))],
            decoded_fields(NetworkMessage::Authenticate, rest),
        ) by {
        lemma_decode_int32_field(NetworkMessage::Authenticate, f, v, rest);
    }
    assert forall|f: u32, v: bool, rest: Seq<u8>|
        f == 5 implies #[trigger] decoded_fields(
            NetworkMessage::Authenticate,
            bool_field(f, v) + rest,
        ) == after_prefix(
            seq![(f, FieldView::Bool(v))],
            decoded_fields(NetworkMessage::Authenticate, rest),
        ) by {
        lemma_decode_bool_field(NetworkMessage::Authenticate, f, v, rest);
    }
    assert forall|tag: u32, body: Seq<u8>, rest: Seq<u8>|
        (tag / 8 == 0 || tag / 8 > 5) && field_skip(tag, body + rest) == Some(rest) implies #[trigger] decoded_fields(
            NetworkMessage::Authenticate,
            varint(tag as nat) + body + rest,
        ) == decoded_fields(NetworkMessage::Authenticate, rest) by {
        lemma_decode_unknown_field(NetworkMessage::Authenticate, tag, body, rest);
    }
}

/// The fields of the protocol's crypt setup message, each decoded by its
/// declared type in front of what follows (`bytes` 1, 2, 3; an element of a
/// repeated field as one field of its type); a field numbered 0 or past 3
/// is read as unknown and dropped.
pub proof fn lemma_crypt_setup_fields()
    ensures
        forall|f: u32, v: Seq<u8>, rest: Seq<u8>|
            (f == 1 || f == 2 || f == 3) && v.len() <= u32::MAX ==> #[trigger] decoded_fields(
                NetworkMessage::CryptSetup,
                bytes_field(f, v) + rest,
            ) == after_prefix(
                seq![(f, FieldView::Bytes(v))],
                decoded_fields(NetworkMessage::CryptSetup, rest),
            ),
        forall|tag: u32, body: Seq<u8>, rest: Seq<u8>|
            (tag / 8 == 0 || tag / 8 > 3) && field_skip(tag, body + rest) == Some(rest) ==> #[trigger] decoded_fields(
                NetworkMessage::CryptSetup,
                varint(tag as nat) + body + rest,
            ) == decoded_fields(NetworkMessage::CryptSetup, rest),
{
    assert forall|f: u32, v: Seq<u8>, rest: Seq<u8>|
        (f == 1 || f == 2 || f == 3) && v.len() <= u32::MAX implies #[trigger] decoded_fields(
            NetworkMessage::CryptSetup,
            bytes_field(f, v) + rest,
        ) == after_prefix(
            seq![(f, FieldView::Bytes(v))],
            decoded_fields(NetworkMessage::CryptSetup, rest),
        ) by {
        lemma_decode_bytes_field(NetworkMessage::CryptSetup, f, v, rest);
    }
    assert forall|tag: u32, body: Seq<u8>, rest: Seq<u8>|
        (tag / 8 == 0 || tag / 8 > 3) && field_skip(tag, body + rest) == Some(rest) implies #[trigger] decoded_fields(
            NetworkMessage::CryptSetup,
            varint(tag as nat) + body + rest,
        ) == decoded_fields(NetworkMessage::CryptSetup, rest) by {
        lemma_decode_unknown_field(NetworkMessage::CryptSetup, tag, body, rest);
    }
}

/// The fields of the protocol's codec version message, each decoded by its
/// declared type in front of what follows (`int32` 1, 2; `bool` 3, 4; an
/// element of a repeated field as one field of its type); a field numbered
/// 0 or past 4 is read as unknown and dropped.
pub proof fn lemma_codec_version_fields()
    ensures
        forall|f: u32, v: i32, rest: Seq<u8>|
            (f == 1 || f == 2) ==> #[trigger] decoded_fields(
                NetworkMessage::CodecVersion,
                int32_field(f, v) + rest,
            ) == after_prefix(
                seq![(f, FieldView::Int32(v))],
                decoded_fields(NetworkMessage::CodecVersion, rest),
            ),
        forall|f: u32, v: bool, rest: Seq<u8>|
            (f == 3 || f == 4) ==> #[trigger] decoded_fields(
                NetworkMessage::CodecVersion,
                bool_field(f, v) + rest,
            ) == after_prefix(
                seq![(f, FieldView::Bool(v))],
                decoded_fields(NetworkMessage::CodecVersion, rest),
            ),
        forall|tag: u32, body: Seq<u8>, rest: Seq<u8>|
            (tag / 8 == 0 || tag / 8 > 4) && field_skip(tag, body + rest) == Some(rest) ==> #[trigger] decoded_fields(
                NetworkMessage::CodecVersion,
                varint(tag as nat) + body + rest,
            ) == decoded_fields(NetworkMessage::CodecVersion, rest),
{
    assert forall|f: u32, v: i32, rest: Seq<u8>|
        (f == 1 || f == 2) implies #[trigger] decoded_fields(
            NetworkMessage::CodecVersion,
            int32_field(f, v) + rest,
        ) == after_prefix(
            seq![(f, FieldView::Int32(v))],
            decoded_fields(NetworkMessage::CodecVersion, rest),
        ) by {
        lemma_decode_int32_field(NetworkMessage::CodecVersion, f, v, rest);
    }
    assert forall|f: u32, v: bool, rest: Seq<u8>|
        (f == 3 || f == 4) implies #[trigger] decoded_fields(
            NetworkMessage::CodecVersion,
            bool_field(f, v) + rest,
        ) == after_prefix(
            seq![(f, FieldView::Bool(v))],
            decoded_fields(NetworkMessage::CodecVersion, rest),
        ) by {
        lemma_decode_bool_field(NetworkMessage::CodecVersion, f, v, rest);
    }
    assert forall|tag: u32, body: Seq<u8>, rest: Seq<u8>|
        (tag / 8 == 0 || tag / 8 > 4) && field_skip(tag, body + rest) == Some(rest) implies #[trigger] decoded_fields(
            NetworkMessage::CodecVersion,
            varint(tag as nat) + body + rest,
        ) == decoded_fields(NetworkMessage::CodecVersion, rest) by {
        lemma_decode_unknown_field(NetworkMessage::CodecVersion, tag, body, rest);
    }
}

/// The fields of the protocol's permission query message, each decoded by
/// its declared type in front of what follows (`uint32` 1, 2; `bool` 3; an
/// element of a repeated field as one field of its type); a field numbered
/// 0 or past 3 is read as unknown and dropped.
pub proof fn lemma_permission_query_fields()
    ensures
        forall|f: u32, v: u32, rest: Seq<u8>|
            (f == 1 || f == 2) ==> #[trigger] decoded_fields(
                NetworkMessage::PermissionQuery,
                uint_field(f, v as nat) + rest,
            ) == after_prefix(
                seq![(f, FieldView::UInt32(v))],
                decoded_fields(NetworkMessage::PermissionQuery, rest),
            ),
        forall|f: u32, v: bool, rest: Seq<u8>|
            f == 3 ==> #[trigger] decoded_fields(
                NetworkMessage::PermissionQuery,
                bool_field(f, v) + rest,
            ) == after_prefix(
                seq![(f, FieldView::Bool(v))],
                decoded_fields(NetworkMessage::PermissionQuery, rest),
            ),
        forall|tag: u32, body: Seq<u8>, rest: Seq<u8>|
            (tag / 8 == 0 || tag / 8 > 3) && field_skip(tag, body + rest) == Some(rest) ==> #[trigger] decoded_fields(
                NetworkMessage::PermissionQuery,
                varint(tag as nat) + body + rest,
            ) == decoded_fields(NetworkMessage::PermissionQuery, rest),
{
    assert forall|f: u32, v: u32, rest: Seq<u8>|
        (f == 1 || f == 2) implies #[trigger] decoded_fields(
            NetworkMessage::PermissionQuery,
            uint_field(f, v as nat) + rest,
        ) == after_prefix(
            seq![(f, FieldView::UInt32(v))],
            decoded_fields(NetworkMessage::PermissionQuery, rest),
        ) by {
        lemma_decode_uint32_field(NetworkMessage::PermissionQuery, f, v, rest);
    }
    assert forall|f: u32, v: bool, rest: Seq<u8>|
        f == 3 implies #[trigger] decoded_fields(
            NetworkMessage::PermissionQuery,
            bool_field(f, v) + rest,
        ) == after_prefix(
            seq![(f, FieldView::Bool(v))],
            decoded_fields(NetworkMessage::PermissionQuery, rest),
        ) by {
        lemma_decode_bool_field(NetworkMessage::PermissionQuery, f, v, rest);
    }
    assert forall|tag: u32, body: Seq<u8>, rest: Seq<u8>|
        (tag / 8 == 0 || tag / 8 > 3) && field_skip(tag, body + rest) == Some(rest) implies #[trigger] decoded_fields(
            NetworkMessage::PermissionQuery,
            varint(tag as nat) + body + rest,
        ) == decoded_fields(NetworkMessage::PermissionQuery, rest) by {
        lemma_decode_unknown_field(NetworkMessage::PermissionQuery, tag, body, rest);
    }
}

/// The fields of the protocol's user state message, each decoded by its
/// declared type in front of what follows (`uint32` 1, 2, 4, 5; `string` 3,
/// 13, 14, 15, 20; `bool` 6, 7, 8, 9, 10, 18, 19; `bytes` 11, 12, 16, 17;
/// an element of a repeated field as one field of its type); a field
/// numbered 0 or past 20 is read as unknown and dropped.
pub proof fn lemma_user_state_fields()
    ensures
        forall|f: u32, v: u32, rest: Seq<u8>|
            (f == 1 || f == 2 || f == 4 || f == 5) ==> #[trigger] decoded_fields(
                NetworkMessage::UserState,
                uint_field(f, v as nat) + rest,
            ) == after_prefix(
                seq![(f, FieldView::UInt32(v))],
                decoded_fields(NetworkMessage::UserState, rest),
            ),
        forall|f: u32, v: Seq<char>, rest: Seq<u8>|
            (f == 3 || f == 13 || f == 14 || f == 15 || f == 20) && encode_utf8(v).len() <= u32::MAX ==> #[trigger] decoded_fields(
                NetworkMessage::UserState,
                string_field(f, v) + rest,
            ) == after_prefix(
                seq![(f, FieldView::Text(v))],
                decoded_fields(NetworkMessage::UserState, rest),
            ),
        forall|f: u32, v: bool, rest: Seq<u8>|
            (f == 6 || f == 7 || f == 8 || f == 9 || f == 10 || f == 18 || f == 19) ==> #[trigger] decoded_fields(
                NetworkMessage::UserState,
                bool_field(f, v) + rest,
            ) == after_prefix(
                seq![(f, FieldView::Bool(v))],
                decoded_fields(NetworkMessage::UserState, rest),
            ),
        forall|f: u32, v: Seq<u8>, rest: Seq<u8>|
            (f == 11 || f == 12 || f == 16 || f == 17) && v.len() <= u32::MAX ==> #[trigger] decoded_fields(
                NetworkMessage::UserState,
                bytes_field(f, v) + rest,
            ) == after_prefix(
                seq![(f, FieldView::Bytes(v))],
                decoded_fields(NetworkMessage::UserState, rest),
            ),
        forall|tag: u32, body: Seq<u8>, rest: Seq<u8>|
            (tag / 8 == 0 || tag / 8 > 20) && field_skip(tag, body + rest) == Some(rest) ==> #[trigger] decoded_fields(
                NetworkMessage::UserState,
                varint(tag as nat) + body + rest,
            ) == decoded_fields(NetworkMessage::UserState, rest),
{
    assert forall|f: u32, v: u32, rest: Seq<u8>|
        (f == 1 || f == 2 || f == 4 || f == 5) implies #[trigger] decoded_fields(
            NetworkMessage::UserState,
            uint_field(f, v as nat) + rest,
        ) == after_prefix(
            seq![(f, FieldView::UInt32(v))],
            decoded_fields(NetworkMessage::UserState, rest),
        ) by {
        lemma_decode_uint32_field(NetworkMessage::UserState, f, v, rest);
    }
    assert forall|f: u32, v: Seq<char>, rest: Seq<u8>|
        (f == 3 || f == 13 || f == 14 || f == 15 || f == 20) && encode_utf8(v).len() <= u32::MAX implies #[trigger] decoded_fields(
            NetworkMessage::UserState,
            string_field(f, v) + rest,
        ) == after_prefix(
            seq![(f, FieldView::Text(v))],
            decoded_fields(NetworkMessage::UserState, rest),
        ) by {
        lemma_decode_string_field(NetworkMessage::UserState, f, v, rest);
    }
    assert forall|f: u32, v: bool, rest: Seq<u8>|
        (f == 6 || f == 7 || f == 8 || f == 9 || f == 10 || f == 18 || f == 19) implies #[trigger] decoded_fields(
            NetworkMessage::UserState,
            bool_field(f, v) + rest,
        ) == after_prefix(
            seq![(f, FieldView::Bool(v))],
            decoded_fields(NetworkMessage::UserState, rest),
        ) by {
        lemma_decode_bool_field(NetworkMessage::UserState, f, v, rest);
    }
    assert forall|f: u32, v: Seq<u8>, rest: Seq<u8>|
        (f == 11 || f == 12 || f == 16 || f == 17) && v.len() <= u32::MAX implies #[trigger] decoded_fields(
            NetworkMessage::UserState,
            bytes_field(f, v) + rest,
        ) == after_prefix(
            seq![(f, FieldView::Bytes(v))],
            decoded_fields(NetworkMessage::UserState, rest),
        ) by {
        lemma_decode_bytes_field(NetworkMessage::UserState, f, v, rest);
    }
    assert forall|tag: u32, body: Seq<u8>, rest: Seq<u8>|
        (tag / 8 == 0 || tag / 8 > 20) && field_skip(tag, body + rest) == Some(rest) implies #[trigger] decoded_fields(
            NetworkMessage::UserState,
            varint(tag as nat) + body + rest,
        ) == decoded_fields(NetworkMessage::UserState, rest) by {
        lemma_decode_unknown_field(NetworkMessage::UserState, tag, body, rest);
    }
}

/// The fields of the protocol's server sync message, each decoded by its
/// declared type in front of what follows (`uint32` 1, 2; `string` 3;
/// `uint64` 4; an element of a repeated field as one field of its type); a
/// field numbered 0 or past 4 is read as unknown and dropped.
pub proof fn lemma_server_sync_fields()
    ensures
        forall|f: u32, v: u32, rest: Seq<u8>|
            (f == 1 || f == 2) ==> #[trigger] decoded_fields(
                NetworkMessage::ServerSync,
                uint_field(f, v as nat) + rest,
            ) == after_prefix(
                seq![(f, FieldView::UInt32(v))],
                decoded_fields(NetworkMessage::ServerSync, rest),
            ),
        forall|f: u32, v: Seq<char>, rest: Seq<u8>|
            f == 3 && encode_utf8(v).len() <= u32::MAX ==> #[trigger] decoded_fields(
                NetworkMessage::ServerSync,
                string_field(f, v) + rest,
            ) == after_prefix(
                seq![(f, FieldView::Text(v))],
                decoded_fields(NetworkMessage::ServerSync, rest),
            ),
        forall|f: u32, v: u64, rest: Seq<u8>|
            f == 4 ==> #[trigger] decoded_fields(
                NetworkMessage::ServerSync,
                uint_field(f, v as nat) + rest,
            ) == after_prefix(
                seq![(f, FieldView::UInt64(v))],
                decoded_fields(NetworkMessage::ServerSync, rest),
            ),
        forall|tag: u32, body: Seq<u8>, rest: Seq<u8>|
            (tag / 8 == 0 || tag / 8 > 4) && field_skip(tag, body + rest) == Some(rest) ==> #[trigger] decoded_fields(
                NetworkMessage::ServerSync,
                varint(tag as nat) + body + rest,
            ) == decoded_fields(NetworkMessage::ServerSync, rest),
{
    assert forall|f: u32, v: u32, rest: Seq<u8>|
        (f == 1 || f == 2) implies #[trigger] decoded_fields(
            NetworkMessage::ServerSync,
            uint_field(f, v as nat) + rest,
        ) == after_prefix(
            seq![(f, FieldView::UInt32(v))],
            decoded_fields(NetworkMessage::ServerSync, rest),
        ) by {
        lemma_decode_uint32_field(NetworkMessage::ServerSync, f, v, rest);
    }
    assert forall|f: u32, v: Seq<char>, rest: Seq<u8>|
        f == 3 && encode_utf8(v).len() <= u32::MAX implies #[trigger] decoded_fields(
            NetworkMessage::ServerSync,
            string_field(f, v) + rest,
        ) == after_prefix(
            seq![(f, FieldView::Text(v))],
            decoded_fields(NetworkMessage::ServerSync, rest),
        ) by {
        lemma_decode_string_field(NetworkMessage::ServerSync, f, v, rest);
    }
    assert forall|f: u32, v: u64, rest: Seq<u8>|
        f == 4 implies #[trigger] decoded_fields(
            NetworkMessage::ServerSync,
            uint_field(f, v as nat) + rest,
        ) == after_prefix(
            seq![(f, FieldView::UInt64(v))],
            decoded_fields(NetworkMessage::ServerSync, rest),
        ) by {
        lemma_decode_uint64_field(NetworkMessage::ServerSync, f, v, rest);
    }
    assert forall|tag: u32, body: Seq<u8>, rest: Seq<u8>|
        (tag / 8 == 0 || tag / 8 > 4) && field_skip(tag, body + rest) == Some(rest) implies #[trigger] decoded_fields(
            NetworkMessage::ServerSync,
            varint(tag as nat) + body + rest,
        ) == decoded_fields(NetworkMessage::ServerSync, rest) by {
        lemma_decode_unknown_field(NetworkMessage::ServerSync, tag, body, rest);
    }
}

/// The fields of the protocol's server config message, each decoded by its
/// declared type in front of what follows (`uint32` 1, 4, 5, 6; `string` 2;
/// `bool` 3; an element of a repeated field as one field of its type); a
/// field numbered 0 or past 6 is read as unknown and dropped.
pub proof fn lemma_server_config_fields()
    ensures
        forall|f: u32, v: u32, rest: Seq<u8>|
            (f == 1 || f == 4 || f == 5 || f == 6) ==> #[trigger] decoded_fields(
                NetworkMessage::ServerConfig,
                uint_field(f, v as nat) + rest,
            ) == after_prefix(
                seq![(f, FieldView::UInt32(v))],
                decoded_fields(NetworkMessage::ServerConfig, rest),
            ),
        forall|f: u32, v: Seq<char>, rest: Seq<u8>|
            f == 2 && encode_utf8(v).len() <= u32::MAX ==> #[trigger] decoded_fields(
                NetworkMessage::ServerConfig,
                string_field(f, v) + rest,
            ) == after_prefix(
                seq![(f, FieldView::Text(v))],
                decoded_fields(NetworkMessage::ServerConfig, rest),
            ),
        forall|f: u32, v: bool, rest: Seq<u8>|
            f == 3 ==> #[trigger] decoded_fields(
                NetworkMessage::ServerConfig,
                bool_field(f, v) + rest,
            ) == after_prefix(
                seq![(f, FieldView::Bool(v))],
                decoded_fields(NetworkMessage::ServerConfig, rest),
            ),
        forall|tag: u32, body: Seq<u8>, rest: Seq<u8>|
            (tag / 8 == 0 || tag / 8 > 6) && field_skip(tag, body + rest) == Some(rest) ==> #[trigger] decoded_fields(
                NetworkMessage::ServerConfig,
                varint(tag as nat) + body + rest,
            ) == decoded_fields(NetworkMessage::ServerConfig, rest),
{
    assert forall|f: u32, v: u32, rest: Seq<u8>|
        (f == 1 || f == 4 || f == 5 || f == 6) implies #[trigger] decoded_fields(
            NetworkMessage::ServerConfig,
            uint_field(f, v as nat) + rest,
        ) == after_prefix(
            seq![(f, FieldView::UInt32(v))],
            decoded_fields(NetworkMessage::ServerConfig, rest),
        ) by {
        lemma_decode_uint32_field(NetworkMessage::ServerConfig, f, v, rest);
    }
    assert forall|f: u32, v: Seq<char>, rest: Seq<u8>|
        f == 2 && encode_utf8(v).len() <= u32::MAX implies #[trigger] decoded_fields(
            NetworkMessage::ServerConfig,
            string_field(f, v) + rest,
        ) == after_prefix(
            seq![(f, FieldView::Text(v))],
            decoded_fields(NetworkMessage::ServerConfig, rest),
        ) by {
        lemma_decode_string_field(NetworkMessage::ServerConfig, f, v, rest);
    }
    assert forall|f: u32, v: bool, rest: Seq<u8>|
        f == 3 implies #[trigger] decoded_fields(
            NetworkMessage::ServerConfig,
            bool_field(f, v) + rest,
        ) == after_prefix(
            seq![(f, FieldView::Bool(v))],
            decoded_fields(NetworkMessage::ServerConfig, rest),
        ) by {
        lemma_decode_bool_field(NetworkMessage::ServerConfig, f, v, rest);
    }
    assert forall|tag: u32, body: Seq<u8>, rest: Seq<u8>|
        (tag / 8 == 0 || tag / 8 > 6) && field_skip(tag, body + rest) == Some(rest) implies #[trigger] decoded_fields(
            NetworkMessage::ServerConfig,
            varint(tag as nat) + body + rest,
        ) == decoded_fields(NetworkMessage::ServerConfig, rest) by {
        lemma_decode_unknown_field(NetworkMessage::ServerConfig, tag, body, rest);
    }
}

/// The fields of the protocol's text message, each decoded by its declared
/// type in front of what follows (`uint32` 1, 2, 3, 4; `string` 5; an
/// element of a repeated field as one field of its type); a field numbered
/// 0 or past 5 is read as unknown and dropped.
pub proof fn lemma_text_message_fields()
    ensures
        forall|f: u32, v: u32, rest: Seq<u8>|
            (f == 1 || f == 2 || f == 3 || f == 4) ==> #[trigger] decoded_fields(
                NetworkMessage::TextMessage,
                uint_field(f, v as nat) + rest,
            ) == after_prefix(
                seq![(f, FieldView::UInt32(v))],
                decoded_fields(NetworkMessage::TextMessage, rest),
            ),
        forall|f: u32, v: Seq<char>, rest: Seq<u8>|
            f == 5 && encode_utf8(v).len() <= u32::MAX ==> #[trigger] decoded_fields(
                NetworkMessage::TextMessage,
                string_field(f, v) + rest,
            ) == after_prefix(
                seq![(f, FieldView::Text(v))],
                decoded_fields(NetworkMessage::TextMessage, rest),
            ),
        forall|tag: u32, body: Seq<u8>, rest: Seq<u8>|
            (tag / 8 == 0 || tag / 8 > 5) && field_skip(tag, body + rest) == Some(rest) ==> #[trigger] decoded_fields(
                NetworkMessage::TextMessage,
                varint(tag as nat) + body + rest,
            ) == decoded_fields(NetworkMessage::TextMessage, rest),
{
    assert forall|f: u32, v: u32, rest: Seq<u8>|
        (f == 1 || f == 2 || f == 3 || f == 4) implies #[trigger] decoded_fields(
            NetworkMessage::TextMessage,
            uint_field(f, v as nat) + rest,
        ) == after_prefix(
            seq![(f, FieldView::UInt32(v))],
            decoded_fields(NetworkMessage::TextMessage, rest),
        ) by {
        lemma_decode_uint32_field(NetworkMessage::TextMessage, f, v, rest);
    }
    assert forall|f: u32, v: Seq<char>, rest: Seq<u8>|
        f == 5 && encode_utf8(v).len() <= u32::MAX implies #[trigger] decoded_fields(
            NetworkMessage::TextMessage,
            string_field(f, v) + rest,
        ) == after_prefix(
            seq![(f, FieldView::Text(v))],
            decoded_fields(NetworkMessage::TextMessage, rest),
        ) by {
        lemma_decode_string_field(NetworkMessage::TextMessage, f, v, rest);
    }
    assert forall|tag: u32, body: Seq<u8>, rest: Seq<u8>|
        (tag / 8 == 0 || tag / 8 > 5) && field_skip(tag, body + rest) == Some(rest) implies #[trigger] decoded_fields(
            NetworkMessage::TextMessage,
            varint(tag as nat) + body + rest,
        ) == decoded_fields(NetworkMessage::TextMessage, rest) by {
        lemma_decode_unknown_field(NetworkMessage::TextMessage, tag, body, rest);
    }
}

/// The fields of the protocol's user remove message, each decoded by its
/// declared type in front of what follows (`uint32` 1, 2; `string` 3;
/// `bool` 4; an element of a repeated field as one field of its type); a
/// field numbered 0 or past 4 is read as unknown and dropped.
pub proof fn lemma_user_remove_fields()
    ensures
        forall|f: u32, v: u32, rest: Seq<u8>|
            (f == 1 || f == 2) ==> #[trigger] decoded_fields(
                NetworkMessage::UserRemove,
                uint_field(f, v as nat) + rest,
            ) == after_prefix(
                seq![(f, FieldView::UInt32(v))],
                decoded_fields(NetworkMessage::UserRemove, rest),
            ),
        forall|f: u32, v: Seq<char>, rest: Seq<u8>|
            f == 3 && encode_utf8(v).len() <= u32::MAX ==> #[trigger] decoded_fields(
                NetworkMessage::UserRemove,
                string_field(f, v) + rest,
            ) == after_prefix(
                seq![(f, FieldView::Text(v))],
                decoded_fields(NetworkMessage::UserRemove, rest),
            ),
        forall|f: u32, v: bool, rest: Seq<u8>|
            f == 4 ==> #[trigger] decoded_fields(
                NetworkMessage::UserRemove,
                bool_field(f, v) + rest,
            ) == after_prefix(
                seq![(f, FieldView::Bool(v))],
                decoded_fields(NetworkMessage::UserRemove, rest),
            ),
        forall|tag: u32, body: Seq<u8>, rest: Seq<u8>|
            (tag / 8 == 0 || tag / 8 > 4) && field_skip(tag, body + rest) == Some(rest) ==> #[trigger] decoded_fields(
                NetworkMessage::UserRemove,
                varint(tag as nat) + body + rest,
            ) == decoded_fields(NetworkMessage::UserRemove, rest),
{
    assert forall|f: u32, v: u32, rest: Seq<u8>|
        (f == 1 || f == 2) implies #[trigger] decoded_fields(
            NetworkMessage::UserRemove,
            uint_field(f, v as nat) + rest,
        ) == after_prefix(
            seq![(f, FieldView::UInt32(v))],
            decoded_fields(NetworkMessage::UserRemove, rest),
        ) by {
        lemma_decode_uint32_field(NetworkMessage::UserRemove, f, v, rest);
    }
    assert forall|f: u32, v: Seq<char>, rest: Seq<u8>|
        f == 3 && encode_utf8(v).len() <= u32::MAX implies #[trigger] decoded_fields(
            NetworkMessage::UserRemove,
            string_field(f, v) + rest,
        ) == after_prefix(
            seq![(f, FieldView::Text(v))],
            decoded_fields(NetworkMessage::UserRemove, rest),
        ) by {
        lemma_decode_string_field(NetworkMessage::UserRemove, f, v, rest);
    }
    assert forall|f: u32, v: bool, rest: Seq<u8>|
        f == 4 implies #[trigger] decoded_fields(
            NetworkMessage::UserRemove,
            bool_field(f, v) + rest,
        ) == after_prefix(
            seq![(f, FieldView::Bool(v))],
            decoded_fields(NetworkMessage::UserRemove, rest),
        ) by {
        lemma_decode_bool_field(NetworkMessage::UserRemove, f, v, rest);
    }
    assert forall|tag: u32, body: Seq<u8>, rest: Seq<u8>|
        (tag / 8 == 0 || tag / 8 > 4) && field_skip(tag, body + rest) == Some(rest) implies #[trigger] decoded_fields(
            NetworkMessage::UserRemove,
            varint(tag as nat) + body + rest,
        ) == decoded_fields(NetworkMessage::UserRemove, rest) by {
        lemma_decode_unknown_field(NetworkMessage::UserRemove, tag, body, rest);
    }
}

/// The fields of the protocol's channel state message, each decoded by its
/// declared type in front of what follows (`uint32` 1, 2, 4, 6, 7, 11;
/// `string` 3, 5; `bool` 8; `int32` 9; `bytes` 10; an element of a repeated
/// field as one field of its type); a field numbered 0 or past 11 is read
/// as unknown and dropped.
pub proof fn lemma_channel_state_fields()
    ensures
        forall|f: u32, v: u32, rest: Seq<u8>|
            (f == 1 || f == 2 || f == 4 || f == 6 || f == 7 || f == 11) ==> #[trigger] decoded_fields(
                NetworkMessage::ChannelState,
                uint_field(f, v as nat) + rest,
            ) == after_prefix(
                seq![(f, FieldView::UInt32(v))],
                decoded_fields(NetworkMessage::ChannelState, rest),
            ),
        forall|f: u32, v: Seq<char>, rest: Seq<u8>|
            (f == 3 || f == 5) && encode_utf8(v).len() <= u32::MAX ==> #[trigger] decoded_fields(
                NetworkMessage::ChannelState,
                string_field(f, v) + rest,
            ) == after_prefix(
                seq![(f, FieldView::Text(v))],
                decoded_fields(NetworkMessage::ChannelState, rest),
            ),
        forall|f: u32, v: bool, rest: Seq<u8>|
            f == 8 ==> #[trigger] decoded_fields(
                NetworkMessage::ChannelState,
                bool_field(f, v) + rest,
            ) == after_prefix(
                seq![(f, FieldView::Bool(v))],
                decoded_fields(NetworkMessage::ChannelState, rest),
            ),
        forall|f: u32, v: i32, rest: Seq<u8>|
            f == 9 ==> #[trigger] decoded_fields(
                NetworkMessage::ChannelState,
                int32_field(f, v) + rest,
            ) == after_prefix(
                seq![(f, FieldView::Int32(v))],
                decoded_fields(NetworkMessage::ChannelState, rest),
            ),
        forall|f: u32, v: Seq<u8>, rest: Seq<u8>|
            f == 10 && v.len() <= u32::MAX ==> #[trigger] decoded_fields(
                NetworkMessage::ChannelState,
                bytes_field(f, v) + rest,
            ) == after_prefix(
                seq![(f, FieldView::Bytes(v))],
                decoded_fields(NetworkMessage::ChannelState, rest),
            ),
        forall|tag: u32, body: Seq<u8>, rest: Seq<u8>|
            (tag / 8 == 0 || tag / 8 > 11) && field_skip(tag, body + rest) == Some(rest) ==> #[trigger] decoded_fields(
                NetworkMessage::ChannelState,
                varint(tag as nat) + body + rest,
            ) == decoded_fields(NetworkMessage::ChannelState, rest),
{
    assert forall|f: u32, v: u32, rest: Seq<u8>|
        (f == 1 || f == 2 || f == 4 || f == 6 || f == 7 || f == 11) implies #[trigger] decoded_fields(
            NetworkMessage::ChannelState,
            uint_field(f, v as nat) + rest,
        ) == after_prefix(
            seq![(f, FieldView::UInt32(v))],
            decoded_fields(NetworkMessage::ChannelState, rest),
        ) by {
        lemma_decode_uint32_field(NetworkMessage::ChannelState, f, v, rest);
    }
    assert forall|f: u32, v: Seq<char>, rest: Seq<u8>|
        (f == 3 || f == 5) && encode_utf8(v).len() <= u32::MAX implies #[trigger] decoded_fields(
            NetworkMessage::ChannelState,
            string_field(f, v) + rest,
        ) == after_prefix(
            seq![(f, FieldView::Text(v))],
            decoded_fields(NetworkMessage::ChannelState, rest),
        ) by {
        lemma_decode_string_field(NetworkMessage::ChannelState, f, v, rest);
    }
    assert forall|f: u32, v: bool, rest: Seq<u8>|
        f == 8 implies #[trigger] decoded_fields(
            NetworkMessage::ChannelState,
            bool_field(f, v) + rest,
        ) == after_prefix(
            seq![(f, FieldView::Bool(v))],
            decoded_fields(NetworkMessage::ChannelState, rest),
        ) by {
        lemma_decode_bool_field(NetworkMessage::ChannelState, f, v, rest);
    }
    assert forall|f: u32, v: i32, rest: Seq<u8>|
        f == 9 implies #[trigger] decoded_fields(
            NetworkMessage::ChannelState,
            int32_field(f, v) + rest,
        ) == after_prefix(
            seq![(f, FieldView::Int32(v))],
            decoded_fields(NetworkMessage::ChannelState, rest),
        ) by {
        lemma_decode_int32_field(NetworkMessage::ChannelState, f, v, rest);
    }
    assert forall|f: u32, v: Seq<u8>, rest: Seq<u8>|
        f == 10 && v.len() <= u32::MAX implies #[trigger] decoded_fields(
            NetworkMessage::ChannelState,
            bytes_field(f, v) + rest,
        ) == after_prefix(
            seq![(f, FieldView::Bytes(v))],
            decoded_fields(NetworkMessage::ChannelState, rest),
        ) by {
        lemma_decode_bytes_field(NetworkMessage::ChannelState, f, v, rest);
    }
    assert forall|tag: u32, body: Seq<u8>, rest: Seq<u8>|
        (tag / 8 == 0 || tag / 8 > 11) && field_skip(tag, body + rest) == Some(rest) implies #[trigger] decoded_fields(
            NetworkMessage::ChannelState,
            varint(tag as nat) + body + rest,
        ) == decoded_fields(NetworkMessage::ChannelState, rest) by {
        lemma_decode_unknown_field(NetworkMessage::ChannelState, tag, body, rest);
    }
}

/// A field number occurs in `fs` with `x` appended when it occurs in `fs`
/// or is that of `x`.
proof fn lemma_has_field_push(fs: Seq<(u32, FieldView)>, x: (u32, FieldView))
    ensures
        forall|f: u32| has_field(fs.push(x), f) <==> (has_field(fs, f) || f == x.0),
{
    let p = fs.push(x);
    assert forall|f: u32| has_field(p, f) <==> (has_field(fs, f) || f == x.0) by {
        if has_field(fs, f) {
            let i = choose|i: int| 0 <= i < fs.len() && (#[trigger] fs[i]).0 == f;
            assert(p[i] == fs[i]);
        }
        if f == x.0 {
            assert(p[fs.len() as int] == x);
        }
        if has_field(p, f) {
            let i = choose|i: int| 0 <= i < p.len() && (#[trigger] p[i]).0 == f;
            if i < fs.len() {
                assert(p[i] == fs[i]);
            }
        }
    }
}

} // verus!
