//! The protobuf control messages: those the client sends, with the
//! encoding of each as a spec function and an encoder proved to produce
//! it, and the channel-state message it reads, with its decoder.

use vstd::prelude::*;
use vstd::utf8::encode_utf8;
use crate::wire::{
    bool_field, field_key, field_skip, int32_field, lemma_string_roundtrip,
    lemma_varint32_read_shrinks, lemma_varint32_roundtrip, next_string, next_tag, next_uint32,
    open_input, put_bool, put_int32, put_string, put_uint32, put_uint64, skip_field, string_field,
    string_read, tag_read, uint32_read, uint_field, unread_bytes, varint, read_typed,
    typed_read, lemma_typed_read_shrinks, lemma_varint_nonempty, Reader, FieldView,
};
use crate::message_kind::NetworkMessage;
use crate::schema::{reader_for, tag_reader};

verus! {

/// An optional unsigned field: its encoding when present, nothing when not.
pub open spec fn opt_uint_field(field: u32, v: Option<nat>) -> Seq<u8> {
    match v {
        Some(x) => uint_field(field, x),
        None => Seq::empty(),
    }
}

/// An optional string field.
pub open spec fn opt_string_field(field: u32, s: Option<String>) -> Seq<u8> {
    match s {
        Some(x) => string_field(field, x@),
        None => Seq::empty(),
    }
}

/// An optional `bool` field.
pub open spec fn opt_bool_field(field: u32, b: Option<bool>) -> Seq<u8> {
    match b {
        Some(x) => bool_field(field, x),
        None => Seq::empty(),
    }
}

/// A repeated string field: one field per element, in order.
pub open spec fn repeated_string_field(field: u32, items: Seq<String>) -> Seq<u8>
    decreases items.len(),
{
    if items.len() == 0 {
        Seq::empty()
    } else {
        repeated_string_field(field, items.drop_last()) + string_field(field, items.last()@)
    }
}

/// A repeated (unpacked) `int32` field: one field per element, in order.
pub open spec fn repeated_int32_field(field: u32, items: Seq<i32>) -> Seq<u8>
    decreases items.len(),
{
    if items.len() == 0 {
        Seq::empty()
    } else {
        repeated_int32_field(field, items.drop_last()) + int32_field(field, items.last())
    }
}

/// Whether a string's UTF-8 form is short enough for protobuf's `u32`
/// length prefix.
pub open spec fn string_fits(s: String) -> bool {
    encode_utf8(s@).len() <= u32::MAX
}

/// Whether an optional string fits a length prefix.
pub open spec fn opt_string_fits(s: Option<String>) -> bool {
    s matches Some(x) ==> string_fits(x)
}

/// An optional `u32`, as a number.
pub open spec fn opt_u32(v: Option<u32>) -> Option<nat> {
    match v {
        Some(x) => Some(x as nat),
        None => None,
    }
}

/// An optional `u64`, as a number.
pub open spec fn opt_u64(v: Option<u64>) -> Option<nat> {
    match v {
        Some(x) => Some(x as nat),
        None => None,
    }
}

/// Appends an optional string field.
fn put_opt_string(out: &mut Vec<u8>, field: u32, value: &Option<String>) -> (r: Result<(), protobuf::Error>)
    requires
        1 <= field <= crate::wire::FIELD_NUMBER_MAX,
        opt_string_fits(*value),
    ensures
        r is Ok,
        final(out)@ == old(out)@ + opt_string_field(field, *value),
{
    match value {
        Some(s) => put_string(out, field, s.as_str()),
        None => {
            assert(old(out)@ + Seq::<u8>::empty() =~= old(out)@);
            Ok(())
        },
    }
}

/// Appends an optional `uint32` field.
fn put_opt_uint32(out: &mut Vec<u8>, field: u32, value: Option<u32>) -> (r: Result<(), protobuf::Error>)
    requires
        1 <= field <= crate::wire::FIELD_NUMBER_MAX,
    ensures
        r is Ok,
        final(out)@ == old(out)@ + opt_uint_field(field, opt_u32(value)),
{
    match value {
        Some(v) => put_uint32(out, field, v),
        None => {
            assert(old(out)@ + Seq::<u8>::empty() =~= old(out)@);
            Ok(())
        },
    }
}

/// The version message: the client's protocol version, release name and
/// operating system.
pub struct Version {
    pub version: Option<u32>,
    pub release: Option<String>,
    pub os: Option<String>,
    pub os_version: Option<String>,
}

impl Version {
    /// The protobuf encoding of the message, fields in number order.
    pub open spec fn encoding(&self) -> Seq<u8> {
        opt_uint_field(1, opt_u32(self.version)) + opt_string_field(2, self.release)
            + opt_string_field(3, self.os) + opt_string_field(4, self.os_version)
    }

    /// Whether every string of the message fits a length prefix.
    pub open spec fn fits(&self) -> bool {
        opt_string_fits(self.release) && opt_string_fits(self.os) && opt_string_fits(
            self.os_version,
        )
    }

    /// The message's protobuf encoding.
    pub fn write_to_bytes(&self) -> (r: Result<Vec<u8>, protobuf::Error>)
        requires
            self.fits(),
        ensures
            r matches Ok(v) && v@ == self.encoding(),
    {
        let mut out: Vec<u8> = Vec::new();
        put_opt_uint32(&mut out, 1, self.version)?;
        put_opt_string(&mut out, 2, &self.release)?;
        put_opt_string(&mut out, 3, &self.os)?;
        put_opt_string(&mut out, 4, &self.os_version)?;
        assert(out@ =~= self.encoding());
        Ok(out)
    }
}

/// The authentication message: user name, password, access tokens, the
/// CELT codec versions the client supports and whether it supports Opus.
pub struct Authenticate {
    pub username: Option<String>,
    pub password: Option<String>,
    pub tokens: Vec<String>,
    pub celt_versions: Vec<i32>,
    pub opus: Option<bool>,
}

/// Whether every string of a list fits a length prefix.
pub open spec fn strings_fit(items: Seq<String>) -> bool {
    forall|i: int| 0 <= i < items.len() ==> #[trigger] string_fits(items[i])
}

impl Authenticate {
    /// The protobuf encoding of the message, fields in number order.
    pub open spec fn encoding(&self) -> Seq<u8> {
        opt_string_field(1, self.username) + opt_string_field(2, self.password)
            + repeated_string_field(3, self.tokens@) + repeated_int32_field(4, self.celt_versions@)
            + opt_bool_field(5, self.opus)
    }

    /// Whether every string of the message fits a length prefix.
    pub open spec fn fits(&self) -> bool {
        opt_string_fits(self.username) && opt_string_fits(self.password) && strings_fit(
            self.tokens@,
        )
    }

    /// The message's protobuf encoding.
    pub fn write_to_bytes(&self) -> (r: Result<Vec<u8>, protobuf::Error>)
        requires
            self.fits(),
        ensures
            r matches Ok(v) && v@ == self.encoding(),
    {
        let mut out: Vec<u8> = Vec::new();
        put_opt_string(&mut out, 1, &self.username)?;
        put_opt_string(&mut out, 2, &self.password)?;
        let ghost head = out@;
        let mut i: usize = 0;
        while i < self.tokens.len()
            invariant
                i <= self.tokens@.len(),
                strings_fit(self.tokens@),
                out@ == head + repeated_string_field(3, self.tokens@.subrange(0, i as int)),
            decreases self.tokens@.len() - i,
        {
            assert(string_fits(self.tokens@[i as int]));
            put_string(&mut out, 3, self.tokens[i].as_str())?;
            i = i + 1;
            assert(self.tokens@.subrange(0, i as int).drop_last() =~= self.tokens@.subrange(
                0,
                (i - 1) as int,
            ));
            assert(out@ =~= head + repeated_string_field(3, self.tokens@.subrange(0, i as int)));
        }
        assert(self.tokens@.subrange(0, i as int) =~= self.tokens@);
        let ghost mid = out@;
        let mut j: usize = 0;
        while j < self.celt_versions.len()
            invariant
                j <= self.celt_versions@.len(),
                out@ == mid + repeated_int32_field(4, self.celt_versions@.subrange(0, j as int)),
            decreases self.celt_versions@.len() - j,
        {
            put_int32(&mut out, 4, self.celt_versions[j])?;
            j = j + 1;
            assert(self.celt_versions@.subrange(0, j as int).drop_last() =~= self.celt_versions@.subrange(
                0,
                (j - 1) as int,
            ));
            assert(out@ =~= mid + repeated_int32_field(4, self.celt_versions@.subrange(0, j as int)));
        }
        assert(self.celt_versions@.subrange(0, j as int) =~= self.celt_versions@);
        match self.opus {
            Some(b) => {
                put_bool(&mut out, 5, b)?;
            },
            None => {},
        }
        assert(out@ =~= self.encoding());
        Ok(out)
    }
}

/// The ping message, as this client fills it: a timestamp and the
/// integer packet statistics. The floating-point statistics of the
/// protocol's ping are never set by this client and are not held here.
pub struct Ping {
    pub timestamp: Option<u64>,
    pub good: Option<u32>,
    pub late: Option<u32>,
    pub lost: Option<u32>,
    pub resync: Option<u32>,
    pub udp_packets: Option<u32>,
    pub tcp_packets: Option<u32>,
}

impl Ping {
    /// The protobuf encoding of the message, fields in number order.
    pub open spec fn encoding(&self) -> Seq<u8> {
        opt_uint_field(1, opt_u64(self.timestamp)) + opt_uint_field(2, opt_u32(self.good))
            + opt_uint_field(3, opt_u32(self.late)) + opt_uint_field(4, opt_u32(self.lost))
            + opt_uint_field(5, opt_u32(self.resync)) + opt_uint_field(6, opt_u32(self.udp_packets))
            + opt_uint_field(7, opt_u32(self.tcp_packets))
    }

    /// The message's protobuf encoding.
    pub fn write_to_bytes(&self) -> (r: Result<Vec<u8>, protobuf::Error>)
        ensures
            r matches Ok(v) && v@ == self.encoding(),
    {
        let mut out: Vec<u8> = Vec::new();
        match self.timestamp {
            Some(t) => {
                put_uint64(&mut out, 1, t)?;
            },
            None => {},
        }
        put_opt_uint32(&mut out, 2, self.good)?;
        put_opt_uint32(&mut out, 3, self.late)?;
        put_opt_uint32(&mut out, 4, self.lost)?;
        put_opt_uint32(&mut out, 5, self.resync)?;
        put_opt_uint32(&mut out, 6, self.udp_packets)?;
        put_opt_uint32(&mut out, 7, self.tcp_packets)?;
        assert(out@ =~= self.encoding());
        Ok(out)
    }
}


/// The fields of a channel-state message that the client reads: the
/// channel's id and its name.
#[derive(Debug)]
pub struct ChannelState {
    pub channel_id: Option<u32>,
    pub name: Option<String>,
}

/// An optional string, as characters.
pub open spec fn opt_chars(s: Option<String>) -> Option<Seq<char>> {
    match s {
        Some(x) => Some(x@),
        None => None,
    }
}

/// Reads the fields of a channel-state message from `input`, starting
/// from the id and name read so far: field 1 (a `uint32` key 8) is the id,
/// field 3 (a string, key 26) the name, the last occurrence of each wins;
/// every other field the message defines is read by its declared type and
/// dropped, and a field it does not define is read as unknown. `None` when
/// a read fails.
pub open spec fn channel_fields_from(
    input: Seq<u8>,
    id: Option<u32>,
    name: Option<Seq<char>>,
) -> Option<(Option<u32>, Option<Seq<char>>)>
    decreases input.len(),
{
    match tag_read(input) {
        None => None,
        Some((None, _)) => Some((id, name)),
        Some((Some(tag), rest)) => {
            if rest.len() >= input.len() {
                None
            } else if tag == 8 {
                match uint32_read(rest) {
                    None => None,
                    Some((v, after)) => if after.len() > rest.len() {
                        None
                    } else {
                        channel_fields_from(after, Some(v), name)
                    },
                }
            } else if tag == 26 {
                match string_read(rest) {
                    None => None,
                    Some((s, after)) => if after.len() > rest.len() {
                        None
                    } else {
                        channel_fields_from(after, id, Some(s))
                    },
                }
            } else {
                match tag_reader(NetworkMessage::ChannelState, tag) {
                    Some(r) => match typed_read(r, rest) {
                        None => None,
                        Some((_, after)) => if after.len() > rest.len() {
                            None
                        } else {
                            channel_fields_from(after, id, name)
                        },
                    },
                    None => match field_skip(tag, rest) {
                        None => None,
                        Some(after) => if after.len() > rest.len() {
                            None
                        } else {
                            channel_fields_from(after, id, name)
                        },
                    },
                }
            }
        },
    }
}

/// The id and name a channel-state message carries, or `None` when the
/// bytes are not a well-formed message.
pub open spec fn channel_state_fields(data: Seq<u8>) -> Option<(Option<u32>, Option<Seq<char>>)> {
    channel_fields_from(data, None, None)
}

impl ChannelState {
    /// Decodes a channel-state message: its id and name, or the decoding
    /// error.
    pub fn parse_from_bytes(data: &[u8]) -> (r: Result<ChannelState, protobuf::Error>)
        ensures
            match r {
                Ok(cs) => channel_state_fields(data@) == Some((cs.channel_id, opt_chars(cs.name))),
                Err(_) => channel_state_fields(data@) is None,
            },
    {
        let mut is = open_input(data);
        let mut channel_id: Option<u32> = None;
        let mut name: Option<String> = None;
        loop
            invariant
                channel_fields_from(unread_bytes(is), channel_id, opt_chars(name))
                    == channel_state_fields(data@),
            decreases unread_bytes(is).len(),
        {
            let ghost before = unread_bytes(is);
            let tag: u32 = match next_tag(&mut is) {
                Err(e) => return Err(e),
                Ok(None) => {
                    return Ok(ChannelState { channel_id, name });
                },
                Ok(Some(t)) => t,
            };
            let ghost rest = unread_bytes(is);
            proof {
                lemma_varint32_read_shrinks(before);
                lemma_varint32_read_shrinks(rest);
            }
            if tag == 8 {
                match next_uint32(&mut is) {
                    Err(e) => return Err(e),
                    Ok(v) => {
                        channel_id = Some(v);
                    },
                }
            } else if tag == 26 {
                match next_string(&mut is) {
                    Err(e) => return Err(e),
                    Ok(s) => {
                        name = Some(s);
                    },
                }
            } else {
                match reader_for(NetworkMessage::ChannelState, tag) {
                    Some(r) => {
                        proof {
                            lemma_typed_read_shrinks(r, rest);
                        }
                        match read_typed(r, &mut is) {
                            Err(e) => return Err(e),
                            Ok(_) => {},
                        }
                    },
                    None => match skip_field(tag, &mut is) {
                        Err(e) => return Err(e),
                        Ok(_) => {},
                    },
                }
            }
            assert(unread_bytes(is).len() < before.len());
        }
    }
}



/// A channel-state message's id field (field 1) sets the id, whatever was
/// read before it, and leaves the name as it was.
pub proof fn lemma_channel_id_field(v: u32, rest: Seq<u8>, id: Option<u32>, name: Option<Seq<char>>)
    ensures
        channel_fields_from(uint_field(1, v as nat) + rest, id, name) == channel_fields_from(
            rest,
            Some(v),
            name,
        ),
{
    let input = uint_field(1, v as nat) + rest;
    let after_key = varint(v as nat) + rest;
    assert(input =~= varint(8u32 as nat) + after_key);
    lemma_varint32_roundtrip(8, after_key);
    lemma_varint32_roundtrip(v, rest);
    lemma_varint_nonempty(v as nat);
}

/// A channel-state message's name field (field 3) sets the name, whatever
/// was read before it, and leaves the id as it was.
pub proof fn lemma_channel_name_field(
    s: Seq<char>,
    rest: Seq<u8>,
    id: Option<u32>,
    name: Option<Seq<char>>,
)
    requires
        encode_utf8(s).len() <= u32::MAX,
    ensures
        channel_fields_from(string_field(3, s) + rest, id, name) == channel_fields_from(
            rest,
            id,
            Some(s),
        ),
{
    let b = encode_utf8(s);
    let input = string_field(3, s) + rest;
    let after_key = varint(b.len()) + b + rest;
    assert(input =~= varint(26u32 as nat) + after_key);
    lemma_varint32_roundtrip(26, after_key);
    lemma_string_roundtrip(s, rest);
    lemma_varint_nonempty(b.len());
}

/// Any field other than the id and the name that the channel-state
/// message defines, read by its declared type, leaves the id and name as
/// they were.
pub proof fn lemma_channel_other_field(
    tag: u32,
    r: Reader,
    v: FieldView,
    body: Seq<u8>,
    rest: Seq<u8>,
    id: Option<u32>,
    name: Option<Seq<char>>,
)
    requires
        tag != 8,
        tag != 26,
        tag_reader(NetworkMessage::ChannelState, tag) == Some(r),
        typed_read(r, body + rest) == Some((v, rest)),
    ensures
        channel_fields_from(varint(tag as nat) + body + rest, id, name) == channel_fields_from(
            rest,
            id,
            name,
        ),
{
    let input = varint(tag as nat) + body + rest;
    assert(input =~= varint(tag as nat) + (body + rest));
    lemma_varint32_roundtrip(tag, body + rest);
    lemma_varint_nonempty(tag as nat);
}

/// Any field the channel-state message does not define, read as unknown,
/// leaves the id and name as they were.
pub proof fn lemma_channel_unknown_field(
    tag: u32,
    body: Seq<u8>,
    rest: Seq<u8>,
    id: Option<u32>,
    name: Option<Seq<char>>,
)
    requires
        tag != 8,
        tag != 26,
        tag_reader(NetworkMessage::ChannelState, tag) is None,
        field_skip(tag, body + rest) == Some(rest),
    ensures
        channel_fields_from(varint(tag as nat) + body + rest, id, name) == channel_fields_from(
            rest,
            id,
            name,
        ),
{
    let input = varint(tag as nat) + body + rest;
    assert(input =~= varint(tag as nat) + (body + rest));
    lemma_varint32_roundtrip(tag, body + rest);
    lemma_varint_nonempty(tag as nat);
}

/// At the end of the message the id and name are those read so far.
pub proof fn lemma_channel_fields_end(id: Option<u32>, name: Option<Seq<char>>)
    ensures
        channel_fields_from(Seq::empty(), id, name) == Some((id, name)),
{
}

/// A channel-state message written with its id (field 1) and name
/// (field 3) is decoded back to that id and name.
pub proof fn lemma_channel_state_roundtrip(id: u32, name: Seq<char>)
    requires
        encode_utf8(name).len() <= u32::MAX,
    ensures
        channel_state_fields(uint_field(1, id as nat) + string_field(3, name)) == Some(
            (Some(id), Some(name)),
        ),
{
    let b = encode_utf8(name);
    let tail = field_key(3, 2) + varint(b.len()) + b;
    let input = uint_field(1, id as nat) + string_field(3, name);
    let after_key = varint(id as nat) + tail;
    assert(input =~= varint(8u32 as nat) + after_key);
    lemma_varint32_roundtrip(8, after_key);
    lemma_varint32_roundtrip(id, tail);
    let after_name = varint(b.len()) + b + Seq::<u8>::empty();
    assert(tail =~= varint(26u32 as nat) + after_name);
    lemma_varint32_roundtrip(26, after_name);
    lemma_string_roundtrip(name, Seq::<u8>::empty());
    let e = Seq::<u8>::empty();
    assert(tag_read(e) == Some((None::<u32>, e)));
    assert(channel_fields_from(e, Some(id), Some(name)) == Some((Some(id), Some(name))));
    assert(tag_read(tail) == Some((Some(26u32), after_name)));
    assert(string_read(after_name) == Some((name, e)));
    assert(channel_fields_from(tail, Some(id), None) == channel_fields_from(e, Some(id), Some(name)));
    assert(tag_read(input) == Some((Some(8u32), after_key)));
    assert(uint32_read(after_key) == Some((id, tail)));
    assert(channel_fields_from(input, None, None) == channel_fields_from(tail, Some(id), None));
}

} // verus!
