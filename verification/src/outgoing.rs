//! The messages the client sends to the server, framed for the TCP
//! channel: its version, its authentication and its ping.

use vstd::prelude::*;
use std::time::{Duration, SystemTime, SystemTimeError, UNIX_EPOCH};
use crate::frame::{frame_bytes, serialize_message, METADATA_SIZE};
use crate::message_kind::NetworkMessage;
use crate::proto::{Authenticate, Ping, Version};
use crate::schema::{decoded_fields, lemma_decode_field};
use crate::wire::{
    lemma_int32_roundtrip, lemma_varint64_roundtrip, lemma_varint32_roundtrip, FieldView, Reader,
    lemma_string_roundtrip, bool_field, int32_field, string_field, uint_field, lemma_utf8_len, lemma_varint_len_bounds,
    varint, int32_wire_value,
};
use vstd::utf8::encode_utf8;

verus! {

/// A point in time as the system clock reports it, carried through
/// unopened.
#[verifier::external_type_specification]
#[verifier::external_body]
pub struct ExSystemTime(SystemTime);

/// The error of a clock reading that lies before the given instant.
#[verifier::external_type_specification]
#[verifier::external_body]
pub struct ExSystemTimeError(SystemTimeError);

/// `SystemTime::now`: the current time of the system clock. Nothing is
/// stated of it.
#[verifier::external_body]
fn clock_now() -> SystemTime {
    SystemTime::now()
}

/// How long after the Unix epoch the time `t` lies, or the error for a
/// time before it, as `SystemTime::duration_since` gives them.
pub uninterp spec fn duration_since_epoch(t: SystemTime) -> Result<Duration, SystemTimeError>;

/// `SystemTime::duration_since` with the Unix epoch: how long after the
/// epoch `t` lies, or an error when it lies before. The time is opaque
/// here, so the result is named.
#[verifier::external_body]
fn since_unix_epoch(t: &SystemTime) -> (r: Result<Duration, SystemTimeError>)
    ensures
        r == duration_since_epoch(*t),
{
    t.duration_since(UNIX_EPOCH)
}

/// The whole seconds of a duration, as `Duration::as_secs` gives them.
pub uninterp spec fn duration_whole_seconds(d: Duration) -> u64;

/// `Duration::as_secs`: the whole seconds of a duration. The duration is
/// opaque here, so its seconds are named.
#[verifier::external_body]
fn whole_seconds(d: &Duration) -> (s: u64)
    ensures
        s == duration_whole_seconds(*d),
{
    d.as_secs()
}

/// The protocol version this client announces: 1.6.0, as
/// `major << 16 | minor << 8 | patch`.
pub open spec fn client_protocol_version() -> u32 {
    0x10600
}

/// The encoded version message this client sends.
pub open spec fn version_message_bytes() -> Seq<u8> {
    uint_field(1, client_protocol_version() as nat) + string_field(
        2,
        "Mumble Rust without scroll bug"@,
    ) + string_field(3, "Rust"@) + string_field(4, "11"@)
}

/// The CELT codec versions this client announces.
pub open spec fn client_celt_versions() -> Seq<i32> {
    seq![-2147483637i32, -2147483632i32]
}

/// The encoded authentication message this client sends for a user name.
pub open spec fn auth_message_bytes(username: Seq<char>) -> Seq<u8> {
    string_field(1, username) + int32_field(4, -2147483637i32) + int32_field(4, -2147483632i32)
        + bool_field(5, true)
}

/// The encoded ping message this client sends for a timestamp.
pub open spec fn ping_message_bytes(timestamp: u64) -> Seq<u8> {
    uint_field(1, timestamp as nat)
}

/// The framed version message: version 1.6.0, the release name, the
/// operating system and its version.
pub fn write_version() -> (r: Result<Vec<u8>, ()>)
    ensures
        r matches Ok(v) && v@ == frame_bytes(NetworkMessage::Version.number(), version_message_bytes()),
{
    assert((1u32 << 16u32) | (6u32 << 8u32) == 0x10600u32) by (bit_vector);
    let version = Version {
        version: Some((1u32 << 16u32) | (6u32 << 8u32)),
        release: Some("Mumble Rust without scroll bug".to_owned()),
        os: Some("Rust".to_owned()),
        os_version: Some("11".to_owned()),
    };
    proof {
        reveal_strlit("Mumble Rust without scroll bug");
        reveal_strlit("Rust");
        reveal_strlit("11");
        lemma_utf8_len("Mumble Rust without scroll bug"@);
        lemma_utf8_len("Rust"@);
        lemma_utf8_len("11"@);
    }
    match version.write_to_bytes() {
        Ok(data) => {
            proof {
                assert(data@ == version_message_bytes());
                lemma_varint_len_bounds(client_protocol_version() as nat);
                lemma_varint_len_bounds(encode_utf8("Mumble Rust without scroll bug"@).len());
                lemma_varint_len_bounds(encode_utf8("Rust"@).len());
                lemma_varint_len_bounds(encode_utf8("11"@).len());
            }
            Ok(serialize_message(NetworkMessage::Version, data.as_slice()))
        },
        Err(_) => Err(()),
    }
}


/// The framed authentication message for `username`: no password and no
/// tokens, the two CELT versions the client supports, and Opus support.
pub fn write_auth(username: String) -> (r: Result<Vec<u8>, ()>)
    requires
        auth_message_bytes(username@).len() + METADATA_SIZE <= u32::MAX,
    ensures
        r matches Ok(v) && v@ == frame_bytes(
            NetworkMessage::Authenticate.number(),
            auth_message_bytes(username@),
        ),
{
    let ghost name = username@;
    proof {
        lemma_auth_message_len(name);
    }
    let auth = Authenticate {
        opus: Some(true),
        celt_versions: vec![-2147483637i32, -2147483632i32],
        password: None,
        tokens: Vec::new(),
        username: Some(username),
    };
    match auth.write_to_bytes() {
        Ok(data) => {
            proof {
                assert(auth.tokens@ =~= Seq::<String>::empty());
                let c = auth.celt_versions@;
                assert(c =~= client_celt_versions());
                assert(c.drop_last().drop_last() =~= Seq::<i32>::empty());
                assert(c.drop_last() =~= seq![-2147483637i32]);
                reveal_with_fuel(crate::proto::repeated_int32_field, 3);
                assert(crate::proto::repeated_int32_field(4, c) =~= int32_field(4, -2147483637i32)
                    + int32_field(4, -2147483632i32));
                assert(data@ =~= auth_message_bytes(name));
            }
            Ok(serialize_message(NetworkMessage::Authenticate, data.as_slice()))
        },
        Err(_) => Err(()),
    }
}

/// The framed ping message for a timestamp in seconds since the Unix
/// epoch. The frame carries the authentication kind number, not the ping
/// kind number.
pub fn write_ping_at(timestamp: u64) -> (r: Result<Vec<u8>, ()>)
    ensures
        r matches Ok(v) && v@ == frame_bytes(
            NetworkMessage::Authenticate.number(),
            ping_message_bytes(timestamp),
        ),
{
    let ping = Ping {
        timestamp: Some(timestamp),
        good: None,
        late: None,
        lost: None,
        resync: None,
        udp_packets: None,
        tcp_packets: None,
    };
    match ping.write_to_bytes() {
        Ok(data) => {
            proof {
                assert(data@ =~= ping_message_bytes(timestamp));
                lemma_varint_len_bounds(timestamp as nat);
            }
            Ok(serialize_message(NetworkMessage::Authenticate, data.as_slice()))
        },
        Err(_) => Err(()),
    }
}

/// The whole seconds of a clock reading after the Unix epoch, or zero for
/// a reading before it.
pub open spec fn ping_seconds(elapsed: Result<Duration, SystemTimeError>) -> u64 {
    match elapsed {
        Ok(d) => duration_whole_seconds(d),
        Err(_) => 0,
    }
}

/// The ping timestamp for how long after the Unix epoch the clock reads:
/// the whole seconds, or zero when the clock reads before the epoch.
pub fn ping_timestamp(elapsed: Result<Duration, SystemTimeError>) -> (secs: u64)
    ensures
        secs == ping_seconds(elapsed),
{
    match elapsed {
        Ok(d) => whole_seconds(&d),
        Err(_) => 0,
    }
}

/// The framed ping message for the clock reading `now`: stamped with the
/// whole seconds since the Unix epoch, or zero when `now` lies before it.
pub fn write_ping_for(now: &SystemTime) -> (r: Result<Vec<u8>, ()>)
    ensures
        r matches Ok(v) && v@ == frame_bytes(
            NetworkMessage::Authenticate.number(),
            ping_message_bytes(ping_seconds(duration_since_epoch(*now))),
        ),
{
    let elapsed = since_unix_epoch(now);
    let since_the_epoch: u64 = ping_timestamp(elapsed);
    write_ping_at(since_the_epoch)
}

/// The framed ping message stamped with the current time of the system
/// clock, in whole seconds since the Unix epoch (zero when the clock reads
/// earlier than the epoch). Which timestamp that is depends on the clock.
pub fn write_ping() -> (r: Result<Vec<u8>, ()>)
    ensures
        exists|now: SystemTime|
            r matches Ok(v) && v@ == frame_bytes(
                NetworkMessage::Authenticate.number(),
                #[trigger] ping_message_bytes(ping_seconds(duration_since_epoch(now))),
            ),
{
    let start = clock_now();
    write_ping_for(&start)
}


/// The encoded authentication message for a name whose UTF-8 form takes
/// `L` bytes takes `25 + L` bytes and the varint of `L`: the name field's
/// key, length and bytes, two ten-byte CELT versions with their keys, and
/// the Opus flag with its key.
pub proof fn lemma_auth_message_len(username: Seq<char>)
    ensures
        auth_message_bytes(username).len() == 25 + varint(encode_utf8(username).len()).len()
            + encode_utf8(username).len(),
{
    reveal_with_fuel(varint, 11);
    assert(varint(int32_wire_value(-2147483637i32)).len() == 10);
    assert(varint(int32_wire_value(-2147483632i32)).len() == 10);
}

/// Different names give different authentication messages.
pub proof fn lemma_auth_message_injective(u1: Seq<char>, u2: Seq<char>)
    requires
        encode_utf8(u1).len() <= u32::MAX,
        encode_utf8(u2).len() <= u32::MAX,
        auth_message_bytes(u1) == auth_message_bytes(u2),
    ensures
        u1 == u2,
{
    let tail = int32_field(4, -2147483637i32) + int32_field(4, -2147483632i32) + bool_field(5, true);
    let b1 = auth_message_bytes(u1);
    let b2 = auth_message_bytes(u2);
    let body1 = varint(encode_utf8(u1).len()) + encode_utf8(u1) + tail;
    let body2 = varint(encode_utf8(u2).len()) + encode_utf8(u2) + tail;
    assert(b1 =~= seq![10u8] + body1);
    assert(b2 =~= seq![10u8] + body2);
    assert(body1 =~= b1.subrange(1, b1.len() as int));
    assert(body2 =~= b2.subrange(1, b2.len() as int));
    lemma_string_roundtrip(u1, tail);
    lemma_string_roundtrip(u2, tail);
}

/// The version message the client writes decodes, as the protocol's
/// version message, to the client's protocol version, release name,
/// operating system and its version, in that order.
pub proof fn lemma_version_message_decodes()
    ensures
        decoded_fields(NetworkMessage::Version, version_message_bytes()) == Some(
            seq![
                (1u32, FieldView::UInt32(client_protocol_version())),
                (2u32, FieldView::Text("Mumble Rust without scroll bug"@)),
                (3u32, FieldView::Text("Rust"@)),
                (4u32, FieldView::Text("11"@)),
            ],
        ),
{
    let kind = NetworkMessage::Version;
    let e = Seq::<u8>::empty();
    let release = "Mumble Rust without scroll bug"@;
    let os = "Rust"@;
    let os_version = "11"@;
    reveal_strlit("Mumble Rust without scroll bug");
    reveal_strlit("Rust");
    reveal_strlit("11");
    lemma_utf8_len(release);
    lemma_utf8_len(os);
    lemma_utf8_len(os_version);
    let b_release = varint(encode_utf8(release).len()) + encode_utf8(release);
    let b_os = varint(encode_utf8(os).len()) + encode_utf8(os);
    let b_os_version = varint(encode_utf8(os_version).len()) + encode_utf8(os_version);
    let b_version = varint(client_protocol_version() as nat);
    let r3 = varint(34) + b_os_version + e;
    let r2 = varint(26) + b_os + r3;
    let r1 = varint(18) + b_release + r2;
    assert(version_message_bytes() =~= varint(8) + b_version + r1);
    lemma_string_roundtrip(os_version, e);
    assert(b_os_version + e =~= b_os_version);
    lemma_decode_field(kind, 34, Reader::Text, FieldView::Text(os_version), b_os_version, e);
    lemma_string_roundtrip(os, r3);
    assert(b_os + r3 =~= varint(encode_utf8(os).len()) + encode_utf8(os) + r3);
    lemma_decode_field(kind, 26, Reader::Text, FieldView::Text(os), b_os, r3);
    lemma_string_roundtrip(release, r2);
    assert(b_release + r2 =~= varint(encode_utf8(release).len()) + encode_utf8(release) + r2);
    lemma_decode_field(kind, 18, Reader::Text, FieldView::Text(release), b_release, r2);
    lemma_varint32_roundtrip(client_protocol_version(), r1);
    lemma_decode_field(
        kind,
        8,
        Reader::Varint32,
        FieldView::UInt32(client_protocol_version()),
        b_version,
        r1,
    );
    assert(decoded_fields(kind, e) == Some(Seq::<(u32, FieldView)>::empty()));
    assert(decoded_fields(kind, version_message_bytes()).unwrap() =~= seq![
        (1u32, FieldView::UInt32(client_protocol_version())),
        (2u32, FieldView::Text(release)),
        (3u32, FieldView::Text(os)),
        (4u32, FieldView::Text(os_version)),
    ]);
}

/// The authentication message written for a name decodes, as the
/// protocol's authentication message, to that name, the two CELT
/// versions and the Opus flag, in that order, and to no password and no
/// tokens.
pub proof fn lemma_auth_message_decodes(username: Seq<char>)
    requires
        encode_utf8(username).len() <= u32::MAX,
    ensures
        decoded_fields(NetworkMessage::Authenticate, auth_message_bytes(username)) == Some(
            seq![
                (1u32, FieldView::Text(username)),
                (4u32, FieldView::Int32(-2147483637i32)),
                (4u32, FieldView::Int32(-2147483632i32)),
                (5u32, FieldView::Bool(true)),
            ],
        ),
{
    let kind = NetworkMessage::Authenticate;
    let e = Seq::<u8>::empty();
    let name = varint(encode_utf8(username).len()) + encode_utf8(username);
    let celt1 = varint(int32_wire_value(-2147483637i32));
    let celt2 = varint(int32_wire_value(-2147483632i32));
    let opus = varint(1);
    let r3 = varint(40) + opus + e;
    let r2 = varint(32) + celt2 + r3;
    let r1 = varint(32) + celt1 + r2;
    assert(auth_message_bytes(username) =~= varint(10) + name + r1);
    lemma_varint64_roundtrip(1, e);
    assert(opus + e =~= opus);
    lemma_decode_field(kind, 40, Reader::Bool, FieldView::Bool(true), opus, e);
    lemma_int32_roundtrip(-2147483632i32, r3);
    lemma_decode_field(kind, 32, Reader::Int32, FieldView::Int32(-2147483632i32), celt2, r3);
    lemma_int32_roundtrip(-2147483637i32, r2);
    lemma_decode_field(kind, 32, Reader::Int32, FieldView::Int32(-2147483637i32), celt1, r2);
    lemma_string_roundtrip(username, r1);
    assert(name + r1 =~= varint(encode_utf8(username).len()) + encode_utf8(username) + r1);
    lemma_decode_field(kind, 10, Reader::Text, FieldView::Text(username), name, r1);
    assert(decoded_fields(kind, e) == Some(Seq::<(u32, FieldView)>::empty()));
    assert(decoded_fields(kind, auth_message_bytes(username)).unwrap() =~= seq![
        (1u32, FieldView::Text(username)),
        (4u32, FieldView::Int32(-2147483637i32)),
        (4u32, FieldView::Int32(-2147483632i32)),
        (5u32, FieldView::Bool(true)),
    ]);
}

/// Whether `write_auth` can frame a message for this name: the encoded
/// message and its header fit the header's 32-bit length.
pub fn auth_frame_fits(username: &String) -> (r: bool)
    ensures
        r == (auth_message_bytes(username@).len() + METADATA_SIZE <= u32::MAX),
{
    let n: usize = username.as_str().as_bytes().len();
    proof {
        lemma_auth_message_len(username@);
    }
    let limit: u64 = 0xffff_ffff;
    if n as u64 > limit {
        proof {
            assert(auth_message_bytes(username@).len() >= n);
        }
        return false;
    }
    let k: u64 = varint_len(n as u64);
    (n as u64) + k + 25 + 6 <= limit
}

/// The number of bytes of the varint of `v`.
fn varint_len(v: u64) -> (k: u64)
    ensures
        k == varint(v as nat).len(),
        k <= 10,
{
    let mut rest: u64 = v;
    let mut k: u64 = 1;
    proof {
        lemma_varint_len_bounds(v as nat);
    }
    while rest >= 128
        invariant
            1 <= k <= 10,
            k + varint(rest as nat).len() - 1 == varint(v as nat).len(),
            varint(v as nat).len() <= 10,
        decreases rest,
    {
        proof {
            crate::wire::lemma_varint_nonempty((rest / 128) as nat);
        }
        rest = rest / 128;
        k = k + 1;
    }
    k
}

} // verus!
