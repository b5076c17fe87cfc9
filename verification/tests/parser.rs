use mumble_client::message_kind::NetworkMessage;
use mumble_client::parser::{MessageAction, MessageInfo, MumbleParser};
use mumble_client::receive::MessageStream;
use mumble_client::proto::ChannelState;
use mumble_client::schema::{decode_message, DecodedField};
use mumble_client::wire::FieldValue;

fn decodes(kind: NetworkMessage, data: &[u8]) -> bool {
    decode_message(kind, data).is_some()
}

fn field(number: u32, value: FieldValue) -> DecodedField {
    DecodedField { number, value }
}

#[test]
fn it_works() {
    let _parser = MumbleParser::new();
    assert_eq!(1 + 1, 2);
}

#[test]
fn new_parser_has_no_channels() {
    let parser = MumbleParser::new();
    assert!(parser.get_channels().is_empty());
}

#[test]
fn metadata_reads_big_endian_header() {
    let parser = MumbleParser::new();
    let header = vec![0x01, 0x02, 0x00, 0x01, 0x02, 0x03, 0xff];
    let info = parser.message_metadata(&header).unwrap();
    assert_eq!(info, MessageInfo { message_type: 0x0102, length: 0x010203 });
}

#[test]
fn metadata_rejects_short_header() {
    let parser = MumbleParser::new();
    let header = vec![1, 2];
    let err = parser.message_metadata(&header).unwrap_err();
    assert_eq!(err, "Message to short to be processed: [1, 2]");
    let err = parser.message_metadata(&vec![1, 2, 3]).unwrap_err();
    assert_eq!(err, "Message to short to be processed: [1, 2, 3]");
}

#[test]
fn parse_message_splits_frames() {
    let parser = MumbleParser::new();
    let mut stream = MessageStream::new();
    let bytes = vec![0, 7, 0, 0, 0, 2, 0xaa, 0xbb, 0, 3, 0, 0, 0, 0, 0, 1];
    let (frames, err) = parser.parse_message(&mut stream, bytes);
    assert_eq!(frames, vec![(7u16, vec![0xaa, 0xbb]), (3u16, vec![])]);
    assert_eq!(err, None);
    assert!(!stream.is_between_messages());
    let (frames, err) = parser.parse_message(&mut stream, vec![0, 0, 0, 1, 9]);
    assert_eq!(frames, vec![(1u16, vec![9])]);
    assert_eq!(err, None);
    assert!(stream.is_between_messages());
}

#[test]
fn parse_message_whole_frames_per_piece() {
    let parser = MumbleParser::new();
    let mut stream = MessageStream::new();
    let (frames, _) = parser.parse_message(&mut stream, vec![0, 11, 0, 0, 0, 3, 1, 2, 3]);
    assert_eq!(frames, vec![(11u16, vec![1, 2, 3])]);
    let (frames, _) = parser.parse_message(&mut stream, vec![]);
    assert!(frames.is_empty());
    let (frames, _) = parser.parse_message(&mut stream, vec![0, 5, 0, 0, 0, 1, 4, 0, 9, 0, 0, 0, 0]);
    assert_eq!(frames, vec![(5u16, vec![4]), (9u16, vec![])]);
    assert!(stream.is_between_messages());
}

#[test]
fn parse_message_header_split_across_three_pieces_panics_in_loop() {
    let parser = MumbleParser::new();
    let mut stream = MessageStream::new();
    assert!(parser.try_parse_message(&mut stream, vec![0]).is_some());
    assert!(parser.try_parse_message(&mut stream, vec![11]).is_none());
}

#[test]
fn parse_message_payload_piece_is_appended_whole() {
    let parser = MumbleParser::new();
    let mut stream = MessageStream::new();
    let (frames, _) = parser.parse_message(&mut stream, vec![0, 1, 0, 0, 0, 4, 1, 2]);
    assert!(frames.is_empty());
    assert!(!stream.is_between_messages());
    let (frames, _) = parser.parse_message(&mut stream, vec![3, 4, 0, 5, 0, 0, 0, 0]);
    assert_eq!(frames, vec![(1u16, vec![1, 2, 3, 4, 0, 5, 0, 0, 0, 0])]);
    assert!(stream.is_between_messages());
}

#[test]
fn channel_state_decodes_id_and_name() {
    let data = [0x08, 0x05, 0x10, 0x01, 0x1a, 0x03, b'a', b'b', b'c'];
    let cs = ChannelState::parse_from_bytes(&data).unwrap();
    assert_eq!(cs.channel_id, Some(5));
    assert_eq!(cs.name, Some("abc".to_string()));
}

#[test]
fn channel_state_last_field_wins() {
    let data = [0x08, 0x05, 0x08, 0x96, 0x01];
    let cs = ChannelState::parse_from_bytes(&data).unwrap();
    assert_eq!(cs.channel_id, Some(150));
    assert_eq!(cs.name, None);
}

#[test]
fn channel_state_rejects_truncated() {
    assert!(ChannelState::parse_from_bytes(&[0x08]).is_err());
    assert!(ChannelState::parse_from_bytes(&[0x1a, 0x05, b'a']).is_err());
}

#[test]
fn channel_state_rejects_bad_utf8() {
    assert!(ChannelState::parse_from_bytes(&[0x1a, 0x01, 0xff]).is_err());
}

#[test]
fn update_channel_cases() {
    let parser = MumbleParser::new();
    assert_eq!(parser.update_channel(ChannelState { channel_id: None, name: Some("x".to_string()) }), None);
    assert_eq!(parser.update_channel(ChannelState { channel_id: Some(1), name: None }), None);
    assert_eq!(parser.update_channel(ChannelState { channel_id: Some(1), name: Some("x".to_string()) }), Some(()));
    assert!(parser.get_channels().is_empty());
}

#[test]
fn process_message_dispatch() {
    let parser = MumbleParser::new();
    assert_eq!(parser.process_message(1, vec![1, 2]), MessageAction::UnsupportedTunnel);
    assert_eq!(parser.process_message(0, vec![]), MessageAction::Report(NetworkMessage::Version, vec![]));
    assert_eq!(parser.process_message(11, vec![]), MessageAction::Malformed(NetworkMessage::TextMessage));
    assert_eq!(parser.process_message(11, vec![0x2a, 0x02, b'h', b'i']), MessageAction::Report(NetworkMessage::TextMessage, vec![field(5, FieldValue::Text("hi".to_string()))]));
    assert_eq!(parser.process_message(3, vec![]), MessageAction::Unhandled(3));
    assert_eq!(parser.process_message(100, vec![]), MessageAction::Unhandled(100));
    assert_eq!(parser.process_message(7, vec![0x08, 0x02, 0x1a, 0x01, b'r']), MessageAction::ChannelUpdate(true));
    assert_eq!(parser.process_message(7, vec![0x08, 0x02]), MessageAction::ChannelUpdate(false));
    assert_eq!(parser.process_message(7, vec![0x08]), MessageAction::Malformed(NetworkMessage::ChannelState));
}

#[test]
fn channel_state_varint_limits() {
    let cs = ChannelState::parse_from_bytes(&[0x08, 0xff, 0xff, 0xff, 0xff, 0x0f]).unwrap();
    assert_eq!(cs.channel_id, Some(u32::MAX));
    assert!(ChannelState::parse_from_bytes(&[0x08, 0xff, 0xff, 0xff, 0xff, 0x10]).is_err());
}

#[test]
fn channel_state_skips_other_wire_types() {
    // fixed64 field 4, fixed32 field 5, bytes field 6, then the id
    let data = [
        0x21, 1, 2, 3, 4, 5, 6, 7, 8, 0x2d, 1, 2, 3, 4, 0x32, 2, 9, 9, 0x08, 0x03,
    ];
    let cs = ChannelState::parse_from_bytes(&data).unwrap();
    assert_eq!(cs.channel_id, Some(3));
    // wire type 7 does not exist
    assert!(ChannelState::parse_from_bytes(&[0x0f, 0x00]).is_err());
}

#[test]
fn empty_channel_state_has_no_fields() {
    let cs = ChannelState::parse_from_bytes(&[]).unwrap();
    assert_eq!(cs.channel_id, None);
    assert_eq!(cs.name, None);
}

#[test]
fn process_message_reports_malformed_payload() {
    let parser = MumbleParser::new();
    assert_eq!(parser.process_message(0, vec![0x08]), MessageAction::Malformed(NetworkMessage::Version));
    assert_eq!(parser.process_message(0, vec![0x08, 0x01, 0x12, 0x01, b'x']), MessageAction::Report(NetworkMessage::Version, vec![field(1, FieldValue::UInt32(1)), field(2, FieldValue::Text("x".to_string()))]));
    assert_eq!(parser.process_message(8, vec![0x00]), MessageAction::Malformed(NetworkMessage::UserRemove));
}

#[test]
fn reported_kinds_decode_by_their_fields() {
    // an unknown field of any wire type is read and dropped
    assert!(decodes(NetworkMessage::Version, &[]));
    assert!(decodes(NetworkMessage::Version, &[0x08, 0x96, 0x01, 0x12, 0x02, b'h', b'i']));
    assert!(decodes(NetworkMessage::Version, &[0x2a, 0x01, 0xff]));
    // the release string must be UTF-8
    assert!(!decodes(NetworkMessage::Version, &[0x12, 0x01, 0xff]));
    assert!(!decodes(NetworkMessage::Version, &[0x12, 0x05, b'h']));
    assert!(!decodes(NetworkMessage::Version, &[0x0e]));
    // a 32-bit field may not run past 32 bits
    assert!(!decodes(NetworkMessage::Version, &[0x08, 0xff, 0xff, 0xff, 0xff, 0x10]));
    assert!(decodes(NetworkMessage::Version, &[0x08, 0xff, 0xff, 0xff, 0xff, 0x0f]));
    // a known field number with another wire type is an unknown field
    assert!(decodes(NetworkMessage::Version, &[0x0d, 1, 2, 3, 4]));
    // required fields
    assert!(!decodes(NetworkMessage::TextMessage, &[0x08, 0x01]));
    assert!(decodes(NetworkMessage::TextMessage, &[0x2a, 0x00]));
    assert!(!decodes(NetworkMessage::UserRemove, &[0x1a, 0x00]));
    assert!(decodes(NetworkMessage::UserRemove, &[0x08, 0x07]));
    assert!(!decodes(NetworkMessage::CodecVersion, &[0x08, 0x01, 0x10, 0x02]));
    assert!(decodes(NetworkMessage::CodecVersion, &[0x08, 0x01, 0x10, 0x02, 0x18, 0x01]));
    // packed and unpacked repeated ids
    assert!(decodes(NetworkMessage::TextMessage, &[0x10, 0x01, 0x12, 0x02, 0x03, 0x04, 0x2a, 0x00]));
    assert!(!decodes(NetworkMessage::TextMessage, &[0x12, 0x01, 0x80, 0x2a, 0x00]));
    // a 64-bit field takes values past 32 bits
    assert!(decodes(NetworkMessage::ServerSync, &[0x20, 0xff, 0xff, 0xff, 0xff, 0xff, 0x01]));
    assert!(!decodes(NetworkMessage::ServerSync, &[0x08, 0xff, 0xff, 0xff, 0xff, 0xff, 0x01]));
}

#[test]
fn process_message_follows_each_kind() {
    let parser = MumbleParser::new();
    assert_eq!(parser.process_message(0, vec![0x12, 0x01, 0xff]), MessageAction::Malformed(NetworkMessage::Version));
    assert_eq!(parser.process_message(0, vec![0x12, 0x01, b'x']), MessageAction::Report(NetworkMessage::Version, vec![field(2, FieldValue::Text("x".to_string()))]));
    assert_eq!(parser.process_message(21, vec![0x08, 0x01]), MessageAction::Malformed(NetworkMessage::CodecVersion));
    assert_eq!(parser.process_message(8, vec![0x08, 0x05]), MessageAction::Report(NetworkMessage::UserRemove, vec![field(1, FieldValue::UInt32(5))]));
}

#[test]
fn channel_state_checks_every_field_type() {
    // an invalid UTF-8 description
    assert!(ChannelState::parse_from_bytes(&[0x08, 0x01, 0x2a, 0x01, 0xff]).is_err());
    assert!(ChannelState::parse_from_bytes(&[0x08, 0x01, 0x2a, 0x01, b'd']).is_ok());
    // a parent id wider than 32 bits
    assert!(ChannelState::parse_from_bytes(&[0x10, 0xff, 0xff, 0xff, 0xff, 0x1f]).is_err());
    assert!(ChannelState::parse_from_bytes(&[0x10, 0x05, 0x08, 0x01]).is_ok());
    let parser = MumbleParser::new();
    assert_eq!(parser.process_message(7, vec![0x08, 0x01, 0x1a, 0x01, b'a', 0x2a, 0x01, 0xff]), MessageAction::Malformed(NetworkMessage::ChannelState));
}

#[test]
fn decode_message_keeps_field_values() {
    // unknown fields are dropped, known ones kept in the order read
    let text = decode_message(
        NetworkMessage::TextMessage,
        &[0x08, 0x07, 0x38, 0x01, 0x10, 0x02, 0x12, 0x03, 0x03, 0x80, 0x01, 0x2a, 0x01, b'm'],
    )
    .unwrap();
    assert_eq!(
        text,
        vec![
            field(1, FieldValue::UInt32(7)),
            field(2, FieldValue::UInt32(2)),
            field(2, FieldValue::UInt32List(vec![3, 128])),
            field(5, FieldValue::Text("m".to_string())),
        ]
    );
    let codec = decode_message(
        NetworkMessage::CodecVersion,
        &[0x08, 0xff, 0xff, 0xff, 0xff, 0xff, 0xff, 0xff, 0xff, 0xff, 0x01, 0x10, 0x05, 0x18, 0x00, 0x20, 0x02],
    )
    .unwrap();
    assert_eq!(
        codec,
        vec![
            field(1, FieldValue::Int32(-1)),
            field(2, FieldValue::Int32(5)),
            field(3, FieldValue::Bool(false)),
            field(4, FieldValue::Bool(true)),
        ]
    );
    let crypt = decode_message(NetworkMessage::CryptSetup, &[0x0a, 0x02, 0xaa, 0xbb]).unwrap();
    assert_eq!(crypt, vec![field(1, FieldValue::Bytes(vec![0xaa, 0xbb]))]);
    let sync = decode_message(NetworkMessage::ServerSync, &[0x20, 0x80, 0x80, 0x80, 0x80, 0x10]).unwrap();
    assert_eq!(sync, vec![field(4, FieldValue::UInt64(1 << 32))]);
    // an int32 out of range
    assert!(decode_message(NetworkMessage::CodecVersion, &[0x08, 0x80, 0x80, 0x80, 0x80, 0x08, 0x10, 0x00, 0x18, 0x00]).is_none());
}
