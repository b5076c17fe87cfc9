use mumble_client::frame::serialize_message;
use mumble_client::message_kind::NetworkMessage;
use mumble_client::parser::MumbleParser;
use mumble_client::receive::MessageStream;

#[test]
fn serialize_message_writes_header_and_payload() {
    let framed = serialize_message(NetworkMessage::Ping, &[1, 2, 3]);
    assert_eq!(framed, vec![0, 3, 0, 0, 0, 3, 1, 2, 3]);
}

#[test]
fn serialize_message_big_kind_and_length() {
    let payload = vec![7u8; 300];
    let framed = serialize_message(NetworkMessage::PluginDataTransmission, &payload);
    assert_eq!(&framed[..6], &[0, 26, 0, 0, 1, 44]);
    assert_eq!(&framed[6..], &payload[..]);
}

#[test]
fn serialized_message_reads_back() {
    let parser = MumbleParser::new();
    let mut stream = MessageStream::new();
    let framed = serialize_message(NetworkMessage::UserState, &[9, 8, 7]);
    let (frames, err) = parser.parse_message(&mut stream, framed);
    assert_eq!(frames, vec![(9u16, vec![9, 8, 7])]);
    assert_eq!(err, None);
    assert!(stream.is_between_messages());
}

#[test]
fn kind_numbers_roundtrip() {
    for n in 0u16..27 {
        let kind = NetworkMessage::from_u16(n).unwrap();
        assert_eq!(kind.to_u16(), n);
    }
    assert_eq!(NetworkMessage::from_u16(27), None);
    assert_eq!(NetworkMessage::from_u16(7), Some(NetworkMessage::ChannelState));
}
