use mumble_client::outgoing::{
    auth_frame_fits, ping_timestamp, write_auth, write_ping, write_ping_at, write_ping_for,
    write_version,
};
use std::time::{Duration, SystemTime, UNIX_EPOCH};
use mumble_client::proto::{Authenticate, Ping, Version};
use mumble_client::message_kind::NetworkMessage;
use mumble_client::schema::{decode_message, DecodedField};
use mumble_client::wire::FieldValue;

#[test]
fn version_message_bytes() {
    let v = write_version().unwrap();
    let mut expected = vec![0u8, 0, 0, 0, 0, 46, 0x08, 0x80, 0x8c, 0x04, 0x12, 30];
    expected.extend_from_slice(b"Mumble Rust without scroll bug");
    expected.extend_from_slice(&[0x1a, 4]);
    expected.extend_from_slice(b"Rust");
    expected.extend_from_slice(&[0x22, 2]);
    expected.extend_from_slice(b"11");
    assert_eq!(v, expected);
}

#[test]
fn auth_message_bytes() {
    let v = write_auth("Endor".to_string()).unwrap();
    let mut expected = vec![0u8, 2, 0, 0, 0, 31, 0x0a, 5];
    expected.extend_from_slice(b"Endor");
    expected.extend_from_slice(&[0x20, 0x8b, 0x80, 0x80, 0x80, 0xf8, 0xff, 0xff, 0xff, 0xff, 0x01]);
    expected.extend_from_slice(&[0x20, 0x90, 0x80, 0x80, 0x80, 0xf8, 0xff, 0xff, 0xff, 0xff, 0x01]);
    expected.extend_from_slice(&[0x28, 0x01]);
    assert_eq!(v, expected);
}

#[test]
fn ping_message_bytes() {
    assert_eq!(write_ping_at(5).unwrap(), vec![0, 2, 0, 0, 0, 2, 0x08, 0x05]);
    assert_eq!(write_ping_at(300).unwrap(), vec![0, 2, 0, 0, 0, 3, 0x08, 0xac, 0x02]);
}

#[test]
fn ping_uses_clock() {
    let v = write_ping().unwrap();
    assert_eq!(&v[..2], &[0, 2]);
    assert_eq!(v[6], 0x08);
    assert!(v.len() > 8);
}

#[test]
fn version_struct_encoding() {
    let v = Version { version: Some(1), release: None, os: Some("é".to_string()), os_version: None };
    assert_eq!(v.write_to_bytes().unwrap(), vec![0x08, 0x01, 0x1a, 0x02, 0xc3, 0xa9]);
    let empty = Version { version: None, release: None, os: None, os_version: None };
    assert!(empty.write_to_bytes().unwrap().is_empty());
}

#[test]
fn auth_struct_encoding() {
    let a = Authenticate {
        username: None,
        password: Some("pw".to_string()),
        tokens: vec!["t1".to_string(), "t2".to_string()],
        celt_versions: vec![3],
        opus: Some(false),
    };
    assert_eq!(
        a.write_to_bytes().unwrap(),
        vec![0x12, 2, b'p', b'w', 0x1a, 2, b't', b'1', 0x1a, 2, b't', b'2', 0x20, 3, 0x28, 0]
    );
}

#[test]
fn ping_struct_encoding() {
    let p = Ping {
        timestamp: None,
        good: Some(1),
        late: None,
        lost: Some(2),
        resync: None,
        udp_packets: None,
        tcp_packets: Some(128),
    };
    assert_eq!(p.write_to_bytes().unwrap(), vec![0x10, 1, 0x20, 2, 0x38, 0x80, 0x01]);
}

#[test]
fn ping_timestamp_before_epoch_is_zero() {
    assert_eq!(ping_timestamp(UNIX_EPOCH.duration_since(SystemTime::now())), 0);
    assert_eq!(ping_timestamp(Ok(Duration::from_secs(42))), 42);
}

#[test]
fn auth_length_and_fit() {
    let name = "x".repeat(200);
    let v = write_auth(name.clone()).unwrap();
    assert_eq!(v.len(), 31 + 2 + 200);
    assert!(auth_frame_fits(&name));
    assert!(auth_frame_fits(&String::new()));
    assert_ne!(write_auth("a".to_string()).unwrap(), write_auth("b".to_string()).unwrap());
}

#[test]
fn sent_messages_decode_back() {
    let v = write_auth("Endor".to_string()).unwrap();
    let fields = decode_message(NetworkMessage::Authenticate, &v[6..]).unwrap();
    assert_eq!(
        fields,
        vec![
            DecodedField { number: 1, value: FieldValue::Text("Endor".to_string()) },
            DecodedField { number: 4, value: FieldValue::Int32(-2147483637) },
            DecodedField { number: 4, value: FieldValue::Int32(-2147483632) },
            DecodedField { number: 5, value: FieldValue::Bool(true) },
        ]
    );
    let v = write_version().unwrap();
    let fields = decode_message(NetworkMessage::Version, &v[6..]).unwrap();
    assert_eq!(
        fields,
        vec![
            DecodedField { number: 1, value: FieldValue::UInt32(0x10600) },
            DecodedField { number: 2, value: FieldValue::Text("Mumble Rust without scroll bug".to_string()) },
            DecodedField { number: 3, value: FieldValue::Text("Rust".to_string()) },
            DecodedField { number: 4, value: FieldValue::Text("11".to_string()) },
        ]
    );
    // packed CELT versions
    let packed = decode_message(NetworkMessage::Authenticate, &[0x22, 0x02, 0x05, 0x06]).unwrap();
    assert_eq!(packed, vec![DecodedField { number: 4, value: FieldValue::Int32List(vec![5, 6]) }]);
}

#[test]
fn ping_for_clock_reading() {
    let one_second = UNIX_EPOCH + Duration::from_secs(1);
    assert_eq!(write_ping_for(&one_second).unwrap(), vec![0, 2, 0, 0, 0, 2, 0x08, 0x01]);
    let later = UNIX_EPOCH + Duration::from_millis(300_900);
    assert_eq!(write_ping_for(&later).unwrap(), vec![0, 2, 0, 0, 0, 3, 0x08, 0xac, 0x02]);
    let before = UNIX_EPOCH - Duration::from_secs(5);
    assert_eq!(write_ping_for(&before).unwrap(), vec![0, 2, 0, 0, 0, 2, 0x08, 0x00]);
}
