use bytes::BytesMut;

use rustbouncer::protocol::parse_startup_params;
use rustbouncer::protocol::serialize_message;
use rustbouncer::protocol::try_parse_message;
use rustbouncer::protocol::DecodeError;
use rustbouncer::protocol::PgMessage;
use rustbouncer::protocol::StartupKind;

const SSL_REQUEST: [u8; 8] = [0x00, 0x00, 0x00, 0x08, 0x04, 0xD2, 0x16, 0x2F];
const CANCEL_REQUEST: [u8; 8] = [0x00, 0x00, 0x00, 0x08, 0x04, 0xD2, 0x16, 0x2E];
const AUTH_OK: [u8; 9] = [0x52, 0x00, 0x00, 0x00, 0x08, 0x00, 0x00, 0x00, 0x00];

fn startup_message(params: &[(&str, &str)]) -> Vec<u8> {
    let mut payload: Vec<u8> = vec![0x00, 0x03, 0x00, 0x00];
    for (k, v) in params {
        payload.extend_from_slice(k.as_bytes());
        payload.push(0);
        payload.extend_from_slice(v.as_bytes());
        payload.push(0);
    }
    payload.push(0);
    let mut msg = Vec::new();
    msg.extend_from_slice(&((payload.len() as u32 + 4).to_be_bytes()));
    msg.extend_from_slice(&payload);
    msg
}

#[test]
fn ssl_request_decodes() {
    let mut buf = BytesMut::from(&SSL_REQUEST[..]);
    let msg = try_parse_message(&mut buf, true).unwrap().unwrap();
    assert_eq!(msg.tag, None);
    assert!(matches!(msg.startup_kind, Some(StartupKind::SslRequest)));
    assert_eq!(&msg.payload[..], &SSL_REQUEST[4..]);
    assert_eq!(buf.len(), 0);
    assert_eq!(serialize_message(&msg), SSL_REQUEST.to_vec());
}

#[test]
fn cancel_request_decodes() {
    let mut buf = BytesMut::from(&CANCEL_REQUEST[..]);
    let msg = try_parse_message(&mut buf, true).unwrap().unwrap();
    assert!(matches!(msg.startup_kind, Some(StartupKind::CancelRequest)));
    assert_eq!(serialize_message(&msg), CANCEL_REQUEST.to_vec());
}

#[test]
fn tagged_message_round_trips() {
    let mut buf = BytesMut::from(&AUTH_OK[..]);
    let msg = try_parse_message(&mut buf, false).unwrap().unwrap();
    assert_eq!(msg.tag, Some(b'R'));
    assert_eq!(&msg.payload[..], &[0, 0, 0, 0]);
    assert_eq!(msg.startup_kind, None);
    assert_eq!(buf.len(), 0);
    assert_eq!(serialize_message(&msg), AUTH_OK.to_vec());
}

#[test]
fn partial_reads_yield_nothing_then_one_message() {
    for split in 1..AUTH_OK.len() {
        let mut buf = BytesMut::from(&AUTH_OK[..split]);
        assert!(try_parse_message(&mut buf, false).unwrap().is_none());
        assert_eq!(&buf[..], &AUTH_OK[..split], "incomplete input must not be consumed");
        buf.extend_from_slice(&AUTH_OK[split..]);
        let msg = try_parse_message(&mut buf, false).unwrap().unwrap();
        assert_eq!(msg.tag, Some(b'R'));
        assert_eq!(&msg.payload[..], &[0, 0, 0, 0]);
        assert_eq!(buf.len(), 0);
    }
}

#[test]
fn partial_startup_reads_yield_nothing() {
    for split in 1..SSL_REQUEST.len() {
        let mut buf = BytesMut::from(&SSL_REQUEST[..split]);
        assert!(try_parse_message(&mut buf, true).unwrap().is_none());
        assert_eq!(&buf[..], &SSL_REQUEST[..split]);
    }
}

#[test]
fn two_messages_in_one_read_come_out_in_order() {
    let query: [u8; 8] = [b'Q', 0x00, 0x00, 0x00, 0x07, b'a', b'b', 0x00];
    let mut stream = Vec::new();
    stream.extend_from_slice(&AUTH_OK);
    stream.extend_from_slice(&query);
    stream.extend_from_slice(&query[..3]); // incomplete prefix of a third
    let mut buf = BytesMut::from(&stream[..]);

    let first = try_parse_message(&mut buf, false).unwrap().unwrap();
    assert_eq!(first.tag, Some(b'R'));
    let second = try_parse_message(&mut buf, false).unwrap().unwrap();
    assert_eq!(second.tag, Some(b'Q'));
    assert_eq!(&second.payload[..], &query[5..]);
    assert!(try_parse_message(&mut buf, false).unwrap().is_none());
    assert_eq!(&buf[..], &query[..3]);
}

#[test]
fn tagged_bad_length_is_an_error() {
    let bad: [u8; 6] = [b'X', 0x00, 0x00, 0x00, 0x03, 0x00];
    let mut buf = BytesMut::from(&bad[..]);
    assert_eq!(try_parse_message(&mut buf, false).unwrap_err(), DecodeError::BadLength);
    assert_eq!(&buf[..], &bad[..]);
}

#[test]
fn startup_bad_length_is_an_error() {
    let bad: [u8; 8] = [0x00, 0x00, 0x00, 0x07, 0x00, 0x00, 0x00, 0x00];
    let mut buf = BytesMut::from(&bad[..]);
    assert_eq!(try_parse_message(&mut buf, true).unwrap_err(), DecodeError::BadLength);
    assert_eq!(&buf[..], &bad[..]);
}

#[test]
fn startup_params_parse_in_order() {
    let msg = startup_message(&[("user", "alice"), ("database", "test")]);
    let payload = BytesMut::from(&msg[4..]);
    let params = parse_startup_params(&payload).unwrap();
    assert_eq!(params.len(), 2);
    assert_eq!(params[0].0, b"user".to_vec());
    assert_eq!(params[0].1, b"alice".to_vec());
    assert_eq!(params[1].0, b"database".to_vec());
    assert_eq!(params[1].1, b"test".to_vec());
}

#[test]
fn startup_params_empty_list() {
    // Version followed immediately by the terminator byte.
    let payload = BytesMut::from(&[0x00, 0x03, 0x00, 0x00, 0x00][..]);
    let params = parse_startup_params(&payload).unwrap();
    assert!(params.is_empty());
}

#[test]
fn startup_params_missing_terminator_is_rejected() {
    // Version only: the terminating zero byte is absent.
    let payload = BytesMut::from(&[0x00, 0x03, 0x00, 0x00][..]);
    assert!(parse_startup_params(&payload).is_none());

    // A key whose value never ends.
    let payload = BytesMut::from(&b"\x00\x03\x00\x00user\x00alice"[..]);
    assert!(parse_startup_params(&payload).is_none());

    // A key that never ends.
    let payload = BytesMut::from(&b"\x00\x03\x00\x00user"[..]);
    assert!(parse_startup_params(&payload).is_none());
}

#[test]
fn serialize_rebuilds_framing_not_just_payload() {
    let msg = PgMessage {
        tag: Some(b'S'),
        payload: BytesMut::from(&b"key\x00value\x00"[..]),
        startup_kind: None,
    };
    let wire = serialize_message(&msg);
    assert_eq!(wire[0], b'S');
    assert_eq!(&wire[1..5], &(10u32 + 4).to_be_bytes());
    assert_eq!(&wire[5..], &b"key\x00value\x00"[..]);
}
