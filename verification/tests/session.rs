use bytes::BytesMut;

use rustbouncer::protocol::try_parse_message;
use rustbouncer::protocol::DecodeError;
use rustbouncer::protocol::StartupKind;
use rustbouncer::session::classify_auth_code;
use rustbouncer::session::handle_client_message;
use rustbouncer::session::handle_server_message;
use rustbouncer::session::process_client_bytes;
use rustbouncer::session::process_server_bytes;
use rustbouncer::session::AuthClass;
use rustbouncer::session::AuthState;
use rustbouncer::session::Phase;

const SSL_REQUEST: [u8; 8] = [0x00, 0x00, 0x00, 0x08, 0x04, 0xD2, 0x16, 0x2F];
const CANCEL_REQUEST: [u8; 8] = [0x00, 0x00, 0x00, 0x08, 0x04, 0xD2, 0x16, 0x2E];
const AUTH_OK: [u8; 9] = [0x52, 0x00, 0x00, 0x00, 0x08, 0x00, 0x00, 0x00, 0x00];

fn startup_message(params: &[(&str, &str)]) -> Vec<u8> {
    let mut payload: Vec<u8> = vec![0x00, 0x03, 0x00, 0x00];
    for (k, v) in params {
        payload.extend_from_slice(k.as_bytes());
        payload.push(0);
        payload.extend_from_slice(v.as_bytes());
        payload.push(0);
    }
    payload.push(0);
    let mut msg = Vec::new();
    msg.extend_from_slice(&((payload.len() as u32 + 4).to_be_bytes()));
    msg.extend_from_slice(&payload);
    msg
}

#[test]
fn auth_codes_classify() {
    assert_eq!(classify_auth_code(0), AuthClass::Success);
    assert_eq!(classify_auth_code(3), AuthClass::CleartextPassword);
    assert_eq!(classify_auth_code(5), AuthClass::Md5Password);
    assert_eq!(classify_auth_code(10), AuthClass::Sasl);
    assert_eq!(classify_auth_code(11), AuthClass::SaslContinue);
    assert_eq!(classify_auth_code(12), AuthClass::SaslFinal);
    assert_eq!(classify_auth_code(42), AuthClass::Unknown);
}

#[test]
fn only_a_startup_message_advances_the_phase() {
    let mut buf = BytesMut::from(&SSL_REQUEST[..]);
    let ssl = try_parse_message(&mut buf, true).unwrap().unwrap();
    let (phase, auth) = handle_client_message(&ssl, Phase::Startup, AuthState::NotStarted);
    assert_eq!(phase, Phase::Startup);
    assert_eq!(auth, AuthState::NotStarted);

    let mut buf = BytesMut::from(&CANCEL_REQUEST[..]);
    let cancel = try_parse_message(&mut buf, true).unwrap().unwrap();
    let (phase, auth) = handle_client_message(&cancel, Phase::Startup, AuthState::NotStarted);
    assert_eq!(phase, Phase::Startup);
    assert_eq!(auth, AuthState::NotStarted);

    let wire = startup_message(&[("user", "alice")]);
    let mut buf = BytesMut::from(&wire[..]);
    let startup = try_parse_message(&mut buf, true).unwrap().unwrap();
    assert!(matches!(startup.startup_kind, Some(StartupKind::StartupMessage)));
    let (phase, auth) = handle_client_message(&startup, Phase::Startup, AuthState::NotStarted);
    assert_eq!(phase, Phase::Normal);
    assert_eq!(auth, AuthState::InProgress);
}

#[test]
fn auth_becomes_ok_only_on_sub_code_zero() {
    let mut buf = BytesMut::from(&AUTH_OK[..]);
    let ok = try_parse_message(&mut buf, false).unwrap().unwrap();
    let (auth, code) = handle_server_message(&ok, AuthState::InProgress);
    assert_eq!(auth, AuthState::Authenticated);
    assert_eq!(code, Some(0));

    // Sub-code 5 (MD5) is observed but does not change the state.
    let md5: [u8; 9] = [0x52, 0x00, 0x00, 0x00, 0x08, 0x00, 0x00, 0x00, 0x05];
    let mut buf = BytesMut::from(&md5[..]);
    let msg = try_parse_message(&mut buf, false).unwrap().unwrap();
    let (auth, code) = handle_server_message(&msg, AuthState::InProgress);
    assert_eq!(auth, AuthState::InProgress);
    assert_eq!(code, Some(5));

    // A non-authentication tag carries no code and changes nothing.
    let other: [u8; 6] = [b'Z', 0x00, 0x00, 0x00, 0x05, b'I'];
    let mut buf = BytesMut::from(&other[..]);
    let msg = try_parse_message(&mut buf, false).unwrap().unwrap();
    let (auth, code) = handle_server_message(&msg, AuthState::InProgress);
    assert_eq!(auth, AuthState::InProgress);
    assert_eq!(code, None);

    // An authentication message with fewer than four payload bytes carries
    // no readable code; the state is left alone.
    let short: [u8; 7] = [0x52, 0x00, 0x00, 0x00, 0x06, 0x00, 0x00];
    let mut buf = BytesMut::from(&short[..]);
    let msg = try_parse_message(&mut buf, false).unwrap().unwrap();
    let (auth, code) = handle_server_message(&msg, AuthState::InProgress);
    assert_eq!(auth, AuthState::InProgress);
    assert_eq!(code, None);
}

#[test]
fn client_drain_forwards_ssl_then_startup() {
    let startup = startup_message(&[("user", "alice"), ("database", "test")]);
    let mut stream = Vec::new();
    stream.extend_from_slice(&SSL_REQUEST);
    stream.extend_from_slice(&startup);
    let mut buf = BytesMut::from(&stream[..]);

    let out = process_client_bytes(&mut buf, Phase::Startup, AuthState::NotStarted).unwrap();
    assert_eq!(out.forward, stream, "forwarded bytes must be byte-identical");
    assert_eq!(out.phase, Phase::Normal);
    assert_eq!(out.auth, AuthState::InProgress);
    assert_eq!(out.kinds, vec![StartupKind::SslRequest, StartupKind::StartupMessage]);
    assert_eq!(out.startup_payload, Some(startup[4..].to_vec()));
    assert_eq!(buf.len(), 0);
}

#[test]
fn client_drain_leaves_incomplete_prefix() {
    let query: [u8; 8] = [b'Q', 0x00, 0x00, 0x00, 0x07, b'a', b'b', 0x00];
    let mut stream = Vec::new();
    stream.extend_from_slice(&query);
    stream.extend_from_slice(&query[..4]);
    let mut buf = BytesMut::from(&stream[..]);

    let out = process_client_bytes(&mut buf, Phase::Normal, AuthState::Authenticated).unwrap();
    assert_eq!(out.forward, query.to_vec());
    assert_eq!(out.phase, Phase::Normal);
    assert_eq!(out.auth, AuthState::Authenticated);
    assert!(out.kinds.is_empty());
    assert_eq!(out.startup_payload, None);
    assert_eq!(&buf[..], &query[..4]);
}

#[test]
fn client_drain_rejects_malformed_length() {
    let bad: [u8; 8] = [0x00, 0x00, 0x00, 0x04, 0x00, 0x00, 0x00, 0x00];
    let mut buf = BytesMut::from(&bad[..]);
    let r = process_client_bytes(&mut buf, Phase::Startup, AuthState::NotStarted);
    assert_eq!(r.unwrap_err(), DecodeError::BadLength);
}

#[test]
fn server_drain_observes_auth_ok() {
    // AuthenticationOk followed by a ParameterStatus-like message and an
    // incomplete prefix.
    let status: [u8; 9] = [b'S', 0x00, 0x00, 0x00, 0x08, b'a', 0x00, b'b', 0x00];
    let mut stream = Vec::new();
    stream.extend_from_slice(&AUTH_OK);
    stream.extend_from_slice(&status);
    stream.extend_from_slice(&[b'Z', 0x00]);
    let mut buf = BytesMut::from(&stream[..]);

    let out = process_server_bytes(&mut buf, AuthState::InProgress).unwrap();
    assert_eq!(out.forward, stream[..AUTH_OK.len() + status.len()].to_vec());
    assert_eq!(out.auth, AuthState::Authenticated);
    assert_eq!(out.codes, vec![0]);
    assert_eq!(&buf[..], &[b'Z', 0x00]);
}

#[test]
fn server_drain_ignores_non_zero_codes() {
    let sasl: [u8; 9] = [0x52, 0x00, 0x00, 0x00, 0x08, 0x00, 0x00, 0x00, 0x0A];
    let mut buf = BytesMut::from(&sasl[..]);
    let out = process_server_bytes(&mut buf, AuthState::InProgress).unwrap();
    assert_eq!(out.auth, AuthState::InProgress);
    assert_eq!(out.codes, vec![10]);
    assert_eq!(out.forward, sasl.to_vec());
}

#[test]
fn backend_close_scenario_state_is_local_per_direction() {
    // After the backend stream ends, the client direction keeps draining
    // independently: an empty backend buffer yields an empty drain.
    let mut server_buf = BytesMut::new();
    let out = process_server_bytes(&mut server_buf, AuthState::Authenticated).unwrap();
    assert!(out.forward.is_empty());
    assert!(out.codes.is_empty());
    assert_eq!(out.auth, AuthState::Authenticated);

    let query: [u8; 8] = [b'Q', 0x00, 0x00, 0x00, 0x07, b'a', b'b', 0x00];
    let mut client_buf = BytesMut::from(&query[..]);
    let out = process_client_bytes(&mut client_buf, Phase::Normal, AuthState::Authenticated)
        .unwrap();
    assert_eq!(out.forward, query.to_vec());
}
