use std::collections::VecDeque;

use openssl::base64;
use openssl::hash::MessageDigest;
use openssl::pkey::PKey;
use openssl::sign::Signer;

use pgbb::pg::conn::{
    ConnectError, ConnectFailure, Connection, Connector, Handshake, HandshakePhase, HandshakeStep,
    RxBuf, JSON_OID, OID_OID, TEXT_OID,
};
use pgbb::pg::decode::{DbError, DbErrorField, Error};
use pgbb::pg::encode::NZStr;
use pgbb::pg::md5::md5_password;

fn frame(ident: u8, body: &[u8]) -> Vec<u8> {
    let mut out = vec![ident];
    out.extend_from_slice(&((body.len() + 4) as i32).to_be_bytes());
    out.extend_from_slice(body);
    out
}

fn nz(b: &[u8]) -> NZStr<'_> {
    NZStr::from_bytes(b).unwrap()
}

fn auth(code: i32, data: &[u8]) -> Vec<u8> {
    let mut body = code.to_be_bytes().to_vec();
    body.extend_from_slice(data);
    frame(b'R', &body)
}

fn sent(conn: &mut Connection) -> Vec<u8> {
    conn.take_tx().into_iter().collect()
}

fn error(code: &[u8]) -> Vec<u8> {
    let mut body = b"SFATAL\0C".to_vec();
    body.extend_from_slice(code);
    body.extend_from_slice(b"\0Mfailed\0\0");
    frame(b'E', &body)
}

/// Feeds `bytes` to the exchange and steps until it asks for I/O or ends.
fn feed(hs: &mut Handshake, rx: &mut RxBuf, conn: &mut Connection, bytes: &[u8]) -> HandshakeStep {
    rx.extend(bytes);
    loop {
        match hs.step(rx, conn) {
            HandshakeStep::Continue => continue,
            other => return other,
        }
    }
}

fn connector() -> Connector {
    Connector::new().with(nz(b"database"), nz(b"db")).with_credentials(nz(b"bob"), b"pw")
}

#[test]
fn oids() {
    assert_eq!((TEXT_OID, OID_OID, JSON_OID), (25, 26, 114));
}

#[test]
fn connector_settings() {
    let c = Connector::new();
    assert_eq!(c.host(), "127.0.0.1");
    assert_eq!(c.port(), 5432);
    assert_eq!(c.password(), b"");
    assert_eq!(c.user(), None);
    let c = c.with_addr("db.example", 6543).with(nz(b"a"), nz(b"1"));
    let c = c.with_credentials(nz(b"alice"), b"secret");
    let c = c.with_credentials(nz(b"carol"), b"other");
    assert_eq!(c.host(), "db.example");
    assert_eq!(c.port(), 6543);
    assert_eq!(c.password(), b"other");
    assert_eq!(c.user(), Some(&b"alice"[..]));
    let opts: Vec<(Vec<u8>, Vec<u8>)> = c
        .startup_options()
        .iter()
        .map(|(k, v)| (k.as_bytes().to_vec(), v.as_bytes().to_vec()))
        .collect();
    assert_eq!(
        opts,
        vec![
            (b"a".to_vec(), b"1".to_vec()),
            (b"user".to_vec(), b"alice".to_vec()),
            (b"user".to_vec(), b"carol".to_vec()),
        ]
    );
    let d = c.duplicate();
    assert_eq!(d.user(), Some(&b"alice"[..]));
    assert_eq!(d.host(), "db.example");
}

fn db_error(code: &[u8]) -> DbError {
    DbError { fields: vec![(DbErrorField(b'C'), code.to_vec())] }
}

#[test]
fn connect_error_classification() {
    let e = ConnectError::new(ConnectFailure::Db(db_error(b"28P01")));
    assert!(e.is_bad_credentials());
    assert!(!e.is_authorized());
    assert!(e.as_dberror().is_some());
    let e = e.into_authorized();
    assert!(e.is_authorized());
    let e = ConnectError::new(ConnectFailure::Db(db_error(b"3D000")));
    assert!(!e.is_bad_credentials());
    let e = ConnectError::new(ConnectFailure::UnexpectedMessage);
    assert!(!e.is_bad_credentials());
    assert!(e.as_dberror().is_none());
    assert_eq!(e.inner.message(), b"unexpected message received".to_vec());
    assert_eq!(ConnectFailure::Protocol(Error::MessageTooBig).message(), b"MessageTooBig".to_vec());
    assert_eq!(ConnectFailure::Io(b"refused".to_vec()).message(), b"refused".to_vec());
}

#[test]
fn connection_sends() {
    let mut c = Connection::new();
    c.send_parse(nz(b""), &[], nz(b"SELECT 1"));
    c.send_describe_stmt(nz(b""));
    c.send_bind(nz(b""), &[]);
    c.send_execute();
    c.send_close_portal();
    c.send_copy_fail();
    c.send_flush();
    c.send_sync();
    let mut expected = frame(b'P', b"\0SELECT 1\0\0\0");
    expected.extend(frame(b'D', b"S\0"));
    expected.extend(frame(b'B', b"\0\0\0\0\0\0\0\0"));
    expected.extend(frame(b'E', b"\0\0\0\0\0"));
    expected.extend(frame(b'C', b"P\0"));
    expected.extend(frame(b'f', b"COPY FROM STDIN not supported\0"));
    expected.extend(frame(b'H', b""));
    expected.extend(frame(b'S', b""));
    assert_eq!(c.tx_len(), expected.len());
    assert_eq!(sent(&mut c), expected);
    assert_eq!(c.tx_len(), 0);
    c.send_bind_bin(nz(b"s"), &[Some(b"{}")]);
    let mut body = b"\0s\0\0\x01\0\x01\0\x01".to_vec();
    body.extend_from_slice(&2i32.to_be_bytes());
    body.extend_from_slice(b"{}\0\x01\0\x01");
    assert_eq!(sent(&mut c), frame(b'B', &body));
}

#[test]
fn untake_puts_unsent_bytes_first() {
    let mut c = Connection::new();
    c.send_sync();
    let mut out = c.take_tx();
    out.pop_front();
    c.send_flush();
    c.untake_tx(out);
    let mut expected = b"\0\0\0\x04".to_vec();
    expected.extend(frame(b'H', b""));
    assert_eq!(sent(&mut c), expected);
}

#[test]
fn terminate_only_when_idle() {
    let mut c = Connection::new();
    assert!(c.send_terminate_if_idle());
    assert_eq!(sent(&mut c), frame(b'X', b""));
    c.send_sync();
    assert!(!c.send_terminate_if_idle());
    assert_eq!(sent(&mut c), frame(b'S', b""));
}

#[test]
fn rxbuf_peek_consume() {
    let mut rx = RxBuf::new();
    assert!(rx.is_drained());
    let msg = frame(b'Z', b"I");
    rx.extend(&msg[..3]);
    assert!(rx.is_drained());
    assert!(matches!(rx.peek(), Ok(None)));
    rx.extend(&msg[3..]);
    rx.extend(&frame(b'1', b""));
    assert!(!rx.is_drained());
    let n = match rx.peek() {
        Ok(Some((n, pgbb::pg::decode::BackendMessage::ReadyForQuery { .. }))) => n,
        _ => panic!("ReadyForQuery expected"),
    };
    rx.consume(n);
    assert_eq!(rx.pending(), frame(b'1', b"").as_slice());
    rx.compact();
    assert_eq!(rx.pending(), frame(b'1', b"").as_slice());
    rx.consume(5);
    assert!(rx.is_drained());
}

#[test]
fn handshake_trusted() {
    let mut conn = Connection::new();
    let mut rx = RxBuf::new();
    let mut hs = Handshake::start(&connector(), &mut conn).ok().unwrap();
    let startup = sent(&mut conn);
    assert!(startup.windows(9).any(|w| w == b"user\0bob\0"));
    assert!(matches!(feed(&mut hs, &mut rx, &mut conn, &auth(0, b"")), HandshakeStep::Io));
    let mut rest = frame(b'S', b"TimeZone\0UTC\0");
    rest.extend(frame(b'K', &[0, 0, 0, 42, 1, 2, 3, 4]));
    rest.extend(frame(b'Z', b"I"));
    assert!(matches!(feed(&mut hs, &mut rx, &mut conn, &rest), HandshakeStep::Ready));
    assert!(sent(&mut conn).is_empty());
    let cancel: Vec<u8> = conn.cancel_request().unwrap().into_iter().collect();
    let mut expected = 16u32.to_be_bytes().to_vec();
    expected.extend_from_slice(&[0x04, 0xd2, 0x16, 0x2e, 0, 0, 0, 42, 1, 2, 3, 4]);
    assert_eq!(cancel, expected);
}

#[test]
fn handshake_cleartext_password() {
    let mut conn = Connection::new();
    let mut rx = RxBuf::new();
    let mut hs = Handshake::start(&connector(), &mut conn).ok().unwrap();
    sent(&mut conn);
    assert!(matches!(feed(&mut hs, &mut rx, &mut conn, &auth(3, b"")), HandshakeStep::Io));
    assert_eq!(sent(&mut conn), frame(b'p', b"pw\0"));
    let mut rest = auth(0, b"");
    rest.extend(frame(b'Z', b"I"));
    assert!(matches!(feed(&mut hs, &mut rx, &mut conn, &rest), HandshakeStep::Ready));
    assert!(conn.cancel_request().is_none());
}

#[test]
fn handshake_md5_password() {
    let mut conn = Connection::new();
    let mut rx = RxBuf::new();
    let mut hs = Handshake::start(&connector(), &mut conn).ok().unwrap();
    sent(&mut conn);
    feed(&mut hs, &mut rx, &mut conn, &auth(5, &[1, 2, 3, 4]));
    let mut expected = md5_password(b"bob", b"pw", &[1, 2, 3, 4]).to_vec();
    expected.push(0);
    assert_eq!(sent(&mut conn), frame(b'p', &expected));
}

#[test]
fn handshake_password_with_zero_byte() {
    let mut conn = Connection::new();
    let mut rx = RxBuf::new();
    let ctor = Connector::new().with_credentials(nz(b"bob"), b"p\0w");
    let mut hs = Handshake::start(&ctor, &mut conn).ok().unwrap();
    match feed(&mut hs, &mut rx, &mut conn, &auth(3, b"")) {
        HandshakeStep::Failed(e) => {
            assert!(matches!(e.inner, ConnectFailure::InvalidPassword));
            assert_eq!(e.inner.message(), b"invalid password".to_vec());
        }
        _ => panic!("failure expected"),
    }
}

#[test]
fn handshake_refused_credentials() {
    let mut conn = Connection::new();
    let mut rx = RxBuf::new();
    let mut hs = Handshake::start(&connector(), &mut conn).ok().unwrap();
    feed(&mut hs, &mut rx, &mut conn, &auth(3, b""));
    match feed(&mut hs, &mut rx, &mut conn, &error(b"28P01")) {
        HandshakeStep::Failed(e) => {
            assert!(e.is_bad_credentials());
            assert!(!e.is_authorized());
        }
        _ => panic!("failure expected"),
    }
}

#[test]
fn handshake_error_after_authorization() {
    let mut conn = Connection::new();
    let mut rx = RxBuf::new();
    let mut hs = Handshake::start(&connector(), &mut conn).ok().unwrap();
    let mut msgs = auth(0, b"");
    msgs.extend(error(b"3D000"));
    match feed(&mut hs, &mut rx, &mut conn, &msgs) {
        HandshakeStep::Failed(e) => {
            assert!(e.is_authorized());
            assert_eq!(e.as_dberror().unwrap().code(), b"3D000");
        }
        _ => panic!("failure expected"),
    }
}

#[test]
fn handshake_unsupported_and_unexpected() {
    let mut conn = Connection::new();
    let mut rx = RxBuf::new();
    let mut hs = Handshake::start(&connector(), &mut conn).ok().unwrap();
    match feed(&mut hs, &mut rx, &mut conn, &auth(7, b"")) {
        HandshakeStep::Failed(e) => assert!(matches!(e.inner, ConnectFailure::UnsupportedAuthentication)),
        _ => panic!("failure expected"),
    }
    let mut conn = Connection::new();
    let mut rx = RxBuf::new();
    let mut hs = Handshake::start(&connector(), &mut conn).ok().unwrap();
    match feed(&mut hs, &mut rx, &mut conn, &frame(b'Z', b"I")) {
        HandshakeStep::Failed(e) => {
            assert!(matches!(e.inner, ConnectFailure::UnexpectedMessage));
            assert!(!e.is_authorized());
        }
        _ => panic!("failure expected"),
    }
    let mut conn = Connection::new();
    let mut rx = RxBuf::new();
    let mut hs = Handshake::start(&connector(), &mut conn).ok().unwrap();
    let mut msgs = auth(0, b"");
    msgs.extend(frame(b'1', b""));
    match feed(&mut hs, &mut rx, &mut conn, &msgs) {
        HandshakeStep::Failed(e) => {
            assert!(matches!(e.inner, ConnectFailure::UnexpectedMessage));
            assert!(e.is_authorized());
        }
        _ => panic!("failure expected"),
    }
}

#[test]
fn handshake_password_phase_expects_ok() {
    let mut conn = Connection::new();
    let mut rx = RxBuf::new();
    let mut hs = Handshake::start(&connector(), &mut conn).ok().unwrap();
    let mut msgs = auth(3, b"");
    msgs.extend(frame(b'Z', b"I"));
    match feed(&mut hs, &mut rx, &mut conn, &msgs) {
        HandshakeStep::Failed(e) => {
            assert!(matches!(e.inner, ConnectFailure::AuthenticationOkExpected));
            assert_eq!(e.inner.message(), b"AuthenticationOk expected".to_vec());
        }
        _ => panic!("failure expected"),
    }
}

#[test]
fn handshake_malformed_message() {
    let mut conn = Connection::new();
    let mut rx = RxBuf::new();
    let mut hs = Handshake::start(&connector(), &mut conn).ok().unwrap();
    match feed(&mut hs, &mut rx, &mut conn, b"R\0\0\0\x02") {
        HandshakeStep::Failed(e) => {
            assert!(matches!(e.inner, ConnectFailure::Protocol(Error::InvalidMessageLength)));
        }
        _ => panic!("failure expected"),
    }
}

fn hmac(key: &[u8], data: &[u8]) -> Vec<u8> {
    let pkey = PKey::hmac(key).unwrap();
    let mut signer = Signer::new(MessageDigest::sha256(), &pkey).unwrap();
    signer.update(data).unwrap();
    signer.sign_to_vec().unwrap()
}

#[test]
fn handshake_scram_sha256() {
    let mut conn = Connection::new();
    let mut rx = RxBuf::new();
    let mut hs = Handshake::start(&connector(), &mut conn).ok().unwrap();
    sent(&mut conn);
    feed(&mut hs, &mut rx, &mut conn, &auth(10, b"SCRAM-SHA-256\0\0"));
    assert!(matches!(hs.current_phase(), HandshakePhase::SaslContinue));
    let first = sent(&mut conn);
    let prefix = b"p";
    assert_eq!(&first[..1], prefix);
    let mech_end = 5 + b"SCRAM-SHA-256\0".len();
    assert_eq!(&first[5..mech_end], b"SCRAM-SHA-256\0");
    let client_first = &first[mech_end + 4..];
    assert_eq!(&client_first[..8], b"n,,n=,r=");
    let c_nonce = client_first[8..].to_vec();
    assert_eq!(c_nonce.len(), 24);

    let salt = b"0123456789abcdef";
    let iters = 4096;
    let mut server_first = b"r=".to_vec();
    server_first.extend_from_slice(&c_nonce);
    server_first.extend_from_slice(b"SRV");
    server_first.extend_from_slice(b",s=");
    server_first.extend_from_slice(base64::encode_block(salt).as_bytes());
    server_first.extend_from_slice(b",i=4096");
    feed(&mut hs, &mut rx, &mut conn, &auth(11, &server_first));
    assert!(matches!(hs.current_phase(), HandshakePhase::SaslFinal));
    let final_msg = sent(&mut conn);
    let client_final = &final_msg[5..];

    let mut salted = [0u8; 32];
    openssl::pkcs5::pbkdf2_hmac(b"pw", salt, iters, MessageDigest::sha256(), &mut salted).unwrap();
    let client_key = hmac(&salted, b"Client Key");
    let stored_key = openssl::sha::sha256(&client_key);
    let mut no_proof = b"c=biws,r=".to_vec();
    no_proof.extend_from_slice(&c_nonce);
    no_proof.extend_from_slice(b"SRV");
    let mut auth_msg = b"n=,r=".to_vec();
    auth_msg.extend_from_slice(&c_nonce);
    auth_msg.push(b',');
    auth_msg.extend_from_slice(&server_first);
    auth_msg.push(b',');
    auth_msg.extend_from_slice(&no_proof);
    let client_sig = hmac(&stored_key, &auth_msg);
    let proof: Vec<u8> = client_key.iter().zip(&client_sig).map(|(a, b)| a ^ b).collect();
    let mut expected = no_proof.clone();
    expected.extend_from_slice(b",p=");
    expected.extend_from_slice(base64::encode_block(&proof).as_bytes());
    assert_eq!(client_final, expected.as_slice());

    let server_key = hmac(&salted, b"Server Key");
    let server_sig = hmac(&server_key, &auth_msg);
    let mut server_final = b"v=".to_vec();
    server_final.extend_from_slice(base64::encode_block(&server_sig).as_bytes());
    let mut msgs = auth(12, &server_final);
    msgs.extend(auth(0, b""));
    msgs.extend(frame(b'Z', b"I"));
    assert!(matches!(feed(&mut hs, &mut rx, &mut conn, &msgs), HandshakeStep::Ready));
}

#[test]
fn handshake_scram_rejects_forged_signature() {
    let mut conn = Connection::new();
    let mut rx = RxBuf::new();
    let mut hs = Handshake::start(&connector(), &mut conn).ok().unwrap();
    sent(&mut conn);
    feed(&mut hs, &mut rx, &mut conn, &auth(10, b"SCRAM-SHA-256\0\0"));
    let first = sent(&mut conn);
    let c_nonce = first[first.len() - 24..].to_vec();
    let mut server_first = b"r=".to_vec();
    server_first.extend_from_slice(&c_nonce);
    server_first.extend_from_slice(b"x,s=c2FsdA==,i=1");
    feed(&mut hs, &mut rx, &mut conn, &auth(11, &server_first));
    let forged = format!("v={}", base64::encode_block(&[7u8; 32]));
    match feed(&mut hs, &mut rx, &mut conn, &auth(12, forged.as_bytes())) {
        HandshakeStep::Failed(e) => {
            assert_eq!(e.inner.message(), b"server signature does not match".to_vec());
        }
        _ => panic!("failure expected"),
    }
}

#[test]
fn handshake_scram_bad_nonce_and_wrong_message() {
    let mut conn = Connection::new();
    let mut rx = RxBuf::new();
    let mut hs = Handshake::start(&connector(), &mut conn).ok().unwrap();
    feed(&mut hs, &mut rx, &mut conn, &auth(10, b"SCRAM-SHA-256\0\0"));
    match feed(&mut hs, &mut rx, &mut conn, &auth(11, b"r=zzz,s=c2FsdA==,i=1")) {
        HandshakeStep::Failed(e) => assert_eq!(e.inner.message(), b"bad nonce".to_vec()),
        _ => panic!("failure expected"),
    }
    let mut conn = Connection::new();
    let mut rx = RxBuf::new();
    let mut hs = Handshake::start(&connector(), &mut conn).ok().unwrap();
    feed(&mut hs, &mut rx, &mut conn, &auth(10, b"SCRAM-SHA-256\0\0"));
    match feed(&mut hs, &mut rx, &mut conn, &auth(0, b"")) {
        HandshakeStep::Failed(e) => {
            assert_eq!(e.inner.message(), b"AuthenticationSASLContinue expected".to_vec());
        }
        _ => panic!("failure expected"),
    }
}

#[test]
fn handshake_io_failure_authorized_only_in_startup() {
    let mut conn = Connection::new();
    let mut rx = RxBuf::new();
    let mut hs = Handshake::start(&connector(), &mut conn).ok().unwrap();
    let early = hs.io_failed(b"reset".to_vec());
    assert!(!early.is_authorized());
    assert!(matches!(early.into_failure(), ConnectFailure::Io(t) if t == b"reset".to_vec()));
    assert!(matches!(feed(&mut hs, &mut rx, &mut conn, &auth(3, b"")), HandshakeStep::Io));
    assert!(!hs.io_failed(b"eof".to_vec()).is_authorized());
    assert!(matches!(feed(&mut hs, &mut rx, &mut conn, &auth(0, b"")), HandshakeStep::Io));
    assert!(matches!(hs.current_phase(), HandshakePhase::Startup));
    assert!(hs.io_failed(b"eof".to_vec()).is_authorized());
}
