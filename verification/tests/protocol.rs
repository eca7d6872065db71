use std::collections::VecDeque;

use pgbb::pg::decode::{parse_message, BackendMessage, DbError, DbErrorField, Error};
use pgbb::pg::encode::{
    write_bind, write_cancel_req, write_close_portal, write_copy_fail, write_describe_stmt,
    write_execute, write_flush, write_parse, write_password, write_sasl_initial_resp,
    write_sasl_resp, write_startup, write_sync, write_terminate, ContainsZeroError, NZStr,
};

fn frame(ident: u8, body: &[u8]) -> Vec<u8> {
    let mut out = vec![ident];
    out.extend_from_slice(&((body.len() + 4) as i32).to_be_bytes());
    out.extend_from_slice(body);
    out
}

fn nz(b: &[u8]) -> NZStr<'_> {
    NZStr::from_bytes(b).unwrap()
}

fn bytes(q: &VecDeque<u8>) -> Vec<u8> {
    q.iter().copied().collect()
}

#[test]
fn nzstr_rejects_zero() {
    assert!(NZStr::from_bytes(b"abc").is_some());
    assert!(NZStr::from_bytes(b"a\0c").is_none());
    assert!(NZStr::from_bytes(b"").is_some());
    assert_eq!(NZStr::try_from(b"x\0").err(), Some(ContainsZeroError));
    assert_eq!(NZStr::try_from(b"xy").unwrap().as_bytes(), b"xy");
}

#[test]
fn bare_messages() {
    let mut q = VecDeque::new();
    write_flush(&mut q);
    write_sync(&mut q);
    write_terminate(&mut q);
    assert_eq!(bytes(&q), b"H\0\0\0\x04S\0\0\0\x04X\0\0\0\x04".to_vec());
}

#[test]
fn startup_message() {
    let mut q = VecDeque::new();
    write_startup(&mut q, &[(nz(b"user"), nz(b"bob"))]);
    let mut expected = vec![0, 0, 0, 0, 0, 3, 0, 0];
    expected.extend_from_slice(b"user\0bob\0\0");
    let len = expected.len() as u32;
    expected[..4].copy_from_slice(&len.to_be_bytes());
    assert_eq!(bytes(&q), expected);
}

#[test]
fn password_message() {
    let mut q = VecDeque::new();
    write_password(&mut q, nz(b"secret"));
    assert_eq!(bytes(&q), frame(b'p', b"secret\0"));
}

#[test]
fn sasl_messages() {
    let mut q = VecDeque::new();
    write_sasl_initial_resp(&mut q, nz(b"SCRAM-SHA-256"), Some(b"n,,n=,r=abc"));
    let mut body = b"SCRAM-SHA-256\0".to_vec();
    body.extend_from_slice(&11i32.to_be_bytes());
    body.extend_from_slice(b"n,,n=,r=abc");
    assert_eq!(bytes(&q), frame(b'p', &body));

    let mut q = VecDeque::new();
    write_sasl_initial_resp(&mut q, nz(b"X"), None);
    assert_eq!(bytes(&q), frame(b'p', b"X\0\xff\xff\xff\xff"));

    let mut q = VecDeque::new();
    write_sasl_resp(&mut q, b"c=biws");
    assert_eq!(bytes(&q), frame(b'p', b"c=biws"));
}

#[test]
fn parse_describe_execute_close() {
    let mut q = VecDeque::new();
    write_parse(&mut q, nz(b"s1"), &[25, 114], nz(b"SELECT $1, $2"));
    let mut body = b"s1\0SELECT $1, $2\0\0\x02".to_vec();
    body.extend_from_slice(&25u32.to_be_bytes());
    body.extend_from_slice(&114u32.to_be_bytes());
    assert_eq!(bytes(&q), frame(b'P', &body));

    let mut q = VecDeque::new();
    write_describe_stmt(&mut q, nz(b"s1"));
    write_execute(&mut q, nz(b""), 7);
    write_close_portal(&mut q, nz(b""));
    let mut expected = frame(b'D', b"Ss1\0");
    expected.extend(frame(b'E', b"\0\0\0\0\x07"));
    expected.extend(frame(b'C', b"P\0"));
    assert_eq!(bytes(&q), expected);
}

#[test]
fn bind_message() {
    let mut q = VecDeque::new();
    let params: [Option<&[u8]>; 2] = [Some(b"42"), None];
    write_bind(&mut q, nz(b"st"), nz(b"po"), &[1], &[0, 1], &params);
    let mut body = b"po\0st\0".to_vec();
    body.extend_from_slice(&[0, 2, 0, 0, 0, 1]);
    body.extend_from_slice(&[0, 2]);
    body.extend_from_slice(&2i32.to_be_bytes());
    body.extend_from_slice(b"42");
    body.extend_from_slice(&(-1i32).to_be_bytes());
    body.extend_from_slice(&[0, 1, 0, 1]);
    assert_eq!(bytes(&q), frame(b'B', &body));
}

#[test]
fn copy_fail_and_cancel() {
    let mut q = VecDeque::new();
    write_copy_fail(&mut q, nz(b"nope"));
    assert_eq!(bytes(&q), frame(b'f', b"nope\0"));

    let mut q = VecDeque::new();
    write_cancel_req(&mut q, 77, &[1, 2, 3, 4]);
    let mut expected = 16u32.to_be_bytes().to_vec();
    expected.extend_from_slice(&[0x04, 0xd2, 0x16, 0x2e]);
    expected.extend_from_slice(&77i32.to_be_bytes());
    expected.extend_from_slice(&[1, 2, 3, 4]);
    assert_eq!(bytes(&q), expected);
}

#[test]
fn parse_ready_for_query() {
    let buf = frame(b'Z', b"I");
    match parse_message(&buf) {
        Ok(Some((6, BackendMessage::ReadyForQuery { txn_status: b'I' }))) => {}
        _ => panic!("ReadyForQuery expected"),
    }
}

#[test]
fn parse_incomplete_and_framing_errors() {
    let buf = frame(b'Z', b"I");
    for k in 0..buf.len() {
        assert!(matches!(parse_message(&buf[..k]), Ok(None)));
    }
    assert!(matches!(parse_message(b"Z\0\0\0\x03"), Err(Error::InvalidMessageLength)));
    assert!(matches!(parse_message(b"Z\x7f\0\0\0"), Err(Error::MessageTooBig)));
    assert!(matches!(parse_message(&frame(b'!', b"")), Err(Error::UnknownMessage)));
    assert!(matches!(parse_message(&frame(b'Z', b"")), Err(Error::UnexpectedEndOfMessage)));
    assert!(matches!(parse_message(&frame(b'Z', b"II")), Err(Error::UnexpectedTrailingData)));
}

#[test]
fn parse_takes_only_the_first_message() {
    let mut buf = frame(b'1', b"");
    buf.extend(frame(b'2', b""));
    match parse_message(&buf) {
        Ok(Some((5, BackendMessage::ParseComplete))) => {}
        _ => panic!("ParseComplete expected"),
    }
    match parse_message(&buf[5..]) {
        Ok(Some((5, BackendMessage::BindComplete))) => {}
        _ => panic!("BindComplete expected"),
    }
}

#[test]
fn parse_data_row() {
    let mut body = vec![0, 3];
    body.extend_from_slice(&1i32.to_be_bytes());
    body.extend_from_slice(b"a");
    body.extend_from_slice(&(-1i32).to_be_bytes());
    body.extend_from_slice(&0i32.to_be_bytes());
    let buf = frame(b'D', &body);
    match parse_message(&buf) {
        Ok(Some((_, BackendMessage::DataRow(row)))) => {
            let vals = row.values_vec();
            assert_eq!(vals, vec![Some(&b"a"[..]), None, Some(&b""[..])]);
            let mut r = row;
            assert_eq!(r.next(), Some(Some(&b"a"[..])));
            assert_eq!(r.next(), Some(None));
            assert_eq!(r.next(), Some(Some(&b""[..])));
            assert_eq!(r.next(), None);
        }
        _ => panic!("DataRow expected"),
    }
    let mut bad = vec![0, 1];
    bad.extend_from_slice(&(-2i32).to_be_bytes());
    assert!(matches!(parse_message(&frame(b'D', &bad)), Err(Error::InvalidDatumLength)));
}

#[test]
fn parse_error_response() {
    let buf = frame(b'E', b"SERROR\0VERROR\0C28P01\0Mpassword authentication failed\0\0");
    match parse_message(&buf) {
        Ok(Some((_, BackendMessage::ErrorResponse(e)))) => {
            assert_eq!(e.code(), b"28P01");
            assert_eq!(e.get(b'M'), Some(&b"password authentication failed"[..]));
            assert_eq!(e.get(b'D'), None);
            assert_eq!(e.fields.len(), 4);
            assert_eq!(e.display(), b"ERROR#28P01 \"password authentication failed\"".to_vec());
        }
        _ => panic!("ErrorResponse expected"),
    }
}

#[test]
fn dberror_without_code_and_field_names() {
    let e = DbError { fields: vec![(DbErrorField(b'M'), b"x".to_vec())] };
    assert_eq!(e.code(), b"");
    assert_eq!(DbErrorField(b'C').name(), b"code".to_vec());
    assert_eq!(DbErrorField(b'W').name(), b"context".to_vec());
    assert_eq!(DbErrorField(b'?').name(), b"field_3f".to_vec());
    let owned = e.clone().into_owned();
    assert!(owned.fields == e.fields);
}

#[test]
fn dberror_display_escapes() {
    let e = DbError {
        fields: vec![
            (DbErrorField(b'V'), b"NOTICE".to_vec()),
            (DbErrorField(b'M'), b"a\"b\n\xff".to_vec()),
        ],
    };
    assert_eq!(e.display(), b"NOTICE# \"a\\\"b\\n\\xff\"".to_vec());
}

#[test]
fn parse_command_complete_and_empty_query() {
    match parse_message(&frame(b'C', b"SELECT 1\0")) {
        Ok(Some((_, BackendMessage::CommandComplete { tag }))) => assert_eq!(tag, b"SELECT 1"),
        _ => panic!("CommandComplete expected"),
    }
    match parse_message(&frame(b'I', b"")) {
        Ok(Some((_, BackendMessage::EmptyQueryResponse { tag }))) => assert_eq!(tag, b"EMPTY QUERY"),
        _ => panic!("EmptyQueryResponse expected"),
    }
}

#[test]
fn parse_authentication_requests() {
    match parse_message(&frame(b'R', &[0, 0, 0, 5, 1, 2, 3, 4])) {
        Ok(Some((_, BackendMessage::AuthenticationMD5Password { salt }))) => assert_eq!(salt, [1, 2, 3, 4]),
        _ => panic!("AuthenticationMD5Password expected"),
    }
    match parse_message(&frame(b'R', b"\0\0\0\x0aSCRAM-SHA-256\0SCRAM-SHA-256-PLUS\0\0")) {
        Ok(Some((_, BackendMessage::AuthenticationSASL(mechs)))) => {
            assert_eq!(mechs, vec![&b"SCRAM-SHA-256"[..], &b"SCRAM-SHA-256-PLUS"[..]]);
        }
        _ => panic!("AuthenticationSASL expected"),
    }
    match parse_message(&frame(b'R', b"\0\0\0\x0br=abc")) {
        Ok(Some((_, BackendMessage::AuthenticationSASLContinue(d)))) => assert_eq!(d, b"r=abc"),
        _ => panic!("AuthenticationSASLContinue expected"),
    }
    assert!(matches!(parse_message(&frame(b'R', &[0, 0, 0, 99])), Err(Error::UnknownMessage)));
}

#[test]
fn parse_row_description() {
    let mut body = vec![0, 1];
    body.extend_from_slice(b"id\0");
    body.extend_from_slice(&16384u32.to_be_bytes());
    body.extend_from_slice(&1i16.to_be_bytes());
    body.extend_from_slice(&23u32.to_be_bytes());
    body.extend_from_slice(&4i16.to_be_bytes());
    body.extend_from_slice(&(-1i32).to_be_bytes());
    body.extend_from_slice(&0i16.to_be_bytes());
    match parse_message(&frame(b'T', &body)) {
        Ok(Some((_, BackendMessage::RowDescription(fields)))) => {
            assert_eq!(fields.len(), 1);
            let f = fields[0];
            assert_eq!(f.name, b"id");
            assert_eq!(f.table_oid, 16384);
            assert_eq!(f.table_col, 1);
            assert_eq!(f.type_oid, 23);
            assert_eq!(f.type_size, 4);
            assert_eq!(f.type_mod, -1);
            assert_eq!(f.format, 0);
        }
        _ => panic!("RowDescription expected"),
    }
}

#[test]
fn parse_backend_key_and_copy_messages() {
    match parse_message(&frame(b'K', &[0, 0, 0, 9, 0xaa, 0xbb, 0xcc, 0xdd])) {
        Ok(Some((_, BackendMessage::BackendKeyData { pid, secret_key }))) => {
            assert_eq!(pid, 9);
            assert_eq!(secret_key, &[0xaa, 0xbb, 0xcc, 0xdd]);
        }
        _ => panic!("BackendKeyData expected"),
    }
    match parse_message(&frame(b'H', &[0, 0, 2, 0, 0, 0, 0])) {
        Ok(Some((_, BackendMessage::CopyOutResponse(fmt)))) => {
            assert_eq!(fmt.format, 0);
            assert_eq!(fmt.column_formats, vec![0, 0]);
        }
        _ => panic!("CopyOutResponse expected"),
    }
    match parse_message(&frame(b'd', b"1\t2\n")) {
        Ok(Some((_, BackendMessage::CopyData(d)))) => assert_eq!(d, b"1\t2\n"),
        _ => panic!("CopyData expected"),
    }
    assert!(matches!(parse_message(&frame(b'c', b"")), Ok(Some((5, BackendMessage::CopyDone)))));
}

#[test]
fn error_names() {
    assert_eq!(Error::MessageTooBig.name(), b"MessageTooBig");
    assert_eq!(Error::UnknownMessage.name(), b"UnknownMessage");
}
