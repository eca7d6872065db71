use pgbb::hex::push_hex;
use pgbb::pg::decode::{parse_message, BackendMessage, DbError, DbErrorField};
use pgbb::pg::scram::{saslprep_lax, ScramError, ScramSha256};
use pgbb::run::json::{
    dberror_json, error_json, json_escape, json_escape_lossy, json_rowdescr, push_decimal,
    push_decimal_nat,
};
use pgbb::run::{push_utf8_lossy, MessageWriter};
use pgbb::utf8::{invalid_len, is_ascii, is_valid_utf8, utf16_len};

fn text(f: impl Fn(&mut Vec<u8>)) -> String {
    let mut out = Vec::new();
    f(&mut out);
    String::from_utf8(out).unwrap()
}

#[test]
fn json_escaping() {
    assert_eq!(text(|o| json_escape(b"a\"b\\c\nd\re\tf", o)), "a\\\"b\\\\c\\nd\\re\\tf");
    assert_eq!(text(|o| json_escape(b"\x01\x1f\x7f", o)), "\\u0001\\u001f\\u007f");
    assert_eq!(text(|o| json_escape("é€".as_bytes(), o)), "é€");
    assert_eq!(text(|o| json_escape_lossy(b"ok\xffno\xe2\x82", o)), "ok\u{fffd}no\u{fffd}");
    assert_eq!(text(|o| json_escape_lossy(b"\xf0\x9f\x98\x80\"", o)), "😀\\\"");
}

#[test]
fn lossy_utf8_matches_std() {
    for bytes in [&b"abc"[..], b"\xff\xfe", b"a\xe2\x82b", b"\xf0\x9f\x98", b"\xed\xa0\x80", b"\xc3\xa9\xc3"] {
        let mut out = Vec::new();
        push_utf8_lossy(bytes, &mut out);
        assert_eq!(out, String::from_utf8_lossy(bytes).as_bytes(), "{bytes:?}");
    }
}

#[test]
fn decimals() {
    assert_eq!(text(|o| push_decimal_nat(o, 0)), "0");
    assert_eq!(text(|o| push_decimal_nat(o, 18446744073709551615)), "18446744073709551615");
    assert_eq!(text(|o| push_decimal(o, -42)), "-42");
    assert_eq!(text(|o| push_decimal(o, i64::MIN)), "-9223372036854775808");
}

#[test]
fn error_objects() {
    assert_eq!(text(|o| error_json(b"x \"y\"", o)), "{\"message\": \"x \\\"y\\\"\"}");
    let e = DbError {
        fields: vec![
            (DbErrorField(b'S'), b"ERROR".to_vec()),
            (DbErrorField(b'P'), b"8".to_vec()),
            (DbErrorField(b'z'), b"\xff".to_vec()),
        ],
    };
    assert_eq!(
        text(|o| dberror_json(&e, o)),
        "{\"severity\": \"ERROR\", \"position\": \"8\", \"field_7a\": \"\u{fffd}\"}"
    );
}

#[test]
fn row_description_json() {
    let mut body = vec![0, 2];
    for (name, oid) in [(&b"a\"b"[..], 23u32), (&b"c"[..], 25u32)] {
        body.extend_from_slice(name);
        body.push(0);
        body.extend_from_slice(&7u32.to_be_bytes());
        body.extend_from_slice(&2i16.to_be_bytes());
        body.extend_from_slice(&oid.to_be_bytes());
        body.extend_from_slice(&(-1i16).to_be_bytes());
        body.extend_from_slice(&(-1i32).to_be_bytes());
        body.extend_from_slice(&0i16.to_be_bytes());
    }
    let mut msg = vec![b'T'];
    msg.extend_from_slice(&((body.len() + 4) as i32).to_be_bytes());
    msg.extend(body);
    match parse_message(&msg) {
        Ok(Some((_, BackendMessage::RowDescription(fields)))) => {
            assert_eq!(
                text(|o| json_rowdescr(&fields, o)),
                "[{\"name\":\"a\\\"b\",\"table_oid\":7,\"table_col\":2,\"type_oid\":23,\"type_mod\":-1},{\"name\":\"c\",\"table_oid\":7,\"table_col\":2,\"type_oid\":25,\"type_mod\":-1}]"
            );
        }
        _ => panic!("RowDescription expected"),
    }
}

#[test]
fn message_lines() {
    let mut w = MessageWriter::new();
    w.write_start(17);
    w.write_head(b"{\"a\":\"\xff\"}");
    w.write_complete(b"INSERT 0 1");
    w.write_copyout(b"0123");
    w.write_suspended(b"traffic_limit_exceeded", b"abcd");
    w.write_notice(&DbError { fields: vec![(DbErrorField(b'M'), b"hi".to_vec())] });
    let n = w.len();
    let out = w.take();
    assert_eq!(out.len(), n);
    assert_eq!(w.len(), 0);
    assert_eq!(
        String::from_utf8(out).unwrap(),
        ["[\"start\", {\"position_utf16\": 17}]\n",
            "[\"head\", {\"a\":\"\u{fffd}\"}]\n",
            "[\"complete\", \"INSERT 0 1\"]\n",
            "[\"copyout\", {\"id\": \"0123\"}]\n",
            "[\"suspended\", {\"reason\": \"traffic_limit_exceeded\",\"token\": \"abcd\"}]\n",
            "[\"notice\", {\"message\": \"hi\"}]\n"
    ].concat()
    );
}

#[test]
fn row_lines() {
    let mut body = vec![0, 3];
    body.extend_from_slice(&(-1i32).to_be_bytes());
    body.extend_from_slice(&2i32.to_be_bytes());
    body.extend_from_slice(b"x\n");
    body.extend_from_slice(&0i32.to_be_bytes());
    let mut msg = vec![b'D'];
    msg.extend_from_slice(&((body.len() + 4) as i32).to_be_bytes());
    msg.extend(body);
    match parse_message(&msg) {
        Ok(Some((_, BackendMessage::DataRow(row)))) => {
            let mut w = MessageWriter::new();
            w.write_row(row);
            assert_eq!(String::from_utf8(w.take()).unwrap(), "[\"row\", [null, \"x\\n\", \"\"]]\n");
        }
        _ => panic!("DataRow expected"),
    }
}

#[test]
fn utf8_checks() {
    assert!(is_valid_utf8("añ€😀".as_bytes()));
    assert!(!is_valid_utf8(b"\xc0\x80"));
    assert!(!is_valid_utf8(b"\xed\xa0\x80"));
    assert!(is_ascii(b"plain"));
    assert!(!is_ascii("é".as_bytes()));
    assert_eq!(utf16_len("a😀é".as_bytes()), Some(4));
    assert_eq!(utf16_len(b"\xff"), None);
    assert_eq!(invalid_len(b"\xe2\x82x", 0), 2);
    assert_eq!(invalid_len(b"\xff", 0), 1);
}

#[test]
fn hex_text() {
    let mut out = Vec::new();
    push_hex(&mut out, &[0x00, 0x9a, 0xff]);
    assert_eq!(out, b"009aff".to_vec());
}

#[test]
fn scram_nonce_from_random_bytes() {
    let rnd: Vec<u8> = (0..24u8).map(|k| k * 11).collect();
    let s = ScramSha256::from_random(&rnd);
    let first = s.client_first_message();
    let expected: Vec<u8> = rnd.iter().map(|b| (b & 0x3f) + 0x2d).collect();
    assert_eq!(&first[..8], b"n,,n=,r=");
    assert_eq!(&first[8..], expected.as_slice());
    assert!(ScramSha256::new(b"u").is_ok());
}

fn scram() -> (ScramSha256, Vec<u8>) {
    let s = ScramSha256::from_random(&[0u8; 24]);
    let nonce = vec![0x2d; 24];
    (s, nonce)
}

fn message(e: ScramError) -> String {
    String::from_utf8(e.message()).unwrap()
}

#[test]
fn scram_server_first_errors() {
    let (mut s, nonce) = scram();
    let with = |tail: &str| {
        let mut m = b"r=".to_vec();
        m.extend_from_slice(&nonce);
        m.extend_from_slice(tail.as_bytes());
        m
    };
    assert_eq!(message(s.update(b"\xff", b"pw").unwrap_err()), "non-utf8 server-first-message");
    assert_eq!(message(s.update(b"r=abc,s=c2FsdA==,i=1", b"pw").unwrap_err()), "bad nonce");
    assert_eq!(message(s.update(&with("x,s=!!,i=1"), b"pw").unwrap_err()), "bad salt");
    assert_eq!(message(s.update(&with("x,s=c2FsdA==,i=0"), b"pw").unwrap_err()), "bad iteration count");
    assert_eq!(message(s.update(&with("x,s=c2FsdA==,i=100000"), b"pw").unwrap_err()), "bad iteration count");
    assert_eq!(
        message(s.update(&with("x,s=c2FsdA==,i=10,e=1"), b"pw").unwrap_err()),
        "unexpected attribute in server-first-message"
    );
    assert!(s.update(&with("x,s=c2FsdA==,i=10"), b"pw").is_ok());
}

#[test]
fn scram_server_final_errors() {
    let (s, _) = scram();
    assert_eq!(message(s.finish(b"e=invalid-proof").unwrap_err()), "server responded with error: invalid-proof");
    assert_eq!(message(s.finish(b"x=1").unwrap_err()), "bad server signature");
    assert_eq!(message(s.finish(b"v=!!").unwrap_err()), "bad server signature");
    assert_eq!(message(s.finish(b"v=AAAA").unwrap_err()), "server signature does not match");
    assert_eq!(message(s.finish(b"\xff").unwrap_err()), "non-utf8 server-final-message");
}

#[test]
fn saslprep_maps_spaces_and_drops_soft_hyphen() {
    assert_eq!(saslprep_lax(b"plain"), b"plain".to_vec());
    assert_eq!(saslprep_lax("a\u{00a0}b".as_bytes()), b"a b".to_vec());
    assert_eq!(saslprep_lax("a\u{00ad}b".as_bytes()), b"ab".to_vec());
    assert_eq!(saslprep_lax("\u{2168}".as_bytes()), b"IX".to_vec());
    assert_eq!(saslprep_lax(b"\xff\xfe"), b"\xff\xfe".to_vec());
}

#[test]
fn scram_fresh_nonce_in_range() {
    let s = ScramSha256::new(b"u").unwrap();
    let first = s.client_first_message();
    assert_eq!(first.len(), 32);
    assert_eq!(&first[..8], b"n,,n=,r=");
    assert!(first[8..].iter().all(|&b| (0x2d..=0x6c).contains(&b)));
}
