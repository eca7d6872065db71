use pgbb::auth::{AuthError, Authenticator};
use pgbb::pg::conn::{ConnectError, ConnectFailure, Connection, Connector, RxBuf};
use pgbb::pg::decode::{DbError, DbErrorField};
use pgbb::pg::encode::NZStr;
use pgbb::run::registry::Registry;
use pgbb::run::token::{format_token, key_from_bytes, new_key, parse_token};
use pgbb::run::{page_action, split_script, PageAction};
use pgbb::web::catalog::{send_catalog_query, CatalogReader, CatalogStep};
use pgbb::web::{
    auth_connect_failed, auth_ok, base_connector, catalog_connector, classify_chunk,
    dev_content_type, dev_file, heartbeat, internal_error, not_found, run_connect_failed,
    run_connector, ui_asset, unauthorized, unsuspend_reply, ChunkOutcome, UiAsset,
};

fn nz(b: &[u8]) -> NZStr<'_> {
    NZStr::from_bytes(b).unwrap()
}

fn frame(ident: u8, body: &[u8]) -> Vec<u8> {
    let mut out = vec![ident];
    out.extend_from_slice(&((body.len() + 4) as i32).to_be_bytes());
    out.extend_from_slice(body);
    out
}

fn db_failure(code: &[u8]) -> ConnectFailure {
    ConnectFailure::Db(DbError { fields: vec![(DbErrorField(b'C'), code.to_vec())] })
}

#[test]
fn token_text_round_trip() {
    assert_eq!(format_token(0), b"00000000000000000000000000000000".to_vec());
    assert_eq!(format_token(0xabc), b"00000000000000000000000000000abc".to_vec());
    assert_eq!(format_token(u128::MAX), b"ffffffffffffffffffffffffffffffff".to_vec());
    for key in [0u128, 1, 0xdead_beef, u128::MAX, 1 << 127] {
        assert_eq!(parse_token(&format_token(key)), Some(key));
    }
}

#[test]
fn token_parsing_follows_from_str_radix() {
    for text in ["", "+", "-1", "g", "1 ", "+ff", "FF", "0000000000000000000000000000000000001", "fffffffffffffffffffffffffffffffff", "ffffffffffffffffffffffffffffffff"] {
        assert_eq!(parse_token(text.as_bytes()), u128::from_str_radix(text, 16).ok(), "{text}");
    }
}

#[test]
fn keys_from_bytes() {
    let mut b = [0u8; 16];
    b[15] = 1;
    b[0] = 0x80;
    assert_eq!(key_from_bytes(&b), u128::from_be_bytes(b));
    assert!(new_key().is_some());
}

#[test]
fn registry_take_after_insert() {
    let mut r: Registry<&str> = Registry::new();
    r.insert(7, "a");
    r.insert(8, "b");
    r.insert(7, "c");
    assert_eq!(r.take(7), Some("c"));
    assert_eq!(r.take(7), None);
    assert_eq!(r.take(8), Some("b"));
}

#[test]
fn authenticator_round_trip() {
    let auth = Authenticator::new().unwrap();
    let token = auth.issue(b"alice", b"secret").unwrap();
    assert_eq!(auth.verify(b"alice", &token), Some(b"secret".to_vec()));
    assert_eq!(auth.verify(b"bob", &token), None);
    let mut forged = token.clone();
    let last = 10;
    forged[last] = if forged[last] == b'A' { b'B' } else { b'A' };
    assert_eq!(auth.verify(b"alice", &forged), None);
    assert_eq!(auth.verify(b"alice", b"not base64!"), None);
    assert_eq!(auth.verify(b"alice", b"AAAA"), None);
    let other = Authenticator::with_secret([9; 32]);
    assert_eq!(other.verify(b"alice", &token), None);
    assert_eq!(AuthError::RandomUnavailable, AuthError::RandomUnavailable);
}

#[test]
fn fixed_iv_tokens_are_deterministic() {
    let auth = Authenticator::with_secret([1; 32]);
    let a = auth.issue_with_iv(&[0; 12], b"u", b"p").unwrap();
    let b = auth.issue_with_iv(&[0; 12], b"u", b"p").unwrap();
    assert_eq!(a, b);
    assert_eq!(auth.verify(b"u", &a), Some(b"p".to_vec()));
}

#[test]
fn run_connect_failures() {
    let r = run_connect_failed(ConnectError::new(db_failure(b"28000")));
    assert_eq!((r.status, r.content_type, r.body.as_slice()), (401, &b"text/plain; charset=utf-8"[..], &b"authentication token is no longer valid\n"[..]));
    let r = run_connect_failed(ConnectError::new(ConnectFailure::Io(b"refused".to_vec())));
    assert_eq!((r.status, r.body.as_slice()), (503, &b"service unavailable\n"[..]));
    let r = run_connect_failed(ConnectError::new(db_failure(b"3D000")).into_authorized());
    assert_eq!(r.status, 200);
    assert_eq!(r.content_type, b"text/x-ndjson; charset=utf-8");
    assert_eq!(r.body, b"[\"error\", {\"code\": \"3D000\"}]\n".to_vec());
    let r = run_connect_failed(ConnectError::new(ConnectFailure::UnexpectedMessage).into_authorized());
    assert_eq!(r.body, b"[\"error\", {\"message\": \"unexpected message received\"}]\n".to_vec());
}

#[test]
fn auth_replies() {
    let r = auth_ok(b"abc=");
    assert_eq!((r.status, r.content_type, r.body.as_slice()), (200, &b"application/json"[..], &b"{\"token\":\"abc=\"}\n"[..]));
    let r = auth_connect_failed(&ConnectError::new(db_failure(b"28P01")));
    assert_eq!((r.status, r.body.as_slice()), (401, &b"unable to log in with the provided username and password\n"[..]));
    let r = auth_connect_failed(&ConnectError::new(ConnectFailure::UnexpectedMessage));
    assert_eq!((r.status, r.body.as_slice()), (503, &b"service unavailable\n"[..]));
}

#[test]
fn plain_replies() {
    assert_eq!((unauthorized().status, unauthorized().body), (401, b"unauthorized\n".to_vec()));
    assert_eq!((internal_error().status, internal_error().body), (500, b"internal server error\n".to_vec()));
    assert_eq!((not_found().status, not_found().body), (404, b"not found\n".to_vec()));
    assert_eq!((unsuspend_reply(true).status, unsuspend_reply(true).body), (200, b"ok\n".to_vec()));
    assert_eq!((unsuspend_reply(false).status, unsuspend_reply(false).body), (400, b"fail\n".to_vec()));
}

fn options(c: &Connector) -> Vec<(String, String)> {
    c.startup_options()
        .iter()
        .map(|(k, v)| {
            (String::from_utf8(k.as_bytes().to_vec()).unwrap(), String::from_utf8(v.as_bytes().to_vec()).unwrap())
        })
        .collect()
}

#[test]
fn connectors() {
    let base = base_connector("db", 5433, &[(nz(b"sslmode"), nz(b"disable"))]);
    assert_eq!(base.host(), "db");
    assert_eq!(base.port(), 5433);
    let names: Vec<String> = options(&base).into_iter().map(|(k, v)| format!("{k}={v}")).collect();
    assert_eq!(
        names,
        ["database=postgres", "client_min_messages=NOTICE", "application_name=pgbb", "sslmode=disable", "client_encoding=UTF8"]
    );
    let run = run_connector(base.duplicate(), nz(b"app"), nz(b"UTC"));
    let tail: Vec<(String, String)> = options(&run).into_iter().skip(5).collect();
    assert_eq!(tail, vec![("timezone".into(), "UTC".into()), ("database".into(), "app".into())]);
    let cat = catalog_connector(base.duplicate(), None);
    let tail: Vec<String> = options(&cat).into_iter().skip(5).map(|(k, v)| format!("{k}={v}")).collect();
    assert_eq!(tail, ["statement_timeout=10s", "default_transaction_read_only=on", "search_path=pg_catalog"]);
    let cat = catalog_connector(base, Some(nz(b"x")));
    assert_eq!(options(&cat).last().unwrap(), &("database".to_string(), "x".to_string()));
}

#[test]
fn ui_assets() {
    assert_eq!(ui_asset(b"/"), Some(UiAsset::Index));
    assert_eq!(ui_asset(b"/main.js"), Some(UiAsset::MainJs));
    assert_eq!(ui_asset(b"/nope"), None);
    assert_eq!(UiAsset::StyleCss.file(), (&b"style.css.gz"[..], &b"text/css; charset=utf-8"[..], true));
    assert_eq!(UiAsset::Index.file(), (&b"index.html"[..], &b"text/html; charset=utf-8"[..], false));
    assert_eq!(dev_file(b"/"), b"./ui/index.html".to_vec());
    assert_eq!(dev_file(b"/a/b.css"), b"./ui/a/b.css".to_vec());
    assert_eq!(dev_content_type(b"/"), b"text/html; charset=utf-8");
    assert_eq!(dev_content_type(b"/x.js"), b"text/javascript; charset=utf-8");
    assert_eq!(dev_content_type(b"/f.woff2"), b"font/woff2");
    assert_eq!(dev_content_type(b"/data.bin"), b"application/octet-stream");
}

#[test]
fn streamed_chunks() {
    assert!(matches!(classify_chunk(None), ChunkOutcome::Broken));
    assert!(matches!(classify_chunk(Some(vec![])), ChunkOutcome::End));
    assert!(matches!(classify_chunk(Some(vec![1])), ChunkOutcome::Data(d) if d == vec![1]));
    assert_eq!(heartbeat(), b"[\"alive\"]\n".to_vec());
}

#[test]
fn catalog_query_and_answer() {
    let mut conn = Connection::new();
    send_catalog_query(&mut conn, nz(b"select 1"), &[Some(b"table"), None, Some(b"x")]);
    let sent: Vec<u8> = conn.take_tx().into_iter().collect();
    assert!(sent.ends_with(&frame(b'S', b"")));
    assert_eq!(sent[0], b'P');
    let mut rx = RxBuf::new();
    let mut row = vec![0, 1];
    row.extend_from_slice(&6i32.to_be_bytes());
    row.extend_from_slice(b"[1, 2]");
    rx.extend(&[frame(b'1', b""), frame(b'D', &row), frame(b'D', &[0, 1, 0xff, 0xff, 0xff, 0xff]), frame(b'Z', b"I")].concat());
    let mut reader = CatalogReader::new(true);
    let body = loop {
        match reader.step(&mut rx) {
            CatalogStep::Continue => continue,
            CatalogStep::Done(b) => break b,
            _ => panic!("unexpected"),
        }
    };
    assert_eq!(body, b"null\n".to_vec());
    let mut rx = RxBuf::new();
    rx.extend(&[frame(b'D', &row), frame(b'Z', b"I")].concat());
    let mut reader = CatalogReader::new(false);
    let body = loop {
        match reader.step(&mut rx) {
            CatalogStep::Continue => continue,
            CatalogStep::Done(b) => break b,
            _ => panic!("unexpected"),
        }
    };
    assert_eq!(body, b"[1, 2]".to_vec());
    let mut rx = RxBuf::new();
    let mut reader = CatalogReader::new(false);
    rx.extend(&frame(b'Z', b"I"));
    assert!(matches!(reader.step(&mut rx), CatalogStep::Done(b) if b.is_empty()));
}

#[test]
fn script_split_and_pages() {
    let s = split_script(b" \n SELECT 1; SELECT 2");
    assert_eq!(s.start, 3);
    assert_eq!(s.ends, vec![13, 21]);
    let s = split_script(b"   ");
    assert_eq!((s.start, s.ends.len()), (3, 0));
    assert_eq!(page_action(0, 10, 0, true), PageAction::Flush);
    assert_eq!(page_action(0, 0, 0, true), PageAction::Receive);
    assert_eq!(page_action(0, 10, 0, false), PageAction::Receive);
    assert_eq!(page_action(0, 10, 1000, false), PageAction::Suspend);
    assert_eq!(page_action(5 * 1024 * 1024 - 10, 10, 0, false), PageAction::Suspend);
    assert_eq!(page_action(5 * 1024 * 1024 - 10, 9, 0, true), PageAction::Flush);
}

#[test]
fn registry_claim_once_by_token() {
    let mut r: Registry<&str> = Registry::new();
    let key: u128 = 0x0123_4567_89ab_cdef_0011_2233_4455_6677;
    r.insert(key, "run");
    let token = format_token(key);
    assert_eq!(r.claim(b"not hex"), None);
    assert_eq!(r.claim(&token), Some("run"));
    assert_eq!(r.claim(&token), None);
    assert_eq!(unsuspend_reply(false).status, 400);
}

#[test]
fn seal_token_joins_iv_tag_ciphertext() {
    let iv = [7u8; 12];
    let tag = [0xA5u8; 16];
    let c = b"cipher";
    let token = pgbb::auth::seal_token(&iv, c, &tag);
    let mut bytes = iv.to_vec();
    bytes.extend_from_slice(&tag);
    bytes.extend_from_slice(c);
    assert_eq!(token, openssl::base64::encode_block(&bytes).into_bytes());
    assert_ne!(token, bytes);
}
