use pgbb::pg::conn::{Connection, RxBuf};
use pgbb::pg::decode::{DbError, DbErrorField};
use pgbb::pg::encode::NZStr;
use pgbb::run::runner::{CopyPump, PumpAction, RunAction, RunPhase, Runner, SuspendReason};
use pgbb::run::{ErrorReport, MessageWriter};

const ENRICH: &[u8] = b"select $1::json";

fn frame(ident: u8, body: &[u8]) -> Vec<u8> {
    let mut out = vec![ident];
    out.extend_from_slice(&((body.len() + 4) as i32).to_be_bytes());
    out.extend_from_slice(body);
    out
}

fn data_row(vals: &[Option<&[u8]>]) -> Vec<u8> {
    let mut body = (vals.len() as u16).to_be_bytes().to_vec();
    for v in vals {
        match v {
            Some(d) => {
                body.extend_from_slice(&(d.len() as i32).to_be_bytes());
                body.extend_from_slice(d);
            }
            None => body.extend_from_slice(&(-1i32).to_be_bytes()),
        }
    }
    frame(b'D', &body)
}

fn row_description(name: &[u8]) -> Vec<u8> {
    let mut body = vec![0, 1];
    body.extend_from_slice(name);
    body.push(0);
    body.extend_from_slice(&0u32.to_be_bytes());
    body.extend_from_slice(&0i16.to_be_bytes());
    body.extend_from_slice(&23u32.to_be_bytes());
    body.extend_from_slice(&4i16.to_be_bytes());
    body.extend_from_slice(&(-1i32).to_be_bytes());
    body.extend_from_slice(&0i16.to_be_bytes());
    frame(b'T', &body)
}

fn complete(tag: &[u8]) -> Vec<u8> {
    let mut body = tag.to_vec();
    body.push(0);
    frame(b'C', &body)
}

fn cat(parts: &[Vec<u8>]) -> Vec<u8> {
    parts.concat()
}

struct Session {
    runner: Runner,
    rx: RxBuf,
    conn: Connection,
    msgw: MessageWriter,
    client: Vec<u8>,
}

impl Session {
    fn new(script: &[u8]) -> Session {
        Session {
            runner: Runner::new(script, NZStr::from_bytes(ENRICH).unwrap()),
            rx: RxBuf::new(),
            conn: Connection::new(),
            msgw: MessageWriter::new(),
            client: Vec::new(),
        }
    }

    /// Feeds bytes from the server and steps until I/O is needed or the
    /// run stops; what is sent to the client is collected.
    fn feed(&mut self, bytes: &[u8]) -> RunAction {
        self.rx.extend(bytes);
        loop {
            match self.runner.step(&mut self.rx, &mut self.conn, &mut self.msgw) {
                RunAction::Continue => continue,
                RunAction::Send(b) => self.client.extend(b),
                other => return other,
            }
        }
    }

    fn sent(&mut self) -> Vec<u8> {
        self.conn.take_tx().into_iter().collect()
    }

    fn client_text(&mut self) -> String {
        let mut all = std::mem::take(&mut self.client);
        all.extend(self.msgw.take());
        String::from_utf8(all).unwrap()
    }
}

fn describe_msgs(stmt: &[u8]) -> Vec<u8> {
    let mut parse = vec![0];
    parse.extend_from_slice(stmt);
    parse.extend_from_slice(&[0, 0, 0]);
    cat(&[frame(b'P', &parse), frame(b'D', b"S\0"), frame(b'C', b"P\0"), frame(b'H', b"")])
}

fn execute_msgs() -> Vec<u8> {
    cat(&[frame(b'B', &[0; 8]), frame(b'E', &[0; 5]), frame(b'H', b"")])
}

#[test]
fn runs_two_statements() {
    let mut s = Session::new(b"  SELECT 1; SELECT '\xc3\xa9'");
    assert!(matches!(s.feed(b""), RunAction::Io));
    assert_eq!(s.runner.phase(), RunPhase::Describe);
    assert_eq!(s.sent(), describe_msgs(b"SELECT 1; "));

    // the statement returns rows: its description is enriched
    let describe = cat(&[frame(b'1', b""), frame(b't', &[0, 0]), row_description(b"n"), frame(b'3', b"")]);
    assert!(matches!(s.feed(&describe), RunAction::Io));
    assert_eq!(s.runner.phase(), RunPhase::Enrich);
    let enrich = s.sent();
    let mut parse = b"pgbb_enrich_rowdescr\0select $1::json\0\0\x01".to_vec();
    parse.extend_from_slice(&114u32.to_be_bytes());
    assert!(enrich.starts_with(&frame(b'P', &parse)));
    assert!(enrich.ends_with(&frame(b'S', b"")));
    let json = br#"[{"name":"n","table_oid":0,"table_col":0,"type_oid":23,"type_mod":-1}]"#;
    assert!(enrich.windows(json.len()).any(|w| w == json));

    let enriched = cat(&[
        frame(b'1', b""),
        frame(b'2', b""),
        data_row(&[Some(br#"{"cols":1}"#)]),
        complete(b"SELECT 1"),
        frame(b'Z', b"I"),
    ]);
    assert!(matches!(s.feed(&enriched), RunAction::Io));
    assert_eq!(s.runner.phase(), RunPhase::Execute);
    assert_eq!(s.sent(), execute_msgs());

    let results = cat(&[frame(b'2', b""), data_row(&[Some(b"1")]), complete(b"SELECT 1")]);
    assert!(matches!(s.feed(&results), RunAction::Io));
    assert_eq!(s.sent(), cat(&[frame(b'C', b"P\0"), frame(b'H', b"")]));

    // the second statement: no rows description, so no enrichment
    assert_eq!(s.runner.position(), 2);
    assert!(matches!(s.feed(&frame(b'3', b"")), RunAction::Io));
    assert_eq!(s.runner.position(), 12);
    assert_eq!(s.sent(), describe_msgs("SELECT 'é'".as_bytes()));
    let describe = cat(&[frame(b'1', b""), frame(b'n', b""), frame(b'3', b"")]);
    assert!(matches!(s.feed(&describe), RunAction::Io));
    assert_eq!(s.sent(), execute_msgs());
    let results = cat(&[frame(b'2', b""), complete(b"SELECT 0"), frame(b'3', b"")]);
    assert!(matches!(s.feed(&results), RunAction::Io));
    assert_eq!(s.runner.phase(), RunPhase::CheckChanges);

    // no changes: committed at once
    let check = cat(&[frame(b'1', b""), frame(b'2', b""), complete(b"SELECT 0"), frame(b'3', b"")]);
    assert!(matches!(s.feed(&check), RunAction::Io));
    assert_eq!(s.runner.phase(), RunPhase::Commit);
    let sent = s.sent();
    assert!(sent.ends_with(&frame(b'S', b"")));
    assert!(matches!(s.feed(&frame(b'Z', b"I")), RunAction::Done));

    let expected = ["[\"start\", {\"position_utf16\": 2}]\n",
        "[\"head\", {\"cols\":1}]\n",
        "[\"row\", [\"1\"]]\n",
        "[\"complete\", \"SELECT 1\"]\n",
        "[\"start\", {\"position_utf16\": 12}]\n",
        "[\"complete\", \"SELECT 0\"]\n"
    ].concat();
    assert_eq!(s.client_text(), expected);
}

#[test]
fn check_query_is_sent_after_last_statement() {
    let mut s = Session::new(b"");
    assert!(matches!(s.feed(b""), RunAction::Io));
    assert_eq!(s.runner.phase(), RunPhase::CheckChanges);
    let sent = s.sent();
    let sql = b"select null where pg_catalog.txid_current_if_assigned() is not null";
    assert!(sent.windows(sql.len()).any(|w| w == sql));
}

#[test]
fn uncommitted_changes_pause_the_run() {
    let mut s = Session::new(b"");
    s.feed(b"");
    s.sent();
    let check = cat(&[frame(b'1', b""), frame(b'2', b""), data_row(&[None]), complete(b"SELECT 1"), frame(b'3', b"")]);
    assert!(matches!(s.feed(&check), RunAction::Suspend(SuspendReason::IdleInTransaction)));
    assert_eq!(SuspendReason::IdleInTransaction.text(), b"idle_in_transaction");
    assert_eq!(s.runner.phase(), RunPhase::IdleSuspended);
    s.runner.resume();
    assert_eq!(s.runner.phase(), RunPhase::SyncPending);
    assert!(matches!(s.feed(b""), RunAction::Io));
    assert_eq!(s.sent(), frame(b'S', b""));
    let notice = frame(b'N', b"SWARNING\0Mdeferred\0\0");
    assert!(matches!(s.feed(&cat(&[notice, frame(b'Z', b"T")])), RunAction::Done));
    assert_eq!(s.client_text(), "[\"notice\", {\"severity\": \"WARNING\", \"message\": \"deferred\"}]\n");
}

#[test]
fn full_page_pauses_the_run() {
    let mut s = Session::new(b"SELECT g FROM generate_series(1, 2000) g");
    s.feed(b"");
    s.feed(&cat(&[frame(b'1', b""), frame(b'n', b""), frame(b'3', b"")]));
    s.sent();
    let mut rows = vec![frame(b'2', b"")];
    for _ in 0..1001 {
        rows.push(data_row(&[Some(b"7")]));
    }
    let action = s.feed(&cat(&rows));
    assert!(matches!(action, RunAction::Suspend(SuspendReason::TrafficLimitExceeded)));
    assert_eq!(SuspendReason::TrafficLimitExceeded.text(), b"traffic_limit_exceeded");
    assert_eq!(s.client_text().matches("[\"row\"").count(), 1000);
    s.runner.resume();
    assert_eq!(s.runner.phase(), RunPhase::Execute);
    assert!(matches!(s.feed(b""), RunAction::Io));
    assert_eq!(s.client_text().matches("[\"row\"").count(), 1);
}

#[test]
fn copy_out_is_handed_over() {
    let mut s = Session::new(b"COPY t TO STDOUT");
    s.feed(b"");
    s.feed(&cat(&[frame(b'1', b""), frame(b'n', b""), frame(b'3', b"")]));
    s.sent();
    let action = s.feed(&cat(&[frame(b'2', b""), frame(b'H', &[0, 0, 1, 0, 0])]));
    assert!(matches!(action, RunAction::Copyout));
    assert_eq!(s.runner.phase(), RunPhase::Copyout);
    let head = s.runner.copyout_started(&mut s.msgw, b"00ff");
    let text = String::from_utf8(head).unwrap();
    assert!(text.ends_with("[\"copyout\", {\"id\": \"00ff\"}]\n"));
    assert_eq!(s.msgw.len(), 0);

    let mut pump = CopyPump::new();
    let mut out = Vec::new();
    s.rx.extend(&cat(&[frame(b'd', b"1\n"), frame(b'd', b"2\n")]));
    loop {
        match pump.step(&mut s.rx) {
            PumpAction::Continue => continue,
            PumpAction::Send(chunk) => out.push(chunk),
            PumpAction::Io => break,
            _ => panic!("unexpected"),
        }
    }
    assert_eq!(out, vec![b"1\n2\n".to_vec()]);
    s.rx.extend(&cat(&[frame(b'd', b"3\n"), frame(b'c', b"")]));
    let last = loop {
        match pump.step(&mut s.rx) {
            PumpAction::Continue => continue,
            PumpAction::Done(b) => break b,
            _ => panic!("unexpected"),
        }
    };
    assert_eq!(last, b"3\n".to_vec());
    s.runner.copyout_done();
    assert_eq!(s.runner.phase(), RunPhase::Execute);
}

#[test]
fn copy_in_is_refused() {
    let mut s = Session::new(b"COPY t FROM STDIN");
    s.feed(b"");
    s.feed(&cat(&[frame(b'1', b""), frame(b'n', b""), frame(b'3', b"")]));
    s.sent();
    s.feed(&cat(&[frame(b'2', b""), frame(b'G', &[0, 0, 0])]));
    assert_eq!(s.sent(), frame(b'f', b"COPY FROM STDIN not supported\0"));
}

#[test]
fn pump_fails_on_error() {
    let mut rx = RxBuf::new();
    rx.extend(&frame(b'E', b"C57014\0\0"));
    let mut pump = CopyPump::new();
    match pump.step(&mut rx) {
        PumpAction::Failed(ErrorReport::Db(d)) => assert_eq!(d.code(), b"57014"),
        _ => panic!("failure expected"),
    }
}

#[test]
fn server_error_fails_the_run() {
    let mut s = Session::new(b"SELEC 1");
    s.feed(b"");
    match s.feed(&frame(b'E', b"SERROR\0C42601\0Msyntax error\0\0")) {
        RunAction::Failed(ErrorReport::Db(d)) => assert_eq!(d.code(), b"42601"),
        _ => panic!("failure expected"),
    }
    assert_eq!(s.runner.phase(), RunPhase::Failed);
}

#[test]
fn enrichment_error_is_reported_as_text() {
    let mut s = Session::new(b"SELECT 1");
    s.feed(b"");
    s.feed(&cat(&[row_description(b"x"), frame(b'3', b"")]));
    match s.feed(&frame(b'E', b"VERROR\0C42883\0Mno function\0\0")) {
        RunAction::Failed(ErrorReport::Message(m)) => {
            assert_eq!(m, b"failed to enrich row description: ERROR#42883 \"no function\"".to_vec());
        }
        _ => panic!("failure expected"),
    }
}

#[test]
fn malformed_message_fails_the_run() {
    let mut s = Session::new(b"SELECT 1");
    s.feed(b"");
    match s.feed(&frame(b'!', b"")) {
        RunAction::Failed(ErrorReport::Message(m)) => assert_eq!(m, b"UnknownMessage".to_vec()),
        _ => panic!("failure expected"),
    }
}

#[test]
fn nul_in_script_fails_the_run() {
    let mut s = Session::new(b"SELECT '\0'");
    match s.feed(b"") {
        RunAction::Failed(ErrorReport::Message(m)) => {
            assert_eq!(m, b"script must not contain NUL characters".to_vec());
        }
        _ => panic!("failure expected"),
    }
}

#[test]
fn invalid_utf8_fails_after_the_statement() {
    let mut s = Session::new(b"SELECT '\xff'");
    s.feed(b"");
    s.feed(&cat(&[frame(b'n', b""), frame(b'3', b"")]));
    match s.feed(&cat(&[complete(b"SELECT 1"), frame(b'3', b"")])) {
        RunAction::Failed(ErrorReport::Message(m)) => assert_eq!(m, b"script must be valid UTF-8".to_vec()),
        _ => panic!("failure expected"),
    }
    assert!(s.client_text().contains("[\"complete\", \"SELECT 1\"]"));
}

#[test]
fn error_report_line() {
    let mut w = MessageWriter::new();
    w.write_error(&ErrorReport::Message(b"bad \"thing\"".to_vec()));
    w.write_error(&ErrorReport::Db(DbError { fields: vec![(DbErrorField(b'C'), b"XX000".to_vec())] }));
    let text = String::from_utf8(w.take()).unwrap();
    assert_eq!(
        text,
        "[\"error\", {\"message\": \"bad \\\"thing\\\"\"}]\n[\"error\", {\"code\": \"XX000\"}]\n"
    );
}
