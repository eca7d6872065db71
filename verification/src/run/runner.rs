//! Running a script: statement by statement, each prepared and described
//! first (with the column description enriched by the server), then
//! executed, its results written as NDJSON messages, paged, and finally the
//! transaction checked for changes before it is committed.
//!
//! [`Runner`] decides; the caller does the I/O. Each call of
//! [`Runner::step`] handles at most one message from the server and says
//! what to do next: exchange bytes with the server, send bytes to the
//! client, pause, hand a COPY result over, or stop.
use vstd::prelude::*;
use vstd::utf8::valid_utf8;

use crate::pg::conn::{tx_room, unnamed, Connection, JSON_OID};
use crate::pg::decode::{
    lemma_parsed_bounds,
    spec_parse_message,
    BackendMessage,
    DbError,
    Error,
    Msg,
};
use crate::pg::display::{dberror_display, error_name, push_dberror_display};
use crate::pg::encode::{
    bare_msg,
    bind_msg,
    close_portal_msg,
    copy_fail_msg,
    describe_stmt_msg,
    execute_msg,
    has_no_zero,
    lemma_formats_bytes_len,
    lemma_oids_bytes_len,
    lemma_values_bytes_len,
    parse_msg,
    NZStr,
};
use crate::pg::conn::RxBuf;
use crate::pg::text::{lit_copy_fail_reason, lit_message_too_long, lit_message_too_long_bytes};
use crate::run::json::{dberror_json_text, decimal, lossy_escaped, rowdescr_json_text, json_rowdescr};
use crate::run::psqlscan::{lemma_statement_boundary, spec_statement_boundary};
use crate::run::text::{
    lit_close2_line,
    lit_close_line,
    lit_close_obj_line,
    lit_complete,
    lit_copyout,
    lit_head,
    lit_notice,
    lit_quote_close_line,
    lit_quote_close_obj_line,
    lit_row,
    lit_start,
    push_all,
};
use crate::run::words::{
    lit_check_changes_sql,
    lit_check_changes_sql_bytes,
    lit_check_failed,
    lit_check_failed_bytes,
    lit_enrich_failed,
    lit_enrich_failed_bytes,
    lit_enrich_stmt_name,
    lit_enrich_stmt_name_bytes,
    lit_idle_in_transaction,
    lit_idle_in_transaction_bytes,
    lit_nul_in_script,
    lit_nul_in_script_bytes,
    lit_null_bytes,
    lit_null_bytes_bytes,
    lit_script_not_utf8,
    lit_script_not_utf8_bytes,
    lit_traffic_limit,
    lit_traffic_limit_bytes,
};
use crate::run::{
    is_ascii_whitespace,
    lemma_leading_ws,
    lemma_statement_ends,
    leading_ws_end,
    page_action,
    page_bytes,
    page_rows,
    row_values_json,
    split_script,
    lemma_stmt_start_order,
    start_position,
    statement_ends,
    stmt_start,
    stmt_text,
    utf8_lossy_from,
    ErrorReport,
    ErrorReportView,
    MessageWriter,
    PageAction,
};
use crate::utf8::{
    lemma_ascii_valid_utf8,
    lemma_utf16_len_ascii,
    lemma_utf16_len_bound,
    lemma_utf16_len_concat,
    utf16_len,
    utf16_len_from,
};

verus! {

/// The longest script, and the longest query enriching column
/// descriptions, that a runner takes.
pub open spec fn max_script_len() -> int {
    0x1000_0000
}

/// Where a run stands.
#[derive(Debug, Clone, Copy, PartialEq, Eq, Structural)]
pub enum RunPhase {
    /// The next statement is to be sent, or the check for changes once
    /// none is left.
    Next,
    /// The statement was sent to be described; its column descriptions are
    /// being collected.
    Describe,
    /// The column descriptions were sent to be enriched; the enriched one
    /// is awaited.
    Enrich,
    /// The statement is executing; its results are being written.
    Execute,
    /// The check for uncommitted changes is executing.
    CheckChanges,
    /// The client let the transaction be committed: Sync is to be sent.
    SyncPending,
    /// Sync was sent; ReadyForQuery is awaited.
    Commit,
    /// A page of results is full; waiting for the client.
    PageSuspended,
    /// The transaction has changes; waiting for the client to commit.
    IdleSuspended,
    /// A COPY result is being handed to the client.
    Copyout,
    Done,
    Failed,
}

/// Why a run paused.
#[derive(Debug, Clone, Copy, PartialEq, Eq, Structural)]
pub enum SuspendReason {
    /// A page of results is full.
    TrafficLimitExceeded,
    /// The script left changes that are not yet committed.
    IdleInTransaction,
}

pub open spec fn reason_text(r: SuspendReason) -> Seq<u8> {
    match r {
        SuspendReason::TrafficLimitExceeded => lit_traffic_limit(),
        SuspendReason::IdleInTransaction => lit_idle_in_transaction(),
    }
}

impl SuspendReason {
    /// The reason as written in the `suspended` message.
    pub fn text(&self) -> (r: &'static [u8])
        ensures
            r@ == reason_text(*self),
    {
        match self {
            SuspendReason::TrafficLimitExceeded => lit_traffic_limit_bytes(),
            SuspendReason::IdleInTransaction => lit_idle_in_transaction_bytes(),
        }
    }
}

/// What the caller is to do after a step.
pub enum RunAction {
    /// Send what is queued for the server and receive more from it.
    Io,
    /// Step again.
    Continue,
    /// Send these bytes to the client, then step again.
    Send(Vec<u8>),
    /// Write a `suspended` message with this reason and a token, send what
    /// the writer holds, wait until the client resumes with the token, then
    /// call [`Runner::resume`].
    Suspend(SuspendReason),
    /// Open a download for the COPY data, call
    /// [`Runner::copyout_started`] with its token and send what it returns,
    /// pump the data with a [`CopyPump`], then call
    /// [`Runner::copyout_done`].
    Copyout,
    /// The script ran to its end.
    Done,
    /// The script failed with this error.
    Failed(ErrorReport),
}

/// The state of a run that changes from step to step.
pub struct RunState {
    pub phase: RunPhase,
    /// The statement being run (or next), counting from 0.
    pub idx: nat,
    /// Where that statement starts in the script.
    pub stmt_start: nat,
    /// Where it starts in UTF-16 code units.
    pub pos: nat,
    /// Whether the enriching query is prepared.
    pub prepared: bool,
    /// Whether no statement was executed yet.
    pub fresh: bool,
    /// The column descriptions of the statement, as JSON lists.
    pub rowdescr: Seq<u8>,
    /// The bytes of this page sent to the client.
    pub sent: nat,
    /// The rows of this page written.
    pub rows: nat,
    /// Whether the check for changes found some.
    pub has_changes: bool,
}

/// The plain fields of a run's state.
#[derive(Clone, Copy)]
struct Progress {
    phase: RunPhase,
    idx: usize,
    stmt_start: usize,
    pos: usize,
    prepared: bool,
    fresh: bool,
    sent: usize,
    rows: u32,
    has_changes: bool,
}

/// Runs a script on a connection, deciding what to send, what to write to
/// the client and when to pause.
pub struct Runner {
    script: Vec<u8>,
    first: usize,
    ends: Vec<usize>,
    enrich_sql: Vec<u8>,
    at: Progress,
    rowdescr: Vec<u8>,
}

// ---------------------------------------------------------------------------
// What is sent and written
// ---------------------------------------------------------------------------

/// Parse, Describe and Close of the unnamed statement, then Flush: the
/// statement is prepared and described.
pub open spec fn describe_msgs(stmt: Seq<u8>) -> Seq<u8> {
    parse_msg(Seq::empty(), Seq::empty(), stmt) + describe_stmt_msg(Seq::empty()) + close_portal_msg(
        Seq::empty(),
    ) + bare_msg(0x48)
}

/// Bind and Execute of the unnamed statement, then Flush.
pub open spec fn execute_msgs() -> Seq<u8> {
    bind_msg(Seq::empty(), Seq::empty(), Seq::empty(), Seq::empty(), Seq::empty()) + execute_msg(
        Seq::empty(),
        0,
    ) + bare_msg(0x48)
}

/// The enriching query run on the column descriptions: prepared when it
/// is not yet, bound in binary with the descriptions as its `json`
/// parameter, executed, then Sync before the first statement (to close the
/// transaction it opened) or Close and Flush after.
pub open spec fn enrich_msgs(prepared: bool, fresh: bool, rowdescr: Seq<u8>, sql: Seq<u8>) -> Seq<u8> {
    (if prepared {
        Seq::empty()
    } else {
        parse_msg(lit_enrich_stmt_name(), seq![JSON_OID], sql)
    }) + bind_msg(lit_enrich_stmt_name(), Seq::empty(), seq![1i16], seq![1i16], seq![Some(rowdescr)])
        + execute_msg(Seq::empty(), 0) + if fresh {
        bare_msg(0x53)
    } else {
        close_portal_msg(Seq::empty()) + bare_msg(0x48)
    }
}

/// The check for uncommitted changes: a query that returns a row when the
/// transaction was given an id.
pub open spec fn check_msgs() -> Seq<u8> {
    parse_msg(Seq::empty(), Seq::empty(), lit_check_changes_sql()) + bind_msg(
        Seq::empty(),
        Seq::empty(),
        Seq::empty(),
        Seq::empty(),
        Seq::empty(),
    ) + execute_msg(Seq::empty(), 0) + close_portal_msg(Seq::empty()) + bare_msg(0x48)
}

pub open spec fn start_line(pos: nat) -> Seq<u8> {
    lit_start() + decimal(pos as int) + lit_close_obj_line()
}

pub open spec fn notice_line(f: Seq<(u8, Seq<u8>)>) -> Seq<u8> {
    lit_notice() + dberror_json_text(f) + lit_close_line()
}

pub open spec fn row_line(vals: Seq<Option<Seq<u8>>>) -> Seq<u8> {
    lit_row() + row_values_json(vals) + lit_close2_line()
}

pub open spec fn complete_line(tag: Seq<u8>) -> Seq<u8> {
    lit_complete() + lossy_escaped(tag) + lit_quote_close_line()
}

/// The first value of a row, or `null` when the row has none or it is NULL.
pub open spec fn head_payload(vals: Seq<Option<Seq<u8>>>) -> Seq<u8> {
    if vals.len() > 0 && vals[0] is Some {
        vals[0]->Some_0
    } else {
        lit_null_bytes()
    }
}

pub open spec fn head_line(vals: Seq<Option<Seq<u8>>>) -> Seq<u8> {
    lit_head() + utf8_lossy_from(head_payload(vals), 0) + lit_close_line()
}

pub open spec fn copyout_line(token: Seq<u8>) -> Seq<u8> {
    lit_copyout() + token + lit_quote_close_obj_line()
}

/// The failure `r` reports `e`.
pub open spec fn fails_with(r: RunAction, e: ErrorReportView) -> bool {
    r matches RunAction::Failed(x) && x@ == e
}

/// How an error of the server is reported in `phase`: as is, or as the
/// text of a failed enrichment or check for changes.
pub open spec fn db_report(phase: RunPhase, f: Seq<(u8, Seq<u8>)>) -> ErrorReportView {
    if phase == RunPhase::Enrich {
        ErrorReportView::Message(lit_enrich_failed() + dberror_display(f))
    } else if phase == RunPhase::CheckChanges {
        ErrorReportView::Message(lit_check_failed() + dberror_display(f))
    } else {
        ErrorReportView::Db(f)
    }
}

/// How a malformed message is reported in `phase`.
pub open spec fn decode_report(phase: RunPhase, e: Error) -> ErrorReportView {
    if phase == RunPhase::Enrich {
        ErrorReportView::Message(lit_enrich_failed() + error_name(e))
    } else if phase == RunPhase::CheckChanges {
        ErrorReportView::Message(lit_check_failed() + error_name(e))
    } else {
        ErrorReportView::Message(error_name(e))
    }
}

// ---------------------------------------------------------------------------
// Moves
// ---------------------------------------------------------------------------

/// `t` is `s` in `phase`.
pub open spec fn goes(s: RunState, t: RunState, phase: RunPhase) -> bool {
    t == RunState { phase, ..s }
}

/// The step from `s` to `t` on the message `m` of the server, with the
/// bytes queued for the server going from `c0` to `c1`, those for the
/// client from `w0` to `w1`, and `r` returned. `ends` are where the
/// statements of `script` end, `sql` is the enriching query.
pub open spec fn on_message(
    script: Seq<u8>,
    ends: Seq<int>,
    sql: Seq<u8>,
    s: RunState,
    m: Msg,
    t: RunState,
    c0: Seq<u8>,
    c1: Seq<u8>,
    w0: Seq<u8>,
    w1: Seq<u8>,
    r: RunAction,
) -> bool {
    if m is ErrorResponse {
        fails_with(r, db_report(s.phase, m->ErrorResponse_0)) && goes(s, t, RunPhase::Failed) && c1
            == c0 && w1 == w0
    } else {
        match s.phase {
            RunPhase::Describe => match m {
                Msg::RowDescription(f) => r is Continue && t == RunState {
                    rowdescr: s.rowdescr + rowdescr_json_text(f),
                    ..s
                } && c1 == c0 && w1 == w0,
                Msg::NoticeResponse(f) => r is Continue && t == s && c1 == c0 && w1 == w0
                    + notice_line(f),
                Msg::CloseComplete => if s.rowdescr.len() == 0 {
                    r is Continue && t == RunState { phase: RunPhase::Execute, fresh: false, ..s }
                        && c1 == c0 + execute_msgs() && w1 == w0
                } else if s.rowdescr.len() + 40 > i32::MAX {
                    fails_with(r, ErrorReportView::Message(lit_message_too_long()))
                        && goes(s, t, RunPhase::Failed) && c1 == c0 && w1 == w0
                } else {
                    r is Continue && t == RunState { phase: RunPhase::Enrich, prepared: true, ..s }
                        && c1 == c0 + enrich_msgs(s.prepared, s.fresh, s.rowdescr, sql) && w1 == w0
                },
                _ => r is Continue && t == s && c1 == c0 && w1 == w0,
            },
            RunPhase::Enrich => match m {
                Msg::DataRow(vals) => r is Continue && t == s && c1 == c0 && w1 == w0 + head_line(
                    vals,
                ),
                Msg::CloseComplete | Msg::ReadyForQuery { .. } => r is Continue && t == RunState {
                    phase: RunPhase::Execute,
                    fresh: false,
                    ..s
                } && c1 == c0 + execute_msgs() && w1 == w0,
                _ => r is Continue && t == s && c1 == c0 && w1 == w0,
            },
            RunPhase::Execute => match m {
                Msg::DataRow(vals) => r is Continue && t == RunState { rows: s.rows + 1, ..s } && c1
                    == c0 && w1 == w0 + row_line(vals),
                Msg::CopyInResponse(_) => r is Continue && t == s && c1 == c0 + copy_fail_msg(
                    lit_copy_fail_reason(),
                ) && w1 == w0,
                Msg::CopyOutResponse(_) => r is Copyout && goes(s, t, RunPhase::Copyout) && c1 == c0
                    && w1 == w0,
                Msg::NoticeResponse(f) => r is Continue && t == s && c1 == c0 && w1 == w0
                    + notice_line(f),
                Msg::EmptyQueryResponse { tag } | Msg::PortalSuspended { tag }
                | Msg::CommandComplete { tag } => r is Continue && t == s && c1 == c0
                    + close_portal_msg(Seq::empty()) + bare_msg(0x48) && w1 == w0 + complete_line(
                    tag,
                ),
                Msg::CloseComplete => {
                    let stmt = script.subrange(s.stmt_start as int, ends[s.idx as int]);
                    if !valid_utf8(stmt) {
                        fails_with(r, ErrorReportView::Message(lit_script_not_utf8())) && goes(
                            s,
                            t,
                            RunPhase::Failed,
                        ) && c1 == c0 && w1 == w0
                    } else {
                        r is Continue && t == RunState {
                            phase: RunPhase::Next,
                            idx: s.idx + 1,
                            stmt_start: ends[s.idx as int] as nat,
                            pos: (s.pos + utf16_len_from(stmt, 0)) as nat,
                            ..s
                        } && c1 == c0 && w1 == w0
                    }
                },
                _ => r is Continue && t == s && c1 == c0 && w1 == w0,
            },
            RunPhase::CheckChanges => match m {
                Msg::DataRow(_) => r is Continue && t == RunState { has_changes: true, ..s } && c1
                    == c0 && w1 == w0,
                Msg::CloseComplete => if s.has_changes {
                    r == RunAction::Suspend(SuspendReason::IdleInTransaction) && goes(
                        s,
                        t,
                        RunPhase::IdleSuspended,
                    ) && c1 == c0 && w1 == w0
                } else {
                    r is Continue && goes(s, t, RunPhase::Commit) && c1 == c0 + bare_msg(0x53) && w1
                        == w0
                },
                _ => r is Continue && t == s && c1 == c0 && w1 == w0,
            },
            RunPhase::Commit => match m {
                Msg::NoticeResponse(f) => r is Continue && t == s && c1 == c0 && w1 == w0
                    + notice_line(f),
                Msg::ReadyForQuery { .. } => r is Done && goes(s, t, RunPhase::Done) && c1 == c0
                    && w1 == w0,
                _ => r is Continue && t == s && c1 == c0 && w1 == w0,
            },
            _ => false,
        }
    }
}



/// What to do before reading the next result: the choice of
/// [`page_action`].
pub open spec fn page_choice(sent: int, buffered: int, rows: int, drained: bool) -> PageAction {
    if sent + buffered >= page_bytes() || rows >= page_rows() {
        PageAction::Suspend
    } else if drained && buffered > 0 {
        PageAction::Flush
    } else {
        PageAction::Receive
    }
}

/// The step from `s` to `t` in the phase `Next`: the next statement is
/// sent to be described (after its `start` message), or the check for
/// changes once no statement is left. A statement with a zero byte fails
/// the run.
pub open spec fn next_moves(
    script: Seq<u8>,
    ends: Seq<int>,
    s: RunState,
    t: RunState,
    c0: Seq<u8>,
    c1: Seq<u8>,
    w0: Seq<u8>,
    w1: Seq<u8>,
    r: RunAction,
) -> bool {
    if s.idx < ends.len() {
        let stmt = script.subrange(s.stmt_start as int, ends[s.idx as int]);
        if !has_no_zero(stmt) {
            fails_with(r, ErrorReportView::Message(lit_nul_in_script())) && goes(s, t, RunPhase::Failed)
                && c1 == c0 && w1 == w0
        } else {
            r is Continue && t == RunState { phase: RunPhase::Describe, rowdescr: Seq::empty(), ..s }
                && c1 == c0 + describe_msgs(stmt) && w1 == w0 + start_line(s.pos)
        }
    } else {
        r is Continue && t == RunState { phase: RunPhase::CheckChanges, has_changes: false, ..s } && c1
            == c0 + check_msgs() && w1 == w0
    }
}

/// The step from `s` to `t` that reads a message from the bytes `b0`
/// received (leaving `b1`).
pub open spec fn recv_moves(
    script: Seq<u8>,
    ends: Seq<int>,
    sql: Seq<u8>,
    s: RunState,
    t: RunState,
    b0: Seq<u8>,
    b1: Seq<u8>,
    c0: Seq<u8>,
    c1: Seq<u8>,
    w0: Seq<u8>,
    w1: Seq<u8>,
    r: RunAction,
) -> bool {
    match spec_parse_message(b0) {
        Ok(None) => r is Io && t == s && b1 == b0 && c1 == c0 && w1 == w0,
        Err(e) => fails_with(r, decode_report(s.phase, e)) && goes(s, t, RunPhase::Failed) && b1 == b0
            && c1 == c0 && w1 == w0,
        Ok(Some((n, m))) => b1 == b0.skip(n) && on_message(script, ends, sql, s, m, t, c0, c1, w0, w1, r),
    }
}

/// A step of [`Runner::step`] from `s` to `t`, with the bytes received going
/// from `b0` to `b1`, those queued for the server from `c0` to `c1`, those
/// for the client from `w0` to `w1`, and `r` returned: asks for I/O when
/// too much is queued for the server; in the phase `Next`, starts the next
/// statement; after the check found no changes, commits; while results are
/// being written, pauses when a page is full or sends what is written while
/// the server has nothing more waiting; else reads the first message
/// waiting.
pub open spec fn step_moves(
    script: Seq<u8>,
    ends: Seq<int>,
    sql: Seq<u8>,
    s: RunState,
    t: RunState,
    b0: Seq<u8>,
    b1: Seq<u8>,
    c0: Seq<u8>,
    c1: Seq<u8>,
    w0: Seq<u8>,
    w1: Seq<u8>,
    r: RunAction,
) -> bool {
    if c0.len() > tx_room() {
        r is Io && t == s && still(b0, b1, c0, c1, w0, w1)
    } else if s.phase == RunPhase::Next {
        b1 == b0 && next_moves(script, ends, s, t, c0, c1, w0, w1, r)
    } else if s.phase == RunPhase::SyncPending {
        r is Continue && goes(s, t, RunPhase::Commit) && b1 == b0 && c1 == c0 + bare_msg(0x53) && w1
            == w0
    } else if s.phase == RunPhase::Execute && page_choice(
        s.sent as int,
        w0.len() as int,
        s.rows as int,
        spec_parse_message(b0) == Ok::<Option<(int, Msg)>, Error>(None),
    ) == PageAction::Suspend {
        r == RunAction::Suspend(SuspendReason::TrafficLimitExceeded) && goes(
            s,
            t,
            RunPhase::PageSuspended,
        ) && still(b0, b1, c0, c1, w0, w1)
    } else if s.phase == RunPhase::Execute && page_choice(
        s.sent as int,
        w0.len() as int,
        s.rows as int,
        spec_parse_message(b0) == Ok::<Option<(int, Msg)>, Error>(None),
    ) == PageAction::Flush {
        &&& r matches RunAction::Send(b) && b@ == w0
        &&& w1 == Seq::<u8>::empty()
        &&& t == RunState { sent: s.sent + w0.len(), ..s }
        &&& b1 == b0 && c1 == c0
    } else {
        &&& recv_moves(script, ends, sql, s, t, b0, b1, c0, c1, w0, w1, r)
        &&& (r is Copyout ==> w1.len() + t.sent < page_bytes())
    }
}

/// How a step moves the statement being run: it stays (with where it
/// starts and its position), or the run moves on to the next statement,
/// which starts where this one ends, at this one's position plus its UTF-16
/// code units.
pub open spec fn position_step(script: Seq<u8>, ends: Seq<int>, s: RunState, t: RunState) -> bool {
    ||| t.idx == s.idx && t.stmt_start == s.stmt_start && t.pos == s.pos
    ||| {
        &&& s.idx < ends.len()
        &&& t.idx == s.idx + 1
        &&& t.stmt_start == ends[s.idx as int] as nat
        &&& t.pos == (s.pos + utf16_len_from(script.subrange(s.stmt_start as int, ends[s.idx as int]), 0)) as nat
    }
}

/// The `j`-th step of a run of states moves the statement as
/// [`position_step`] says, over the statements of `script`.
pub open spec fn run_step_at(script: Seq<u8>, rs: Seq<RunState>, j: int) -> bool {
    position_step(script, statement_ends(script, leading_ws_end(script, 0)), rs[j], rs[j + 1])
}

/// The positions law over a whole run: from the state that
/// [`Runner::new`] starts in, through any steps of [`Runner::step`],
/// [`Runner::resume`], [`Runner::copyout_started`] and
/// [`Runner::copyout_done`], the statement being run is statement `idx` of
/// the script, it starts where statement `idx` starts, and its position is
/// the one counted statement by statement ([`start_position`]): the length
/// of the leading whitespace, then each statement before it adds its UTF-16
/// code units. The `start` line of a statement reports that position.
pub proof fn lemma_run_positions(script: Seq<u8>, rs: Seq<RunState>, i: int)
    requires
        0 <= i < rs.len(),
        rs[0].idx == 0,
        rs[0].stmt_start == leading_ws_end(script, 0),
        rs[0].pos == leading_ws_end(script, 0),
        forall|j: int| 0 <= j < rs.len() - 1 ==> #[trigger] run_step_at(script, rs, j),
    ensures
        rs[i].idx <= statement_ends(script, leading_ws_end(script, 0)).len(),
        rs[i].stmt_start == stmt_start(script, rs[i].idx as int),
        rs[i].pos == start_position(script, rs[i].idx as int),
    decreases i,
{
    if i > 0 {
        lemma_run_positions(script, rs, i - 1);
        assert(run_step_at(script, rs, i - 1));
        let s = rs[i - 1];
        let t = rs[i];
        let k = s.idx as int;
        if t.idx != s.idx {
            lemma_stmt_start_order(script, k);
            lemma_utf16_len_bound(stmt_text(script, k), 0);
            assert(stmt_start(script, k + 1) == statement_ends(script, leading_ws_end(script, 0))[k]);
            assert(stmt_text(script, k) == script.subrange(s.stmt_start as int, t.stmt_start as int));
            assert(start_position(script, k + 1) == start_position(script, k) + utf16_len_from(
                stmt_text(script, k),
                0,
            ));
        }
    }
}

/// The notice law: in every phase in which the server may send notices
/// (while a statement is described, while it runs, and while the run
/// commits), a NoticeResponse is passed on to the client as its `notice`
/// line and changes nothing else.
pub proof fn lemma_notice_passed_on(
    script: Seq<u8>,
    ends: Seq<int>,
    sql: Seq<u8>,
    s: RunState,
    f: Seq<(u8, Seq<u8>)>,
    t: RunState,
    c0: Seq<u8>,
    c1: Seq<u8>,
    w0: Seq<u8>,
    w1: Seq<u8>,
    r: RunAction,
)
    requires
        s.phase == RunPhase::Describe || s.phase == RunPhase::Execute || s.phase == RunPhase::Commit,
        on_message(script, ends, sql, s, Msg::NoticeResponse(f), t, c0, c1, w0, w1, r),
    ensures
        r is Continue,
        t == s,
        c1 == c0,
        w1 == w0 + notice_line(f),
{
}

/// The transaction law of the enrichment: before the first statement has
/// run, the enriching query ends with Sync, closing the transaction it
/// opened; after, it ends with Close of the unnamed portal and Flush, so
/// that what the statements before it changed stays uncommitted until the
/// check for changes.
pub proof fn lemma_enrich_keeps_transaction(prepared: bool, rowdescr: Seq<u8>, sql: Seq<u8>)
    ensures
        exists|x: Seq<u8>| enrich_msgs(prepared, false, rowdescr, sql) == x + close_portal_msg(
            Seq::empty(),
        ) + bare_msg(0x48),
        exists|x: Seq<u8>| enrich_msgs(prepared, true, rowdescr, sql) == x + bare_msg(0x53),
{
    let head = (if prepared {
        Seq::empty()
    } else {
        parse_msg(lit_enrich_stmt_name(), seq![JSON_OID], sql)
    }) + bind_msg(lit_enrich_stmt_name(), Seq::empty(), seq![1i16], seq![1i16], seq![Some(rowdescr)])
        + execute_msg(Seq::empty(), 0);
    assert(enrich_msgs(prepared, false, rowdescr, sql) =~= head + close_portal_msg(Seq::empty())
        + bare_msg(0x48));
    assert(enrich_msgs(prepared, true, rowdescr, sql) =~= head + bare_msg(0x53));
}

/// A message handled by the run moves the statement as [`position_step`]
/// says.
proof fn lemma_on_message_position(
    script: Seq<u8>,
    ends: Seq<int>,
    sql: Seq<u8>,
    s: RunState,
    m: Msg,
    t: RunState,
    c0: Seq<u8>,
    c1: Seq<u8>,
    w0: Seq<u8>,
    w1: Seq<u8>,
    r: RunAction,
)
    requires
        on_message(script, ends, sql, s, m, t, c0, c1, w0, w1, r),
        s.phase == RunPhase::Execute ==> s.idx < ends.len(),
    ensures
        position_step(script, ends, s, t),
{
}

/// A step of [`Runner::step`] moves the statement as [`position_step`]
/// says.
proof fn lemma_step_position(
    script: Seq<u8>,
    ends: Seq<int>,
    sql: Seq<u8>,
    s: RunState,
    t: RunState,
    b0: Seq<u8>,
    b1: Seq<u8>,
    c0: Seq<u8>,
    c1: Seq<u8>,
    w0: Seq<u8>,
    w1: Seq<u8>,
    r: RunAction,
)
    requires
        step_moves(script, ends, sql, s, t, b0, b1, c0, c1, w0, w1, r),
        s.phase == RunPhase::Execute ==> s.idx < ends.len(),
    ensures
        position_step(script, ends, s, t),
{
    if c0.len() <= tx_room() && s.phase != RunPhase::Next && s.phase != RunPhase::SyncPending {
        if let Ok(Some((n, m))) = spec_parse_message(b0) {
            if !(s.phase == RunPhase::Execute && page_choice(
                s.sent as int,
                w0.len() as int,
                s.rows as int,
                spec_parse_message(b0) == Ok::<Option<(int, Msg)>, Error>(None),
            ) != PageAction::Receive) {
                lemma_on_message_position(script, ends, sql, s, m, t, c0, c1, w0, w1, r);
            }
        }
    }
}

/// Whether a runner in `phase` can step.
pub open spec fn steps(phase: RunPhase) -> bool {
    phase == RunPhase::Next || phase == RunPhase::Describe || phase == RunPhase::Enrich || phase
        == RunPhase::Execute || phase == RunPhase::CheckChanges || phase == RunPhase::SyncPending
        || phase == RunPhase::Commit
}

/// Where the statements of `script` end, given where the first starts.
pub open spec fn ends_of(ends: Seq<usize>) -> Seq<int> {
    ends.map_values(|e: usize| e as int)
}

proof fn lemma_msg_lens(stmt: Seq<u8>, name: Seq<u8>, sql: Seq<u8>, rd: Seq<u8>)
    ensures
        parse_msg(Seq::empty(), Seq::empty(), stmt).len() == stmt.len() + 9,
        parse_msg(name, seq![JSON_OID], sql).len() == name.len() + sql.len() + 13,
        describe_stmt_msg(Seq::empty()).len() == 7,
        close_portal_msg(Seq::empty()).len() == 7,
        execute_msg(Seq::empty(), 0).len() == 10,
        bind_msg(Seq::empty(), Seq::empty(), Seq::empty(), Seq::empty(), Seq::empty()).len() == 13,
        bind_msg(name, Seq::empty(), seq![1i16], seq![1i16], seq![Some(rd)]).len() == name.len()
            + rd.len() + 21,
        copy_fail_msg(lit_copy_fail_reason()).len() == 35,
        forall|c: u8| #[trigger] bare_msg(c).len() == 5,
{
    lemma_oids_bytes_len(Seq::empty());
    lemma_oids_bytes_len(seq![JSON_OID]);
    lemma_formats_bytes_len(Seq::empty());
    lemma_formats_bytes_len(seq![1i16]);
    lemma_values_bytes_len(Seq::empty());
    lemma_values_bytes_len(seq![Some(rd)]);
    assert(seq![Some(rd)].drop_last() =~= Seq::<Option<Seq<u8>>>::empty());
    assert(seq![1i16].drop_last() =~= Seq::<i16>::empty());
    assert(seq![JSON_OID].drop_last() =~= Seq::<u32>::empty());
}

fn message_report(text: &[u8]) -> (r: ErrorReport)
    ensures
        r@ == ErrorReportView::Message(text@),
{
    ErrorReport::Message(vstd::slice::slice_to_vec(text))
}

impl Runner {
    #[verifier::type_invariant]
    spec fn inv(self) -> bool {
        &&& self.script@.len() <= max_script_len()
        &&& self.enrich_sql@.len() <= max_script_len()
        &&& has_no_zero(self.enrich_sql@)
        &&& forall|k: int|
            0 <= k < self.ends@.len() ==> self.first < #[trigger] self.ends@[k] <= self.script@.len()
        &&& forall|i: int, j: int|
            0 <= i < j < self.ends@.len() ==> #[trigger] self.ends@[i] < #[trigger] self.ends@[j]
        &&& self.at.idx <= self.ends@.len()
        &&& self.at.stmt_start == self.stmt_start_of(self.at.idx as int)
        &&& self.at.stmt_start <= self.script@.len()
        &&& self.at.pos <= self.at.stmt_start
        &&& valid_utf8(self.script@.subrange(0, self.at.stmt_start as int))
        &&& self.at.pos == utf16_len_from(self.script@.subrange(0, self.at.stmt_start as int), 0)
        &&& (self.at.phase == RunPhase::Describe || self.at.phase == RunPhase::Enrich
            || self.at.phase == RunPhase::Execute || self.at.phase == RunPhase::Copyout
            || self.at.phase == RunPhase::PageSuspended) ==> self.at.idx < self.ends@.len()
        &&& self.at.sent <= page_bytes() + 256
        &&& self.at.rows <= page_rows()
        &&& self.first <= self.script@.len()
        &&& self.first == leading_ws_end(self.script@, 0)
        &&& ends_of(self.ends@) == statement_ends(self.script@, self.first as int)
        &&& self.at.pos == start_position(self.script@, self.at.idx as int)
    }

    /// Where statement `k` starts.
    spec fn stmt_start_of(self, k: int) -> int {
        if k == 0 {
            self.first as int
        } else {
            self.ends@[k - 1] as int
        }
    }

    /// The script.
    pub closed spec fn script(self) -> Seq<u8> {
        self.script@
    }

    /// Where the statements of the script end.
    pub closed spec fn ends(self) -> Seq<int> {
        ends_of(self.ends@)
    }

    /// The query that enriches column descriptions.
    pub closed spec fn enrich_sql(self) -> Seq<u8> {
        self.enrich_sql@
    }

    pub closed spec fn state(self) -> RunState {
        RunState {
            phase: self.at.phase,
            idx: self.at.idx as nat,
            stmt_start: self.at.stmt_start as nat,
            pos: self.at.pos as nat,
            prepared: self.at.prepared,
            fresh: self.at.fresh,
            rowdescr: self.rowdescr@,
            sent: self.at.sent as nat,
            rows: self.at.rows as nat,
            has_changes: self.at.has_changes,
        }
    }
}


/// The end `e[k]` follows the end before it (or `start`, for the first)
/// and is within `len`.
pub open spec fn follows(e: Seq<int>, start: int, len: int, k: int) -> bool {
    (if k == 0 {
        start
    } else {
        e[k - 1]
    }) < e[k] <= len
}

proof fn lemma_ends_pair(e: Seq<int>, start: int, len: int, i: int, j: int)
    requires
        forall|k: int| 0 <= k < e.len() ==> #[trigger] follows(e, start, len, k),
        0 <= i < j < e.len(),
    ensures
        e[i] < e[j],
    decreases j - i,
{
    assert(follows(e, start, len, j));
    if i < j - 1 {
        lemma_ends_pair(e, start, len, i, j - 1);
    }
}

proof fn lemma_ends_first(e: Seq<int>, start: int, len: int, k: int)
    requires
        forall|m: int| 0 <= m < e.len() ==> #[trigger] follows(e, start, len, m),
        0 <= k < e.len(),
    ensures
        start < e[k] <= len,
    decreases k,
{
    assert(follows(e, start, len, k));
    if k > 0 {
        lemma_ends_first(e, start, len, k - 1);
    }
}

fn send_describe(conn: &mut Connection, stmt: NZStr<'_>)
    requires
        stmt@.len() <= max_script_len(),
        old(conn).tx().len() <= tx_room(),
    ensures
        final(conn).tx() == old(conn).tx() + describe_msgs(stmt@),
        final(conn).backend_key() == old(conn).backend_key(),
{
    let un = unnamed();
    let none: [u32; 0] = [];
    assert(none@ =~= Seq::<u32>::empty());
    proof {
        lemma_msg_lens(stmt@, Seq::empty(), Seq::empty(), Seq::empty());
    }
    let ghost c0 = conn.tx();
    conn.send_parse(un, none.as_slice(), stmt);
    conn.send_describe_stmt(un);
    conn.send_close_portal();
    conn.send_flush();
    assert(conn.tx() =~= c0 + describe_msgs(stmt@));
}

fn send_check(conn: &mut Connection)
    requires
        old(conn).tx().len() <= tx_room(),
    ensures
        final(conn).tx() == old(conn).tx() + check_msgs(),
        final(conn).backend_key() == old(conn).backend_key(),
{
    let un = unnamed();
    let none: [u32; 0] = [];
    assert(none@ =~= Seq::<u32>::empty());
    let check_bytes = lit_check_changes_sql_bytes();
    proof {
        assert forall|k: int| 0 <= k < check_bytes@.len() implies #[trigger] check_bytes@[k] != 0 by {}
        lemma_msg_lens(check_bytes@, Seq::empty(), Seq::empty(), Seq::empty());
    }
    let check = nz_literal(check_bytes);
    let no_params: [Option<&[u8]>; 0] = [];
    assert(no_params@ =~= Seq::<Option<&[u8]>>::empty());
    assert(crate::pg::encode::param_values(no_params@) =~= Seq::<Option<Seq<u8>>>::empty());
    let ghost c0 = conn.tx();
    conn.send_parse(un, none.as_slice(), check);
    conn.send_bind(un, no_params.as_slice());
    conn.send_execute();
    conn.send_close_portal();
    conn.send_flush();
    assert(conn.tx() =~= c0 + check_msgs());
}

fn send_execute_stmt(conn: &mut Connection)
    requires
        old(conn).tx().len() <= tx_room() + max_script_len() * 8,
    ensures
        final(conn).tx() == old(conn).tx() + execute_msgs(),
        final(conn).backend_key() == old(conn).backend_key(),
{
    let un = unnamed();
    let no_params: [Option<&[u8]>; 0] = [];
    assert(no_params@ =~= Seq::<Option<&[u8]>>::empty());
    assert(crate::pg::encode::param_values(no_params@) =~= Seq::<Option<Seq<u8>>>::empty());
    proof {
        lemma_msg_lens(Seq::empty(), Seq::empty(), Seq::empty(), Seq::empty());
    }
    let ghost c0 = conn.tx();
    conn.send_bind(un, no_params.as_slice());
    conn.send_execute();
    conn.send_flush();
    assert(conn.tx() =~= c0 + execute_msgs());
}

fn send_enrich(conn: &mut Connection, prepared: bool, fresh: bool, rowdescr: &[u8], sql: &[u8])
    requires
        has_no_zero(sql@),
        sql@.len() <= max_script_len(),
        rowdescr@.len() + 40 <= i32::MAX,
        old(conn).tx().len() <= tx_room(),
    ensures
        final(conn).tx() == old(conn).tx() + enrich_msgs(prepared, fresh, rowdescr@, sql@),
        final(conn).backend_key() == old(conn).backend_key(),
{
    let un = unnamed();
    let name_bytes = lit_enrich_stmt_name_bytes();
    proof {
        assert forall|k: int| 0 <= k < name_bytes@.len() implies #[trigger] name_bytes@[k] != 0 by {}
        lemma_msg_lens(Seq::empty(), name_bytes@, sql@, rowdescr@);
    }
    let name = nz_literal(name_bytes);
    let ghost c0 = conn.tx();
    if !prepared {
        let oids: [u32; 1] = [JSON_OID];
        assert(oids@ =~= seq![JSON_OID]);
        conn.send_parse(name, oids.as_slice(), NZStr::from_nonzero(sql));
    }
    let ghost c1 = conn.tx();
    let params: [Option<&[u8]>; 1] = [Some(rowdescr)];
    assert(crate::pg::encode::param_values(params@) =~= seq![Some(rowdescr@)]);
    conn.send_bind_bin(name, params.as_slice());
    conn.send_execute();
    if fresh {
        conn.send_sync();
    } else {
        conn.send_close_portal();
        conn.send_flush();
    }
    assert(conn.tx() =~= c0 + enrich_msgs(prepared, fresh, rowdescr@, sql@));
}

fn prefixed_report(prefix: &[u8], text: &[u8]) -> (r: ErrorReport)
    ensures
        r@ == ErrorReportView::Message(prefix@ + text@),
{
    let mut m = vstd::slice::slice_to_vec(prefix);
    push_all(&mut m, text);
    ErrorReport::Message(m)
}

/// The first value of a row, or `null`.
pub fn head_payload_of<'a>(vals: &Vec<Option<&'a [u8]>>) -> (r: &'a [u8])
    ensures
        r@ == head_payload(vals@.map_values(|v: Option<&'a [u8]>| crate::pg::decode::opt_view(v))),
{
    let ghost vs = vals@.map_values(|v: Option<&'a [u8]>| crate::pg::decode::opt_view(v));
    if vals.len() > 0 {
        assert(vs[0] == crate::pg::decode::opt_view(vals@[0]));
        match vals[0] {
            Some(v) => v,
            None => lit_null_bytes_bytes(),
        }
    } else {
        lit_null_bytes_bytes()
    }
}

fn nz_literal(b: &'static [u8]) -> (r: NZStr<'static>)
    requires
        has_no_zero(b@),
    ensures
        r@ == b@,
{
    NZStr::from_nonzero(b)
}

impl Runner {
    /// A run of `script`, its statements split at their boundaries after
    /// the leading whitespace, with `enrich_sql` as the query that enriches
    /// column descriptions.
    pub fn new(script: &[u8], enrich_sql: NZStr<'_>) -> (r: Runner)
        requires
            script@.len() <= max_script_len(),
            enrich_sql@.len() <= max_script_len(),
        ensures
            r.script() == script@,
            r.enrich_sql() == enrich_sql@,
            r.ends() == statement_ends(script@, leading_ws_end(script@, 0)),
            r.state() == (RunState {
                phase: RunPhase::Next,
                idx: 0,
                stmt_start: leading_ws_end(script@, 0) as nat,
                pos: leading_ws_end(script@, 0) as nat,
                prepared: false,
                fresh: true,
                rowdescr: Seq::empty(),
                sent: 0,
                rows: 0,
                has_changes: false,
            }),
    {
        let split = split_script(script);
        proof {
            lemma_statement_ends(script@, split.start as int);
        }
        let sql = enrich_sql.as_bytes();
        proof {
            let prefix = script@.subrange(0, split.start as int);
            lemma_leading_ws(script@, 0);
            assert forall|k: int| 0 <= k < prefix.len() implies #[trigger] prefix[k] < 0x80 by {
                assert(is_ascii_whitespace(script@[k]));
            }
            lemma_ascii_valid_utf8(prefix);
            lemma_utf16_len_ascii(prefix, 0);
            let se = statement_ends(script@, split.start as int);
            let e = split.ends@;
            assert forall|k: int| 0 <= k < e.len() implies #[trigger] e[k] as int == se[k] by {
                assert(e.map_values(|x: usize| x as int)[k] == e[k] as int);
            }
            let st = split.start as int;
            let n = script@.len() as int;
            assert forall|k: int| 0 <= k < se.len() implies #[trigger] follows(se, st, n, k) by {
                assert(se[k] == statement_ends(script@, st)[k]);
            }
            assert forall|k: int| 0 <= k < e.len() implies split.start < #[trigger] e[k]
                <= script@.len() by {
                assert(se[k] == e[k] as int);
                lemma_ends_first(se, st, n, k);
            }
            assert forall|i: int, j: int| 0 <= i < j < e.len() implies #[trigger] e[i] < #[trigger] e[j] by {
                assert(se[i] == e[i] as int);
                assert(se[j] == e[j] as int);
                lemma_ends_pair(se, st, n, i, j);
            }
            assert(ends_of(e) =~= se);
        }
        let at = Progress {
            phase: RunPhase::Next,
            idx: 0,
            stmt_start: split.start,
            pos: split.start,
            prepared: false,
            fresh: true,
            sent: 0,
            rows: 0,
            has_changes: false,
        };
        let script_copy = vstd::slice::slice_to_vec(script);
        let sql_copy = vstd::slice::slice_to_vec(sql);
        let r = Runner {
            script: script_copy,
            first: split.start,
            ends: split.ends,
            enrich_sql: sql_copy,
            at,
            rowdescr: Vec::new(),
        };
        assert(r.rowdescr@ =~= Seq::<u8>::empty());
        r
    }

    /// The position of the statement being run (or next) in UTF-16 code
    /// units: the length of the text before it, which is valid UTF-8; the
    /// same as counting statement by statement from the leading whitespace.
    pub fn position(&self) -> (r: usize)
        ensures
            r == self.state().pos,
            r == start_position(self.script(), self.state().idx as int),
            valid_utf8(self.script().subrange(0, self.state().stmt_start as int)),
            r == utf16_len_from(self.script().subrange(0, self.state().stmt_start as int), 0),
    {
        proof {
            use_type_invariant(self);
        }
        self.at.pos
    }

    /// The phase of the run.
    pub fn phase(&self) -> (r: RunPhase)
        ensures
            r == self.state().phase,
    {
        self.at.phase
    }

    #[verifier::spinoff_prover]
    #[verifier::rlimit(100)]
    fn step_next(&mut self, conn: &mut Connection, msgw: &mut MessageWriter) -> (r: RunAction)
        requires
            old(self).state().phase == RunPhase::Next,
            old(conn).tx().len() <= tx_room(),
        ensures
            next_moves(
                old(self).script(),
                old(self).ends(),
                old(self).state(),
                final(self).state(),
                old(conn).tx(),
                final(conn).tx(),
                old(msgw)@,
                final(msgw)@,
                r,
            ),
            final(self).script() == old(self).script(),
            final(self).ends() == old(self).ends(),
            final(self).enrich_sql() == old(self).enrich_sql(),
            final(conn).backend_key() == old(conn).backend_key(),
    {
        proof {
            use_type_invariant(&*self);
        }
        if self.at.idx < self.ends.len() {
            let end = self.ends[self.at.idx];
            assert(ends_of(self.ends@)[self.at.idx as int] == end as int);
            let stmt = vstd::slice::slice_subrange(self.script.as_slice(), self.at.stmt_start, end);
            match NZStr::from_bytes(stmt) {
                None => {
                    let mut at = self.at;
                    at.phase = RunPhase::Failed;
                    self.at = at;
                    RunAction::Failed(message_report(lit_nul_in_script_bytes()))
                },
                Some(nz) => {
                    let ghost w0 = msgw@;
                    msgw.write_start(self.at.pos);
                    assert(msgw@ =~= w0 + start_line(self.at.pos as nat));
                    send_describe(conn, nz);
                    let mut at = self.at;
                    at.phase = RunPhase::Describe;
                    self.rowdescr = Vec::new();
                    self.at = at;
                    assert(self.rowdescr@ =~= Seq::<u8>::empty());
                    RunAction::Continue
                },
            }
        } else {
            send_check(conn);
            let mut at = self.at;
            at.phase = RunPhase::CheckChanges;
            at.has_changes = false;
            self.at = at;
            RunAction::Continue
        }
    }
}


impl Runner {
    fn set_phase(&mut self, phase: RunPhase)
        requires
            !(phase == RunPhase::Describe || phase == RunPhase::Enrich || phase == RunPhase::Execute
                || phase == RunPhase::Copyout || phase == RunPhase::PageSuspended) || old(self).state().idx
                < old(self).ends().len(),
        ensures
            final(self).state() == (RunState { phase, ..old(self).state() }),
            final(self).script() == old(self).script(),
            final(self).ends() == old(self).ends(),
            final(self).enrich_sql() == old(self).enrich_sql(),
    {
        proof {
            use_type_invariant(&*self);
        }
        let mut at = self.at;
        at.phase = phase;
        self.at = at;
    }

    #[verifier::spinoff_prover]
    fn on_describe(&mut self, msg: BackendMessage<'_>, conn: &mut Connection, msgw: &mut MessageWriter) -> (r:
        RunAction)
        requires
            old(self).state().phase == RunPhase::Describe,
            old(conn).tx().len() <= tx_room(),
        ensures
            on_message(
                old(self).script(),
                old(self).ends(),
                old(self).enrich_sql(),
                old(self).state(),
                msg@,
                final(self).state(),
                old(conn).tx(),
                final(conn).tx(),
                old(msgw)@,
                final(msgw)@,
                r,
            ),
            final(self).script() == old(self).script(),
            final(self).ends() == old(self).ends(),
            final(self).enrich_sql() == old(self).enrich_sql(),
            final(conn).backend_key() == old(conn).backend_key(),
    {
        proof {
            use_type_invariant(&*self);
        }
        match msg {
            BackendMessage::ErrorResponse(d) => {
                self.set_phase(RunPhase::Failed);
                RunAction::Failed(ErrorReport::Db(d))
            },
            BackendMessage::RowDescription(fields) => {
                let mut rd: Vec<u8> = Vec::new();
                std::mem::swap(&mut rd, &mut self.rowdescr);
                let ghost before = rd@;
                json_rowdescr(fields.as_slice(), &mut rd);
                assert(fields@.map_values(|f: crate::pg::decode::Field<'_>| f@) =~= crate::pg::decode::fields_view(
                    fields@,
                ));
                self.rowdescr = rd;
                RunAction::Continue
            },
            BackendMessage::NoticeResponse(d) => {
                let ghost w0 = msgw@;
                msgw.write_notice(&d);
                assert(msgw@ =~= w0 + notice_line(d@));
                RunAction::Continue
            },
            BackendMessage::CloseComplete => {
                if self.rowdescr.len() == 0 {
                    send_execute_stmt(conn);
                    let mut at = self.at;
                    at.phase = RunPhase::Execute;
                    at.fresh = false;
                    self.at = at;
                    RunAction::Continue
                } else if self.rowdescr.len() > 0x7fff_ffff - 40 {
                    self.set_phase(RunPhase::Failed);
                    RunAction::Failed(message_report(lit_message_too_long_bytes()))
                } else {
                    send_enrich(
                        conn,
                        self.at.prepared,
                        self.at.fresh,
                        self.rowdescr.as_slice(),
                        self.enrich_sql.as_slice(),
                    );
                    let mut at = self.at;
                    at.phase = RunPhase::Enrich;
                    at.prepared = true;
                    self.at = at;
                    RunAction::Continue
                }
            },
            _ => RunAction::Continue,
        }
    }

    #[verifier::spinoff_prover]
    fn on_enrich(&mut self, msg: BackendMessage<'_>, conn: &mut Connection, msgw: &mut MessageWriter) -> (r:
        RunAction)
        requires
            old(self).state().phase == RunPhase::Enrich,
            old(conn).tx().len() <= tx_room(),
        ensures
            on_message(
                old(self).script(),
                old(self).ends(),
                old(self).enrich_sql(),
                old(self).state(),
                msg@,
                final(self).state(),
                old(conn).tx(),
                final(conn).tx(),
                old(msgw)@,
                final(msgw)@,
                r,
            ),
            final(self).script() == old(self).script(),
            final(self).ends() == old(self).ends(),
            final(self).enrich_sql() == old(self).enrich_sql(),
            final(conn).backend_key() == old(conn).backend_key(),
    {
        proof {
            use_type_invariant(&*self);
        }
        match msg {
            BackendMessage::ErrorResponse(d) => {
                self.set_phase(RunPhase::Failed);
                let text = d.display();
                RunAction::Failed(prefixed_report(lit_enrich_failed_bytes(), text.as_slice()))
            },
            BackendMessage::DataRow(row) => {
                let vals = row.values_vec();
                let payload = head_payload_of(&vals);
                let ghost w0 = msgw@;
                msgw.write_head(payload);
                assert(msgw@ =~= w0 + head_line(row.values()));
                RunAction::Continue
            },
            BackendMessage::CloseComplete | BackendMessage::ReadyForQuery { .. } => {
                send_execute_stmt(conn);
                let mut at = self.at;
                at.phase = RunPhase::Execute;
                at.fresh = false;
                self.at = at;
                RunAction::Continue
            },
            _ => RunAction::Continue,
        }
    }

    #[verifier::spinoff_prover]
    #[verifier::rlimit(40)]
    fn on_execute(&mut self, msg: BackendMessage<'_>, conn: &mut Connection, msgw: &mut MessageWriter) -> (r:
        RunAction)
        requires
            old(self).state().phase == RunPhase::Execute,
            old(self).state().rows < page_rows(),
            old(conn).tx().len() <= tx_room(),
        ensures
            on_message(
                old(self).script(),
                old(self).ends(),
                old(self).enrich_sql(),
                old(self).state(),
                msg@,
                final(self).state(),
                old(conn).tx(),
                final(conn).tx(),
                old(msgw)@,
                final(msgw)@,
                r,
            ),
            final(self).script() == old(self).script(),
            final(self).ends() == old(self).ends(),
            final(self).enrich_sql() == old(self).enrich_sql(),
            final(conn).backend_key() == old(conn).backend_key(),
    {
        proof {
            use_type_invariant(&*self);
        }
        match msg {
            BackendMessage::ErrorResponse(d) => {
                self.set_phase(RunPhase::Failed);
                RunAction::Failed(ErrorReport::Db(d))
            },
            BackendMessage::DataRow(row) => {
                let ghost w0 = msgw@;
                msgw.write_row(row);
                assert(msgw@ =~= w0 + row_line(row.values()));
                let mut at = self.at;
                at.rows = at.rows + 1;
                self.at = at;
                RunAction::Continue
            },
            BackendMessage::CopyInResponse(_) => {
                proof {
                    lemma_msg_lens(Seq::empty(), Seq::empty(), Seq::empty(), Seq::empty());
                }
                conn.send_copy_fail();
                RunAction::Continue
            },
            BackendMessage::CopyOutResponse(_) => {
                self.set_phase(RunPhase::Copyout);
                RunAction::Copyout
            },
            BackendMessage::NoticeResponse(d) => {
                let ghost w0 = msgw@;
                msgw.write_notice(&d);
                assert(msgw@ =~= w0 + notice_line(d@));
                RunAction::Continue
            },
            BackendMessage::EmptyQueryResponse { tag } | BackendMessage::PortalSuspended { tag }
            | BackendMessage::CommandComplete { tag } => {
                let ghost w0 = msgw@;
                msgw.write_complete(tag);
                assert(msgw@ =~= w0 + complete_line(tag@));
                proof {
                    lemma_msg_lens(Seq::empty(), Seq::empty(), Seq::empty(), Seq::empty());
                }
                let ghost c0 = conn.tx();
                conn.send_close_portal();
                conn.send_flush();
                assert(conn.tx() =~= c0 + close_portal_msg(Seq::empty()) + bare_msg(0x48));
                RunAction::Continue
            },
            BackendMessage::CloseComplete => {
                let count = self.ends.len();
                let end = self.ends[self.at.idx];
                assert(ends_of(self.ends@)[self.at.idx as int] == end as int);
                assert(self.at.stmt_start <= end) by {
                    if self.at.idx > 0 {
                        assert(self.ends@[self.at.idx - 1] < self.ends@[self.at.idx as int]);
                    }
                }
                let stmt = vstd::slice::slice_subrange(self.script.as_slice(), self.at.stmt_start, end);
                match utf16_len(stmt) {
                    None => {
                        self.set_phase(RunPhase::Failed);
                        RunAction::Failed(message_report(lit_script_not_utf8_bytes()))
                    },
                    Some(u) => {
                        proof {
                            lemma_utf16_len_bound(stmt@, 0);
                            let prefix = self.script@.subrange(0, self.at.stmt_start as int);
                            assert(prefix + stmt@ =~= self.script@.subrange(0, end as int));
                            vstd::utf8::valid_utf8_concat(prefix, stmt@);
                            assert(prefix.subrange(0, prefix.len() as int) =~= prefix);
                            lemma_utf16_len_concat(prefix, stmt@, 0);
                            let s = self.script@;
                            let k = self.at.idx as int;
                            assert(stmt_start(s, k) == self.at.stmt_start) by {
                                if k > 0 {
                                    assert(ends_of(self.ends@)[k - 1] == self.ends@[k - 1] as int);
                                }
                            }
                            assert(stmt_start(s, k + 1) == end as int);
                            assert(stmt_text(s, k) =~= stmt@);
                            assert(start_position(s, k + 1) == start_position(s, k) + utf16_len_from(
                                stmt_text(s, k),
                                0,
                            ));
                        }
                        let mut at = self.at;
                        at.phase = RunPhase::Next;
                        at.idx = at.idx + 1;
                        at.stmt_start = end;
                        at.pos = at.pos + u;
                        self.at = at;
                        RunAction::Continue
                    },
                }
            },
            _ => RunAction::Continue,
        }
    }

    #[verifier::spinoff_prover]
    fn on_check(&mut self, msg: BackendMessage<'_>, conn: &mut Connection, msgw: &mut MessageWriter) -> (r:
        RunAction)
        requires
            old(self).state().phase == RunPhase::CheckChanges,
            old(conn).tx().len() <= tx_room(),
        ensures
            on_message(
                old(self).script(),
                old(self).ends(),
                old(self).enrich_sql(),
                old(self).state(),
                msg@,
                final(self).state(),
                old(conn).tx(),
                final(conn).tx(),
                old(msgw)@,
                final(msgw)@,
                r,
            ),
            final(self).script() == old(self).script(),
            final(self).ends() == old(self).ends(),
            final(self).enrich_sql() == old(self).enrich_sql(),
            final(conn).backend_key() == old(conn).backend_key(),
    {
        proof {
            use_type_invariant(&*self);
        }
        match msg {
            BackendMessage::ErrorResponse(d) => {
                self.set_phase(RunPhase::Failed);
                let text = d.display();
                RunAction::Failed(prefixed_report(lit_check_failed_bytes(), text.as_slice()))
            },
            BackendMessage::DataRow(_) => {
                let mut at = self.at;
                at.has_changes = true;
                self.at = at;
                RunAction::Continue
            },
            BackendMessage::CloseComplete => {
                if self.at.has_changes {
                    self.set_phase(RunPhase::IdleSuspended);
                    RunAction::Suspend(SuspendReason::IdleInTransaction)
                } else {
                    conn.send_sync();
                    self.set_phase(RunPhase::Commit);
                    RunAction::Continue
                }
            },
            _ => RunAction::Continue,
        }
    }

    #[verifier::spinoff_prover]
    fn on_commit(&mut self, msg: BackendMessage<'_>, conn: &mut Connection, msgw: &mut MessageWriter) -> (r:
        RunAction)
        requires
            old(self).state().phase == RunPhase::Commit,
            old(conn).tx().len() <= tx_room(),
        ensures
            on_message(
                old(self).script(),
                old(self).ends(),
                old(self).enrich_sql(),
                old(self).state(),
                msg@,
                final(self).state(),
                old(conn).tx(),
                final(conn).tx(),
                old(msgw)@,
                final(msgw)@,
                r,
            ),
            final(self).script() == old(self).script(),
            final(self).ends() == old(self).ends(),
            final(self).enrich_sql() == old(self).enrich_sql(),
            final(conn).backend_key() == old(conn).backend_key(),
    {
        match msg {
            BackendMessage::ErrorResponse(d) => {
                self.set_phase(RunPhase::Failed);
                RunAction::Failed(ErrorReport::Db(d))
            },
            BackendMessage::NoticeResponse(d) => {
                let ghost w0 = msgw@;
                msgw.write_notice(&d);
                assert(msgw@ =~= w0 + notice_line(d@));
                RunAction::Continue
            },
            BackendMessage::ReadyForQuery { .. } => {
                self.set_phase(RunPhase::Done);
                RunAction::Done
            },
            _ => RunAction::Continue,
        }
    }
}


/// The bytes received and those queued for the server, and those for the
/// client, stay as they were.
pub open spec fn still(b0: Seq<u8>, b1: Seq<u8>, c0: Seq<u8>, c1: Seq<u8>, w0: Seq<u8>, w1: Seq<u8>) -> bool {
    b1 == b0 && c1 == c0 && w1 == w0
}

impl Runner {
    fn fail_decode(&mut self, e: Error) -> (r: RunAction)
        requires
            steps(old(self).state().phase),
        ensures
            fails_with(r, decode_report(old(self).state().phase, e)),
            goes(old(self).state(), final(self).state(), RunPhase::Failed),
            final(self).script() == old(self).script(),
            final(self).ends() == old(self).ends(),
            final(self).enrich_sql() == old(self).enrich_sql(),
    {
        let phase = self.at.phase;
        self.set_phase(RunPhase::Failed);
        if phase == RunPhase::Enrich {
            RunAction::Failed(prefixed_report(lit_enrich_failed_bytes(), e.name()))
        } else if phase == RunPhase::CheckChanges {
            RunAction::Failed(prefixed_report(lit_check_failed_bytes(), e.name()))
        } else {
            RunAction::Failed(message_report(e.name()))
        }
    }

    /// Takes the next step of the run: sends the next statement, or, when
    /// results are being written, pauses when a page is full or sends what
    /// is written while the server has nothing more waiting; else handles
    /// the first message waiting in `rx`. Asks for I/O when too much is
    /// queued for the server or no whole message is waiting.
    pub fn step(&mut self, rx: &mut RxBuf, conn: &mut Connection, msgw: &mut MessageWriter) -> (r:
        RunAction)
        requires
            steps(old(self).state().phase),
        ensures
            final(self).script() == old(self).script(),
            final(self).ends() == old(self).ends(),
            final(self).enrich_sql() == old(self).enrich_sql(),
            final(conn).backend_key() == old(conn).backend_key(),
            step_moves(
                old(self).script(),
                old(self).ends(),
                old(self).enrich_sql(),
                old(self).state(),
                final(self).state(),
                old(rx)@,
                final(rx)@,
                old(conn).tx(),
                final(conn).tx(),
                old(msgw)@,
                final(msgw)@,
                r,
            ),
            position_step(old(self).script(), old(self).ends(), old(self).state(), final(self).state()),
    {
        proof {
            use_type_invariant(&*self);
        }
        let ghost script = self.script();
        let ghost ends = self.ends();
        let ghost sql = self.enrich_sql();
        let ghost s0 = self.state();
        let ghost b0 = rx@;
        let ghost c0 = conn.tx();
        let ghost w0 = msgw@;
        let r = self.step_inner(rx, conn, msgw);
        proof {
            lemma_step_position(script, ends, sql, s0, self.state(), b0, rx@, c0, conn.tx(), w0, msgw@, r);
        }
        r
    }

    fn step_inner(&mut self, rx: &mut RxBuf, conn: &mut Connection, msgw: &mut MessageWriter) -> (r:
        RunAction)
        requires
            steps(old(self).state().phase),
        ensures
            final(self).script() == old(self).script(),
            final(self).ends() == old(self).ends(),
            final(self).enrich_sql() == old(self).enrich_sql(),
            final(conn).backend_key() == old(conn).backend_key(),
            step_moves(
                old(self).script(),
                old(self).ends(),
                old(self).enrich_sql(),
                old(self).state(),
                final(self).state(),
                old(rx)@,
                final(rx)@,
                old(conn).tx(),
                final(conn).tx(),
                old(msgw)@,
                final(msgw)@,
                r,
            ),
    {
        proof {
            use_type_invariant(&*self);
        }
        if conn.tx_len() > 0x1000_0000 {
            return RunAction::Io;
        }
        if self.at.phase == RunPhase::Next {
            return self.step_next(conn, msgw);
        }
        if self.at.phase == RunPhase::SyncPending {
            conn.send_sync();
            self.set_phase(RunPhase::Commit);
            return RunAction::Continue;
        }
        if self.at.phase == RunPhase::Execute {
            let drained = rx.is_drained();
            match page_action(self.at.sent, msgw.len(), self.at.rows, drained) {
                PageAction::Suspend => {
                    self.set_phase(RunPhase::PageSuspended);
                    return RunAction::Suspend(SuspendReason::TrafficLimitExceeded);
                },
                PageAction::Flush => {
                    let bytes = msgw.take();
                    let mut at = self.at;
                    at.sent = at.sent + bytes.len();
                    self.at = at;
                    return RunAction::Send(bytes);
                },
                PageAction::Receive => {},
            }
        }
        let n: usize;
        let r: RunAction;
        match rx.peek() {
            Ok(None) => {
                return RunAction::Io;
            },
            Err(e) => {
                return self.fail_decode(e);
            },
            Ok(Some((len, msg))) => {
                n = len;
                r = if self.at.phase == RunPhase::Describe {
                    self.on_describe(msg, conn, msgw)
                } else if self.at.phase == RunPhase::Enrich {
                    self.on_enrich(msg, conn, msgw)
                } else if self.at.phase == RunPhase::Execute {
                    self.on_execute(msg, conn, msgw)
                } else if self.at.phase == RunPhase::CheckChanges {
                    self.on_check(msg, conn, msgw)
                } else {
                    self.on_commit(msg, conn, msgw)
                };
            },
        }
        proof {
            lemma_parsed_bounds(rx@);
        }
        rx.consume(n);
        r
    }

    /// Resumes after a pause: after a full page, on a new page; after the
    /// check found changes, on to commit.
    pub fn resume(&mut self)
        requires
            old(self).state().phase == RunPhase::PageSuspended || old(self).state().phase
                == RunPhase::IdleSuspended,
        ensures
            final(self).script() == old(self).script(),
            final(self).ends() == old(self).ends(),
            final(self).enrich_sql() == old(self).enrich_sql(),
            old(self).state().phase == RunPhase::PageSuspended ==> final(self).state() == (RunState {
                phase: RunPhase::Execute,
                sent: 0,
                rows: 0,
                ..old(self).state()
            }),
            old(self).state().phase == RunPhase::IdleSuspended ==> goes(
                old(self).state(),
                final(self).state(),
                RunPhase::SyncPending,
            ),
            position_step(old(self).script(), old(self).ends(), old(self).state(), final(self).state()),
    {
        proof {
            use_type_invariant(&*self);
        }
        let mut at = self.at;
        if at.phase == RunPhase::PageSuspended {
            at.phase = RunPhase::Execute;
            at.sent = 0;
            at.rows = 0;
        } else {
            at.phase = RunPhase::SyncPending;
        }
        self.at = at;
    }

    /// Announces a COPY download under `token`: writes the `copyout`
    /// message, counts what the writer holds as sent on this page, and
    /// returns it to be sent.
    pub fn copyout_started(&mut self, msgw: &mut MessageWriter, token: &[u8]) -> (r: Vec<u8>)
        requires
            old(self).state().phase == RunPhase::Copyout,
            old(msgw)@.len() + old(self).state().sent < page_bytes(),
            token@.len() <= 64,
        ensures
            r@ == old(msgw)@ + copyout_line(token@),
            final(msgw)@ == Seq::<u8>::empty(),
            final(self).state() == (RunState { sent: old(self).state().sent + r@.len(), ..old(self).state() }),
            final(self).script() == old(self).script(),
            final(self).ends() == old(self).ends(),
            final(self).enrich_sql() == old(self).enrich_sql(),
            position_step(old(self).script(), old(self).ends(), old(self).state(), final(self).state()),
    {
        proof {
            use_type_invariant(&*self);
        }
        let ghost w0 = msgw@;
        msgw.write_copyout(token);
        assert(msgw@ =~= w0 + copyout_line(token@));
        let bytes = msgw.take();
        let mut at = self.at;
        at.sent = at.sent + bytes.len();
        self.at = at;
        bytes
    }

    /// The COPY download ended: the results of the statement go on.
    pub fn copyout_done(&mut self)
        requires
            old(self).state().phase == RunPhase::Copyout,
        ensures
            goes(old(self).state(), final(self).state(), RunPhase::Execute),
            final(self).script() == old(self).script(),
            final(self).ends() == old(self).ends(),
            final(self).enrich_sql() == old(self).enrich_sql(),
            position_step(old(self).script(), old(self).ends(), old(self).state(), final(self).state()),
    {
        proof {
            use_type_invariant(&*self);
        }
        self.set_phase(RunPhase::Execute);
    }
}


// ---------------------------------------------------------------------------
// COPY data
// ---------------------------------------------------------------------------

/// The data of a COPY result on its way to the client: collected from
/// CopyData messages and handed out whenever the server has nothing more
/// waiting.
pub struct CopyPump {
    buf: Vec<u8>,
}

/// What the caller is to do after a step of a [`CopyPump`].
pub enum PumpAction {
    /// Send what is queued for the server and receive more from it.
    Io,
    /// Step again.
    Continue,
    /// Send this chunk of data to the client, then step again.
    Send(Vec<u8>),
    /// The data ended: send this last chunk (when it is not empty), then
    /// end the download.
    Done(Vec<u8>),
    /// The COPY failed with this error.
    Failed(ErrorReport),
}

/// A step of [`CopyPump::step`] with the bytes received going from `b0` to
/// `b1`, the data collected from `d0` to `d1`, and `r` returned.
pub open spec fn pump_moves(b0: Seq<u8>, b1: Seq<u8>, d0: Seq<u8>, d1: Seq<u8>, r: PumpAction) -> bool {
    if spec_parse_message(b0) == Ok::<Option<(int, Msg)>, Error>(None) && d0.len()
        > 0 {
        (r matches PumpAction::Send(b) && b@ == d0) && d1 == Seq::<u8>::empty()
            && b1 == b0
    } else {
        match spec_parse_message(b0) {
            Ok(None) => r is Io && d1 == d0 && b1 == b0,
            Err(e) => (r matches PumpAction::Failed(x) && x@ == ErrorReportView::Message(
                error_name(e),
            )) && d1 == d0 && b1 == b0,
            Ok(Some((n, m))) => b1 == b0.skip(n) && match m {
                Msg::CopyData(d) => r is Continue && d1 == d0 + d,
                Msg::CopyDone => (r matches PumpAction::Done(b) && b@ == d0)
                    && d1 == Seq::<u8>::empty(),
                Msg::ErrorResponse(f) => (r matches PumpAction::Failed(x) && x@
                    == ErrorReportView::Db(f)) && d1 == d0,
                _ => r is Continue && d1 == d0,
            },
        }
    }
}

/// The data a pump step hands to the client.
pub open spec fn pump_out(r: PumpAction) -> Seq<u8> {
    match r {
        PumpAction::Send(b) => b@,
        PumpAction::Done(b) => b@,
        _ => Seq::empty(),
    }
}

/// The COPY data that a pump step takes from the bytes received `b0`.
pub open spec fn pump_in(b0: Seq<u8>) -> Seq<u8> {
    match spec_parse_message(b0) {
        Ok(Some((_, Msg::CopyData(d)))) => d,
        _ => Seq::empty(),
    }
}

/// A pump step loses and invents no data: what it hands out, then what it
/// keeps, is what it held, then the data it took.
proof fn lemma_pump_flow(b0: Seq<u8>, b1: Seq<u8>, d0: Seq<u8>, d1: Seq<u8>, r: PumpAction)
    requires
        pump_moves(b0, b1, d0, d1, r),
    ensures
        pump_out(r) + d1 == d0 + pump_in(b0),
{
    assert(pump_out(r) + d1 =~= d0 + pump_in(b0));
}

/// All the chunks in `cs`, one after the other.
pub open spec fn concat_chunks(cs: Seq<Seq<u8>>) -> Seq<u8>
    decreases cs.len(),
{
    if cs.len() == 0 {
        Seq::empty()
    } else {
        concat_chunks(cs.drop_last()) + cs.last()
    }
}

/// The `j`-th step of a run of pump steps: holding `held[j]`, it handed out
/// `outs[j]`, took `ins[j]` and kept `held[j + 1]`, as [`CopyPump::step`]
/// states.
pub open spec fn pump_flow_at(held: Seq<Seq<u8>>, outs: Seq<Seq<u8>>, ins: Seq<Seq<u8>>, j: int) -> bool {
    outs[j] + held[j + 1] == held[j] + ins[j]
}

/// The COPY stream law: over any run of pump steps from a new pump (which
/// holds nothing), the chunks handed to the client, then what the pump
/// still holds, are exactly the COPY data received, in order. When the
/// pump is done it holds nothing, so the client got all of the data.
pub proof fn lemma_pump_concat(held: Seq<Seq<u8>>, outs: Seq<Seq<u8>>, ins: Seq<Seq<u8>>, n: int)
    requires
        held.len() == outs.len() + 1,
        ins.len() == outs.len(),
        0 <= n <= outs.len(),
        held[0] == Seq::<u8>::empty(),
        forall|j: int| 0 <= j < outs.len() ==> #[trigger] pump_flow_at(held, outs, ins, j),
    ensures
        concat_chunks(outs.take(n)) + held[n] == concat_chunks(ins.take(n)),
    decreases n,
{
    if n == 0 {
        assert(outs.take(0) =~= Seq::<Seq<u8>>::empty());
        assert(ins.take(0) =~= Seq::<Seq<u8>>::empty());
        assert(Seq::<u8>::empty() + held[0] =~= held[0]);
    } else {
        lemma_pump_concat(held, outs, ins, n - 1);
        assert(pump_flow_at(held, outs, ins, n - 1));
        assert(outs.take(n).drop_last() =~= outs.take(n - 1));
        assert(ins.take(n).drop_last() =~= ins.take(n - 1));
        let a = concat_chunks(outs.take(n - 1));
        let b = concat_chunks(ins.take(n - 1));
        assert(concat_chunks(outs.take(n)) == a + outs[n - 1]);
        assert(concat_chunks(ins.take(n)) == b + ins[n - 1]);
        assert(a + outs[n - 1] + held[n] =~= a + (outs[n - 1] + held[n]));
        assert(b + ins[n - 1] =~= (a + held[n - 1]) + ins[n - 1]);
        assert((a + held[n - 1]) + ins[n - 1] =~= a + (held[n - 1] + ins[n - 1]));
    }
}


impl View for CopyPump {
    type V = Seq<u8>;

    closed spec fn view(&self) -> Seq<u8> {
        self.buf@
    }
}

impl CopyPump {
    pub fn new() -> (r: CopyPump)
        ensures
            r@ == Seq::<u8>::empty(),
    {
        CopyPump { buf: Vec::new() }
    }

    /// Takes a step: hands out the data collected when the server has no
    /// whole message waiting; else reads the first message waiting: data
    /// is collected, the end of the data ends the pump, an error fails it,
    /// and any other message is passed over.
    pub fn step(&mut self, rx: &mut RxBuf) -> (r: PumpAction)
        ensures
            pump_moves(old(rx)@, final(rx)@, old(self)@, final(self)@, r),
            pump_out(r) + final(self)@ == old(self)@ + pump_in(old(rx)@),
    {
        let ghost b0 = rx@;
        let ghost d0 = self@;
        let r = self.step_inner(rx);
        proof {
            lemma_pump_flow(b0, rx@, d0, self@, r);
        }
        r
    }

    #[verifier::spinoff_prover]
    #[verifier::rlimit(100)]
    fn step_inner(&mut self, rx: &mut RxBuf) -> (r: PumpAction)
        ensures
            if spec_parse_message(old(rx)@) == Ok::<Option<(int, Msg)>, Error>(None) && old(self)@.len()
                > 0 {
                (r matches PumpAction::Send(b) && b@ == old(self)@) && final(self)@ == Seq::<u8>::empty()
                    && final(rx)@ == old(rx)@
            } else {
                match spec_parse_message(old(rx)@) {
                    Ok(None) => r is Io && final(self)@ == old(self)@ && final(rx)@ == old(rx)@,
                    Err(e) => (r matches PumpAction::Failed(x) && x@ == ErrorReportView::Message(
                        error_name(e),
                    )) && final(self)@ == old(self)@ && final(rx)@ == old(rx)@,
                    Ok(Some((n, m))) => final(rx)@ == old(rx)@.skip(n) && match m {
                        Msg::CopyData(d) => r is Continue && final(self)@ == old(self)@ + d,
                        Msg::CopyDone => (r matches PumpAction::Done(b) && b@ == old(self)@)
                            && final(self)@ == Seq::<u8>::empty(),
                        Msg::ErrorResponse(f) => (r matches PumpAction::Failed(x) && x@
                            == ErrorReportView::Db(f)) && final(self)@ == old(self)@,
                        _ => r is Continue && final(self)@ == old(self)@,
                    },
                }
            },
    {
        if rx.is_drained() && self.buf.len() > 0 {
            let mut chunk: Vec<u8> = Vec::new();
            std::mem::swap(&mut chunk, &mut self.buf);
            return PumpAction::Send(chunk);
        }
        let n: usize;
        let r: PumpAction;
        match rx.peek() {
            Ok(None) => {
                return PumpAction::Io;
            },
            Err(e) => {
                return PumpAction::Failed(message_report(e.name()));
            },
            Ok(Some((len, msg))) => {
                n = len;
                r = match msg {
                    BackendMessage::CopyData(d) => {
                        push_all(&mut self.buf, d);
                        PumpAction::Continue
                    },
                    BackendMessage::CopyDone => {
                        let mut chunk: Vec<u8> = Vec::new();
                        std::mem::swap(&mut chunk, &mut self.buf);
                        PumpAction::Done(chunk)
                    },
                    BackendMessage::ErrorResponse(d) => PumpAction::Failed(ErrorReport::Db(d)),
                    _ => PumpAction::Continue,
                };
            },
        }
        proof {
            lemma_parsed_bounds(rx@);
        }
        rx.consume(n);
        r
    }
}

} // verus!
