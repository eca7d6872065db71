//! Executing SQL scripts: splitting a script into statements, deciding when
//! to pause the output, and writing the NDJSON messages of the response.

pub mod json;
pub mod psqlscan;
pub mod registry;
pub mod text;
pub mod token;
pub mod runner;
pub mod words;

use vstd::prelude::*;
use vstd::utf8::{valid_utf8, valid_utf8_concat};

use crate::pg::conn::{failure_text, ConnectError, ConnectFailure, ConnectFailureView};
use crate::pg::decode::{DbError, Row};
use crate::run::json::{
    dberror_json,
    dberror_json_text,
    error_json,
    error_json_text,
    escaped,
    json_escape,
    json_escape_lossy,
    lossy_escaped,
    decimal,
    push_decimal_nat,
};
use crate::run::psqlscan::{lemma_statement_boundary, spec_statement_boundary, statement_boundary};
use crate::run::text::{
    lit_close2_line,
    lit_close_line,
    lit_close_obj_line,
    lit_comma_space,
    lit_complete,
    lit_copyout,
    lit_error,
    lit_head,
    lit_notice,
    lit_null,
    lit_quote_close_line,
    lit_quote_close_obj_line,
    lit_replacement,
    lit_row,
    lit_start,
    lit_suspended,
    lit_token,
    push_all,
    push_lit_close2_line,
    push_lit_close_line,
    push_lit_close_obj_line,
    push_lit_comma_space,
    push_lit_complete,
    push_lit_copyout,
    push_lit_error,
    push_lit_head,
    push_lit_notice,
    push_lit_null,
    push_lit_quote_close_line,
    push_lit_quote_close_obj_line,
    push_lit_replacement,
    push_lit_row,
    push_lit_start,
    push_lit_suspended,
    push_lit_token,
};
use crate::utf8::{
    is_ascii_bytes,
    lemma_ascii_valid_utf8,
    lemma_utf16_len_ascii,
    lemma_utf16_len_concat,
    utf16_len_from,
    decode_scalar_at,
    invalid_len,
    invalid_len_at,
    lemma_scalar_len_bounds,
    scalar_at,
    scalar_len_at,
};

verus! {

// ---------------------------------------------------------------------------
// Statements of a script
// ---------------------------------------------------------------------------

/// Whitespace as `u8::is_ascii_whitespace` understands it.
pub open spec fn is_ascii_whitespace(b: u8) -> bool {
    b == 0x20 || b == 0x09 || b == 0x0a || b == 0x0c || b == 0x0d
}

/// The position of the first byte at or after `i` that is not whitespace.
pub open spec fn leading_ws_end(s: Seq<u8>, i: int) -> int
    decreases s.len() - i,
{
    if 0 <= i < s.len() && is_ascii_whitespace(s[i]) {
        leading_ws_end(s, i + 1)
    } else {
        i
    }
}

/// The bytes from `i` up to the first that is not whitespace are
/// whitespace.
pub proof fn lemma_leading_ws(s: Seq<u8>, i: int)
    requires
        0 <= i <= s.len(),
    ensures
        i <= leading_ws_end(s, i) <= s.len(),
        forall|k: int| i <= k < leading_ws_end(s, i) ==> is_ascii_whitespace(#[trigger] s[k]),
    decreases s.len() - i,
{
    if i < s.len() && is_ascii_whitespace(s[i]) {
        lemma_leading_ws(s, i + 1);
    }
}

/// Where each statement of `s` from `i` on ends: each next statement is the
/// first one of what is left.
pub open spec fn statement_ends(s: Seq<u8>, i: int) -> Seq<int>
    decreases s.len() - i,
{
    if !(0 <= i < s.len()) {
        Seq::empty()
    } else {
        proof {
            lemma_statement_boundary(s.skip(i));
        }
        let e = i + spec_statement_boundary(s.skip(i));
        seq![e] + statement_ends(s, e)
    }
}

/// The statements of a script taken from `i` on follow one another without
/// gap or overlap, each is non-empty, and the last one ends where the script
/// ends.
pub proof fn lemma_statement_ends(s: Seq<u8>, i: int)
    requires
        0 <= i <= s.len(),
    ensures
        forall|k: int|
            0 <= k < statement_ends(s, i).len() ==> (if k == 0 {
                i
            } else {
                statement_ends(s, i)[k - 1]
            }) < #[trigger] statement_ends(s, i)[k] <= s.len(),
        i < s.len() ==> statement_ends(s, i).len() > 0 && statement_ends(s, i).last() == s.len(),
    decreases s.len() - i,
{
    if i < s.len() {
        lemma_statement_boundary(s.skip(i));
        let e = i + spec_statement_boundary(s.skip(i));
        lemma_statement_ends(s, e);
        let rest = statement_ends(s, e);
        let all = statement_ends(s, i);
        assert(all == seq![e] + rest);
        assert forall|k: int|
            0 <= k < all.len() implies (if k == 0 {
            i
        } else {
            all[k - 1]
        }) < #[trigger] all[k] <= s.len() by {
            if k > 0 {
                assert(all[k] == rest[k - 1]);
                if k > 1 {
                    assert(all[k - 1] == rest[k - 2]);
                }
            }
        }
    }
}

/// A script split into statements: where the first statement starts (after
/// the leading whitespace) and where each statement ends.
pub struct ScriptSplit {
    pub start: usize,
    pub ends: Vec<usize>,
}

/// Splits a script into statements: skips the leading ASCII whitespace,
/// then takes statement after statement with [`statement_boundary`] until
/// nothing is left.
pub fn split_script(script: &[u8]) -> (r: ScriptSplit)
    ensures
        r.start == leading_ws_end(script@, 0),
        r.start <= script@.len(),
        r.ends@.map_values(|e: usize| e as int) == statement_ends(script@, r.start as int),
{
    let mut start: usize = 0;
    while start < script.len() && (script[start] == 0x20 || script[start] == 0x09 || script[start]
        == 0x0a || script[start] == 0x0c || script[start] == 0x0d)
        invariant
            start <= script.len(),
            leading_ws_end(script@, start as int) == leading_ws_end(script@, 0),
        decreases script.len() - start,
    {
        start = start + 1;
    }
    let mut ends: Vec<usize> = Vec::new();
    let mut i = start;
    assert(ends@.map_values(|e: usize| e as int) + statement_ends(script@, i as int) =~= statement_ends(
        script@,
        start as int,
    ));
    while i < script.len()
        invariant
            start <= i <= script.len(),
            ends@.map_values(|e: usize| e as int) + statement_ends(script@, i as int)
                == statement_ends(script@, start as int),
        decreases script.len() - i,
    {
        let rest = &script[i..script.len()];
        assert(rest@ =~= script@.skip(i as int));
        let n = statement_boundary(rest);
        let ghost before = ends@.map_values(|e: usize| e as int);
        let e = i + n;
        ends.push(e);
        proof {
            assert(ends@.map_values(|e: usize| e as int) =~= before.push(e as int));
            assert(statement_ends(script@, i as int) == seq![e as int] + statement_ends(
                script@,
                e as int,
            ));
            assert(before + statement_ends(script@, i as int) =~= ends@.map_values(
                |e: usize| e as int,
            ) + statement_ends(script@, e as int));
        }
        i = e;
    }
    assert(ends@.map_values(|e: usize| e as int) + statement_ends(script@, i as int) =~= ends@.map_values(
        |e: usize| e as int,
    ));
    ScriptSplit { start, ends }
}

/// Where statement `k` of a script starts: after the leading whitespace for
/// the first, where the one before it ends for the others.
pub open spec fn stmt_start(s: Seq<u8>, k: int) -> int {
    if k <= 0 {
        leading_ws_end(s, 0)
    } else {
        statement_ends(s, leading_ws_end(s, 0))[k - 1]
    }
}

/// The text of statement `k` of a script.
pub open spec fn stmt_text(s: Seq<u8>, k: int) -> Seq<u8> {
    s.subrange(stmt_start(s, k), stmt_start(s, k + 1))
}

/// The position reported for statement `k` of a script, counted statement
/// by statement: the length of the leading whitespace for the first, then
/// each next one adds the UTF-16 code units of the statement before it.
pub open spec fn start_position(s: Seq<u8>, k: int) -> int
    decreases k,
{
    if k <= 0 {
        leading_ws_end(s, 0)
    } else {
        start_position(s, k - 1) + utf16_len_from(stmt_text(s, k - 1), 0)
    }
}

/// Statement `k` starts no later than statement `k + 1`, within the script.
/// Ends that each follow the one before (the first following `start`) all
/// lie after `start`.
proof fn lemma_ends_above(e: Seq<int>, start: int, len: int, k: int)
    requires
        0 <= k < e.len(),
        forall|m: int|
            0 <= m < e.len() ==> (if m == 0 {
                start
            } else {
                e[m - 1]
            }) < #[trigger] e[m] <= len,
    ensures
        start < e[k],
    decreases k,
{
    if k > 0 {
        lemma_ends_above(e, start, len, k - 1);
        assert(e[k - 1] < e[k]);
    } else {
        assert(start < e[0]);
    }
}

#[verifier::spinoff_prover]
pub proof fn lemma_stmt_start_order(s: Seq<u8>, k: int)
    requires
        0 <= k < statement_ends(s, leading_ws_end(s, 0)).len(),
    ensures
        0 <= stmt_start(s, k) <= stmt_start(s, k + 1) <= s.len(),
{
    let lead = leading_ws_end(s, 0);
    let ends = statement_ends(s, lead);
    lemma_leading_ws(s, 0);
    lemma_statement_ends(s, lead);
    let e = ends[k];
    assert(stmt_start(s, k + 1) == e);
    if k == 0 {
        assert(stmt_start(s, k) == lead);
    } else {
        let d = ends[k - 1];
        assert(stmt_start(s, k) == d);
        lemma_ends_above(ends, lead, s.len() as int, k - 1);
    }
}

/// The leading whitespace of a script is ASCII.
proof fn lemma_lead_ascii(s: Seq<u8>)
    ensures
        0 <= leading_ws_end(s, 0) <= s.len(),
        is_ascii_bytes(s.subrange(0, leading_ws_end(s, 0))),
{
    lemma_leading_ws(s, 0);
    let p = s.subrange(0, leading_ws_end(s, 0));
    assert forall|m: int| 0 <= m < p.len() implies #[trigger] p[m] < 0x80 by {
        assert(is_ascii_whitespace(s[m]));
    }
}

/// The positions law: when the statements before statement `k` are valid
/// UTF-8, the position counted statement by statement is the number of
/// UTF-16 code units of the whole text before statement `k`.
#[verifier::spinoff_prover]
pub proof fn lemma_start_positions(s: Seq<u8>, k: int)
    requires
        0 <= k <= statement_ends(s, leading_ws_end(s, 0)).len(),
        forall|j: int| 0 <= j < k ==> valid_utf8(#[trigger] stmt_text(s, j)),
    ensures
        valid_utf8(s.subrange(0, stmt_start(s, k))),
        utf16_len_from(s.subrange(0, stmt_start(s, k)), 0) == start_position(s, k),
    decreases k,
{
    if k == 0 {
        lemma_lead_ascii(s);
        let p = s.subrange(0, leading_ws_end(s, 0));
        lemma_ascii_valid_utf8(p);
        lemma_utf16_len_ascii(p, 0);
    } else {
        lemma_start_positions(s, k - 1);
        lemma_stmt_start_order(s, k - 1);
        let a = s.subrange(0, stmt_start(s, k - 1));
        let b = stmt_text(s, k - 1);
        assert(valid_utf8(b));
        assert(a + b =~= s.subrange(0, stmt_start(s, k)));
        valid_utf8_concat(a, b);
        assert(a.subrange(0, a.len() as int) =~= a);
        lemma_utf16_len_concat(a, b, 0);
    }
}


// ---------------------------------------------------------------------------
// Pages
// ---------------------------------------------------------------------------

/// What to do before reading the next message of a result.
#[derive(Debug, Clone, Copy, PartialEq, Eq, Structural)]
pub enum PageAction {
    /// A page is full: send what is buffered and wait for the client.
    Suspend,
    /// Nothing is waiting from the server: send what is buffered.
    Flush,
    /// Read on.
    Receive,
}

/// The bytes after which a page is full.
pub open spec fn page_bytes() -> int {
    5242880int
}

/// The rows after which a page is full.
pub open spec fn page_rows() -> int {
    1000int
}

/// Decides what to do before reading the next message: suspend when the
/// bytes of this page (sent and buffered) reach 5 MiB or its rows reach
/// 1000; else flush when the server has nothing more buffered and something
/// is waiting to be sent; else read on.
pub fn page_action(n_bytes_sent: usize, buffered: usize, n_rows_written: u32, drained: bool) -> (r:
    PageAction)
    ensures
        r == (if n_bytes_sent + buffered >= page_bytes() || n_rows_written >= page_rows() {
            PageAction::Suspend
        } else if drained && buffered > 0 {
            PageAction::Flush
        } else {
            PageAction::Receive
        }),
{
    let limit: usize = 5 * 1024 * 1024;
    let full = n_bytes_sent >= limit || buffered >= limit - n_bytes_sent;
    if full || n_rows_written >= 1000 {
        PageAction::Suspend
    } else if drained && buffered > 0 {
        PageAction::Flush
    } else {
        PageAction::Receive
    }
}

// ---------------------------------------------------------------------------
// Messages of the response
// ---------------------------------------------------------------------------

/// The text of `s` from `i` on read as UTF-8 the lossy way: well-formed
/// characters kept, each invalid sequence replaced by one U+FFFD.
pub open spec fn utf8_lossy_from(s: Seq<u8>, i: int) -> Seq<u8>
    decreases s.len() - i,
{
    if !(0 <= i < s.len()) {
        Seq::empty()
    } else if scalar_at(s, i) {
        let n = scalar_len_at(s, i);
        proof {
            lemma_scalar_len_bounds(s, i);
        }
        s.subrange(i, i + n) + utf8_lossy_from(s, i + n)
    } else {
        lit_replacement() + utf8_lossy_from(s, i + invalid_len_at(s, i))
    }
}

/// Appends `inp` read as UTF-8 the lossy way.
pub fn push_utf8_lossy(inp: &[u8], out: &mut Vec<u8>)
    ensures
        final(out)@ == old(out)@ + utf8_lossy_from(inp@, 0),
{
    let mut i: usize = 0;
    let ghost o = old(out)@;
    while i < inp.len()
        invariant
            i <= inp.len(),
            o == old(out)@,
            o + utf8_lossy_from(inp@, 0) == out@ + utf8_lossy_from(inp@, i as int),
        decreases inp.len() - i,
    {
        let ghost before = out@;
        match decode_scalar_at(inp, i) {
            Some((n, _)) => {
                proof {
                    lemma_scalar_len_bounds(inp@, i as int);
                }
                push_all(out, &inp[i..i + n]);
                assert(before + utf8_lossy_from(inp@, i as int) =~= out@ + utf8_lossy_from(
                    inp@,
                    i + n,
                ));
                i = i + n;
            },
            None => {
                let m = invalid_len(inp, i);
                push_lit_replacement(out);
                assert(before + utf8_lossy_from(inp@, i as int) =~= out@ + utf8_lossy_from(
                    inp@,
                    i + m,
                ));
                i = i + m;
            },
        }
    }
    assert(out@ + utf8_lossy_from(inp@, i as int) =~= out@);
}

/// The JSON list of the values of a row: `null`, or the value escaped in
/// quotes, separated by `, `.
pub open spec fn row_values_json(vals: Seq<Option<Seq<u8>>>) -> Seq<u8>
    decreases vals.len(),
{
    if vals.len() == 0 {
        Seq::empty()
    } else {
        row_values_json(vals.drop_last()) + (if vals.len() == 1 {
            Seq::empty()
        } else {
            lit_comma_space()
        }) + match vals.last() {
            None => lit_null(),
            Some(v) => seq![0x22u8] + lossy_escaped(v) + seq![0x22u8],
        }
    }
}

/// An error to report to the client: one from the database, or any other
/// with its message.
pub enum ErrorReport {
    Db(DbError),
    Message(Vec<u8>),
}

/// The view of an [`ErrorReport`].
pub enum ErrorReportView {
    Db(Seq<(u8, Seq<u8>)>),
    Message(Seq<u8>),
}

impl View for ErrorReport {
    type V = ErrorReportView;

    open spec fn view(&self) -> ErrorReportView {
        match self {
            ErrorReport::Db(d) => ErrorReportView::Db(d@),
            ErrorReport::Message(m) => ErrorReportView::Message(m@),
        }
    }
}

/// The JSON object of an error report.
pub open spec fn report_json(e: ErrorReportView) -> Seq<u8> {
    match e {
        ErrorReportView::Db(d) => dberror_json_text(d),
        ErrorReportView::Message(m) => error_json_text(m),
    }
}

/// How a failure to connect is reported: a database error as is, any
/// other by its text.
pub open spec fn connect_report_view(f: ConnectFailureView) -> ErrorReportView {
    match f {
        ConnectFailureView::Db(d) => ErrorReportView::Db(d),
        _ => ErrorReportView::Message(failure_text(f)),
    }
}

impl ErrorReport {
    /// The report of a failure to connect.
    pub fn from_connect(err: ConnectError) -> (r: ErrorReport)
        ensures
            r@ == connect_report_view(err.failure()@),
    {
        let inner = err.into_failure();
        let text = inner.message();
        match inner {
            ConnectFailure::Db(d) => ErrorReport::Db(d),
            _ => ErrorReport::Message(text),
        }
    }
}

/// The lines of the NDJSON response not yet sent.
pub struct MessageWriter {
    buf: Vec<u8>,
}

impl View for MessageWriter {
    type V = Seq<u8>;

    closed spec fn view(&self) -> Seq<u8> {
        self.buf@
    }
}

impl MessageWriter {
    pub fn new() -> (r: MessageWriter)
        ensures
            r@ == Seq::<u8>::empty(),
    {
        MessageWriter { buf: Vec::new() }
    }

    /// `["start", {"position_utf16": N}]`: a statement starts at this
    /// position of the script, counted in UTF-16 code units.
    pub fn write_start(&mut self, pos_utf16: usize)
        ensures
            final(self)@ == old(self)@ + lit_start() + decimal(pos_utf16 as int)
                + lit_close_obj_line(),
    {
        push_lit_start(&mut self.buf);
        push_decimal_nat(&mut self.buf, pos_utf16 as u64);
        push_lit_close_obj_line(&mut self.buf);
    }

    /// `["head", PAYLOAD]`: the column description, as JSON from the server
    /// (read as UTF-8 the lossy way).
    pub fn write_head(&mut self, payload: &[u8])
        ensures
            final(self)@ == old(self)@ + lit_head() + utf8_lossy_from(payload@, 0) + lit_close_line(),
    {
        push_lit_head(&mut self.buf);
        push_utf8_lossy(payload, &mut self.buf);
        push_lit_close_line(&mut self.buf);
    }

    /// `["row", [...]]`: the values of a row.
    #[verifier::spinoff_prover]
    #[verifier::rlimit(40)]
    pub fn write_row(&mut self, row: Row<'_>)
        ensures
            final(self)@ == old(self)@ + lit_row() + row_values_json(row.values()) + lit_close2_line(),
    {
        push_lit_row(&mut self.buf);
        let vals = row.values_vec();
        let ghost vs = vals@.map_values(|v: Option<&[u8]>| crate::pg::decode::opt_view(v));
        let ghost head = self.buf@;
        let mut k: usize = 0;
        assert(vs.take(0) =~= Seq::<Option<Seq<u8>>>::empty());
        assert(head + Seq::<u8>::empty() =~= head);
        while k < vals.len()
            invariant
                k <= vals@.len(),
                vs == vals@.map_values(|v: Option<&[u8]>| crate::pg::decode::opt_view(v)),
                self.buf@ == head + row_values_json(vs.take(k as int)),
            decreases vals@.len() - k,
        {
            if k > 0 {
                push_lit_comma_space(&mut self.buf);
            }
            match vals[k] {
                None => push_lit_null(&mut self.buf),
                Some(v) => {
                    self.buf.push(0x22);
                    json_escape_lossy(v, &mut self.buf);
                    self.buf.push(0x22);
                },
            }
            proof {
                let t = vs.take(k + 1);
                assert(t.drop_last() =~= vs.take(k as int));
                assert(t.last() == vs[k as int]);
                assert(self.buf@ =~= head + row_values_json(t));
            }
            k = k + 1;
        }
        assert(vs.take(k as int) =~= vs);
        push_lit_close2_line(&mut self.buf);
        assert(self.buf@ =~= old(self)@ + lit_row() + row_values_json(row.values()) + lit_close2_line());
    }

    /// `["copyout", {"id": "ID"}]`: a COPY result is ready for download
    /// under `id`.
    pub fn write_copyout(&mut self, id: &[u8])
        ensures
            final(self)@ == old(self)@ + lit_copyout() + id@ + lit_quote_close_obj_line(),
    {
        push_lit_copyout(&mut self.buf);
        push_all(&mut self.buf, id);
        push_lit_quote_close_obj_line(&mut self.buf);
    }

    /// `["complete", "TAG"]`: a statement completed with the command tag.
    pub fn write_complete(&mut self, tag: &[u8])
        ensures
            final(self)@ == old(self)@ + lit_complete() + lossy_escaped(tag@)
                + lit_quote_close_line(),
    {
        push_lit_complete(&mut self.buf);
        json_escape_lossy(tag, &mut self.buf);
        push_lit_quote_close_line(&mut self.buf);
    }

    /// `["notice", {...}]`: a notice from the server.
    pub fn write_notice(&mut self, notice: &DbError)
        ensures
            final(self)@ == old(self)@ + lit_notice() + dberror_json_text(notice@) + lit_close_line(),
    {
        push_lit_notice(&mut self.buf);
        dberror_json(notice, &mut self.buf);
        push_lit_close_line(&mut self.buf);
    }

    /// `["error", {...}]`: the script failed.
    pub fn write_error(&mut self, err: &ErrorReport)
        ensures
            final(self)@ == old(self)@ + lit_error() + report_json(err@) + lit_close_line(),
    {
        push_lit_error(&mut self.buf);
        match err {
            ErrorReport::Db(d) => dberror_json(d, &mut self.buf),
            ErrorReport::Message(m) => error_json(m.as_slice(), &mut self.buf),
        }
        push_lit_close_line(&mut self.buf);
    }

    /// `["suspended", {"reason": "R","token": "T"}]`: the output is paused
    /// until the client resumes it with `token`.
    pub fn write_suspended(&mut self, reason: &[u8], token: &[u8])
        ensures
            final(self)@ == old(self)@ + lit_suspended() + escaped(reason@) + lit_token() + token@
                + lit_quote_close_obj_line(),
    {
        push_lit_suspended(&mut self.buf);
        json_escape(reason, &mut self.buf);
        push_lit_token(&mut self.buf);
        push_all(&mut self.buf, token);
        push_lit_quote_close_obj_line(&mut self.buf);
    }

    /// The number of bytes waiting to be sent.
    pub fn len(&self) -> (r: usize)
        ensures
            r == self@.len(),
    {
        self.buf.len()
    }

    /// Takes the bytes waiting to be sent, leaving none.
    pub fn take(&mut self) -> (r: Vec<u8>)
        ensures
            r@ == old(self)@,
            final(self)@ == Seq::<u8>::empty(),
    {
        let mut out: Vec<u8> = Vec::new();
        std::mem::swap(&mut out, &mut self.buf);
        out
    }
}

} // verus!
