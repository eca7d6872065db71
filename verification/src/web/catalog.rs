//! Catalog requests: one query with three text parameters, answered with
//! the first value of the last row it returns.
use vstd::prelude::*;

use crate::pg::conn::{tx_room, unnamed, Connection, RxBuf, OID_OID, TEXT_OID};
use crate::pg::decode::{lemma_parsed_bounds, opt_view, spec_parse_message, BackendMessage, Error, Msg};
use crate::pg::display::error_name;
use crate::pg::encode::{
    bare_msg,
    bind_msg,
    execute_msg,
    lemma_oids_bytes_len,
    lemma_values_bytes_len,
    param_values,
    parse_msg,
    values_size,
    NZStr,
};
use crate::run::runner::{head_payload, head_payload_of, max_script_len};
use crate::run::text::push_all;
use crate::run::{ErrorReport, ErrorReportView};
use crate::web::text::{lit_newline, lit_newline_bytes};

verus! {

/// The longest parameter of a catalog query.
pub open spec fn max_param_len() -> int {
    0x1000_0000
}

/// The messages of a catalog query: Parse of `query` with the parameter
/// types `text`, `oid`, `text`; Bind of `params`; Execute; Sync.
pub open spec fn catalog_msgs(query: Seq<u8>, params: Seq<Option<Seq<u8>>>) -> Seq<u8> {
    parse_msg(Seq::empty(), seq![TEXT_OID, OID_OID, TEXT_OID], query) + bind_msg(
        Seq::empty(),
        Seq::empty(),
        Seq::empty(),
        Seq::empty(),
        params,
    ) + execute_msg(Seq::empty(), 0) + bare_msg(0x53)
}

/// Every parameter is within [`max_param_len`].
pub open spec fn params_fit(params: Seq<Option<Seq<u8>>>) -> bool {
    forall|k: int|
        0 <= k < params.len() ==> (#[trigger] params[k] matches Some(v) ==> v.len() <= max_param_len())
}

/// Queues a catalog query with its three parameters.
pub fn send_catalog_query(conn: &mut Connection, query: NZStr<'_>, params: &[Option<&[u8]>; 3])
    requires
        query@.len() <= max_script_len(),
        params_fit(param_values(params@)),
        old(conn).tx().len() <= tx_room(),
    ensures
        final(conn).tx() == old(conn).tx() + catalog_msgs(query@, param_values(params@)),
        final(conn).backend_key() == old(conn).backend_key(),
{
    let types: [u32; 3] = [TEXT_OID, OID_OID, TEXT_OID];
    assert(types@ =~= seq![TEXT_OID, OID_OID, TEXT_OID]);
    let un = unnamed();
    let ghost pv = param_values(params@);
    proof {
        lemma_oids_bytes_len(types@);
        lemma_values_bytes_len(pv);
        lemma_values_bytes_len(pv.drop_last());
        lemma_values_bytes_len(pv.drop_last().drop_last());
        lemma_values_bytes_len(pv.drop_last().drop_last().drop_last());
        assert(pv.drop_last().drop_last().drop_last() =~= Seq::<Option<Seq<u8>>>::empty());
        assert(pv[0] == pv.drop_last().drop_last().last());
        assert(pv[1] == pv.drop_last().last());
        assert(params_fit(pv) ==> (pv[0] matches Some(v) ==> v.len() <= max_param_len()));
        assert(params_fit(pv) ==> (pv[1] matches Some(v) ==> v.len() <= max_param_len()));
        assert(params_fit(pv) ==> (pv[2] matches Some(v) ==> v.len() <= max_param_len()));
        assert(values_size(pv) <= 3 * max_param_len() + 12);
    }
    let ghost c0 = conn.tx();
    conn.send_parse(un, types.as_slice(), query);
    conn.send_bind(un, params.as_slice());
    conn.send_execute();
    conn.send_sync();
    assert(conn.tx() =~= c0 + catalog_msgs(query@, pv));
}

/// What the caller is to do after a step of a [`CatalogReader`].
pub enum CatalogStep {
    /// Send what is queued for the server and receive more from it.
    Io,
    /// Step again.
    Continue,
    /// The answer is complete: this body.
    Done(Vec<u8>),
    /// The query failed with this error.
    Failed(ErrorReport),
}

/// Reads the answer of a catalog query: keeps the first value of the last
/// row (or `null`), followed by a newline when asked, until the server is
/// ready again.
pub struct CatalogReader {
    body: Vec<u8>,
    newline: bool,
}

impl View for CatalogReader {
    type V = Seq<u8>;

    closed spec fn view(&self) -> Seq<u8> {
        self.body@
    }
}

/// The body kept for a row: its first value (or `null`), followed by a
/// newline when asked.
pub open spec fn row_body(vals: Seq<Option<Seq<u8>>>, newline: bool) -> Seq<u8> {
    head_payload(vals) + if newline {
        lit_newline()
    } else {
        Seq::empty()
    }
}

impl CatalogReader {
    pub closed spec fn newline(self) -> bool {
        self.newline
    }

    /// A reader with an empty body; `newline` asks for a newline after the
    /// value.
    pub fn new(newline: bool) -> (r: CatalogReader)
        ensures
            r@ == Seq::<u8>::empty(),
            r.newline() == newline,
    {
        CatalogReader { body: Vec::new(), newline }
    }

    /// Reads the first message waiting: a row replaces the body, the end of
    /// the query completes it, an error fails it; other messages pass.
    #[verifier::spinoff_prover]
    pub fn step(&mut self, rx: &mut RxBuf) -> (r: CatalogStep)
        ensures
            final(self).newline() == old(self).newline(),
            match spec_parse_message(old(rx)@) {
                Ok(None) => r is Io && final(self)@ == old(self)@ && final(rx)@ == old(rx)@,
                Err(e) => (r matches CatalogStep::Failed(x) && x@ == ErrorReportView::Message(
                    error_name(e),
                )) && final(rx)@ == old(rx)@,
                Ok(Some((n, m))) => final(rx)@ == old(rx)@.skip(n) && match m {
                    Msg::DataRow(vals) => r is Continue && final(self)@ == row_body(
                        vals,
                        old(self).newline(),
                    ),
                    Msg::ReadyForQuery { .. } => r matches CatalogStep::Done(b) && b@ == old(self)@,
                    Msg::ErrorResponse(f) => r matches CatalogStep::Failed(x) && x@
                        == ErrorReportView::Db(f),
                    _ => r is Continue && final(self)@ == old(self)@,
                },
            },
    {
        let n: usize;
        let r: CatalogStep;
        match rx.peek() {
            Ok(None) => {
                return CatalogStep::Io;
            },
            Err(e) => {
                return CatalogStep::Failed(ErrorReport::Message(vstd::slice::slice_to_vec(e.name())));
            },
            Ok(Some((len, msg))) => {
                n = len;
                r = match msg {
                    BackendMessage::DataRow(row) => {
                        let vals = row.values_vec();
                        let mut body = vstd::slice::slice_to_vec(head_payload_of(&vals));
                        if self.newline {
                            push_all(&mut body, lit_newline_bytes());
                        } else {
                            assert(body@ + Seq::<u8>::empty() =~= body@);
                        }
                        self.body = body;
                        CatalogStep::Continue
                    },
                    BackendMessage::ReadyForQuery { .. } => {
                        let mut b: Vec<u8> = Vec::new();
                        std::mem::swap(&mut b, &mut self.body);
                        CatalogStep::Done(b)
                    },
                    BackendMessage::ErrorResponse(d) => CatalogStep::Failed(ErrorReport::Db(d)),
                    _ => CatalogStep::Continue,
                };
            },
        }
        proof {
            lemma_parsed_bounds(rx@);
        }
        rx.consume(n);
        r
    }
}

} // verus!
