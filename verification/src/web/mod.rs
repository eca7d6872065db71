//! The decisions of the HTTP handlers: which connection options a request
//! runs with, and what is answered (status, content type and body) when a
//! connection fails, a token is issued or refused, a download or a page is
//! not found, and which file of the user interface a path names.
pub mod catalog;
pub mod text;

use vstd::prelude::*;

use crate::pg::conn::{bytes_eq, starts_28, ConnectError, ConnectFailure, ConnectFailureView, Connector};
use crate::pg::decode::error_code;
use crate::pg::encode::NZStr;
use crate::run::text::{lit_alive, lit_close_line, lit_error, push_all, push_lit_alive};
use crate::run::{connect_report_view, report_json, ErrorReport, MessageWriter};
use crate::web::text::{
    lit_bundle_favicon,
    lit_bundle_favicon_bytes,
    lit_bundle_index,
    lit_bundle_index_bytes,
    lit_bundle_main,
    lit_bundle_main_bytes,
    lit_bundle_map,
    lit_bundle_map_bytes,
    lit_bundle_style,
    lit_bundle_style_bytes,
    lit_css,
    lit_css_bytes,
    lit_ext_css,
    lit_ext_css_bytes,
    lit_ext_html,
    lit_ext_html_bytes,
    lit_ext_js,
    lit_ext_js_bytes,
    lit_ext_svg,
    lit_ext_svg_bytes,
    lit_ext_woff2,
    lit_ext_woff2_bytes,
    lit_fail,
    lit_fail_bytes,
    lit_favicon_svg,
    lit_favicon_svg_bytes,
    lit_html,
    lit_html_bytes,
    lit_index_html,
    lit_index_html_bytes,
    lit_internal_error,
    lit_internal_error_bytes,
    lit_javascript,
    lit_javascript_bytes,
    lit_json,
    lit_json_bytes,
    lit_login_failed,
    lit_login_failed_bytes,
    lit_main_js,
    lit_main_js_bytes,
    lit_map_js,
    lit_map_js_bytes,
    lit_ndjson,
    lit_ndjson_bytes,
    lit_newline,
    lit_newline_bytes,
    lit_not_found,
    lit_not_found_bytes,
    lit_octet_stream,
    lit_octet_stream_bytes,
    lit_ok,
    lit_ok_bytes,
    lit_opt_application_name,
    lit_opt_application_name_bytes,
    lit_opt_client_encoding,
    lit_opt_client_encoding_bytes,
    lit_opt_client_min_messages,
    lit_opt_client_min_messages_bytes,
    lit_opt_database,
    lit_opt_database_bytes,
    lit_opt_read_only,
    lit_opt_read_only_bytes,
    lit_opt_search_path,
    lit_opt_search_path_bytes,
    lit_opt_statement_timeout,
    lit_opt_statement_timeout_bytes,
    lit_opt_timezone,
    lit_opt_timezone_bytes,
    lit_plain,
    lit_plain_bytes,
    lit_root,
    lit_root_bytes,
    lit_style_css,
    lit_style_css_bytes,
    lit_svg,
    lit_svg_bytes,
    lit_token_close,
    lit_token_close_bytes,
    lit_token_expired,
    lit_token_expired_bytes,
    lit_token_open,
    lit_token_open_bytes,
    lit_ui_dir,
    lit_ui_dir_bytes,
    lit_unauthorized,
    lit_unauthorized_bytes,
    lit_unavailable,
    lit_unavailable_bytes,
    lit_val_10s,
    lit_val_10s_bytes,
    lit_val_notice,
    lit_val_notice_bytes,
    lit_val_on,
    lit_val_on_bytes,
    lit_val_pg_catalog,
    lit_val_pg_catalog_bytes,
    lit_val_pgbb,
    lit_val_pgbb_bytes,
    lit_val_postgres,
    lit_val_postgres_bytes,
    lit_val_utf8,
    lit_val_utf8_bytes,
    lit_woff2,
    lit_woff2_bytes,
};

verus! {

/// An answer to an HTTP request.
pub struct Reply {
    pub status: u16,
    pub content_type: &'static [u8],
    pub body: Vec<u8>,
}

/// The answer has this status, content type and body.
pub open spec fn answers(r: Reply, status: u16, content_type: Seq<u8>, body: Seq<u8>) -> bool {
    r.status == status && r.content_type@ == content_type && r.body@ == body
}

fn reply(status: u16, content_type: &'static [u8], body: &[u8]) -> (r: Reply)
    ensures
        answers(r, status, content_type@, body@),
{
    Reply { status, content_type, body: vstd::slice::slice_to_vec(body) }
}

/// The server refused the credentials: a database error of SQLSTATE class
/// `28`.
pub open spec fn refused(f: ConnectFailureView) -> bool {
    f matches ConnectFailureView::Db(d) && starts_28(error_code(d))
}

/// The answer of `/api/run` when connecting fails: after the credentials
/// were accepted, an NDJSON response with the error; when they are
/// refused, 401 (the token no longer works); else 503.
pub fn run_connect_failed(err: ConnectError) -> (r: Reply)
    ensures
        if err.authorized() {
            answers(
                r,
                200,
                lit_ndjson(),
                lit_error() + report_json(connect_report_view(err.failure()@)) + lit_close_line(),
            )
        } else if refused(err.failure()@) {
            answers(r, 401, lit_plain(), lit_token_expired())
        } else {
            answers(r, 503, lit_plain(), lit_unavailable())
        },
{
    if err.is_authorized() {
        let report = ErrorReport::from_connect(err);
        let mut w = MessageWriter::new();
        w.write_error(&report);
        let body = w.take();
        assert(body@ =~= lit_error() + report_json(report@) + lit_close_line());
        Reply { status: 200, content_type: lit_ndjson_bytes(), body }
    } else if err.is_bad_credentials() {
        reply(401, lit_plain_bytes(), lit_token_expired_bytes())
    } else {
        reply(503, lit_plain_bytes(), lit_unavailable_bytes())
    }
}

/// The answer of `/api/auth` when the credentials work: the token as JSON.
pub fn auth_ok(token: &[u8]) -> (r: Reply)
    ensures
        answers(r, 200, lit_json(), lit_token_open() + token@ + lit_token_close()),
{
    let mut body = vstd::slice::slice_to_vec(lit_token_open_bytes());
    push_all(&mut body, token);
    push_all(&mut body, lit_token_close_bytes());
    Reply { status: 200, content_type: lit_json_bytes(), body }
}

/// The answer of `/api/auth` when connecting fails: 401 when the server
/// refused the credentials, else 503.
pub fn auth_connect_failed(err: &ConnectError) -> (r: Reply)
    ensures
        if refused(err.failure()@) {
            answers(r, 401, lit_plain(), lit_login_failed())
        } else {
            answers(r, 503, lit_plain(), lit_unavailable())
        },
{
    if err.is_bad_credentials() {
        reply(401, lit_plain_bytes(), lit_login_failed_bytes())
    } else {
        reply(503, lit_plain_bytes(), lit_unavailable_bytes())
    }
}

/// A request without a valid token.
pub fn unauthorized() -> (r: Reply)
    ensures
        answers(r, 401, lit_plain(), lit_unauthorized()),
{
    reply(401, lit_plain_bytes(), lit_unauthorized_bytes())
}

/// A failure of the server itself.
pub fn internal_error() -> (r: Reply)
    ensures
        answers(r, 500, lit_plain(), lit_internal_error()),
{
    reply(500, lit_plain_bytes(), lit_internal_error_bytes())
}

/// Nothing under this path.
pub fn not_found() -> (r: Reply)
    ensures
        answers(r, 404, lit_plain(), lit_not_found()),
{
    reply(404, lit_plain_bytes(), lit_not_found_bytes())
}

/// The answer of `/api/unsuspend`: whether a paused run was resumed.
pub fn unsuspend_reply(resumed: bool) -> (r: Reply)
    ensures
        resumed ==> answers(r, 200, lit_plain(), lit_ok()),
        !resumed ==> answers(r, 400, lit_plain(), lit_fail()),
{
    if resumed {
        reply(200, lit_plain_bytes(), lit_ok_bytes())
    } else {
        reply(400, lit_plain_bytes(), lit_fail_bytes())
    }
}

// ---------------------------------------------------------------------------
// Connection options
// ---------------------------------------------------------------------------

fn nz(b: &'static [u8]) -> (r: NZStr<'static>)
    requires
        crate::pg::encode::has_no_zero(b@),
    ensures
        r@ == b@,
{
    NZStr::from_nonzero(b)
}

/// The settings every connection starts from: the server at `host:port`,
/// the database `postgres`, notices from level NOTICE on, the application
/// name `pgbb`, then the options of the server URI in order, then UTF-8 as
/// the client encoding.
pub fn base_connector(host: &str, port: u16, uri_options: &[(NZStr<'_>, NZStr<'_>)]) -> (r:
    Connector)
    ensures
        r@.host == host@,
        r@.port == port,
        r@.password == Seq::<u8>::empty(),
        r@.options == seq![
            (lit_opt_database(), lit_val_postgres()),
            (lit_opt_client_min_messages(), lit_val_notice()),
            (lit_opt_application_name(), lit_val_pgbb()),
        ] + crate::pg::encode::option_pairs(uri_options@) + seq![
            (lit_opt_client_encoding(), lit_val_utf8()),
        ],
{
    let (a, b, c, d, e, f, g, h) = (
        lit_opt_database_bytes(),
        lit_val_postgres_bytes(),
        lit_opt_client_min_messages_bytes(),
        lit_val_notice_bytes(),
        lit_opt_application_name_bytes(),
        lit_val_pgbb_bytes(),
        lit_opt_client_encoding_bytes(),
        lit_val_utf8_bytes(),
    );
    proof {
        assert forall|k: int| 0 <= k < a@.len() implies #[trigger] a@[k] != 0 by {}
        assert forall|k: int| 0 <= k < b@.len() implies #[trigger] b@[k] != 0 by {}
        assert forall|k: int| 0 <= k < c@.len() implies #[trigger] c@[k] != 0 by {}
        assert forall|k: int| 0 <= k < d@.len() implies #[trigger] d@[k] != 0 by {}
        assert forall|k: int| 0 <= k < e@.len() implies #[trigger] e@[k] != 0 by {}
        assert forall|k: int| 0 <= k < f@.len() implies #[trigger] f@[k] != 0 by {}
        assert forall|k: int| 0 <= k < g@.len() implies #[trigger] g@[k] != 0 by {}
        assert forall|k: int| 0 <= k < h@.len() implies #[trigger] h@[k] != 0 by {}
    }
    let mut ctor = Connector::new().with(nz(a), nz(b)).with(nz(c), nz(d)).with(nz(e), nz(f));
    ctor = ctor.with_addr(host, port);
    let ghost head = ctor@.options;
    let mut k: usize = 0;
    while k < uri_options.len()
        invariant
            k <= uri_options@.len(),
            ctor@.host == host@,
            ctor@.port == port,
            ctor@.password == Seq::<u8>::empty(),
            ctor@.options == head + crate::pg::encode::option_pairs(uri_options@).take(k as int),
        decreases uri_options@.len() - k,
    {
        let (key, val) = uri_options[k];
        ctor = ctor.with(key, val);
        assert(crate::pg::encode::option_pairs(uri_options@).take(k + 1) =~= crate::pg::encode::option_pairs(
            uri_options@,
        ).take(k as int).push((key@, val@)));
        k = k + 1;
    }
    assert(crate::pg::encode::option_pairs(uri_options@).take(k as int) =~= crate::pg::encode::option_pairs(
        uri_options@,
    ));
    let r = ctor.with(nz(g), nz(h));
    assert(r@.options =~= seq![
        (lit_opt_database(), lit_val_postgres()),
        (lit_opt_client_min_messages(), lit_val_notice()),
        (lit_opt_application_name(), lit_val_pgbb()),
    ] + crate::pg::encode::option_pairs(uri_options@) + seq![
        (lit_opt_client_encoding(), lit_val_utf8()),
    ]);
    r
}

/// The settings of a script run: the time zone, then the database.
pub fn run_connector(base: Connector, db: NZStr<'_>, tz: NZStr<'_>) -> (r: Connector)
    ensures
        r@.host == base@.host,
        r@.port == base@.port,
        r@.password == base@.password,
        r@.options == base@.options + seq![(lit_opt_timezone(), tz@), (lit_opt_database(), db@)],
{
    let (a, b) = (lit_opt_timezone_bytes(), lit_opt_database_bytes());
    proof {
        assert forall|k: int| 0 <= k < a@.len() implies #[trigger] a@[k] != 0 by {}
        assert forall|k: int| 0 <= k < b@.len() implies #[trigger] b@[k] != 0 by {}
    }
    let r = base.with(nz(a), tz).with(nz(b), db);
    assert(r@.options =~= base@.options + seq![(lit_opt_timezone(), tz@), (lit_opt_database(), db@)]);
    r
}

/// The settings of a catalog request: a 10 s statement timeout, read-only
/// transactions, `pg_catalog` as the search path, then the database when
/// one is named.
pub fn catalog_connector(base: Connector, db: Option<NZStr<'_>>) -> (r: Connector)
    ensures
        r@.host == base@.host,
        r@.port == base@.port,
        r@.password == base@.password,
        r@.options == base@.options + seq![
            (lit_opt_statement_timeout(), lit_val_10s()),
            (lit_opt_read_only(), lit_val_on()),
            (lit_opt_search_path(), lit_val_pg_catalog()),
        ] + match db {
            Some(d) => seq![(lit_opt_database(), d@)],
            None => Seq::empty(),
        },
{
    let (a, b, c, d, e, f, g) = (
        lit_opt_statement_timeout_bytes(),
        lit_val_10s_bytes(),
        lit_opt_read_only_bytes(),
        lit_val_on_bytes(),
        lit_opt_search_path_bytes(),
        lit_val_pg_catalog_bytes(),
        lit_opt_database_bytes(),
    );
    proof {
        assert forall|k: int| 0 <= k < a@.len() implies #[trigger] a@[k] != 0 by {}
        assert forall|k: int| 0 <= k < b@.len() implies #[trigger] b@[k] != 0 by {}
        assert forall|k: int| 0 <= k < c@.len() implies #[trigger] c@[k] != 0 by {}
        assert forall|k: int| 0 <= k < d@.len() implies #[trigger] d@[k] != 0 by {}
        assert forall|k: int| 0 <= k < e@.len() implies #[trigger] e@[k] != 0 by {}
        assert forall|k: int| 0 <= k < f@.len() implies #[trigger] f@[k] != 0 by {}
        assert forall|k: int| 0 <= k < g@.len() implies #[trigger] g@[k] != 0 by {}
    }
    let r = base.with(nz(a), nz(b)).with(nz(c), nz(d)).with(nz(e), nz(f));
    let ghost opts = base@.options + seq![
        (lit_opt_statement_timeout(), lit_val_10s()),
        (lit_opt_read_only(), lit_val_on()),
        (lit_opt_search_path(), lit_val_pg_catalog()),
    ];
    assert(r@.options =~= opts);
    match db {
        Some(name) => {
            let r2 = r.with(nz(g), name);
            assert(r2@.options =~= opts + seq![(lit_opt_database(), name@)]);
            r2
        },
        None => {
            assert(opts + Seq::<(Seq<u8>, Seq<u8>)>::empty() =~= opts);
            r
        },
    }
}

// ---------------------------------------------------------------------------
// User interface files
// ---------------------------------------------------------------------------

/// A file of the bundled user interface.
#[derive(Debug, Clone, Copy, PartialEq, Eq, Structural)]
pub enum UiAsset {
    Index,
    Favicon,
    MainJs,
    MapJs,
    StyleCss,
}

/// The asset a path names: `/`, `/favicon.svg`, `/main.js`, `/map.js` and
/// `/style.css`.
pub open spec fn spec_ui_asset(path: Seq<u8>) -> Option<UiAsset> {
    if path == lit_root() {
        Some(UiAsset::Index)
    } else if path == lit_favicon_svg() {
        Some(UiAsset::Favicon)
    } else if path == lit_main_js() {
        Some(UiAsset::MainJs)
    } else if path == lit_map_js() {
        Some(UiAsset::MapJs)
    } else if path == lit_style_css() {
        Some(UiAsset::StyleCss)
    } else {
        None
    }
}

/// The asset a path names, if any.
pub fn ui_asset(path: &[u8]) -> (r: Option<UiAsset>)
    ensures
        r == spec_ui_asset(path@),
{
    if bytes_eq(path, lit_root_bytes()) {
        Some(UiAsset::Index)
    } else if bytes_eq(path, lit_favicon_svg_bytes()) {
        Some(UiAsset::Favicon)
    } else if bytes_eq(path, lit_main_js_bytes()) {
        Some(UiAsset::MainJs)
    } else if bytes_eq(path, lit_map_js_bytes()) {
        Some(UiAsset::MapJs)
    } else if bytes_eq(path, lit_style_css_bytes()) {
        Some(UiAsset::StyleCss)
    } else {
        None
    }
}

/// How an asset is served: the name of its file in the bundle, its content
/// type, and whether the file is gzip-compressed.
pub open spec fn spec_asset_file(a: UiAsset) -> (Seq<u8>, Seq<u8>, bool) {
    match a {
        UiAsset::Index => (lit_bundle_index(), lit_html(), false),
        UiAsset::Favicon => (lit_bundle_favicon(), lit_svg(), false),
        UiAsset::MainJs => (lit_bundle_main(), lit_javascript(), true),
        UiAsset::MapJs => (lit_bundle_map(), lit_javascript(), true),
        UiAsset::StyleCss => (lit_bundle_style(), lit_css(), true),
    }
}

impl UiAsset {
    /// The name of the file in the bundle, the content type, and whether
    /// the file is gzip-compressed.
    pub fn file(&self) -> (r: (&'static [u8], &'static [u8], bool))
        ensures
            (r.0@, r.1@, r.2) == spec_asset_file(*self),
    {
        match self {
            UiAsset::Index => (lit_bundle_index_bytes(), lit_html_bytes(), false),
            UiAsset::Favicon => (lit_bundle_favicon_bytes(), lit_svg_bytes(), false),
            UiAsset::MainJs => (lit_bundle_main_bytes(), lit_javascript_bytes(), true),
            UiAsset::MapJs => (lit_bundle_map_bytes(), lit_javascript_bytes(), true),
            UiAsset::StyleCss => (lit_bundle_style_bytes(), lit_css_bytes(), true),
        }
    }
}

/// The bundle law: every file of the bundled interface is served, each at
/// exactly one path.
pub proof fn lemma_ui_assets_served(a: UiAsset, p: Seq<u8>, q: Seq<u8>)
    ensures
        exists|path: Seq<u8>| spec_ui_asset(path) == Some(a),
        spec_ui_asset(p) == Some(a) && spec_ui_asset(q) == Some(a) ==> p == q,
{
    let path = match a {
        UiAsset::Index => lit_root(),
        UiAsset::Favicon => lit_favicon_svg(),
        UiAsset::MainJs => lit_main_js(),
        UiAsset::MapJs => lit_map_js(),
        UiAsset::StyleCss => lit_style_css(),
    };
    assert(lit_root().len() == 1);
    assert(lit_favicon_svg().len() == 12);
    assert(lit_main_js().len() == 8);
    assert(lit_map_js().len() == 7);
    assert(lit_style_css().len() == 10);
    assert(spec_ui_asset(path) == Some(a));
}

/// A bundled file is served with the content type that its path's
/// extension gives in the development tree.
pub proof fn lemma_ui_asset_content_type(p: Seq<u8>)
    ensures
        spec_ui_asset(p) matches Some(a) ==> spec_asset_file(a).1 == spec_dev_content_type(p),
{
    let ix = lit_index_html();
    assert(ix.skip(ix.len() - 5) =~= lit_ext_html());
    let f = lit_favicon_svg();
    assert(f.skip(f.len() - 5) != lit_ext_html()) by {
        assert(f.skip(f.len() - 5)[1] != lit_ext_html()[1]);
    }
    assert(f.skip(f.len() - 4) != lit_ext_css()) by {
        assert(f.skip(f.len() - 4)[1] != lit_ext_css()[1]);
    }
    assert(f.skip(f.len() - 3) != lit_ext_js()) by {
        assert(f.skip(f.len() - 3)[0] != lit_ext_js()[0]);
    }
    assert(f.skip(f.len() - 4) =~= lit_ext_svg());
    let m = lit_main_js();
    assert(m.skip(m.len() - 5) != lit_ext_html()) by {
        assert(m.skip(m.len() - 5)[1] != lit_ext_html()[1]);
    }
    assert(m.skip(m.len() - 4) != lit_ext_css()) by {
        assert(m.skip(m.len() - 4)[1] != lit_ext_css()[1]);
    }
    assert(m.skip(m.len() - 3) =~= lit_ext_js());
    let mp = lit_map_js();
    assert(mp.skip(mp.len() - 5) != lit_ext_html()) by {
        assert(mp.skip(mp.len() - 5)[1] != lit_ext_html()[1]);
    }
    assert(mp.skip(mp.len() - 4) != lit_ext_css()) by {
        assert(mp.skip(mp.len() - 4)[1] != lit_ext_css()[1]);
    }
    assert(mp.skip(mp.len() - 3) =~= lit_ext_js());
    let st = lit_style_css();
    assert(st.skip(st.len() - 5) != lit_ext_html()) by {
        assert(st.skip(st.len() - 5)[1] != lit_ext_html()[1]);
    }
    assert(st.skip(st.len() - 4) =~= lit_ext_css());
}

/// The file of the development tree that a path names: `./ui` followed by
/// the path, `/` standing for `/index.html`.
pub open spec fn spec_dev_file(path: Seq<u8>) -> Seq<u8> {
    lit_ui_dir() + if path == lit_root() {
        lit_index_html()
    } else {
        path
    }
}

pub fn dev_file(path: &[u8]) -> (r: Vec<u8>)
    ensures
        r@ == spec_dev_file(path@),
{
    let mut out = vstd::slice::slice_to_vec(lit_ui_dir_bytes());
    if bytes_eq(path, lit_root_bytes()) {
        push_all(&mut out, lit_index_html_bytes());
    } else {
        push_all(&mut out, path);
    }
    out
}

/// The content type of a file of the development tree, by the end of its
/// path: `.html`, `.css`, `.js`, `.svg`, `.woff2`, anything else being
/// binary data.
pub open spec fn spec_dev_content_type(path: Seq<u8>) -> Seq<u8> {
    let p = if path == lit_root() {
        lit_index_html()
    } else {
        path
    };
    if ends_with(p, lit_ext_html()) {
        lit_html()
    } else if ends_with(p, lit_ext_css()) {
        lit_css()
    } else if ends_with(p, lit_ext_js()) {
        lit_javascript()
    } else if ends_with(p, lit_ext_svg()) {
        lit_svg()
    } else if ends_with(p, lit_ext_woff2()) {
        lit_woff2()
    } else {
        lit_octet_stream()
    }
}

pub open spec fn ends_with(p: Seq<u8>, suffix: Seq<u8>) -> bool {
    p.len() >= suffix.len() && p.skip(p.len() - suffix.len()) == suffix
}

fn ends_with_exec(p: &[u8], suffix: &[u8]) -> (r: bool)
    ensures
        r == ends_with(p@, suffix@),
{
    if p.len() < suffix.len() {
        return false;
    }
    let tail = vstd::slice::slice_subrange(p, p.len() - suffix.len(), p.len());
    assert(tail@ =~= p@.skip(p@.len() - suffix@.len()));
    bytes_eq(tail, suffix)
}

pub fn dev_content_type(path: &[u8]) -> (r: &'static [u8])
    ensures
        r@ == spec_dev_content_type(path@),
{
    let p = if bytes_eq(path, lit_root_bytes()) {
        lit_index_html_bytes()
    } else {
        path
    };
    if ends_with_exec(p, lit_ext_html_bytes()) {
        lit_html_bytes()
    } else if ends_with_exec(p, lit_ext_css_bytes()) {
        lit_css_bytes()
    } else if ends_with_exec(p, lit_ext_js_bytes()) {
        lit_javascript_bytes()
    } else if ends_with_exec(p, lit_ext_svg_bytes()) {
        lit_svg_bytes()
    } else if ends_with_exec(p, lit_ext_woff2_bytes()) {
        lit_woff2_bytes()
    } else {
        lit_octet_stream_bytes()
    }
}


// ---------------------------------------------------------------------------
// Streamed bodies
// ---------------------------------------------------------------------------

/// What a chunk handed over by the producer of a streamed body means.
pub enum ChunkOutcome {
    /// The producer finished: the body ends.
    End,
    /// Data to send.
    Data(Vec<u8>),
    /// The producer went away without finishing: the body is broken.
    Broken,
}

/// An empty chunk ends the body, a missing one (the producer is gone)
/// breaks it, any other is data.
pub fn classify_chunk(chunk: Option<Vec<u8>>) -> (r: ChunkOutcome)
    ensures
        match chunk {
            None => r is Broken,
            Some(c) => if c@.len() == 0 {
                r is End
            } else {
                r matches ChunkOutcome::Data(d) && d@ == c@
            },
        },
{
    match chunk {
        None => ChunkOutcome::Broken,
        Some(c) => if c.len() == 0 {
            ChunkOutcome::End
        } else {
            ChunkOutcome::Data(c)
        },
    }
}

/// The line sent to keep an idle NDJSON response alive.
pub fn heartbeat() -> (r: Vec<u8>)
    ensures
        r@ == lit_alive(),
{
    let mut out: Vec<u8> = Vec::new();
    push_lit_alive(&mut out);
    out
}

} // verus!
