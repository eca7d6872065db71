//! Connections to Postgres: the connection settings, the errors of
//! connecting, the queue of outgoing messages, the buffer of received bytes,
//! and the authentication and startup exchange.
//!
//! Sockets are not here: a caller moves bytes between a socket and a
//! [`Connection`] / [`RxBuf`], and drives [`Handshake`] one message at a
//! time.
use vstd::prelude::*;

use std::collections::VecDeque;

use crate::pg::decode::{
    lemma_parsed_bounds,
    payload_within,
    error_code,
    max_message_len,
    parse_message,
    spec_parse_message,
    BackendMessage,
    DbError,
    Error,
    Msg,
};
use crate::hex::hex_lower;
use crate::pg::md5::{md5_digest, md5_password, spec_md5_password};
use crate::pg::scram::{
    auth_message,
    client_final,
    client_first,
    salted_password,
    server_signature,
    spec_finish,
    spec_saslprep_lax,
    spec_server_first,
    ScramSha256,
};
use crate::pg::encode::{
    lemma_options_bytes_len,
    options_size,
    password_msg,
    sasl_initial_resp_body,
    sasl_initial_resp_msg,
    sasl_resp_msg,
    startup_body,
    startup_msg,
    write_password,
    write_sasl_initial_resp,
    write_sasl_resp,
    write_startup,
    bare_msg,
    bind_body,
    bind_msg,
    cancel_req_body,
    cancel_req_msg,
    close_portal_msg,
    copy_fail_msg,
    cstr,
    describe_stmt_msg,
    execute_msg,
    frame_fits,
    has_no_zero,
    option_pairs,
    param_values,
    parse_body,
    parse_msg,
    write_bind,
    write_cancel_req,
    write_close_portal,
    write_copy_fail,
    write_describe_stmt,
    write_execute,
    write_flush,
    write_parse,
    write_sync,
    write_terminate,
    NZStr,
    TxBuf,
};
use crate::pg::display::{dberror_display, error_name, push_dberror_display};
use crate::pg::scram::{scram_error_message, ScramError, ScramErrorView};
use crate::run::text::push_all;
use crate::pg::text::{
    lit_auth_ok_expected,
    lit_auth_ok_expected_bytes,
    lit_copy_fail_reason,
    lit_copy_fail_reason_bytes,
    lit_invalid_datum_length,
    lit_invalid_datum_length_bytes,
    lit_invalid_message_length,
    lit_invalid_message_length_bytes,
    lit_invalid_password,
    lit_invalid_password_bytes,
    lit_message_too_long,
    lit_message_too_long_bytes,
    lit_message_too_big,
    lit_message_too_big_bytes,
    lit_password_too_long,
    lit_password_too_long_bytes,
    lit_sasl_continue_expected,
    lit_sasl_continue_expected_bytes,
    lit_sasl_final_expected,
    lit_sasl_final_expected_bytes,
    lit_unexpected_end,
    lit_unexpected_end_bytes,
    lit_unexpected_message,
    lit_unexpected_message_bytes,
    lit_unexpected_trailing,
    lit_unexpected_trailing_bytes,
    lit_unknown_message,
    lit_unknown_message_bytes,
    lit_unsupported_auth,
    lit_unsupported_auth_bytes,
    lit_scram_sha256,
    lit_scram_sha256_bytes,
    lit_user,
    lit_user_bytes,
};

verus! {

/// The type `text`.
pub const TEXT_OID: u32 = 25;

/// The type `oid`.
pub const OID_OID: u32 = 26;

/// The type `json`.
pub const JSON_OID: u32 = 114;

// ---------------------------------------------------------------------------
// Connection settings
// ---------------------------------------------------------------------------

/// What a [`Connector`] holds: where the server is, the password, and the
/// startup options in the order given.
pub struct ConnectorView {
    pub host: Seq<char>,
    pub port: u16,
    pub password: Seq<u8>,
    pub options: Seq<(Seq<u8>, Seq<u8>)>,
}

pub open spec fn options_view(o: Seq<(Vec<u8>, Vec<u8>)>) -> Seq<(Seq<u8>, Seq<u8>)> {
    o.map_values(|p: (Vec<u8>, Vec<u8>)| (p.0@, p.1@))
}

/// Neither a name nor a value of the options holds a zero byte.
pub open spec fn options_ok(o: Seq<(Seq<u8>, Seq<u8>)>) -> bool {
    forall|k: int| 0 <= k < o.len() ==> has_no_zero(#[trigger] o[k].0) && has_no_zero(o[k].1)
}

/// The value of the first option named `user`.
pub open spec fn user_option(o: Seq<(Seq<u8>, Seq<u8>)>) -> Option<Seq<u8>>
    decreases o.len(),
{
    if o.len() == 0 {
        None
    } else if o[0].0 == lit_user() {
        Some(o[0].1)
    } else {
        user_option(o.drop_first())
    }
}

/// Settings to connect with: server address, password and startup options.
pub struct Connector {
    host: String,
    port: u16,
    password: Vec<u8>,
    options: Vec<(Vec<u8>, Vec<u8>)>,
}

impl View for Connector {
    type V = ConnectorView;

    closed spec fn view(&self) -> ConnectorView {
        ConnectorView {
            host: self.host@,
            port: self.port,
            password: self.password@,
            options: options_view(self.options@),
        }
    }
}

impl Connector {
    #[verifier::type_invariant]
    spec fn inv(self) -> bool {
        options_ok(options_view(self.options@))
    }

    /// Settings for `127.0.0.1:5432` with no password and no options.
    pub fn new() -> (r: Connector)
        ensures
            r@.host == "127.0.0.1"@,
            r@.port == 5432,
            r@.password == Seq::<u8>::empty(),
            r@.options == Seq::<(Seq<u8>, Seq<u8>)>::empty(),
    {
        let host = "127.0.0.1".to_owned();
        let options: Vec<(Vec<u8>, Vec<u8>)> = Vec::new();
        assert(options_view(options@) =~= Seq::<(Seq<u8>, Seq<u8>)>::empty());
        Connector { host, port: 5432, password: Vec::new(), options }
    }

    /// Adds the startup option `opt` with the value `val`, after the
    /// options already there.
    pub fn with(self, opt: NZStr<'_>, val: NZStr<'_>) -> (r: Connector)
        ensures
            r@.host == self@.host,
            r@.port == self@.port,
            r@.password == self@.password,
            r@.options == self@.options.push((opt@, val@)),
    {
        proof {
            use_type_invariant(&self);
        }
        let k = vstd::slice::slice_to_vec(opt.as_bytes());
        let v = vstd::slice::slice_to_vec(val.as_bytes());
        let mut options = self.options;
        let ghost before = options@;
        options.push((k, v));
        assert(options_view(options@) =~= options_view(before).push((opt@, val@)));
        Connector { host: self.host, port: self.port, password: self.password, options }
    }

    /// Sets the address of the server.
    pub fn with_addr(self, host: &str, port: u16) -> (r: Connector)
        ensures
            r@.host == host@,
            r@.port == port,
            r@.password == self@.password,
            r@.options == self@.options,
    {
        proof {
            use_type_invariant(&self);
        }
        Connector { host: host.to_owned(), port, password: self.password, options: self.options }
    }

    /// Sets the password and adds the option `user`.
    pub fn with_credentials(self, user: NZStr<'_>, password: &[u8]) -> (r: Connector)
        ensures
            r@.host == self@.host,
            r@.port == self@.port,
            r@.password == password@,
            r@.options == self@.options.push((lit_user(), user@)),
    {
        proof {
            use_type_invariant(&self);
        }
        let s = Connector {
            host: self.host,
            port: self.port,
            password: vstd::slice::slice_to_vec(password),
            options: self.options,
        };
        let name_bytes = lit_user_bytes();
        proof {
            assert forall|k: int| 0 <= k < name_bytes@.len() implies #[trigger] name_bytes@[k] != 0 by {
            }
        }
        let name = NZStr::from_nonzero(name_bytes);
        s.with(name, user)
    }

    /// The value of the first option named `user`.
    pub fn user(&self) -> (r: Option<&[u8]>)
        ensures
            match r {
                Some(v) => user_option(self@.options) == Some(v@),
                None => user_option(self@.options) is None,
            },
    {
        let name = lit_user_bytes();
        let ghost o = self@.options;
        let mut k: usize = 0;
        assert(o.skip(0) =~= o);
        while k < self.options.len()
            invariant
                k <= self.options@.len(),
                o == options_view(self.options@),
                name@ == lit_user(),
                user_option(o) == user_option(o.skip(k as int)),
            decreases self.options@.len() - k,
        {
            assert(o.skip(k as int)[0] == o[k as int]);
            if bytes_eq(self.options[k].0.as_slice(), name) {
                return Some(self.options[k].1.as_slice());
            }
            assert(o.skip(k as int).drop_first() =~= o.skip(k + 1));
            k = k + 1;
        }
        None
    }

    /// A copy of the settings.
    pub fn duplicate(&self) -> (r: Connector)
        ensures
            r@ == self@,
    {
        proof {
            use_type_invariant(self);
        }
        let mut options: Vec<(Vec<u8>, Vec<u8>)> = Vec::new();
        let mut k: usize = 0;
        while k < self.options.len()
            invariant
                k <= self.options@.len(),
                options_view(options@) == options_view(self.options@).take(k as int),
            decreases self.options@.len() - k,
        {
            let a = vstd::slice::slice_to_vec(self.options[k].0.as_slice());
            let b = vstd::slice::slice_to_vec(self.options[k].1.as_slice());
            let ghost before = options@;
            options.push((a, b));
            assert(options_view(options@) =~= options_view(before).push((a@, b@)));
            assert(options_view(self.options@).take(k + 1) =~= options_view(self.options@).take(
                k as int,
            ).push(options_view(self.options@)[k as int]));
            k = k + 1;
        }
        assert(options_view(self.options@).take(k as int) =~= options_view(self.options@));
        let host = self.host.as_str().to_owned();
        Connector {
            host,
            port: self.port,
            password: vstd::slice::slice_to_vec(self.password.as_slice()),
            options,
        }
    }

    /// The host name of the server.
    pub fn host(&self) -> (r: &str)
        ensures
            r@ == self@.host,
    {
        self.host.as_str()
    }

    /// The port of the server.
    pub fn port(&self) -> (r: u16)
        ensures
            r == self@.port,
    {
        self.port
    }

    /// The password.
    pub fn password(&self) -> (r: &[u8])
        ensures
            r@ == self@.password,
    {
        self.password.as_slice()
    }

    /// The startup options, as strings without zero bytes.
    pub fn startup_options(&self) -> (r: Vec<(NZStr<'_>, NZStr<'_>)>)
        ensures
            option_pairs(r@) == self@.options,
    {
        proof {
            use_type_invariant(self);
        }
        let ghost o = self@.options;
        let mut out: Vec<(NZStr<'_>, NZStr<'_>)> = Vec::new();
        let mut k: usize = 0;
        while k < self.options.len()
            invariant
                k <= self.options@.len(),
                o == options_view(self.options@),
                options_ok(o),
                option_pairs(out@) == o.take(k as int),
            decreases self.options@.len() - k,
        {
            assert(has_no_zero(o[k as int].0) && has_no_zero(o[k as int].1));
            let a = NZStr::from_nonzero(self.options[k].0.as_slice());
            let b = NZStr::from_nonzero(self.options[k].1.as_slice());
            let ghost before = out@;
            out.push((a, b));
            assert(option_pairs(out@) =~= option_pairs(before).push((a@, b@)));
            assert(o.take(k + 1) =~= o.take(k as int).push(o[k as int]));
            k = k + 1;
        }
        assert(o.take(k as int) =~= o);
        out
    }
}

/// Whether two byte strings are equal.
pub fn bytes_eq(a: &[u8], b: &[u8]) -> (r: bool)
    ensures
        r == (a@ == b@),
{
    if a.len() != b.len() {
        return false;
    }
    let mut k: usize = 0;
    while k < a.len()
        invariant
            k <= a.len(),
            a.len() == b.len(),
            forall|m: int| 0 <= m < k ==> a@[m] == b@[m],
        decreases a.len() - k,
    {
        if a[k] != b[k] {
            return false;
        }
        k = k + 1;
    }
    assert(a@ =~= b@);
    true
}

// ---------------------------------------------------------------------------
// Errors of connecting
// ---------------------------------------------------------------------------

/// Why connecting failed.
pub enum ConnectFailure {
    /// The server answered with an ErrorResponse.
    Db(DbError),
    /// A message from the server could not be decoded.
    Protocol(Error),
    /// The SCRAM exchange failed.
    Scram(ScramError),
    /// The socket failed; the text of the error.
    Io(Vec<u8>),
    /// The password holds a zero byte and cannot be sent.
    InvalidPassword,
    /// A message to send is longer than the protocol's signed 32-bit length
    /// field can carry.
    MessageTooLong,
    AuthenticationOkExpected,
    SaslContinueExpected,
    SaslFinalExpected,
    UnsupportedAuthentication,
    UnexpectedMessage,
    /// The password, once prepared for SCRAM, is too long to derive a key
    /// from.
    PasswordTooLong,
}

/// An error of connecting, and whether it came after the server accepted
/// the credentials.
pub struct ConnectError {
    pub inner: ConnectFailure,
    is_authorized_: bool,
}

/// The text of the code `28`, the class of SQLSTATE codes of invalid
/// authorization.
pub open spec fn starts_28(code: Seq<u8>) -> bool {
    code.len() >= 2 && code[0] == 0x32 && code[1] == 0x38
}

impl ConnectError {
    /// Whether the error came after the server accepted the credentials.
    pub closed spec fn authorized(self) -> bool {
        self.is_authorized_
    }

    /// Why connecting failed.
    pub closed spec fn failure(self) -> ConnectFailure {
        self.inner
    }

    /// An error that came before the server accepted the credentials.
    pub fn new(inner: ConnectFailure) -> (r: ConnectError)
        ensures
            r.failure() == inner,
            !r.authorized(),
    {
        ConnectError { inner, is_authorized_: false }
    }

    /// The same error, marked as coming after the server accepted the
    /// credentials.
    pub fn into_authorized(self) -> (r: ConnectError)
        ensures
            r.failure() == self.failure(),
            r.authorized(),
    {
        ConnectError { inner: self.inner, is_authorized_: true }
    }

    /// Whether the server refused the credentials: a database error whose
    /// SQLSTATE is of class `28` (such as `28000`, no such role, and
    /// `28P01`, wrong password).
    pub fn is_bad_credentials(&self) -> (r: bool)
        ensures
            r == (self.failure() matches ConnectFailure::Db(d) && starts_28(error_code(d@))),
    {
        match self.as_dberror() {
            Some(d) => {
                let code = d.code();
                code.len() >= 2 && code[0] == 0x32 && code[1] == 0x38
            },
            None => false,
        }
    }

    /// Why connecting failed.
    pub fn into_failure(self) -> (r: ConnectFailure)
        ensures
            r == self.failure(),
    {
        self.inner
    }

    /// Whether the error came after the server accepted the credentials.
    pub fn is_authorized(&self) -> (r: bool)
        ensures
            r == self.authorized(),
    {
        self.is_authorized_
    }

    /// The database error, when the server answered with one.
    pub fn as_dberror(&self) -> (r: Option<&DbError>)
        ensures
            match self.failure() {
                ConnectFailure::Db(d) => r == Some(&d),
                _ => r is None,
            },
    {
        match &self.inner {
            ConnectFailure::Db(d) => Some(d),
            _ => None,
        }
    }
}

/// The view of a [`ConnectFailure`].
pub enum ConnectFailureView {
    Db(Seq<(u8, Seq<u8>)>),
    Protocol(Error),
    Scram(ScramErrorView),
    Io(Seq<u8>),
    InvalidPassword,
    MessageTooLong,
    AuthenticationOkExpected,
    SaslContinueExpected,
    SaslFinalExpected,
    UnsupportedAuthentication,
    UnexpectedMessage,
    PasswordTooLong,
}

impl View for ConnectFailure {
    type V = ConnectFailureView;

    open spec fn view(&self) -> ConnectFailureView {
        match self {
            ConnectFailure::Db(d) => ConnectFailureView::Db(d@),
            ConnectFailure::Protocol(e) => ConnectFailureView::Protocol(*e),
            ConnectFailure::Scram(e) => ConnectFailureView::Scram(e@),
            ConnectFailure::Io(m) => ConnectFailureView::Io(m@),
            ConnectFailure::InvalidPassword => ConnectFailureView::InvalidPassword,
            ConnectFailure::MessageTooLong => ConnectFailureView::MessageTooLong,
            ConnectFailure::AuthenticationOkExpected => ConnectFailureView::AuthenticationOkExpected,
            ConnectFailure::SaslContinueExpected => ConnectFailureView::SaslContinueExpected,
            ConnectFailure::SaslFinalExpected => ConnectFailureView::SaslFinalExpected,
            ConnectFailure::UnsupportedAuthentication => ConnectFailureView::UnsupportedAuthentication,
            ConnectFailure::UnexpectedMessage => ConnectFailureView::UnexpectedMessage,
            ConnectFailure::PasswordTooLong => ConnectFailureView::PasswordTooLong,
        }
    }
}

/// The text of a failure.
pub open spec fn failure_text(f: ConnectFailureView) -> Seq<u8> {
    match f {
        ConnectFailureView::Db(d) => dberror_display(d),
        ConnectFailureView::Protocol(e) => error_name(e),
        ConnectFailureView::Scram(e) => scram_error_message(e),
        ConnectFailureView::Io(m) => m,
        ConnectFailureView::InvalidPassword => lit_invalid_password(),
        ConnectFailureView::MessageTooLong => lit_message_too_long(),
        ConnectFailureView::AuthenticationOkExpected => lit_auth_ok_expected(),
        ConnectFailureView::SaslContinueExpected => lit_sasl_continue_expected(),
        ConnectFailureView::SaslFinalExpected => lit_sasl_final_expected(),
        ConnectFailureView::UnsupportedAuthentication => lit_unsupported_auth(),
        ConnectFailureView::UnexpectedMessage => lit_unexpected_message(),
        ConnectFailureView::PasswordTooLong => lit_password_too_long(),
    }
}

impl ConnectFailure {
    /// The text of the failure.
    pub fn message(&self) -> (r: Vec<u8>)
        ensures
            r@ == failure_text(self@),
    {
        let mut out: Vec<u8> = Vec::new();
        match self {
            ConnectFailure::Db(d) => push_dberror_display(&mut out, d),
            ConnectFailure::Protocol(e) => push_all(&mut out, e.name()),
            ConnectFailure::Scram(e) => {
                let m = e.message();
                push_all(&mut out, m.as_slice());
            },
            ConnectFailure::Io(m) => push_all(&mut out, m.as_slice()),
            ConnectFailure::InvalidPassword => push_all(&mut out, lit_invalid_password_bytes()),
            ConnectFailure::MessageTooLong => push_all(&mut out, lit_message_too_long_bytes()),
            ConnectFailure::AuthenticationOkExpected => push_all(&mut out, lit_auth_ok_expected_bytes()),
            ConnectFailure::SaslContinueExpected => push_all(
                &mut out,
                lit_sasl_continue_expected_bytes(),
            ),
            ConnectFailure::SaslFinalExpected => push_all(&mut out, lit_sasl_final_expected_bytes()),
            ConnectFailure::UnsupportedAuthentication => push_all(
                &mut out,
                lit_unsupported_auth_bytes(),
            ),
            ConnectFailure::UnexpectedMessage => push_all(&mut out, lit_unexpected_message_bytes()),
            ConnectFailure::PasswordTooLong => push_all(&mut out, lit_password_too_long_bytes()),
        }
        assert(out@ =~= failure_text(self@));
        out
    }
}

// ---------------------------------------------------------------------------
// Outgoing messages
// ---------------------------------------------------------------------------

/// The outgoing side of a connection: the messages queued for the server,
/// and the key to cancel the backend's work with, once the server sent it.
pub struct Connection {
    txbuf: VecDeque<u8>,
    backend_key_data: Option<(i32, Vec<u8>)>,
}

/// The empty string, as a name of the unnamed statement or portal.
pub fn unnamed() -> (r: NZStr<'static>)
    ensures
        r@ == Seq::<u8>::empty(),
{
    let e: &'static [u8] = &[];
    assert(e@ =~= Seq::<u8>::empty());
    NZStr::from_nonzero(e)
}

impl Connection {
    #[verifier::type_invariant]
    spec fn inv(self) -> bool {
        self.backend_key_data matches Some((_, s)) ==> s@.len() <= max_message_len()
    }

    /// The bytes queued for the server.
    pub closed spec fn tx(self) -> Seq<u8> {
        self.txbuf@
    }

    /// The process id and secret key of the backend, once known.
    pub closed spec fn backend_key(self) -> Option<(i32, Seq<u8>)> {
        match self.backend_key_data {
            Some((pid, s)) => Some((pid, s@)),
            None => None,
        }
    }

    /// A connection with nothing queued and no backend key yet.
    pub fn new() -> (r: Connection)
        ensures
            r.tx() == Seq::<u8>::empty(),
            r.backend_key() is None,
    {
        Connection { txbuf: VecDeque::new(), backend_key_data: None }
    }

    /// The number of bytes queued.
    pub fn tx_len(&self) -> (r: usize)
        ensures
            r == self.tx().len(),
    {
        self.txbuf.len()
    }

    /// Takes the bytes queued, leaving none.
    pub fn take_tx(&mut self) -> (r: VecDeque<u8>)
        ensures
            r@ == old(self).tx(),
            final(self).tx() == Seq::<u8>::empty(),
            final(self).backend_key() == old(self).backend_key(),
    {
        proof {
            use_type_invariant(&*self);
        }
        let mut out: VecDeque<u8> = VecDeque::new();
        std::mem::swap(&mut out, &mut self.txbuf);
        out
    }

    /// Puts back `rest`, the part of what [`Connection::take_tx`] took that
    /// was not sent, before whatever was queued since.
    pub fn untake_tx(&mut self, rest: VecDeque<u8>)
        ensures
            final(self).tx() == rest@ + old(self).tx(),
            final(self).backend_key() == old(self).backend_key(),
    {
        proof {
            use_type_invariant(&*self);
        }
        let mut front = rest;
        let mut later: VecDeque<u8> = VecDeque::new();
        std::mem::swap(&mut later, &mut self.txbuf);
        front.append(&mut later);
        self.txbuf = front;
    }

    /// Parse: prepares `stmt` as `stmt_name`.
    pub fn send_parse(&mut self, stmt_name: NZStr<'_>, param_types: &[u32], stmt: NZStr<'_>)
        requires
            frame_fits(parse_body(stmt_name@, param_types@, stmt@)),
            old(self).tx().len() + parse_msg(stmt_name@, param_types@, stmt@).len() <= usize::MAX,
        ensures
            final(self).tx() == old(self).tx() + parse_msg(stmt_name@, param_types@, stmt@),
            final(self).backend_key() == old(self).backend_key(),
    {
        proof {
            use_type_invariant(&*self);
        }
        let mut tx = self.take_tx();
        write_parse(&mut tx, stmt_name, param_types, stmt);
        self.txbuf = tx;
    }

    /// Describe of the statement `stmt_name`.
    pub fn send_describe_stmt(&mut self, stmt_name: NZStr<'_>)
        requires
            frame_fits(seq![0x53u8] + cstr(stmt_name@)),
            old(self).tx().len() + describe_stmt_msg(stmt_name@).len() <= usize::MAX,
        ensures
            final(self).tx() == old(self).tx() + describe_stmt_msg(stmt_name@),
            final(self).backend_key() == old(self).backend_key(),
    {
        proof {
            use_type_invariant(&*self);
        }
        let mut tx = self.take_tx();
        write_describe_stmt(&mut tx, stmt_name);
        self.txbuf = tx;
    }

    /// Bind of `stmt_name` to the unnamed portal, with `params` in text and
    /// results in text.
    pub fn send_bind(&mut self, stmt_name: NZStr<'_>, params: &[Option<&[u8]>])
        requires
            frame_fits(
                bind_body(
                    stmt_name@,
                    Seq::empty(),
                    Seq::empty(),
                    Seq::empty(),
                    param_values(params@),
                ),
            ),
            old(self).tx().len() + bind_msg(
                stmt_name@,
                Seq::empty(),
                Seq::empty(),
                Seq::empty(),
                param_values(params@),
            ).len() <= usize::MAX,
        ensures
            final(self).tx() == old(self).tx() + bind_msg(
                stmt_name@,
                Seq::empty(),
                Seq::empty(),
                Seq::empty(),
                param_values(params@),
            ),
            final(self).backend_key() == old(self).backend_key(),
    {
        proof {
            use_type_invariant(&*self);
        }
        let none: [i16; 0] = [];
        assert(none@ =~= Seq::<i16>::empty());
        let mut tx = self.take_tx();
        write_bind(&mut tx, stmt_name, unnamed(), none.as_slice(), none.as_slice(), params);
        self.txbuf = tx;
    }

    /// Bind of `stmt_name` to the unnamed portal, with `params` in binary
    /// and results in binary.
    pub fn send_bind_bin(&mut self, stmt_name: NZStr<'_>, params: &[Option<&[u8]>])
        requires
            frame_fits(
                bind_body(stmt_name@, Seq::empty(), seq![1i16], seq![1i16], param_values(params@)),
            ),
            old(self).tx().len() + bind_msg(
                stmt_name@,
                Seq::empty(),
                seq![1i16],
                seq![1i16],
                param_values(params@),
            ).len() <= usize::MAX,
        ensures
            final(self).tx() == old(self).tx() + bind_msg(
                stmt_name@,
                Seq::empty(),
                seq![1i16],
                seq![1i16],
                param_values(params@),
            ),
            final(self).backend_key() == old(self).backend_key(),
    {
        proof {
            use_type_invariant(&*self);
        }
        let bin: [i16; 1] = [1];
        assert(bin@ =~= seq![1i16]);
        let mut tx = self.take_tx();
        write_bind(&mut tx, stmt_name, unnamed(), bin.as_slice(), bin.as_slice(), params);
        self.txbuf = tx;
    }

    /// Execute of the unnamed portal, with no limit on rows.
    pub fn send_execute(&mut self)
        requires
            old(self).tx().len() + execute_msg(Seq::empty(), 0).len() <= usize::MAX,
        ensures
            final(self).tx() == old(self).tx() + execute_msg(Seq::empty(), 0),
            final(self).backend_key() == old(self).backend_key(),
    {
        proof {
            use_type_invariant(&*self);
        }
        let mut tx = self.take_tx();
        write_execute(&mut tx, unnamed(), 0);
        self.txbuf = tx;
    }

    /// Close of the unnamed portal.
    pub fn send_close_portal(&mut self)
        requires
            old(self).tx().len() + close_portal_msg(Seq::empty()).len() <= usize::MAX,
        ensures
            final(self).tx() == old(self).tx() + close_portal_msg(Seq::empty()),
            final(self).backend_key() == old(self).backend_key(),
    {
        proof {
            use_type_invariant(&*self);
        }
        let mut tx = self.take_tx();
        write_close_portal(&mut tx, unnamed());
        self.txbuf = tx;
    }

    /// CopyFail: COPY FROM STDIN is not supported.
    pub fn send_copy_fail(&mut self)
        requires
            old(self).tx().len() + copy_fail_msg(lit_copy_fail_reason()).len() <= usize::MAX,
        ensures
            final(self).tx() == old(self).tx() + copy_fail_msg(lit_copy_fail_reason()),
            final(self).backend_key() == old(self).backend_key(),
    {
        proof {
            use_type_invariant(&*self);
        }
        let reason = lit_copy_fail_reason_bytes();
        proof {
            assert forall|k: int| 0 <= k < reason@.len() implies #[trigger] reason@[k] != 0 by {}
        }
        let mut tx = self.take_tx();
        write_copy_fail(&mut tx, NZStr::from_nonzero(reason));
        self.txbuf = tx;
    }

    /// Sync.
    pub fn send_sync(&mut self)
        requires
            old(self).tx().len() + 5 <= usize::MAX,
        ensures
            final(self).tx() == old(self).tx() + bare_msg(0x53),
            final(self).backend_key() == old(self).backend_key(),
    {
        proof {
            use_type_invariant(&*self);
        }
        let mut tx = self.take_tx();
        write_sync(&mut tx);
        self.txbuf = tx;
    }

    /// Flush.
    pub fn send_flush(&mut self)
        requires
            old(self).tx().len() + 5 <= usize::MAX,
        ensures
            final(self).tx() == old(self).tx() + bare_msg(0x48),
            final(self).backend_key() == old(self).backend_key(),
    {
        proof {
            use_type_invariant(&*self);
        }
        let mut tx = self.take_tx();
        write_flush(&mut tx);
        self.txbuf = tx;
    }

    /// Queues Terminate when nothing else is queued, which ends the session
    /// gracefully; returns whether it did.
    pub fn send_terminate_if_idle(&mut self) -> (r: bool)
        ensures
            r == (old(self).tx().len() == 0),
            r ==> final(self).tx() == bare_msg(0x58),
            !r ==> final(self).tx() == old(self).tx(),
            final(self).backend_key() == old(self).backend_key(),
    {
        proof {
            use_type_invariant(&*self);
        }
        if self.txbuf.len() == 0 {
            let mut tx = self.take_tx();
            write_terminate(&mut tx);
            self.txbuf = tx;
            assert(Seq::<u8>::empty() + bare_msg(0x58) =~= bare_msg(0x58));
            true
        } else {
            false
        }
    }

    /// The CancelRequest for the backend, to be sent over a new connection;
    /// `None` while the server has sent no backend key.
    pub fn cancel_request(&self) -> (r: Option<VecDeque<u8>>)
        ensures
            match self.backend_key() {
                Some((pid, secret)) => r matches Some(b) && b@ == cancel_req_msg(pid, secret),
                None => r is None,
            },
    {
        proof {
            use_type_invariant(self);
        }
        match &self.backend_key_data {
            Some((pid, secret)) => {
                let mut buf: VecDeque<u8> = VecDeque::new();
                write_cancel_req(&mut buf, *pid, secret.as_slice());
                assert(Seq::<u8>::empty() + cancel_req_msg(*pid, secret@) =~= cancel_req_msg(
                    *pid,
                    secret@,
                ));
                Some(buf)
            },
            None => None,
        }
    }
}

// ---------------------------------------------------------------------------
// Received bytes
// ---------------------------------------------------------------------------

/// Bytes received from the server and not yet taken as messages.
pub struct RxBuf {
    buf: Vec<u8>,
    consumed: usize,
}

impl View for RxBuf {
    type V = Seq<u8>;

    closed spec fn view(&self) -> Seq<u8> {
        self.buf@.skip(self.consumed as int)
    }
}

impl RxBuf {
    #[verifier::type_invariant]
    spec fn inv(self) -> bool {
        self.consumed <= self.buf@.len()
    }

    /// How many bytes already taken the buffer still holds room for.
    pub closed spec fn spent(self) -> nat {
        self.consumed as nat
    }

    pub fn new() -> (r: RxBuf)
        ensures
            r@ == Seq::<u8>::empty(),
            r.spent() == 0,
    {
        let r = RxBuf { buf: Vec::new(), consumed: 0 };
        assert(r.buf@.skip(0) =~= Seq::<u8>::empty());
        r
    }

    /// The bytes not yet taken.
    pub fn pending(&self) -> (r: &[u8])
        ensures
            r@ == self@,
    {
        proof {
            use_type_invariant(self);
        }
        let r = vstd::slice::slice_subrange(self.buf.as_slice(), self.consumed, self.buf.len());
        assert(r@ =~= self@);
        r
    }

    /// Whether no whole message is waiting: the first message of the bytes
    /// not yet taken has not fully arrived (a malformed one counts as
    /// waiting).
    pub fn is_drained(&self) -> (r: bool)
        ensures
            r == (spec_parse_message(self@) == Ok::<Option<(int, Msg)>, Error>(None)),
    {
        match parse_message(self.pending()) {
            Ok(None) => true,
            _ => false,
        }
    }

    /// The first message waiting, with the number of bytes it takes; `None`
    /// while it has not fully arrived.
    pub fn peek(&self) -> (r: Result<Option<(usize, BackendMessage<'_>)>, Error>)
        ensures
            match r {
                Ok(None) => spec_parse_message(self@) == Ok::<Option<(int, Msg)>, Error>(None),
                Ok(Some((n, m))) => spec_parse_message(self@) == Ok::<Option<(int, Msg)>, Error>(
                    Some((n as int, m@)),
                ),
                Err(e) => spec_parse_message(self@) == Err::<Option<(int, Msg)>, Error>(e),
            },
    {
        parse_message(self.pending())
    }

    /// Drops the first `n` bytes not yet taken.
    pub fn consume(&mut self, n: usize)
        requires
            n <= old(self)@.len(),
        ensures
            final(self)@ == old(self)@.skip(n as int),
            final(self).spent() == old(self).spent() + n,
    {
        proof {
            use_type_invariant(&*self);
        }
        let len = self.buf.len();
        assert(old(self)@.len() == len - self.consumed);
        self.consumed = self.consumed + n;
        assert(self.buf@.skip(self.consumed as int) =~= old(self)@.skip(n as int));
    }

    /// Frees the room of the bytes already taken; what is pending stays.
    pub fn compact(&mut self)
        ensures
            final(self)@ == old(self)@,
            final(self).spent() == 0,
    {
        proof {
            use_type_invariant(&*self);
        }
        let rest = vstd::slice::slice_to_vec(self.pending());
        self.consumed = 0;
        self.buf = rest;
        assert(self.buf@.skip(0) =~= old(self)@);
    }

    /// Appends bytes received (and frees the room of the bytes already
    /// taken).
    pub fn extend(&mut self, data: &[u8])
        ensures
            final(self)@ == old(self)@ + data@,
            final(self).spent() == 0,
    {
        proof {
            use_type_invariant(&*self);
        }
        let mut k: usize = 0;
        let mut buf = vstd::slice::slice_to_vec(self.pending());
        let ghost start = buf@;
        while k < data.len()
            invariant
                k <= data.len(),
                buf@ == start + data@.take(k as int),
            decreases data.len() - k,
        {
            buf.push(data[k]);
            k = k + 1;
            assert(buf@ =~= start + data@.take(k as int));
        }
        assert(data@.take(k as int) =~= data@);
        self.consumed = 0;
        self.buf = buf;
        assert(self.buf@.skip(0) =~= old(self)@ + data@);
    }
}

// ---------------------------------------------------------------------------
// Authentication and startup
// ---------------------------------------------------------------------------

/// How many queued bytes a connection may hold before more messages are
/// queued: above this, the caller is asked to send first.
pub open spec fn tx_room() -> int {
    0x1000_0000
}

/// Where an authentication and startup exchange stands: which message the
/// server is to send next.
#[derive(Debug, Clone, Copy, PartialEq, Eq, Structural)]
pub enum HandshakePhase {
    /// The authentication request.
    Auth,
    /// AuthenticationOk, after a password was sent.
    Password,
    /// AuthenticationSASLContinue, after the client-first-message.
    SaslContinue,
    /// AuthenticationSASLFinal, after the client-final-message.
    SaslFinal,
    /// AuthenticationOk, after the server's signature was checked.
    SaslOk,
    /// ParameterStatus and BackendKeyData until ReadyForQuery.
    Startup,
    /// The server is ready for queries.
    Ready,
    /// The exchange failed.
    Failed,
}

/// What the caller is to do after a step of the exchange.
pub enum HandshakeStep {
    /// Send what is queued and receive more: no whole message is waiting,
    /// or too much is queued.
    Io,
    /// A message was handled; step again.
    Continue,
    /// The server is ready for queries.
    Ready,
    Failed(ConnectError),
}

/// The exchange that opens a session: authentication with the password
/// the server asks for (cleartext, MD5 or SCRAM-SHA-256), then the startup
/// messages until the server is ready.
pub struct Handshake {
    user: Vec<u8>,
    password: Vec<u8>,
    phase: HandshakePhase,
    scram: Option<ScramSha256>,
}

pub open spec fn failed_with(r: HandshakeStep, f: ConnectFailureView, authorized: bool) -> bool {
    r matches HandshakeStep::Failed(e) && e.failure()@ == f && e.authorized() == authorized
}

/// Nothing was queued and the backend key did not change.
pub open spec fn quiet(c0: Connection, c1: Connection) -> bool {
    c1.tx() == c0.tx() && c1.backend_key() == c0.backend_key()
}

/// `msg` was queued and the backend key did not change.
pub open spec fn sent(c0: Connection, c1: Connection, msg: Seq<u8>) -> bool {
    c1.tx() == c0.tx() + msg && c1.backend_key() == c0.backend_key()
}

/// The exchange failed with `f`.
pub open spec fn fails(
    t: Handshake,
    c0: Connection,
    c1: Connection,
    r: HandshakeStep,
    f: ConnectFailureView,
    authorized: bool,
) -> bool {
    failed_with(r, f, authorized) && t.phase() == HandshakePhase::Failed && quiet(c0, c1)
}

/// The exchange moved on to `phase`, having queued nothing.
pub open spec fn moves(t: Handshake, c0: Connection, c1: Connection, r: HandshakeStep, phase: HandshakePhase) -> bool {
    r is Continue && t.phase() == phase && quiet(c0, c1)
}

/// The step from `s` to `t` on the message `m`, with the connection going
/// from `c0` to `c1` and `r` returned.
pub open spec fn handshake_moves(
    s: Handshake,
    m: Msg,
    t: Handshake,
    c0: Connection,
    c1: Connection,
    r: HandshakeStep,
) -> bool {
    let pw = s.password();
    &&& t.user() == s.user()
    &&& t.password() == pw
    &&& if m is ErrorResponse {
        fails(t, c0, c1, r, ConnectFailureView::Db(m->ErrorResponse_0), s.phase() == HandshakePhase::Startup)
    } else {
        match s.phase() {
            HandshakePhase::Auth => match m {
                Msg::AuthenticationOk => moves(t, c0, c1, r, HandshakePhase::Startup),
                Msg::AuthenticationCleartextPassword => if !has_no_zero(pw) {
                    fails(t, c0, c1, r, ConnectFailureView::InvalidPassword, false)
                } else if !frame_fits(cstr(pw)) {
                    fails(t, c0, c1, r, ConnectFailureView::MessageTooLong, false)
                } else {
                    r is Continue && t.phase() == HandshakePhase::Password && sent(c0, c1, password_msg(pw))
                },
                Msg::AuthenticationMD5Password { salt } => r is Continue && t.phase()
                    == HandshakePhase::Password && sent(
                    c0,
                    c1,
                    password_msg(spec_md5_password(s.user(), pw, salt)),
                ),
                Msg::AuthenticationSASL(_) => {
                    ||| {
                        &&& r is Continue
                        &&& t.phase() == HandshakePhase::SaslContinue
                        &&& t.scram() matches Some(sc)
                        &&& sc.nonce().len() == 24
                        &&& sent(
                            c0,
                            c1,
                            sasl_initial_resp_msg(lit_scram_sha256(), Some(client_first(sc.nonce()))),
                        )
                    }
                    ||| fails(
                        t,
                        c0,
                        c1,
                        r,
                        ConnectFailureView::Scram(ScramErrorView::RandomUnavailable),
                        false,
                    )
                },
                Msg::AuthenticationKerberosV5 | Msg::AuthenticationSCMCredential
                | Msg::AuthenticationGSS | Msg::AuthenticationSSPI => fails(
                    t,
                    c0,
                    c1,
                    r,
                    ConnectFailureView::UnsupportedAuthentication,
                    false,
                ),
                _ => fails(t, c0, c1, r, ConnectFailureView::UnexpectedMessage, false),
            },
            HandshakePhase::Password | HandshakePhase::SaslOk => if m is AuthenticationOk {
                moves(t, c0, c1, r, HandshakePhase::Startup)
            } else {
                fails(t, c0, c1, r, ConnectFailureView::AuthenticationOkExpected, false)
            },
            HandshakePhase::SaslContinue => match m {
                Msg::AuthenticationSASLContinue(d) => {
                    let sc = s.scram()->Some_0;
                    if spec_saslprep_lax(pw).len() > i32::MAX {
                        fails(t, c0, c1, r, ConnectFailureView::PasswordTooLong, false)
                    } else {
                        match spec_server_first(sc.nonce(), d) {
                            Ok((nonce, salt, iters)) => {
                                let v = client_final(sc.nonce(), d, pw, nonce, salt, iters);
                                if !frame_fits(v) {
                                    fails(t, c0, c1, r, ConnectFailureView::MessageTooLong, false)
                                } else {
                                    &&& r is Continue
                                    &&& t.phase() == HandshakePhase::SaslFinal
                                    &&& t.scram() matches Some(sc2)
                                    &&& sc2.nonce() == sc.nonce()
                                    &&& sc2.expected_server_signature() == server_signature(
                                        salted_password(pw, salt, iters),
                                        auth_message(sc.nonce(), d, nonce),
                                    )
                                    &&& sent(c0, c1, sasl_resp_msg(v))
                                }
                            },
                            Err(e) => fails(t, c0, c1, r, ConnectFailureView::Scram(e), false),
                        }
                    }
                },
                _ => fails(t, c0, c1, r, ConnectFailureView::SaslContinueExpected, false),
            },
            HandshakePhase::SaslFinal => match m {
                Msg::AuthenticationSASLFinal(d) => match spec_finish(
                    s.scram()->Some_0.expected_server_signature(),
                    d,
                ) {
                    Ok(()) => moves(t, c0, c1, r, HandshakePhase::SaslOk),
                    Err(e) => fails(t, c0, c1, r, ConnectFailureView::Scram(e), false),
                },
                _ => fails(t, c0, c1, r, ConnectFailureView::SaslFinalExpected, false),
            },
            HandshakePhase::Startup => match m {
                Msg::ParameterStatus(_, _) => moves(t, c0, c1, r, HandshakePhase::Startup),
                Msg::BackendKeyData { pid, secret_key } => r is Continue && t.phase()
                    == HandshakePhase::Startup && c1.tx() == c0.tx() && c1.backend_key() == Some(
                    (pid, secret_key),
                ),
                Msg::ReadyForQuery { .. } => r is Ready && t.phase() == HandshakePhase::Ready && quiet(
                    c0,
                    c1,
                ),
                _ => fails(t, c0, c1, r, ConnectFailureView::UnexpectedMessage, true),
            },
            _ => false,
        }
    }
}

impl ConnectError {
    fn with_authorized(inner: ConnectFailure, authorized: bool) -> (r: ConnectError)
        ensures
            r.failure() == inner,
            r.authorized() == authorized,
    {
        ConnectError { inner, is_authorized_: authorized }
    }
}

/// The length of the body of a StartupMessage with `options`, when the
/// whole message fits the protocol's length field and `room` more bytes.
fn startup_len(options: &[(NZStr<'_>, NZStr<'_>)], room: usize) -> (r: bool)
    ensures
        r == (frame_fits(startup_body(option_pairs(options@))) && startup_msg(
            option_pairs(options@),
        ).len() <= room),
{
    let ghost opts = option_pairs(options@);
    let limit: u64 = 0x7fff_fff6;
    let mut total: u64 = 0;
    let mut k: usize = 0;
    assert(opts.take(0) =~= Seq::<(Seq<u8>, Seq<u8>)>::empty());
    while k < options.len()
        invariant
            k <= options@.len(),
            opts == option_pairs(options@),
            total == options_size(opts.take(k as int)),
            limit == 0x7fff_fff6,
            total <= limit,
        decreases options@.len() - k,
    {
        let a = options[k].0.as_bytes().len() as u64;
        let b = options[k].1.as_bytes().len() as u64;
        assert(opts.take(k + 1).drop_last() =~= opts.take(k as int));
        let too_long = if a > limit || b > limit {
            true
        } else {
            total + a + b + 2 > limit
        };
        if too_long {
            proof {
                lemma_options_size_prefix(opts, k + 1);
                lemma_options_bytes_len(opts);
            }
            return false;
        }
        total = total + a + b + 2;
        k = k + 1;
    }
    assert(opts.take(k as int) =~= opts);
    proof {
        lemma_options_bytes_len(opts);
    }
    total + 9 <= room as u64 && total + 9 <= 0x7fff_ffff
}

proof fn lemma_options_size_prefix(opts: Seq<(Seq<u8>, Seq<u8>)>, k: int)
    requires
        0 <= k <= opts.len(),
    ensures
        options_size(opts.take(k)) <= options_size(opts),
    decreases opts.len() - k,
{
    if k < opts.len() {
        lemma_options_size_prefix(opts, k + 1);
        assert(opts.take(k + 1).drop_last() =~= opts.take(k));
    } else {
        assert(opts.take(k) =~= opts);
    }
}

proof fn lemma_md5_password_no_zero(user: Seq<u8>, password: Seq<u8>, salt: Seq<u8>)
    ensures
        has_no_zero(spec_md5_password(user, password, salt)),
{
    let p = spec_md5_password(user, password, salt);
    let inner = md5_digest(hex_lower(md5_digest(password + user)) + salt);
    assert forall|k: int| 0 <= k < p.len() implies #[trigger] p[k] != 0 by {
        if k >= 3 {
            assert(p[k] == hex_lower(inner)[k - 3]);
        }
    }
}

impl Connection {
    fn send_startup(&mut self, options: &[(NZStr<'_>, NZStr<'_>)])
        requires
            frame_fits(startup_body(option_pairs(options@))),
            old(self).tx().len() + startup_msg(option_pairs(options@)).len() <= usize::MAX,
        ensures
            sent(*old(self), *final(self), startup_msg(option_pairs(options@))),
    {
        proof {
            use_type_invariant(&*self);
        }
        let mut tx = self.take_tx();
        write_startup(&mut tx, options);
        self.txbuf = tx;
    }

    fn send_password(&mut self, password: NZStr<'_>)
        requires
            frame_fits(cstr(password@)),
            old(self).tx().len() + password_msg(password@).len() <= usize::MAX,
        ensures
            sent(*old(self), *final(self), password_msg(password@)),
    {
        proof {
            use_type_invariant(&*self);
        }
        let mut tx = self.take_tx();
        write_password(&mut tx, password);
        self.txbuf = tx;
    }

    fn send_sasl_initial_resp(&mut self, mechanism: NZStr<'_>, data: &[u8])
        requires
            frame_fits(sasl_initial_resp_body(mechanism@, Some(data@))),
            old(self).tx().len() + sasl_initial_resp_msg(mechanism@, Some(data@)).len() <= usize::MAX,
        ensures
            sent(*old(self), *final(self), sasl_initial_resp_msg(mechanism@, Some(data@))),
    {
        proof {
            use_type_invariant(&*self);
        }
        let mut tx = self.take_tx();
        write_sasl_initial_resp(&mut tx, mechanism, Some(data));
        self.txbuf = tx;
    }

    fn send_sasl_resp(&mut self, data: &[u8])
        requires
            frame_fits(data@),
            old(self).tx().len() + sasl_resp_msg(data@).len() <= usize::MAX,
        ensures
            sent(*old(self), *final(self), sasl_resp_msg(data@)),
    {
        proof {
            use_type_invariant(&*self);
        }
        let mut tx = self.take_tx();
        write_sasl_resp(&mut tx, data);
        self.txbuf = tx;
    }

    fn set_backend_key(&mut self, pid: i32, secret: &[u8])
        requires
            secret@.len() <= max_message_len(),
        ensures
            final(self).tx() == old(self).tx(),
            final(self).backend_key() == Some((pid, secret@)),
    {
        self.backend_key_data = Some((pid, vstd::slice::slice_to_vec(secret)));
    }
}

impl Handshake {
    #[verifier::type_invariant]
    spec fn inv(self) -> bool {
        (self.phase == HandshakePhase::SaslContinue || self.phase == HandshakePhase::SaslFinal
            || self.phase == HandshakePhase::SaslOk) ==> self.scram is Some
    }

    pub closed spec fn phase(self) -> HandshakePhase {
        self.phase
    }

    /// The error for a failure of the socket while the exchange is in its
    /// current phase: marked authorized exactly in the startup phase, after
    /// the server accepted the credentials.
    pub fn io_failed(&self, text: Vec<u8>) -> (r: ConnectError)
        ensures
            r.failure() == ConnectFailure::Io(text),
            r.authorized() == (self.phase() == HandshakePhase::Startup),
    {
        ConnectError::with_authorized(ConnectFailure::Io(text), self.phase == HandshakePhase::Startup)
    }

    /// Where the exchange stands.
    pub fn current_phase(&self) -> (r: HandshakePhase)
        ensures
            r == self.phase(),
    {
        self.phase
    }

    /// The user name sent for MD5 authentication.
    pub closed spec fn user(self) -> Seq<u8> {
        self.user@
    }

    pub closed spec fn password(self) -> Seq<u8> {
        self.password@
    }

    /// The SCRAM exchange, once started.
    pub closed spec fn scram(self) -> Option<ScramSha256> {
        self.scram
    }

    /// Starts the exchange: queues the StartupMessage with the options of
    /// `connector`. Fails, queueing nothing, when the message does not fit
    /// the protocol's length field.
    pub fn start(connector: &Connector, conn: &mut Connection) -> (r: Result<Handshake, ConnectError>)
        ensures
            match r {
                Ok(h) => {
                    &&& frame_fits(startup_body(connector@.options))
                    &&& h.phase() == HandshakePhase::Auth
                    &&& h.user() == match user_option(connector@.options) {
                        Some(u) => u,
                        None => Seq::empty(),
                    }
                    &&& h.password() == connector@.password
                    &&& sent(*old(conn), *final(conn), startup_msg(connector@.options))
                },
                Err(e) => {
                    &&& !(frame_fits(startup_body(connector@.options)) && old(conn).tx().len()
                        + startup_msg(connector@.options).len() <= usize::MAX)
                    &&& e.failure()@ == ConnectFailureView::MessageTooLong
                    &&& !e.authorized()
                    &&& quiet(*old(conn), *final(conn))
                },
            },
    {
        let options = connector.startup_options();
        let room = usize::MAX - conn.tx_len();
        if !startup_len(options.as_slice(), room) {
            return Err(ConnectError::new(ConnectFailure::MessageTooLong));
        }
        conn.send_startup(options.as_slice());
        let user = match connector.user() {
            Some(u) => vstd::slice::slice_to_vec(u),
            None => Vec::new(),
        };
        let password = vstd::slice::slice_to_vec(connector.password());
        Ok(Handshake { user, password, phase: HandshakePhase::Auth, scram: None })
    }

    /// Handles the first message waiting in `rx`, queueing answers on
    /// `conn`; asks for I/O when no whole message is waiting or more than
    /// [`tx_room`] bytes are queued. A malformed message and an
    /// ErrorResponse fail the exchange; failures after the credentials were
    /// accepted (in the startup phase) are marked authorized.
    pub fn step(&mut self, rx: &mut RxBuf, conn: &mut Connection) -> (r: HandshakeStep)
        requires
            old(self).phase() != HandshakePhase::Ready,
            old(self).phase() != HandshakePhase::Failed,
        ensures
            if old(conn).tx().len() > tx_room() {
                r is Io && *final(self) == *old(self) && final(rx)@ == old(rx)@ && quiet(
                    *old(conn),
                    *final(conn),
                )
            } else {
                match spec_parse_message(old(rx)@) {
                    Ok(None) => r is Io && *final(self) == *old(self) && final(rx)@ == old(rx)@
                        && quiet(*old(conn), *final(conn)),
                    Err(e) => final(rx)@ == old(rx)@ && final(self).user() == old(self).user()
                        && final(self).password() == old(self).password() && fails(
                        *final(self),
                        *old(conn),
                        *final(conn),
                        r,
                        ConnectFailureView::Protocol(e),
                        old(self).phase() == HandshakePhase::Startup,
                    ),
                    Ok(Some((n, m))) => final(rx)@ == old(rx)@.skip(n) && handshake_moves(
                        *old(self),
                        m,
                        *final(self),
                        *old(conn),
                        *final(conn),
                        r,
                    ),
                }
            },
    {
        if conn.tx_len() > 0x1000_0000 {
            return HandshakeStep::Io;
        }
        let authorized = self.phase == HandshakePhase::Startup;
        proof {
            lemma_parsed_bounds(rx@);
        }
        let n: usize;
        let r: HandshakeStep;
        match rx.peek() {
            Ok(None) => {
                return HandshakeStep::Io;
            },
            Err(e) => {
                self.phase = HandshakePhase::Failed;
                return HandshakeStep::Failed(
                    ConnectError::with_authorized(ConnectFailure::Protocol(e), authorized),
                );
            },
            Ok(Some((len, msg))) => {
                n = len;
                r = self.on_message(msg, conn);
            },
        }
        rx.consume(n);
        r
    }

    fn fail(&mut self, f: ConnectFailure, authorized: bool) -> (r: HandshakeStep)
        ensures
            r matches HandshakeStep::Failed(e) && e.failure() == f && e.authorized() == authorized,
            final(self).phase() == HandshakePhase::Failed,
            final(self).user() == old(self).user(),
            final(self).password() == old(self).password(),
    {
        self.phase = HandshakePhase::Failed;
        HandshakeStep::Failed(ConnectError::with_authorized(f, authorized))
    }

    #[verifier::rlimit(40)]
    fn on_message(&mut self, msg: BackendMessage<'_>, conn: &mut Connection) -> (r: HandshakeStep)
        requires
            old(self).phase() != HandshakePhase::Ready,
            old(self).phase() != HandshakePhase::Failed,
            old(conn).tx().len() <= tx_room(),
            payload_within(msg@, max_message_len()),
        ensures
            handshake_moves(*old(self), msg@, *final(self), *old(conn), *final(conn), r),
    {
        proof {
            use_type_invariant(&*self);
        }
        if let BackendMessage::ErrorResponse(d) = msg {
            let authorized = self.phase == HandshakePhase::Startup;
            return self.fail(ConnectFailure::Db(d), authorized);
        }
        match self.phase {
            HandshakePhase::Auth => match msg {
                BackendMessage::AuthenticationOk => {
                    self.phase = HandshakePhase::Startup;
                    HandshakeStep::Continue
                },
                BackendMessage::AuthenticationCleartextPassword => {
                    match NZStr::from_bytes(self.password.as_slice()) {
                        None => self.fail(ConnectFailure::InvalidPassword, false),
                        Some(pw) => {
                            if self.password.len() > 0x7fff_fffa {
                                return self.fail(ConnectFailure::MessageTooLong, false);
                            }
                            conn.send_password(pw);
                            self.phase = HandshakePhase::Password;
                            HandshakeStep::Continue
                        },
                    }
                },
                BackendMessage::AuthenticationMD5Password { salt } => {
                    let pwd = md5_password(self.user.as_slice(), self.password.as_slice(), salt.as_slice());
                    proof {
                        lemma_md5_password_no_zero(self.user@, self.password@, salt@);
                    }
                    conn.send_password(NZStr::from_nonzero(pwd.as_slice()));
                    self.phase = HandshakePhase::Password;
                    HandshakeStep::Continue
                },
                BackendMessage::AuthenticationSASL(_) => {
                    match ScramSha256::new(self.user.as_slice()) {
                        Err(e) => self.fail(ConnectFailure::Scram(e), false),
                        Ok(sc) => {
                            let data = sc.client_first_message();
                            let mech = lit_scram_sha256_bytes();
                            proof {
                                assert forall|k: int| 0 <= k < mech@.len() implies #[trigger] mech@[k]
                                    != 0 by {}
                            }
                            conn.send_sasl_initial_resp(NZStr::from_nonzero(mech), data.as_slice());
                            self.scram = Some(sc);
                            self.phase = HandshakePhase::SaslContinue;
                            HandshakeStep::Continue
                        },
                    }
                },
                BackendMessage::AuthenticationKerberosV5 | BackendMessage::AuthenticationSCMCredential
                | BackendMessage::AuthenticationGSS | BackendMessage::AuthenticationSSPI => self.fail(
                    ConnectFailure::UnsupportedAuthentication,
                    false,
                ),
                _ => self.fail(ConnectFailure::UnexpectedMessage, false),
            },
            HandshakePhase::Password | HandshakePhase::SaslOk => match msg {
                BackendMessage::AuthenticationOk => {
                    self.phase = HandshakePhase::Startup;
                    HandshakeStep::Continue
                },
                _ => self.fail(ConnectFailure::AuthenticationOkExpected, false),
            },
            HandshakePhase::SaslContinue => match msg {
                BackendMessage::AuthenticationSASLContinue(d) => {
                    self.phase = HandshakePhase::Failed;
                    let mut slot: Option<ScramSha256> = None;
                    std::mem::swap(&mut slot, &mut self.scram);
                    let mut sc = slot.unwrap();
                    match sc.update_checked(d, self.password.as_slice()) {
                        None => self.fail(ConnectFailure::PasswordTooLong, false),
                        Some(Err(e)) => self.fail(ConnectFailure::Scram(e), false),
                        Some(Ok(v)) => {
                            if v.len() > 0x7fff_fffb {
                                return self.fail(ConnectFailure::MessageTooLong, false);
                            }
                            conn.send_sasl_resp(v.as_slice());
                            self.scram = Some(sc);
                            self.phase = HandshakePhase::SaslFinal;
                            HandshakeStep::Continue
                        },
                    }
                },
                _ => self.fail(ConnectFailure::SaslContinueExpected, false),
            },
            HandshakePhase::SaslFinal => match msg {
                BackendMessage::AuthenticationSASLFinal(d) => {
                    let res = match &self.scram {
                        Some(sc) => sc.finish(d),
                        None => Ok(()),
                    };
                    match res {
                        Ok(()) => {
                            self.phase = HandshakePhase::SaslOk;
                            HandshakeStep::Continue
                        },
                        Err(e) => self.fail(ConnectFailure::Scram(e), false),
                    }
                },
                _ => self.fail(ConnectFailure::SaslFinalExpected, false),
            },
            HandshakePhase::Startup => match msg {
                BackendMessage::ParameterStatus(_, _) => HandshakeStep::Continue,
                BackendMessage::BackendKeyData { pid, secret_key } => {
                    conn.set_backend_key(pid, secret_key);
                    HandshakeStep::Continue
                },
                BackendMessage::ReadyForQuery { .. } => {
                    self.phase = HandshakePhase::Ready;
                    HandshakeStep::Ready
                },
                _ => self.fail(ConnectFailure::UnexpectedMessage, true),
            },
            _ => HandshakeStep::Continue,
        }
    }
}

// ---------------------------------------------------------------------------
// A whole exchange
// ---------------------------------------------------------------------------

/// One event handled by [`Handshake::step`], as its contract states it: a
/// message parsed from what was received, or a malformed one.
pub open spec fn handshake_event(
    s: Handshake,
    ev: Result<Msg, Error>,
    t: Handshake,
    c0: Connection,
    c1: Connection,
    r: HandshakeStep,
) -> bool {
    match ev {
        Ok(m) => handshake_moves(s, m, t, c0, c1, r),
        Err(e) => t.user() == s.user() && t.password() == s.password() && fails(
            t,
            c0,
            c1,
            r,
            ConnectFailureView::Protocol(e),
            s.phase() == HandshakePhase::Startup,
        ),
    }
}

/// The `i`-th event of a run of steps: the step was allowed (the exchange
/// was neither ready nor failed) and handled the event.
pub open spec fn handshake_step_at(
    hs: Seq<Handshake>,
    evs: Seq<Result<Msg, Error>>,
    cs: Seq<Connection>,
    rs: Seq<HandshakeStep>,
    i: int,
) -> bool {
    &&& hs[i].phase() != HandshakePhase::Ready
    &&& hs[i].phase() != HandshakePhase::Failed
    &&& handshake_event(hs[i], evs[i], hs[i + 1], cs[i], cs[i + 1], rs[i])
}

/// A run of steps that each handled an event: `hs[i]` and `cs[i]` are the
/// exchange and the connection before the `i`-th event, `rs[i]` what the
/// step returned. Steps that only asked for I/O change nothing and are left
/// out.
pub open spec fn handshake_trace(
    hs: Seq<Handshake>,
    evs: Seq<Result<Msg, Error>>,
    cs: Seq<Connection>,
    rs: Seq<HandshakeStep>,
) -> bool {
    &&& hs.len() == evs.len() + 1
    &&& cs.len() == evs.len() + 1
    &&& rs.len() == evs.len()
    &&& forall|i: int| 0 <= i < evs.len() ==> #[trigger] handshake_step_at(hs, evs, cs, rs, i)
}

pub open spec fn is_auth_ok(ev: Result<Msg, Error>) -> bool {
    ev matches Ok(Msg::AuthenticationOk)
}

/// Whether AuthenticationOk is among the first `i` events.
pub open spec fn auth_ok_before(evs: Seq<Result<Msg, Error>>, i: int) -> bool {
    exists|j: int| 0 <= j < i && #[trigger] is_auth_ok(evs[j])
}

/// What one step does to the authorization: a failure is marked authorized
/// exactly when it comes in the startup phase, and a step that does not
/// fail reaches the startup or ready phase exactly when it was in the
/// startup phase or handled AuthenticationOk.
proof fn lemma_event_authorized(
    s: Handshake,
    ev: Result<Msg, Error>,
    t: Handshake,
    c0: Connection,
    c1: Connection,
    r: HandshakeStep,
)
    requires
        handshake_event(s, ev, t, c0, c1, r),
        s.phase() != HandshakePhase::Ready,
        s.phase() != HandshakePhase::Failed,
    ensures
        r matches HandshakeStep::Failed(e) ==> e.authorized() == (s.phase() == HandshakePhase::Startup),
        !(r is Failed) ==> ((t.phase() == HandshakePhase::Startup || t.phase() == HandshakePhase::Ready)
            == (s.phase() == HandshakePhase::Startup || is_auth_ok(ev))),
{
}

proof fn lemma_trace_startup(
    hs: Seq<Handshake>,
    evs: Seq<Result<Msg, Error>>,
    cs: Seq<Connection>,
    rs: Seq<HandshakeStep>,
    k: int,
    i: int,
)
    requires
        handshake_trace(hs, evs, cs, rs),
        hs[0].phase() == HandshakePhase::Auth,
        0 <= k <= i <= evs.len(),
        hs[i].phase() != HandshakePhase::Ready,
        forall|j: int| 0 <= j < i ==> !(#[trigger] rs[j] is Failed),
    ensures
        (hs[k].phase() == HandshakePhase::Startup) == auth_ok_before(evs, k),
    decreases k,
{
    if k == 0 {
        assert(!auth_ok_before(evs, 0));
    } else {
        lemma_trace_startup(hs, evs, cs, rs, k - 1, i);
        assert(handshake_step_at(hs, evs, cs, rs, k - 1));
        if k < evs.len() {
            assert(handshake_step_at(hs, evs, cs, rs, k));
        }
        assert(hs[k].phase() != HandshakePhase::Ready);
        assert(!(rs[k - 1] is Failed));
        lemma_event_authorized(hs[k - 1], evs[k - 1], hs[k], cs[k - 1], cs[k], rs[k - 1]);
        if is_auth_ok(evs[k - 1]) {
            assert(auth_ok_before(evs, k));
        }
        if auth_ok_before(evs, k) {
            let j = choose|j: int| 0 <= j < k && #[trigger] is_auth_ok(evs[j]);
            if j < k - 1 {
                assert(auth_ok_before(evs, k - 1));
            }
        }
        if auth_ok_before(evs, k - 1) {
            let j = choose|j: int| 0 <= j < k - 1 && #[trigger] is_auth_ok(evs[j]);
            assert(auth_ok_before(evs, k));
        }
    }
}

/// Over a whole exchange started by [`Handshake::start`]: the first failure
/// is marked authorized exactly when AuthenticationOk was received before
/// it. Failures before the credentials were accepted (and failures to
/// start) are not authorized; the socket's own failures are the caller's.
pub proof fn lemma_connect_authorized(
    hs: Seq<Handshake>,
    evs: Seq<Result<Msg, Error>>,
    cs: Seq<Connection>,
    rs: Seq<HandshakeStep>,
    i: int,
)
    requires
        handshake_trace(hs, evs, cs, rs),
        hs[0].phase() == HandshakePhase::Auth,
        0 <= i < evs.len(),
        forall|j: int| 0 <= j < i ==> !(#[trigger] rs[j] is Failed),
        rs[i] is Failed,
    ensures
        rs[i]->Failed_0.authorized() == auth_ok_before(evs, i),
{
    assert(handshake_step_at(hs, evs, cs, rs, i));
    lemma_trace_startup(hs, evs, cs, rs, i, i);
    lemma_event_authorized(hs[i], evs[i], hs[i + 1], cs[i], cs[i + 1], rs[i]);
}

/// Over a whole exchange started by [`Handshake::start`]: when the socket
/// fails after the events handled so far (none of which failed the
/// exchange), the error that [`Handshake::io_failed`] makes is marked
/// authorized exactly when AuthenticationOk was received.
pub proof fn lemma_connect_io_authorized(
    hs: Seq<Handshake>,
    evs: Seq<Result<Msg, Error>>,
    cs: Seq<Connection>,
    rs: Seq<HandshakeStep>,
    e: ConnectError,
)
    requires
        handshake_trace(hs, evs, cs, rs),
        hs[0].phase() == HandshakePhase::Auth,
        hs.last().phase() != HandshakePhase::Ready,
        forall|j: int| 0 <= j < evs.len() ==> !(#[trigger] rs[j] is Failed),
        e.authorized() == (hs.last().phase() == HandshakePhase::Startup),
    ensures
        e.authorized() == auth_ok_before(evs, evs.len() as int),
{
    lemma_trace_startup(hs, evs, cs, rs, evs.len() as int, evs.len() as int);
}

} // verus!
