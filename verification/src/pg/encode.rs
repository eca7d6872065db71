//! Frontend messages of the Postgres wire protocol.
//!
//! Every writer appends one complete message to a transmit buffer. A message
//! is an optional one-byte type code followed by a frame: a big-endian `i32`
//! length that counts itself, then the body. The spec functions below give
//! the exact bytes of each message; each writer is proved to append them.
use vstd::prelude::*;

verus! {

// ---------------------------------------------------------------------------
// Big-endian integers
// ---------------------------------------------------------------------------

pub open spec fn be_u32(v: u32) -> Seq<u8> {
    seq![(v >> 24) as u8, ((v >> 16) & 0xff) as u8, ((v >> 8) & 0xff) as u8, (v & 0xff) as u8]
}

pub open spec fn be_i32(v: i32) -> Seq<u8> {
    be_u32(v as u32)
}

pub open spec fn be_u16(v: u16) -> Seq<u8> {
    seq![(v >> 8) as u8, (v & 0xff) as u8]
}

pub open spec fn be_i16(v: i16) -> Seq<u8> {
    be_u16(v as u16)
}

/// A string as the protocol sends it: its bytes and a terminating zero.
pub open spec fn cstr(s: Seq<u8>) -> Seq<u8> {
    s.push(0)
}

/// A length-prefixed frame around `body`; the length counts its own 4 bytes.
pub open spec fn frame(body: Seq<u8>) -> Seq<u8> {
    be_i32((body.len() + 4) as i32) + body
}

/// Whether a frame around `body` has a length that the protocol (a signed
/// 32-bit field) can carry.
pub open spec fn frame_fits(body: Seq<u8>) -> bool {
    body.len() + 4 <= i32::MAX
}

/// `b` with the bytes from `pos` on overwritten by `val`, as far as `b`
/// reaches; the length of `b` is kept.
pub open spec fn patched(b: Seq<u8>, pos: int, val: Seq<u8>) -> Seq<u8> {
    Seq::new(b.len(), |k: int| if pos <= k < pos + val.len() { val[k - pos] } else { b[k] })
}

pub proof fn lemma_frame_patch(prefix: Seq<u8>, body: Seq<u8>)
    requires
        frame_fits(body),
    ensures
        patched(
            prefix + seq![0u8, 0, 0, 0] + body,
            prefix.len() as int,
            be_i32((body.len() + 4) as i32),
        ) == prefix + frame(body),
{
    let v = be_i32((body.len() + 4) as i32);
    assert(v.len() == 4);
    assert(patched(prefix + seq![0u8, 0, 0, 0] + body, prefix.len() as int, v) =~= prefix + (v
        + body));
}

// ---------------------------------------------------------------------------
// Strings without zero bytes
// ---------------------------------------------------------------------------

pub open spec fn has_no_zero(s: Seq<u8>) -> bool {
    forall|k: int| 0 <= k < s.len() ==> #[trigger] s[k] != 0
}

/// A byte string that holds no zero byte, so that it can be sent as a
/// zero-terminated protocol string.
#[derive(Clone, Copy)]
pub struct NZStr<'a> {
    bytes: &'a [u8],
}

impl<'a> View for NZStr<'a> {
    type V = Seq<u8>;

    closed spec fn view(&self) -> Seq<u8> {
        self.bytes@
    }
}

impl<'a> NZStr<'a> {
    #[verifier::type_invariant]
    spec fn inv(self) -> bool {
        has_no_zero(self.bytes@)
    }

    /// Wraps `bytes` when it holds no zero byte.
    pub fn from_bytes(bytes: &'a [u8]) -> (r: Option<NZStr<'a>>)
        ensures
            r is Some <==> has_no_zero(bytes@),
            r matches Some(z) ==> z@ == bytes@,
    {
        let mut k: usize = 0;
        while k < bytes.len()
            invariant
                k <= bytes.len(),
                forall|m: int| 0 <= m < k ==> #[trigger] bytes@[m] != 0,
            decreases bytes.len() - k,
        {
            if bytes[k] == 0 {
                return None;
            }
            k = k + 1;
        }
        Some(NZStr { bytes })
    }

    /// Wraps `bytes`, known to hold no zero byte.
    pub fn from_nonzero(bytes: &'a [u8]) -> (r: NZStr<'a>)
        requires
            has_no_zero(bytes@),
        ensures
            r@ == bytes@,
    {
        NZStr { bytes }
    }

    /// Wraps `bytes`, or fails with [`ContainsZeroError`] when it holds a zero byte.
    pub fn try_from(bytes: &'a [u8]) -> (r: Result<NZStr<'a>, ContainsZeroError>)
        ensures
            r is Ok <==> has_no_zero(bytes@),
            r matches Ok(z) ==> z@ == bytes@,
    {
        match NZStr::from_bytes(bytes) {
            Some(z) => Ok(z),
            None => Err(ContainsZeroError),
        }
    }

    /// The bytes of the string, without a terminator.
    pub fn as_bytes(&self) -> (r: &'a [u8])
        ensures
            r@ == self@,
            has_no_zero(r@),
    {
        proof {
            use_type_invariant(self);
        }
        self.bytes
    }
}

/// The error of [`NZStr::try_from`]: the string contains a zero byte.
#[derive(Debug, Clone, Copy, PartialEq, Eq)]
pub struct ContainsZeroError;

// ---------------------------------------------------------------------------
// Transmit buffers
// ---------------------------------------------------------------------------

/// A buffer that outgoing messages are appended to.
pub trait TxBuf {
    /// The bytes held by the buffer.
    spec fn tx_bytes(&self) -> Seq<u8>;

    /// Appends `val` and returns the position where it starts.
    fn put(&mut self, val: &[u8]) -> (pos: usize)
        requires
            old(self).tx_bytes().len() + val@.len() <= usize::MAX,
        ensures
            final(self).tx_bytes() == old(self).tx_bytes() + val@,
            pos == old(self).tx_bytes().len(),
    ;

    /// Overwrites the bytes from `pos` on with `val`, as far as the buffer
    /// reaches.
    fn patch(&mut self, pos: usize, val: &[u8])
        ensures
            final(self).tx_bytes() == patched(old(self).tx_bytes(), pos as int, val@),
    ;

    fn put_i32(&mut self, val: i32)
        requires
            old(self).tx_bytes().len() + 4 <= usize::MAX,
        ensures
            final(self).tx_bytes() == old(self).tx_bytes() + be_i32(val),
    {
        self.put_u32(val as u32);
    }

    fn put_u32(&mut self, val: u32)
        requires
            old(self).tx_bytes().len() + 4 <= usize::MAX,
        ensures
            final(self).tx_bytes() == old(self).tx_bytes() + be_u32(val),
    {
        let b: [u8; 4] = [
            (val >> 24) as u8,
            ((val >> 16) & 0xff) as u8,
            ((val >> 8) & 0xff) as u8,
            (val & 0xff) as u8,
        ];
        assert(b@ =~= be_u32(val));
        self.put(b.as_slice());
    }

    fn put_i16(&mut self, val: i16)
        requires
            old(self).tx_bytes().len() + 2 <= usize::MAX,
        ensures
            final(self).tx_bytes() == old(self).tx_bytes() + be_i16(val),
    {
        let v = val as u16;
        let b: [u8; 2] = [(v >> 8) as u8, (v & 0xff) as u8];
        assert(b@ =~= be_i16(val));
        self.put(b.as_slice());
    }

    fn put_u8(&mut self, val: u8)
        requires
            old(self).tx_bytes().len() + 1 <= usize::MAX,
        ensures
            final(self).tx_bytes() == old(self).tx_bytes().push(val),
    {
        let b: [u8; 1] = [val];
        assert(b@ =~= seq![val]);
        self.put(b.as_slice());
        assert(old(self).tx_bytes() + seq![val] =~= old(self).tx_bytes().push(val));
    }

    /// Appends `val` as a zero-terminated string.
    fn put_str(&mut self, val: NZStr<'_>)
        requires
            old(self).tx_bytes().len() + val@.len() + 1 <= usize::MAX,
        ensures
            final(self).tx_bytes() == old(self).tx_bytes() + cstr(val@),
    {
        self.put(val.as_bytes());
        self.put_u8(0);
        assert(old(self).tx_bytes() + val@ + seq![0u8] =~= old(self).tx_bytes() + cstr(val@));
    }

    /// Opens a frame: appends a placeholder for its length and returns the
    /// position of the placeholder, to be handed to [`TxBuf::put_frame_end`]
    /// once the body has been appended.
    fn put_frame_start(&mut self) -> (base: usize)
        requires
            old(self).tx_bytes().len() + 4 <= usize::MAX,
        ensures
            final(self).tx_bytes() == old(self).tx_bytes() + seq![0u8, 0, 0, 0],
            base == old(self).tx_bytes().len(),
    {
        let z: [u8; 4] = [0, 0, 0, 0];
        assert(z@ =~= seq![0u8, 0, 0, 0]);
        self.put(z.as_slice())
    }

    /// Closes the frame opened at `base`: writes the length of everything
    /// appended from `base` on into its placeholder. Postgres reads the
    /// length as a signed 32-bit integer, so it must fit one.
    fn put_frame_end(&mut self, base: usize)
        requires
            base + 4 <= old(self).tx_bytes().len() <= usize::MAX,
            old(self).tx_bytes().len() - base <= i32::MAX,
        ensures
            final(self).tx_bytes() == patched(
                old(self).tx_bytes(),
                base as int,
                be_i32((old(self).tx_bytes().len() - base) as i32),
            ),
    {
        let nothing: [u8; 0] = [];
        assert(nothing@ =~= Seq::<u8>::empty());
        let end = self.put(nothing.as_slice());
        assert(old(self).tx_bytes() + Seq::<u8>::empty() =~= old(self).tx_bytes());
        let len = (end - base) as i32;
        let v = len as u32;
        let b: [u8; 4] = [
            (v >> 24) as u8,
            ((v >> 16) & 0xff) as u8,
            ((v >> 8) & 0xff) as u8,
            (v & 0xff) as u8,
        ];
        assert(b@ =~= be_i32(len));
        self.patch(base, b.as_slice());
    }
}

/// The frame law: opening a frame on the bytes `before` (a 4-byte
/// placeholder appended at position `before.len()`), appending `body`, then
/// closing it at that position gives `before`, then the length of the frame
/// (counting its own 4 bytes and nothing written before it), then `body`.
pub proof fn lemma_put_frame(before: Seq<u8>, body: Seq<u8>)
    requires
        frame_fits(body),
    ensures
        ({
            let filled = before + seq![0u8, 0, 0, 0] + body;
            patched(filled, before.len() as int, be_i32((filled.len() - before.len()) as i32))
                == before + frame(body)
        }),
{
    let filled = before + seq![0u8, 0, 0, 0] + body;
    assert(filled.len() - before.len() == body.len() + 4);
    lemma_frame_patch(before, body);
}

impl TxBuf for std::collections::VecDeque<u8> {
    open spec fn tx_bytes(&self) -> Seq<u8> {
        self@
    }

    fn put(&mut self, val: &[u8]) -> (pos: usize) {
        let pos = self.len();
        let mut k: usize = 0;
        while k < val.len()
            invariant
                k <= val.len(),
                self@ == old(self)@ + val@.take(k as int),
                pos == old(self)@.len(),
            decreases val.len() - k,
        {
            self.push_back(val[k]);
            k = k + 1;
            assert(old(self)@ + val@.take(k as int) =~= (old(self)@ + val@.take(k - 1)).push(
                val@[k - 1],
            ));
        }
        assert(val@.take(val@.len() as int) =~= val@);
        pos
    }

    fn patch(&mut self, pos: usize, val: &[u8]) {
        let ghost b = self@;
        let mut k: usize = 0;
        while k < val.len() && pos <= self.len() && k < self.len() - pos
            invariant
                k <= val.len(),
                self@.len() == b.len(),
                self@ == patched(b, pos as int, val@.take(k as int)),
            decreases val.len() - k,
        {
            let i = pos + k;
            let _ = self.remove(i);
            self.insert(i, val[k]);
            k = k + 1;
            assert(self@ =~= patched(b, pos as int, val@.take(k as int)));
        }
        assert(self@ =~= patched(b, pos as int, val@));
    }
}

// ---------------------------------------------------------------------------
// Message bodies
// ---------------------------------------------------------------------------

/// The views of a list of option pairs.
pub open spec fn option_pairs(options: Seq<(NZStr<'_>, NZStr<'_>)>) -> Seq<(Seq<u8>, Seq<u8>)> {
    options.map_values(|p: (NZStr<'_>, NZStr<'_>)| (p.0@, p.1@))
}

/// `key\0value\0` for each option, in order.
pub open spec fn options_bytes(opts: Seq<(Seq<u8>, Seq<u8>)>) -> Seq<u8>
    decreases opts.len(),
{
    if opts.len() == 0 {
        Seq::empty()
    } else {
        options_bytes(opts.drop_last()) + cstr(opts.last().0) + cstr(opts.last().1)
    }
}

/// Each object id as a big-endian `u32`, in order.
pub open spec fn oids_bytes(oids: Seq<u32>) -> Seq<u8>
    decreases oids.len(),
{
    if oids.len() == 0 {
        Seq::empty()
    } else {
        oids_bytes(oids.drop_last()) + be_u32(oids.last())
    }
}

/// Each format code as a big-endian `i16`, in order.
pub open spec fn formats_bytes(fmts: Seq<i16>) -> Seq<u8>
    decreases fmts.len(),
{
    if fmts.len() == 0 {
        Seq::empty()
    } else {
        formats_bytes(fmts.drop_last()) + be_i16(fmts.last())
    }
}

/// A parameter value: its length and bytes, or length -1 for NULL.
pub open spec fn value_bytes(v: Option<Seq<u8>>) -> Seq<u8> {
    match v {
        Some(d) => be_i32(d.len() as i32) + d,
        None => be_i32(-1i32),
    }
}

pub open spec fn values_bytes(vals: Seq<Option<Seq<u8>>>) -> Seq<u8>
    decreases vals.len(),
{
    if vals.len() == 0 {
        Seq::empty()
    } else {
        values_bytes(vals.drop_last()) + value_bytes(vals.last())
    }
}

/// The views of a list of optional parameter values.
pub open spec fn param_values(vals: Seq<Option<&[u8]>>) -> Seq<Option<Seq<u8>>> {
    vals.map_values(
        |o: Option<&[u8]>|
            match o {
                Some(d) => Some(d@),
                None => None,
            },
    )
}

pub proof fn lemma_options_bytes_prefix(opts: Seq<(Seq<u8>, Seq<u8>)>, k: int)
    requires
        0 <= k <= opts.len(),
    ensures
        options_bytes(opts.take(k)).len() <= options_bytes(opts).len(),
    decreases opts.len() - k,
{
    if k < opts.len() {
        lemma_options_bytes_prefix(opts, k + 1);
        assert(opts.take(k + 1).drop_last() =~= opts.take(k));
    } else {
        assert(opts.take(k) =~= opts);
    }
}

pub proof fn lemma_oids_bytes_prefix(oids: Seq<u32>, k: int)
    requires
        0 <= k <= oids.len(),
    ensures
        oids_bytes(oids.take(k)).len() <= oids_bytes(oids).len(),
    decreases oids.len() - k,
{
    if k < oids.len() {
        lemma_oids_bytes_prefix(oids, k + 1);
        assert(oids.take(k + 1).drop_last() =~= oids.take(k));
    } else {
        assert(oids.take(k) =~= oids);
    }
}

pub proof fn lemma_formats_bytes_prefix(fmts: Seq<i16>, k: int)
    requires
        0 <= k <= fmts.len(),
    ensures
        formats_bytes(fmts.take(k)).len() <= formats_bytes(fmts).len(),
    decreases fmts.len() - k,
{
    if k < fmts.len() {
        lemma_formats_bytes_prefix(fmts, k + 1);
        assert(fmts.take(k + 1).drop_last() =~= fmts.take(k));
    } else {
        assert(fmts.take(k) =~= fmts);
    }
}

pub proof fn lemma_values_bytes_prefix(vals: Seq<Option<Seq<u8>>>, k: int)
    requires
        0 <= k <= vals.len(),
    ensures
        values_bytes(vals.take(k)).len() <= values_bytes(vals).len(),
        k < vals.len() ==> values_bytes(vals.take(k)).len() + value_bytes(vals[k]).len()
            <= values_bytes(vals).len(),
    decreases vals.len() - k,
{
    if k < vals.len() {
        lemma_values_bytes_prefix(vals, k + 1);
        assert(vals.take(k + 1).drop_last() =~= vals.take(k));
    } else {
        assert(vals.take(k) =~= vals);
    }
}

pub proof fn lemma_oids_bytes_len(oids: Seq<u32>)
    ensures
        oids_bytes(oids).len() == 4 * oids.len(),
    decreases oids.len(),
{
    if oids.len() > 0 {
        lemma_oids_bytes_len(oids.drop_last());
    }
}

pub proof fn lemma_formats_bytes_len(fmts: Seq<i16>)
    ensures
        formats_bytes(fmts).len() == 2 * fmts.len(),
    decreases fmts.len(),
{
    if fmts.len() > 0 {
        lemma_formats_bytes_len(fmts.drop_last());
    }
}

/// The number of bytes that `options_bytes` takes for `opts`.
pub open spec fn options_size(opts: Seq<(Seq<u8>, Seq<u8>)>) -> nat
    decreases opts.len(),
{
    if opts.len() == 0 {
        0
    } else {
        options_size(opts.drop_last()) + opts.last().0.len() + opts.last().1.len() + 2
    }
}

pub proof fn lemma_options_bytes_len(opts: Seq<(Seq<u8>, Seq<u8>)>)
    ensures
        options_bytes(opts).len() == options_size(opts),
    decreases opts.len(),
{
    if opts.len() > 0 {
        lemma_options_bytes_len(opts.drop_last());
    }
}

/// The number of bytes that `values_bytes` takes for `vals`.
pub open spec fn values_size(vals: Seq<Option<Seq<u8>>>) -> nat
    decreases vals.len(),
{
    if vals.len() == 0 {
        0
    } else {
        values_size(vals.drop_last()) + 4 + match vals.last() {
            Some(d) => d.len(),
            None => 0,
        }
    }
}

pub proof fn lemma_values_bytes_len(vals: Seq<Option<Seq<u8>>>)
    ensures
        values_bytes(vals).len() == values_size(vals),
    decreases vals.len(),
{
    if vals.len() > 0 {
        lemma_values_bytes_len(vals.drop_last());
    }
}

/// Body of StartupMessage: protocol version 3.0, the options, a final zero.
pub open spec fn startup_body(opts: Seq<(Seq<u8>, Seq<u8>)>) -> Seq<u8> {
    be_i16(3) + be_i16(0) + options_bytes(opts) + seq![0u8]
}

pub open spec fn startup_msg(opts: Seq<(Seq<u8>, Seq<u8>)>) -> Seq<u8> {
    frame(startup_body(opts))
}

pub open spec fn password_msg(password: Seq<u8>) -> Seq<u8> {
    seq![0x70u8] + frame(cstr(password))
}

pub open spec fn sasl_initial_resp_body(mechanism: Seq<u8>, data: Option<Seq<u8>>) -> Seq<u8> {
    cstr(mechanism) + value_bytes(data)
}

pub open spec fn sasl_initial_resp_msg(mechanism: Seq<u8>, data: Option<Seq<u8>>) -> Seq<u8> {
    seq![0x70u8] + frame(sasl_initial_resp_body(mechanism, data))
}

pub open spec fn sasl_resp_msg(data: Seq<u8>) -> Seq<u8> {
    seq![0x70u8] + frame(data)
}

/// Body of Parse. The count of parameter types is sent as an `i16`.
pub open spec fn parse_body(stmt_name: Seq<u8>, param_types: Seq<u32>, stmt: Seq<u8>) -> Seq<u8> {
    cstr(stmt_name) + cstr(stmt) + be_i16(param_types.len() as i16) + oids_bytes(param_types)
}

pub open spec fn parse_msg(stmt_name: Seq<u8>, param_types: Seq<u32>, stmt: Seq<u8>) -> Seq<u8> {
    seq![0x50u8] + frame(parse_body(stmt_name, param_types, stmt))
}

pub open spec fn describe_stmt_msg(stmt_name: Seq<u8>) -> Seq<u8> {
    seq![0x44u8] + frame(seq![0x53u8] + cstr(stmt_name))
}

/// Body of Bind: portal, statement, parameter formats, parameter values and
/// result formats, each list preceded by its count as an `i16`.
pub open spec fn bind_body(
    stmt_name: Seq<u8>,
    portal_name: Seq<u8>,
    out_formats: Seq<i16>,
    param_formats: Seq<i16>,
    param_values: Seq<Option<Seq<u8>>>,
) -> Seq<u8> {
    cstr(portal_name) + cstr(stmt_name) + be_i16(param_formats.len() as i16) + formats_bytes(
        param_formats,
    ) + be_i16(param_values.len() as i16) + values_bytes(param_values) + be_i16(
        out_formats.len() as i16,
    ) + formats_bytes(out_formats)
}

pub open spec fn bind_msg(
    stmt_name: Seq<u8>,
    portal_name: Seq<u8>,
    out_formats: Seq<i16>,
    param_formats: Seq<i16>,
    param_values: Seq<Option<Seq<u8>>>,
) -> Seq<u8> {
    seq![0x42u8] + frame(
        bind_body(stmt_name, portal_name, out_formats, param_formats, param_values),
    )
}

pub open spec fn execute_msg(portal_name: Seq<u8>, max_rows: i32) -> Seq<u8> {
    seq![0x45u8] + frame(cstr(portal_name) + be_i32(max_rows))
}

pub open spec fn close_portal_msg(portal_name: Seq<u8>) -> Seq<u8> {
    seq![0x43u8] + frame(seq![0x50u8] + cstr(portal_name))
}

pub open spec fn copy_fail_msg(reason: Seq<u8>) -> Seq<u8> {
    seq![0x66u8] + frame(cstr(reason))
}

/// A message that is only a type code and an empty body.
pub open spec fn bare_msg(code: u8) -> Seq<u8> {
    seq![code] + frame(Seq::empty())
}

/// Body of CancelRequest: the request code 1234/5678, the backend's process
/// id and its secret key.
pub open spec fn cancel_req_body(pid: i32, secret: Seq<u8>) -> Seq<u8> {
    be_i16(1234) + be_i16(5678) + be_i32(pid) + secret
}

pub open spec fn cancel_req_msg(pid: i32, secret: Seq<u8>) -> Seq<u8> {
    frame(cancel_req_body(pid, secret))
}

// ---------------------------------------------------------------------------
// Writers
// ---------------------------------------------------------------------------

/// StartupMessage.
/// https://www.postgresql.org/docs/18/protocol-message-formats.html#PROTOCOL-MESSAGE-FORMATS-STARTUPMESSAGE
pub fn write_startup<T: TxBuf>(out: &mut T, options: &[(NZStr<'_>, NZStr<'_>)])
    requires
        frame_fits(startup_body(option_pairs(options@))),
        old(out).tx_bytes().len() + startup_msg(option_pairs(options@)).len() <= usize::MAX,
    ensures
        final(out).tx_bytes() == old(out).tx_bytes() + startup_msg(option_pairs(options@)),
{
    let ghost prefix = old(out).tx_bytes();
    let ghost opts = option_pairs(options@);
    proof {
        lemma_options_bytes_prefix(opts, 0);
    }
    let base = out.put_frame_start();
    out.put_i16(3);
    out.put_i16(0);
    assert(opts.take(0) =~= Seq::<(Seq<u8>, Seq<u8>)>::empty());
    let mut k: usize = 0;
    while k < options.len()
        invariant
            k <= options.len(),
            opts == option_pairs(options@),
            opts.len() == options@.len(),
            base == prefix.len(),
            frame_fits(startup_body(opts)),
            prefix.len() + startup_msg(opts).len() <= usize::MAX,
            out.tx_bytes() == prefix + seq![0u8, 0, 0, 0] + be_i16(3) + be_i16(0) + options_bytes(
                opts.take(k as int),
            ),
        decreases options.len() - k,
    {
        let (key, val) = options[k];
        proof {
            lemma_options_bytes_prefix(opts, k + 1);
            assert(opts.take(k + 1).drop_last() =~= opts.take(k as int));
            assert(opts.take(k + 1).last() == (key@, val@));
        }
        out.put_str(key);
        out.put_str(val);
        k = k + 1;
    }
    assert(opts.take(k as int) =~= opts);
    out.put_u8(0);
    out.put_frame_end(base);
    proof {
        let body = startup_body(opts);
        assert(prefix + seq![0u8, 0, 0, 0] + be_i16(3) + be_i16(0) + options_bytes(opts) + seq![0u8]
            =~= prefix + seq![0u8, 0, 0, 0] + body);
        lemma_frame_patch(prefix, body);
    }
}

/// PasswordMessage.
pub fn write_password<T: TxBuf>(out: &mut T, password: NZStr<'_>)
    requires
        frame_fits(cstr(password@)),
        old(out).tx_bytes().len() + password_msg(password@).len() <= usize::MAX,
    ensures
        final(out).tx_bytes() == old(out).tx_bytes() + password_msg(password@),
{
    let ghost prefix = old(out).tx_bytes();
    out.put_u8(0x70);
    let ghost p1 = out.tx_bytes();
    let base = out.put_frame_start();
    out.put_str(password);
    out.put_frame_end(base);
    proof {
        lemma_frame_patch(p1, cstr(password@));
        assert(p1 + frame(cstr(password@)) =~= prefix + password_msg(password@));
    }
}

/// SASLInitialResponse: the chosen mechanism and, when given, the initial
/// client response.
pub fn write_sasl_initial_resp<T: TxBuf>(out: &mut T, mechanism: NZStr<'_>, maybe_data: Option<&[u8]>)
    requires
        frame_fits(sasl_initial_resp_body(mechanism@, param_value(maybe_data))),
        old(out).tx_bytes().len() + sasl_initial_resp_msg(mechanism@, param_value(maybe_data)).len()
            <= usize::MAX,
    ensures
        final(out).tx_bytes() == old(out).tx_bytes() + sasl_initial_resp_msg(
            mechanism@,
            param_value(maybe_data),
        ),
{
    let ghost prefix = old(out).tx_bytes();
    out.put_u8(0x70);
    let ghost p1 = out.tx_bytes();
    let base = out.put_frame_start();
    out.put_str(mechanism);
    put_value(out, maybe_data);
    out.put_frame_end(base);
    proof {
        let body = sasl_initial_resp_body(mechanism@, param_value(maybe_data));
        assert(p1 + seq![0u8, 0, 0, 0] + cstr(mechanism@) + value_bytes(param_value(maybe_data))
            =~= p1 + seq![0u8, 0, 0, 0] + body);
        lemma_frame_patch(p1, body);
        assert(p1 + frame(body) =~= prefix + sasl_initial_resp_msg(
            mechanism@,
            param_value(maybe_data),
        ));
    }
}

/// SASLResponse.
pub fn write_sasl_resp<T: TxBuf>(out: &mut T, data: &[u8])
    requires
        frame_fits(data@),
        old(out).tx_bytes().len() + sasl_resp_msg(data@).len() <= usize::MAX,
    ensures
        final(out).tx_bytes() == old(out).tx_bytes() + sasl_resp_msg(data@),
{
    let ghost prefix = old(out).tx_bytes();
    out.put_u8(0x70);
    let ghost p1 = out.tx_bytes();
    let base = out.put_frame_start();
    out.put(data);
    out.put_frame_end(base);
    proof {
        lemma_frame_patch(p1, data@);
        assert(p1 + frame(data@) =~= prefix + sasl_resp_msg(data@));
    }
}

/// Parse: prepares `stmt` under the name `stmt_name`.
/// https://www.postgresql.org/docs/18/protocol-message-formats.html#PROTOCOL-MESSAGE-FORMATS-PARSE
pub fn write_parse<T: TxBuf>(out: &mut T, stmt_name: NZStr<'_>, param_types: &[u32], stmt: NZStr<'_>)
    requires
        frame_fits(parse_body(stmt_name@, param_types@, stmt@)),
        old(out).tx_bytes().len() + parse_msg(stmt_name@, param_types@, stmt@).len() <= usize::MAX,
    ensures
        final(out).tx_bytes() == old(out).tx_bytes() + parse_msg(stmt_name@, param_types@, stmt@),
{
    let ghost prefix = old(out).tx_bytes();
    out.put_u8(0x50);
    let ghost p1 = out.tx_bytes();
    let base = out.put_frame_start();
    out.put_str(stmt_name);
    out.put_str(stmt);
    out.put_i16(param_types.len() as i16);
    let ghost head = out.tx_bytes();
    let ghost oids = param_types@;
    proof {
        lemma_oids_bytes_prefix(oids, 0);
    }
    assert(oids.take(0) =~= Seq::<u32>::empty());
    let mut k: usize = 0;
    while k < param_types.len()
        invariant
            k <= param_types.len(),
            oids == param_types@,
            head.len() + oids_bytes(oids).len() <= usize::MAX,
            out.tx_bytes() == head + oids_bytes(oids.take(k as int)),
        decreases param_types.len() - k,
    {
        proof {
            lemma_oids_bytes_prefix(oids, k + 1);
            assert(oids.take(k + 1).drop_last() =~= oids.take(k as int));
        }
        out.put_u32(param_types[k]);
        k = k + 1;
    }
    assert(oids.take(k as int) =~= oids);
    out.put_frame_end(base);
    proof {
        let body = parse_body(stmt_name@, param_types@, stmt@);
        assert(head + oids_bytes(oids) =~= p1 + seq![0u8, 0, 0, 0] + body);
        lemma_frame_patch(p1, body);
        assert(p1 + frame(body) =~= prefix + parse_msg(stmt_name@, param_types@, stmt@));
    }
}

/// Describe of a prepared statement.
/// https://www.postgresql.org/docs/18/protocol-message-formats.html#PROTOCOL-MESSAGE-FORMATS-DESCRIBE
pub fn write_describe_stmt<T: TxBuf>(out: &mut T, stmt_name: NZStr<'_>)
    requires
        frame_fits(seq![0x53u8] + cstr(stmt_name@)),
        old(out).tx_bytes().len() + describe_stmt_msg(stmt_name@).len() <= usize::MAX,
    ensures
        final(out).tx_bytes() == old(out).tx_bytes() + describe_stmt_msg(stmt_name@),
{
    let ghost prefix = old(out).tx_bytes();
    out.put_u8(0x44);
    let ghost p1 = out.tx_bytes();
    let base = out.put_frame_start();
    out.put_u8(0x53);
    out.put_str(stmt_name);
    out.put_frame_end(base);
    proof {
        let body = seq![0x53u8] + cstr(stmt_name@);
        assert((p1 + seq![0u8, 0, 0, 0]).push(0x53u8) + cstr(stmt_name@) =~= p1 + seq![
            0u8,
            0,
            0,
            0,
        ] + body);
        lemma_frame_patch(p1, body);
        assert(p1 + frame(body) =~= prefix + describe_stmt_msg(stmt_name@));
    }
}

/// Appends the format codes of `fmts`, each as an `i16`.
fn put_formats<T: TxBuf>(out: &mut T, fmts: &[i16])
    requires
        old(out).tx_bytes().len() + formats_bytes(fmts@).len() <= usize::MAX,
    ensures
        final(out).tx_bytes() == old(out).tx_bytes() + formats_bytes(fmts@),
{
    let ghost head = old(out).tx_bytes();
    proof {
        lemma_formats_bytes_prefix(fmts@, 0);
    }
    assert(fmts@.take(0) =~= Seq::<i16>::empty());
    assert(head + Seq::<u8>::empty() =~= head);
    let mut k: usize = 0;
    while k < fmts.len()
        invariant
            k <= fmts.len(),
            head == old(out).tx_bytes(),
            head.len() + formats_bytes(fmts@).len() <= usize::MAX,
            out.tx_bytes() == head + formats_bytes(fmts@.take(k as int)),
        decreases fmts.len() - k,
    {
        proof {
            lemma_formats_bytes_prefix(fmts@, k + 1);
            assert(fmts@.take(k + 1).drop_last() =~= fmts@.take(k as int));
        }
        out.put_i16(fmts[k]);
        k = k + 1;
    }
    assert(fmts@.take(k as int) =~= fmts@);
}

/// The view of an optional value.
pub open spec fn param_value(v: Option<&[u8]>) -> Option<Seq<u8>> {
    match v {
        Some(d) => Some(d@),
        None => None,
    }
}

/// Appends one parameter value: its length and bytes, or -1 for NULL.
fn put_value<T: TxBuf>(out: &mut T, v: Option<&[u8]>)
    requires
        old(out).tx_bytes().len() + value_bytes(param_value(v)).len() <= usize::MAX,
        v matches Some(d) ==> d@.len() <= i32::MAX,
    ensures
        final(out).tx_bytes() == old(out).tx_bytes() + value_bytes(param_value(v)),
{
    match v {
        Some(d) => {
            out.put_i32(d.len() as i32);
            out.put(d);
            assert(old(out).tx_bytes() + be_i32(d@.len() as i32) + d@ =~= old(out).tx_bytes()
                + value_bytes(param_value(v)));
        },
        None => {
            out.put_i32(-1);
        },
    }
}

/// Bind: binds the parameter values to the prepared statement `stmt_name`
/// in the portal `portal_name`.
/// https://www.postgresql.org/docs/18/protocol-message-formats.html#PROTOCOL-MESSAGE-FORMATS-BIND
pub fn write_bind<T: TxBuf>(
    out: &mut T,
    stmt_name: NZStr<'_>,
    portal_name: NZStr<'_>,
    out_formats: &[i16],
    param_formats: &[i16],
    param_values: &[Option<&[u8]>],
)
    requires
        frame_fits(
            bind_body(
                stmt_name@,
                portal_name@,
                out_formats@,
                param_formats@,
                self::param_values(param_values@),
            ),
        ),
        old(out).tx_bytes().len() + bind_msg(
            stmt_name@,
            portal_name@,
            out_formats@,
            param_formats@,
            self::param_values(param_values@),
        ).len() <= usize::MAX,
    ensures
        final(out).tx_bytes() == old(out).tx_bytes() + bind_msg(
            stmt_name@,
            portal_name@,
            out_formats@,
            param_formats@,
            self::param_values(param_values@),
        ),
{
    let ghost prefix = old(out).tx_bytes();
    let ghost vals = self::param_values(param_values@);
    let ghost body = bind_body(stmt_name@, portal_name@, out_formats@, param_formats@, vals);
    out.put_u8(0x42);
    let ghost p1 = out.tx_bytes();
    let base = out.put_frame_start();
    out.put_str(portal_name);
    out.put_str(stmt_name);
    out.put_i16(param_formats.len() as i16);
    put_formats(out, param_formats);
    out.put_i16(param_values.len() as i16);
    let ghost head = out.tx_bytes();
    proof {
        lemma_values_bytes_prefix(vals, 0);
    }
    assert(vals.take(0) =~= Seq::<Option<Seq<u8>>>::empty());
    assert(head + Seq::<u8>::empty() =~= head);
    let mut k: usize = 0;
    while k < param_values.len()
        invariant
            k <= param_values.len(),
            vals == self::param_values(param_values@),
            vals.len() == param_values@.len(),
            head.len() + values_bytes(vals).len() + 2 + formats_bytes(out_formats@).len()
                <= usize::MAX,
            values_bytes(vals).len() <= i32::MAX,
            out.tx_bytes() == head + values_bytes(vals.take(k as int)),
        decreases param_values.len() - k,
    {
        proof {
            lemma_values_bytes_prefix(vals, k as int);
            lemma_values_bytes_prefix(vals, k + 1);
            assert(vals.take(k + 1).drop_last() =~= vals.take(k as int));
            assert(vals[k as int] == param_value(param_values@[k as int]));
        }
        put_value(out, param_values[k]);
        k = k + 1;
    }
    assert(vals.take(k as int) =~= vals);
    out.put_i16(out_formats.len() as i16);
    put_formats(out, out_formats);
    out.put_frame_end(base);
    proof {
        assert(head + values_bytes(vals) + be_i16(out_formats@.len() as i16) + formats_bytes(
            out_formats@,
        ) =~= p1 + seq![0u8, 0, 0, 0] + body);
        lemma_frame_patch(p1, body);
        assert(p1 + frame(body) =~= prefix + bind_msg(
            stmt_name@,
            portal_name@,
            out_formats@,
            param_formats@,
            vals,
        ));
    }
}

/// Execute of the portal `portal_name`, returning at most `max_rows` rows
/// (0 for no limit).
/// https://www.postgresql.org/docs/18/protocol-message-formats.html#PROTOCOL-MESSAGE-FORMATS-EXECUTE
pub fn write_execute<T: TxBuf>(out: &mut T, portal_name: NZStr<'_>, max_rows: i32)
    requires
        frame_fits(cstr(portal_name@) + be_i32(max_rows)),
        old(out).tx_bytes().len() + execute_msg(portal_name@, max_rows).len() <= usize::MAX,
    ensures
        final(out).tx_bytes() == old(out).tx_bytes() + execute_msg(portal_name@, max_rows),
{
    let ghost prefix = old(out).tx_bytes();
    out.put_u8(0x45);
    let ghost p1 = out.tx_bytes();
    let base = out.put_frame_start();
    out.put_str(portal_name);
    out.put_i32(max_rows);
    out.put_frame_end(base);
    proof {
        let body = cstr(portal_name@) + be_i32(max_rows);
        assert(p1 + seq![0u8, 0, 0, 0] + cstr(portal_name@) + be_i32(max_rows) =~= p1 + seq![
            0u8,
            0,
            0,
            0,
        ] + body);
        lemma_frame_patch(p1, body);
        assert(p1 + frame(body) =~= prefix + execute_msg(portal_name@, max_rows));
    }
}

/// Close of the portal `portal_name`.
/// https://www.postgresql.org/docs/16/protocol-message-formats.html#PROTOCOL-MESSAGE-FORMATS-CLOSE
pub fn write_close_portal<T: TxBuf>(out: &mut T, portal_name: NZStr<'_>)
    requires
        frame_fits(seq![0x50u8] + cstr(portal_name@)),
        old(out).tx_bytes().len() + close_portal_msg(portal_name@).len() <= usize::MAX,
    ensures
        final(out).tx_bytes() == old(out).tx_bytes() + close_portal_msg(portal_name@),
{
    let ghost prefix = old(out).tx_bytes();
    out.put_u8(0x43);
    let ghost p1 = out.tx_bytes();
    let base = out.put_frame_start();
    out.put_u8(0x50);
    out.put_str(portal_name);
    out.put_frame_end(base);
    proof {
        let body = seq![0x50u8] + cstr(portal_name@);
        assert((p1 + seq![0u8, 0, 0, 0]).push(0x50u8) + cstr(portal_name@) =~= p1 + seq![
            0u8,
            0,
            0,
            0,
        ] + body);
        lemma_frame_patch(p1, body);
        assert(p1 + frame(body) =~= prefix + close_portal_msg(portal_name@));
    }
}

/// CopyFail with the error message `reason`.
/// https://www.postgresql.org/docs/18/protocol-message-formats.html#PROTOCOL-MESSAGE-FORMATS-COPYFAIL
pub fn write_copy_fail<T: TxBuf>(out: &mut T, reason: NZStr<'_>)
    requires
        frame_fits(cstr(reason@)),
        old(out).tx_bytes().len() + copy_fail_msg(reason@).len() <= usize::MAX,
    ensures
        final(out).tx_bytes() == old(out).tx_bytes() + copy_fail_msg(reason@),
{
    let ghost prefix = old(out).tx_bytes();
    out.put_u8(0x66);
    let ghost p1 = out.tx_bytes();
    let base = out.put_frame_start();
    out.put_str(reason);
    out.put_frame_end(base);
    proof {
        lemma_frame_patch(p1, cstr(reason@));
        assert(p1 + frame(cstr(reason@)) =~= prefix + copy_fail_msg(reason@));
    }
}

/// Appends the five bytes of a message with an empty body.
fn put_bare<T: TxBuf>(out: &mut T, code: u8)
    requires
        old(out).tx_bytes().len() + 5 <= usize::MAX,
    ensures
        final(out).tx_bytes() == old(out).tx_bytes() + bare_msg(code),
{
    let b: [u8; 5] = [code, 0, 0, 0, 4];
    proof {
        let v: u32 = 4;
        assert((v >> 24) as u8 == 0 && ((v >> 16) & 0xff) as u8 == 0 && ((v >> 8) & 0xff) as u8
            == 0 && (v & 0xff) as u8 == 4) by (bit_vector)
            requires
                v == 4,
        ;
        assert(frame(Seq::<u8>::empty()) =~= be_u32(v));
    }
    assert(b@ =~= bare_msg(code));
    out.put(b.as_slice());
}

/// Flush.
/// https://www.postgresql.org/docs/18/protocol-message-formats.html#PROTOCOL-MESSAGE-FORMATS-FLUSH
pub fn write_flush<T: TxBuf>(out: &mut T)
    requires
        old(out).tx_bytes().len() + 5 <= usize::MAX,
    ensures
        final(out).tx_bytes() == old(out).tx_bytes() + bare_msg(0x48),
{
    put_bare(out, 0x48);
}

/// Sync.
/// https://www.postgresql.org/docs/18/protocol-message-formats.html#PROTOCOL-MESSAGE-FORMATS-SYNC
pub fn write_sync<T: TxBuf>(out: &mut T)
    requires
        old(out).tx_bytes().len() + 5 <= usize::MAX,
    ensures
        final(out).tx_bytes() == old(out).tx_bytes() + bare_msg(0x53),
{
    put_bare(out, 0x53);
}

/// Terminate.
/// https://www.postgresql.org/docs/18/protocol-message-formats.html#PROTOCOL-MESSAGE-FORMATS-TERMINATE
pub fn write_terminate<T: TxBuf>(out: &mut T)
    requires
        old(out).tx_bytes().len() + 5 <= usize::MAX,
    ensures
        final(out).tx_bytes() == old(out).tx_bytes() + bare_msg(0x58),
{
    put_bare(out, 0x58);
}

/// CancelRequest for the backend `pid` holding the secret key `secret`.
/// https://www.postgresql.org/docs/18/protocol-message-formats.html#PROTOCOL-MESSAGE-FORMATS-CANCELREQUEST
pub fn write_cancel_req<T: TxBuf>(out: &mut T, pid: i32, secret: &[u8])
    requires
        frame_fits(cancel_req_body(pid, secret@)),
        old(out).tx_bytes().len() + cancel_req_msg(pid, secret@).len() <= usize::MAX,
    ensures
        final(out).tx_bytes() == old(out).tx_bytes() + cancel_req_msg(pid, secret@),
{
    let ghost prefix = old(out).tx_bytes();
    let base = out.put_frame_start();
    out.put_i16(1234);
    out.put_i16(5678);
    out.put_i32(pid);
    out.put(secret);
    out.put_frame_end(base);
    proof {
        let body = cancel_req_body(pid, secret@);
        assert(prefix + seq![0u8, 0, 0, 0] + be_i16(1234) + be_i16(5678) + be_i32(pid) + secret@
            =~= prefix + seq![0u8, 0, 0, 0] + body);
        lemma_frame_patch(prefix, body);
    }
}

} // verus!
