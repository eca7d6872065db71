//! Backend messages of the Postgres wire protocol.
//!
//! [`parse_message`] cuts one message off the front of a receive buffer and
//! [`decode_message`] decodes its body. Both are proved to compute the spec
//! functions [`spec_parse_message`] and [`spec_decode_message`], which state
//! the message formats directly: a reader over a byte sequence and a
//! position for each field type, and one case per message type code.
use vstd::prelude::*;

use crate::hex::{hex_digit, hex_digit_exec};
use crate::pg::encode::{be_i32, be_u32, frame};

verus! {

/// Why a backend message could not be decoded.
#[derive(Debug, Clone, Copy, PartialEq, Eq, Structural)]
pub enum Error {
    MessageTooBig,
    InvalidMessageLength,
    InvalidDatumLength,
    UnexpectedEndOfMessage,
    UnexpectedTrailingData,
    UnknownMessage,
}

/// Numeric object identifier.
/// http://www.postgresql.org/docs/9.4/static/datatype-oid.html
pub type Oid = u32;

// ---------------------------------------------------------------------------
// Integers
// ---------------------------------------------------------------------------

pub open spec fn u16_of(a: u8, b: u8) -> u16 {
    (a as int * 0x100 + b as int) as u16
}

pub open spec fn u32_of(a: u8, b: u8, c: u8, d: u8) -> u32 {
    (a as int * 0x1000000 + b as int * 0x10000 + c as int * 0x100 + d as int) as u32
}

/// The signed value of a 16-bit pattern (two's complement).
pub open spec fn signed16(v: u16) -> i16 {
    (if v < 0x8000 {
        v as int
    } else {
        v as int - 0x10000
    }) as i16
}

/// The signed value of a 32-bit pattern (two's complement).
pub open spec fn signed32(v: u32) -> i32 {
    (if v < 0x80000000 {
        v as int
    } else {
        v as int - 0x100000000
    }) as i32
}

fn to_signed16(v: u16) -> (r: i16)
    ensures
        r == signed16(v),
{
    if v < 0x8000 {
        v as i16
    } else {
        (v as i32 - 0x10000) as i16
    }
}

fn to_signed32(v: u32) -> (r: i32)
    ensures
        r == signed32(v),
{
    if v < 0x80000000 {
        v as i32
    } else {
        (v as i64 - 0x100000000) as i32
    }
}

// ---------------------------------------------------------------------------
// Field readers over a byte sequence and a position
// ---------------------------------------------------------------------------

pub open spec fn sp_read_u8(s: Seq<u8>, p: int) -> Result<(u8, int), Error> {
    if 0 <= p && p + 1 <= s.len() {
        Ok((s[p], p + 1))
    } else {
        Err(Error::UnexpectedEndOfMessage)
    }
}

pub open spec fn sp_read_u16(s: Seq<u8>, p: int) -> Result<(u16, int), Error> {
    if 0 <= p && p + 2 <= s.len() {
        Ok((u16_of(s[p], s[p + 1]), p + 2))
    } else {
        Err(Error::UnexpectedEndOfMessage)
    }
}

pub open spec fn sp_read_i16(s: Seq<u8>, p: int) -> Result<(i16, int), Error> {
    match sp_read_u16(s, p) {
        Ok((v, q)) => Ok((signed16(v), q)),
        Err(e) => Err(e),
    }
}

pub open spec fn sp_read_u32(s: Seq<u8>, p: int) -> Result<(u32, int), Error> {
    if 0 <= p && p + 4 <= s.len() {
        Ok((u32_of(s[p], s[p + 1], s[p + 2], s[p + 3]), p + 4))
    } else {
        Err(Error::UnexpectedEndOfMessage)
    }
}

pub open spec fn sp_read_i32(s: Seq<u8>, p: int) -> Result<(i32, int), Error> {
    match sp_read_u32(s, p) {
        Ok((v, q)) => Ok((signed32(v), q)),
        Err(e) => Err(e),
    }
}

/// The `n` bytes at `p`.
pub open spec fn sp_read_bytes(s: Seq<u8>, p: int, n: int) -> Result<(Seq<u8>, int), Error> {
    if 0 <= p && 0 <= n && p + n <= s.len() {
        Ok((s.subrange(p, p + n), p + n))
    } else {
        Err(Error::UnexpectedEndOfMessage)
    }
}

/// Position of the first zero byte at or after `p`, or the length of `s`.
pub open spec fn first_zero(s: Seq<u8>, p: int) -> int
    decreases s.len() - p,
{
    if 0 <= p < s.len() && s[p] != 0 {
        first_zero(s, p + 1)
    } else {
        p
    }
}

/// A zero-terminated string at `p`, without its terminator.
pub open spec fn sp_read_str(s: Seq<u8>, p: int) -> Result<(Seq<u8>, int), Error> {
    let z = first_zero(s, p);
    if 0 <= p && z < s.len() {
        Ok((s.subrange(p, z), z + 1))
    } else {
        Err(Error::UnexpectedEndOfMessage)
    }
}

/// A column value: a length and that many bytes, or length -1 for NULL.
pub open spec fn sp_read_datum(s: Seq<u8>, p: int) -> Result<(Option<Seq<u8>>, int), Error> {
    match sp_read_i32(s, p) {
        Err(e) => Err(e),
        Ok((len, q)) => if len == -1 {
            Ok((None, q))
        } else if len >= 0 {
            match sp_read_bytes(s, q, len as int) {
                Ok((d, r)) => Ok((Some(d), r)),
                Err(e) => Err(e),
            }
        } else {
            Err(Error::InvalidDatumLength)
        },
    }
}

/// The end of `n` column values starting at `p`.
pub open spec fn sp_skip_datums(s: Seq<u8>, p: int, n: nat) -> Result<int, Error>
    decreases n,
{
    if n == 0 {
        Ok(p)
    } else {
        match sp_read_datum(s, p) {
            Err(e) => Err(e),
            Ok((_, q)) => sp_skip_datums(s, q, (n - 1) as nat),
        }
    }
}

/// The column values of a row: `n` values starting at `p`.
pub open spec fn sp_datums(s: Seq<u8>, p: int, n: nat) -> Seq<Option<Seq<u8>>>
    decreases n,
{
    if n == 0 {
        Seq::empty()
    } else {
        match sp_read_datum(s, p) {
            Err(_) => Seq::empty(),
            Ok((d, q)) => seq![d] + sp_datums(s, q, (n - 1) as nat),
        }
    }
}

pub proof fn lemma_first_zero_bounds(s: Seq<u8>, p: int)
    requires
        0 <= p <= s.len(),
    ensures
        p <= first_zero(s, p) <= s.len(),
        first_zero(s, p) < s.len() ==> s[first_zero(s, p)] == 0,
        forall|k: int| p <= k < first_zero(s, p) ==> #[trigger] s[k] != 0,
    decreases s.len() - p,
{
    if p < s.len() && s[p] != 0 {
        lemma_first_zero_bounds(s, p + 1);
    }
}

/// A cursor over a message body: the readers take the position and return
/// the value read and the position after it.
fn read_u8(s: &[u8], p: usize) -> (r: Result<(u8, usize), Error>)
    ensures
        match r {
            Ok((v, q)) => sp_read_u8(s@, p as int) == Ok::<(u8, int), Error>((v, q as int)),
            Err(e) => sp_read_u8(s@, p as int) == Err::<(u8, int), Error>(e),
        },
{
    if p < s.len() {
        Ok((s[p], p + 1))
    } else {
        Err(Error::UnexpectedEndOfMessage)
    }
}

fn read_u16(s: &[u8], p: usize) -> (r: Result<(u16, usize), Error>)
    ensures
        match r {
            Ok((v, q)) => sp_read_u16(s@, p as int) == Ok::<(u16, int), Error>((v, q as int)),
            Err(e) => sp_read_u16(s@, p as int) == Err::<(u16, int), Error>(e),
        },
{
    if p <= s.len() && s.len() - p >= 2 {
        Ok((s[p] as u16 * 0x100 + s[p + 1] as u16, p + 2))
    } else {
        Err(Error::UnexpectedEndOfMessage)
    }
}

fn read_i16(s: &[u8], p: usize) -> (r: Result<(i16, usize), Error>)
    ensures
        match r {
            Ok((v, q)) => sp_read_i16(s@, p as int) == Ok::<(i16, int), Error>((v, q as int)),
            Err(e) => sp_read_i16(s@, p as int) == Err::<(i16, int), Error>(e),
        },
{
    match read_u16(s, p) {
        Ok((v, q)) => Ok((to_signed16(v), q)),
        Err(e) => Err(e),
    }
}

fn read_u32(s: &[u8], p: usize) -> (r: Result<(u32, usize), Error>)
    ensures
        match r {
            Ok((v, q)) => sp_read_u32(s@, p as int) == Ok::<(u32, int), Error>((v, q as int)),
            Err(e) => sp_read_u32(s@, p as int) == Err::<(u32, int), Error>(e),
        },
{
    if p <= s.len() && s.len() - p >= 4 {
        let v = s[p] as u32 * 0x1000000 + s[p + 1] as u32 * 0x10000 + s[p + 2] as u32 * 0x100
            + s[p + 3] as u32;
        Ok((v, p + 4))
    } else {
        Err(Error::UnexpectedEndOfMessage)
    }
}

fn read_i32(s: &[u8], p: usize) -> (r: Result<(i32, usize), Error>)
    ensures
        match r {
            Ok((v, q)) => sp_read_i32(s@, p as int) == Ok::<(i32, int), Error>((v, q as int)),
            Err(e) => sp_read_i32(s@, p as int) == Err::<(i32, int), Error>(e),
        },
{
    match read_u32(s, p) {
        Ok((v, q)) => Ok((to_signed32(v), q)),
        Err(e) => Err(e),
    }
}

fn read_array4(s: &[u8], p: usize) -> (r: Result<([u8; 4], usize), Error>)
    ensures
        match r {
            Ok((v, q)) => sp_read_bytes(s@, p as int, 4) == Ok::<(Seq<u8>, int), Error>(
                (v@, q as int),
            ),
            Err(e) => sp_read_bytes(s@, p as int, 4) == Err::<(Seq<u8>, int), Error>(e),
        },
{
    if p <= s.len() && s.len() - p >= 4 {
        let v: [u8; 4] = [s[p], s[p + 1], s[p + 2], s[p + 3]];
        assert(v@ =~= s@.subrange(p as int, p + 4));
        Ok((v, p + 4))
    } else {
        Err(Error::UnexpectedEndOfMessage)
    }
}

/// The rest of the body from `p` on.
fn read_all<'a>(s: &'a [u8], p: usize) -> (r: (&'a [u8], usize))
    requires
        p <= s.len(),
    ensures
        r.0@ == s@.subrange(p as int, s@.len() as int),
        r.1 == s.len(),
{
    (&s[p..s.len()], s.len())
}

fn read_str<'a>(s: &'a [u8], p: usize) -> (r: Result<(&'a [u8], usize), Error>)
    ensures
        match r {
            Ok((v, q)) => sp_read_str(s@, p as int) == Ok::<(Seq<u8>, int), Error>((v@, q as int)),
            Err(e) => sp_read_str(s@, p as int) == Err::<(Seq<u8>, int), Error>(e),
        },
{
    if p > s.len() {
        return Err(Error::UnexpectedEndOfMessage);
    }
    let mut z = p;
    while z < s.len() && s[z] != 0
        invariant
            p <= z <= s.len(),
            first_zero(s@, z as int) == first_zero(s@, p as int),
        decreases s.len() - z,
    {
        z = z + 1;
    }
    if z < s.len() {
        Ok((&s[p..z], z + 1))
    } else {
        Err(Error::UnexpectedEndOfMessage)
    }
}

fn read_datum<'a>(s: &'a [u8], p: usize) -> (r: Result<(Option<&'a [u8]>, usize), Error>)
    ensures
        match r {
            Ok((v, q)) => sp_read_datum(s@, p as int) == Ok::<(Option<Seq<u8>>, int), Error>(
                (opt_view(v), q as int),
            ),
            Err(e) => sp_read_datum(s@, p as int) == Err::<(Option<Seq<u8>>, int), Error>(e),
        },
{
    let (len, q) = match read_i32(s, p) {
        Ok(x) => x,
        Err(e) => return Err(e),
    };
    if len == -1 {
        Ok((None, q))
    } else if len >= 0 {
        let n = len as usize;
        if q <= s.len() && s.len() - q >= n {
            Ok((Some(&s[q..q + n]), q + n))
        } else {
            Err(Error::UnexpectedEndOfMessage)
        }
    } else {
        Err(Error::InvalidDatumLength)
    }
}

/// The view of an optional byte string.
pub open spec fn opt_view(v: Option<&[u8]>) -> Option<Seq<u8>> {
    match v {
        Some(d) => Some(d@),
        None => None,
    }
}

// ---------------------------------------------------------------------------
// Message types
// ---------------------------------------------------------------------------

/// A row of column values, checked when it was decoded: `buf` starts with
/// `ncols` well-formed values.
#[derive(Clone, Copy)]
pub struct Row<'a> {
    ncols: usize,
    buf: &'a [u8],
}

/// The view of a row: the count of columns not yet read and the bytes that
/// hold them.
pub struct RowView {
    pub ncols: nat,
    pub buf: Seq<u8>,
}

impl<'a> View for Row<'a> {
    type V = RowView;

    closed spec fn view(&self) -> RowView {
        RowView { ncols: self.ncols as nat, buf: self.buf@ }
    }
}

impl<'a> Row<'a> {
    #[verifier::type_invariant]
    spec fn inv(self) -> bool {
        sp_skip_datums(self.buf@, 0, self.ncols as nat) is Ok
    }

    /// The column values not yet read, in order.
    pub closed spec fn values(self) -> Seq<Option<Seq<u8>>> {
        sp_datums(self.buf@, 0, self.ncols as nat)
    }

    /// The next column value (`None` inside for NULL), or `None` when every
    /// column has been read.
    pub fn next(&mut self) -> (r: Option<Option<&'a [u8]>>)
        ensures
            old(self).values().len() == 0 ==> r is None && final(self).values() == old(
                self,
            ).values(),
            old(self).values().len() > 0 ==> (r matches Some(v) && opt_view(v) == old(
                self,
            ).values()[0] && final(self).values() == old(self).values().drop_first()),
    {
        proof {
            use_type_invariant(&*self);
            lemma_datums_len(self.buf@, 0, self.ncols as nat);
        }
        if self.ncols == 0 {
            return None;
        }
        let ghost b = self.buf@;
        let ghost n = self.ncols as nat;
        match read_datum(self.buf, 0) {
            Ok((v, q)) => {
                proof {
                    lemma_skip_datums_shift(b, q as int, (n - 1) as nat);
                    lemma_datums_shift(b, q as int, (n - 1) as nat);
                    assert(b.subrange(q as int, b.len() as int) == self.buf@.subrange(
                        q as int,
                        self.buf@.len() as int,
                    ));
                }
                let rest = &self.buf[q..self.buf.len()];
                *self = Row { ncols: self.ncols - 1, buf: rest };
                proof {
                    assert(sp_datums(b, 0, n) == seq![opt_view(v)] + sp_datums(
                        b,
                        q as int,
                        (n - 1) as nat,
                    ));
                    assert(sp_datums(b, 0, n).drop_first() =~= sp_datums(
                        b,
                        q as int,
                        (n - 1) as nat,
                    ));
                }
                Some(v)
            },
            Err(_) => {
                // the row was checked when it was decoded
                proof {
                    assert(false);
                }
                None
            },
        }
    }

    /// All column values not yet read, in order.
    pub fn values_vec(&self) -> (r: Vec<Option<&'a [u8]>>)
        ensures
            r@.map_values(|v: Option<&'a [u8]>| opt_view(v)) == self.values(),
    {
        let mut row = *self;
        let mut out: Vec<Option<&'a [u8]>> = Vec::new();
        assert(out@.map_values(|v: Option<&'a [u8]>| opt_view(v)) =~= Seq::<
            Option<Seq<u8>>,
        >::empty());
        assert(Seq::<Option<Seq<u8>>>::empty() + row.values() =~= self.values());
        loop
            invariant
                out@.map_values(|v: Option<&'a [u8]>| opt_view(v)) + row.values() == self.values(),
            ensures
                out@.map_values(|v: Option<&'a [u8]>| opt_view(v)) == self.values(),
            decreases row.values().len(),
        {
            let ghost before = row.values();
            let ghost o = out@;
            match row.next() {
                Some(v) => {
                    out.push(v);
                    proof {
                        assert(out@.map_values(|v: Option<&'a [u8]>| opt_view(v)) =~= o.map_values(
                            |v: Option<&'a [u8]>| opt_view(v),
                        ).push(opt_view(v)));
                        assert(before =~= seq![before[0]] + before.drop_first());
                        assert(o.map_values(|v: Option<&'a [u8]>| opt_view(v)) + before =~= out@.map_values(
                            |v: Option<&'a [u8]>| opt_view(v),
                        ) + row.values());
                    }
                },
                None => {
                    assert(row.values() =~= Seq::<Option<Seq<u8>>>::empty());
                    assert(out@.map_values(|v: Option<&'a [u8]>| opt_view(v)) + row.values()
                        =~= out@.map_values(|v: Option<&'a [u8]>| opt_view(v)));
                    break ;
                },
            }
        }
        out
    }
}

pub proof fn lemma_datums_len(s: Seq<u8>, p: int, n: nat)
    requires
        sp_skip_datums(s, p, n) is Ok,
    ensures
        sp_datums(s, p, n).len() == n,
    decreases n,
{
    if n > 0 {
        let (_, q) = sp_read_datum(s, p)->Ok_0;
        lemma_datums_len(s, q, (n - 1) as nat);
    }
}

/// Reading from a suffix gives the same results, shifted.
pub proof fn lemma_read_datum_shift(s: Seq<u8>, q: int, p: int)
    requires
        0 <= q <= s.len(),
        0 <= p,
    ensures
        match sp_read_datum(s.subrange(q, s.len() as int), p) {
            Ok((d, r)) => sp_read_datum(s, p + q) == Ok::<(Option<Seq<u8>>, int), Error>(
                (d, r + q),
            ),
            Err(e) => sp_read_datum(s, p + q) == Err::<(Option<Seq<u8>>, int), Error>(e),
        },
{
    let t = s.subrange(q, s.len() as int);
    if p + 4 <= t.len() {
        assert(t[p] == s[p + q] && t[p + 1] == s[p + q + 1] && t[p + 2] == s[p + q + 2] && t[p
            + 3] == s[p + q + 3]);
        let (len, r) = sp_read_i32(t, p)->Ok_0;
        if len >= 0 && r + len <= t.len() {
            assert(t.subrange(r, r + len) =~= s.subrange(r + q, r + q + len));
        }
    }
}

pub proof fn lemma_skip_datums_shift(s: Seq<u8>, q: int, n: nat)
    requires
        0 <= q <= s.len(),
    ensures
        sp_skip_datums(s.subrange(q, s.len() as int), 0, n) is Ok <==> sp_skip_datums(s, q, n) is Ok,
    decreases n,
{
    lemma_skip_datums_shift_at(s, q, 0, n);
}

pub proof fn lemma_skip_datums_shift_at(s: Seq<u8>, q: int, p: int, n: nat)
    requires
        0 <= q <= s.len(),
        0 <= p,
    ensures
        sp_skip_datums(s.subrange(q, s.len() as int), p, n) is Ok <==> sp_skip_datums(s, p + q, n) is Ok,
        sp_datums(s.subrange(q, s.len() as int), p, n) == sp_datums(s, p + q, n),
    decreases n,
{
    if n > 0 {
        lemma_read_datum_shift(s, q, p);
        let t = s.subrange(q, s.len() as int);
        match sp_read_datum(t, p) {
            Ok((d, r)) => {
                lemma_read_datum_nonneg(t, p);
                lemma_skip_datums_shift_at(s, q, r, (n - 1) as nat);
            },
            Err(_) => {},
        }
    }
}

pub proof fn lemma_read_datum_nonneg(s: Seq<u8>, p: int)
    ensures
        sp_read_datum(s, p) matches Ok((_, r)) ==> r >= 0 && r <= s.len() && r > p,
{
}

pub proof fn lemma_datums_shift(s: Seq<u8>, q: int, n: nat)
    requires
        0 <= q <= s.len(),
    ensures
        sp_datums(s.subrange(q, s.len() as int), 0, n) == sp_datums(s, q, n),
{
    lemma_skip_datums_shift_at(s, q, 0, n);
}

/// One column of a RowDescription.
#[derive(Clone, Copy)]
pub struct Field<'a> {
    pub name: &'a [u8],
    /// If the field can be identified as a column of a specific table,
    /// the object ID of the table; otherwise zero.
    pub table_oid: Oid,
    /// If the field can be identified as a column of a specific table,
    /// the attribute number of the column; otherwise zero.
    pub table_col: i16,
    /// The object ID of the field's data type.
    pub type_oid: Oid,
    /// The type modifier (see pg_attribute.atttypmod).
    pub type_mod: i32,
    /// The data type size (see pg_type.typlen).
    /// Negative values denote variable-width types.
    pub type_size: i16,
    /// The format code being used for the field: zero (text) or one (binary).
    /// In a RowDescription returned from the statement variant of Describe,
    /// the format code is not yet known and will always be zero.
    pub format: i16,
}

pub struct FieldView {
    pub name: Seq<u8>,
    pub table_oid: Oid,
    pub table_col: i16,
    pub type_oid: Oid,
    pub type_mod: i32,
    pub type_size: i16,
    pub format: i16,
}

impl<'a> View for Field<'a> {
    type V = FieldView;

    open spec fn view(&self) -> FieldView {
        FieldView {
            name: self.name@,
            table_oid: self.table_oid,
            table_col: self.table_col,
            type_oid: self.type_oid,
            type_mod: self.type_mod,
            type_size: self.type_size,
            format: self.format,
        }
    }
}

/// Format of a COPY data stream.
#[derive(Clone)]
pub struct CopyFmt {
    /// 0 indicates the overall COPY format is textual (rows separated
    /// by newlines, columns separated by separator characters, etc).
    /// 1 indicates the overall copy format is binary (similar to DataRow
    /// format).
    pub format: u8,
    /// The format codes to be used for each column.
    /// Each must presently be zero (text) or one (binary).
    /// All must be zero if the overall copy format is textual.
    pub column_formats: Vec<i16>,
}

pub struct CopyFmtView {
    pub format: u8,
    pub column_formats: Seq<i16>,
}

impl View for CopyFmt {
    type V = CopyFmtView;

    open spec fn view(&self) -> CopyFmtView {
        CopyFmtView { format: self.format, column_formats: self.column_formats@ }
    }
}

/// The one-byte code of a field of an ErrorResponse or NoticeResponse.
/// https://www.postgresql.org/docs/18/protocol-error-fields.html
#[derive(Clone, Copy, PartialEq, Eq, Structural)]
pub struct DbErrorField(pub u8);

/// An ErrorResponse or NoticeResponse: its fields in the order received.
#[derive(Clone)]
pub struct DbError {
    pub fields: Vec<(DbErrorField, Vec<u8>)>,
}

/// The view of the fields of an error: each code with its value.
pub open spec fn error_fields_view(fields: Seq<(DbErrorField, Vec<u8>)>) -> Seq<(u8, Seq<u8>)> {
    fields.map_values(|f: (DbErrorField, Vec<u8>)| (f.0.0, f.1@))
}

impl View for DbError {
    type V = Seq<(u8, Seq<u8>)>;

    open spec fn view(&self) -> Seq<(u8, Seq<u8>)> {
        error_fields_view(self.fields@)
    }
}

/// A message sent by the server.
pub enum BackendMessage<'a> {
    NegotiateProtocolVersion,
    AuthenticationOk,
    AuthenticationKerberosV5,
    AuthenticationCleartextPassword,
    AuthenticationMD5Password { salt: [u8; 4] },
    AuthenticationSCMCredential,
    AuthenticationGSS,
    AuthenticationGSSContinue(&'a [u8]),
    AuthenticationSSPI,
    AuthenticationSASL(Vec<&'a [u8]>),
    AuthenticationSASLContinue(&'a [u8]),
    AuthenticationSASLFinal(&'a [u8]),
    BackendKeyData { pid: i32, secret_key: &'a [u8] },
    ParameterStatus(&'a [u8], &'a [u8]),
    ReadyForQuery { txn_status: u8 },
    DataRow(Row<'a>),
    ParseComplete,
    BindComplete,
    CloseComplete,
    ParameterDescription(Vec<Oid>),
    RowDescription(Vec<Field<'a>>),
    NoData,
    CommandComplete { tag: &'a [u8] },
    EmptyQueryResponse { tag: &'static [u8] },
    PortalSuspended { tag: &'static [u8] },
    ErrorResponse(DbError),
    NoticeResponse(DbError),
    CopyInResponse(CopyFmt),
    CopyOutResponse(CopyFmt),
    CopyBothResponse(CopyFmt),
    CopyData(&'a [u8]),
    CopyDone,
    NotificationResponse { pid: i32, channel: &'a [u8], payload: &'a [u8] },
}

/// The view of a backend message: its contents as mathematical values.
pub enum Msg {
    NegotiateProtocolVersion,
    AuthenticationOk,
    AuthenticationKerberosV5,
    AuthenticationCleartextPassword,
    AuthenticationMD5Password { salt: Seq<u8> },
    AuthenticationSCMCredential,
    AuthenticationGSS,
    AuthenticationGSSContinue(Seq<u8>),
    AuthenticationSSPI,
    AuthenticationSASL(Seq<Seq<u8>>),
    AuthenticationSASLContinue(Seq<u8>),
    AuthenticationSASLFinal(Seq<u8>),
    BackendKeyData { pid: i32, secret_key: Seq<u8> },
    ParameterStatus(Seq<u8>, Seq<u8>),
    ReadyForQuery { txn_status: u8 },
    DataRow(Seq<Option<Seq<u8>>>),
    ParseComplete,
    BindComplete,
    CloseComplete,
    ParameterDescription(Seq<Oid>),
    RowDescription(Seq<FieldView>),
    NoData,
    CommandComplete { tag: Seq<u8> },
    EmptyQueryResponse { tag: Seq<u8> },
    PortalSuspended { tag: Seq<u8> },
    ErrorResponse(Seq<(u8, Seq<u8>)>),
    NoticeResponse(Seq<(u8, Seq<u8>)>),
    CopyInResponse(CopyFmtView),
    CopyOutResponse(CopyFmtView),
    CopyBothResponse(CopyFmtView),
    CopyData(Seq<u8>),
    CopyDone,
    NotificationResponse { pid: i32, channel: Seq<u8>, payload: Seq<u8> },
}

pub open spec fn slices_view(v: Seq<&[u8]>) -> Seq<Seq<u8>> {
    v.map_values(|x: &[u8]| x@)
}

pub open spec fn fields_view(v: Seq<Field<'_>>) -> Seq<FieldView> {
    v.map_values(|x: Field<'_>| x@)
}

impl<'a> View for BackendMessage<'a> {
    type V = Msg;

    open spec fn view(&self) -> Msg {
        match self {
            BackendMessage::NegotiateProtocolVersion => Msg::NegotiateProtocolVersion,
            BackendMessage::AuthenticationOk => Msg::AuthenticationOk,
            BackendMessage::AuthenticationKerberosV5 => Msg::AuthenticationKerberosV5,
            BackendMessage::AuthenticationCleartextPassword => Msg::AuthenticationCleartextPassword,
            BackendMessage::AuthenticationMD5Password { salt } => Msg::AuthenticationMD5Password {
                salt: salt@,
            },
            BackendMessage::AuthenticationSCMCredential => Msg::AuthenticationSCMCredential,
            BackendMessage::AuthenticationGSS => Msg::AuthenticationGSS,
            BackendMessage::AuthenticationGSSContinue(d) => Msg::AuthenticationGSSContinue(d@),
            BackendMessage::AuthenticationSSPI => Msg::AuthenticationSSPI,
            BackendMessage::AuthenticationSASL(m) => Msg::AuthenticationSASL(slices_view(m@)),
            BackendMessage::AuthenticationSASLContinue(d) => Msg::AuthenticationSASLContinue(d@),
            BackendMessage::AuthenticationSASLFinal(d) => Msg::AuthenticationSASLFinal(d@),
            BackendMessage::BackendKeyData { pid, secret_key } => Msg::BackendKeyData {
                pid: *pid,
                secret_key: secret_key@,
            },
            BackendMessage::ParameterStatus(k, v) => Msg::ParameterStatus(k@, v@),
            BackendMessage::ReadyForQuery { txn_status } => Msg::ReadyForQuery {
                txn_status: *txn_status,
            },
            BackendMessage::DataRow(row) => Msg::DataRow(row.values()),
            BackendMessage::ParseComplete => Msg::ParseComplete,
            BackendMessage::BindComplete => Msg::BindComplete,
            BackendMessage::CloseComplete => Msg::CloseComplete,
            BackendMessage::ParameterDescription(oids) => Msg::ParameterDescription(oids@),
            BackendMessage::RowDescription(fields) => Msg::RowDescription(fields_view(fields@)),
            BackendMessage::NoData => Msg::NoData,
            BackendMessage::CommandComplete { tag } => Msg::CommandComplete { tag: tag@ },
            BackendMessage::EmptyQueryResponse { tag } => Msg::EmptyQueryResponse { tag: tag@ },
            BackendMessage::PortalSuspended { tag } => Msg::PortalSuspended { tag: tag@ },
            BackendMessage::ErrorResponse(e) => Msg::ErrorResponse(e@),
            BackendMessage::NoticeResponse(e) => Msg::NoticeResponse(e@),
            BackendMessage::CopyInResponse(f) => Msg::CopyInResponse(f@),
            BackendMessage::CopyOutResponse(f) => Msg::CopyOutResponse(f@),
            BackendMessage::CopyBothResponse(f) => Msg::CopyBothResponse(f@),
            BackendMessage::CopyData(d) => Msg::CopyData(d@),
            BackendMessage::CopyDone => Msg::CopyDone,
            BackendMessage::NotificationResponse { pid, channel, payload } => Msg::NotificationResponse {
                pid: *pid,
                channel: channel@,
                payload: payload@,
            },
        }
    }
}

// ---------------------------------------------------------------------------
// Composite readers
// ---------------------------------------------------------------------------

/// `n` big-endian `u32` values at `p`.
pub open spec fn sp_read_u32s(s: Seq<u8>, p: int, n: nat) -> Result<(Seq<u32>, int), Error>
    decreases n,
{
    if n == 0 {
        Ok((Seq::empty(), p))
    } else {
        match sp_read_u32(s, p) {
            Err(e) => Err(e),
            Ok((v, q)) => match sp_read_u32s(s, q, (n - 1) as nat) {
                Err(e) => Err(e),
                Ok((vs, r)) => Ok((seq![v] + vs, r)),
            },
        }
    }
}

/// `n` big-endian `i16` values at `p`.
pub open spec fn sp_read_i16s(s: Seq<u8>, p: int, n: nat) -> Result<(Seq<i16>, int), Error>
    decreases n,
{
    if n == 0 {
        Ok((Seq::empty(), p))
    } else {
        match sp_read_i16(s, p) {
            Err(e) => Err(e),
            Ok((v, q)) => match sp_read_i16s(s, q, (n - 1) as nat) {
                Err(e) => Err(e),
                Ok((vs, r)) => Ok((seq![v] + vs, r)),
            },
        }
    }
}

/// One field of a RowDescription at `p`: name, table oid, column number,
/// type oid, type size, type modifier, format.
pub open spec fn sp_read_field(s: Seq<u8>, p: int) -> Result<(FieldView, int), Error> {
    match sp_read_str(s, p) {
        Err(e) => Err(e),
        Ok((name, p1)) => match sp_read_u32(s, p1) {
            Err(e) => Err(e),
            Ok((table_oid, p2)) => match sp_read_i16(s, p2) {
                Err(e) => Err(e),
                Ok((table_col, p3)) => match sp_read_u32(s, p3) {
                    Err(e) => Err(e),
                    Ok((type_oid, p4)) => match sp_read_i16(s, p4) {
                        Err(e) => Err(e),
                        Ok((type_size, p5)) => match sp_read_i32(s, p5) {
                            Err(e) => Err(e),
                            Ok((type_mod, p6)) => match sp_read_i16(s, p6) {
                                Err(e) => Err(e),
                                Ok((format, p7)) => Ok(
                                    (
                                        FieldView {
                                            name,
                                            table_oid,
                                            table_col,
                                            type_oid,
                                            type_mod,
                                            type_size,
                                            format,
                                        },
                                        p7,
                                    ),
                                ),
                            },
                        },
                    },
                },
            },
        },
    }
}

/// `n` RowDescription fields at `p`.
pub open spec fn sp_read_fields(s: Seq<u8>, p: int, n: nat) -> Result<(Seq<FieldView>, int), Error>
    decreases n,
{
    if n == 0 {
        Ok((Seq::empty(), p))
    } else {
        match sp_read_field(s, p) {
            Err(e) => Err(e),
            Ok((v, q)) => match sp_read_fields(s, q, (n - 1) as nat) {
                Err(e) => Err(e),
                Ok((vs, r)) => Ok((seq![v] + vs, r)),
            },
        }
    }
}

pub proof fn lemma_read_str_advances(s: Seq<u8>, p: int)
    ensures
        sp_read_str(s, p) matches Ok((_, q)) ==> p < q <= s.len(),
{
    if 0 <= p <= s.len() {
        lemma_first_zero_bounds(s, p);
    }
}

/// SASL mechanism names at `p`, up to an empty name.
pub open spec fn sp_read_mechs(s: Seq<u8>, p: int) -> Result<(Seq<Seq<u8>>, int), Error>
    decreases s.len() - p,
{
    match sp_read_str(s, p) {
        Err(e) => Err(e),
        Ok((m, q)) => if m.len() == 0 {
            Ok((Seq::empty(), q))
        } else {
            proof {
                lemma_read_str_advances(s, p);
            }
            match sp_read_mechs(s, q) {
                Err(e) => Err(e),
                Ok((ms, r)) => Ok((seq![m] + ms, r)),
            }
        },
    }
}

/// Fields of an ErrorResponse or NoticeResponse at `p`: code and value
/// pairs up to a zero code.
pub open spec fn sp_read_error_fields(s: Seq<u8>, p: int) -> Result<(Seq<(u8, Seq<u8>)>, int), Error>
    decreases s.len() - p,
{
    match sp_read_u8(s, p) {
        Err(e) => Err(e),
        Ok((key, q)) => if key == 0 {
            Ok((Seq::empty(), q))
        } else {
            match sp_read_str(s, q) {
                Err(e) => Err(e),
                Ok((v, r)) => {
                    proof {
                        lemma_read_str_advances(s, q);
                    }
                    match sp_read_error_fields(s, r) {
                        Err(e) => Err(e),
                        Ok((fs, t)) => Ok((seq![(key, v)] + fs, t)),
                    }
                },
            }
        },
    }
}

/// A COPY format at `p`: the overall format and the count-prefixed column
/// formats.
pub open spec fn sp_read_copy_fmt(s: Seq<u8>, p: int) -> Result<(CopyFmtView, int), Error> {
    match sp_read_u8(s, p) {
        Err(e) => Err(e),
        Ok((format, q)) => match sp_read_u16(s, q) {
            Err(e) => Err(e),
            Ok((n, r)) => match sp_read_i16s(s, r, n as nat) {
                Err(e) => Err(e),
                Ok((column_formats, t)) => Ok((CopyFmtView { format, column_formats }, t)),
            },
        },
    }
}

fn read_oids(s: &[u8], p: usize) -> (r: Result<(Vec<Oid>, usize), Error>)
    ensures
        match r {
            Ok((v, q)) => (match sp_read_u16(s@, p as int) {
                Ok((n, p1)) => sp_read_u32s(s@, p1, n as nat),
                Err(e) => Err(e),
            }) == Ok::<(Seq<u32>, int), Error>((v@, q as int)),
            Err(e) => (match sp_read_u16(s@, p as int) {
                Ok((n, p1)) => sp_read_u32s(s@, p1, n as nat),
                Err(e) => Err(e),
            }) == Err::<(Seq<u32>, int), Error>(e),
        },
{
    let (n, p1) = match read_u16(s, p) {
        Ok(x) => x,
        Err(e) => return Err(e),
    };
    let ghost total = sp_read_u32s(s@, p1 as int, n as nat);
    let mut items: Vec<Oid> = Vec::new();
    let mut q = p1;
    let mut k: u16 = 0;
    assert(items@ + Seq::<u32>::empty() =~= items@);
    while k < n
        invariant
            k <= n,
            sp_read_u16(s@, p as int) == Ok::<(u16, int), Error>((n, p1 as int)),
            total == sp_read_u32s(s@, p1 as int, n as nat),
            match sp_read_u32s(s@, q as int, (n - k) as nat) {
                Ok((vs, r)) => total == Ok::<(Seq<u32>, int), Error>((items@ + vs, r)),
                Err(e) => total == Err::<(Seq<u32>, int), Error>(e),
            },
        decreases n - k,
    {
        match read_u32(s, q) {
            Ok((v, q2)) => {
                proof {
                    let rest = sp_read_u32s(s@, q2 as int, (n - k - 1) as nat);
                    if let Ok((vs, r)) = rest {
                        assert(items@.push(v) + vs =~= items@ + (seq![v] + vs));
                    }
                }
                items.push(v);
                q = q2;
                k = k + 1;
            },
            Err(e) => {
                return Err(e);
            },
        }
    }
    assert(items@ + Seq::<u32>::empty() =~= items@);
    Ok((items, q))
}

fn read_formats(s: &[u8], p: usize) -> (r: Result<(Vec<i16>, usize), Error>)
    ensures
        match r {
            Ok((v, q)) => (match sp_read_u16(s@, p as int) {
                Ok((n, p1)) => sp_read_i16s(s@, p1, n as nat),
                Err(e) => Err(e),
            }) == Ok::<(Seq<i16>, int), Error>((v@, q as int)),
            Err(e) => (match sp_read_u16(s@, p as int) {
                Ok((n, p1)) => sp_read_i16s(s@, p1, n as nat),
                Err(e) => Err(e),
            }) == Err::<(Seq<i16>, int), Error>(e),
        },
{
    let (n, p1) = match read_u16(s, p) {
        Ok(x) => x,
        Err(e) => return Err(e),
    };
    let ghost total = sp_read_i16s(s@, p1 as int, n as nat);
    let mut items: Vec<i16> = Vec::new();
    let mut q = p1;
    let mut k: u16 = 0;
    assert(items@ + Seq::<i16>::empty() =~= items@);
    while k < n
        invariant
            k <= n,
            sp_read_u16(s@, p as int) == Ok::<(u16, int), Error>((n, p1 as int)),
            total == sp_read_i16s(s@, p1 as int, n as nat),
            match sp_read_i16s(s@, q as int, (n - k) as nat) {
                Ok((vs, r)) => total == Ok::<(Seq<i16>, int), Error>((items@ + vs, r)),
                Err(e) => total == Err::<(Seq<i16>, int), Error>(e),
            },
        decreases n - k,
    {
        match read_i16(s, q) {
            Ok((v, q2)) => {
                proof {
                    let rest = sp_read_i16s(s@, q2 as int, (n - k - 1) as nat);
                    if let Ok((vs, r)) = rest {
                        assert(items@.push(v) + vs =~= items@ + (seq![v] + vs));
                    }
                }
                items.push(v);
                q = q2;
                k = k + 1;
            },
            Err(e) => {
                return Err(e);
            },
        }
    }
    assert(items@ + Seq::<i16>::empty() =~= items@);
    Ok((items, q))
}

fn read_field<'a>(s: &'a [u8], p: usize) -> (r: Result<(Field<'a>, usize), Error>)
    ensures
        match r {
            Ok((v, q)) => sp_read_field(s@, p as int) == Ok::<(FieldView, int), Error>(
                (v@, q as int),
            ),
            Err(e) => sp_read_field(s@, p as int) == Err::<(FieldView, int), Error>(e),
        },
{
    let (name, p1) = match read_str(s, p) {
        Ok(x) => x,
        Err(e) => return Err(e),
    };
    let (table_oid, p2) = match read_u32(s, p1) {
        Ok(x) => x,
        Err(e) => return Err(e),
    };
    let (table_col, p3) = match read_i16(s, p2) {
        Ok(x) => x,
        Err(e) => return Err(e),
    };
    let (type_oid, p4) = match read_u32(s, p3) {
        Ok(x) => x,
        Err(e) => return Err(e),
    };
    let (type_size, p5) = match read_i16(s, p4) {
        Ok(x) => x,
        Err(e) => return Err(e),
    };
    let (type_mod, p6) = match read_i32(s, p5) {
        Ok(x) => x,
        Err(e) => return Err(e),
    };
    let (format, p7) = match read_i16(s, p6) {
        Ok(x) => x,
        Err(e) => return Err(e),
    };
    Ok((Field { name, table_oid, table_col, type_oid, type_mod, type_size, format }, p7))
}

fn read_fields<'a>(s: &'a [u8], p: usize) -> (r: Result<(Vec<Field<'a>>, usize), Error>)
    ensures
        match r {
            Ok((v, q)) => (match sp_read_u16(s@, p as int) {
                Ok((n, p1)) => sp_read_fields(s@, p1, n as nat),
                Err(e) => Err(e),
            }) == Ok::<(Seq<FieldView>, int), Error>((fields_view(v@), q as int)),
            Err(e) => (match sp_read_u16(s@, p as int) {
                Ok((n, p1)) => sp_read_fields(s@, p1, n as nat),
                Err(e) => Err(e),
            }) == Err::<(Seq<FieldView>, int), Error>(e),
        },
{
    let (n, p1) = match read_u16(s, p) {
        Ok(x) => x,
        Err(e) => return Err(e),
    };
    let ghost total = sp_read_fields(s@, p1 as int, n as nat);
    let mut items: Vec<Field<'a>> = Vec::new();
    let mut q = p1;
    let mut k: u16 = 0;
    assert(fields_view(items@) + Seq::<FieldView>::empty() =~= fields_view(items@));
    while k < n
        invariant
            k <= n,
            sp_read_u16(s@, p as int) == Ok::<(u16, int), Error>((n, p1 as int)),
            total == sp_read_fields(s@, p1 as int, n as nat),
            match sp_read_fields(s@, q as int, (n - k) as nat) {
                Ok((vs, r)) => total == Ok::<(Seq<FieldView>, int), Error>(
                    (fields_view(items@) + vs, r),
                ),
                Err(e) => total == Err::<(Seq<FieldView>, int), Error>(e),
            },
        decreases n - k,
    {
        match read_field(s, q) {
            Ok((v, q2)) => {
                proof {
                    let rest = sp_read_fields(s@, q2 as int, (n - k - 1) as nat);
                    assert(fields_view(items@.push(v)) =~= fields_view(items@).push(v@));
                    if let Ok((vs, r)) = rest {
                        assert(fields_view(items@).push(v@) + vs =~= fields_view(items@) + (seq![v@]
                            + vs));
                    }
                }
                items.push(v);
                q = q2;
                k = k + 1;
            },
            Err(e) => {
                return Err(e);
            },
        }
    }
    assert(fields_view(items@) + Seq::<FieldView>::empty() =~= fields_view(items@));
    Ok((items, q))
}

fn read_sasl_mechanisms<'a>(s: &'a [u8], p: usize) -> (r: Result<(Vec<&'a [u8]>, usize), Error>)
    ensures
        match r {
            Ok((v, q)) => sp_read_mechs(s@, p as int) == Ok::<(Seq<Seq<u8>>, int), Error>(
                (slices_view(v@), q as int),
            ),
            Err(e) => sp_read_mechs(s@, p as int) == Err::<(Seq<Seq<u8>>, int), Error>(e),
        },
{
    let ghost total = sp_read_mechs(s@, p as int);
    let mut items: Vec<&'a [u8]> = Vec::new();
    let mut q = p;
    assert(slices_view(items@) + Seq::<Seq<u8>>::empty() =~= slices_view(items@));
    loop
        invariant
            total == sp_read_mechs(s@, p as int),
            match sp_read_mechs(s@, q as int) {
                Ok((vs, r)) => total == Ok::<(Seq<Seq<u8>>, int), Error>(
                    (slices_view(items@) + vs, r),
                ),
                Err(e) => total == Err::<(Seq<Seq<u8>>, int), Error>(e),
            },
        decreases s.len() - q,
    {
        proof {
            lemma_read_str_advances(s@, q as int);
        }
        match read_str(s, q) {
            Ok((m, q2)) => {
                if m.len() == 0 {
                    assert(slices_view(items@) + Seq::<Seq<u8>>::empty() =~= slices_view(items@));
                    return Ok((items, q2));
                }
                proof {
                    let rest = sp_read_mechs(s@, q2 as int);
                    assert(slices_view(items@.push(m)) =~= slices_view(items@).push(m@));
                    if let Ok((vs, r)) = rest {
                        assert(slices_view(items@).push(m@) + vs =~= slices_view(items@) + (seq![m@]
                            + vs));
                    }
                }
                items.push(m);
                q = q2;
            },
            Err(e) => {
                return Err(e);
            },
        }
    }
}

fn read_error_fields(s: &[u8], p: usize) -> (r: Result<(DbError, usize), Error>)
    ensures
        match r {
            Ok((v, q)) => sp_read_error_fields(s@, p as int) == Ok::<
                (Seq<(u8, Seq<u8>)>, int),
                Error,
            >((v@, q as int)),
            Err(e) => sp_read_error_fields(s@, p as int) == Err::<(Seq<(u8, Seq<u8>)>, int), Error>(
                e,
            ),
        },
{
    let ghost total = sp_read_error_fields(s@, p as int);
    let mut fields: Vec<(DbErrorField, Vec<u8>)> = Vec::new();
    let mut q = p;
    assert(error_fields_view(fields@) + Seq::<(u8, Seq<u8>)>::empty() =~= error_fields_view(
        fields@,
    ));
    loop
        invariant
            total == sp_read_error_fields(s@, p as int),
            match sp_read_error_fields(s@, q as int) {
                Ok((vs, r)) => total == Ok::<(Seq<(u8, Seq<u8>)>, int), Error>(
                    (error_fields_view(fields@) + vs, r),
                ),
                Err(e) => total == Err::<(Seq<(u8, Seq<u8>)>, int), Error>(e),
            },
        decreases s.len() - q,
    {
        let (key, q1) = match read_u8(s, q) {
            Ok(x) => x,
            Err(e) => return Err(e),
        };
        if key == 0 {
            assert(error_fields_view(fields@) + Seq::<(u8, Seq<u8>)>::empty() =~= error_fields_view(
                fields@,
            ));
            return Ok((DbError { fields }, q1));
        }
        proof {
            lemma_read_str_advances(s@, q1 as int);
        }
        let (val, q2) = match read_str(s, q1) {
            Ok(x) => x,
            Err(e) => return Err(e),
        };
        let v = vstd::slice::slice_to_vec(val);
        proof {
            let rest = sp_read_error_fields(s@, q2 as int);
            assert(error_fields_view(fields@.push((DbErrorField(key), v))) =~= error_fields_view(
                fields@,
            ).push((key, val@)));
            if let Ok((vs, r)) = rest {
                assert(error_fields_view(fields@).push((key, val@)) + vs =~= error_fields_view(
                    fields@,
                ) + (seq![(key, val@)] + vs));
            }
        }
        fields.push((DbErrorField(key), v));
        q = q2;
    }
}

fn read_copy_fmt(s: &[u8], p: usize) -> (r: Result<(CopyFmt, usize), Error>)
    ensures
        match r {
            Ok((v, q)) => sp_read_copy_fmt(s@, p as int) == Ok::<(CopyFmtView, int), Error>(
                (v@, q as int),
            ),
            Err(e) => sp_read_copy_fmt(s@, p as int) == Err::<(CopyFmtView, int), Error>(e),
        },
{
    let (format, q) = match read_u8(s, p) {
        Ok(x) => x,
        Err(e) => return Err(e),
    };
    let (column_formats, r) = match read_formats(s, q) {
        Ok(x) => x,
        Err(e) => return Err(e),
    };
    Ok((CopyFmt { format, column_formats }, r))
}

/// Checks `n` column values at `p`; returns where they end.
fn skip_datums(s: &[u8], p: usize, n: u16) -> (r: Result<usize, Error>)
    ensures
        match r {
            Ok(q) => sp_skip_datums(s@, p as int, n as nat) == Ok::<int, Error>(q as int),
            Err(e) => sp_skip_datums(s@, p as int, n as nat) == Err::<int, Error>(e),
        },
{
    let ghost total = sp_skip_datums(s@, p as int, n as nat);
    let mut q = p;
    let mut k: u16 = 0;
    while k < n
        invariant
            k <= n,
            total == sp_skip_datums(s@, p as int, n as nat),
            total == sp_skip_datums(s@, q as int, (n - k) as nat),
        decreases n - k,
    {
        match read_datum(s, q) {
            Ok((_, q2)) => {
                q = q2;
                k = k + 1;
            },
            Err(e) => {
                return Err(e);
            },
        }
    }
    Ok(q)
}

// ---------------------------------------------------------------------------
// Messages
// ---------------------------------------------------------------------------

/// The tag reported for an empty query.
pub open spec fn empty_query_tag() -> Seq<u8> {
    seq![0x45u8, 0x4d, 0x50, 0x54, 0x59, 0x20, 0x51, 0x55, 0x45, 0x52, 0x59]  // EMPTY QUERY

}

/// The tag reported for a suspended portal.
pub open spec fn portal_suspended_tag() -> Seq<u8> {
    seq![0x50u8, 0x4f, 0x52, 0x54, 0x41, 0x4c, 0x20, 0x53, 0x55, 0x53, 0x50, 0x45, 0x4e, 0x44, 0x45, 0x44]  // PORTAL SUSPENDED

}

/// The body of an authentication request (type `R`): an `i32` subtype and
/// its data. Subtypes other than those listed are unknown messages.
pub open spec fn sp_decode_auth(b: Seq<u8>) -> Result<(Msg, int), Error> {
    match sp_read_i32(b, 0) {
        Err(e) => Err(e),
        Ok((tag, p)) => if tag == 0 {
            Ok((Msg::AuthenticationOk, p))
        } else if tag == 2 {
            Ok((Msg::AuthenticationKerberosV5, p))
        } else if tag == 3 {
            Ok((Msg::AuthenticationCleartextPassword, p))
        } else if tag == 5 {
            match sp_read_bytes(b, p, 4) {
                Err(e) => Err(e),
                Ok((salt, q)) => Ok((Msg::AuthenticationMD5Password { salt }, q)),
            }
        } else if tag == 6 {
            Ok((Msg::AuthenticationSCMCredential, p))
        } else if tag == 7 {
            Ok((Msg::AuthenticationGSS, p))
        } else if tag == 8 {
            Ok((Msg::AuthenticationGSSContinue(b.subrange(p, b.len() as int)), b.len() as int))
        } else if tag == 9 {
            Ok((Msg::AuthenticationSSPI, p))
        } else if tag == 10 {
            match sp_read_mechs(b, p) {
                Err(e) => Err(e),
                Ok((ms, q)) => Ok((Msg::AuthenticationSASL(ms), q)),
            }
        } else if tag == 11 {
            Ok((Msg::AuthenticationSASLContinue(b.subrange(p, b.len() as int)), b.len() as int))
        } else if tag == 12 {
            Ok((Msg::AuthenticationSASLFinal(b.subrange(p, b.len() as int)), b.len() as int))
        } else {
            Err(Error::UnknownMessage)
        },
    }
}

/// The message of type `ident` read from the front of `b`, with the
/// position where it ends.
pub open spec fn sp_decode_body(ident: u8, b: Seq<u8>) -> Result<(Msg, int), Error> {
    if ident == 0x44 {
        // D
        match sp_read_u16(b, 0) {
            Err(e) => Err(e),
            Ok((n, p)) => match sp_skip_datums(b, p, n as nat) {
                Err(e) => Err(e),
                Ok(q) => Ok((Msg::DataRow(sp_datums(b, p, n as nat)), q)),
            },
        }
    } else if ident == 0x64 {
        // d
        Ok((Msg::CopyData(b), b.len() as int))
    } else if ident == 0x52 {
        // R
        sp_decode_auth(b)
    } else if ident == 0x45 || ident == 0x4e {
        // E, N
        match sp_read_error_fields(b, 0) {
            Err(e) => Err(e),
            Ok((fs, q)) => Ok(
                (if ident == 0x45 {
                    Msg::ErrorResponse(fs)
                } else {
                    Msg::NoticeResponse(fs)
                }, q),
            ),
        }
    } else if ident == 0x53 {
        // S
        match sp_read_str(b, 0) {
            Err(e) => Err(e),
            Ok((k, p)) => match sp_read_str(b, p) {
                Err(e) => Err(e),
                Ok((v, q)) => Ok((Msg::ParameterStatus(k, v), q)),
            },
        }
    } else if ident == 0x31 {
        Ok((Msg::ParseComplete, 0))
    } else if ident == 0x32 {
        Ok((Msg::BindComplete, 0))
    } else if ident == 0x74 {
        // t
        match sp_read_u16(b, 0) {
            Err(e) => Err(e),
            Ok((n, p)) => match sp_read_u32s(b, p, n as nat) {
                Err(e) => Err(e),
                Ok((oids, q)) => Ok((Msg::ParameterDescription(oids), q)),
            },
        }
    } else if ident == 0x54 {
        // T
        match sp_read_u16(b, 0) {
            Err(e) => Err(e),
            Ok((n, p)) => match sp_read_fields(b, p, n as nat) {
                Err(e) => Err(e),
                Ok((fs, q)) => Ok((Msg::RowDescription(fs), q)),
            },
        }
    } else if ident == 0x6e {
        Ok((Msg::NoData, 0))
    } else if ident == 0x43 {
        // C
        match sp_read_str(b, 0) {
            Err(e) => Err(e),
            Ok((tag, q)) => Ok((Msg::CommandComplete { tag }, q)),
        }
    } else if ident == 0x49 {
        Ok((Msg::EmptyQueryResponse { tag: empty_query_tag() }, 0))
    } else if ident == 0x73 {
        Ok((Msg::PortalSuspended { tag: portal_suspended_tag() }, 0))
    } else if ident == 0x33 {
        Ok((Msg::CloseComplete, 0))
    } else if ident == 0x4b {
        // K
        match sp_read_i32(b, 0) {
            Err(e) => Err(e),
            Ok((pid, p)) => Ok(
                (Msg::BackendKeyData { pid, secret_key: b.subrange(p, b.len() as int) }, b.len() as int),
            ),
        }
    } else if ident == 0x5a {
        // Z
        match sp_read_u8(b, 0) {
            Err(e) => Err(e),
            Ok((txn_status, q)) => Ok((Msg::ReadyForQuery { txn_status }, q)),
        }
    } else if ident == 0x41 {
        // A
        match sp_read_i32(b, 0) {
            Err(e) => Err(e),
            Ok((pid, p)) => match sp_read_str(b, p) {
                Err(e) => Err(e),
                Ok((channel, q)) => match sp_read_str(b, q) {
                    Err(e) => Err(e),
                    Ok((payload, r)) => Ok((Msg::NotificationResponse { pid, channel, payload }, r)),
                },
            },
        }
    } else if ident == 0x47 || ident == 0x48 || ident == 0x57 {
        // G, H, W
        match sp_read_copy_fmt(b, 0) {
            Err(e) => Err(e),
            Ok((f, q)) => Ok(
                (if ident == 0x47 {
                    Msg::CopyInResponse(f)
                } else if ident == 0x48 {
                    Msg::CopyOutResponse(f)
                } else {
                    Msg::CopyBothResponse(f)
                }, q),
            ),
        }
    } else if ident == 0x63 {
        Ok((Msg::CopyDone, 0))
    } else {
        Err(Error::UnknownMessage)
    }
}

/// The message of type `ident` whose body is `body`: the body must be read
/// to its end.
pub open spec fn spec_decode_message(ident: u8, body: Seq<u8>) -> Result<Msg, Error> {
    match sp_decode_body(ident, body) {
        Err(e) => Err(e),
        Ok((m, q)) => if q == body.len() {
            Ok(m)
        } else {
            Err(Error::UnexpectedTrailingData)
        },
    }
}

/// The largest message length accepted.
pub open spec fn max_message_len() -> int {
    0x2000000
}

/// The first message of a receive buffer, with the number of bytes it
/// takes; `None` while the buffer does not yet hold a whole message.
pub open spec fn spec_parse_message(buf: Seq<u8>) -> Result<Option<(int, Msg)>, Error> {
    if buf.len() < 5 {
        Ok(None)
    } else {
        let msg_len = signed32(u32_of(buf[1], buf[2], buf[3], buf[4]));
        if msg_len < 4 {
            Err(Error::InvalidMessageLength)
        } else if msg_len > max_message_len() {
            Err(Error::MessageTooBig)
        } else if buf.len() <= msg_len {
            Ok(None)
        } else {
            match spec_decode_message(buf[0], buf.subrange(5, msg_len + 1)) {
                Err(e) => Err(e),
                Ok(m) => Ok(Some((msg_len + 1, m))),
            }
        }
    }
}

fn empty_query_tag_bytes() -> (r: &'static [u8])
    ensures
        r@ == empty_query_tag(),
{
    let r: &'static [u8] = &[0x45u8, 0x4d, 0x50, 0x54, 0x59, 0x20, 0x51, 0x55, 0x45, 0x52, 0x59];
    assert(r@ =~= empty_query_tag());
    r
}

fn portal_suspended_tag_bytes() -> (r: &'static [u8])
    ensures
        r@ == portal_suspended_tag(),
{
    let r: &'static [u8] = &[
        0x50u8,
        0x4f,
        0x52,
        0x54,
        0x41,
        0x4c,
        0x20,
        0x53,
        0x55,
        0x53,
        0x50,
        0x45,
        0x4e,
        0x44,
        0x45,
        0x44,
    ];
    assert(r@ =~= portal_suspended_tag());
    r
}

fn decode_auth<'a>(b: &'a [u8]) -> (r: Result<(BackendMessage<'a>, usize), Error>)
    ensures
        match r {
            Ok((m, q)) => sp_decode_auth(b@) == Ok::<(Msg, int), Error>((m@, q as int)),
            Err(e) => sp_decode_auth(b@) == Err::<(Msg, int), Error>(e),
        },
{
    let (tag, p) = match read_i32(b, 0) {
        Ok(x) => x,
        Err(e) => return Err(e),
    };
    if tag == 0 {
        Ok((BackendMessage::AuthenticationOk, p))
    } else if tag == 2 {
        Ok((BackendMessage::AuthenticationKerberosV5, p))
    } else if tag == 3 {
        Ok((BackendMessage::AuthenticationCleartextPassword, p))
    } else if tag == 5 {
        match read_array4(b, p) {
            Ok((salt, q)) => Ok((BackendMessage::AuthenticationMD5Password { salt }, q)),
            Err(e) => Err(e),
        }
    } else if tag == 6 {
        Ok((BackendMessage::AuthenticationSCMCredential, p))
    } else if tag == 7 {
        Ok((BackendMessage::AuthenticationGSS, p))
    } else if tag == 8 {
        let (d, q) = read_all(b, p);
        Ok((BackendMessage::AuthenticationGSSContinue(d), q))
    } else if tag == 9 {
        Ok((BackendMessage::AuthenticationSSPI, p))
    } else if tag == 10 {
        match read_sasl_mechanisms(b, p) {
            Ok((ms, q)) => Ok((BackendMessage::AuthenticationSASL(ms), q)),
            Err(e) => Err(e),
        }
    } else if tag == 11 {
        let (d, q) = read_all(b, p);
        Ok((BackendMessage::AuthenticationSASLContinue(d), q))
    } else if tag == 12 {
        let (d, q) = read_all(b, p);
        Ok((BackendMessage::AuthenticationSASLFinal(d), q))
    } else {
        Err(Error::UnknownMessage)
    }
}

fn decode_row<'a>(b: &'a [u8]) -> (r: Result<(BackendMessage<'a>, usize), Error>)
    ensures
        match r {
            Ok((m, q)) => sp_decode_body(0x44, b@) == Ok::<(Msg, int), Error>((m@, q as int)),
            Err(e) => sp_decode_body(0x44, b@) == Err::<(Msg, int), Error>(e),
        },
{
    let (n, p) = match read_u16(b, 0) {
        Ok(x) => x,
        Err(e) => return Err(e),
    };
    match skip_datums(b, p, n) {
        Ok(q) => {
            proof {
                lemma_skip_datums_shift_at(b@, p as int, 0, n as nat);
            }
            let row = Row { ncols: n as usize, buf: &b[p..b.len()] };
            assert(row.values() == sp_datums(b@, p as int, n as nat));
            Ok((BackendMessage::DataRow(row), q))
        },
        Err(e) => Err(e),
    }
}

/// The position where a body read up to `q` must end.
fn check_trailing<'a>(b: &'a [u8], r: Result<(BackendMessage<'a>, usize), Error>) -> (out: Result<
    BackendMessage<'a>,
    Error,
>)
    ensures
        match r {
            Ok((m, q)) => if q == b.len() {
                out matches Ok(m2) && m2@ == m@
            } else {
                out == Err::<BackendMessage<'a>, Error>(Error::UnexpectedTrailingData)
            },
            Err(e) => out == Err::<BackendMessage<'a>, Error>(e),
        },
{
    match r {
        Ok((m, q)) => if q == b.len() {
            Ok(m)
        } else {
            Err(Error::UnexpectedTrailingData)
        },
        Err(e) => Err(e),
    }
}

/// Decodes the body of a message of type `ident`. Fails when the body is too
/// short, holds bytes after the message, has a bad column length, or the
/// type is unknown.
#[verifier::spinoff_prover]
#[verifier::rlimit(60)]
pub fn decode_message<'a>(ident: u8, body: &'a [u8]) -> (r: Result<BackendMessage<'a>, Error>)
    ensures
        match r {
            Ok(m) => spec_decode_message(ident, body@) == Ok::<Msg, Error>(m@),
            Err(e) => spec_decode_message(ident, body@) == Err::<Msg, Error>(e),
        },
{
    let b = body;
    let res: Result<(BackendMessage<'a>, usize), Error> = if ident == 0x44 {
        decode_row(b)
    } else if ident == 0x64 {
        let (d, q) = read_all(b, 0);
        assert(d@ =~= b@);
        Ok((BackendMessage::CopyData(d), q))
    } else if ident == 0x52 {
        decode_auth(b)
    } else if ident == 0x45 || ident == 0x4e {
        match read_error_fields(b, 0) {
            Ok((fs, q)) => if ident == 0x45 {
                Ok((BackendMessage::ErrorResponse(fs), q))
            } else {
                Ok((BackendMessage::NoticeResponse(fs), q))
            },
            Err(e) => Err(e),
        }
    } else if ident == 0x53 {
        match read_str(b, 0) {
            Ok((k, p)) => match read_str(b, p) {
                Ok((v, q)) => Ok((BackendMessage::ParameterStatus(k, v), q)),
                Err(e) => Err(e),
            },
            Err(e) => Err(e),
        }
    } else if ident == 0x31 {
        Ok((BackendMessage::ParseComplete, 0))
    } else if ident == 0x32 {
        Ok((BackendMessage::BindComplete, 0))
    } else if ident == 0x74 {
        match read_oids(b, 0) {
            Ok((oids, q)) => Ok((BackendMessage::ParameterDescription(oids), q)),
            Err(e) => Err(e),
        }
    } else if ident == 0x54 {
        match read_fields(b, 0) {
            Ok((fs, q)) => Ok((BackendMessage::RowDescription(fs), q)),
            Err(e) => Err(e),
        }
    } else if ident == 0x6e {
        Ok((BackendMessage::NoData, 0))
    } else if ident == 0x43 {
        match read_str(b, 0) {
            Ok((tag, q)) => Ok((BackendMessage::CommandComplete { tag }, q)),
            Err(e) => Err(e),
        }
    } else if ident == 0x49 {
        Ok((BackendMessage::EmptyQueryResponse { tag: empty_query_tag_bytes() }, 0))
    } else if ident == 0x73 {
        Ok((BackendMessage::PortalSuspended { tag: portal_suspended_tag_bytes() }, 0))
    } else if ident == 0x33 {
        Ok((BackendMessage::CloseComplete, 0))
    } else if ident == 0x4b {
        match read_i32(b, 0) {
            Ok((pid, p)) => {
                let (secret_key, q) = read_all(b, p);
                Ok((BackendMessage::BackendKeyData { pid, secret_key }, q))
            },
            Err(e) => Err(e),
        }
    } else if ident == 0x5a {
        match read_u8(b, 0) {
            Ok((txn_status, q)) => Ok((BackendMessage::ReadyForQuery { txn_status }, q)),
            Err(e) => Err(e),
        }
    } else if ident == 0x41 {
        match read_i32(b, 0) {
            Ok((pid, p)) => match read_str(b, p) {
                Ok((channel, q)) => match read_str(b, q) {
                    Ok((payload, r)) => Ok(
                        (BackendMessage::NotificationResponse { pid, channel, payload }, r),
                    ),
                    Err(e) => Err(e),
                },
                Err(e) => Err(e),
            },
            Err(e) => Err(e),
        }
    } else if ident == 0x47 || ident == 0x48 || ident == 0x57 {
        match read_copy_fmt(b, 0) {
            Ok((f, q)) => if ident == 0x47 {
                Ok((BackendMessage::CopyInResponse(f), q))
            } else if ident == 0x48 {
                Ok((BackendMessage::CopyOutResponse(f), q))
            } else {
                Ok((BackendMessage::CopyBothResponse(f), q))
            },
            Err(e) => Err(e),
        }
    } else if ident == 0x63 {
        Ok((BackendMessage::CopyDone, 0))
    } else {
        Err(Error::UnknownMessage)
    };
    assert(match res {
        Ok((m, q)) => sp_decode_body(ident, b@) == Ok::<(Msg, int), Error>((m@, q as int)),
        Err(e) => sp_decode_body(ident, b@) == Err::<(Msg, int), Error>(e),
    });
    check_trailing(b, res)
}

/// Cuts the first message off `buf`: returns the number of bytes it takes
/// and the message, or `None` while `buf` does not yet hold a whole message.
/// Fails when the length field is below 4 or above 32 MiB, or when the
/// message cannot be decoded.
pub fn parse_message<'a>(buf: &'a [u8]) -> (r: Result<Option<(usize, BackendMessage<'a>)>, Error>)
    ensures
        match r {
            Ok(None) => spec_parse_message(buf@) == Ok::<Option<(int, Msg)>, Error>(None),
            Ok(Some((n, m))) => spec_parse_message(buf@) == Ok::<Option<(int, Msg)>, Error>(
                Some((n as int, m@)),
            ),
            Err(e) => spec_parse_message(buf@) == Err::<Option<(int, Msg)>, Error>(e),
        },
{
    if buf.len() < 5 {
        return Ok(None);
    }
    let (msg_len, _) = match read_i32(buf, 1) {
        Ok(x) => x,
        Err(e) => return Err(e),
    };
    if msg_len < 4 {
        return Err(Error::InvalidMessageLength);
    }
    if msg_len > 0x2000000 {
        return Err(Error::MessageTooBig);
    }
    let msg_len = msg_len as usize;
    if buf.len() <= msg_len {
        return Ok(None);
    }
    let ident = buf[0];
    let body = &buf[5..msg_len + 1];
    match decode_message(ident, body) {
        Ok(m) => Ok(Some((msg_len + 1, m))),
        Err(e) => Err(e),
    }
}

// ---------------------------------------------------------------------------
// Error fields
// ---------------------------------------------------------------------------

/// The value of the first field with code `key`.
pub open spec fn first_value(fields: Seq<(u8, Seq<u8>)>, key: u8) -> Option<Seq<u8>>
    decreases fields.len(),
{
    if fields.len() == 0 {
        None
    } else if fields[0].0 == key {
        Some(fields[0].1)
    } else {
        first_value(fields.drop_first(), key)
    }
}

/// The value of the SQLSTATE code field (`C`), or empty when there is none.
pub open spec fn error_code(fields: Seq<(u8, Seq<u8>)>) -> Seq<u8> {
    match first_value(fields, 0x43) {
        Some(v) => v,
        None => Seq::empty(),
    }
}

impl DbError {
    /// Keeps every field; the values are already owned.
    pub fn into_owned(self) -> (r: DbError)
        ensures
            r@ == self@,
    {
        self
    }

    /// The SQLSTATE code of the error, or empty when it has none.
    pub fn code(&self) -> (r: &[u8])
        ensures
            r@ == error_code(self@),
    {
        match self.get(0x43) {
            Some(v) => v,
            None => {
                let e: &[u8] = &[];
                assert(e@ =~= Seq::<u8>::empty());
                e
            },
        }
    }

    /// The value of the first field with code `key`.
    pub fn get(&self, key: u8) -> (r: Option<&[u8]>)
        ensures
            opt_view(r) == first_value(self@, key),
    {
        let mut k: usize = 0;
        assert(self@.skip(0) =~= self@);
        while k < self.fields.len()
            invariant
                k <= self.fields@.len(),
                first_value(self@, key) == first_value(self@.skip(k as int), key),
            decreases self.fields@.len() - k,
        {
            assert(self@.skip(k as int)[0] == self@[k as int]);
            if self.fields[k].0.0 == key {
                return Some(self.fields[k].1.as_slice());
            }
            assert(self@.skip(k as int).drop_first() =~= self@.skip(k + 1));
            k = k + 1;
        }
        None
    }
}

/// The name of an error field code, as written in JSON output; unknown codes
/// are named `field_` and the code in two hexadecimal digits.
pub open spec fn field_name(code: u8) -> Seq<u8> {
    if code == 0x53 {
        seq![0x73u8, 0x65, 0x76, 0x65, 0x72, 0x69, 0x74, 0x79]  // severity

    } else if code == 0x56 {
        seq![0x73u8, 0x65, 0x76, 0x65, 0x72, 0x69, 0x74, 0x79, 0x5f, 0x65, 0x6e]  // severity_en

    } else if code == 0x43 {
        seq![0x63u8, 0x6f, 0x64, 0x65]  // code

    } else if code == 0x4d {
        seq![0x6du8, 0x65, 0x73, 0x73, 0x61, 0x67, 0x65]  // message

    } else if code == 0x44 {
        seq![0x64u8, 0x65, 0x74, 0x61, 0x69, 0x6c]  // detail

    } else if code == 0x48 {
        seq![0x68u8, 0x69, 0x6e, 0x74]  // hint

    } else if code == 0x50 {
        seq![0x70u8, 0x6f, 0x73, 0x69, 0x74, 0x69, 0x6f, 0x6e]  // position

    } else if code == 0x70 {
        seq![0x69u8, 0x6e, 0x74, 0x65, 0x72, 0x6e, 0x61, 0x6c, 0x5f, 0x70, 0x6f, 0x73, 0x69, 0x74, 0x69, 0x6f, 0x6e]  // internal_position

    } else if code == 0x71 {
        seq![0x69u8, 0x6e, 0x74, 0x65, 0x72, 0x6e, 0x61, 0x6c, 0x5f, 0x71, 0x75, 0x65, 0x72, 0x79]  // internal_query

    } else if code == 0x57 {
        seq![0x63u8, 0x6f, 0x6e, 0x74, 0x65, 0x78, 0x74]  // context

    } else if code == 0x46 {
        seq![0x66u8, 0x69, 0x6c, 0x65]  // file

    } else if code == 0x4c {
        seq![0x6cu8, 0x69, 0x6e, 0x65]  // line

    } else if code == 0x52 {
        seq![0x72u8, 0x6f, 0x75, 0x74, 0x69, 0x6e, 0x65]  // routine

    } else if code == 0x73 {
        seq![0x73u8, 0x63, 0x68, 0x65, 0x6d, 0x61, 0x5f, 0x6e, 0x61, 0x6d, 0x65]  // schema_name

    } else if code == 0x74 {
        seq![0x74u8, 0x61, 0x62, 0x6c, 0x65, 0x5f, 0x6e, 0x61, 0x6d, 0x65]  // table_name

    } else if code == 0x63 {
        seq![0x63u8, 0x6f, 0x6c, 0x75, 0x6d, 0x6e, 0x5f, 0x6e, 0x61, 0x6d, 0x65]  // column_name

    } else if code == 0x64 {
        seq![0x64u8, 0x61, 0x74, 0x61, 0x74, 0x79, 0x70, 0x65, 0x5f, 0x6e, 0x61, 0x6d, 0x65]  // datatype_name

    } else if code == 0x6e {
        seq![0x63u8, 0x6f, 0x6e, 0x73, 0x74, 0x72, 0x61, 0x69, 0x6e, 0x74, 0x5f, 0x6e, 0x61, 0x6d, 0x65]  // constraint_name

    } else {
        seq![0x66u8, 0x69, 0x65, 0x6c, 0x64, 0x5f, hex_digit(code / 16), hex_digit(code % 16)]  // field_XX

    }
}

/// Copies the bytes of an array into a new vector.
fn bytes_of<const N: usize>(a: [u8; N]) -> (r: Vec<u8>)
    ensures
        r@ == a@,
{
    vstd::slice::slice_to_vec(a.as_slice())
}

impl DbErrorField {
    /// The name of the field, as written in JSON output.
    pub fn name(&self) -> (r: Vec<u8>)
        ensures
            r@ == field_name(self.0),
    {
        let c = self.0;
        let r = if c == 0x53 {
            bytes_of([0x73u8, 0x65, 0x76, 0x65, 0x72, 0x69, 0x74, 0x79])
        } else if c == 0x56 {
            bytes_of([0x73u8, 0x65, 0x76, 0x65, 0x72, 0x69, 0x74, 0x79, 0x5f, 0x65, 0x6e])
        } else if c == 0x43 {
            bytes_of([0x63u8, 0x6f, 0x64, 0x65])
        } else if c == 0x4d {
            bytes_of([0x6du8, 0x65, 0x73, 0x73, 0x61, 0x67, 0x65])
        } else if c == 0x44 {
            bytes_of([0x64u8, 0x65, 0x74, 0x61, 0x69, 0x6c])
        } else if c == 0x48 {
            bytes_of([0x68u8, 0x69, 0x6e, 0x74])
        } else if c == 0x50 {
            bytes_of([0x70u8, 0x6f, 0x73, 0x69, 0x74, 0x69, 0x6f, 0x6e])
        } else if c == 0x70 {
            bytes_of(
                [
                    0x69u8,
                    0x6e,
                    0x74,
                    0x65,
                    0x72,
                    0x6e,
                    0x61,
                    0x6c,
                    0x5f,
                    0x70,
                    0x6f,
                    0x73,
                    0x69,
                    0x74,
                    0x69,
                    0x6f,
                    0x6e,
                ],
            )
        } else if c == 0x71 {
            bytes_of(
                [0x69u8, 0x6e, 0x74, 0x65, 0x72, 0x6e, 0x61, 0x6c, 0x5f, 0x71, 0x75, 0x65, 0x72, 0x79],
            )
        } else if c == 0x57 {
            bytes_of([0x63u8, 0x6f, 0x6e, 0x74, 0x65, 0x78, 0x74])
        } else if c == 0x46 {
            bytes_of([0x66u8, 0x69, 0x6c, 0x65])
        } else if c == 0x4c {
            bytes_of([0x6cu8, 0x69, 0x6e, 0x65])
        } else if c == 0x52 {
            bytes_of([0x72u8, 0x6f, 0x75, 0x74, 0x69, 0x6e, 0x65])
        } else if c == 0x73 {
            bytes_of([0x73u8, 0x63, 0x68, 0x65, 0x6d, 0x61, 0x5f, 0x6e, 0x61, 0x6d, 0x65])
        } else if c == 0x74 {
            bytes_of([0x74u8, 0x61, 0x62, 0x6c, 0x65, 0x5f, 0x6e, 0x61, 0x6d, 0x65])
        } else if c == 0x63 {
            bytes_of([0x63u8, 0x6f, 0x6c, 0x75, 0x6d, 0x6e, 0x5f, 0x6e, 0x61, 0x6d, 0x65])
        } else if c == 0x64 {
            bytes_of([0x64u8, 0x61, 0x74, 0x61, 0x74, 0x79, 0x70, 0x65, 0x5f, 0x6e, 0x61, 0x6d, 0x65])
        } else if c == 0x6e {
            bytes_of(
                [0x63u8, 0x6f, 0x6e, 0x73, 0x74, 0x72, 0x61, 0x69, 0x6e, 0x74, 0x5f, 0x6e, 0x61, 0x6d, 0x65],
            )
        } else {
            bytes_of(
                [0x66u8, 0x69, 0x65, 0x6c, 0x64, 0x5f, hex_digit_exec(c / 16), hex_digit_exec(c % 16)],
            )
        };
        assert(r@ =~= field_name(c));
        r
    }
}

// ---------------------------------------------------------------------------
// Framing
// ---------------------------------------------------------------------------

pub proof fn lemma_u32_of_be(v: u32)
    ensures
        u32_of(be_u32(v)[0], be_u32(v)[1], be_u32(v)[2], be_u32(v)[3]) == v,
{
    let a = (v >> 24) as u8;
    let b = ((v >> 16) & 0xff) as u8;
    let c = ((v >> 8) & 0xff) as u8;
    let d = (v & 0xff) as u8;
    assert(a as u32 * 0x1000000 + b as u32 * 0x10000 + c as u32 * 0x100 + d as u32 == v)
        by (bit_vector)
        requires
            a == (v >> 24) as u8,
            b == ((v >> 16) & 0xff) as u8,
            c == ((v >> 8) & 0xff) as u8,
            d == (v & 0xff) as u8,
    ;
}

/// A message framed as the encoder frames it is read back whole: a message
/// of type `ident` with body `body`, followed by any bytes, parses to the
/// decoding of `body` and takes exactly its own bytes.
/// The byte strings a message carries whole (SASL data, the secret key of
/// the backend, COPY data) are no longer than `limit`.
pub open spec fn payload_within(m: Msg, limit: int) -> bool {
    match m {
        Msg::AuthenticationSASLContinue(d) => d.len() <= limit,
        Msg::AuthenticationSASLFinal(d) => d.len() <= limit,
        Msg::BackendKeyData { pid, secret_key } => secret_key.len() <= limit,
        Msg::CopyData(d) => d.len() <= limit,
        _ => true,
    }
}

proof fn lemma_decode_body_payload(ident: u8, b: Seq<u8>)
    ensures
        sp_decode_body(ident, b) matches Ok((m, q)) ==> payload_within(m, b.len() as int),
{
}

/// A message cut off a buffer takes at least its 5-byte header and no more
/// than the buffer, and the byte strings it carries whole are within the
/// largest message length.
pub proof fn lemma_parsed_bounds(buf: Seq<u8>)
    ensures
        spec_parse_message(buf) matches Ok(Some((n, m))) ==> 5 <= n <= buf.len() && payload_within(
            m,
            max_message_len(),
        ),
{
    if buf.len() >= 5 {
        let msg_len = signed32(u32_of(buf[1], buf[2], buf[3], buf[4]));
        if 4 <= msg_len <= max_message_len() && buf.len() > msg_len {
            lemma_decode_body_payload(buf[0], buf.subrange(5, msg_len + 1));
        }
    }
}

#[verifier::spinoff_prover]
#[verifier::rlimit(40)]
pub proof fn lemma_parse_framed(ident: u8, body: Seq<u8>, tail: Seq<u8>)
    requires
        body.len() + 4 <= max_message_len(),
    ensures
        spec_parse_message(seq![ident] + frame(body) + tail) == match spec_decode_message(
            ident,
            body,
        ) {
            Ok(m) => Ok::<Option<(int, Msg)>, Error>(Some((body.len() + 5int, m))),
            Err(e) => Err::<Option<(int, Msg)>, Error>(e),
        },
{
    let len = (body.len() + 4) as i32;
    let buf = seq![ident] + frame(body) + tail;
    lemma_u32_of_be(len as u32);
    assert(buf[1] == be_i32(len)[0] && buf[2] == be_i32(len)[1] && buf[3] == be_i32(len)[2]
        && buf[4] == be_i32(len)[3]);
    assert(buf.subrange(5, len + 1) =~= body);
}

/// A message is not cut before all of it has arrived: every proper prefix
/// of a framed message parses to `None`.
pub proof fn lemma_parse_partial(ident: u8, body: Seq<u8>, k: int)
    requires
        body.len() + 4 <= max_message_len(),
        0 <= k < body.len() + 5,
    ensures
        spec_parse_message((seq![ident] + frame(body)).take(k)) == Ok::<Option<(int, Msg)>, Error>(
            None,
        ),
{
    let len = (body.len() + 4) as i32;
    let buf = (seq![ident] + frame(body)).take(k);
    if k >= 5 {
        lemma_u32_of_be(len as u32);
        assert(buf[1] == be_i32(len)[0] && buf[2] == be_i32(len)[1] && buf[3] == be_i32(len)[2]
            && buf[4] == be_i32(len)[3]);
    }
}

} // verus!
