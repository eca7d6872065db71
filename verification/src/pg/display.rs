//! The texts of errors: a decoding error by its name, a database error as
//! `SEVERITY#CODE "message"` with the bytes escaped as ASCII.
use vstd::prelude::*;

use crate::hex::{hex_digit, hex_digit_exec};
use crate::pg::decode::{DbError, Error};
use crate::pg::text::{
    lit_invalid_datum_length,
    lit_invalid_datum_length_bytes,
    lit_invalid_message_length,
    lit_invalid_message_length_bytes,
    lit_message_too_big,
    lit_message_too_big_bytes,
    lit_unexpected_end,
    lit_unexpected_end_bytes,
    lit_unexpected_trailing,
    lit_unexpected_trailing_bytes,
    lit_unknown_message,
    lit_unknown_message_bytes,
};
use crate::run::text::push_all;

verus! {

/// A byte escaped as `u8::escape_ascii` does: `\t`, `\r`, `\n`, `\\`,
/// `\'` and `\"` for those characters, printable ASCII as is, and `\xNN`
/// (lower-case hexadecimal) for every other byte.
pub open spec fn escape_ascii_byte(b: u8) -> Seq<u8> {
    if b == 0x09 {
        seq![0x5cu8, 0x74]
    } else if b == 0x0d {
        seq![0x5cu8, 0x72]
    } else if b == 0x0a {
        seq![0x5cu8, 0x6e]
    } else if b == 0x5c || b == 0x27 || b == 0x22 {
        seq![0x5cu8, b]
    } else if 0x20 <= b <= 0x7e {
        seq![b]
    } else {
        seq![0x5cu8, 0x78, hex_digit(b / 16), hex_digit(b % 16)]
    }
}

/// Each byte of `s` escaped as ASCII.
pub open spec fn escape_ascii(s: Seq<u8>) -> Seq<u8>
    decreases s.len(),
{
    if s.len() == 0 {
        Seq::empty()
    } else {
        escape_ascii(s.drop_last()) + escape_ascii_byte(s.last())
    }
}

/// Appends `s` escaped as ASCII.
pub fn push_escape_ascii(out: &mut Vec<u8>, s: &[u8])
    ensures
        final(out)@ == old(out)@ + escape_ascii(s@),
{
    let ghost start = old(out)@;
    let mut k: usize = 0;
    assert(s@.take(0) =~= Seq::<u8>::empty());
    while k < s.len()
        invariant
            k <= s.len(),
            start == old(out)@,
            out@ == start + escape_ascii(s@.take(k as int)),
        decreases s.len() - k,
    {
        let b = s[k];
        if b == 0x09 {
            out.push(0x5c);
            out.push(0x74);
        } else if b == 0x0d {
            out.push(0x5c);
            out.push(0x72);
        } else if b == 0x0a {
            out.push(0x5c);
            out.push(0x6e);
        } else if b == 0x5c || b == 0x27 || b == 0x22 {
            out.push(0x5c);
            out.push(b);
        } else if 0x20 <= b && b <= 0x7e {
            out.push(b);
        } else {
            out.push(0x5c);
            out.push(0x78);
            out.push(hex_digit_exec(b / 16));
            out.push(hex_digit_exec(b % 16));
        }
        proof {
            assert(s@.take(k + 1).drop_last() =~= s@.take(k as int));
            assert(out@ =~= start + escape_ascii(s@.take(k + 1)));
        }
        k = k + 1;
    }
    assert(s@.take(k as int) =~= s@);
}

/// The value of the last field with code `key`.
pub open spec fn last_value(fields: Seq<(u8, Seq<u8>)>, key: u8) -> Option<Seq<u8>>
    decreases fields.len(),
{
    if fields.len() == 0 {
        None
    } else if fields.last().0 == key {
        Some(fields.last().1)
    } else {
        last_value(fields.drop_last(), key)
    }
}

/// The value of the last field with code `key`, or nothing.
pub open spec fn last_value_or_empty(fields: Seq<(u8, Seq<u8>)>, key: u8) -> Seq<u8> {
    match last_value(fields, key) {
        Some(v) => v,
        None => Seq::empty(),
    }
}

/// The text of a database error: the severity (`V`), `#`, the SQLSTATE
/// code (`C`), a space and the message (`M`) in double quotes, each the
/// last field of its code and escaped as ASCII.
pub open spec fn dberror_display(fields: Seq<(u8, Seq<u8>)>) -> Seq<u8> {
    escape_ascii(last_value_or_empty(fields, 0x56)) + seq![0x23u8] + escape_ascii(
        last_value_or_empty(fields, 0x43),
    ) + seq![0x20u8, 0x22] + escape_ascii(last_value_or_empty(fields, 0x4d)) + seq![0x22u8]
}

fn last_value_exec(d: &DbError, key: u8) -> (r: &[u8])
    ensures
        r@ == last_value_or_empty(d@, key),
{
    let ghost f = d@;
    let mut k: usize = d.fields.len();
    assert(f.take(k as int) =~= f);
    while k > 0
        invariant
            k <= d.fields@.len(),
            f == d@,
            last_value(f, key) == last_value(f.take(k as int), key),
        decreases k,
    {
        assert(f.take(k as int).last() == f[k - 1]);
        if d.fields[k - 1].0.0 == key {
            return d.fields[k - 1].1.as_slice();
        }
        assert(f.take(k as int).drop_last() =~= f.take(k - 1));
        k = k - 1;
    }
    let e: &[u8] = &[];
    assert(e@ =~= Seq::<u8>::empty());
    e
}

impl DbError {
    /// The text of the error: `SEVERITY#CODE "message"`.
    pub fn display(&self) -> (r: Vec<u8>)
        ensures
            r@ == dberror_display(self@),
    {
        let mut out: Vec<u8> = Vec::new();
        push_escape_ascii(&mut out, last_value_exec(self, 0x56));
        out.push(0x23);
        push_escape_ascii(&mut out, last_value_exec(self, 0x43));
        out.push(0x20);
        out.push(0x22);
        push_escape_ascii(&mut out, last_value_exec(self, 0x4d));
        out.push(0x22);
        assert(out@ =~= dberror_display(self@));
        out
    }
}

/// The name of a decoding error.
pub open spec fn error_name(e: Error) -> Seq<u8> {
    match e {
        Error::MessageTooBig => lit_message_too_big(),
        Error::InvalidMessageLength => lit_invalid_message_length(),
        Error::InvalidDatumLength => lit_invalid_datum_length(),
        Error::UnexpectedEndOfMessage => lit_unexpected_end(),
        Error::UnexpectedTrailingData => lit_unexpected_trailing(),
        Error::UnknownMessage => lit_unknown_message(),
    }
}

impl Error {
    /// The name of the error, its text.
    pub fn name(&self) -> (r: &'static [u8])
        ensures
            r@ == error_name(*self),
    {
        match self {
            Error::MessageTooBig => lit_message_too_big_bytes(),
            Error::InvalidMessageLength => lit_invalid_message_length_bytes(),
            Error::InvalidDatumLength => lit_invalid_datum_length_bytes(),
            Error::UnexpectedEndOfMessage => lit_unexpected_end_bytes(),
            Error::UnexpectedTrailingData => lit_unexpected_trailing_bytes(),
            Error::UnknownMessage => lit_unknown_message_bytes(),
        }
    }
}

/// Appends the text of a database error.
pub fn push_dberror_display(out: &mut Vec<u8>, d: &DbError)
    ensures
        final(out)@ == old(out)@ + dberror_display(d@),
{
    let t = d.display();
    push_all(out, t.as_slice());
}

} // verus!
