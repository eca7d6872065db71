//! JSON text for the results of a script: escaped strings, numbers, error
//! objects and row descriptions.
use vstd::prelude::*;

use crate::hex::{hex_digit, hex_digit_exec};
use crate::pg::decode::{DbError, Field, FieldView, error_fields_view, field_name};
use crate::run::text::{
    lit_message,
    push_lit_message,
    lit_quote_brace,
    push_lit_quote_brace,
    lit_comma_space,
    push_lit_comma_space,
    lit_colon_quote,
    push_lit_colon_quote,
    lit_name,
    push_lit_name,
    lit_table_oid,
    push_lit_table_oid,
    lit_table_col,
    push_lit_table_col,
    lit_type_oid,
    push_lit_type_oid,
    lit_type_mod,
    push_lit_type_mod,
    lit_replacement,
    push_lit_replacement,
    push_all,
};
use crate::utf8::{
    decode_scalar_at,
    invalid_len,
    invalid_len_at,
    lemma_scalar_len_bounds,
    scalar_at,
    scalar_len_at,
};

verus! {

// ---------------------------------------------------------------------------
// Strings
// ---------------------------------------------------------------------------

/// The JSON escape of one byte of UTF-8 text: `"` `\` and the newline,
/// carriage return and tab get a backslash escape, the other ASCII control
/// characters a `\u00XX` escape; any other byte is kept.
pub open spec fn escape_byte(c: u8) -> Seq<u8> {
    if c == 0x22 {
        seq![0x5cu8, 0x22]
    } else if c == 0x5c {
        seq![0x5cu8, 0x5c]
    } else if c == 0x0a {
        seq![0x5cu8, 0x6e]
    } else if c == 0x0d {
        seq![0x5cu8, 0x72]
    } else if c == 0x09 {
        seq![0x5cu8, 0x74]
    } else if c < 0x20 || c == 0x7f {
        seq![0x5cu8, 0x75, 0x30, 0x30, hex_digit(c / 16), hex_digit(c % 16)]
    } else {
        seq![c]
    }
}

/// The JSON escape of UTF-8 text, byte by byte. In UTF-8 only ASCII
/// characters are encoded with bytes below 0x80, so this escapes the
/// characters of the text.
pub open spec fn escaped(s: Seq<u8>) -> Seq<u8>
    decreases s.len(),
{
    if s.len() == 0 {
        Seq::empty()
    } else {
        escaped(s.drop_last()) + escape_byte(s.last())
    }
}

fn push_escaped_byte(out: &mut Vec<u8>, c: u8)
    ensures
        final(out)@ == old(out)@ + escape_byte(c),
{
    let ghost o = out@;
    if c == 0x22 {
        out.push(0x5c);
        out.push(0x22);
    } else if c == 0x5c {
        out.push(0x5c);
        out.push(0x5c);
    } else if c == 0x0a {
        out.push(0x5c);
        out.push(0x6e);
    } else if c == 0x0d {
        out.push(0x5c);
        out.push(0x72);
    } else if c == 0x09 {
        out.push(0x5c);
        out.push(0x74);
    } else if c < 0x20 || c == 0x7f {
        out.push(0x5c);
        out.push(0x75);
        out.push(0x30);
        out.push(0x30);
        out.push(hex_digit_exec(c / 16));
        out.push(hex_digit_exec(c % 16));
    } else {
        out.push(c);
    }
    assert(out@ =~= o + escape_byte(c));
}

/// Appends the JSON escape of the UTF-8 text `inp`.
pub fn json_escape(inp: &[u8], out: &mut Vec<u8>)
    ensures
        final(out)@ == old(out)@ + escaped(inp@),
{
    let mut k: usize = 0;
    assert(inp@.take(0) =~= Seq::<u8>::empty());
    assert(old(out)@ + Seq::<u8>::empty() =~= old(out)@);
    while k < inp.len()
        invariant
            k <= inp.len(),
            out@ == old(out)@ + escaped(inp@.take(k as int)),
        decreases inp.len() - k,
    {
        push_escaped_byte(out, inp[k]);
        proof {
            assert(inp@.take(k + 1).drop_last() =~= inp@.take(k as int));
            assert(old(out)@ + escaped(inp@.take(k as int)) + escape_byte(inp@[k as int]) =~= old(
                out,
            )@ + escaped(inp@.take(k + 1)));
        }
        k = k + 1;
    }
    assert(inp@.take(k as int) =~= inp@);
}

/// The JSON escape of the bytes of `s` from `i` on, read as UTF-8 the lossy
/// way: each well-formed character is escaped, each invalid sequence is
/// replaced by one U+FFFD.
pub open spec fn lossy_from(s: Seq<u8>, i: int) -> Seq<u8>
    decreases s.len() - i,
{
    if !(0 <= i < s.len()) {
        Seq::empty()
    } else if scalar_at(s, i) {
        let n = scalar_len_at(s, i);
        proof {
            lemma_scalar_len_bounds(s, i);
        }
        (if n == 1 {
            escape_byte(s[i])
        } else {
            s.subrange(i, i + n)
        }) + lossy_from(s, i + n)
    } else {
        lit_replacement() + lossy_from(s, i + invalid_len_at(s, i))
    }
}

pub open spec fn lossy_escaped(s: Seq<u8>) -> Seq<u8> {
    lossy_from(s, 0)
}

/// Appends the JSON escape of `inp` read as UTF-8, replacing each invalid
/// sequence by U+FFFD.
pub fn json_escape_lossy(inp: &[u8], out: &mut Vec<u8>)
    ensures
        final(out)@ == old(out)@ + lossy_escaped(inp@),
{
    let mut i: usize = 0;
    let ghost o = old(out)@;
    while i < inp.len()
        invariant
            i <= inp.len(),
            o == old(out)@,
            o + lossy_from(inp@, 0) == out@ + lossy_from(inp@, i as int),
        decreases inp.len() - i,
    {
        let ghost before = out@;
        match decode_scalar_at(inp, i) {
            Some((n, _)) => {
                proof {
                    lemma_scalar_len_bounds(inp@, i as int);
                }
                if n == 1 {
                    push_escaped_byte(out, inp[i]);
                } else {
                    push_all(out, &inp[i..i + n]);
                }
                assert(lossy_from(inp@, i as int) == (if n == 1 {
                    escape_byte(inp@[i as int])
                } else {
                    inp@.subrange(i as int, i + n)
                }) + lossy_from(inp@, i + n));
                assert(before + lossy_from(inp@, i as int) =~= out@ + lossy_from(inp@, i + n));
                i = i + n;
            },
            None => {
                let m = invalid_len(inp, i);
                push_lit_replacement(out);
                assert(before + lossy_from(inp@, i as int) =~= out@ + lossy_from(inp@, i + m));
                i = i + m;
            },
        }
    }
    assert(out@ + lossy_from(inp@, i as int) =~= out@);
}

// ---------------------------------------------------------------------------
// Numbers
// ---------------------------------------------------------------------------

/// The decimal digits of `n`.
pub open spec fn decimal_nat(n: nat) -> Seq<u8>
    decreases n,
{
    if n < 10 {
        seq![(0x30 + n) as u8]
    } else {
        decimal_nat(n / 10) + seq![(0x30 + n % 10) as u8]
    }
}

/// The decimal text of `v`, with a minus sign when it is negative.
pub open spec fn decimal(v: int) -> Seq<u8> {
    if v < 0 {
        seq![0x2du8] + decimal_nat((-v) as nat)
    } else {
        decimal_nat(v as nat)
    }
}

/// Appends the decimal digits of `n`.
pub fn push_decimal_nat(out: &mut Vec<u8>, n: u64)
    ensures
        final(out)@ == old(out)@ + decimal_nat(n as nat),
    decreases n,
{
    if n >= 10 {
        push_decimal_nat(out, n / 10);
    }
    out.push((0x30 + n % 10) as u8);
    assert(out@ =~= old(out)@ + decimal_nat(n as nat));
}

/// Appends the decimal text of `v`.
pub fn push_decimal(out: &mut Vec<u8>, v: i64)
    ensures
        final(out)@ == old(out)@ + decimal(v as int),
{
    if v < 0 {
        out.push(0x2d);
        let m = (0i128 - v as i128) as u64;
        push_decimal_nat(out, m);
        assert(out@ =~= old(out)@ + decimal(v as int));
    } else {
        push_decimal_nat(out, v as u64);
    }
}

// ---------------------------------------------------------------------------
// Objects
// ---------------------------------------------------------------------------

/// `{"message": "<escaped text>"}`
pub open spec fn error_json_text(msg: Seq<u8>) -> Seq<u8> {
    lit_message() + escaped(msg) + lit_quote_brace()
}

/// Appends the JSON object of an error that is not a database error: its
/// message as `message`.
pub fn error_json(msg: &[u8], out: &mut Vec<u8>)
    ensures
        final(out)@ == old(out)@ + error_json_text(msg@),
{
    push_lit_message(out);
    json_escape(msg, out);
    push_lit_quote_brace(out);
    assert(out@ =~= old(out)@ + error_json_text(msg@));
}

/// `"<field name>": "<escaped value>"` for each field, separated by `, `.
pub open spec fn db_fields_json(fields: Seq<(u8, Seq<u8>)>) -> Seq<u8>
    decreases fields.len(),
{
    if fields.len() == 0 {
        Seq::empty()
    } else {
        let f = fields.last();
        db_fields_json(fields.drop_last()) + (if fields.len() == 1 {
            Seq::empty()
        } else {
            lit_comma_space()
        }) + seq![0x22u8] + field_name(f.0) + lit_colon_quote() + lossy_escaped(f.1) + seq![0x22u8]
    }
}

/// The JSON object of a database error or notice: each field by name, in
/// the order received.
pub open spec fn dberror_json_text(fields: Seq<(u8, Seq<u8>)>) -> Seq<u8> {
    seq![0x7bu8] + db_fields_json(fields) + seq![0x7du8]
}

/// Appends the JSON object of a database error or notice.
pub fn dberror_json(dberr: &DbError, out: &mut Vec<u8>)
    ensures
        final(out)@ == old(out)@ + dberror_json_text(dberr@),
{
    let ghost fs = dberr@;
    out.push(0x7b);
    let ghost head = out@;
    let mut k: usize = 0;
    assert(fs.take(0) =~= Seq::<(u8, Seq<u8>)>::empty());
    assert(head + Seq::<u8>::empty() =~= head);
    while k < dberr.fields.len()
        invariant
            k <= dberr.fields@.len(),
            fs == dberr@,
            fs.len() == dberr.fields@.len(),
            out@ == head + db_fields_json(fs.take(k as int)),
        decreases dberr.fields@.len() - k,
    {
        let ghost before = out@;
        if k > 0 {
            push_lit_comma_space(out);
        }
        out.push(0x22);
        let name = dberr.fields[k].0.name();
        push_all(out, name.as_slice());
        push_lit_colon_quote(out);
        json_escape_lossy(dberr.fields[k].1.as_slice(), out);
        out.push(0x22);
        proof {
            let t = fs.take(k + 1);
            assert(t.drop_last() =~= fs.take(k as int));
            assert(t.last() == fs[k as int]);
            assert(fs[k as int] == (dberr.fields@[k as int].0.0, dberr.fields@[k as int].1@));
            assert(out@ =~= head + db_fields_json(t));
        }
        k = k + 1;
    }
    assert(fs.take(k as int) =~= fs);
    out.push(0x7d);
    assert(out@ =~= old(out)@ + dberror_json_text(dberr@));
}

/// `{"name":"...","table_oid":N,"table_col":N,"type_oid":N,"type_mod":N}`
pub open spec fn field_json(f: FieldView) -> Seq<u8> {
    lit_name() + lossy_escaped(f.name) + lit_table_oid() + decimal(f.table_oid as int)
        + lit_table_col() + decimal(f.table_col as int) + lit_type_oid() + decimal(
        f.type_oid as int,
    ) + lit_type_mod() + decimal(f.type_mod as int) + seq![0x7du8]
}

pub open spec fn fields_json(fields: Seq<FieldView>) -> Seq<u8>
    decreases fields.len(),
{
    if fields.len() == 0 {
        Seq::empty()
    } else {
        fields_json(fields.drop_last()) + (if fields.len() == 1 {
            Seq::empty()
        } else {
            seq![0x2cu8]
        }) + field_json(fields.last())
    }
}

/// The JSON array describing the columns of a result.
pub open spec fn rowdescr_json_text(fields: Seq<FieldView>) -> Seq<u8> {
    seq![0x5bu8] + fields_json(fields) + seq![0x5du8]
}

fn push_field_json(out: &mut Vec<u8>, f: &Field<'_>)
    ensures
        final(out)@ == old(out)@ + field_json(f@),
{
    push_lit_name(out);
    json_escape_lossy(f.name, out);
    push_lit_table_oid(out);
    push_decimal(out, f.table_oid as i64);
    push_lit_table_col(out);
    push_decimal(out, f.table_col as i64);
    push_lit_type_oid(out);
    push_decimal(out, f.type_oid as i64);
    push_lit_type_mod(out);
    push_decimal(out, f.type_mod as i64);
    out.push(0x7d);
    assert(out@ =~= old(out)@ + field_json(f@));
}

/// Appends the JSON array describing the columns `fields`.
pub fn json_rowdescr(fields: &[Field<'_>], out: &mut Vec<u8>)
    ensures
        final(out)@ == old(out)@ + rowdescr_json_text(fields@.map_values(|f: Field<'_>| f@)),
{
    let ghost fs = fields@.map_values(|f: Field<'_>| f@);
    out.push(0x5b);
    let ghost head = out@;
    let mut k: usize = 0;
    assert(fs.take(0) =~= Seq::<FieldView>::empty());
    assert(head + Seq::<u8>::empty() =~= head);
    while k < fields.len()
        invariant
            k <= fields@.len(),
            fs == fields@.map_values(|f: Field<'_>| f@),
            out@ == head + fields_json(fs.take(k as int)),
        decreases fields@.len() - k,
    {
        if k > 0 {
            out.push(0x2c);
        }
        let f = fields[k];
        push_field_json(out, &f);
        proof {
            let t = fs.take(k + 1);
            assert(t.drop_last() =~= fs.take(k as int));
            assert(t.last() == f@);
            assert(out@ =~= head + fields_json(t));
        }
        k = k + 1;
    }
    assert(fs.take(k as int) =~= fs);
    out.push(0x5d);
    assert(out@ =~= old(out)@ + rowdescr_json_text(fs));
}

} // verus!
