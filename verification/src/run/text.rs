//! The fixed pieces of text of the NDJSON messages.
use vstd::prelude::*;

verus! {

/// Appends `b` to `out`.
pub fn push_all(out: &mut Vec<u8>, b: &[u8])
    ensures
        final(out)@ == old(out)@ + b@,
{
    let mut k: usize = 0;
    while k < b.len()
        invariant
            k <= b.len(),
            out@ == old(out)@ + b@.take(k as int),
        decreases b.len() - k,
    {
        out.push(b[k]);
        k = k + 1;
        assert(old(out)@ + b@.take(k as int) =~= out@);
    }
    assert(b@.take(k as int) =~= b@);
}

/// `null`
pub open spec fn lit_null() -> Seq<u8> {
    seq![0x6eu8, 0x75, 0x6c, 0x6c]
}

pub fn push_lit_null(out: &mut Vec<u8>)
    ensures
        final(out)@ == old(out)@ + lit_null(),
{
    let lit: [u8; 4] = [0x6e, 0x75, 0x6c, 0x6c];
    assert(lit@ =~= lit_null());
    push_all(out, lit.as_slice());
}

/// `["start", {"position_utf16": `
pub open spec fn lit_start() -> Seq<u8> {
    seq![0x5bu8, 0x22, 0x73, 0x74, 0x61, 0x72, 0x74, 0x22, 0x2c, 0x20, 0x7b, 0x22, 0x70, 0x6f, 0x73, 0x69, 0x74, 0x69, 0x6f, 0x6e, 0x5f, 0x75, 0x74, 0x66, 0x31, 0x36, 0x22, 0x3a, 0x20]
}

pub fn push_lit_start(out: &mut Vec<u8>)
    ensures
        final(out)@ == old(out)@ + lit_start(),
{
    let lit: [u8; 29] = [0x5b, 0x22, 0x73, 0x74, 0x61, 0x72, 0x74, 0x22, 0x2c, 0x20, 0x7b, 0x22, 0x70, 0x6f, 0x73, 0x69, 0x74, 0x69, 0x6f, 0x6e, 0x5f, 0x75, 0x74, 0x66, 0x31, 0x36, 0x22, 0x3a, 0x20];
    assert(lit@ =~= lit_start());
    push_all(out, lit.as_slice());
}

/// `}]\n`
pub open spec fn lit_close_obj_line() -> Seq<u8> {
    seq![0x7du8, 0x5d, 0x0a]
}

pub fn push_lit_close_obj_line(out: &mut Vec<u8>)
    ensures
        final(out)@ == old(out)@ + lit_close_obj_line(),
{
    let lit: [u8; 3] = [0x7d, 0x5d, 0x0a];
    assert(lit@ =~= lit_close_obj_line());
    push_all(out, lit.as_slice());
}

/// `["head", `
pub open spec fn lit_head() -> Seq<u8> {
    seq![0x5bu8, 0x22, 0x68, 0x65, 0x61, 0x64, 0x22, 0x2c, 0x20]
}

pub fn push_lit_head(out: &mut Vec<u8>)
    ensures
        final(out)@ == old(out)@ + lit_head(),
{
    let lit: [u8; 9] = [0x5b, 0x22, 0x68, 0x65, 0x61, 0x64, 0x22, 0x2c, 0x20];
    assert(lit@ =~= lit_head());
    push_all(out, lit.as_slice());
}

/// `]\n`
pub open spec fn lit_close_line() -> Seq<u8> {
    seq![0x5du8, 0x0a]
}

pub fn push_lit_close_line(out: &mut Vec<u8>)
    ensures
        final(out)@ == old(out)@ + lit_close_line(),
{
    let lit: [u8; 2] = [0x5d, 0x0a];
    assert(lit@ =~= lit_close_line());
    push_all(out, lit.as_slice());
}

/// `["row", [`
pub open spec fn lit_row() -> Seq<u8> {
    seq![0x5bu8, 0x22, 0x72, 0x6f, 0x77, 0x22, 0x2c, 0x20, 0x5b]
}

pub fn push_lit_row(out: &mut Vec<u8>)
    ensures
        final(out)@ == old(out)@ + lit_row(),
{
    let lit: [u8; 9] = [0x5b, 0x22, 0x72, 0x6f, 0x77, 0x22, 0x2c, 0x20, 0x5b];
    assert(lit@ =~= lit_row());
    push_all(out, lit.as_slice());
}

/// `]]\n`
pub open spec fn lit_close2_line() -> Seq<u8> {
    seq![0x5du8, 0x5d, 0x0a]
}

pub fn push_lit_close2_line(out: &mut Vec<u8>)
    ensures
        final(out)@ == old(out)@ + lit_close2_line(),
{
    let lit: [u8; 3] = [0x5d, 0x5d, 0x0a];
    assert(lit@ =~= lit_close2_line());
    push_all(out, lit.as_slice());
}

/// `["copyout", {"id": "`
pub open spec fn lit_copyout() -> Seq<u8> {
    seq![0x5bu8, 0x22, 0x63, 0x6f, 0x70, 0x79, 0x6f, 0x75, 0x74, 0x22, 0x2c, 0x20, 0x7b, 0x22, 0x69, 0x64, 0x22, 0x3a, 0x20, 0x22]
}

pub fn push_lit_copyout(out: &mut Vec<u8>)
    ensures
        final(out)@ == old(out)@ + lit_copyout(),
{
    let lit: [u8; 20] = [0x5b, 0x22, 0x63, 0x6f, 0x70, 0x79, 0x6f, 0x75, 0x74, 0x22, 0x2c, 0x20, 0x7b, 0x22, 0x69, 0x64, 0x22, 0x3a, 0x20, 0x22];
    assert(lit@ =~= lit_copyout());
    push_all(out, lit.as_slice());
}

/// `"}]\n`
pub open spec fn lit_quote_close_obj_line() -> Seq<u8> {
    seq![0x22u8, 0x7d, 0x5d, 0x0a]
}

pub fn push_lit_quote_close_obj_line(out: &mut Vec<u8>)
    ensures
        final(out)@ == old(out)@ + lit_quote_close_obj_line(),
{
    let lit: [u8; 4] = [0x22, 0x7d, 0x5d, 0x0a];
    assert(lit@ =~= lit_quote_close_obj_line());
    push_all(out, lit.as_slice());
}

/// `["complete", "`
pub open spec fn lit_complete() -> Seq<u8> {
    seq![0x5bu8, 0x22, 0x63, 0x6f, 0x6d, 0x70, 0x6c, 0x65, 0x74, 0x65, 0x22, 0x2c, 0x20, 0x22]
}

pub fn push_lit_complete(out: &mut Vec<u8>)
    ensures
        final(out)@ == old(out)@ + lit_complete(),
{
    let lit: [u8; 14] = [0x5b, 0x22, 0x63, 0x6f, 0x6d, 0x70, 0x6c, 0x65, 0x74, 0x65, 0x22, 0x2c, 0x20, 0x22];
    assert(lit@ =~= lit_complete());
    push_all(out, lit.as_slice());
}

/// `"]\n`
pub open spec fn lit_quote_close_line() -> Seq<u8> {
    seq![0x22u8, 0x5d, 0x0a]
}

pub fn push_lit_quote_close_line(out: &mut Vec<u8>)
    ensures
        final(out)@ == old(out)@ + lit_quote_close_line(),
{
    let lit: [u8; 3] = [0x22, 0x5d, 0x0a];
    assert(lit@ =~= lit_quote_close_line());
    push_all(out, lit.as_slice());
}

/// `["notice", `
pub open spec fn lit_notice() -> Seq<u8> {
    seq![0x5bu8, 0x22, 0x6e, 0x6f, 0x74, 0x69, 0x63, 0x65, 0x22, 0x2c, 0x20]
}

pub fn push_lit_notice(out: &mut Vec<u8>)
    ensures
        final(out)@ == old(out)@ + lit_notice(),
{
    let lit: [u8; 11] = [0x5b, 0x22, 0x6e, 0x6f, 0x74, 0x69, 0x63, 0x65, 0x22, 0x2c, 0x20];
    assert(lit@ =~= lit_notice());
    push_all(out, lit.as_slice());
}

/// `["error", `
pub open spec fn lit_error() -> Seq<u8> {
    seq![0x5bu8, 0x22, 0x65, 0x72, 0x72, 0x6f, 0x72, 0x22, 0x2c, 0x20]
}

pub fn push_lit_error(out: &mut Vec<u8>)
    ensures
        final(out)@ == old(out)@ + lit_error(),
{
    let lit: [u8; 10] = [0x5b, 0x22, 0x65, 0x72, 0x72, 0x6f, 0x72, 0x22, 0x2c, 0x20];
    assert(lit@ =~= lit_error());
    push_all(out, lit.as_slice());
}

/// `["suspended", {"reason": "`
pub open spec fn lit_suspended() -> Seq<u8> {
    seq![0x5bu8, 0x22, 0x73, 0x75, 0x73, 0x70, 0x65, 0x6e, 0x64, 0x65, 0x64, 0x22, 0x2c, 0x20, 0x7b, 0x22, 0x72, 0x65, 0x61, 0x73, 0x6f, 0x6e, 0x22, 0x3a, 0x20, 0x22]
}

pub fn push_lit_suspended(out: &mut Vec<u8>)
    ensures
        final(out)@ == old(out)@ + lit_suspended(),
{
    let lit: [u8; 26] = [0x5b, 0x22, 0x73, 0x75, 0x73, 0x70, 0x65, 0x6e, 0x64, 0x65, 0x64, 0x22, 0x2c, 0x20, 0x7b, 0x22, 0x72, 0x65, 0x61, 0x73, 0x6f, 0x6e, 0x22, 0x3a, 0x20, 0x22];
    assert(lit@ =~= lit_suspended());
    push_all(out, lit.as_slice());
}

/// `","token": "`
pub open spec fn lit_token() -> Seq<u8> {
    seq![0x22u8, 0x2c, 0x22, 0x74, 0x6f, 0x6b, 0x65, 0x6e, 0x22, 0x3a, 0x20, 0x22]
}

pub fn push_lit_token(out: &mut Vec<u8>)
    ensures
        final(out)@ == old(out)@ + lit_token(),
{
    let lit: [u8; 12] = [0x22, 0x2c, 0x22, 0x74, 0x6f, 0x6b, 0x65, 0x6e, 0x22, 0x3a, 0x20, 0x22];
    assert(lit@ =~= lit_token());
    push_all(out, lit.as_slice());
}

/// `{"message": "`
pub open spec fn lit_message() -> Seq<u8> {
    seq![0x7bu8, 0x22, 0x6d, 0x65, 0x73, 0x73, 0x61, 0x67, 0x65, 0x22, 0x3a, 0x20, 0x22]
}

pub fn push_lit_message(out: &mut Vec<u8>)
    ensures
        final(out)@ == old(out)@ + lit_message(),
{
    let lit: [u8; 13] = [0x7b, 0x22, 0x6d, 0x65, 0x73, 0x73, 0x61, 0x67, 0x65, 0x22, 0x3a, 0x20, 0x22];
    assert(lit@ =~= lit_message());
    push_all(out, lit.as_slice());
}

/// `"}`
pub open spec fn lit_quote_brace() -> Seq<u8> {
    seq![0x22u8, 0x7d]
}

pub fn push_lit_quote_brace(out: &mut Vec<u8>)
    ensures
        final(out)@ == old(out)@ + lit_quote_brace(),
{
    let lit: [u8; 2] = [0x22, 0x7d];
    assert(lit@ =~= lit_quote_brace());
    push_all(out, lit.as_slice());
}

/// `, `
pub open spec fn lit_comma_space() -> Seq<u8> {
    seq![0x2cu8, 0x20]
}

pub fn push_lit_comma_space(out: &mut Vec<u8>)
    ensures
        final(out)@ == old(out)@ + lit_comma_space(),
{
    let lit: [u8; 2] = [0x2c, 0x20];
    assert(lit@ =~= lit_comma_space());
    push_all(out, lit.as_slice());
}

/// `": "`
pub open spec fn lit_colon_quote() -> Seq<u8> {
    seq![0x22u8, 0x3a, 0x20, 0x22]
}

pub fn push_lit_colon_quote(out: &mut Vec<u8>)
    ensures
        final(out)@ == old(out)@ + lit_colon_quote(),
{
    let lit: [u8; 4] = [0x22, 0x3a, 0x20, 0x22];
    assert(lit@ =~= lit_colon_quote());
    push_all(out, lit.as_slice());
}

/// `{"name":"`
pub open spec fn lit_name() -> Seq<u8> {
    seq![0x7bu8, 0x22, 0x6e, 0x61, 0x6d, 0x65, 0x22, 0x3a, 0x22]
}

pub fn push_lit_name(out: &mut Vec<u8>)
    ensures
        final(out)@ == old(out)@ + lit_name(),
{
    let lit: [u8; 9] = [0x7b, 0x22, 0x6e, 0x61, 0x6d, 0x65, 0x22, 0x3a, 0x22];
    assert(lit@ =~= lit_name());
    push_all(out, lit.as_slice());
}

/// `","table_oid":`
pub open spec fn lit_table_oid() -> Seq<u8> {
    seq![0x22u8, 0x2c, 0x22, 0x74, 0x61, 0x62, 0x6c, 0x65, 0x5f, 0x6f, 0x69, 0x64, 0x22, 0x3a]
}

pub fn push_lit_table_oid(out: &mut Vec<u8>)
    ensures
        final(out)@ == old(out)@ + lit_table_oid(),
{
    let lit: [u8; 14] = [0x22, 0x2c, 0x22, 0x74, 0x61, 0x62, 0x6c, 0x65, 0x5f, 0x6f, 0x69, 0x64, 0x22, 0x3a];
    assert(lit@ =~= lit_table_oid());
    push_all(out, lit.as_slice());
}

/// `,"table_col":`
pub open spec fn lit_table_col() -> Seq<u8> {
    seq![0x2cu8, 0x22, 0x74, 0x61, 0x62, 0x6c, 0x65, 0x5f, 0x63, 0x6f, 0x6c, 0x22, 0x3a]
}

pub fn push_lit_table_col(out: &mut Vec<u8>)
    ensures
        final(out)@ == old(out)@ + lit_table_col(),
{
    let lit: [u8; 13] = [0x2c, 0x22, 0x74, 0x61, 0x62, 0x6c, 0x65, 0x5f, 0x63, 0x6f, 0x6c, 0x22, 0x3a];
    assert(lit@ =~= lit_table_col());
    push_all(out, lit.as_slice());
}

/// `,"type_oid":`
pub open spec fn lit_type_oid() -> Seq<u8> {
    seq![0x2cu8, 0x22, 0x74, 0x79, 0x70, 0x65, 0x5f, 0x6f, 0x69, 0x64, 0x22, 0x3a]
}

pub fn push_lit_type_oid(out: &mut Vec<u8>)
    ensures
        final(out)@ == old(out)@ + lit_type_oid(),
{
    let lit: [u8; 12] = [0x2c, 0x22, 0x74, 0x79, 0x70, 0x65, 0x5f, 0x6f, 0x69, 0x64, 0x22, 0x3a];
    assert(lit@ =~= lit_type_oid());
    push_all(out, lit.as_slice());
}

/// `,"type_mod":`
pub open spec fn lit_type_mod() -> Seq<u8> {
    seq![0x2cu8, 0x22, 0x74, 0x79, 0x70, 0x65, 0x5f, 0x6d, 0x6f, 0x64, 0x22, 0x3a]
}

pub fn push_lit_type_mod(out: &mut Vec<u8>)
    ensures
        final(out)@ == old(out)@ + lit_type_mod(),
{
    let lit: [u8; 12] = [0x2c, 0x22, 0x74, 0x79, 0x70, 0x65, 0x5f, 0x6d, 0x6f, 0x64, 0x22, 0x3a];
    assert(lit@ =~= lit_type_mod());
    push_all(out, lit.as_slice());
}

/// `U+FFFD`
pub open spec fn lit_replacement() -> Seq<u8> {
    seq![0xefu8, 0xbf, 0xbd]
}

pub fn push_lit_replacement(out: &mut Vec<u8>)
    ensures
        final(out)@ == old(out)@ + lit_replacement(),
{
    let lit: [u8; 3] = [0xef, 0xbf, 0xbd];
    assert(lit@ =~= lit_replacement());
    push_all(out, lit.as_slice());
}

/// `["alive"]\n`
pub open spec fn lit_alive() -> Seq<u8> {
    seq![0x5bu8, 0x22, 0x61, 0x6c, 0x69, 0x76, 0x65, 0x22, 0x5d, 0x0a]
}

pub fn push_lit_alive(out: &mut Vec<u8>)
    ensures
        final(out)@ == old(out)@ + lit_alive(),
{
    let lit: [u8; 10] = [0x5b, 0x22, 0x61, 0x6c, 0x69, 0x76, 0x65, 0x22, 0x5d, 0x0a];
    assert(lit@ =~= lit_alive());
    push_all(out, lit.as_slice());
}

} // verus!
