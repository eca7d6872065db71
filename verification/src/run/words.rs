//! Fixed texts of script execution: statement names, queries, reasons and error messages.
use vstd::prelude::*;

verus! {

/// `pgbb_enrich_rowdescr`
pub open spec fn lit_enrich_stmt_name() -> Seq<u8> {
    seq![0x70u8, 0x67, 0x62, 0x62, 0x5f, 0x65, 0x6e, 0x72, 0x69, 0x63, 0x68, 0x5f, 0x72, 0x6f, 0x77, 0x64, 0x65, 0x73, 0x63, 0x72]
}

pub fn lit_enrich_stmt_name_bytes() -> (r: &'static [u8])
    ensures
        r@ == lit_enrich_stmt_name(),
{
    let r: &'static [u8] = &[0x70, 0x67, 0x62, 0x62, 0x5f, 0x65, 0x6e, 0x72, 0x69, 0x63, 0x68, 0x5f, 0x72, 0x6f, 0x77, 0x64, 0x65, 0x73, 0x63, 0x72];
    assert(r@ =~= lit_enrich_stmt_name());
    r
}

/// `select null where pg_catalog.txid_current_if_assigned() is not null`
pub open spec fn lit_check_changes_sql() -> Seq<u8> {
    seq![0x73u8, 0x65, 0x6c, 0x65, 0x63, 0x74, 0x20, 0x6e, 0x75, 0x6c, 0x6c, 0x20, 0x77, 0x68, 0x65, 0x72, 0x65, 0x20, 0x70, 0x67, 0x5f, 0x63, 0x61, 0x74, 0x61, 0x6c, 0x6f, 0x67, 0x2e, 0x74, 0x78, 0x69, 0x64, 0x5f, 0x63, 0x75, 0x72, 0x72, 0x65, 0x6e, 0x74, 0x5f, 0x69, 0x66, 0x5f, 0x61, 0x73, 0x73, 0x69, 0x67, 0x6e, 0x65, 0x64, 0x28, 0x29, 0x20, 0x69, 0x73, 0x20, 0x6e, 0x6f, 0x74, 0x20, 0x6e, 0x75, 0x6c, 0x6c]
}

pub fn lit_check_changes_sql_bytes() -> (r: &'static [u8])
    ensures
        r@ == lit_check_changes_sql(),
{
    let r: &'static [u8] = &[0x73, 0x65, 0x6c, 0x65, 0x63, 0x74, 0x20, 0x6e, 0x75, 0x6c, 0x6c, 0x20, 0x77, 0x68, 0x65, 0x72, 0x65, 0x20, 0x70, 0x67, 0x5f, 0x63, 0x61, 0x74, 0x61, 0x6c, 0x6f, 0x67, 0x2e, 0x74, 0x78, 0x69, 0x64, 0x5f, 0x63, 0x75, 0x72, 0x72, 0x65, 0x6e, 0x74, 0x5f, 0x69, 0x66, 0x5f, 0x61, 0x73, 0x73, 0x69, 0x67, 0x6e, 0x65, 0x64, 0x28, 0x29, 0x20, 0x69, 0x73, 0x20, 0x6e, 0x6f, 0x74, 0x20, 0x6e, 0x75, 0x6c, 0x6c];
    assert(r@ =~= lit_check_changes_sql());
    r
}

/// `script must not contain NUL characters`
pub open spec fn lit_nul_in_script() -> Seq<u8> {
    seq![0x73u8, 0x63, 0x72, 0x69, 0x70, 0x74, 0x20, 0x6d, 0x75, 0x73, 0x74, 0x20, 0x6e, 0x6f, 0x74, 0x20, 0x63, 0x6f, 0x6e, 0x74, 0x61, 0x69, 0x6e, 0x20, 0x4e, 0x55, 0x4c, 0x20, 0x63, 0x68, 0x61, 0x72, 0x61, 0x63, 0x74, 0x65, 0x72, 0x73]
}

pub fn lit_nul_in_script_bytes() -> (r: &'static [u8])
    ensures
        r@ == lit_nul_in_script(),
{
    let r: &'static [u8] = &[0x73, 0x63, 0x72, 0x69, 0x70, 0x74, 0x20, 0x6d, 0x75, 0x73, 0x74, 0x20, 0x6e, 0x6f, 0x74, 0x20, 0x63, 0x6f, 0x6e, 0x74, 0x61, 0x69, 0x6e, 0x20, 0x4e, 0x55, 0x4c, 0x20, 0x63, 0x68, 0x61, 0x72, 0x61, 0x63, 0x74, 0x65, 0x72, 0x73];
    assert(r@ =~= lit_nul_in_script());
    r
}

/// `script must be valid UTF-8`
pub open spec fn lit_script_not_utf8() -> Seq<u8> {
    seq![0x73u8, 0x63, 0x72, 0x69, 0x70, 0x74, 0x20, 0x6d, 0x75, 0x73, 0x74, 0x20, 0x62, 0x65, 0x20, 0x76, 0x61, 0x6c, 0x69, 0x64, 0x20, 0x55, 0x54, 0x46, 0x2d, 0x38]
}

pub fn lit_script_not_utf8_bytes() -> (r: &'static [u8])
    ensures
        r@ == lit_script_not_utf8(),
{
    let r: &'static [u8] = &[0x73, 0x63, 0x72, 0x69, 0x70, 0x74, 0x20, 0x6d, 0x75, 0x73, 0x74, 0x20, 0x62, 0x65, 0x20, 0x76, 0x61, 0x6c, 0x69, 0x64, 0x20, 0x55, 0x54, 0x46, 0x2d, 0x38];
    assert(r@ =~= lit_script_not_utf8());
    r
}

/// `failed to enrich row description: `
pub open spec fn lit_enrich_failed() -> Seq<u8> {
    seq![0x66u8, 0x61, 0x69, 0x6c, 0x65, 0x64, 0x20, 0x74, 0x6f, 0x20, 0x65, 0x6e, 0x72, 0x69, 0x63, 0x68, 0x20, 0x72, 0x6f, 0x77, 0x20, 0x64, 0x65, 0x73, 0x63, 0x72, 0x69, 0x70, 0x74, 0x69, 0x6f, 0x6e, 0x3a, 0x20]
}

pub fn lit_enrich_failed_bytes() -> (r: &'static [u8])
    ensures
        r@ == lit_enrich_failed(),
{
    let r: &'static [u8] = &[0x66, 0x61, 0x69, 0x6c, 0x65, 0x64, 0x20, 0x74, 0x6f, 0x20, 0x65, 0x6e, 0x72, 0x69, 0x63, 0x68, 0x20, 0x72, 0x6f, 0x77, 0x20, 0x64, 0x65, 0x73, 0x63, 0x72, 0x69, 0x70, 0x74, 0x69, 0x6f, 0x6e, 0x3a, 0x20];
    assert(r@ =~= lit_enrich_failed());
    r
}

/// `failed to check for uncommited changes: `
pub open spec fn lit_check_failed() -> Seq<u8> {
    seq![0x66u8, 0x61, 0x69, 0x6c, 0x65, 0x64, 0x20, 0x74, 0x6f, 0x20, 0x63, 0x68, 0x65, 0x63, 0x6b, 0x20, 0x66, 0x6f, 0x72, 0x20, 0x75, 0x6e, 0x63, 0x6f, 0x6d, 0x6d, 0x69, 0x74, 0x65, 0x64, 0x20, 0x63, 0x68, 0x61, 0x6e, 0x67, 0x65, 0x73, 0x3a, 0x20]
}

pub fn lit_check_failed_bytes() -> (r: &'static [u8])
    ensures
        r@ == lit_check_failed(),
{
    let r: &'static [u8] = &[0x66, 0x61, 0x69, 0x6c, 0x65, 0x64, 0x20, 0x74, 0x6f, 0x20, 0x63, 0x68, 0x65, 0x63, 0x6b, 0x20, 0x66, 0x6f, 0x72, 0x20, 0x75, 0x6e, 0x63, 0x6f, 0x6d, 0x6d, 0x69, 0x74, 0x65, 0x64, 0x20, 0x63, 0x68, 0x61, 0x6e, 0x67, 0x65, 0x73, 0x3a, 0x20];
    assert(r@ =~= lit_check_failed());
    r
}

/// `traffic_limit_exceeded`
pub open spec fn lit_traffic_limit() -> Seq<u8> {
    seq![0x74u8, 0x72, 0x61, 0x66, 0x66, 0x69, 0x63, 0x5f, 0x6c, 0x69, 0x6d, 0x69, 0x74, 0x5f, 0x65, 0x78, 0x63, 0x65, 0x65, 0x64, 0x65, 0x64]
}

pub fn lit_traffic_limit_bytes() -> (r: &'static [u8])
    ensures
        r@ == lit_traffic_limit(),
{
    let r: &'static [u8] = &[0x74, 0x72, 0x61, 0x66, 0x66, 0x69, 0x63, 0x5f, 0x6c, 0x69, 0x6d, 0x69, 0x74, 0x5f, 0x65, 0x78, 0x63, 0x65, 0x65, 0x64, 0x65, 0x64];
    assert(r@ =~= lit_traffic_limit());
    r
}

/// `idle_in_transaction`
pub open spec fn lit_idle_in_transaction() -> Seq<u8> {
    seq![0x69u8, 0x64, 0x6c, 0x65, 0x5f, 0x69, 0x6e, 0x5f, 0x74, 0x72, 0x61, 0x6e, 0x73, 0x61, 0x63, 0x74, 0x69, 0x6f, 0x6e]
}

pub fn lit_idle_in_transaction_bytes() -> (r: &'static [u8])
    ensures
        r@ == lit_idle_in_transaction(),
{
    let r: &'static [u8] = &[0x69, 0x64, 0x6c, 0x65, 0x5f, 0x69, 0x6e, 0x5f, 0x74, 0x72, 0x61, 0x6e, 0x73, 0x61, 0x63, 0x74, 0x69, 0x6f, 0x6e];
    assert(r@ =~= lit_idle_in_transaction());
    r
}

/// `null`
pub open spec fn lit_null_bytes() -> Seq<u8> {
    seq![0x6eu8, 0x75, 0x6c, 0x6c]
}

pub fn lit_null_bytes_bytes() -> (r: &'static [u8])
    ensures
        r@ == lit_null_bytes(),
{
    let r: &'static [u8] = &[0x6e, 0x75, 0x6c, 0x6c];
    assert(r@ =~= lit_null_bytes());
    r
}

} // verus!
