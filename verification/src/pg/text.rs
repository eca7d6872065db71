//! Fixed texts of the connection layer: protocol strings and error messages.
use vstd::prelude::*;

verus! {

/// `invalid password`
pub open spec fn lit_invalid_password() -> Seq<u8> {
    seq![0x69u8, 0x6e, 0x76, 0x61, 0x6c, 0x69, 0x64, 0x20, 0x70, 0x61, 0x73, 0x73, 0x77, 0x6f, 0x72, 0x64]
}

pub fn lit_invalid_password_bytes() -> (r: &'static [u8])
    ensures
        r@ == lit_invalid_password(),
{
    let r: &'static [u8] = &[0x69, 0x6e, 0x76, 0x61, 0x6c, 0x69, 0x64, 0x20, 0x70, 0x61, 0x73, 0x73, 0x77, 0x6f, 0x72, 0x64];
    assert(r@ =~= lit_invalid_password());
    r
}

/// `AuthenticationOk expected`
pub open spec fn lit_auth_ok_expected() -> Seq<u8> {
    seq![0x41u8, 0x75, 0x74, 0x68, 0x65, 0x6e, 0x74, 0x69, 0x63, 0x61, 0x74, 0x69, 0x6f, 0x6e, 0x4f, 0x6b, 0x20, 0x65, 0x78, 0x70, 0x65, 0x63, 0x74, 0x65, 0x64]
}

pub fn lit_auth_ok_expected_bytes() -> (r: &'static [u8])
    ensures
        r@ == lit_auth_ok_expected(),
{
    let r: &'static [u8] = &[0x41, 0x75, 0x74, 0x68, 0x65, 0x6e, 0x74, 0x69, 0x63, 0x61, 0x74, 0x69, 0x6f, 0x6e, 0x4f, 0x6b, 0x20, 0x65, 0x78, 0x70, 0x65, 0x63, 0x74, 0x65, 0x64];
    assert(r@ =~= lit_auth_ok_expected());
    r
}

/// `AuthenticationSASLContinue expected`
pub open spec fn lit_sasl_continue_expected() -> Seq<u8> {
    seq![0x41u8, 0x75, 0x74, 0x68, 0x65, 0x6e, 0x74, 0x69, 0x63, 0x61, 0x74, 0x69, 0x6f, 0x6e, 0x53, 0x41, 0x53, 0x4c, 0x43, 0x6f, 0x6e, 0x74, 0x69, 0x6e, 0x75, 0x65, 0x20, 0x65, 0x78, 0x70, 0x65, 0x63, 0x74, 0x65, 0x64]
}

pub fn lit_sasl_continue_expected_bytes() -> (r: &'static [u8])
    ensures
        r@ == lit_sasl_continue_expected(),
{
    let r: &'static [u8] = &[0x41, 0x75, 0x74, 0x68, 0x65, 0x6e, 0x74, 0x69, 0x63, 0x61, 0x74, 0x69, 0x6f, 0x6e, 0x53, 0x41, 0x53, 0x4c, 0x43, 0x6f, 0x6e, 0x74, 0x69, 0x6e, 0x75, 0x65, 0x20, 0x65, 0x78, 0x70, 0x65, 0x63, 0x74, 0x65, 0x64];
    assert(r@ =~= lit_sasl_continue_expected());
    r
}

/// `AuthenticationSASLFinal expected`
pub open spec fn lit_sasl_final_expected() -> Seq<u8> {
    seq![0x41u8, 0x75, 0x74, 0x68, 0x65, 0x6e, 0x74, 0x69, 0x63, 0x61, 0x74, 0x69, 0x6f, 0x6e, 0x53, 0x41, 0x53, 0x4c, 0x46, 0x69, 0x6e, 0x61, 0x6c, 0x20, 0x65, 0x78, 0x70, 0x65, 0x63, 0x74, 0x65, 0x64]
}

pub fn lit_sasl_final_expected_bytes() -> (r: &'static [u8])
    ensures
        r@ == lit_sasl_final_expected(),
{
    let r: &'static [u8] = &[0x41, 0x75, 0x74, 0x68, 0x65, 0x6e, 0x74, 0x69, 0x63, 0x61, 0x74, 0x69, 0x6f, 0x6e, 0x53, 0x41, 0x53, 0x4c, 0x46, 0x69, 0x6e, 0x61, 0x6c, 0x20, 0x65, 0x78, 0x70, 0x65, 0x63, 0x74, 0x65, 0x64];
    assert(r@ =~= lit_sasl_final_expected());
    r
}

/// `unsupported authentication method`
pub open spec fn lit_unsupported_auth() -> Seq<u8> {
    seq![0x75u8, 0x6e, 0x73, 0x75, 0x70, 0x70, 0x6f, 0x72, 0x74, 0x65, 0x64, 0x20, 0x61, 0x75, 0x74, 0x68, 0x65, 0x6e, 0x74, 0x69, 0x63, 0x61, 0x74, 0x69, 0x6f, 0x6e, 0x20, 0x6d, 0x65, 0x74, 0x68, 0x6f, 0x64]
}

pub fn lit_unsupported_auth_bytes() -> (r: &'static [u8])
    ensures
        r@ == lit_unsupported_auth(),
{
    let r: &'static [u8] = &[0x75, 0x6e, 0x73, 0x75, 0x70, 0x70, 0x6f, 0x72, 0x74, 0x65, 0x64, 0x20, 0x61, 0x75, 0x74, 0x68, 0x65, 0x6e, 0x74, 0x69, 0x63, 0x61, 0x74, 0x69, 0x6f, 0x6e, 0x20, 0x6d, 0x65, 0x74, 0x68, 0x6f, 0x64];
    assert(r@ =~= lit_unsupported_auth());
    r
}

/// `unexpected message received`
pub open spec fn lit_unexpected_message() -> Seq<u8> {
    seq![0x75u8, 0x6e, 0x65, 0x78, 0x70, 0x65, 0x63, 0x74, 0x65, 0x64, 0x20, 0x6d, 0x65, 0x73, 0x73, 0x61, 0x67, 0x65, 0x20, 0x72, 0x65, 0x63, 0x65, 0x69, 0x76, 0x65, 0x64]
}

pub fn lit_unexpected_message_bytes() -> (r: &'static [u8])
    ensures
        r@ == lit_unexpected_message(),
{
    let r: &'static [u8] = &[0x75, 0x6e, 0x65, 0x78, 0x70, 0x65, 0x63, 0x74, 0x65, 0x64, 0x20, 0x6d, 0x65, 0x73, 0x73, 0x61, 0x67, 0x65, 0x20, 0x72, 0x65, 0x63, 0x65, 0x69, 0x76, 0x65, 0x64];
    assert(r@ =~= lit_unexpected_message());
    r
}

/// `password too long`
pub open spec fn lit_password_too_long() -> Seq<u8> {
    seq![0x70u8, 0x61, 0x73, 0x73, 0x77, 0x6f, 0x72, 0x64, 0x20, 0x74, 0x6f, 0x6f, 0x20, 0x6c, 0x6f, 0x6e, 0x67]
}

pub fn lit_password_too_long_bytes() -> (r: &'static [u8])
    ensures
        r@ == lit_password_too_long(),
{
    let r: &'static [u8] = &[0x70, 0x61, 0x73, 0x73, 0x77, 0x6f, 0x72, 0x64, 0x20, 0x74, 0x6f, 0x6f, 0x20, 0x6c, 0x6f, 0x6e, 0x67];
    assert(r@ =~= lit_password_too_long());
    r
}

/// `MessageTooBig`
pub open spec fn lit_message_too_big() -> Seq<u8> {
    seq![0x4du8, 0x65, 0x73, 0x73, 0x61, 0x67, 0x65, 0x54, 0x6f, 0x6f, 0x42, 0x69, 0x67]
}

pub fn lit_message_too_big_bytes() -> (r: &'static [u8])
    ensures
        r@ == lit_message_too_big(),
{
    let r: &'static [u8] = &[0x4d, 0x65, 0x73, 0x73, 0x61, 0x67, 0x65, 0x54, 0x6f, 0x6f, 0x42, 0x69, 0x67];
    assert(r@ =~= lit_message_too_big());
    r
}

/// `InvalidMessageLength`
pub open spec fn lit_invalid_message_length() -> Seq<u8> {
    seq![0x49u8, 0x6e, 0x76, 0x61, 0x6c, 0x69, 0x64, 0x4d, 0x65, 0x73, 0x73, 0x61, 0x67, 0x65, 0x4c, 0x65, 0x6e, 0x67, 0x74, 0x68]
}

pub fn lit_invalid_message_length_bytes() -> (r: &'static [u8])
    ensures
        r@ == lit_invalid_message_length(),
{
    let r: &'static [u8] = &[0x49, 0x6e, 0x76, 0x61, 0x6c, 0x69, 0x64, 0x4d, 0x65, 0x73, 0x73, 0x61, 0x67, 0x65, 0x4c, 0x65, 0x6e, 0x67, 0x74, 0x68];
    assert(r@ =~= lit_invalid_message_length());
    r
}

/// `InvalidDatumLength`
pub open spec fn lit_invalid_datum_length() -> Seq<u8> {
    seq![0x49u8, 0x6e, 0x76, 0x61, 0x6c, 0x69, 0x64, 0x44, 0x61, 0x74, 0x75, 0x6d, 0x4c, 0x65, 0x6e, 0x67, 0x74, 0x68]
}

pub fn lit_invalid_datum_length_bytes() -> (r: &'static [u8])
    ensures
        r@ == lit_invalid_datum_length(),
{
    let r: &'static [u8] = &[0x49, 0x6e, 0x76, 0x61, 0x6c, 0x69, 0x64, 0x44, 0x61, 0x74, 0x75, 0x6d, 0x4c, 0x65, 0x6e, 0x67, 0x74, 0x68];
    assert(r@ =~= lit_invalid_datum_length());
    r
}

/// `UnexpectedEndOfMessage`
pub open spec fn lit_unexpected_end() -> Seq<u8> {
    seq![0x55u8, 0x6e, 0x65, 0x78, 0x70, 0x65, 0x63, 0x74, 0x65, 0x64, 0x45, 0x6e, 0x64, 0x4f, 0x66, 0x4d, 0x65, 0x73, 0x73, 0x61, 0x67, 0x65]
}

pub fn lit_unexpected_end_bytes() -> (r: &'static [u8])
    ensures
        r@ == lit_unexpected_end(),
{
    let r: &'static [u8] = &[0x55, 0x6e, 0x65, 0x78, 0x70, 0x65, 0x63, 0x74, 0x65, 0x64, 0x45, 0x6e, 0x64, 0x4f, 0x66, 0x4d, 0x65, 0x73, 0x73, 0x61, 0x67, 0x65];
    assert(r@ =~= lit_unexpected_end());
    r
}

/// `UnexpectedTrailingData`
pub open spec fn lit_unexpected_trailing() -> Seq<u8> {
    seq![0x55u8, 0x6e, 0x65, 0x78, 0x70, 0x65, 0x63, 0x74, 0x65, 0x64, 0x54, 0x72, 0x61, 0x69, 0x6c, 0x69, 0x6e, 0x67, 0x44, 0x61, 0x74, 0x61]
}

pub fn lit_unexpected_trailing_bytes() -> (r: &'static [u8])
    ensures
        r@ == lit_unexpected_trailing(),
{
    let r: &'static [u8] = &[0x55, 0x6e, 0x65, 0x78, 0x70, 0x65, 0x63, 0x74, 0x65, 0x64, 0x54, 0x72, 0x61, 0x69, 0x6c, 0x69, 0x6e, 0x67, 0x44, 0x61, 0x74, 0x61];
    assert(r@ =~= lit_unexpected_trailing());
    r
}

/// `UnknownMessage`
pub open spec fn lit_unknown_message() -> Seq<u8> {
    seq![0x55u8, 0x6e, 0x6b, 0x6e, 0x6f, 0x77, 0x6e, 0x4d, 0x65, 0x73, 0x73, 0x61, 0x67, 0x65]
}

pub fn lit_unknown_message_bytes() -> (r: &'static [u8])
    ensures
        r@ == lit_unknown_message(),
{
    let r: &'static [u8] = &[0x55, 0x6e, 0x6b, 0x6e, 0x6f, 0x77, 0x6e, 0x4d, 0x65, 0x73, 0x73, 0x61, 0x67, 0x65];
    assert(r@ =~= lit_unknown_message());
    r
}

/// `SCRAM-SHA-256`
pub open spec fn lit_scram_sha256() -> Seq<u8> {
    seq![0x53u8, 0x43, 0x52, 0x41, 0x4d, 0x2d, 0x53, 0x48, 0x41, 0x2d, 0x32, 0x35, 0x36]
}

pub fn lit_scram_sha256_bytes() -> (r: &'static [u8])
    ensures
        r@ == lit_scram_sha256(),
{
    let r: &'static [u8] = &[0x53, 0x43, 0x52, 0x41, 0x4d, 0x2d, 0x53, 0x48, 0x41, 0x2d, 0x32, 0x35, 0x36];
    assert(r@ =~= lit_scram_sha256());
    r
}

/// `user`
pub open spec fn lit_user() -> Seq<u8> {
    seq![0x75u8, 0x73, 0x65, 0x72]
}

pub fn lit_user_bytes() -> (r: &'static [u8])
    ensures
        r@ == lit_user(),
{
    let r: &'static [u8] = &[0x75, 0x73, 0x65, 0x72];
    assert(r@ =~= lit_user());
    r
}

/// `COPY FROM STDIN not supported`
pub open spec fn lit_copy_fail_reason() -> Seq<u8> {
    seq![0x43u8, 0x4f, 0x50, 0x59, 0x20, 0x46, 0x52, 0x4f, 0x4d, 0x20, 0x53, 0x54, 0x44, 0x49, 0x4e, 0x20, 0x6e, 0x6f, 0x74, 0x20, 0x73, 0x75, 0x70, 0x70, 0x6f, 0x72, 0x74, 0x65, 0x64]
}

pub fn lit_copy_fail_reason_bytes() -> (r: &'static [u8])
    ensures
        r@ == lit_copy_fail_reason(),
{
    let r: &'static [u8] = &[0x43, 0x4f, 0x50, 0x59, 0x20, 0x46, 0x52, 0x4f, 0x4d, 0x20, 0x53, 0x54, 0x44, 0x49, 0x4e, 0x20, 0x6e, 0x6f, 0x74, 0x20, 0x73, 0x75, 0x70, 0x70, 0x6f, 0x72, 0x74, 0x65, 0x64];
    assert(r@ =~= lit_copy_fail_reason());
    r
}

/// `outgoing postgres message length should fit into i32`
pub open spec fn lit_message_too_long() -> Seq<u8> {
    seq![0x6fu8, 0x75, 0x74, 0x67, 0x6f, 0x69, 0x6e, 0x67, 0x20, 0x70, 0x6f, 0x73, 0x74, 0x67, 0x72, 0x65, 0x73, 0x20, 0x6d, 0x65, 0x73, 0x73, 0x61, 0x67, 0x65, 0x20, 0x6c, 0x65, 0x6e, 0x67, 0x74, 0x68, 0x20, 0x73, 0x68, 0x6f, 0x75, 0x6c, 0x64, 0x20, 0x66, 0x69, 0x74, 0x20, 0x69, 0x6e, 0x74, 0x6f, 0x20, 0x69, 0x33, 0x32]
}

pub fn lit_message_too_long_bytes() -> (r: &'static [u8])
    ensures
        r@ == lit_message_too_long(),
{
    let r: &'static [u8] = &[0x6f, 0x75, 0x74, 0x67, 0x6f, 0x69, 0x6e, 0x67, 0x20, 0x70, 0x6f, 0x73, 0x74, 0x67, 0x72, 0x65, 0x73, 0x20, 0x6d, 0x65, 0x73, 0x73, 0x61, 0x67, 0x65, 0x20, 0x6c, 0x65, 0x6e, 0x67, 0x74, 0x68, 0x20, 0x73, 0x68, 0x6f, 0x75, 0x6c, 0x64, 0x20, 0x66, 0x69, 0x74, 0x20, 0x69, 0x6e, 0x74, 0x6f, 0x20, 0x69, 0x33, 0x32];
    assert(r@ =~= lit_message_too_long());
    r
}

} // verus!
