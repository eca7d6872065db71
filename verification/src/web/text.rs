//! Fixed texts of the HTTP answers: bodies, content types, paths and connection options.
use vstd::prelude::*;

verus! {

/// `authentication token is no longer valid\n`
pub open spec fn lit_token_expired() -> Seq<u8> {
    seq![0x61u8, 0x75, 0x74, 0x68, 0x65, 0x6e, 0x74, 0x69, 0x63, 0x61, 0x74, 0x69, 0x6f, 0x6e, 0x20, 0x74, 0x6f, 0x6b, 0x65, 0x6e, 0x20, 0x69, 0x73, 0x20, 0x6e, 0x6f, 0x20, 0x6c, 0x6f, 0x6e, 0x67, 0x65, 0x72, 0x20, 0x76, 0x61, 0x6c, 0x69, 0x64, 0x0a]
}

pub fn lit_token_expired_bytes() -> (r: &'static [u8])
    ensures
        r@ == lit_token_expired(),
{
    let r: &'static [u8] = &[0x61, 0x75, 0x74, 0x68, 0x65, 0x6e, 0x74, 0x69, 0x63, 0x61, 0x74, 0x69, 0x6f, 0x6e, 0x20, 0x74, 0x6f, 0x6b, 0x65, 0x6e, 0x20, 0x69, 0x73, 0x20, 0x6e, 0x6f, 0x20, 0x6c, 0x6f, 0x6e, 0x67, 0x65, 0x72, 0x20, 0x76, 0x61, 0x6c, 0x69, 0x64, 0x0a];
    assert(r@ =~= lit_token_expired());
    r
}

/// `service unavailable\n`
pub open spec fn lit_unavailable() -> Seq<u8> {
    seq![0x73u8, 0x65, 0x72, 0x76, 0x69, 0x63, 0x65, 0x20, 0x75, 0x6e, 0x61, 0x76, 0x61, 0x69, 0x6c, 0x61, 0x62, 0x6c, 0x65, 0x0a]
}

pub fn lit_unavailable_bytes() -> (r: &'static [u8])
    ensures
        r@ == lit_unavailable(),
{
    let r: &'static [u8] = &[0x73, 0x65, 0x72, 0x76, 0x69, 0x63, 0x65, 0x20, 0x75, 0x6e, 0x61, 0x76, 0x61, 0x69, 0x6c, 0x61, 0x62, 0x6c, 0x65, 0x0a];
    assert(r@ =~= lit_unavailable());
    r
}

/// `unable to log in with the provided username and password\n`
pub open spec fn lit_login_failed() -> Seq<u8> {
    seq![0x75u8, 0x6e, 0x61, 0x62, 0x6c, 0x65, 0x20, 0x74, 0x6f, 0x20, 0x6c, 0x6f, 0x67, 0x20, 0x69, 0x6e, 0x20, 0x77, 0x69, 0x74, 0x68, 0x20, 0x74, 0x68, 0x65, 0x20, 0x70, 0x72, 0x6f, 0x76, 0x69, 0x64, 0x65, 0x64, 0x20, 0x75, 0x73, 0x65, 0x72, 0x6e, 0x61, 0x6d, 0x65, 0x20, 0x61, 0x6e, 0x64, 0x20, 0x70, 0x61, 0x73, 0x73, 0x77, 0x6f, 0x72, 0x64, 0x0a]
}

pub fn lit_login_failed_bytes() -> (r: &'static [u8])
    ensures
        r@ == lit_login_failed(),
{
    let r: &'static [u8] = &[0x75, 0x6e, 0x61, 0x62, 0x6c, 0x65, 0x20, 0x74, 0x6f, 0x20, 0x6c, 0x6f, 0x67, 0x20, 0x69, 0x6e, 0x20, 0x77, 0x69, 0x74, 0x68, 0x20, 0x74, 0x68, 0x65, 0x20, 0x70, 0x72, 0x6f, 0x76, 0x69, 0x64, 0x65, 0x64, 0x20, 0x75, 0x73, 0x65, 0x72, 0x6e, 0x61, 0x6d, 0x65, 0x20, 0x61, 0x6e, 0x64, 0x20, 0x70, 0x61, 0x73, 0x73, 0x77, 0x6f, 0x72, 0x64, 0x0a];
    assert(r@ =~= lit_login_failed());
    r
}

/// `unauthorized\n`
pub open spec fn lit_unauthorized() -> Seq<u8> {
    seq![0x75u8, 0x6e, 0x61, 0x75, 0x74, 0x68, 0x6f, 0x72, 0x69, 0x7a, 0x65, 0x64, 0x0a]
}

pub fn lit_unauthorized_bytes() -> (r: &'static [u8])
    ensures
        r@ == lit_unauthorized(),
{
    let r: &'static [u8] = &[0x75, 0x6e, 0x61, 0x75, 0x74, 0x68, 0x6f, 0x72, 0x69, 0x7a, 0x65, 0x64, 0x0a];
    assert(r@ =~= lit_unauthorized());
    r
}

/// `internal server error\n`
pub open spec fn lit_internal_error() -> Seq<u8> {
    seq![0x69u8, 0x6e, 0x74, 0x65, 0x72, 0x6e, 0x61, 0x6c, 0x20, 0x73, 0x65, 0x72, 0x76, 0x65, 0x72, 0x20, 0x65, 0x72, 0x72, 0x6f, 0x72, 0x0a]
}

pub fn lit_internal_error_bytes() -> (r: &'static [u8])
    ensures
        r@ == lit_internal_error(),
{
    let r: &'static [u8] = &[0x69, 0x6e, 0x74, 0x65, 0x72, 0x6e, 0x61, 0x6c, 0x20, 0x73, 0x65, 0x72, 0x76, 0x65, 0x72, 0x20, 0x65, 0x72, 0x72, 0x6f, 0x72, 0x0a];
    assert(r@ =~= lit_internal_error());
    r
}

/// `not found\n`
pub open spec fn lit_not_found() -> Seq<u8> {
    seq![0x6eu8, 0x6f, 0x74, 0x20, 0x66, 0x6f, 0x75, 0x6e, 0x64, 0x0a]
}

pub fn lit_not_found_bytes() -> (r: &'static [u8])
    ensures
        r@ == lit_not_found(),
{
    let r: &'static [u8] = &[0x6e, 0x6f, 0x74, 0x20, 0x66, 0x6f, 0x75, 0x6e, 0x64, 0x0a];
    assert(r@ =~= lit_not_found());
    r
}

/// `ok\n`
pub open spec fn lit_ok() -> Seq<u8> {
    seq![0x6fu8, 0x6b, 0x0a]
}

pub fn lit_ok_bytes() -> (r: &'static [u8])
    ensures
        r@ == lit_ok(),
{
    let r: &'static [u8] = &[0x6f, 0x6b, 0x0a];
    assert(r@ =~= lit_ok());
    r
}

/// `fail\n`
pub open spec fn lit_fail() -> Seq<u8> {
    seq![0x66u8, 0x61, 0x69, 0x6c, 0x0a]
}

pub fn lit_fail_bytes() -> (r: &'static [u8])
    ensures
        r@ == lit_fail(),
{
    let r: &'static [u8] = &[0x66, 0x61, 0x69, 0x6c, 0x0a];
    assert(r@ =~= lit_fail());
    r
}

/// `{"token":"`
pub open spec fn lit_token_open() -> Seq<u8> {
    seq![0x7bu8, 0x22, 0x74, 0x6f, 0x6b, 0x65, 0x6e, 0x22, 0x3a, 0x22]
}

pub fn lit_token_open_bytes() -> (r: &'static [u8])
    ensures
        r@ == lit_token_open(),
{
    let r: &'static [u8] = &[0x7b, 0x22, 0x74, 0x6f, 0x6b, 0x65, 0x6e, 0x22, 0x3a, 0x22];
    assert(r@ =~= lit_token_open());
    r
}

/// `"}\n`
pub open spec fn lit_token_close() -> Seq<u8> {
    seq![0x22u8, 0x7d, 0x0a]
}

pub fn lit_token_close_bytes() -> (r: &'static [u8])
    ensures
        r@ == lit_token_close(),
{
    let r: &'static [u8] = &[0x22, 0x7d, 0x0a];
    assert(r@ =~= lit_token_close());
    r
}

/// `\n`
pub open spec fn lit_newline() -> Seq<u8> {
    seq![0x0au8]
}

pub fn lit_newline_bytes() -> (r: &'static [u8])
    ensures
        r@ == lit_newline(),
{
    let r: &'static [u8] = &[0x0a];
    assert(r@ =~= lit_newline());
    r
}

/// `text/x-ndjson; charset=utf-8`
pub open spec fn lit_ndjson() -> Seq<u8> {
    seq![0x74u8, 0x65, 0x78, 0x74, 0x2f, 0x78, 0x2d, 0x6e, 0x64, 0x6a, 0x73, 0x6f, 0x6e, 0x3b, 0x20, 0x63, 0x68, 0x61, 0x72, 0x73, 0x65, 0x74, 0x3d, 0x75, 0x74, 0x66, 0x2d, 0x38]
}

pub fn lit_ndjson_bytes() -> (r: &'static [u8])
    ensures
        r@ == lit_ndjson(),
{
    let r: &'static [u8] = &[0x74, 0x65, 0x78, 0x74, 0x2f, 0x78, 0x2d, 0x6e, 0x64, 0x6a, 0x73, 0x6f, 0x6e, 0x3b, 0x20, 0x63, 0x68, 0x61, 0x72, 0x73, 0x65, 0x74, 0x3d, 0x75, 0x74, 0x66, 0x2d, 0x38];
    assert(r@ =~= lit_ndjson());
    r
}

/// `text/plain; charset=utf-8`
pub open spec fn lit_plain() -> Seq<u8> {
    seq![0x74u8, 0x65, 0x78, 0x74, 0x2f, 0x70, 0x6c, 0x61, 0x69, 0x6e, 0x3b, 0x20, 0x63, 0x68, 0x61, 0x72, 0x73, 0x65, 0x74, 0x3d, 0x75, 0x74, 0x66, 0x2d, 0x38]
}

pub fn lit_plain_bytes() -> (r: &'static [u8])
    ensures
        r@ == lit_plain(),
{
    let r: &'static [u8] = &[0x74, 0x65, 0x78, 0x74, 0x2f, 0x70, 0x6c, 0x61, 0x69, 0x6e, 0x3b, 0x20, 0x63, 0x68, 0x61, 0x72, 0x73, 0x65, 0x74, 0x3d, 0x75, 0x74, 0x66, 0x2d, 0x38];
    assert(r@ =~= lit_plain());
    r
}

/// `application/json`
pub open spec fn lit_json() -> Seq<u8> {
    seq![0x61u8, 0x70, 0x70, 0x6c, 0x69, 0x63, 0x61, 0x74, 0x69, 0x6f, 0x6e, 0x2f, 0x6a, 0x73, 0x6f, 0x6e]
}

pub fn lit_json_bytes() -> (r: &'static [u8])
    ensures
        r@ == lit_json(),
{
    let r: &'static [u8] = &[0x61, 0x70, 0x70, 0x6c, 0x69, 0x63, 0x61, 0x74, 0x69, 0x6f, 0x6e, 0x2f, 0x6a, 0x73, 0x6f, 0x6e];
    assert(r@ =~= lit_json());
    r
}

/// `application/octet-stream`
pub open spec fn lit_octet_stream() -> Seq<u8> {
    seq![0x61u8, 0x70, 0x70, 0x6c, 0x69, 0x63, 0x61, 0x74, 0x69, 0x6f, 0x6e, 0x2f, 0x6f, 0x63, 0x74, 0x65, 0x74, 0x2d, 0x73, 0x74, 0x72, 0x65, 0x61, 0x6d]
}

pub fn lit_octet_stream_bytes() -> (r: &'static [u8])
    ensures
        r@ == lit_octet_stream(),
{
    let r: &'static [u8] = &[0x61, 0x70, 0x70, 0x6c, 0x69, 0x63, 0x61, 0x74, 0x69, 0x6f, 0x6e, 0x2f, 0x6f, 0x63, 0x74, 0x65, 0x74, 0x2d, 0x73, 0x74, 0x72, 0x65, 0x61, 0x6d];
    assert(r@ =~= lit_octet_stream());
    r
}

/// `text/html; charset=utf-8`
pub open spec fn lit_html() -> Seq<u8> {
    seq![0x74u8, 0x65, 0x78, 0x74, 0x2f, 0x68, 0x74, 0x6d, 0x6c, 0x3b, 0x20, 0x63, 0x68, 0x61, 0x72, 0x73, 0x65, 0x74, 0x3d, 0x75, 0x74, 0x66, 0x2d, 0x38]
}

pub fn lit_html_bytes() -> (r: &'static [u8])
    ensures
        r@ == lit_html(),
{
    let r: &'static [u8] = &[0x74, 0x65, 0x78, 0x74, 0x2f, 0x68, 0x74, 0x6d, 0x6c, 0x3b, 0x20, 0x63, 0x68, 0x61, 0x72, 0x73, 0x65, 0x74, 0x3d, 0x75, 0x74, 0x66, 0x2d, 0x38];
    assert(r@ =~= lit_html());
    r
}

/// `image/svg+xml; charset=utf-8`
pub open spec fn lit_svg() -> Seq<u8> {
    seq![0x69u8, 0x6d, 0x61, 0x67, 0x65, 0x2f, 0x73, 0x76, 0x67, 0x2b, 0x78, 0x6d, 0x6c, 0x3b, 0x20, 0x63, 0x68, 0x61, 0x72, 0x73, 0x65, 0x74, 0x3d, 0x75, 0x74, 0x66, 0x2d, 0x38]
}

pub fn lit_svg_bytes() -> (r: &'static [u8])
    ensures
        r@ == lit_svg(),
{
    let r: &'static [u8] = &[0x69, 0x6d, 0x61, 0x67, 0x65, 0x2f, 0x73, 0x76, 0x67, 0x2b, 0x78, 0x6d, 0x6c, 0x3b, 0x20, 0x63, 0x68, 0x61, 0x72, 0x73, 0x65, 0x74, 0x3d, 0x75, 0x74, 0x66, 0x2d, 0x38];
    assert(r@ =~= lit_svg());
    r
}

/// `text/javascript; charset=utf-8`
pub open spec fn lit_javascript() -> Seq<u8> {
    seq![0x74u8, 0x65, 0x78, 0x74, 0x2f, 0x6a, 0x61, 0x76, 0x61, 0x73, 0x63, 0x72, 0x69, 0x70, 0x74, 0x3b, 0x20, 0x63, 0x68, 0x61, 0x72, 0x73, 0x65, 0x74, 0x3d, 0x75, 0x74, 0x66, 0x2d, 0x38]
}

pub fn lit_javascript_bytes() -> (r: &'static [u8])
    ensures
        r@ == lit_javascript(),
{
    let r: &'static [u8] = &[0x74, 0x65, 0x78, 0x74, 0x2f, 0x6a, 0x61, 0x76, 0x61, 0x73, 0x63, 0x72, 0x69, 0x70, 0x74, 0x3b, 0x20, 0x63, 0x68, 0x61, 0x72, 0x73, 0x65, 0x74, 0x3d, 0x75, 0x74, 0x66, 0x2d, 0x38];
    assert(r@ =~= lit_javascript());
    r
}

/// `text/css; charset=utf-8`
pub open spec fn lit_css() -> Seq<u8> {
    seq![0x74u8, 0x65, 0x78, 0x74, 0x2f, 0x63, 0x73, 0x73, 0x3b, 0x20, 0x63, 0x68, 0x61, 0x72, 0x73, 0x65, 0x74, 0x3d, 0x75, 0x74, 0x66, 0x2d, 0x38]
}

pub fn lit_css_bytes() -> (r: &'static [u8])
    ensures
        r@ == lit_css(),
{
    let r: &'static [u8] = &[0x74, 0x65, 0x78, 0x74, 0x2f, 0x63, 0x73, 0x73, 0x3b, 0x20, 0x63, 0x68, 0x61, 0x72, 0x73, 0x65, 0x74, 0x3d, 0x75, 0x74, 0x66, 0x2d, 0x38];
    assert(r@ =~= lit_css());
    r
}

/// `font/woff2`
pub open spec fn lit_woff2() -> Seq<u8> {
    seq![0x66u8, 0x6f, 0x6e, 0x74, 0x2f, 0x77, 0x6f, 0x66, 0x66, 0x32]
}

pub fn lit_woff2_bytes() -> (r: &'static [u8])
    ensures
        r@ == lit_woff2(),
{
    let r: &'static [u8] = &[0x66, 0x6f, 0x6e, 0x74, 0x2f, 0x77, 0x6f, 0x66, 0x66, 0x32];
    assert(r@ =~= lit_woff2());
    r
}

/// `/`
pub open spec fn lit_root() -> Seq<u8> {
    seq![0x2fu8]
}

pub fn lit_root_bytes() -> (r: &'static [u8])
    ensures
        r@ == lit_root(),
{
    let r: &'static [u8] = &[0x2f];
    assert(r@ =~= lit_root());
    r
}

/// `/index.html`
pub open spec fn lit_index_html() -> Seq<u8> {
    seq![0x2fu8, 0x69, 0x6e, 0x64, 0x65, 0x78, 0x2e, 0x68, 0x74, 0x6d, 0x6c]
}

pub fn lit_index_html_bytes() -> (r: &'static [u8])
    ensures
        r@ == lit_index_html(),
{
    let r: &'static [u8] = &[0x2f, 0x69, 0x6e, 0x64, 0x65, 0x78, 0x2e, 0x68, 0x74, 0x6d, 0x6c];
    assert(r@ =~= lit_index_html());
    r
}

/// `/favicon.svg`
pub open spec fn lit_favicon_svg() -> Seq<u8> {
    seq![0x2fu8, 0x66, 0x61, 0x76, 0x69, 0x63, 0x6f, 0x6e, 0x2e, 0x73, 0x76, 0x67]
}

pub fn lit_favicon_svg_bytes() -> (r: &'static [u8])
    ensures
        r@ == lit_favicon_svg(),
{
    let r: &'static [u8] = &[0x2f, 0x66, 0x61, 0x76, 0x69, 0x63, 0x6f, 0x6e, 0x2e, 0x73, 0x76, 0x67];
    assert(r@ =~= lit_favicon_svg());
    r
}

/// `/main.js`
pub open spec fn lit_main_js() -> Seq<u8> {
    seq![0x2fu8, 0x6d, 0x61, 0x69, 0x6e, 0x2e, 0x6a, 0x73]
}

pub fn lit_main_js_bytes() -> (r: &'static [u8])
    ensures
        r@ == lit_main_js(),
{
    let r: &'static [u8] = &[0x2f, 0x6d, 0x61, 0x69, 0x6e, 0x2e, 0x6a, 0x73];
    assert(r@ =~= lit_main_js());
    r
}

/// `/map.js`
pub open spec fn lit_map_js() -> Seq<u8> {
    seq![0x2fu8, 0x6d, 0x61, 0x70, 0x2e, 0x6a, 0x73]
}

pub fn lit_map_js_bytes() -> (r: &'static [u8])
    ensures
        r@ == lit_map_js(),
{
    let r: &'static [u8] = &[0x2f, 0x6d, 0x61, 0x70, 0x2e, 0x6a, 0x73];
    assert(r@ =~= lit_map_js());
    r
}

/// `/style.css`
pub open spec fn lit_style_css() -> Seq<u8> {
    seq![0x2fu8, 0x73, 0x74, 0x79, 0x6c, 0x65, 0x2e, 0x63, 0x73, 0x73]
}

pub fn lit_style_css_bytes() -> (r: &'static [u8])
    ensures
        r@ == lit_style_css(),
{
    let r: &'static [u8] = &[0x2f, 0x73, 0x74, 0x79, 0x6c, 0x65, 0x2e, 0x63, 0x73, 0x73];
    assert(r@ =~= lit_style_css());
    r
}

/// `./ui`
pub open spec fn lit_ui_dir() -> Seq<u8> {
    seq![0x2eu8, 0x2f, 0x75, 0x69]
}

pub fn lit_ui_dir_bytes() -> (r: &'static [u8])
    ensures
        r@ == lit_ui_dir(),
{
    let r: &'static [u8] = &[0x2e, 0x2f, 0x75, 0x69];
    assert(r@ =~= lit_ui_dir());
    r
}

/// `.html`
pub open spec fn lit_ext_html() -> Seq<u8> {
    seq![0x2eu8, 0x68, 0x74, 0x6d, 0x6c]
}

pub fn lit_ext_html_bytes() -> (r: &'static [u8])
    ensures
        r@ == lit_ext_html(),
{
    let r: &'static [u8] = &[0x2e, 0x68, 0x74, 0x6d, 0x6c];
    assert(r@ =~= lit_ext_html());
    r
}

/// `.css`
pub open spec fn lit_ext_css() -> Seq<u8> {
    seq![0x2eu8, 0x63, 0x73, 0x73]
}

pub fn lit_ext_css_bytes() -> (r: &'static [u8])
    ensures
        r@ == lit_ext_css(),
{
    let r: &'static [u8] = &[0x2e, 0x63, 0x73, 0x73];
    assert(r@ =~= lit_ext_css());
    r
}

/// `.js`
pub open spec fn lit_ext_js() -> Seq<u8> {
    seq![0x2eu8, 0x6a, 0x73]
}

pub fn lit_ext_js_bytes() -> (r: &'static [u8])
    ensures
        r@ == lit_ext_js(),
{
    let r: &'static [u8] = &[0x2e, 0x6a, 0x73];
    assert(r@ =~= lit_ext_js());
    r
}

/// `.svg`
pub open spec fn lit_ext_svg() -> Seq<u8> {
    seq![0x2eu8, 0x73, 0x76, 0x67]
}

pub fn lit_ext_svg_bytes() -> (r: &'static [u8])
    ensures
        r@ == lit_ext_svg(),
{
    let r: &'static [u8] = &[0x2e, 0x73, 0x76, 0x67];
    assert(r@ =~= lit_ext_svg());
    r
}

/// `.woff2`
pub open spec fn lit_ext_woff2() -> Seq<u8> {
    seq![0x2eu8, 0x77, 0x6f, 0x66, 0x66, 0x32]
}

pub fn lit_ext_woff2_bytes() -> (r: &'static [u8])
    ensures
        r@ == lit_ext_woff2(),
{
    let r: &'static [u8] = &[0x2e, 0x77, 0x6f, 0x66, 0x66, 0x32];
    assert(r@ =~= lit_ext_woff2());
    r
}

/// `index.html`
pub open spec fn lit_bundle_index() -> Seq<u8> {
    seq![0x69u8, 0x6e, 0x64, 0x65, 0x78, 0x2e, 0x68, 0x74, 0x6d, 0x6c]
}

pub fn lit_bundle_index_bytes() -> (r: &'static [u8])
    ensures
        r@ == lit_bundle_index(),
{
    let r: &'static [u8] = &[0x69, 0x6e, 0x64, 0x65, 0x78, 0x2e, 0x68, 0x74, 0x6d, 0x6c];
    assert(r@ =~= lit_bundle_index());
    r
}

/// `favicon.svg`
pub open spec fn lit_bundle_favicon() -> Seq<u8> {
    seq![0x66u8, 0x61, 0x76, 0x69, 0x63, 0x6f, 0x6e, 0x2e, 0x73, 0x76, 0x67]
}

pub fn lit_bundle_favicon_bytes() -> (r: &'static [u8])
    ensures
        r@ == lit_bundle_favicon(),
{
    let r: &'static [u8] = &[0x66, 0x61, 0x76, 0x69, 0x63, 0x6f, 0x6e, 0x2e, 0x73, 0x76, 0x67];
    assert(r@ =~= lit_bundle_favicon());
    r
}

/// `main.js.gz`
pub open spec fn lit_bundle_main() -> Seq<u8> {
    seq![0x6du8, 0x61, 0x69, 0x6e, 0x2e, 0x6a, 0x73, 0x2e, 0x67, 0x7a]
}

pub fn lit_bundle_main_bytes() -> (r: &'static [u8])
    ensures
        r@ == lit_bundle_main(),
{
    let r: &'static [u8] = &[0x6d, 0x61, 0x69, 0x6e, 0x2e, 0x6a, 0x73, 0x2e, 0x67, 0x7a];
    assert(r@ =~= lit_bundle_main());
    r
}

/// `map.js.gz`
pub open spec fn lit_bundle_map() -> Seq<u8> {
    seq![0x6du8, 0x61, 0x70, 0x2e, 0x6a, 0x73, 0x2e, 0x67, 0x7a]
}

pub fn lit_bundle_map_bytes() -> (r: &'static [u8])
    ensures
        r@ == lit_bundle_map(),
{
    let r: &'static [u8] = &[0x6d, 0x61, 0x70, 0x2e, 0x6a, 0x73, 0x2e, 0x67, 0x7a];
    assert(r@ =~= lit_bundle_map());
    r
}

/// `style.css.gz`
pub open spec fn lit_bundle_style() -> Seq<u8> {
    seq![0x73u8, 0x74, 0x79, 0x6c, 0x65, 0x2e, 0x63, 0x73, 0x73, 0x2e, 0x67, 0x7a]
}

pub fn lit_bundle_style_bytes() -> (r: &'static [u8])
    ensures
        r@ == lit_bundle_style(),
{
    let r: &'static [u8] = &[0x73, 0x74, 0x79, 0x6c, 0x65, 0x2e, 0x63, 0x73, 0x73, 0x2e, 0x67, 0x7a];
    assert(r@ =~= lit_bundle_style());
    r
}

/// `statement_timeout`
pub open spec fn lit_opt_statement_timeout() -> Seq<u8> {
    seq![0x73u8, 0x74, 0x61, 0x74, 0x65, 0x6d, 0x65, 0x6e, 0x74, 0x5f, 0x74, 0x69, 0x6d, 0x65, 0x6f, 0x75, 0x74]
}

pub fn lit_opt_statement_timeout_bytes() -> (r: &'static [u8])
    ensures
        r@ == lit_opt_statement_timeout(),
{
    let r: &'static [u8] = &[0x73, 0x74, 0x61, 0x74, 0x65, 0x6d, 0x65, 0x6e, 0x74, 0x5f, 0x74, 0x69, 0x6d, 0x65, 0x6f, 0x75, 0x74];
    assert(r@ =~= lit_opt_statement_timeout());
    r
}

/// `10s`
pub open spec fn lit_val_10s() -> Seq<u8> {
    seq![0x31u8, 0x30, 0x73]
}

pub fn lit_val_10s_bytes() -> (r: &'static [u8])
    ensures
        r@ == lit_val_10s(),
{
    let r: &'static [u8] = &[0x31, 0x30, 0x73];
    assert(r@ =~= lit_val_10s());
    r
}

/// `default_transaction_read_only`
pub open spec fn lit_opt_read_only() -> Seq<u8> {
    seq![0x64u8, 0x65, 0x66, 0x61, 0x75, 0x6c, 0x74, 0x5f, 0x74, 0x72, 0x61, 0x6e, 0x73, 0x61, 0x63, 0x74, 0x69, 0x6f, 0x6e, 0x5f, 0x72, 0x65, 0x61, 0x64, 0x5f, 0x6f, 0x6e, 0x6c, 0x79]
}

pub fn lit_opt_read_only_bytes() -> (r: &'static [u8])
    ensures
        r@ == lit_opt_read_only(),
{
    let r: &'static [u8] = &[0x64, 0x65, 0x66, 0x61, 0x75, 0x6c, 0x74, 0x5f, 0x74, 0x72, 0x61, 0x6e, 0x73, 0x61, 0x63, 0x74, 0x69, 0x6f, 0x6e, 0x5f, 0x72, 0x65, 0x61, 0x64, 0x5f, 0x6f, 0x6e, 0x6c, 0x79];
    assert(r@ =~= lit_opt_read_only());
    r
}

/// `on`
pub open spec fn lit_val_on() -> Seq<u8> {
    seq![0x6fu8, 0x6e]
}

pub fn lit_val_on_bytes() -> (r: &'static [u8])
    ensures
        r@ == lit_val_on(),
{
    let r: &'static [u8] = &[0x6f, 0x6e];
    assert(r@ =~= lit_val_on());
    r
}

/// `search_path`
pub open spec fn lit_opt_search_path() -> Seq<u8> {
    seq![0x73u8, 0x65, 0x61, 0x72, 0x63, 0x68, 0x5f, 0x70, 0x61, 0x74, 0x68]
}

pub fn lit_opt_search_path_bytes() -> (r: &'static [u8])
    ensures
        r@ == lit_opt_search_path(),
{
    let r: &'static [u8] = &[0x73, 0x65, 0x61, 0x72, 0x63, 0x68, 0x5f, 0x70, 0x61, 0x74, 0x68];
    assert(r@ =~= lit_opt_search_path());
    r
}

/// `pg_catalog`
pub open spec fn lit_val_pg_catalog() -> Seq<u8> {
    seq![0x70u8, 0x67, 0x5f, 0x63, 0x61, 0x74, 0x61, 0x6c, 0x6f, 0x67]
}

pub fn lit_val_pg_catalog_bytes() -> (r: &'static [u8])
    ensures
        r@ == lit_val_pg_catalog(),
{
    let r: &'static [u8] = &[0x70, 0x67, 0x5f, 0x63, 0x61, 0x74, 0x61, 0x6c, 0x6f, 0x67];
    assert(r@ =~= lit_val_pg_catalog());
    r
}

/// `database`
pub open spec fn lit_opt_database() -> Seq<u8> {
    seq![0x64u8, 0x61, 0x74, 0x61, 0x62, 0x61, 0x73, 0x65]
}

pub fn lit_opt_database_bytes() -> (r: &'static [u8])
    ensures
        r@ == lit_opt_database(),
{
    let r: &'static [u8] = &[0x64, 0x61, 0x74, 0x61, 0x62, 0x61, 0x73, 0x65];
    assert(r@ =~= lit_opt_database());
    r
}

/// `timezone`
pub open spec fn lit_opt_timezone() -> Seq<u8> {
    seq![0x74u8, 0x69, 0x6d, 0x65, 0x7a, 0x6f, 0x6e, 0x65]
}

pub fn lit_opt_timezone_bytes() -> (r: &'static [u8])
    ensures
        r@ == lit_opt_timezone(),
{
    let r: &'static [u8] = &[0x74, 0x69, 0x6d, 0x65, 0x7a, 0x6f, 0x6e, 0x65];
    assert(r@ =~= lit_opt_timezone());
    r
}

/// `postgres`
pub open spec fn lit_val_postgres() -> Seq<u8> {
    seq![0x70u8, 0x6f, 0x73, 0x74, 0x67, 0x72, 0x65, 0x73]
}

pub fn lit_val_postgres_bytes() -> (r: &'static [u8])
    ensures
        r@ == lit_val_postgres(),
{
    let r: &'static [u8] = &[0x70, 0x6f, 0x73, 0x74, 0x67, 0x72, 0x65, 0x73];
    assert(r@ =~= lit_val_postgres());
    r
}

/// `client_min_messages`
pub open spec fn lit_opt_client_min_messages() -> Seq<u8> {
    seq![0x63u8, 0x6c, 0x69, 0x65, 0x6e, 0x74, 0x5f, 0x6d, 0x69, 0x6e, 0x5f, 0x6d, 0x65, 0x73, 0x73, 0x61, 0x67, 0x65, 0x73]
}

pub fn lit_opt_client_min_messages_bytes() -> (r: &'static [u8])
    ensures
        r@ == lit_opt_client_min_messages(),
{
    let r: &'static [u8] = &[0x63, 0x6c, 0x69, 0x65, 0x6e, 0x74, 0x5f, 0x6d, 0x69, 0x6e, 0x5f, 0x6d, 0x65, 0x73, 0x73, 0x61, 0x67, 0x65, 0x73];
    assert(r@ =~= lit_opt_client_min_messages());
    r
}

/// `NOTICE`
pub open spec fn lit_val_notice() -> Seq<u8> {
    seq![0x4eu8, 0x4f, 0x54, 0x49, 0x43, 0x45]
}

pub fn lit_val_notice_bytes() -> (r: &'static [u8])
    ensures
        r@ == lit_val_notice(),
{
    let r: &'static [u8] = &[0x4e, 0x4f, 0x54, 0x49, 0x43, 0x45];
    assert(r@ =~= lit_val_notice());
    r
}

/// `application_name`
pub open spec fn lit_opt_application_name() -> Seq<u8> {
    seq![0x61u8, 0x70, 0x70, 0x6c, 0x69, 0x63, 0x61, 0x74, 0x69, 0x6f, 0x6e, 0x5f, 0x6e, 0x61, 0x6d, 0x65]
}

pub fn lit_opt_application_name_bytes() -> (r: &'static [u8])
    ensures
        r@ == lit_opt_application_name(),
{
    let r: &'static [u8] = &[0x61, 0x70, 0x70, 0x6c, 0x69, 0x63, 0x61, 0x74, 0x69, 0x6f, 0x6e, 0x5f, 0x6e, 0x61, 0x6d, 0x65];
    assert(r@ =~= lit_opt_application_name());
    r
}

/// `pgbb`
pub open spec fn lit_val_pgbb() -> Seq<u8> {
    seq![0x70u8, 0x67, 0x62, 0x62]
}

pub fn lit_val_pgbb_bytes() -> (r: &'static [u8])
    ensures
        r@ == lit_val_pgbb(),
{
    let r: &'static [u8] = &[0x70, 0x67, 0x62, 0x62];
    assert(r@ =~= lit_val_pgbb());
    r
}

/// `client_encoding`
pub open spec fn lit_opt_client_encoding() -> Seq<u8> {
    seq![0x63u8, 0x6c, 0x69, 0x65, 0x6e, 0x74, 0x5f, 0x65, 0x6e, 0x63, 0x6f, 0x64, 0x69, 0x6e, 0x67]
}

pub fn lit_opt_client_encoding_bytes() -> (r: &'static [u8])
    ensures
        r@ == lit_opt_client_encoding(),
{
    let r: &'static [u8] = &[0x63, 0x6c, 0x69, 0x65, 0x6e, 0x74, 0x5f, 0x65, 0x6e, 0x63, 0x6f, 0x64, 0x69, 0x6e, 0x67];
    assert(r@ =~= lit_opt_client_encoding());
    r
}

/// `UTF8`
pub open spec fn lit_val_utf8() -> Seq<u8> {
    seq![0x55u8, 0x54, 0x46, 0x38]
}

pub fn lit_val_utf8_bytes() -> (r: &'static [u8])
    ensures
        r@ == lit_val_utf8(),
{
    let r: &'static [u8] = &[0x55, 0x54, 0x46, 0x38];
    assert(r@ =~= lit_val_utf8());
    r
}

} // verus!
