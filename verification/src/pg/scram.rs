//! The client side of SCRAM-SHA-256 authentication (RFC 5802, RFC 7677)
//! as Postgres uses it: no channel binding, an empty user name in the
//! messages, and a lax SASLprep of the password.
use vstd::prelude::*;
use vstd::utf8::valid_utf8;

use unicode_normalization::UnicodeNormalization;

use crate::crypto::{
    base64_decode,
    base64_decoded,
    base64_encode,
    base64_encoded,
    constant_time_eq,
    hmac_sha256,
    hmac_sha256_mac,
    pbkdf2_hmac_sha256,
    pbkdf2_sha256_key,
    random_bytes,
    sha256,
    sha256_digest,
};
use crate::utf8::{
    decode_scalar_at,
    is_ascii,
    is_ascii_bytes,
    is_valid_utf8,
    lemma_scalar_len_bounds,
    scalar_at,
    scalar_len_at,
    scalar_value_at,
};

use crate::run::text::push_all;

verus! {

// ---------------------------------------------------------------------------
// Errors
// ---------------------------------------------------------------------------

/// Why a SCRAM exchange failed.
#[derive(Debug, Clone)]
pub enum ScramError {
    /// The generator of random bytes failed.
    RandomUnavailable,
    NonUtf8ServerFirstMessage,
    BadNonce,
    BadSalt,
    BadIterationCount,
    UnexpectedAttribute,
    NonUtf8ServerFinalMessage,
    /// The server sent an `e=` attribute; the value follows.
    ServerError(Vec<u8>),
    BadServerSignature,
    SignatureMismatch,
}

/// The view of a [`ScramError`].
pub enum ScramErrorView {
    RandomUnavailable,
    NonUtf8ServerFirstMessage,
    BadNonce,
    BadSalt,
    BadIterationCount,
    UnexpectedAttribute,
    NonUtf8ServerFinalMessage,
    ServerError(Seq<u8>),
    BadServerSignature,
    SignatureMismatch,
}

impl View for ScramError {
    type V = ScramErrorView;

    open spec fn view(&self) -> ScramErrorView {
        match self {
            ScramError::RandomUnavailable => ScramErrorView::RandomUnavailable,
            ScramError::NonUtf8ServerFirstMessage => ScramErrorView::NonUtf8ServerFirstMessage,
            ScramError::BadNonce => ScramErrorView::BadNonce,
            ScramError::BadSalt => ScramErrorView::BadSalt,
            ScramError::BadIterationCount => ScramErrorView::BadIterationCount,
            ScramError::UnexpectedAttribute => ScramErrorView::UnexpectedAttribute,
            ScramError::NonUtf8ServerFinalMessage => ScramErrorView::NonUtf8ServerFinalMessage,
            ScramError::ServerError(m) => ScramErrorView::ServerError(m@),
            ScramError::BadServerSignature => ScramErrorView::BadServerSignature,
            ScramError::SignatureMismatch => ScramErrorView::SignatureMismatch,
        }
    }
}

/// The text of an error message for `e`.
pub open spec fn scram_error_message(e: ScramErrorView) -> Seq<u8> {
    match e {
        ScramErrorView::RandomUnavailable => str_bytes_random_unavailable(),
        ScramErrorView::NonUtf8ServerFirstMessage => seq![0x6eu8, 0x6f, 0x6e, 0x2d, 0x75, 0x74, 0x66, 0x38, 0x20]
            + server_first_message_words(),
        ScramErrorView::BadNonce => seq![0x62u8, 0x61, 0x64, 0x20, 0x6e, 0x6f, 0x6e, 0x63, 0x65],
        ScramErrorView::BadSalt => seq![0x62u8, 0x61, 0x64, 0x20, 0x73, 0x61, 0x6c, 0x74],
        ScramErrorView::BadIterationCount => seq![0x62u8, 0x61, 0x64, 0x20, 0x69, 0x74, 0x65, 0x72, 0x61, 0x74, 0x69, 0x6f, 0x6e, 0x20, 0x63, 0x6f, 0x75, 0x6e, 0x74],
        ScramErrorView::UnexpectedAttribute => seq![0x75u8, 0x6e, 0x65, 0x78, 0x70, 0x65, 0x63, 0x74, 0x65, 0x64, 0x20, 0x61, 0x74, 0x74, 0x72, 0x69, 0x62, 0x75, 0x74, 0x65, 0x20, 0x69, 0x6e, 0x20]
            + server_first_message_words(),
        ScramErrorView::NonUtf8ServerFinalMessage => seq![0x6eu8, 0x6f, 0x6e, 0x2d, 0x75, 0x74, 0x66, 0x38, 0x20, 0x73, 0x65, 0x72, 0x76, 0x65, 0x72, 0x2d, 0x66, 0x69, 0x6e, 0x61, 0x6c, 0x2d, 0x6d, 0x65, 0x73, 0x73, 0x61, 0x67, 0x65],
        ScramErrorView::ServerError(m) => seq![0x73u8, 0x65, 0x72, 0x76, 0x65, 0x72, 0x20, 0x72, 0x65, 0x73, 0x70, 0x6f, 0x6e, 0x64, 0x65, 0x64, 0x20, 0x77, 0x69, 0x74, 0x68, 0x20, 0x65, 0x72, 0x72, 0x6f, 0x72, 0x3a, 0x20]
            + m,
        ScramErrorView::BadServerSignature => seq![0x62u8, 0x61, 0x64, 0x20, 0x73, 0x65, 0x72, 0x76, 0x65, 0x72, 0x20, 0x73, 0x69, 0x67, 0x6e, 0x61, 0x74, 0x75, 0x72, 0x65],
        ScramErrorView::SignatureMismatch => seq![0x73u8, 0x65, 0x72, 0x76, 0x65, 0x72, 0x20, 0x73, 0x69, 0x67, 0x6e, 0x61, 0x74, 0x75, 0x72, 0x65, 0x20, 0x64, 0x6f, 0x65, 0x73, 0x20, 0x6e, 0x6f, 0x74, 0x20, 0x6d, 0x61, 0x74, 0x63, 0x68],
    }
}

/// `server-first-message`
pub open spec fn server_first_message_words() -> Seq<u8> {
    seq![0x73u8, 0x65, 0x72, 0x76, 0x65, 0x72, 0x2d, 0x66, 0x69, 0x72, 0x73, 0x74, 0x2d, 0x6d, 0x65, 0x73, 0x73, 0x61, 0x67, 0x65]
}

/// `random bytes unavailable`
pub open spec fn str_bytes_random_unavailable() -> Seq<u8> {
    seq![0x72u8, 0x61, 0x6e, 0x64, 0x6f, 0x6d, 0x20, 0x62, 0x79, 0x74, 0x65, 0x73, 0x20, 0x75, 0x6e, 0x61, 0x76, 0x61, 0x69, 0x6c, 0x61, 0x62, 0x6c, 0x65]
}

impl ScramError {
    /// The text of the error message.
    pub fn message(&self) -> (r: Vec<u8>)
        ensures
            r@ == scram_error_message(self@),
    {
        let mut out: Vec<u8> = Vec::new();
        let first: [u8; 20] = [0x73, 0x65, 0x72, 0x76, 0x65, 0x72, 0x2d, 0x66, 0x69, 0x72, 0x73, 0x74, 0x2d, 0x6d, 0x65, 0x73, 0x73, 0x61, 0x67, 0x65];
        assert(first@ =~= server_first_message_words());
        match self {
            ScramError::RandomUnavailable => {
                let m: [u8; 24] = [0x72, 0x61, 0x6e, 0x64, 0x6f, 0x6d, 0x20, 0x62, 0x79, 0x74, 0x65, 0x73, 0x20, 0x75, 0x6e, 0x61, 0x76, 0x61, 0x69, 0x6c, 0x61, 0x62, 0x6c, 0x65];
                push_all(&mut out, m.as_slice());
            },
            ScramError::NonUtf8ServerFirstMessage => {
                let m: [u8; 9] = [0x6e, 0x6f, 0x6e, 0x2d, 0x75, 0x74, 0x66, 0x38, 0x20];
                push_all(&mut out, m.as_slice());
                push_all(&mut out, first.as_slice());
            },
            ScramError::BadNonce => {
                let m: [u8; 9] = [0x62, 0x61, 0x64, 0x20, 0x6e, 0x6f, 0x6e, 0x63, 0x65];
                push_all(&mut out, m.as_slice());
            },
            ScramError::BadSalt => {
                let m: [u8; 8] = [0x62, 0x61, 0x64, 0x20, 0x73, 0x61, 0x6c, 0x74];
                push_all(&mut out, m.as_slice());
            },
            ScramError::BadIterationCount => {
                let m: [u8; 19] = [0x62, 0x61, 0x64, 0x20, 0x69, 0x74, 0x65, 0x72, 0x61, 0x74, 0x69, 0x6f, 0x6e, 0x20, 0x63, 0x6f, 0x75, 0x6e, 0x74];
                push_all(&mut out, m.as_slice());
            },
            ScramError::UnexpectedAttribute => {
                let m: [u8; 24] = [0x75, 0x6e, 0x65, 0x78, 0x70, 0x65, 0x63, 0x74, 0x65, 0x64, 0x20, 0x61, 0x74, 0x74, 0x72, 0x69, 0x62, 0x75, 0x74, 0x65, 0x20, 0x69, 0x6e, 0x20];
                push_all(&mut out, m.as_slice());
                push_all(&mut out, first.as_slice());
            },
            ScramError::NonUtf8ServerFinalMessage => {
                let m: [u8; 29] = [0x6e, 0x6f, 0x6e, 0x2d, 0x75, 0x74, 0x66, 0x38, 0x20, 0x73, 0x65, 0x72, 0x76, 0x65, 0x72, 0x2d, 0x66, 0x69, 0x6e, 0x61, 0x6c, 0x2d, 0x6d, 0x65, 0x73, 0x73, 0x61, 0x67, 0x65];
                push_all(&mut out, m.as_slice());
            },
            ScramError::ServerError(e) => {
                let m: [u8; 29] = [0x73, 0x65, 0x72, 0x76, 0x65, 0x72, 0x20, 0x72, 0x65, 0x73, 0x70, 0x6f, 0x6e, 0x64, 0x65, 0x64, 0x20, 0x77, 0x69, 0x74, 0x68, 0x20, 0x65, 0x72, 0x72, 0x6f, 0x72, 0x3a, 0x20];
                push_all(&mut out, m.as_slice());
                push_all(&mut out, e.as_slice());
            },
            ScramError::BadServerSignature => {
                let m: [u8; 20] = [0x62, 0x61, 0x64, 0x20, 0x73, 0x65, 0x72, 0x76, 0x65, 0x72, 0x20, 0x73, 0x69, 0x67, 0x6e, 0x61, 0x74, 0x75, 0x72, 0x65];
                push_all(&mut out, m.as_slice());
            },
            ScramError::SignatureMismatch => {
                let m: [u8; 31] = [0x73, 0x65, 0x72, 0x76, 0x65, 0x72, 0x20, 0x73, 0x69, 0x67, 0x6e, 0x61, 0x74, 0x75, 0x72, 0x65, 0x20, 0x64, 0x6f, 0x65, 0x73, 0x20, 0x6e, 0x6f, 0x74, 0x20, 0x6d, 0x61, 0x74, 0x63, 0x68];
                push_all(&mut out, m.as_slice());
            },
        }
        assert(out@ =~= scram_error_message(self@));
        out
    }
}

// ---------------------------------------------------------------------------
// Attributes of SCRAM messages
// ---------------------------------------------------------------------------

/// Position of the first `,` at or after `i`, or the length of `s`.
pub open spec fn comma_pos(s: Seq<u8>, i: int) -> int
    decreases s.len() - i,
{
    if 0 <= i < s.len() && s[i] != 0x2c {
        comma_pos(s, i + 1)
    } else {
        i
    }
}

pub proof fn lemma_comma_pos(s: Seq<u8>, i: int)
    requires
        0 <= i <= s.len(),
    ensures
        i <= comma_pos(s, i) <= s.len(),
        comma_pos(s, i) < s.len() ==> s[comma_pos(s, i)] == 0x2c,
    decreases s.len() - i,
{
    if i < s.len() && s[i] != 0x2c {
        lemma_comma_pos(s, i + 1);
    }
}

/// The pieces of `s` between commas; there is always at least one.
pub open spec fn split_commas(s: Seq<u8>) -> Seq<Seq<u8>>
    decreases s.len(),
{
    let z = comma_pos(s, 0);
    if z >= s.len() {
        seq![s]
    } else {
        proof {
            lemma_comma_pos(s, 0);
        }
        seq![s.take(z)] + split_commas(s.skip(z + 1))
    }
}

pub proof fn lemma_comma_pos_shift(s: Seq<u8>, start: int, i: int)
    requires
        0 <= start <= i <= s.len(),
    ensures
        comma_pos(s.skip(start), i - start) == comma_pos(s, i) - start,
    decreases s.len() - i,
{
    if i < s.len() && s[i] != 0x2c {
        lemma_comma_pos_shift(s, start, i + 1);
    }
}

/// The attribute pieces of `s` from `start` on: the first of them is
/// `s[start..end]` where `end` is the next comma, and the rest are the pieces
/// after that comma.
pub proof fn lemma_split_at(s: Seq<u8>, start: int)
    requires
        0 <= start <= s.len(),
    ensures
        split_commas(s.skip(start)).len() >= 1,
        split_commas(s.skip(start))[0] == s.subrange(start, comma_pos(s, start)),
        comma_pos(s, start) >= s.len() ==> split_commas(s.skip(start)).len() == 1,
        comma_pos(s, start) < s.len() ==> split_commas(s.skip(start)).drop_first() == split_commas(
            s.skip(comma_pos(s, start) + 1),
        ),
{
    let t = s.skip(start);
    lemma_comma_pos_shift(s, start, start);
    lemma_comma_pos(s, start);
    let z = comma_pos(s, start);
    assert(comma_pos(t, 0) == z - start);
    if z < s.len() {
        assert(t.take(z - start) =~= s.subrange(start, z));
        assert(t.skip(z - start + 1) =~= s.skip(z + 1));
        assert(split_commas(t) == seq![t.take(z - start)] + split_commas(t.skip(z - start + 1)));
        assert(split_commas(t).drop_first() =~= split_commas(s.skip(z + 1)));
    } else {
        assert(t =~= s.subrange(start, z));
    }
}

/// Whether `p` starts with the two bytes `x y`.
pub open spec fn starts2(p: Seq<u8>, x: u8, y: u8) -> bool {
    p.len() >= 2 && p[0] == x && p[1] == y
}

/// Printable characters of RFC 5802: `%x21-2B / %x2D-7E`.
pub open spec fn is_printable(b: u8) -> bool {
    (0x21 <= b <= 0x2b) || (0x2d <= b <= 0x7e)
}

pub open spec fn all_printable(v: Seq<u8>) -> bool {
    forall|k: int| 0 <= k < v.len() ==> #[trigger] is_printable(v[k])
}

/// Whether the nonce attribute `p` is `r=` followed by printable
/// characters that begin with the client's nonce.
pub open spec fn nonce_ok(p: Seq<u8>, c_nonce: Seq<u8>) -> bool {
    &&& starts2(p, 0x72, 0x3d)
    &&& c_nonce.len() <= p.len() - 2
    &&& p.subrange(2, 2 + c_nonce.len() as int) == c_nonce
    &&& all_printable(p.skip(2))
}

pub open spec fn is_digit(b: u8) -> bool {
    0x30 <= b <= 0x39
}

/// The value of a string of decimal digits.
pub open spec fn digits_value(d: Seq<u8>) -> nat
    decreases d.len(),
{
    if d.len() == 0 {
        0
    } else {
        digits_value(d.drop_last()) * 10 + (d.last() - 0x30) as nat
    }
}

/// The digits of an unsigned decimal number: `v` without a leading `+`.
pub open spec fn unsigned_digits(v: Seq<u8>) -> Seq<u8> {
    if v.len() > 0 && v[0] == 0x2b {
        v.skip(1)
    } else {
        v
    }
}

pub open spec fn all_digits(d: Seq<u8>) -> bool {
    forall|k: int| 0 <= k < d.len() ==> #[trigger] is_digit(d[k])
}

/// An unsigned decimal number: an optional `+` and at least one digit.
pub open spec fn parse_unsigned(v: Seq<u8>) -> Option<nat> {
    let d = unsigned_digits(v);
    if d.len() > 0 && all_digits(d) {
        Some(digits_value(d))
    } else {
        None
    }
}

/// An iteration count: from 1 up to, but not including, 100000.
pub open spec fn iterations_of(v: Seq<u8>) -> Option<nat> {
    match parse_unsigned(v) {
        Some(n) => if 1 <= n < 100000 {
            Some(n)
        } else {
            None
        },
        None => None,
    }
}

/// The server-first-message read: the combined nonce, the salt and the
/// iteration count.
pub open spec fn spec_server_first(c_nonce: Seq<u8>, msg: Seq<u8>) -> Result<
    (Seq<u8>, Seq<u8>, nat),
    ScramErrorView,
> {
    let a = split_commas(msg);
    if !valid_utf8(msg) {
        Err(ScramErrorView::NonUtf8ServerFirstMessage)
    } else if !nonce_ok(a[0], c_nonce) {
        Err(ScramErrorView::BadNonce)
    } else if !(a.len() >= 2 && starts2(a[1], 0x73, 0x3d) && base64_decoded(a[1].skip(2)) is Some) {
        Err(ScramErrorView::BadSalt)
    } else if !(a.len() >= 3 && starts2(a[2], 0x69, 0x3d) && iterations_of(a[2].skip(2)) is Some) {
        Err(ScramErrorView::BadIterationCount)
    } else if a.len() > 3 {
        Err(ScramErrorView::UnexpectedAttribute)
    } else {
        Ok((a[0].skip(2), base64_decoded(a[1].skip(2))->Some_0, iterations_of(a[2].skip(2))->Some_0))
    }
}

// ---------------------------------------------------------------------------
// SASLprep, lax
// ---------------------------------------------------------------------------

/// Characters that map to a space (RFC 3454, appendix C.1.2).
pub open spec fn maps_to_space(c: u32) -> bool {
    c == 0xa0 || c == 0x1680 || (0x2000 <= c <= 0x200b) || c == 0x202f || c == 0x205f || c == 0x3000
}

/// Characters that map to nothing (RFC 3454, appendix B.1).
pub open spec fn maps_to_nothing(c: u32) -> bool {
    c == 0xad || c == 0x34f || c == 0x1806 || (0x180b <= c <= 0x180d) || c == 0x200c || c == 0x200d
        || c == 0x2060 || (0xfe00 <= c <= 0xfe0f) || c == 0xfeff
}

/// The UTF-8 text from `i` on with the mappings of SASLprep applied.
pub open spec fn sasl_mapped_from(s: Seq<u8>, i: int) -> Seq<u8>
    decreases s.len() - i,
{
    if !(0 <= i < s.len()) || !scalar_at(s, i) {
        Seq::empty()
    } else {
        let n = scalar_len_at(s, i);
        let c = scalar_value_at(s, i);
        (if maps_to_space(c) {
            seq![0x20u8]
        } else if maps_to_nothing(c) {
            Seq::empty()
        } else {
            s.subrange(i, i + n)
        }) + sasl_mapped_from(s, i + n)
    }
}

/// The NFKC normalization of the text `text` (taken as UTF-8).
pub uninterp spec fn nfkc_normalized(text: Seq<u8>) -> Seq<u8>;

/// NFKC normalization by `unicode_normalization::UnicodeNormalization::nfkc`
/// of the text of `text` (taken as UTF-8). Trusted to return the UTF-8 bytes
/// of the normalized text.
#[verifier::external_body]
fn nfkc(text: &[u8]) -> (r: Vec<u8>)
    ensures
        r@ == nfkc_normalized(text@),
{
    String::from_utf8_lossy(text).nfkc().collect::<String>().into_bytes()
}

/// The password prepared for hashing: ASCII and non-UTF-8 passwords are
/// kept as they are; other passwords get the SASLprep mappings and NFKC.
pub open spec fn spec_saslprep_lax(password: Seq<u8>) -> Seq<u8> {
    if is_ascii_bytes(password) || !valid_utf8(password) {
        password
    } else {
        nfkc_normalized(sasl_mapped_from(password, 0))
    }
}

pub fn saslprep_lax(password: &[u8]) -> (r: Vec<u8>)
    ensures
        r@ == spec_saslprep_lax(password@),
{
    if is_ascii(password) || !is_valid_utf8(password) {
        return vstd::slice::slice_to_vec(password);
    }
    let mut mapped: Vec<u8> = Vec::new();
    let mut i: usize = 0;
    assert(mapped@ + sasl_mapped_from(password@, 0) =~= sasl_mapped_from(password@, 0));
    while i < password.len()
        invariant
            i <= password.len(),
            mapped@ + sasl_mapped_from(password@, i as int) == sasl_mapped_from(password@, 0),
        ensures
            mapped@ == sasl_mapped_from(password@, 0),
        decreases password.len() - i,
    {
        match decode_scalar_at(password, i) {
            Some((n, c)) => {
                proof {
                    lemma_scalar_len_bounds(password@, i as int);
                }
                let ghost before = mapped@;
                if c == 0xa0 || c == 0x1680 || (0x2000 <= c && c <= 0x200b) || c == 0x202f || c
                    == 0x205f || c == 0x3000 {
                    mapped.push(0x20);
                } else if c == 0xad || c == 0x34f || c == 0x1806 || (0x180b <= c && c <= 0x180d)
                    || c == 0x200c || c == 0x200d || c == 0x2060 || (0xfe00 <= c && c <= 0xfe0f) || c
                    == 0xfeff {
                } else {
                    push_all(&mut mapped, &password[i..i + n]);
                }
                proof {
                    let piece = if maps_to_space(c) {
                        seq![0x20u8]
                    } else if maps_to_nothing(c) {
                        Seq::<u8>::empty()
                    } else {
                        password@.subrange(i as int, i + n)
                    };
                    assert(mapped@ =~= before + piece);
                    assert(sasl_mapped_from(password@, i as int) == piece + sasl_mapped_from(
                        password@,
                        i + n,
                    ));
                    assert(before + sasl_mapped_from(password@, i as int) =~= mapped@
                        + sasl_mapped_from(password@, i + n));
                }
                i = i + n;
            },
            None => {
                assert(sasl_mapped_from(password@, i as int) =~= Seq::<u8>::empty());
                assert(mapped@ + sasl_mapped_from(password@, i as int) =~= mapped@);
                break ;
            },
        }
    }
    nfkc(mapped.as_slice())
}

// ---------------------------------------------------------------------------
// The exchange
// ---------------------------------------------------------------------------

/// `n=,r=` and the client nonce: the client-first-message without its GS2
/// header (the user name is left empty; Postgres takes it from the startup
/// message).
pub open spec fn client_first_bare(c_nonce: Seq<u8>) -> Seq<u8> {
    seq![0x6eu8, 0x3d, 0x2c, 0x72, 0x3d] + c_nonce
}

/// The client-first-message: the GS2 header `n,,` (no channel binding) and
/// the bare message.
pub open spec fn client_first(c_nonce: Seq<u8>) -> Seq<u8> {
    seq![0x6eu8, 0x2c, 0x2c] + client_first_bare(c_nonce)
}

/// `c=biws,r=` and the combined nonce (`biws` is the Base64 of `n,,`).
pub open spec fn client_final_no_proof(nonce: Seq<u8>) -> Seq<u8> {
    seq![0x63u8, 0x3d, 0x62, 0x69, 0x77, 0x73, 0x2c, 0x72, 0x3d] + nonce
}

/// The AuthMessage of RFC 5802, section 3.
pub open spec fn auth_message(c_nonce: Seq<u8>, msg: Seq<u8>, nonce: Seq<u8>) -> Seq<u8> {
    client_first_bare(c_nonce) + seq![0x2cu8] + msg + seq![0x2cu8] + client_final_no_proof(nonce)
}

/// `Client Key`
pub open spec fn client_key_label() -> Seq<u8> {
    seq![0x43u8, 0x6c, 0x69, 0x65, 0x6e, 0x74, 0x20, 0x4b, 0x65, 0x79]
}

/// `Server Key`
pub open spec fn server_key_label() -> Seq<u8> {
    seq![0x53u8, 0x65, 0x72, 0x76, 0x65, 0x72, 0x20, 0x4b, 0x65, 0x79]
}

pub open spec fn xor_seq(a: Seq<u8>, b: Seq<u8>) -> Seq<u8> {
    Seq::new(a.len(), |i: int| a[i] ^ b[i])
}

/// SaltedPassword of RFC 5802.
pub open spec fn salted_password(password: Seq<u8>, salt: Seq<u8>, iters: nat) -> Seq<u8> {
    pbkdf2_sha256_key(spec_saslprep_lax(password), salt, iters)
}

/// ClientProof of RFC 5802: ClientKey xor ClientSignature.
pub open spec fn client_proof(salted: Seq<u8>, auth: Seq<u8>) -> Seq<u8> {
    let client_key = hmac_sha256_mac(salted, client_key_label());
    let stored_key = sha256_digest(client_key);
    xor_seq(client_key, hmac_sha256_mac(stored_key, auth))
}

/// ServerSignature of RFC 5802.
pub open spec fn server_signature(salted: Seq<u8>, auth: Seq<u8>) -> Seq<u8> {
    hmac_sha256_mac(hmac_sha256_mac(salted, server_key_label()), auth)
}

/// The client-final-message: the message without proof, `,p=` and the
/// Base64 of the proof.
pub open spec fn client_final(
    c_nonce: Seq<u8>,
    msg: Seq<u8>,
    password: Seq<u8>,
    nonce: Seq<u8>,
    salt: Seq<u8>,
    iters: nat,
) -> Seq<u8> {
    let salted = salted_password(password, salt, iters);
    client_final_no_proof(nonce) + seq![0x2cu8, 0x70, 0x3d] + base64_encoded(
        client_proof(salted, auth_message(c_nonce, msg, nonce)),
    )
}

/// The client side of one SCRAM-SHA-256 exchange: the client nonce, and the
/// signature the server must send back once the client's proof is sent.
pub struct ScramSha256 {
    c_nonce: [u8; 24],
    server_sig: [u8; 32],
}

impl ScramSha256 {
    #[verifier::type_invariant]
    spec fn inv(self) -> bool {
        all_printable(self.c_nonce@)
    }

    /// The client nonce.
    pub closed spec fn nonce(self) -> Seq<u8> {
        self.c_nonce@
    }

    /// The server signature expected by [`ScramSha256::finish`].
    pub closed spec fn expected_server_signature(self) -> Seq<u8> {
        self.server_sig@
    }

    /// Starts an exchange with a fresh random nonce; fails when random bytes
    /// cannot be had.
    pub fn new(_user: &[u8]) -> (r: Result<ScramSha256, ScramError>)
        ensures
            r matches Ok(s) ==> s.nonce().len() == 24 && all_printable(s.nonce())
                && s.expected_server_signature() == Seq::new(32, |i: int| 0u8),
            r matches Ok(s) ==> forall|i: int|
                0 <= i < 24 ==> 0x2d <= #[trigger] s.nonce()[i] <= 0x6c,
            r matches Err(e) ==> e@ == ScramErrorView::RandomUnavailable,
    {
        match random_bytes(24) {
            Some(rnd) => Ok(ScramSha256::from_random(rnd.as_slice())),
            None => Err(ScramError::RandomUnavailable),
        }
    }

    /// Starts an exchange with the nonce made of the 24 random bytes `rnd`:
    /// each byte keeps its low 6 bits and is moved into the printable range
    /// from `-` (0x2D) on.
    pub fn from_random(rnd: &[u8]) -> (r: ScramSha256)
        requires
            rnd@.len() == 24,
        ensures
            r.nonce() == Seq::new(24, |i: int| ((rnd@[i] & 0x3f) + 0x2d) as u8),
            all_printable(r.nonce()),
            forall|i: int| 0 <= i < 24 ==> 0x2d <= #[trigger] r.nonce()[i] <= 0x6c,
            r.expected_server_signature() == Seq::new(32, |i: int| 0u8),
    {
        let mut c_nonce = [0u8; 24];
        let mut k: usize = 0;
        while k < 24
            invariant
                k <= 24,
                rnd@.len() == 24,
                forall|m: int| 0 <= m < k ==> #[trigger] c_nonce@[m] == ((rnd@[m] & 0x3f) + 0x2d) as u8,
                forall|m: int| 0 <= m < k ==> is_printable(#[trigger] c_nonce@[m]),
                forall|m: int| 0 <= m < k ==> 0x2d <= #[trigger] c_nonce@[m] <= 0x6c,
            decreases 24 - k,
        {
            let b = rnd[k];
            assert(b & 0x3f <= 0x3f) by (bit_vector);
            c_nonce[k] = (b & 0x3f) + 0x2d;
            k = k + 1;
        }
        let server_sig = [0u8; 32];
        assert(c_nonce@ =~= Seq::new(24, |i: int| ((rnd@[i] & 0x3f) + 0x2d) as u8));
        assert(server_sig@ =~= Seq::new(32, |i: int| 0u8));
        ScramSha256 { c_nonce, server_sig }
    }

    fn push_client_first_bare(&self, out: &mut Vec<u8>)
        ensures
            final(out)@ == old(out)@ + client_first_bare(self.nonce()),
    {
        let head: [u8; 5] = [0x6e, 0x3d, 0x2c, 0x72, 0x3d];
        push_all(out, head.as_slice());
        push_all(out, self.c_nonce.as_slice());
        assert(old(out)@ + head@ + self.c_nonce@ =~= old(out)@ + client_first_bare(self.nonce()));
    }

    /// The client-first-message: `n,,n=,r=` and the client nonce.
    pub fn client_first_message(&self) -> (r: Vec<u8>)
        ensures
            r@ == client_first(self.nonce()),
    {
        let mut out: Vec<u8> = Vec::new();
        out.push(0x6e);
        out.push(0x2c);
        out.push(0x2c);
        self.push_client_first_bare(&mut out);
        assert(out@ =~= client_first(self.nonce()));
        out
    }

    /// Reads the server-first-message: the combined nonce, the salt and the
    /// iteration count.
    #[verifier::rlimit(40)]
    fn read_server_first<'m>(&self, msg: &'m [u8]) -> (r: Result<(&'m [u8], Vec<u8>, usize), ScramError>)
        requires
            msg@.len() <= 0x2aaaaaaa,
        ensures
            match spec_server_first(self.nonce(), msg@) {
                Ok((nonce, salt, iters)) => r matches Ok((n, s, i)) && n@ == nonce && s@ == salt
                    && i == iters && s@.len() <= i32::MAX,
                Err(e) => r matches Err(x) && x@ == e,
            },
    {
        let ghost a = split_commas(msg@);
        proof {
            lemma_split_at(msg@, 0);
            assert(msg@.skip(0) =~= msg@);
        }
        if !is_valid_utf8(msg) {
            return Err(ScramError::NonUtf8ServerFirstMessage);
        }
        // r=<nonce>
        let e0 = comma_end(msg, 0);
        let p0 = &msg[0..e0];
        assert(p0@ == a[0]);
        if !nonce_ok_exec(p0, &self.c_nonce) {
            return Err(ScramError::BadNonce);
        }
        // s=<salt>
        if e0 >= msg.len() {
            return Err(ScramError::BadSalt);
        }
        let s1 = e0 + 1;
        proof {
            lemma_split_at(msg@, s1 as int);
        }
        let e1 = comma_end(msg, s1);
        let p1 = &msg[s1..e1];
        assert(a.drop_first() == split_commas(msg@.skip(s1 as int)));
        assert(a[1] == a.drop_first()[0]);
        assert(p1@ == a[1]);
        if !(p1.len() >= 2 && p1[0] == 0x73 && p1[1] == 0x3d) {
            return Err(ScramError::BadSalt);
        }
        let salt_text = &p1[2..p1.len()];
        assert(salt_text@ =~= a[1].skip(2));
        let salt = match base64_decode(salt_text) {
            Some(v) => v,
            None => return Err(ScramError::BadSalt),
        };
        proof {
            let t = salt_text@.len();
            assert(t <= 0x2aaaaaaa);
            assert((3 * t / 4) * 3 + 3 <= 0x7fffffff) by (nonlinear_arith)
                requires
                    t <= 0x2aaaaaaa,
            ;
        }
        // i=<iterations>
        if e1 >= msg.len() {
            return Err(ScramError::BadIterationCount);
        }
        let s2 = e1 + 1;
        proof {
            lemma_split_at(msg@, s2 as int);
        }
        let e2 = comma_end(msg, s2);
        let p2 = &msg[s2..e2];
        assert(a.drop_first().drop_first() == split_commas(msg@.skip(s2 as int)));
        assert(a[2] == a.drop_first().drop_first()[0]);
        assert(p2@ == a[2]);
        if !(p2.len() >= 2 && p2[0] == 0x69 && p2[1] == 0x3d) {
            return Err(ScramError::BadIterationCount);
        }
        let iter_text = &p2[2..p2.len()];
        assert(iter_text@ =~= a[2].skip(2));
        let iters = match parse_iterations(iter_text) {
            Some(n) => n,
            None => return Err(ScramError::BadIterationCount),
        };
        // nothing more
        if e2 < msg.len() {
            assert(a.drop_first().drop_first().drop_first() == split_commas(
                msg@.skip(e2 + 1),
            ));
            proof {
                lemma_split_at(msg@, e2 + 1);
            }
            return Err(ScramError::UnexpectedAttribute);
        }
        let nonce = &p0[2..p0.len()];
        assert(nonce@ =~= a[0].skip(2));
        Ok((nonce, salt, iters))
    }

    /// Answers the server-first-message `server_first_msg` with the
    /// client-final-message, and remembers the signature the server must
    /// prove itself with. Fails, leaving the exchange as it was, when the
    /// message is not UTF-8, when its nonce does not extend the client's or
    /// holds unprintable characters, when the salt is not Base64, when the
    /// iteration count is not from 1 to 99999, or when more attributes
    /// follow.
    pub fn update(&mut self, server_first_msg: &[u8], password: &[u8]) -> (r: Result<Vec<u8>, ScramError>)
        requires
            server_first_msg@.len() <= 0x2aaaaaaa,
            spec_server_first(old(self).nonce(), server_first_msg@) is Ok
                ==> spec_saslprep_lax(password@).len() <= i32::MAX,
        ensures
            final(self).nonce() == old(self).nonce(),
            match spec_server_first(old(self).nonce(), server_first_msg@) {
                Ok((nonce, salt, iters)) => {
                    &&& r matches Ok(v) && v@ == client_final(
                        old(self).nonce(),
                        server_first_msg@,
                        password@,
                        nonce,
                        salt,
                        iters,
                    )
                    &&& final(self).expected_server_signature() == server_signature(
                        salted_password(password@, salt, iters),
                        auth_message(old(self).nonce(), server_first_msg@, nonce),
                    )
                },
                Err(e) => r matches Err(x) && x@ == e && final(self).expected_server_signature()
                    == old(self).expected_server_signature(),
            },
    {
        let (nonce, salt, iters) = match self.read_server_first(server_first_msg) {
            Ok(x) => x,
            Err(e) => return Err(e),
        };
        let ghost c_nonce = self.nonce();
        // c=biws,r=<nonce>
        let mut no_proof: Vec<u8> = Vec::new();
        let cb: [u8; 9] = [0x63, 0x3d, 0x62, 0x69, 0x77, 0x73, 0x2c, 0x72, 0x3d];
        push_all(&mut no_proof, cb.as_slice());
        push_all(&mut no_proof, nonce);
        assert(no_proof@ =~= client_final_no_proof(nonce@));
        // AuthMessage
        let mut auth: Vec<u8> = Vec::new();
        self.push_client_first_bare(&mut auth);
        auth.push(0x2c);
        push_all(&mut auth, server_first_msg);
        auth.push(0x2c);
        push_all(&mut auth, no_proof.as_slice());
        assert(auth@ =~= auth_message(c_nonce, server_first_msg@, nonce@));
        // keys
        let prepared = saslprep_lax(password);
        let salted = pbkdf2_hmac_sha256(salt.as_slice(), iters, prepared.as_slice());
        let ck_label: [u8; 10] = [0x43, 0x6c, 0x69, 0x65, 0x6e, 0x74, 0x20, 0x4b, 0x65, 0x79];
        let sk_label: [u8; 10] = [0x53, 0x65, 0x72, 0x76, 0x65, 0x72, 0x20, 0x4b, 0x65, 0x79];
        assert(ck_label@ =~= client_key_label());
        assert(sk_label@ =~= server_key_label());
        let client_key = hmac_sha256(salted.as_slice(), ck_label.as_slice());
        let stored_key = sha256(client_key.as_slice());
        let client_sig = hmac_sha256(stored_key.as_slice(), auth.as_slice());
        let proof = xor_bytes(client_key, client_sig);
        let server_key = hmac_sha256(salted.as_slice(), sk_label.as_slice());
        let server_sig = hmac_sha256(server_key.as_slice(), auth.as_slice());
        self.server_sig = server_sig;
        // c=biws,r=<nonce>,p=<proof>
        let proof64 = base64_encode(proof.as_slice());
        let mut out = no_proof;
        let pp: [u8; 3] = [0x2c, 0x70, 0x3d];
        push_all(&mut out, pp.as_slice());
        push_all(&mut out, proof64.as_slice());
        assert(out@ =~= client_final(c_nonce, server_first_msg@, password@, nonce@, salt@, iters as nat));
        Ok(out)
    }

    /// [`ScramSha256::update`] where the prepared password may be too long
    /// for the key derivation: returns `None`, leaving the exchange as it
    /// was, when the prepared password is longer than `i32::MAX` bytes.
    pub fn update_checked(&mut self, server_first_msg: &[u8], password: &[u8]) -> (r: Option<
        Result<Vec<u8>, ScramError>,
    >)
        requires
            server_first_msg@.len() <= 0x2aaaaaaa,
        ensures
            r is None <==> spec_saslprep_lax(password@).len() > i32::MAX,
            r is None ==> final(self).nonce() == old(self).nonce()
                && final(self).expected_server_signature() == old(self).expected_server_signature(),
            r matches Some(res) ==> final(self).nonce() == old(self).nonce() && match spec_server_first(
                old(self).nonce(),
                server_first_msg@,
            ) {
                Ok((nonce, salt, iters)) => {
                    &&& res matches Ok(v) && v@ == client_final(
                        old(self).nonce(),
                        server_first_msg@,
                        password@,
                        nonce,
                        salt,
                        iters,
                    )
                    &&& final(self).expected_server_signature() == server_signature(
                        salted_password(password@, salt, iters),
                        auth_message(old(self).nonce(), server_first_msg@, nonce),
                    )
                },
                Err(e) => res matches Err(x) && x@ == e && final(self).expected_server_signature()
                    == old(self).expected_server_signature(),
            },
    {
        let prepared = saslprep_lax(password);
        if prepared.len() > 0x7fffffff {
            return None;
        }
        Some(self.update(server_first_msg, password))
    }

    /// Checks the server-final-message: succeeds when it carries the server
    /// signature remembered by [`ScramSha256::update`]; fails when it is not
    /// UTF-8, when it reports an error (`e=`), when its signature is not
    /// Base64, or when the signature differs.
    pub fn finish(&self, server_final_msg: &[u8]) -> (r: Result<(), ScramError>)
        requires
            server_final_msg@.len() <= 0x2aaaaaaa,
        ensures
            match spec_finish(self.expected_server_signature(), server_final_msg@) {
                Ok(()) => r is Ok,
                Err(e) => r matches Err(x) && x@ == e,
            },
    {
        proof {
            lemma_split_at(server_final_msg@, 0);
            assert(server_final_msg@.skip(0) =~= server_final_msg@);
        }
        if !is_valid_utf8(server_final_msg) {
            return Err(ScramError::NonUtf8ServerFinalMessage);
        }
        let e0 = comma_end(server_final_msg, 0);
        let first = &server_final_msg[0..e0];
        if first.len() >= 2 && first[0] == 0x65 && first[1] == 0x3d {
            let m = vstd::slice::slice_to_vec(&first[2..first.len()]);
            assert(m@ =~= first@.skip(2));
            return Err(ScramError::ServerError(m));
        }
        if !(first.len() >= 2 && first[0] == 0x76 && first[1] == 0x3d) {
            return Err(ScramError::BadServerSignature);
        }
        let sig_text = &first[2..first.len()];
        assert(sig_text@ =~= first@.skip(2));
        let sig = match base64_decode(sig_text) {
            Some(v) => v,
            None => return Err(ScramError::BadServerSignature),
        };
        if !(sig.len() == 32 && constant_time_eq(sig.as_slice(), self.server_sig.as_slice())) {
            return Err(ScramError::SignatureMismatch);
        }
        Ok(())
    }
}

/// What the server-final-message `msg` gives when `sig` is the expected
/// server signature.
pub open spec fn spec_finish(sig: Seq<u8>, msg: Seq<u8>) -> Result<(), ScramErrorView> {
    let first = split_commas(msg)[0];
    if !valid_utf8(msg) {
        Err(ScramErrorView::NonUtf8ServerFinalMessage)
    } else if starts2(first, 0x65, 0x3d) {
        Err(ScramErrorView::ServerError(first.skip(2)))
    } else if !starts2(first, 0x76, 0x3d) || base64_decoded(first.skip(2)) is None {
        Err(ScramErrorView::BadServerSignature)
    } else if base64_decoded(first.skip(2))->Some_0.len() == 32 && base64_decoded(first.skip(2))->Some_0
        == sig {
        Ok(())
    } else {
        Err(ScramErrorView::SignatureMismatch)
    }
}

/// The position of the first comma at or after `i`, or the length of `s`.
fn comma_end(s: &[u8], i: usize) -> (r: usize)
    requires
        i <= s.len(),
    ensures
        r == comma_pos(s@, i as int),
        i <= r <= s.len(),
{
    proof {
        lemma_comma_pos(s@, i as int);
    }
    let mut j = i;
    while j < s.len() && s[j] != 0x2c
        invariant
            i <= j <= s.len(),
            comma_pos(s@, j as int) == comma_pos(s@, i as int),
        decreases s.len() - j,
    {
        j = j + 1;
    }
    j
}

fn nonce_ok_exec(p: &[u8], c_nonce: &[u8; 24]) -> (r: bool)
    ensures
        r == nonce_ok(p@, c_nonce@),
{
    if !(p.len() >= 2 && p[0] == 0x72 && p[1] == 0x3d) {
        return false;
    }
    if p.len() - 2 < 24 {
        return false;
    }
    let mut k: usize = 0;
    while k < 24
        invariant
            k <= 24,
            p@.len() >= 26,
            forall|m: int| 0 <= m < k ==> #[trigger] p@.subrange(2, 26)[m] == c_nonce@[m],
        decreases 24 - k,
    {
        if p[2 + k] != c_nonce[k] {
            assert(p@.subrange(2, 26)[k as int] != c_nonce@[k as int]);
            return false;
        }
        k = k + 1;
    }
    assert(p@.subrange(2, 26) =~= c_nonce@);
    let mut j: usize = 2;
    while j < p.len()
        invariant
            2 <= j <= p.len(),
            forall|m: int| 0 <= m < j - 2 ==> #[trigger] is_printable(p@.skip(2)[m]),
        decreases p.len() - j,
    {
        let b = p[j];
        if !((0x21 <= b && b <= 0x2b) || (0x2d <= b && b <= 0x7e)) {
            assert(!is_printable(p@.skip(2)[j - 2]));
            return false;
        }
        j = j + 1;
    }
    true
}

/// Reads an iteration count: an optional `+`, decimal digits, a value from
/// 1 to 99999.
fn parse_iterations(v: &[u8]) -> (r: Option<usize>)
    ensures
        match iterations_of(v@) {
            Some(n) => r == Some(n as usize),
            None => r is None,
        },
{
    let start: usize = if v.len() > 0 && v[0] == 0x2b {
        1
    } else {
        0
    };
    let ghost d = v@.skip(start as int);
    assert(v@.skip(0) =~= v@);
    if start >= v.len() {
        return None;
    }
    let mut val: usize = 0;
    let mut big = false;
    let mut k = start;
    assert(d.take(0) =~= Seq::<u8>::empty());
    while k < v.len()
        invariant
            start <= k <= v.len(),
            d == v@.skip(start as int),
            start == (if v@.len() > 0 && v@[0] == 0x2b {
                1usize
            } else {
                0usize
            }),
            v@.skip(0) == v@,
            forall|m: int| 0 <= m < k - start ==> #[trigger] is_digit(d[m]),
            !big ==> val == digits_value(d.take(k - start)) && val < 100000,
            big ==> digits_value(d.take(k - start)) >= 100000,
        decreases v.len() - k,
    {
        let b = v[k];
        if !(0x30 <= b && b <= 0x39) {
            proof {
                assert(unsigned_digits(v@) =~= d);
                assert(!is_digit(d[k - start]));
                assert(!all_digits(d));
            }
            return None;
        }
        proof {
            assert(d.take(k + 1 - start).drop_last() =~= d.take(k - start));
            assert(d.take(k + 1 - start).last() == b);
        }
        if !big {
            let nv = val * 10 + (b - 0x30) as usize;
            if nv >= 100000 {
                big = true;
            } else {
                val = nv;
            }
        }
        k = k + 1;
    }
    assert(d.take(k - start) =~= d);
    if big || val < 1 {
        None
    } else {
        Some(val)
    }
}

fn xor_bytes(a: [u8; 32], b: [u8; 32]) -> (r: [u8; 32])
    ensures
        r@ == xor_seq(a@, b@),
{
    let mut out = a;
    let mut k: usize = 0;
    while k < 32
        invariant
            k <= 32,
            forall|m: int| 0 <= m < k ==> #[trigger] out@[m] == a@[m] ^ b@[m],
            forall|m: int| k <= m < 32 ==> #[trigger] out@[m] == a@[m],
        decreases 32 - k,
    {
        out[k] = a[k] ^ b[k];
        k = k + 1;
    }
    assert(out@ =~= xor_seq(a@, b@));
    out
}

} // verus!
