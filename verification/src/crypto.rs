//! The cryptographic primitives the library takes from OpenSSL.
//!
//! Each function here makes one OpenSSL call and is trusted: its contract is
//! what OpenSSL documents of the call, stated over a named result where the
//! result is a fixed function of the arguments (hashes, MACs, key
//! derivation, Base64 decoding, AES-GCM), over a spec function where a few
//! lines state it (Base64 encoding), and over nothing but its length where
//! it is random.
use vstd::prelude::*;
use vstd::utf8::valid_utf8;


verus! {

/// The SHA-256 digest of `data`.
pub uninterp spec fn sha256_digest(data: Seq<u8>) -> Seq<u8>;

/// HMAC-SHA-256 of `data` under `key`.
pub uninterp spec fn hmac_sha256_mac(key: Seq<u8>, data: Seq<u8>) -> Seq<u8>;

/// PBKDF2 with HMAC-SHA-256: the 32-byte key derived from `password` and
/// `salt` with `iters` iterations.
pub uninterp spec fn pbkdf2_sha256_key(password: Seq<u8>, salt: Seq<u8>, iters: nat) -> Seq<u8>;

/// A character of the Base64 alphabet or its padding: `A-Z a-z 0-9 + / =`.
pub open spec fn is_base64_char(b: u8) -> bool {
    (0x41 <= b <= 0x5a) || (0x61 <= b <= 0x7a) || (0x30 <= b <= 0x39) || b == 0x2b || b == 0x2f
        || b == 0x3d
}

pub open spec fn is_base64_text(t: Seq<u8>) -> bool {
    forall|k: int| 0 <= k < t.len() ==> #[trigger] is_base64_char(t[k])
}

/// The Base64 character for the 6-bit value `v`: `A-Z`, `a-z`, `0-9`,
/// `+`, `/`.
pub open spec fn base64_digit(v: int) -> u8 {
    if v < 26 {
        (0x41 + v) as u8
    } else if v < 52 {
        (0x61 + v - 26) as u8
    } else if v < 62 {
        (0x30 + v - 52) as u8
    } else if v == 62 {
        0x2b
    } else {
        0x2f
    }
}

/// The Base64 text of `data`, standard alphabet, padded with `=` to whole
/// groups of four characters, without line breaks: each 3 bytes give 4
/// characters of 6 bits each, the first bits first.
pub open spec fn base64_encoded(data: Seq<u8>) -> Seq<u8>
    decreases data.len(),
{
    if data.len() == 0 {
        Seq::empty()
    } else if data.len() == 1 {
        let a = data[0] as int;
        seq![base64_digit(a / 4), base64_digit((a % 4) * 16), 0x3du8, 0x3du8]
    } else if data.len() == 2 {
        let a = data[0] as int;
        let b = data[1] as int;
        seq![base64_digit(a / 4), base64_digit((a % 4) * 16 + b / 16), base64_digit((b % 16) * 4), 0x3du8]
    } else {
        let a = data[0] as int;
        let b = data[1] as int;
        let c = data[2] as int;
        seq![
            base64_digit(a / 4),
            base64_digit((a % 4) * 16 + b / 16),
            base64_digit((b % 16) * 4 + c / 64),
            base64_digit(c % 64),
        ] + base64_encoded(data.skip(3))
    }
}

/// Base64 text is made of Base64 characters only.
pub proof fn lemma_base64_encoded_text(data: Seq<u8>)
    ensures
        is_base64_text(base64_encoded(data)),
    decreases data.len(),
{
    if data.len() >= 3 {
        lemma_base64_encoded_text(data.skip(3));
        let t = base64_encoded(data);
        let rest = base64_encoded(data.skip(3));
        assert forall|k: int| 0 <= k < t.len() implies #[trigger] is_base64_char(t[k]) by {
            if k >= 4 {
                assert(t[k] == rest[k - 4]);
            }
        }
    }
}

/// The bytes that Base64 text decodes to, or `None` for text that is not
/// Base64. Whitespace around the text is ignored.
pub uninterp spec fn base64_decoded(text: Seq<u8>) -> Option<Seq<u8>>;

/// AES-256-GCM: the ciphertext of `data` under `key` and `iv`, with `aad`
/// authenticated, followed by the 16-byte tag.
pub uninterp spec fn aes_gcm_sealed(key: Seq<u8>, iv: Seq<u8>, aad: Seq<u8>, data: Seq<u8>) -> Seq<
    u8,
>;

/// AES-256-GCM: the plaintext of `data` under `key` and `iv` when `tag`
/// authenticates it together with `aad`, else `None`.
pub uninterp spec fn aes_gcm_opened(
    key: Seq<u8>,
    iv: Seq<u8>,
    aad: Seq<u8>,
    data: Seq<u8>,
    tag: Seq<u8>,
) -> Option<Seq<u8>>;

/// SHA-256 by `openssl::sha::sha256`. Trusted to return the digest of
/// `data`.
#[verifier::external_body]
pub(crate) fn sha256(data: &[u8]) -> (r: [u8; 32])
    ensures
        r@ == sha256_digest(data@),
{
    openssl::sha::sha256(data)
}

/// HMAC-SHA-256 by OpenSSL (`openssl::pkey::PKey::hmac` and
/// `openssl::sign::Signer` with `MessageDigest::sha256()`). Trusted to
/// return the 32-byte MAC of `data` under `key`. `PKey::hmac` asserts that
/// the key length fits a C `int`, hence the bound on `key`; beyond that it
/// panics only if OpenSSL fails to set up the MAC, which depends on the
/// OpenSSL build, not on the arguments.
#[verifier::external_body]
pub(crate) fn hmac_sha256(key: &[u8], data: &[u8]) -> (r: [u8; 32])
    requires
        key@.len() <= i32::MAX,
    ensures
        r@ == hmac_sha256_mac(key@, data@),
{
    let pkey = openssl::pkey::PKey::hmac(key).unwrap();
    let mut signer = openssl::sign::Signer::new(openssl::hash::MessageDigest::sha256(), &pkey).unwrap();
    signer.update(data).unwrap();
    let mut out = [0u8; 32];
    signer.sign(&mut out).unwrap();
    out
}

/// PBKDF2-HMAC-SHA-256 by `openssl::pkcs5::pbkdf2_hmac`. Trusted to return
/// the 32-byte derived key. OpenSSL takes the lengths and the iteration
/// count as C `int`s, so they must fit one. The count is kept at least 1,
/// the least that PBKDF2 defines; this wrapper panics if OpenSSL fails
/// otherwise, which depends on the OpenSSL build, not on the arguments.
#[verifier::external_body]
pub(crate) fn pbkdf2_hmac_sha256(salt: &[u8], iters: usize, password: &[u8]) -> (r: [u8; 32])
    requires
        salt@.len() <= i32::MAX,
        password@.len() <= i32::MAX,
        1 <= iters <= i32::MAX,
    ensures
        r@ == pbkdf2_sha256_key(password@, salt@, iters as nat),
{
    let mut out = [0u8; 32];
    openssl::pkcs5::pbkdf2_hmac(password, salt, iters, openssl::hash::MessageDigest::sha256(), &mut out)
        .unwrap();
    out
}

/// Base64 by `openssl::base64::encode_block`. Trusted to return the Base64
/// text of `data` as [`base64_encoded`] states it, which decodes back to
/// `data` (OpenSSL's `EVP_EncodeBlock` pads to whole quads,
/// which `decode_block` strips again). OpenSSL panics when the text length would not fit a C `int`,
/// hence the bound on `data`.
#[verifier::external_body]
pub(crate) fn base64_encode(data: &[u8]) -> (r: Vec<u8>)
    requires
        data@.len() <= 0x50000000,
    ensures
        r@ == base64_encoded(data@),
        base64_decoded(r@) == Some(data@),
{
    openssl::base64::encode_block(data).into_bytes()
}

/// Base64 by `openssl::base64::decode_block`, of the text of `text` (taken as
/// UTF-8, each invalid sequence replaced by U+FFFD; valid UTF-8 is taken as
/// it is). Trusted to return what the text decodes to, or `None` when
/// OpenSSL rejects it; the output is never longer than the 3 bytes per 4
/// characters (plus one partial group) that `decode_block` allocates.
/// `decode_block` panics when the text length does not fit a C `int`: a
/// replacement takes 3 bytes, so invalid UTF-8 may grow threefold, hence
/// the bound on `text` unless it is valid UTF-8.
#[verifier::external_body]
pub(crate) fn base64_decode(text: &[u8]) -> (r: Option<Vec<u8>>)
    requires
        text@.len() <= 0x2aaaaaaa || (valid_utf8(text@) && text@.len() <= i32::MAX),
    ensures
        match r {
            Some(v) => base64_decoded(text@) == Some(v@) && v@.len() <= (3 * text@.len() / 4) * 3
                + 3 && (valid_utf8(text@) ==> v@.len() <= (text@.len() / 4) * 3 + 3),
            None => base64_decoded(text@) is None,
        },
{
    openssl::base64::decode_block(&String::from_utf8_lossy(text)).ok()
}

/// Constant-time comparison by `openssl::memcmp::eq`. Trusted to tell
/// whether the two byte strings are equal; OpenSSL panics when their lengths
/// differ, hence the requirement.
#[verifier::external_body]
pub(crate) fn constant_time_eq(a: &[u8], b: &[u8]) -> (r: bool)
    requires
        a@.len() == b@.len(),
    ensures
        r == (a@ == b@),
{
    openssl::memcmp::eq(a, b)
}

/// Random bytes by `openssl::rand::rand_bytes`: `n` bytes, or `None` when
/// OpenSSL's generator fails. Nothing is claimed of the bytes but their
/// count. OpenSSL panics when `n` does not fit a C `int`.
#[verifier::external_body]
pub(crate) fn random_bytes(n: usize) -> (r: Option<Vec<u8>>)
    requires
        n <= i32::MAX,
    ensures
        r matches Some(v) ==> v@.len() == n,
{
    let mut buf = vec![0u8; n];
    match openssl::rand::rand_bytes(&mut buf) {
        Ok(()) => Some(buf),
        Err(_) => None,
    }
}

/// AES-256-GCM encryption by `openssl::symm::encrypt_aead`. Trusted to
/// return the ciphertext, as long as the data (GCM is a stream mode), and
/// the 16-byte tag, or `None` when OpenSSL fails; what it returns opens
/// again under the same key, iv and `aad`. OpenSSL's cipher update panics
/// when an input length does not fit a C `int`, hence the bounds on `aad`
/// and `data`.
#[verifier::external_body]
pub(crate) fn aes_gcm_seal(key: &[u8], iv: &[u8], aad: &[u8], data: &[u8]) -> (r: Option<
    (Vec<u8>, [u8; 16]),
>)
    requires
        key@.len() == 32,
        iv@.len() == 12,
        aad@.len() <= i32::MAX,
        data@.len() <= i32::MAX,
    ensures
        r matches Some((c, t)) ==> c@ + t@ == aes_gcm_sealed(key@, iv@, aad@, data@) && c@.len()
            == data@.len() && aes_gcm_opened(key@, iv@, aad@, c@, t@) == Some(data@),
{
    let mut tag = [0u8; 16];
    match openssl::symm::encrypt_aead(openssl::symm::Cipher::aes_256_gcm(), key, Some(iv), aad, data, &mut tag) {
        Ok(c) => Some((c, tag)),
        Err(_) => None,
    }
}

/// AES-256-GCM decryption by `openssl::symm::decrypt_aead`. Trusted to
/// return the plaintext when the tag authenticates the ciphertext and
/// `aad`, and `None` otherwise. OpenSSL's cipher update panics when an
/// input length does not fit a C `int`, hence the bounds on `aad` and
/// `data`.
#[verifier::external_body]
pub(crate) fn aes_gcm_open(key: &[u8], iv: &[u8], aad: &[u8], data: &[u8], tag: &[u8]) -> (r: Option<
    Vec<u8>,
>)
    requires
        key@.len() == 32,
        iv@.len() == 12,
        tag@.len() == 16,
        aad@.len() <= i32::MAX,
        data@.len() <= i32::MAX,
    ensures
        match r {
            Some(v) => aes_gcm_opened(key@, iv@, aad@, data@, tag@) == Some(v@),
            None => aes_gcm_opened(key@, iv@, aad@, data@, tag@) is None,
        },
{
    openssl::symm::decrypt_aead(openssl::symm::Cipher::aes_256_gcm(), key, Some(iv), aad, data, tag).ok()
}

} // verus!
