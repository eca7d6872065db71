//! The password hash of Postgres MD5 authentication.
use vstd::prelude::*;

use crate::hex::{hex_lower, push_hex};

verus! {

/// The MD5 digest of `data`.
pub uninterp spec fn md5_digest(data: Seq<u8>) -> Seq<u8>;

/// MD5 of `chunk1` followed by `chunk2`, computed by OpenSSL
/// (`openssl::hash::Hasher` with `MessageDigest::md5()`, fed the two chunks
/// in turn). Trusted to return the 16-byte MD5 digest of the concatenation;
/// it panics if OpenSSL cannot provide MD5 (for instance in FIPS mode), a
/// failure that depends on the OpenSSL build, not on the arguments.
#[verifier::external_body]
fn concat_md5(chunk1: &[u8], chunk2: &[u8]) -> (r: [u8; 16])
    ensures
        r@ == md5_digest(chunk1@ + chunk2@),
{
    let mut hasher = openssl::hash::Hasher::new(openssl::hash::MessageDigest::md5()).unwrap();
    hasher.update(chunk1).unwrap();
    hasher.update(chunk2).unwrap();
    let digest = hasher.finish().unwrap();
    let mut out = [0u8; 16];
    out.copy_from_slice(&digest);
    out
}

/// The password sent in answer to an MD5 challenge:
/// `"md5" + hex(md5(hex(md5(password + user)) + salt))`.
pub open spec fn spec_md5_password(user: Seq<u8>, password: Seq<u8>, salt: Seq<u8>) -> Seq<u8> {
    seq![0x6du8, 0x64, 0x35] + hex_lower(md5_digest(hex_lower(md5_digest(password + user)) + salt))
}

pub fn md5_password(user: &[u8], password: &[u8], salt: &[u8]) -> (r: [u8; 35])
    ensures
        r@ == spec_md5_password(user@, password@, salt@),
{
    let step1 = concat_md5(password, user);
    let mut step1_hex: Vec<u8> = Vec::new();
    push_hex(&mut step1_hex, step1.as_slice());
    let step2 = concat_md5(step1_hex.as_slice(), salt);
    let mut text: Vec<u8> = Vec::new();
    text.push(0x6d);
    text.push(0x64);
    text.push(0x35);
    push_hex(&mut text, step2.as_slice());
    assert(text@ =~= spec_md5_password(user@, password@, salt@));
    let mut res = [0u8; 35];
    let mut k: usize = 0;
    while k < 35
        invariant
            k <= 35,
            text@.len() == 35,
            forall|m: int| 0 <= m < k ==> #[trigger] res@[m] == text@[m],
        decreases 35 - k,
    {
        res[k] = text[k];
        k = k + 1;
    }
    assert(res@ =~= text@);
    res
}

} // verus!
