//! Session tokens: the Postgres password of a user, sealed with AES-256-GCM
//! under a server secret, with the user name as authenticated data.
//!
//! A token is the Base64 text of `iv (12 bytes) ++ tag (16 bytes) ++
//! ciphertext`.
use vstd::prelude::*;
use vstd::utf8::valid_utf8;

use crate::crypto::{
    aes_gcm_open,
    aes_gcm_opened,
    aes_gcm_seal,
    aes_gcm_sealed,
    base64_decode,
    base64_decoded,
    base64_encode,
    base64_encoded,
    is_base64_char,
    is_base64_text,
    lemma_base64_encoded_text,
    random_bytes,
};
use crate::utf8::{is_ascii_bytes, is_valid_utf8, lemma_ascii_valid_utf8};

use crate::run::text::push_all;

verus! {

/// Why a token could not be issued: OpenSSL failed to give random bytes or
/// to encrypt.
#[derive(Debug, Clone, Copy, PartialEq, Eq, Structural)]
pub enum AuthError {
    RandomUnavailable,
    EncryptionFailed,
}

/// The bytes of a token sealed with `iv`: the iv, the tag (the last 16
/// bytes of `sealed`), then the ciphertext.
pub open spec fn token_bytes(iv: Seq<u8>, sealed: Seq<u8>) -> Seq<u8> {
    iv + sealed.subrange(sealed.len() - 16, sealed.len() as int) + sealed.take(sealed.len() - 16)
}

/// The password a token opens to under `secret` for `user`, or `None` when
/// the token is not UTF-8, not Base64, shorter than 28 bytes, or does not
/// authenticate.
pub open spec fn spec_verify(secret: Seq<u8>, user: Seq<u8>, token: Seq<u8>) -> Option<Seq<u8>> {
    if !valid_utf8(token) {
        None
    } else {
        match base64_decoded(token) {
            None => None,
            Some(b) => if b.len() < 28 {
                None
            } else {
                aes_gcm_opened(
                    secret,
                    b.subrange(0, 12),
                    user,
                    b.subrange(28, b.len() as int),
                    b.subrange(12, 28),
                )
            },
        }
    }
}

/// The token for what sealing gave: the Base64 text of the 12-byte `iv`,
/// then the 16-byte `tag`, then the ciphertext `c`. It is valid UTF-8 and
/// decodes back to those bytes.
pub fn seal_token(iv: &[u8], c: &[u8], tag: &[u8; 16]) -> (t: Vec<u8>)
    requires
        iv@.len() == 12,
        c@.len() <= 0x40000000,
    ensures
        t@ == base64_encoded(token_bytes(iv@, c@ + tag@)),
        valid_utf8(t@),
        base64_decoded(t@) == Some(iv@ + tag@ + c@),
{
    let mut token: Vec<u8> = Vec::new();
    push_all(&mut token, iv);
    push_all(&mut token, tag.as_slice());
    push_all(&mut token, c);
    proof {
        let sealed = c@ + tag@;
        assert(sealed.subrange(sealed.len() - 16, sealed.len() as int) =~= tag@);
        assert(sealed.take(sealed.len() - 16) =~= c@);
        assert(token@ =~= token_bytes(iv@, sealed));
        assert(token@ =~= iv@ + tag@ + c@);
    }
    let text = base64_encode(token.as_slice());
    proof {
        lemma_base64_encoded_text(token@);
        lemma_base64_text_valid_utf8(text@);
    }
    text
}

/// Issues and checks session tokens under a 32-byte secret.
pub struct Authenticator {
    secret: [u8; 32],
}

impl Authenticator {
    /// The secret tokens are sealed under.
    pub closed spec fn secret(self) -> Seq<u8> {
        self.secret@
    }

    /// An authenticator with a fresh random secret; fails when random bytes
    /// cannot be had.
    pub fn new() -> (r: Result<Authenticator, AuthError>)
        ensures
            r matches Ok(a) ==> a.secret().len() == 32,
            r matches Err(e) ==> e == AuthError::RandomUnavailable,
    {
        match random_bytes(32) {
            Some(v) => {
                let mut secret = [0u8; 32];
                let mut k: usize = 0;
                while k < 32
                    invariant
                        k <= 32,
                        v@.len() == 32,
                    decreases 32 - k,
                {
                    secret[k] = v[k];
                    k = k + 1;
                }
                Ok(Authenticator { secret })
            },
            None => Err(AuthError::RandomUnavailable),
        }
    }

    /// An authenticator with the given secret.
    pub fn with_secret(secret: [u8; 32]) -> (r: Authenticator)
        ensures
            r.secret() == secret@,
    {
        Authenticator { secret }
    }

    /// Issues a token for `user` holding `pwd`, sealed with a fresh random
    /// iv; fails when random bytes cannot be had or encryption fails. A
    /// token it issues opens to `pwd` again for `user`.
    pub fn issue(&self, user: &[u8], pwd: &[u8]) -> (r: Result<Vec<u8>, AuthError>)
        requires
            user@.len() <= i32::MAX,
            pwd@.len() <= 0x40000000,
        ensures
            r matches Ok(t) ==> exists|iv: Seq<u8>|
                #![trigger aes_gcm_sealed(self.secret(), iv, user@, pwd@)]
                iv.len() == 12 && t@ == base64_encoded(
                    token_bytes(iv, aes_gcm_sealed(self.secret(), iv, user@, pwd@)),
                ),
            r matches Ok(t) ==> spec_verify(self.secret(), user@, t@) == Some(pwd@),
            r matches Err(e) ==> e == AuthError::RandomUnavailable || e
                == AuthError::EncryptionFailed,
    {
        match random_bytes(12) {
            Some(iv) => {
                let r = self.issue_with_iv(iv.as_slice(), user, pwd);
                proof {
                    if r is Ok {
                        let _ = aes_gcm_sealed(self.secret(), iv@, user@, pwd@);
                    }
                }
                r
            },
            None => Err(AuthError::RandomUnavailable),
        }
    }

    /// Issues a token for `user` holding `pwd`, sealed with the 12-byte `iv`;
    /// fails only when encryption fails.
    pub fn issue_with_iv(&self, iv: &[u8], user: &[u8], pwd: &[u8]) -> (r: Result<Vec<u8>, AuthError>)
        requires
            iv@.len() == 12,
            user@.len() <= i32::MAX,
            pwd@.len() <= 0x40000000,
        ensures
            r matches Ok(t) ==> t@ == base64_encoded(
                token_bytes(iv@, aes_gcm_sealed(self.secret(), iv@, user@, pwd@)),
            ) && spec_verify(self.secret(), user@, t@) == Some(pwd@),
            r matches Err(e) ==> e == AuthError::EncryptionFailed,
    {
        match aes_gcm_seal(self.secret.as_slice(), iv, user, pwd) {
            Some((enc, tag)) => {
                let text = seal_token(iv, enc.as_slice(), &tag);
                proof {
                    let b = iv@ + tag@ + enc@;
                    assert(b.subrange(0, 12) =~= iv@);
                    assert(b.subrange(12, 28) =~= tag@);
                    assert(b.subrange(28, b.len() as int) =~= enc@);
                }
                Ok(text)
            },
            None => Err(AuthError::EncryptionFailed),
        }
    }

    /// The password held by `token` for `user`, or `None` when the token is
    /// not UTF-8, not Base64, too short, or was not issued under this secret
    /// for this user.
    pub fn verify(&self, user: &[u8], token: &[u8]) -> (r: Option<Vec<u8>>)
        requires
            user@.len() <= i32::MAX,
            token@.len() <= i32::MAX,
        ensures
            match spec_verify(self.secret(), user@, token@) {
                Some(p) => r matches Some(v) && v@ == p,
                None => r is None,
            },
    {
        if !is_valid_utf8(token) {
            return None;
        }
        let bytes = match base64_decode(token) {
            Some(b) => b,
            None => return None,
        };
        if bytes.len() < 28 {
            return None;
        }
        let iv = &bytes.as_slice()[0..12];
        let tag = &bytes.as_slice()[12..28];
        let enc = &bytes.as_slice()[28..bytes.len()];
        aes_gcm_open(self.secret.as_slice(), iv, user, enc, tag)
    }
}

/// Base64 text is ASCII, hence valid UTF-8.
pub proof fn lemma_base64_text_valid_utf8(t: Seq<u8>)
    requires
        is_base64_text(t),
    ensures
        valid_utf8(t),
{
    assert forall|k: int| 0 <= k < t.len() implies #[trigger] t[k] < 0x80 by {
        assert(is_base64_char(t[k]));
    }
    assert(is_ascii_bytes(t));
    lemma_ascii_valid_utf8(t);
}

} // verus!
