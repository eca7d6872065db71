//! Tokens of paused results and COPY downloads: a 128-bit key, written as 32
//! lower-case hexadecimal digits and read back in base 16.
use vstd::prelude::*;

use crate::crypto::random_bytes;
use crate::hex::hex_digit;
use crate::hex::hex_digit_exec;

verus! {

/// `16` to the power `n`.
pub open spec fn pow16(n: nat) -> nat
    decreases n,
{
    if n == 0 {
        1
    } else {
        16 * pow16((n - 1) as nat)
    }
}

/// The `n` lowest hexadecimal digits of `v`, most significant first.
pub open spec fn hex_digits(v: nat, n: nat) -> Seq<u8>
    decreases n,
{
    if n == 0 {
        Seq::empty()
    } else {
        hex_digits(v / 16, (n - 1) as nat).push(hex_digit((v % 16) as u8))
    }
}

/// The text of a key: 32 lower-case hexadecimal digits, zero-padded.
pub open spec fn token_text(key: u128) -> Seq<u8> {
    hex_digits(key as nat, 32)
}

/// A hexadecimal digit, in either case.
pub open spec fn is_hex(b: u8) -> bool {
    (0x30 <= b <= 0x39) || (0x61 <= b <= 0x66) || (0x41 <= b <= 0x46)
}

/// Every byte of `d` is a hexadecimal digit.
pub open spec fn all_hex(d: Seq<u8>) -> bool {
    forall|k: int| 0 <= k < d.len() ==> #[trigger] is_hex(d[k])
}

/// The value of a hexadecimal digit.
pub open spec fn hex_val(b: u8) -> nat {
    if 0x30 <= b <= 0x39 {
        (b - 0x30) as nat
    } else if 0x61 <= b <= 0x66 {
        (b - 0x61 + 10) as nat
    } else {
        (b - 0x41 + 10) as nat
    }
}

/// The value of hexadecimal digits, most significant first.
pub open spec fn hex_value(d: Seq<u8>) -> nat
    decreases d.len(),
{
    if d.len() == 0 {
        0
    } else {
        hex_value(d.drop_last()) * 16 + hex_val(d.last())
    }
}

/// The digits of a token: what follows an optional leading `+`.
pub open spec fn token_digits(t: Seq<u8>) -> Seq<u8> {
    if t.len() > 0 && t[0] == 0x2b {
        t.skip(1)
    } else {
        t
    }
}

/// A token read in base 16 as `u128::from_str_radix` reads it: an optional
/// `+`, then at least one hexadecimal digit of either case, and a value
/// that fits 128 bits.
pub open spec fn spec_parse_token(t: Seq<u8>) -> Option<u128> {
    let d = token_digits(t);
    if d.len() == 0 || !all_hex(d) || hex_value(d) > u128::MAX {
        None
    } else {
        Some(hex_value(d) as u128)
    }
}

/// The number that 16 bytes stand for, the first byte the most significant.
pub open spec fn be_value(b: Seq<u8>) -> nat
    decreases b.len(),
{
    if b.len() == 0 {
        0
    } else {
        be_value(b.drop_last()) * 256 + b.last() as nat
    }
}

proof fn lemma_be_value_bound(b: Seq<u8>)
    ensures
        be_value(b) < pow16(2 * b.len()),
    decreases b.len(),
{
    if b.len() > 0 {
        lemma_be_value_bound(b.drop_last());
        let n = (2 * b.len()) as nat;
        assert(pow16(n) == 256 * pow16((n - 2) as nat)) by {
            assert(pow16(n) == 16 * pow16((n - 1) as nat));
            assert(pow16((n - 1) as nat) == 16 * pow16((n - 2) as nat));
        }
        let p = pow16((n - 2) as nat);
        let v = be_value(b.drop_last());
        assert(v * 256 + b.last() < 256 * p) by (nonlinear_arith)
            requires
                v < p,
                b.last() < 256,
        ;
    }
}

proof fn lemma_pow16_32()
    ensures
        pow16(32) == u128::MAX + 1,
{
    reveal_with_fuel(pow16, 33);
    assert(pow16(32) == 0x1_0000_0000_0000_0000_0000_0000_0000_0000);
}

/// Reading the text of a key gives the key back.
pub proof fn lemma_parse_token_text(key: u128)
    ensures
        spec_parse_token(token_text(key)) == Some(key),
{
    let t = hex_digits(key as nat, 32);
    lemma_hex_digits(key as nat, 32);
    lemma_pow16_32();
    assert(t.len() == 32);
    assert(is_hex(t[0]) && t[0] != 0x2b);
    assert(token_digits(t) == t);
    assert(forall|k: int| 0 <= k < t.len() ==> #[trigger] is_hex(t[k]));
}

proof fn lemma_hex_digits(v: nat, n: nat)
    ensures
        hex_digits(v, n).len() == n,
        forall|k: int| 0 <= k < n ==> #[trigger] is_hex(hex_digits(v, n)[k]) && hex_digits(v, n)[k]
            != 0x2b,
        hex_value(hex_digits(v, n)) == v % pow16(n),
    decreases n,
{
    if n > 0 {
        let m = (n - 1) as nat;
        lemma_hex_digits(v / 16, m);
        let s = hex_digits(v, n);
        assert(s.drop_last() =~= hex_digits(v / 16, m));
        assert(pow16(m) > 0) by {
            lemma_pow16_pos(m);
        }
        vstd::arithmetic::div_mod::lemma_mod_breakdown(v as int, 16, pow16(m) as int);
        assert(hex_val(hex_digit((v % 16) as u8)) == v % 16);
    }
}

proof fn lemma_pow16_pos(n: nat)
    ensures
        pow16(n) > 0,
    decreases n,
{
    if n > 0 {
        lemma_pow16_pos((n - 1) as nat);
    }
}

/// The text of `key`: its 32 lower-case hexadecimal digits.
pub fn format_token(key: u128) -> (r: Vec<u8>)
    ensures
        r@ == token_text(key),
{
    let mut out = [0u8; 32];
    let mut v: u128 = key;
    let mut j: usize = 32;
    assert(out@.subrange(32, 32) =~= Seq::<u8>::empty());
    assert(hex_digits(key as nat, 32) + Seq::<u8>::empty() =~= hex_digits(key as nat, 32));
    while j > 0
        invariant
            j <= 32,
            out@.len() == 32,
            hex_digits(key as nat, 32) == hex_digits(v as nat, j as nat) + out@.subrange(j as int, 32),
        decreases j,
    {
        let ghost before = out@;
        let d = (v % 16) as u8;
        out[j - 1] = hex_digit_exec(d);
        proof {
            assert(hex_digits(v as nat, j as nat) == hex_digits((v / 16) as nat, (j - 1) as nat).push(
                hex_digit(d),
            ));
            assert(out@.subrange(j - 1, 32) =~= seq![hex_digit(d)] + before.subrange(j as int, 32));
            assert(hex_digits(v as nat, j as nat) + before.subrange(j as int, 32) =~= hex_digits(
                (v / 16) as nat,
                (j - 1) as nat,
            ) + out@.subrange(j - 1, 32));
        }
        v = v / 16;
        j = j - 1;
    }
    assert(out@.subrange(0, 32) =~= out@);
    assert(hex_digits(v as nat, 0) =~= Seq::<u8>::empty());
    assert(out@ =~= token_text(key));
    let r = vstd::slice::slice_to_vec(out.as_slice());
    r
}

proof fn lemma_hex_value_grows(d: Seq<u8>, i: int)
    requires
        0 <= i <= d.len(),
    ensures
        hex_value(d.take(i)) <= hex_value(d),
    decreases d.len() - i,
{
    if i < d.len() {
        lemma_hex_value_grows(d, i + 1);
        assert(d.take(i + 1).drop_last() =~= d.take(i));
    } else {
        assert(d.take(i) =~= d);
    }
}

fn hex_val_exec(b: u8) -> (r: u8)
    requires
        is_hex(b),
    ensures
        r == hex_val(b),
        r < 16,
{
    if 0x30 <= b && b <= 0x39 {
        b - 0x30
    } else if 0x61 <= b && b <= 0x66 {
        b - 0x61 + 10
    } else {
        b - 0x41 + 10
    }
}

/// Reads a token in base 16 the way `u128::from_str_radix(text, 16)` does:
/// `None` when it is empty, holds a character other than a hexadecimal
/// digit (but for one leading `+`), or exceeds 128 bits.
pub fn parse_token(text: &[u8]) -> (r: Option<u128>)
    ensures
        r == spec_parse_token(text@),
{
    let start: usize = if text.len() > 0 && text[0] == 0x2b {
        1
    } else {
        0
    };
    let ghost d = token_digits(text@);
    assert(d =~= text@.skip(start as int));
    if start >= text.len() {
        return None;
    }
    let mut v: u128 = 0;
    let mut i: usize = start;
    assert(d.take(0) =~= Seq::<u8>::empty());
    while i < text.len()
        invariant
            start <= i <= text.len(),
            d == text@.skip(start as int),
            d == token_digits(text@),
            forall|k: int| 0 <= k < i - start ==> #[trigger] is_hex(d[k]),
            v == hex_value(d.take(i - start)),
        decreases text.len() - i,
    {
        let b = text[i];
        assert(d[i - start] == b);
        if !(0x30 <= b && b <= 0x39 || 0x61 <= b && b <= 0x66 || 0x41 <= b && b <= 0x46) {
            assert(!is_hex(d[i - start]));
            assert(!all_hex(d));
            return None;
        }
        let x = hex_val_exec(b);
        let ghost t = d.take(i - start + 1);
        assert(t.drop_last() =~= d.take(i - start));
        assert(t.last() == b);
        if v > (u128::MAX - x as u128) / 16 {
            proof {
                assert(hex_value(t) > u128::MAX) by (nonlinear_arith)
                    requires
                        hex_value(t) == v * 16 + x,
                        v > (u128::MAX - x) / 16,
                        x < 16,
                ;
                lemma_hex_value_grows(d, i - start + 1);
                assert(hex_value(d) > u128::MAX);
                assert(d.len() > 0);
            }
            return None;
        }
        assert(v * 16 + x <= u128::MAX) by (nonlinear_arith)
            requires
                v <= (u128::MAX - x) / 16,
                x < 16,
        ;
        v = v * 16 + x as u128;
        i = i + 1;
    }
    assert(d.take(i - start) =~= d);
    Some(v)
}

/// The key that 16 bytes stand for, the first byte the most significant.
pub fn key_from_bytes(b: &[u8]) -> (r: u128)
    requires
        b@.len() == 16,
    ensures
        r == be_value(b@),
{
    let mut v: u128 = 0;
    let mut i: usize = 0;
    assert(b@.take(0) =~= Seq::<u8>::empty());
    while i < 16
        invariant
            i <= 16,
            b@.len() == 16,
            v == be_value(b@.take(i as int)),
        decreases 16 - i,
    {
        proof {
            lemma_be_value_bound(b@.take(i as int));
            lemma_pow16_mono((2 * i) as nat, 30);
            assert(pow16(30) * 256 == pow16(32)) by {
                assert(pow16(31) == 16 * pow16(30));
                assert(pow16(32) == 16 * pow16(31));
            }
            lemma_pow16_32();
            assert(v * 256 + b[i as int] <= u128::MAX) by (nonlinear_arith)
                requires
                    v < pow16(30),
                    pow16(30) * 256 == u128::MAX + 1,
                    b[i as int] < 256,
            ;
            assert(b@.take(i + 1).drop_last() =~= b@.take(i as int));
        }
        v = v * 256 + b[i] as u128;
        i = i + 1;
    }
    assert(b@.take(16) =~= b@);
    v
}

proof fn lemma_pow16_mono(a: nat, b: nat)
    requires
        a <= b,
    ensures
        pow16(a) <= pow16(b),
    decreases b - a,
{
    if a < b {
        lemma_pow16_mono(a, (b - 1) as nat);
        lemma_pow16_pos((b - 1) as nat);
    }
}

/// A fresh random key, or `None` when random bytes cannot be had.
pub fn new_key() -> (r: Option<u128>)
    ensures
        r matches Some(k) ==> exists|b: Seq<u8>| b.len() == 16 && k == be_value(b),
{
    match random_bytes(16) {
        Some(b) => {
            let k = key_from_bytes(b.as_slice());
            assert(b@.len() == 16 && k == be_value(b@));
            Some(k)
        },
        None => None,
    }
}

} // verus!
