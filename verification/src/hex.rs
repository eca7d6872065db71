//! Lower-case hexadecimal text of bytes.
use vstd::prelude::*;

verus! {

/// The lower-case hexadecimal digit of `d` (below 16).
pub open spec fn hex_digit(d: u8) -> u8 {
    if d < 10 {
        (0x30 + d) as u8
    } else {
        (0x61 + d - 10) as u8
    }
}

/// Two lower-case hexadecimal digits for each byte of `b`, high digit first.
pub open spec fn hex_lower(b: Seq<u8>) -> Seq<u8> {
    Seq::new(
        2 * b.len(),
        |i: int|
            if i % 2 == 0 {
                hex_digit(b[i / 2] / 16)
            } else {
                hex_digit(b[i / 2] % 16)
            },
    )
}

pub fn hex_digit_exec(d: u8) -> (r: u8)
    requires
        d < 16,
    ensures
        r == hex_digit(d),
{
    if d < 10 {
        0x30 + d
    } else {
        0x61 + d - 10
    }
}

/// Appends the hexadecimal text of `b` to `out`.
pub fn push_hex(out: &mut Vec<u8>, b: &[u8])
    ensures
        final(out)@ == old(out)@ + hex_lower(b@),
{
    let ghost start = out@;
    let mut k: usize = 0;
    while k < b.len()
        invariant
            k <= b.len(),
            start == old(out)@,
            out@ == start + hex_lower(b@.take(k as int)),
        decreases b.len() - k,
    {
        let x = b[k];
        out.push(hex_digit_exec(x / 16));
        out.push(hex_digit_exec(x % 16));
        k = k + 1;
        assert(start + hex_lower(b@.take(k as int)) =~= out@);
    }
    assert(b@.take(k as int) =~= b@);
}

} // verus!
