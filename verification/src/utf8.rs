//! UTF-8 on byte strings: validation scalar by scalar, against the
//! definitions of `vstd::utf8`, and the length of the invalid sequences that
//! a lossy decoder replaces.
use vstd::prelude::*;
use vstd::utf8::*;

verus! {

/// The valid scalar at position `i` of `s`, as the bytes from `i` on see it.
pub open spec fn scalar_at(s: Seq<u8>, i: int) -> bool {
    valid_first_scalar(s.subrange(i, s.len() as int))
}

/// The length in bytes of the scalar at position `i`.
pub open spec fn scalar_len_at(s: Seq<u8>, i: int) -> int {
    length_of_first_scalar(s.subrange(i, s.len() as int))
}

/// The value of the scalar at position `i`.
pub open spec fn scalar_value_at(s: Seq<u8>, i: int) -> u32 {
    decode_first_scalar(s.subrange(i, s.len() as int))
}

pub proof fn lemma_scalar_len_bounds(s: Seq<u8>, i: int)
    requires
        0 <= i <= s.len(),
        scalar_at(s, i),
    ensures
        1 <= scalar_len_at(s, i) <= 4,
        i + scalar_len_at(s, i) <= s.len(),
{
}

/// Reads the scalar at position `i`: its length and value, or `None` when
/// the bytes from `i` on do not start with a well-formed scalar.
pub fn decode_scalar_at(s: &[u8], i: usize) -> (r: Option<(usize, u32)>)
    requires
        i <= s.len(),
    ensures
        match r {
            Some((n, c)) => scalar_at(s@, i as int) && n == scalar_len_at(s@, i as int) && c
                == scalar_value_at(s@, i as int),
            None => !scalar_at(s@, i as int),
        },
{
    let ghost t = s@.subrange(i as int, s@.len() as int);
    let rem = s.len() - i;
    if rem == 0 {
        return None;
    }
    let b0 = s[i];
    assert(t[0] == b0);
    if b0 <= 0x7f {
        return Some((1, (b0 & 0x7F) as u32));
    }
    if rem >= 2 {
        assert(t[1] == s@[i + 1]);
    }
    if rem >= 3 {
        assert(t[2] == s@[i + 2]);
    }
    if rem >= 4 {
        assert(t[3] == s@[i + 3]);
    }
    if 0xc0 <= b0 && b0 <= 0xdf {
        if rem < 2 {
            return None;
        }
        let b1 = s[i + 1];
        if !(0x80 <= b1 && b1 <= 0xbf) {
            return None;
        }
        let c = (((b0 & 0x1F) as u32) << 6) | ((b1 & 0x3f) as u32);
        if 0x80 <= c && !(0xD800 <= c && c <= 0xDFFF) {
            return Some((2, c));
        } else {
            return None;
        }
    }
    if 0xe0 <= b0 && b0 <= 0xef {
        if rem < 3 {
            return None;
        }
        let b1 = s[i + 1];
        let b2 = s[i + 2];
        if !(0x80 <= b1 && b1 <= 0xbf && 0x80 <= b2 && b2 <= 0xbf) {
            return None;
        }
        let c = (((b0 & 0x0F) as u32) << 12) | (((b1 & 0x3f) as u32) << 6) | ((b2 & 0x3f) as u32);
        if 0x800 <= c && !(0xD800 <= c && c <= 0xDFFF) {
            return Some((3, c));
        } else {
            return None;
        }
    }
    if 0xf0 <= b0 && b0 <= 0xf7 {
        if rem < 4 {
            return None;
        }
        let b1 = s[i + 1];
        let b2 = s[i + 2];
        let b3 = s[i + 3];
        if !(0x80 <= b1 && b1 <= 0xbf && 0x80 <= b2 && b2 <= 0xbf && 0x80 <= b3 && b3 <= 0xbf) {
            return None;
        }
        let c = (((b0 & 0x07) as u32) << 18) | (((b1 & 0x3f) as u32) << 12) | (((b2 & 0x3f) as u32)
            << 6) | ((b3 & 0x3f) as u32);
        if 0x10000 <= c && c <= 0x10ffff && !(0xD800 <= c && c <= 0xDFFF) {
            return Some((4, c));
        } else {
            return None;
        }
    }
    None
}

/// Whether `s` is valid UTF-8.
pub fn is_valid_utf8(s: &[u8]) -> (r: bool)
    ensures
        r == valid_utf8(s@),
{
    let mut i: usize = 0;
    assert(s@.subrange(0, s@.len() as int) =~= s@);
    while i < s.len()
        invariant
            i <= s.len(),
            valid_utf8(s@) == valid_utf8(s@.subrange(i as int, s@.len() as int)),
        decreases s.len() - i,
    {
        match decode_scalar_at(s, i) {
            Some((n, _)) => {
                proof {
                    lemma_scalar_len_bounds(s@, i as int);
                    let t = s@.subrange(i as int, s@.len() as int);
                    assert(pop_first_scalar(t) =~= s@.subrange(i + n, s@.len() as int));
                }
                i = i + n;
            },
            None => {
                return false;
            },
        }
    }
    assert(s@.subrange(i as int, s@.len() as int) =~= Seq::<u8>::empty());
    true
}

pub open spec fn is_ascii_bytes(s: Seq<u8>) -> bool {
    forall|k: int| 0 <= k < s.len() ==> #[trigger] s[k] < 0x80
}

/// Whether every byte of `s` is ASCII.
pub fn is_ascii(s: &[u8]) -> (r: bool)
    ensures
        r == is_ascii_bytes(s@),
{
    let mut k: usize = 0;
    while k < s.len()
        invariant
            k <= s.len(),
            forall|m: int| 0 <= m < k ==> #[trigger] s@[m] < 0x80,
        decreases s.len() - k,
    {
        if s[k] >= 0x80 {
            return false;
        }
        k = k + 1;
    }
    true
}

/// ASCII text is valid UTF-8.
pub proof fn lemma_ascii_valid_utf8(s: Seq<u8>)
    requires
        is_ascii_bytes(s),
    ensures
        valid_utf8(s),
    decreases s.len(),
{
    if s.len() != 0 {
        let b = s[0];
        assert(b < 0x80);
        assert((b & 0x7F) as u32 == b as u32) by (bit_vector)
            requires
                b < 0x80,
        ;
        let t = s.subrange(1, s.len() as int);
        assert(pop_first_scalar(s) =~= t);
        lemma_ascii_valid_utf8(t);
    }
}

pub open spec fn is_cont(b: u8) -> bool {
    0x80 <= b <= 0xbf
}

/// The byte at `i`, or 0 past the end.
pub open spec fn byte_or_zero(s: Seq<u8>, i: int) -> u8 {
    if 0 <= i < s.len() {
        s[i]
    } else {
        0
    }
}

/// The length of the invalid sequence at `i` that a lossy decoder replaces
/// by one U+FFFD: the lead byte and the continuation bytes that could still
/// have begun a well-formed scalar (at least 1, at most 3).
pub open spec fn invalid_len_at(s: Seq<u8>, i: int) -> int {
    let b0 = byte_or_zero(s, i);
    let b1 = byte_or_zero(s, i + 1);
    let b2 = byte_or_zero(s, i + 2);
    if 0xc2 <= b0 <= 0xdf {
        1
    } else if 0xe0 <= b0 <= 0xef {
        let ok1 = (b0 == 0xe0 && 0xa0 <= b1 <= 0xbf) || (0xe1 <= b0 <= 0xec && is_cont(b1)) || (b0
            == 0xed && 0x80 <= b1 <= 0x9f) || (0xee <= b0 <= 0xef && is_cont(b1));
        if !ok1 {
            1
        } else {
            2
        }
    } else if 0xf0 <= b0 <= 0xf4 {
        let ok1 = (b0 == 0xf0 && 0x90 <= b1 <= 0xbf) || (0xf1 <= b0 <= 0xf3 && is_cont(b1)) || (b0
            == 0xf4 && 0x80 <= b1 <= 0x8f);
        if !ok1 {
            1
        } else if !is_cont(b2) {
            2
        } else {
            3
        }
    } else {
        1
    }
}

pub fn invalid_len(s: &[u8], i: usize) -> (r: usize)
    requires
        i < s.len(),
    ensures
        r == invalid_len_at(s@, i as int),
        1 <= r <= 3,
{
    let b0 = s[i];
    let b1 = if s.len() - i > 1 {
        s[i + 1]
    } else {
        0
    };
    let b2 = if s.len() - i > 2 {
        s[i + 2]
    } else {
        0
    };
    if 0xc2 <= b0 && b0 <= 0xdf {
        1
    } else if 0xe0 <= b0 && b0 <= 0xef {
        let ok1 = (b0 == 0xe0 && 0xa0 <= b1 && b1 <= 0xbf) || (0xe1 <= b0 && b0 <= 0xec && 0x80
            <= b1 && b1 <= 0xbf) || (b0 == 0xed && 0x80 <= b1 && b1 <= 0x9f) || (0xee <= b0 && b0
            <= 0xef && 0x80 <= b1 && b1 <= 0xbf);
        if !ok1 {
            1
        } else {
            2
        }
    } else if 0xf0 <= b0 && b0 <= 0xf4 {
        let ok1 = (b0 == 0xf0 && 0x90 <= b1 && b1 <= 0xbf) || (0xf1 <= b0 && b0 <= 0xf3 && 0x80
            <= b1 && b1 <= 0xbf) || (b0 == 0xf4 && 0x80 <= b1 && b1 <= 0x8f);
        if !ok1 {
            1
        } else if !(0x80 <= b2 && b2 <= 0xbf) {
            2
        } else {
            3
        }
    } else {
        1
    }
}

/// The number of UTF-16 code units of the valid UTF-8 text from `i` on:
/// two for each scalar of four bytes, one for every other.
pub open spec fn utf16_len_from(s: Seq<u8>, i: int) -> int
    decreases s.len() - i,
{
    if !(0 <= i < s.len()) || !scalar_at(s, i) {
        0
    } else {
        (if scalar_len_at(s, i) == 4 {
            2int
        } else {
            1int
        }) + utf16_len_from(s, i + scalar_len_at(s, i))
    }
}

/// A text takes no more UTF-16 code units than UTF-8 bytes.
pub proof fn lemma_utf16_len_bound(s: Seq<u8>, i: int)
    requires
        0 <= i <= s.len(),
    ensures
        0 <= utf16_len_from(s, i) <= s.len() - i,
    decreases s.len() - i,
{
    if i < s.len() && scalar_at(s, i) {
        lemma_scalar_len_bounds(s, i);
        lemma_utf16_len_bound(s, i + scalar_len_at(s, i));
    }
}

/// A scalar that starts a byte string starts it whatever follows.
pub proof fn lemma_first_scalar_extend(x: Seq<u8>, y: Seq<u8>)
    requires
        valid_first_scalar(x),
    ensures
        valid_first_scalar(x + y),
        length_of_first_scalar(x + y) == length_of_first_scalar(x),
{
    let z = x + y;
    assert(z[0] == x[0]);
    if x.len() >= 2 {
        assert(z[1] == x[1]);
    }
    if x.len() >= 3 {
        assert(z[2] == x[2]);
    }
    if x.len() >= 4 {
        assert(z[3] == x[3]);
    }
}

/// Counting UTF-16 code units in `b` from `j` is the same as counting them
/// in `a + b` from `a.len() + j`.
pub proof fn lemma_utf16_len_shift(a: Seq<u8>, b: Seq<u8>, j: int)
    requires
        0 <= j <= b.len(),
    ensures
        utf16_len_from(a + b, a.len() + j) == utf16_len_from(b, j),
    decreases b.len() - j,
{
    let t = a + b;
    assert(t.subrange(a.len() + j, t.len() as int) =~= b.subrange(j, b.len() as int));
    if j < b.len() && scalar_at(b, j) {
        lemma_scalar_len_bounds(b, j);
        lemma_utf16_len_shift(a, b, j + scalar_len_at(b, j));
    }
}

/// After valid UTF-8 text, the UTF-16 code units of what follows add up:
/// counting from `i` in `a + b` counts the rest of `a`, then `b`.
pub proof fn lemma_utf16_len_concat(a: Seq<u8>, b: Seq<u8>, i: int)
    requires
        0 <= i <= a.len(),
        valid_utf8(a.subrange(i, a.len() as int)),
    ensures
        utf16_len_from(a + b, i) == utf16_len_from(a, i) + utf16_len_from(b, 0),
    decreases a.len() - i,
{
    if i == a.len() {
        lemma_utf16_len_shift(a, b, 0);
    } else {
        let x = a.subrange(i, a.len() as int);
        let t = a + b;
        assert(t.subrange(i, t.len() as int) =~= x + b);
        lemma_first_scalar_extend(x, b);
        let n = length_of_first_scalar(x);
        assert(scalar_at(a, i) && scalar_at(t, i));
        lemma_scalar_len_bounds(a, i);
        assert(pop_first_scalar(x) =~= a.subrange(i + n, a.len() as int));
        lemma_utf16_len_concat(a, b, i + n);
    }
}

/// ASCII text takes a UTF-16 code unit for each byte.
pub proof fn lemma_utf16_len_ascii(s: Seq<u8>, i: int)
    requires
        0 <= i <= s.len(),
        is_ascii_bytes(s),
    ensures
        utf16_len_from(s, i) == s.len() - i,
    decreases s.len() - i,
{
    if i < s.len() {
        let b = s[i];
        assert(b < 0x80);
        assert(s.subrange(i, s.len() as int)[0] == b);
        lemma_utf16_len_ascii(s, i + 1);
    }
}

/// The number of UTF-16 code units of `s`, or `None` when `s` is not valid
/// UTF-8.
pub fn utf16_len(s: &[u8]) -> (r: Option<usize>)
    ensures
        r is Some <==> valid_utf8(s@),
        r matches Some(n) ==> n == utf16_len_from(s@, 0),
{
    let mut i: usize = 0;
    let mut n: usize = 0;
    assert(s@.subrange(0, s@.len() as int) =~= s@);
    while i < s.len()
        invariant
            i <= s.len(),
            n <= i,
            valid_utf8(s@) == valid_utf8(s@.subrange(i as int, s@.len() as int)),
            utf16_len_from(s@, 0) == n + utf16_len_from(s@, i as int),
        decreases s.len() - i,
    {
        match decode_scalar_at(s, i) {
            Some((len, _)) => {
                proof {
                    lemma_scalar_len_bounds(s@, i as int);
                    let t = s@.subrange(i as int, s@.len() as int);
                    assert(pop_first_scalar(t) =~= s@.subrange(i + len, s@.len() as int));
                }
                n = n + if len == 4 {
                    2
                } else {
                    1
                };
                i = i + len;
            },
            None => {
                return None;
            },
        }
    }
    assert(s@.subrange(i as int, s@.len() as int) =~= Seq::<u8>::empty());
    Some(n)
}

/// The number of UTF-16 code units that encode `cs`: one for each
/// character below U+10000, two (a surrogate pair) for each above.
pub open spec fn utf16_units(cs: Seq<char>) -> int
    decreases cs.len(),
{
    if cs.len() == 0 {
        0
    } else {
        (if cs[0] as u32 >= 0x10000 {
            2int
        } else {
            1int
        }) + utf16_units(cs.drop_first())
    }
}

/// A scalar encoded in fewer than 4 bytes is below U+10000; one encoded in
/// 4 bytes is at or above it.
proof fn lemma_scalar_plane(t: Seq<u8>)
    requires
        valid_first_scalar(t),
    ensures
        (decode_first_scalar(t) >= 0x10000) == (length_of_first_scalar(t) == 4),
{
    let b1 = t[0];
    if is_leading_byte_width_1(b1) {
        assert((b1 & 0x7f) as u32 <= 0x7f) by (bit_vector);
    } else if is_leading_byte_width_2(b1) {
        let b2 = t[1];
        assert((((b1 & 0x1f) as u32) << 6) | ((b2 & 0x3f) as u32) <= 0x7ff) by (bit_vector);
    } else if is_leading_byte_width_3(b1) {
        let b2 = t[1];
        let b3 = t[2];
        assert(((((b1 & 0x0f) as u32) << 12) | (((b2 & 0x3f) as u32) << 6) | ((b3 & 0x3f) as u32))
            <= 0xffff) by (bit_vector);
    }
}

/// The UTF-16 count law, scalar by scalar: a scalar below U+10000 takes one
/// code unit, one above it two.
pub proof fn lemma_utf16_units_at(s: Seq<u8>, i: int)
    requires
        0 <= i < s.len(),
        scalar_at(s, i),
    ensures
        utf16_len_from(s, i) == (if scalar_value_at(s, i) >= 0x10000 {
            2int
        } else {
            1int
        }) + utf16_len_from(s, i + scalar_len_at(s, i)),
{
    lemma_scalar_plane(s.subrange(i, s.len() as int));
}

/// The UTF-16 count law: the code units counted in valid UTF-8 text are
/// those of the UTF-16 encoding of the text it decodes to.
pub proof fn lemma_utf16_len_decoded(s: Seq<u8>)
    requires
        valid_utf8(s),
    ensures
        utf16_len_from(s, 0) == utf16_units(decode_utf8(s)),
    decreases s.len(),
{
    if s.len() > 0 {
        assert(s.subrange(0, s.len() as int) =~= s);
        let n = length_of_first_scalar(s);
        let rest = pop_first_scalar(s);
        lemma_scalar_plane(s);
        lemma_scalar_len_bounds(s, 0);
        lemma_utf16_len_decoded(rest);
        // counting from the scalar's end in `s` is counting `rest` from 0
        assert(s =~= s.subrange(0, n) + rest);
        lemma_utf16_len_shift(s.subrange(0, n), rest, 0);
        let v = decode_first_scalar(s);
        let cs = decode_utf8(s);
        assert(cs[0] == v as char);
        assert(cs.drop_first() =~= decode_utf8(rest));
        assert((v as char) as u32 == v);
    }
}

} // verus!
