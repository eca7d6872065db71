//! A lightweight SQL lexer that finds where the first statement of a script
//! ends, following the rules of psql's own scanner closely enough to keep
//! semicolons inside comments, quoted strings, dollar-quoted bodies and
//! `BEGIN ATOMIC ... END` function bodies from splitting a statement.
//!
//! Every scanner works on a byte string and a position in it and returns the
//! position where its token ends (the same position when no token starts
//! there). Each has a spec function of the same shape that it is proved to
//! compute.
use vstd::prelude::*;

verus! {

// ---------------------------------------------------------------------------
// Byte classes
// ---------------------------------------------------------------------------

/// Whitespace as psql understands it: `\n \r \t \v \f` and space.
pub open spec fn is_space(b: u8) -> bool {
    b == 0x0a || b == 0x0d || b == 0x09 || b == 0x0b || b == 0x0c || b == 0x20
}

/// Horizontal whitespace allowed between the parts of a continued string literal.
pub open spec fn is_hspace(b: u8) -> bool {
    b == 0x09 || b == 0x0b || b == 0x0c || b == 0x20
}

pub open spec fn is_newline(b: u8) -> bool {
    b == 0x0a || b == 0x0d
}

pub open spec fn is_ascii_alpha(b: u8) -> bool {
    (0x41 <= b <= 0x5a) || (0x61 <= b <= 0x7a)
}

pub open spec fn is_ascii_digit(b: u8) -> bool {
    0x30 <= b <= 0x39
}

/// First byte of an identifier: a letter, `_` or any non-ASCII byte.
pub open spec fn is_ident_start(b: u8) -> bool {
    is_ascii_alpha(b) || b == 0x5f || b >= 0x80
}

/// Later bytes of an identifier: additionally digits and `$`.
pub open spec fn is_ident_cont(b: u8) -> bool {
    is_ident_start(b) || is_ascii_digit(b) || b == 0x24
}

/// Later bytes of a dollar-quote tag: letters, digits, `_` or non-ASCII.
pub open spec fn is_dolq_cont(b: u8) -> bool {
    is_ident_start(b) || is_ascii_digit(b)
}

pub open spec fn ascii_lower(b: u8) -> u8 {
    if 0x41 <= b <= 0x5a {
        (b + 0x20) as u8
    } else {
        b
    }
}

fn is_space_byte(b: u8) -> (r: bool)
    ensures
        r == is_space(b),
{
    b == 0x0a || b == 0x0d || b == 0x09 || b == 0x0b || b == 0x0c || b == 0x20
}

fn is_hspace_byte(b: u8) -> (r: bool)
    ensures
        r == is_hspace(b),
{
    b == 0x09 || b == 0x0b || b == 0x0c || b == 0x20
}

fn is_ident_start_byte(b: u8) -> (r: bool)
    ensures
        r == is_ident_start(b),
{
    (0x41 <= b && b <= 0x5a) || (0x61 <= b && b <= 0x7a) || b == 0x5f || b >= 0x80
}

fn is_ident_cont_byte(b: u8) -> (r: bool)
    ensures
        r == is_ident_cont(b),
{
    is_ident_start_byte(b) || (0x30 <= b && b <= 0x39) || b == 0x24
}

fn is_dolq_cont_byte(b: u8) -> (r: bool)
    ensures
        r == is_dolq_cont(b),
{
    is_ident_start_byte(b) || (0x30 <= b && b <= 0x39)
}

/// Whether `s` holds the two bytes `a b` at position `i`.
pub open spec fn pair_at(s: Seq<u8>, i: int, a: u8, b: u8) -> bool {
    0 <= i && i + 1 < s.len() && s[i] == a && s[i + 1] == b
}

/// Whether `s` holds the byte `a` at position `i`.
pub open spec fn byte_at(s: Seq<u8>, i: int, a: u8) -> bool {
    0 <= i < s.len() && s[i] == a
}

fn pair_at_exec(s: &[u8], i: usize, a: u8, b: u8) -> (r: bool)
    ensures
        r == pair_at(s@, i as int, a, b),
{
    i < s.len() && s.len() - i >= 2 && s[i] == a && s[i + 1] == b
}

fn byte_at_exec(s: &[u8], i: usize, a: u8) -> (r: bool)
    ensures
        r == byte_at(s@, i as int, a),
{
    i < s.len() && s[i] == a
}

// ---------------------------------------------------------------------------
// Whitespace
// ---------------------------------------------------------------------------

/// End of the run of whitespace that starts at `i`.
pub open spec fn space_end(s: Seq<u8>, i: int) -> int
    decreases s.len() - i,
{
    if 0 <= i < s.len() && is_space(s[i]) {
        space_end(s, i + 1)
    } else {
        i
    }
}

pub proof fn lemma_space_end_bounds(s: Seq<u8>, i: int)
    requires
        0 <= i <= s.len(),
    ensures
        i <= space_end(s, i) <= s.len(),
    decreases s.len() - i,
{
    if i < s.len() && is_space(s[i]) {
        lemma_space_end_bounds(s, i + 1);
    }
}

fn scan_whitespaces(s: &[u8], i: usize) -> (r: usize)
    requires
        i <= s.len(),
    ensures
        r == space_end(s@, i as int),
{
    let mut j = i;
    while j < s.len() && is_space_byte(s[j])
        invariant
            i <= j <= s.len(),
            space_end(s@, j as int) == space_end(s@, i as int),
        decreases s.len() - j,
    {
        j = j + 1;
    }
    j
}

// ---------------------------------------------------------------------------
// Line comments: `-- ...` up to and including the end of the line
// ---------------------------------------------------------------------------

/// End of the rest of a line comment whose body starts at `j`: just past the
/// first `\n` or `\r`, or the end of input.
pub open spec fn line_rest_end(s: Seq<u8>, j: int) -> int
    decreases s.len() - j,
{
    if 0 <= j < s.len() {
        if is_newline(s[j]) {
            j + 1
        } else {
            line_rest_end(s, j + 1)
        }
    } else {
        j
    }
}

pub open spec fn line_comment_end(s: Seq<u8>, i: int) -> int {
    if pair_at(s, i, 0x2d, 0x2d) {
        line_rest_end(s, i + 2)
    } else {
        i
    }
}

pub proof fn lemma_line_rest_end_bounds(s: Seq<u8>, j: int)
    requires
        0 <= j <= s.len(),
    ensures
        j <= line_rest_end(s, j) <= s.len(),
    decreases s.len() - j,
{
    if j < s.len() && !is_newline(s[j]) {
        lemma_line_rest_end_bounds(s, j + 1);
    }
}

pub proof fn lemma_line_comment_end_bounds(s: Seq<u8>, i: int)
    requires
        0 <= i <= s.len(),
    ensures
        i <= line_comment_end(s, i) <= s.len(),
{
    if pair_at(s, i, 0x2d, 0x2d) {
        lemma_line_rest_end_bounds(s, i + 2);
    }
}

fn scan_line_comment(s: &[u8], i: usize) -> (r: usize)
    requires
        i <= s.len(),
    ensures
        r == line_comment_end(s@, i as int),
{
    if !pair_at_exec(s, i, 0x2d, 0x2d) {
        return i;
    }
    let mut j = i + 2;
    while j < s.len()
        invariant
            i + 2 <= j <= s.len(),
            pair_at(s@, i as int, 0x2d, 0x2d),
            line_rest_end(s@, j as int) == line_rest_end(s@, i + 2),
        decreases s.len() - j,
    {
        let b = s[j];
        assert(line_rest_end(s@, j as int) == if is_newline(b) {
            j + 1
        } else {
            line_rest_end(s@, j + 1)
        });
        j = j + 1;
        if b == 0x0a || b == 0x0d {
            return j;
        }
    }
    j
}

// ---------------------------------------------------------------------------
// Block comments: `/* ... */`, nested
// ---------------------------------------------------------------------------

/// End of the block comment scan at `j` with `depth` comments open.
pub open spec fn block_end(s: Seq<u8>, j: int, depth: nat) -> int
    decreases s.len() - j,
{
    if pair_at(s, j, 0x2f, 0x2a) {
        block_end(s, j + 2, depth + 1)
    } else if pair_at(s, j, 0x2a, 0x2f) && depth > 0 {
        block_end(s, j + 2, (depth - 1) as nat)
    } else if 0 <= j < s.len() && depth > 0 {
        block_end(s, j + 1, depth)
    } else {
        j
    }
}

pub open spec fn block_comment_end(s: Seq<u8>, i: int) -> int {
    block_end(s, i, 0)
}

pub proof fn lemma_block_end_bounds(s: Seq<u8>, j: int, depth: nat)
    requires
        0 <= j <= s.len(),
    ensures
        j <= block_end(s, j, depth) <= s.len(),
    decreases s.len() - j,
{
    if pair_at(s, j, 0x2f, 0x2a) {
        lemma_block_end_bounds(s, j + 2, depth + 1);
    } else if pair_at(s, j, 0x2a, 0x2f) && depth > 0 {
        lemma_block_end_bounds(s, j + 2, (depth - 1) as nat);
    } else if 0 <= j < s.len() && depth > 0 {
        lemma_block_end_bounds(s, j + 1, depth);
    }
}

fn scan_block_comment(s: &[u8], i: usize) -> (r: usize)
    requires
        i <= s.len(),
    ensures
        r == block_comment_end(s@, i as int),
{
    let mut depth: usize = 0;
    let mut j = i;
    loop
        invariant
            i <= j <= s.len(),
            depth <= j,
            block_end(s@, j as int, depth as nat) == block_comment_end(s@, i as int),
        decreases s.len() - j,
    {
        if pair_at_exec(s, j, 0x2f, 0x2a) {
            depth = depth + 1;
            j = j + 2;
        } else if pair_at_exec(s, j, 0x2a, 0x2f) && depth > 0 {
            depth = depth - 1;
            j = j + 2;
        } else if j < s.len() && depth > 0 {
            j = j + 1;
        } else {
            return j;
        }
    }
}

// ---------------------------------------------------------------------------
// Double-quoted identifiers: `"..."`, with `""` read as two quotes
// ---------------------------------------------------------------------------

pub open spec fn dq_end(s: Seq<u8>, j: int, inside: bool) -> int
    decreases s.len() - j,
{
    if byte_at(s, j, 0x22) {
        dq_end(s, j + 1, !inside)
    } else if 0 <= j < s.len() && inside {
        dq_end(s, j + 1, inside)
    } else {
        j
    }
}

pub open spec fn double_quoted_end(s: Seq<u8>, i: int) -> int {
    dq_end(s, i, false)
}

pub proof fn lemma_dq_end_bounds(s: Seq<u8>, j: int, inside: bool)
    requires
        0 <= j <= s.len(),
    ensures
        j <= dq_end(s, j, inside) <= s.len(),
    decreases s.len() - j,
{
    if byte_at(s, j, 0x22) {
        lemma_dq_end_bounds(s, j + 1, !inside);
    } else if 0 <= j < s.len() && inside {
        lemma_dq_end_bounds(s, j + 1, inside);
    }
}

fn scan_double_quoted(s: &[u8], i: usize) -> (r: usize)
    requires
        i <= s.len(),
    ensures
        r == double_quoted_end(s@, i as int),
{
    let mut inside = false;
    let mut j = i;
    loop
        invariant
            i <= j <= s.len(),
            dq_end(s@, j as int, inside) == double_quoted_end(s@, i as int),
        decreases s.len() - j,
    {
        if byte_at_exec(s, j, 0x22) {
            inside = !inside;
            j = j + 1;
        } else if j < s.len() && inside {
            j = j + 1;
        } else {
            return j;
        }
    }
}


// ---------------------------------------------------------------------------
// String literals: `'...'`, `E'...'` with backslash escapes, `''` inside,
// and continuation: a literal followed by whitespace holding a newline and
// another `'...'` part is one literal.
// ---------------------------------------------------------------------------

/// The scan of a string literal from `j`. `esc` says whether backslash
/// escapes are read; `in_gap` is true between two parts of a literal, where
/// `has_nl` records whether a newline was seen and `in_comment` whether a
/// `--` comment is open.
pub open spec fn sq_scan(
    s: Seq<u8>,
    j: int,
    esc: bool,
    in_gap: bool,
    has_nl: bool,
    in_comment: bool,
) -> int
    decreases s.len() - j,
{
    if !in_gap {
        if esc && pair_at(s, j, 0x5c, s[j + 1]) {
            sq_scan(s, j + 2, esc, false, false, false)
        } else if pair_at(s, j, 0x27, 0x27) {
            sq_scan(s, j + 2, esc, false, false, false)
        } else if byte_at(s, j, 0x27) {
            sq_scan(s, j + 1, esc, true, false, false)
        } else if 0 <= j < s.len() {
            sq_scan(s, j + 1, esc, false, false, false)
        } else {
            j
        }
    } else {
        if 0 <= j < s.len() && is_newline(s[j]) {
            sq_scan(s, j + 1, esc, true, true, false)
        } else if 0 <= j < s.len() && in_comment {
            sq_scan(s, j + 1, esc, true, has_nl, true)
        } else if pair_at(s, j, 0x2d, 0x2d) {
            sq_scan(s, j + 2, esc, true, has_nl, true)
        } else if 0 <= j < s.len() && is_hspace(s[j]) {
            sq_scan(s, j + 1, esc, true, has_nl, in_comment)
        } else if byte_at(s, j, 0x27) && has_nl {
            sq_scan(s, j + 1, esc, false, false, false)
        } else {
            j
        }
    }
}

pub open spec fn single_quoted_end(s: Seq<u8>, i: int) -> int {
    if byte_at(s, i, 0x27) {
        sq_scan(s, i + 1, false, false, false, false)
    } else if pair_at(s, i, 0x65, 0x27) || pair_at(s, i, 0x45, 0x27) {
        sq_scan(s, i + 2, true, false, false, false)
    } else {
        i
    }
}

pub proof fn lemma_sq_scan_bounds(
    s: Seq<u8>,
    j: int,
    esc: bool,
    in_gap: bool,
    has_nl: bool,
    in_comment: bool,
)
    requires
        0 <= j <= s.len(),
    ensures
        j <= sq_scan(s, j, esc, in_gap, has_nl, in_comment) <= s.len(),
    decreases s.len() - j,
{
    if !in_gap {
        if esc && pair_at(s, j, 0x5c, s[j + 1]) {
            lemma_sq_scan_bounds(s, j + 2, esc, false, false, false);
        } else if pair_at(s, j, 0x27, 0x27) {
            lemma_sq_scan_bounds(s, j + 2, esc, false, false, false);
        } else if byte_at(s, j, 0x27) {
            lemma_sq_scan_bounds(s, j + 1, esc, true, false, false);
        } else if 0 <= j < s.len() {
            lemma_sq_scan_bounds(s, j + 1, esc, false, false, false);
        }
    } else {
        if 0 <= j < s.len() && is_newline(s[j]) {
            lemma_sq_scan_bounds(s, j + 1, esc, true, true, false);
        } else if 0 <= j < s.len() && in_comment {
            lemma_sq_scan_bounds(s, j + 1, esc, true, has_nl, true);
        } else if pair_at(s, j, 0x2d, 0x2d) {
            lemma_sq_scan_bounds(s, j + 2, esc, true, has_nl, true);
        } else if 0 <= j < s.len() && is_hspace(s[j]) {
            lemma_sq_scan_bounds(s, j + 1, esc, true, has_nl, in_comment);
        } else if byte_at(s, j, 0x27) && has_nl {
            lemma_sq_scan_bounds(s, j + 1, esc, false, false, false);
        }
    }
}

pub proof fn lemma_single_quoted_end_bounds(s: Seq<u8>, i: int)
    requires
        0 <= i <= s.len(),
    ensures
        i <= single_quoted_end(s, i) <= s.len(),
{
    if byte_at(s, i, 0x27) {
        lemma_sq_scan_bounds(s, i + 1, false, false, false, false);
    } else if pair_at(s, i, 0x65, 0x27) || pair_at(s, i, 0x45, 0x27) {
        lemma_sq_scan_bounds(s, i + 2, true, false, false, false);
    }
}

fn scan_single_quoted(s: &[u8], i: usize) -> (r: usize)
    requires
        i <= s.len(),
    ensures
        r == single_quoted_end(s@, i as int),
{
    let mut j;
    let esc;
    if byte_at_exec(s, i, 0x27) {
        j = i + 1;
        esc = false;
    } else if pair_at_exec(s, i, 0x65, 0x27) || pair_at_exec(s, i, 0x45, 0x27) {
        j = i + 2;
        esc = true;
    } else {
        return i;
    }
    let mut in_gap = false;
    let mut has_nl = false;
    let mut in_comment = false;
    loop
        invariant
            i <= j <= s.len(),
            !in_gap ==> !has_nl && !in_comment,
            sq_scan(s@, j as int, esc, in_gap, has_nl, in_comment) == single_quoted_end(
                s@,
                i as int,
            ),
        decreases s.len() - j,
    {
        if !in_gap {
            // inside a literal part
            if esc && j < s.len() && s.len() - j >= 2 && s[j] == 0x5c {
                assert(pair_at(s@, j as int, 0x5c, s@[j + 1]));
                j = j + 2;
            } else if pair_at_exec(s, j, 0x27, 0x27) {
                j = j + 2;
            } else if byte_at_exec(s, j, 0x27) {
                // the literal part ends; look for a continuation
                j = j + 1;
                in_gap = true;
                has_nl = false;
                in_comment = false;
            } else if j < s.len() {
                j = j + 1;
            } else {
                return j;
            }
        } else {
            // between literal parts: whitespace and line comments
            if j < s.len() && (s[j] == 0x0a || s[j] == 0x0d) {
                in_comment = false;
                has_nl = true;
                j = j + 1;
            } else if j < s.len() && in_comment {
                j = j + 1;
            } else if pair_at_exec(s, j, 0x2d, 0x2d) {
                in_comment = true;
                j = j + 2;
            } else if j < s.len() && is_hspace_byte(s[j]) {
                j = j + 1;
            } else if byte_at_exec(s, j, 0x27) && has_nl {
                j = j + 1;
                in_gap = false;
                has_nl = false;
                in_comment = false;
            } else {
                return j;
            }
        }
    }
}

// ---------------------------------------------------------------------------
// Dollar-quoted strings: `$$...$$` or `$tag$...$tag$`
// ---------------------------------------------------------------------------

/// End of the run of tag bytes that starts at `k`.
pub open spec fn dolq_cont_end(s: Seq<u8>, k: int) -> int
    decreases s.len() - k,
{
    if 0 <= k < s.len() && is_dolq_cont(s[k]) {
        dolq_cont_end(s, k + 1)
    } else {
        k
    }
}

/// Length of the opening dollar-quote tag at `i` (`$` included at both
/// ends), or 0 when none starts there.
pub open spec fn dolq_tag_len(s: Seq<u8>, i: int) -> int {
    if pair_at(s, i, 0x24, 0x24) {
        2
    } else if 0 <= i && i + 1 < s.len() && s[i] == 0x24 && is_ident_start(s[i + 1])
        && dolq_cont_end(s, i + 2) < s.len() && s[dolq_cont_end(s, i + 2)] == 0x24 {
        dolq_cont_end(s, i + 2) + 1 - i
    } else {
        0
    }
}

/// Whether the `t` bytes at `j` repeat the `t` bytes at `ts`.
pub open spec fn repeats_at(s: Seq<u8>, j: int, ts: int, t: int) -> bool {
    0 <= j && j + t <= s.len() && s.subrange(j, j + t) == s.subrange(ts, ts + t)
}

/// End of a dollar-quoted body scanned from `j` whose tag is the `t` bytes at
/// `ts`: just past the closing tag, or the end of input.
pub open spec fn dolq_body_end(s: Seq<u8>, j: int, ts: int, t: int) -> int
    decreases s.len() - j,
{
    if !(0 <= j < s.len()) {
        j
    } else if repeats_at(s, j, ts, t) {
        j + t
    } else {
        dolq_body_end(s, j + 1, ts, t)
    }
}

pub open spec fn dollar_quoted_end(s: Seq<u8>, i: int) -> int {
    let t = dolq_tag_len(s, i);
    if t == 0 {
        i
    } else {
        dolq_body_end(s, i + t, i, t)
    }
}

pub proof fn lemma_dolq_cont_end_bounds(s: Seq<u8>, k: int)
    requires
        0 <= k <= s.len(),
    ensures
        k <= dolq_cont_end(s, k) <= s.len(),
        forall|m: int| k <= m < dolq_cont_end(s, k) ==> is_dolq_cont(#[trigger] s[m]),
    decreases s.len() - k,
{
    if k < s.len() && is_dolq_cont(s[k]) {
        lemma_dolq_cont_end_bounds(s, k + 1);
    }
}

pub proof fn lemma_dolq_body_end_bounds(s: Seq<u8>, j: int, ts: int, t: int)
    requires
        0 <= j <= s.len(),
        0 <= t,
    ensures
        j <= dolq_body_end(s, j, ts, t) <= s.len(),
    decreases s.len() - j,
{
    if 0 <= j < s.len() && !repeats_at(s, j, ts, t) {
        lemma_dolq_body_end_bounds(s, j + 1, ts, t);
    }
}

pub proof fn lemma_dollar_quoted_end_bounds(s: Seq<u8>, i: int)
    requires
        0 <= i <= s.len(),
    ensures
        i <= dollar_quoted_end(s, i) <= s.len(),
        dolq_tag_len(s, i) == 0 || i + dolq_tag_len(s, i) <= s.len(),
{
    if 0 <= i && i + 1 < s.len() {
        lemma_dolq_cont_end_bounds(s, i + 2);
    }
    let t = dolq_tag_len(s, i);
    if t != 0 {
        lemma_dolq_body_end_bounds(s, i + t, i, t);
    }
}

fn repeats_at_exec(s: &[u8], j: usize, ts: usize, t: usize) -> (r: bool)
    requires
        ts + t <= s.len(),
    ensures
        r == repeats_at(s@, j as int, ts as int, t as int),
{
    if j > s.len() || s.len() - j < t {
        return false;
    }
    let ghost a = s@.subrange(j as int, j + t);
    let ghost b = s@.subrange(ts as int, ts + t);
    let mut k: usize = 0;
    while k < t
        invariant
            k <= t,
            j + t <= s.len(),
            ts + t <= s.len(),
            a == s@.subrange(j as int, j + t),
            b == s@.subrange(ts as int, ts + t),
            forall|m: int| 0 <= m < k ==> #[trigger] a[m] == b[m],
        decreases t - k,
    {
        if s[j + k] != s[ts + k] {
            assert(a[k as int] != b[k as int]);
            return false;
        }
        k = k + 1;
    }
    assert(a =~= b);
    true
}

fn scan_dollar_quoted(s: &[u8], i: usize) -> (r: usize)
    requires
        i <= s.len(),
    ensures
        r == dollar_quoted_end(s@, i as int),
{
    proof {
        lemma_dollar_quoted_end_bounds(s@, i as int);
    }
    let t: usize;
    if pair_at_exec(s, i, 0x24, 0x24) {
        t = 2;
    } else if i < s.len() && s.len() - i >= 2 && s[i] == 0x24 && is_ident_start_byte(s[i + 1]) {
        // find the end of the tag
        let mut k = i + 2;
        while k < s.len() && is_dolq_cont_byte(s[k])
            invariant
                i + 2 <= k <= s.len(),
                dolq_cont_end(s@, k as int) == dolq_cont_end(s@, i + 2),
            decreases s.len() - k,
        {
            k = k + 1;
        }
        if k < s.len() && s[k] == 0x24 {
            t = k + 1 - i;
        } else {
            return i;
        }
    } else {
        return i;
    }
    assert(t == dolq_tag_len(s@, i as int));
    let mut j = i + t;
    while j < s.len()
        invariant
            i + t <= j <= s.len(),
            t == dolq_tag_len(s@, i as int),
            t > 0,
            i + t <= s.len(),
            dolq_body_end(s@, j as int, i as int, t as int) == dollar_quoted_end(s@, i as int),
        decreases s.len() - j,
    {
        if repeats_at_exec(s, j, i, t) {
            return j + t;
        }
        j = j + 1;
    }
    j
}

// ---------------------------------------------------------------------------
// Identifiers and keywords
// ---------------------------------------------------------------------------

/// End of the run of identifier bytes that starts at `i`.
pub open spec fn ident_end(s: Seq<u8>, i: int) -> int
    decreases s.len() - i,
{
    if 0 <= i < s.len() && is_ident_cont(s[i]) {
        ident_end(s, i + 1)
    } else {
        i
    }
}

pub proof fn lemma_ident_end_bounds(s: Seq<u8>, i: int)
    requires
        0 <= i <= s.len(),
    ensures
        i <= ident_end(s, i) <= s.len(),
    decreases s.len() - i,
{
    if i < s.len() && is_ident_cont(s[i]) {
        lemma_ident_end_bounds(s, i + 1);
    }
}

/// Scans an identifier at `i`; returns its end, or `None` when no identifier
/// starts there.
fn scan_ident(s: &[u8], i: usize) -> (r: Option<usize>)
    requires
        i <= s.len(),
    ensures
        r == (if i < s.len() && is_ident_start(s@[i as int]) {
            Some(ident_end(s@, i as int) as usize)
        } else {
            None
        }),
{
    if !(i < s.len() && is_ident_start_byte(s[i])) {
        return None;
    }
    let mut j = i;
    while j < s.len() && is_ident_cont_byte(s[j])
        invariant
            i <= j <= s.len(),
            ident_end(s@, j as int) == ident_end(s@, i as int),
        decreases s.len() - j,
    {
        j = j + 1;
    }
    Some(j)
}

/// The keywords whose order at the start of a statement is tracked to
/// recognise `CREATE [OR REPLACE] {FUNCTION|PROCEDURE}`, in any ASCII case.
pub open spec fn is_tracked_word(w: Seq<u8>) -> bool {
    ||| eq_ignore_case(w, seq![0x63u8, 0x72, 0x65, 0x61, 0x74, 0x65])  // create
    ||| eq_ignore_case(w, seq![0x6fu8, 0x72])  // or
    ||| eq_ignore_case(w, seq![0x72u8, 0x65, 0x70, 0x6c, 0x61, 0x63, 0x65])  // replace
    ||| eq_ignore_case(w, seq![0x66u8, 0x75, 0x6e, 0x63, 0x74, 0x69, 0x6f, 0x6e])  // function
    ||| eq_ignore_case(w, seq![0x70u8, 0x72, 0x6f, 0x63, 0x65, 0x64, 0x75, 0x72, 0x65])  // procedure

}

/// The slot recorded for an identifier: its lower-cased first byte when it is
/// a tracked keyword, else 0.
pub open spec fn ident_key(w: Seq<u8>) -> u8 {
    if is_tracked_word(w) {
        ascii_lower(w[0])
    } else {
        0
    }
}

/// Whether the first recorded identifiers spell `CREATE FUNCTION`,
/// `CREATE PROCEDURE`, `CREATE OR REPLACE FUNCTION` or
/// `CREATE OR REPLACE PROCEDURE`.
pub open spec fn in_create_func(ids: Seq<u8>) -> bool {
    ||| ids[0] == 0x63 && (ids[1] == 0x66 || ids[1] == 0x70)
    ||| ids[0] == 0x63 && ids[1] == 0x6f && ids[2] == 0x72 && (ids[3] == 0x66 || ids[3] == 0x70)
}

/// ASCII case-insensitive equality.
pub open spec fn eq_ignore_case(w: Seq<u8>, lit: Seq<u8>) -> bool {
    w.len() == lit.len() && forall|k: int|
        0 <= k < w.len() ==> #[trigger] ascii_lower(w[k]) == ascii_lower(lit[k])
}

pub open spec fn word_begin() -> Seq<u8> {
    seq![0x62u8, 0x65, 0x67, 0x69, 0x6e]
}

pub open spec fn word_case() -> Seq<u8> {
    seq![0x63u8, 0x61, 0x73, 0x65]
}

pub open spec fn word_end() -> Seq<u8> {
    seq![0x65u8, 0x6e, 0x64]
}

/// The identifier slots after reading the identifier `w`.
pub open spec fn next_ids(ids: Seq<u8>, cnt: nat, w: Seq<u8>) -> Seq<u8> {
    if cnt < 4 {
        ids.update(cnt as int, ident_key(w))
    } else {
        ids
    }
}

pub open spec fn next_cnt(cnt: nat) -> nat {
    if cnt < 4 {
        cnt + 1
    } else {
        cnt
    }
}

/// The `BEGIN ... END` depth after reading the identifier `w`: only counted
/// inside a function definition and outside parentheses; `CASE ... END`
/// nests inside it.
pub open spec fn next_begin(ids: Seq<u8>, paren: nat, begin: nat, w: Seq<u8>) -> nat {
    if in_create_func(ids) && paren == 0 {
        if eq_ignore_case(w, word_begin()) {
            begin + 1
        } else if eq_ignore_case(w, word_case()) && begin >= 1 {
            begin + 1
        } else if eq_ignore_case(w, word_end()) && begin > 0 {
            (begin - 1) as nat
        } else {
            begin
        }
    } else {
        begin
    }
}

/// Where the statement scanned from `i` ends: just past its terminating
/// `;` (one outside parentheses and outside any function body), or the end
/// of input. `paren` and `begin` are the open parenthesis and `BEGIN` depths,
/// `ids` and `cnt` the identifier slots recorded so far.
pub open spec fn stmt_end(s: Seq<u8>, i: int, paren: nat, begin: nat, ids: Seq<u8>, cnt: nat) -> int
    decreases s.len() - i,
{
    if !(0 <= i <= s.len()) {
        i
    } else if line_comment_end(s, i) != i {
        proof {
            lemma_line_comment_end_bounds(s, i);
        }
        stmt_end(s, line_comment_end(s, i), paren, begin, ids, cnt)
    } else if block_comment_end(s, i) != i {
        proof {
            lemma_block_end_bounds(s, i, 0);
        }
        stmt_end(s, block_comment_end(s, i), paren, begin, ids, cnt)
    } else if double_quoted_end(s, i) != i {
        proof {
            lemma_dq_end_bounds(s, i, false);
        }
        stmt_end(s, double_quoted_end(s, i), paren, begin, ids, cnt)
    } else if single_quoted_end(s, i) != i {
        proof {
            lemma_single_quoted_end_bounds(s, i);
        }
        stmt_end(s, single_quoted_end(s, i), paren, begin, ids, cnt)
    } else if dollar_quoted_end(s, i) != i {
        proof {
            lemma_dollar_quoted_end_bounds(s, i);
        }
        stmt_end(s, dollar_quoted_end(s, i), paren, begin, ids, cnt)
    } else if i < s.len() && is_ident_start(s[i]) {
        proof {
            lemma_ident_end_bounds(s, i + 1);
        }
        let e = ident_end(s, i);
        let w = s.subrange(i, e);
        let ids2 = next_ids(ids, cnt, w);
        stmt_end(s, e, paren, next_begin(ids2, paren, begin, w), ids2, next_cnt(cnt))
    } else if i == s.len() {
        i
    } else if s[i] == 0x3b && paren == 0 && begin == 0 {
        i + 1
    } else if s[i] == 0x28 {
        stmt_end(s, i + 1, paren + 1, begin, ids, cnt)
    } else if s[i] == 0x29 {
        stmt_end(s, i + 1, if paren > 0 { (paren - 1) as nat } else { 0 }, begin, ids, cnt)
    } else {
        stmt_end(s, i + 1, paren, begin, ids, cnt)
    }
}

/// End of the comments and whitespace that follow position `i`.
pub open spec fn trailing_end(s: Seq<u8>, i: int) -> int
    decreases s.len() - i,
{
    if !(0 <= i <= s.len()) {
        i
    } else if line_comment_end(s, i) != i {
        proof {
            lemma_line_comment_end_bounds(s, i);
        }
        trailing_end(s, line_comment_end(s, i))
    } else if block_comment_end(s, i) != i {
        proof {
            lemma_block_end_bounds(s, i, 0);
        }
        trailing_end(s, block_comment_end(s, i))
    } else if space_end(s, i) != i {
        proof {
            lemma_space_end_bounds(s, i);
        }
        trailing_end(s, space_end(s, i))
    } else {
        i
    }
}

/// End of the first statement of `s`, before the whitespace and comments
/// that follow it.
pub open spec fn first_statement_end(s: Seq<u8>) -> int {
    stmt_end(s, 0, 0, 0, seq![0u8, 0, 0, 0], 0)
}

/// The number of bytes taken by the first statement of `s` together with
/// the whitespace and comments after it.
pub open spec fn spec_statement_boundary(s: Seq<u8>) -> int {
    trailing_end(s, first_statement_end(s))
}

pub proof fn lemma_stmt_end_shape(
    s: Seq<u8>,
    i: int,
    paren: nat,
    begin: nat,
    ids: Seq<u8>,
    cnt: nat,
)
    requires
        0 <= i <= s.len(),
    ensures
        i <= stmt_end(s, i, paren, begin, ids, cnt) <= s.len(),
        i < s.len() ==> i < stmt_end(s, i, paren, begin, ids, cnt),
        stmt_end(s, i, paren, begin, ids, cnt) == s.len() || s[stmt_end(s, i, paren, begin, ids, cnt)
            - 1] == 0x3b,
    decreases s.len() - i,
{
    if line_comment_end(s, i) != i {
        lemma_line_comment_end_bounds(s, i);
        lemma_stmt_end_shape(s, line_comment_end(s, i), paren, begin, ids, cnt);
    } else if block_comment_end(s, i) != i {
        lemma_block_end_bounds(s, i, 0);
        lemma_stmt_end_shape(s, block_comment_end(s, i), paren, begin, ids, cnt);
    } else if double_quoted_end(s, i) != i {
        lemma_dq_end_bounds(s, i, false);
        lemma_stmt_end_shape(s, double_quoted_end(s, i), paren, begin, ids, cnt);
    } else if single_quoted_end(s, i) != i {
        lemma_single_quoted_end_bounds(s, i);
        lemma_stmt_end_shape(s, single_quoted_end(s, i), paren, begin, ids, cnt);
    } else if dollar_quoted_end(s, i) != i {
        lemma_dollar_quoted_end_bounds(s, i);
        lemma_stmt_end_shape(s, dollar_quoted_end(s, i), paren, begin, ids, cnt);
    } else if i < s.len() && is_ident_start(s[i]) {
        lemma_ident_end_bounds(s, i + 1);
        let e = ident_end(s, i);
        let w = s.subrange(i, e);
        let ids2 = next_ids(ids, cnt, w);
        lemma_stmt_end_shape(s, e, paren, next_begin(ids2, paren, begin, w), ids2, next_cnt(cnt));
    } else if i == s.len() {
    } else if s[i] == 0x3b && paren == 0 && begin == 0 {
    } else if s[i] == 0x28 {
        lemma_stmt_end_shape(s, i + 1, paren + 1, begin, ids, cnt);
    } else if s[i] == 0x29 {
        lemma_stmt_end_shape(
            s,
            i + 1,
            if paren > 0 {
                (paren - 1) as nat
            } else {
                0
            },
            begin,
            ids,
            cnt,
        );
    } else {
        lemma_stmt_end_shape(s, i + 1, paren, begin, ids, cnt);
    }
}

pub proof fn lemma_trailing_end_bounds(s: Seq<u8>, i: int)
    requires
        0 <= i <= s.len(),
    ensures
        i <= trailing_end(s, i) <= s.len(),
        i == s.len() ==> trailing_end(s, i) == i,
    decreases s.len() - i,
{
    if line_comment_end(s, i) != i {
        lemma_line_comment_end_bounds(s, i);
        lemma_trailing_end_bounds(s, line_comment_end(s, i));
    } else if block_comment_end(s, i) != i {
        lemma_block_end_bounds(s, i, 0);
        lemma_trailing_end_bounds(s, block_comment_end(s, i));
    } else if space_end(s, i) != i {
        lemma_space_end_bounds(s, i);
        lemma_trailing_end_bounds(s, space_end(s, i));
    }
}

fn ascii_lower_byte(b: u8) -> (r: u8)
    ensures
        r == ascii_lower(b),
{
    if 0x41 <= b && b <= 0x5a {
        b + 0x20
    } else {
        b
    }
}

fn word_eq_ignore_case(s: &[u8], i: usize, e: usize, w: &[u8]) -> (r: bool)
    requires
        i <= e <= s.len(),
    ensures
        r == eq_ignore_case(s@.subrange(i as int, e as int), w@),
{
    let ghost sw = s@.subrange(i as int, e as int);
    if e - i != w.len() {
        return false;
    }
    let mut k: usize = 0;
    while k < w.len()
        invariant
            k <= w.len(),
            e - i == w.len(),
            i <= e <= s.len(),
            sw == s@.subrange(i as int, e as int),
            forall|m: int| 0 <= m < k ==> #[trigger] ascii_lower(sw[m]) == ascii_lower(w@[m]),
        decreases w.len() - k,
    {
        if ascii_lower_byte(s[i + k]) != ascii_lower_byte(w[k]) {
            assert(ascii_lower(sw[k as int]) != ascii_lower(w@[k as int]));
            return false;
        }
        k = k + 1;
    }
    true
}

fn ident_key_exec(s: &[u8], i: usize, e: usize) -> (r: u8)
    requires
        i < e <= s.len(),
    ensures
        r == ident_key(s@.subrange(i as int, e as int)),
{
    let ghost w = s@.subrange(i as int, e as int);
    let create: [u8; 6] = [0x63, 0x72, 0x65, 0x61, 0x74, 0x65];
    let or: [u8; 2] = [0x6f, 0x72];
    let replace: [u8; 7] = [0x72, 0x65, 0x70, 0x6c, 0x61, 0x63, 0x65];
    let function: [u8; 8] = [0x66, 0x75, 0x6e, 0x63, 0x74, 0x69, 0x6f, 0x6e];
    let procedure: [u8; 9] = [0x70, 0x72, 0x6f, 0x63, 0x65, 0x64, 0x75, 0x72, 0x65];
    assert(create@ =~= seq![0x63u8, 0x72, 0x65, 0x61, 0x74, 0x65]);
    assert(or@ =~= seq![0x6fu8, 0x72]);
    assert(replace@ =~= seq![0x72u8, 0x65, 0x70, 0x6c, 0x61, 0x63, 0x65]);
    assert(function@ =~= seq![0x66u8, 0x75, 0x6e, 0x63, 0x74, 0x69, 0x6f, 0x6e]);
    assert(procedure@ =~= seq![0x70u8, 0x72, 0x6f, 0x63, 0x65, 0x64, 0x75, 0x72, 0x65]);
    if word_eq_ignore_case(s, i, e, create.as_slice()) || word_eq_ignore_case(s, i, e, or.as_slice())
        || word_eq_ignore_case(s, i, e, replace.as_slice()) || word_eq_ignore_case(
        s,
        i,
        e,
        function.as_slice(),
    ) || word_eq_ignore_case(s, i, e, procedure.as_slice()) {
        assert(w[0] == s@[i as int]);
        ascii_lower_byte(s[i])
    } else {
        0
    }
}

fn in_create_func_exec(ids: &[u8; 4]) -> (r: bool)
    ensures
        r == in_create_func(ids@),
{
    (ids[0] == 0x63 && (ids[1] == 0x66 || ids[1] == 0x70)) || (ids[0] == 0x63 && ids[1] == 0x6f
        && ids[2] == 0x72 && (ids[3] == 0x66 || ids[3] == 0x70))
}

fn scan_statement(s: &[u8]) -> (r: usize)
    ensures
        r == first_statement_end(s@),
{
    let mut i: usize = 0;
    let mut paren: usize = 0;
    let mut begin: usize = 0;
    let mut ids: [u8; 4] = [0, 0, 0, 0];
    let mut cnt: usize = 0;
    assert(ids@ =~= seq![0u8, 0, 0, 0]);
    let begin_w: [u8; 5] = [0x62, 0x65, 0x67, 0x69, 0x6e];
    let case_w: [u8; 4] = [0x63, 0x61, 0x73, 0x65];
    let end_w: [u8; 3] = [0x65, 0x6e, 0x64];
    assert(begin_w@ =~= word_begin());
    assert(case_w@ =~= word_case());
    assert(end_w@ =~= word_end());
    loop
        invariant
            i <= s.len(),
            paren <= i,
            begin <= i,
            cnt <= 4,
            ids@.len() == 4,
            begin_w@ == word_begin(),
            case_w@ == word_case(),
            end_w@ == word_end(),
            stmt_end(s@, i as int, paren as nat, begin as nat, ids@, cnt as nat)
                == first_statement_end(s@),
        decreases s.len() - i,
    {
        proof {
            lemma_line_comment_end_bounds(s@, i as int);
            lemma_block_end_bounds(s@, i as int, 0);
            lemma_dq_end_bounds(s@, i as int, false);
            lemma_single_quoted_end_bounds(s@, i as int);
            lemma_dollar_quoted_end_bounds(s@, i as int);
        }
        let j = scan_line_comment(s, i);
        if j != i {
            i = j;
            continue;
        }
        let j = scan_block_comment(s, i);
        if j != i {
            i = j;
            continue;
        }
        let j = scan_double_quoted(s, i);
        if j != i {
            i = j;
            continue;
        }
        let j = scan_single_quoted(s, i);
        if j != i {
            i = j;
            continue;
        }
        let j = scan_dollar_quoted(s, i);
        if j != i {
            i = j;
            continue;
        }
        if let Some(e) = scan_ident(s, i) {
            proof {
                lemma_ident_end_bounds(s@, i + 1);
            }
            let ghost w = s@.subrange(i as int, e as int);
            let ghost ids0 = ids@;
            let ghost cnt0 = cnt as nat;
            if cnt < 4 {
                let key = ident_key_exec(s, i, e);
                ids[cnt] = key;
                cnt = cnt + 1;
            }
            assert(ids@ == next_ids(ids0, cnt0, w));
            assert(cnt as nat == next_cnt(cnt0));
            if in_create_func_exec(&ids) && paren == 0 {
                if word_eq_ignore_case(s, i, e, begin_w.as_slice()) {
                    begin = begin + 1;
                } else if word_eq_ignore_case(s, i, e, case_w.as_slice()) && begin >= 1 {
                    begin = begin + 1;
                } else if word_eq_ignore_case(s, i, e, end_w.as_slice()) && begin > 0 {
                    begin = begin - 1;
                }
            }
            i = e;
            continue;
        }
        if i == s.len() {
            return i;
        }
        if s[i] == 0x3b && paren == 0 && begin == 0 {
            return i + 1;
        }
        if s[i] == 0x28 {
            paren = paren + 1;
        } else if s[i] == 0x29 {
            paren = if paren > 0 {
                paren - 1
            } else {
                0
            };
        }
        i = i + 1;
    }
}

/// Scans the whitespace and comments that follow position `i`.
fn scan_trailing(s: &[u8], i: usize) -> (r: usize)
    requires
        i <= s.len(),
    ensures
        r == trailing_end(s@, i as int),
{
    let mut j = i;
    loop
        invariant
            i <= j <= s.len(),
            trailing_end(s@, j as int) == trailing_end(s@, i as int),
        decreases s.len() - j,
    {
        proof {
            lemma_line_comment_end_bounds(s@, j as int);
            lemma_block_end_bounds(s@, j as int, 0);
            lemma_space_end_bounds(s@, j as int);
        }
        let k = scan_line_comment(s, j);
        if k != j {
            j = k;
            continue;
        }
        let k = scan_block_comment(s, j);
        if k != j {
            j = k;
            continue;
        }
        let k = scan_whitespaces(s, j);
        if k != j {
            j = k;
            continue;
        }
        return j;
    }
}

/// The first statement of a script and what follows it are taken together:
/// at most the whole script, at least one byte of a script that is not
/// empty, and, unless the whole script is taken, up to a `;` that ends the
/// statement.
pub proof fn lemma_statement_boundary(s: Seq<u8>)
    ensures
        0 <= spec_statement_boundary(s) <= s.len(),
        s.len() > 0 ==> spec_statement_boundary(s) > 0,
        spec_statement_boundary(s) < s.len() ==> exists|k: int|
            0 <= k < spec_statement_boundary(s) && s[k] == 0x3b,
{
    lemma_stmt_end_shape(s, 0, 0, 0, seq![0u8, 0, 0, 0], 0);
    let e = first_statement_end(s);
    lemma_trailing_end_bounds(s, e);
    if spec_statement_boundary(s) < s.len() {
        assert(s[e - 1] == 0x3b);
    }
}

/// A script without `;` is one statement.
pub proof fn lemma_no_semicolon_one_statement(s: Seq<u8>)
    requires
        forall|k: int| 0 <= k < s.len() ==> s[k] != 0x3b,
    ensures
        spec_statement_boundary(s) == s.len(),
{
    lemma_statement_boundary(s);
}

/// Returns the number of bytes consumed by the first SQL statement in `sql`,
/// including the terminating `;` and any trailing whitespace or comments
/// after it. If there is no `;` that ends the statement the full input
/// length is returned (unterminated statement).
pub fn statement_boundary(sql: &[u8]) -> (r: usize)
    ensures
        r == spec_statement_boundary(sql@),
        r <= sql.len(),
        sql.len() > 0 ==> r > 0,
        r < sql.len() ==> exists|k: int| 0 <= k < r && sql@[k] == 0x3b,
{
    proof {
        lemma_statement_boundary(sql@);
    }
    let e = scan_statement(sql);
    scan_trailing(sql, e)
}

pub open spec fn word_create() -> Seq<u8> {
    seq![0x63u8, 0x72, 0x65, 0x61, 0x74, 0x65]
}

pub open spec fn word_or() -> Seq<u8> {
    seq![0x6fu8, 0x72]
}

pub open spec fn word_replace() -> Seq<u8> {
    seq![0x72u8, 0x65, 0x70, 0x6c, 0x61, 0x63, 0x65]
}

pub open spec fn word_function() -> Seq<u8> {
    seq![0x66u8, 0x75, 0x6e, 0x63, 0x74, 0x69, 0x6f, 0x6e]
}

pub open spec fn word_procedure() -> Seq<u8> {
    seq![0x70u8, 0x72, 0x6f, 0x63, 0x65, 0x64, 0x75, 0x72, 0x65]
}

/// A routine that the scanner recognises: `FUNCTION` or `PROCEDURE`, in any
/// case.
pub open spec fn is_routine_word(w: Seq<u8>) -> bool {
    eq_ignore_case(w, word_function()) || eq_ignore_case(w, word_procedure())
}

/// The identifier slots after the words `ws`, read one after the other from
/// the slots `ids` at the start of a statement.
pub open spec fn ids_after(ids: Seq<u8>, ws: Seq<Seq<u8>>) -> Seq<u8>
    decreases ws.len(),
{
    if ws.len() == 0 {
        ids
    } else {
        next_ids(ids_after(ids, ws.drop_last()), (ws.len() - 1) as nat, ws.last())
    }
}

/// The routine body law: when a statement begins `CREATE FUNCTION` or
/// `CREATE PROCEDURE` (in any case), a `BEGIN` outside parentheses opens a
/// body, so that a `;` inside it does not end the statement, and a `;`
/// outside parentheses ends it only once every body is closed.
pub proof fn lemma_create_routine_body(ids: Seq<u8>, create: Seq<u8>, routine: Seq<u8>, w: Seq<u8>, begin: nat)
    requires
        ids.len() == 4,
        eq_ignore_case(create, word_create()),
        is_routine_word(routine),
    ensures
        ({
            let ids2 = ids_after(ids, seq![create, routine]);
            &&& in_create_func(ids2)
            &&& eq_ignore_case(w, word_begin()) ==> next_begin(next_ids(ids2, 2, w), 0, begin, w)
                == begin + 1
        }),
{
    let ws = seq![create, routine];
    assert(ws.drop_last() =~= seq![create]);
    assert(ws.drop_last().drop_last() =~= Seq::<Seq<u8>>::empty());
    assert(ascii_lower(create[0]) == ascii_lower(word_create()[0]));
    assert(ascii_lower(routine[0]) == ascii_lower(word_function()[0]) || ascii_lower(routine[0])
        == ascii_lower(word_procedure()[0]));
    assert(is_tracked_word(create));
    assert(is_tracked_word(routine));
    let i1 = next_ids(ids, 0, create);
    let ids2 = next_ids(i1, 1, routine);
    assert(ids_after(ids, seq![create]) == i1) by {
        reveal_with_fuel(ids_after, 2);
    }
    assert(ids_after(ids, ws) == ids2);
    assert(i1[0] == 0x63);
    assert(ids2[0] == 0x63);
    assert(ids2[1] == 0x66 || ids2[1] == 0x70);
    let ids3 = next_ids(ids2, 2, w);
    assert(ids3[0] == ids2[0] && ids3[1] == ids2[1]);
}

/// The same for `CREATE OR REPLACE FUNCTION` and `CREATE OR REPLACE
/// PROCEDURE`.
pub proof fn lemma_create_or_replace_routine_body(
    ids: Seq<u8>,
    create: Seq<u8>,
    or: Seq<u8>,
    replace: Seq<u8>,
    routine: Seq<u8>,
    w: Seq<u8>,
    begin: nat,
)
    requires
        ids.len() == 4,
        eq_ignore_case(create, word_create()),
        eq_ignore_case(or, word_or()),
        eq_ignore_case(replace, word_replace()),
        is_routine_word(routine),
    ensures
        ({
            let ids4 = ids_after(ids, seq![create, or, replace, routine]);
            &&& in_create_func(ids4)
            &&& eq_ignore_case(w, word_begin()) ==> next_begin(ids4, 0, begin, w) == begin + 1
        }),
{
    let ws = seq![create, or, replace, routine];
    assert(ws.drop_last() =~= seq![create, or, replace]);
    assert(ws.drop_last().drop_last() =~= seq![create, or]);
    assert(ws.drop_last().drop_last().drop_last() =~= seq![create]);
    assert(ws.drop_last().drop_last().drop_last().drop_last() =~= Seq::<Seq<u8>>::empty());
    assert(ascii_lower(create[0]) == ascii_lower(word_create()[0]));
    assert(ascii_lower(or[0]) == ascii_lower(word_or()[0]));
    assert(ascii_lower(replace[0]) == ascii_lower(word_replace()[0]));
    assert(ascii_lower(routine[0]) == ascii_lower(word_function()[0]) || ascii_lower(routine[0])
        == ascii_lower(word_procedure()[0]));
    assert(is_tracked_word(create));
    assert(is_tracked_word(or));
    assert(is_tracked_word(replace));
    assert(is_tracked_word(routine));
    let i1 = next_ids(ids, 0, create);
    let i2 = next_ids(i1, 1, or);
    let i3 = next_ids(i2, 2, replace);
    let i4 = next_ids(i3, 3, routine);
    assert(ids_after(ids, seq![create]) == i1) by {
        reveal_with_fuel(ids_after, 2);
    }
    assert(ids_after(ids, seq![create, or]) == i2);
    assert(ids_after(ids, seq![create, or, replace]) == i3);
    assert(ids_after(ids, ws) == i4);
    assert(i4[0] == 0x63 && i4[1] == 0x6f && i4[2] == 0x72);
    assert(i4[3] == 0x66 || i4[3] == 0x70);
}

/// Bodies nest: in a routine definition, outside parentheses, an `END`
/// closes what a `BEGIN` opened, and, inside a body, what a `CASE` opened;
/// inside parentheses no word changes the depth.
pub proof fn lemma_body_nesting(ids: Seq<u8>, b: nat, paren: nat, wb: Seq<u8>, wc: Seq<u8>, we: Seq<u8>, w: Seq<u8>)
    requires
        in_create_func(ids),
        eq_ignore_case(wb, word_begin()),
        eq_ignore_case(wc, word_case()),
        eq_ignore_case(we, word_end()),
    ensures
        next_begin(ids, 0, next_begin(ids, 0, b, wb), we) == b,
        b >= 1 ==> next_begin(ids, 0, next_begin(ids, 0, b, wc), we) == b,
        paren > 0 ==> next_begin(ids, paren, b, w) == b,
{
    assert(!eq_ignore_case(we, word_begin()));
    assert(!eq_ignore_case(we, word_case()));
    assert(!eq_ignore_case(wc, word_begin()));
}

/// Inside an open routine body, outside parentheses, a `;` does not end
/// the statement: scanning goes on past it.
pub proof fn lemma_semicolon_in_body(s: Seq<u8>, i: int, begin: nat, ids: Seq<u8>, cnt: nat)
    requires
        0 <= i < s.len(),
        s[i] == 0x3b,
        begin > 0,
    ensures
        stmt_end(s, i, 0, begin, ids, cnt) == stmt_end(s, i + 1, 0, begin, ids, cnt),
{
    assert(line_comment_end(s, i) == i);
    assert(block_comment_end(s, i) == i);
    assert(double_quoted_end(s, i) == i);
    assert(single_quoted_end(s, i) == i);
    assert(dollar_quoted_end(s, i) == i);
}

} // verus!
