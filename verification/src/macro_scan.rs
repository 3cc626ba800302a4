//! Finding call-like identifiers in Rust macro token trees, which the syntax
//! tree does not expose as calls.
//!
//! Before scanning, every comment (line and nested block), string literal
//! (plain, byte, C, and raw with any number of `#`) and character literal is
//! blanked out byte for byte, keeping line breaks, so that nothing inside
//! them can look like a call. Lifetimes such as `'static` are left alone.

use vstd::prelude::*;
use vstd::utf8::encode_utf8;

verus! {

// ---------------------------------------------------------------- byte classes

/// `_`, an ASCII letter or an ASCII digit.
pub open spec fn is_ident_byte(x: u8) -> bool {
    x == 0x5f || (0x61 <= x <= 0x7a) || (0x41 <= x <= 0x5a) || (0x30 <= x <= 0x39)
}

/// Decides [`is_ident_byte`].
pub fn ident_byte(x: u8) -> (r: bool)
    ensures
        r == is_ident_byte(x),
{
    x == 0x5f || (0x61 <= x && x <= 0x7a) || (0x41 <= x && x <= 0x5a) || (0x30 <= x && x <= 0x39)
}

/// No identifier byte precedes position `s`.
pub open spec fn token_boundary(b: Seq<u8>, s: int) -> bool {
    s == 0 || !is_ident_byte(b[s - 1])
}

/// The byte length of the UTF-8 character whose leading byte is `x`.
pub open spec fn utf8_width(x: u8) -> int {
    if x < 0x80 {
        1
    } else if x < 0xe0 {
        2
    } else if x < 0xf0 {
        3
    } else {
        4
    }
}

/// First position at or after `c` holding `x`.
pub open spec fn find_byte(b: Seq<u8>, c: int, x: u8) -> Option<int>
    decreases b.len() - c,
{
    if c < 0 || c >= b.len() {
        None
    } else if b[c] == x {
        Some(c)
    } else {
        find_byte(b, c + 1, x)
    }
}

// ---------------------------------------------------------------- literal and comment ends

/// The position just after a run of `#` starting at `c`.
pub open spec fn hash_run(b: Seq<u8>, c: int) -> int
    decreases b.len() - c,
{
    if 0 <= c < b.len() && b[c] == 0x23 {
        hash_run(b, c + 1)
    } else {
        c
    }
}

/// A `"` at `c` followed by `h` hashes closes a raw string.
pub open spec fn closes_raw(b: Seq<u8>, c: int, h: int) -> bool {
    b[c] == 0x22 && c + 1 + h <= b.len() && forall|k: int| c + 1 <= k < c + 1 + h ==> #[trigger] b[k] == 0x23
}

/// The end of a raw string body scanned from `c`: just after the first
/// closing `"` with `h` hashes, or the end of the text.
pub open spec fn raw_close(b: Seq<u8>, c: int, h: int) -> int
    decreases b.len() - c,
{
    if c < 0 || c >= b.len() {
        b.len() as int
    } else if closes_raw(b, c, h) {
        c + 1 + h
    } else {
        raw_close(b, c + 1, h)
    }
}

/// Where a raw string (`r"…"`, `br"…"`, `cr"…"`, with hashes) starting at
/// `s` ends, if one starts there.
pub open spec fn raw_string_end(b: Seq<u8>, s: int) -> Option<int> {
    if !token_boundary(b, s) {
        None
    } else {
        let p = if s + 2 <= b.len() && (b[s] == 0x62 || b[s] == 0x63) && b[s + 1] == 0x72 {
            s + 2
        } else if s < b.len() && b[s] == 0x72 {
            s + 1
        } else {
            -1
        };
        if p < 0 {
            None
        } else {
            let q = hash_run(b, p);
            if q < b.len() && b[q] == 0x22 {
                Some(raw_close(b, q + 1, q - p))
            } else {
                None
            }
        }
    }
}

/// The end of a quoted string body scanned from `c`: just after the first
/// unescaped `"`, or the end of the text.
pub open spec fn quoted_close(b: Seq<u8>, c: int) -> int
    decreases b.len() - c,
{
    if c < 0 || c >= b.len() {
        b.len() as int
    } else if b[c] == 0x5c {
        quoted_close(b, if c + 2 < b.len() { c + 2 } else { b.len() as int })
    } else if b[c] == 0x22 {
        c + 1
    } else {
        quoted_close(b, c + 1)
    }
}

/// Where a character literal opened by the `'` at `s` ends, if it is one
/// (and not a lifetime): one character or one escape, then `'`.
pub open spec fn char_literal_end(b: Seq<u8>, s: int) -> Option<int> {
    let f = s + 1;
    if f >= b.len() {
        None
    } else if b[f] == 0x0a || b[f] == 0x0d || b[f] == 0x27 {
        None
    } else if b[f] != 0x5c {
        let closing = f + utf8_width(b[f]);
        if closing < b.len() && b[closing] == 0x27 {
            Some(closing + 1)
        } else {
            None
        }
    } else {
        let e = s + 2;
        if e >= b.len() || b[e] == 0x0a || b[e] == 0x0d {
            None
        } else {
            let c0 = e + utf8_width(b[e]);
            let closing = if b[e] == 0x78 {
                Some(c0 + 2)
            } else if b[e] == 0x75 && c0 < b.len() && b[c0] == 0x7b {
                match find_byte(b, c0 + 1, 0x7d) {
                    Some(k) => Some(k + 1),
                    None => None,
                }
            } else {
                Some(c0)
            };
            match closing {
                Some(c) => if c < b.len() && b[c] == 0x27 {
                    Some(c + 1)
                } else {
                    None
                },
                None => None,
            }
        }
    }
}

/// The end of a line comment whose text starts at `c`: the next line feed
/// or the end of the text.
pub open spec fn line_end(b: Seq<u8>, c: int) -> int {
    match find_byte(b, c, 0x0a) {
        Some(k) => k,
        None => b.len() as int,
    }
}

/// The end of a block comment scanned from `e` at nesting `depth`.
pub open spec fn block_end(b: Seq<u8>, e: int, depth: nat) -> int
    decreases b.len() - e,
{
    if 0 <= e < b.len() && depth > 0 {
        if e + 2 <= b.len() && b[e] == 0x2f && b[e + 1] == 0x2a {
            block_end(b, e + 2, depth + 1)
        } else if e + 2 <= b.len() && b[e] == 0x2a && b[e + 1] == 0x2f {
            block_end(b, e + 2, (depth - 1) as nat)
        } else {
            block_end(b, e + 1, depth)
        }
    } else {
        e
    }
}

/// Where the comment or literal starting at `c` ends, if one starts there.
pub open spec fn region_end(b: Seq<u8>, c: int) -> Option<int> {
    if c + 2 <= b.len() && b[c] == 0x2f && b[c + 1] == 0x2f {
        Some(line_end(b, c + 2))
    } else if c + 2 <= b.len() && b[c] == 0x2f && b[c + 1] == 0x2a {
        Some(block_end(b, c + 2, 1))
    } else {
        match raw_string_end(b, c) {
            Some(e) => Some(e),
            None => if b[c] == 0x22 {
                Some(quoted_close(b, c + 1))
            } else if b[c] == 0x27 {
                char_literal_end(b, c)
            } else {
                None
            },
        }
    }
}

/// A byte inside a blanked region: line breaks stay, all else is a space.
pub open spec fn blank(x: u8) -> u8 {
    if x == 0x0a || x == 0x0d {
        x
    } else {
        0x20
    }
}

/// The masked text from position `c` on. (Region ends always lie past `c`
/// and within the text, see [`lemma_region_end_bounds`]; the guard only
/// makes the recursion evidently finite.)
pub open spec fn mask_from(b: Seq<u8>, c: int) -> Seq<u8>
    decreases b.len() - c,
{
    if c < 0 || c >= b.len() {
        seq![]
    } else {
        match region_end(b, c) {
            Some(e) => if c < e <= b.len() {
                b.subrange(c, e).map_values(|x: u8| blank(x)) + mask_from(b, e)
            } else {
                seq![]
            },
            None => seq![b[c]] + mask_from(b, c + 1),
        }
    }
}

/// The text with every comment and literal blanked.
pub open spec fn masked(b: Seq<u8>) -> Seq<u8> {
    mask_from(b, 0)
}

proof fn lemma_find_byte(b: Seq<u8>, c: int, x: u8)
    requires
        0 <= c,
    ensures
        find_byte(b, c, x) matches Some(k) ==> c <= k < b.len() && b[k] == x,
    decreases b.len() - c,
{
    if c < b.len() && b[c] != x {
        lemma_find_byte(b, c + 1, x);
    }
}

proof fn lemma_raw_close(b: Seq<u8>, c: int, h: int)
    requires
        0 <= c,
        0 <= h,
    ensures
        c <= raw_close(b, c, h) <= b.len() || (c > b.len() && raw_close(b, c, h) == b.len()),
    decreases b.len() - c,
{
    if c < b.len() && !closes_raw(b, c, h) {
        lemma_raw_close(b, c + 1, h);
    }
}

proof fn lemma_hash_run(b: Seq<u8>, c: int)
    requires
        0 <= c,
    ensures
        c <= hash_run(b, c),
        hash_run(b, c) <= b.len() || hash_run(b, c) == c,
    decreases b.len() - c,
{
    if 0 <= c < b.len() && b[c] == 0x23 {
        lemma_hash_run(b, c + 1);
    }
}

proof fn lemma_quoted_close(b: Seq<u8>, c: int)
    requires
        0 <= c <= b.len(),
    ensures
        c <= quoted_close(b, c) <= b.len(),
    decreases b.len() - c,
{
    if c < b.len() {
        if b[c] == 0x5c {
            lemma_quoted_close(b, if c + 2 < b.len() { c + 2 } else { b.len() as int });
        } else if b[c] != 0x22 {
            lemma_quoted_close(b, c + 1);
        }
    }
}

proof fn lemma_block_end(b: Seq<u8>, e: int, depth: nat)
    requires
        0 <= e <= b.len(),
    ensures
        e <= block_end(b, e, depth) <= b.len(),
    decreases b.len() - e,
{
    if e < b.len() && depth > 0 {
        if e + 2 <= b.len() && b[e] == 0x2f && b[e + 1] == 0x2a {
            lemma_block_end(b, e + 2, depth + 1);
        } else if e + 2 <= b.len() && b[e] == 0x2a && b[e + 1] == 0x2f {
            lemma_block_end(b, e + 2, (depth - 1) as nat);
        } else {
            lemma_block_end(b, e + 1, depth);
        }
    }
}

/// Every region starting inside the text ends past its start and within
/// the text.
pub proof fn lemma_region_end_bounds(b: Seq<u8>, c: int)
    requires
        0 <= c < b.len(),
    ensures
        region_end(b, c) matches Some(e) ==> c < e <= b.len(),
{
    if c + 2 <= b.len() && b[c] == 0x2f && b[c + 1] == 0x2f {
        lemma_find_byte(b, c + 2, 0x0a);
    } else if c + 2 <= b.len() && b[c] == 0x2f && b[c + 1] == 0x2a {
        lemma_block_end(b, c + 2, 1);
    } else if raw_string_end(b, c) is Some {
        let p = if c + 2 <= b.len() && (b[c] == 0x62 || b[c] == 0x63) && b[c + 1] == 0x72 {
            c + 2
        } else {
            c + 1
        };
        lemma_hash_run(b, p);
        let q = hash_run(b, p);
        lemma_raw_close(b, q + 1, q - p);
    } else if b[c] == 0x22 {
        lemma_quoted_close(b, c + 1);
    } else if b[c] == 0x27 && char_literal_end(b, c) is Some {
        let e = c + 2;
        if b[c + 1] == 0x5c && e < b.len() {
            let c0 = e + utf8_width(b[e]);
            if b[e] != 0x78 && b[e] == 0x75 && c0 < b.len() && b[c0] == 0x7b {
                lemma_find_byte(b, c0 + 1, 0x7d);
            }
        }
    }
}

// ---------------------------------------------------------------- executable scanners

/// First position at or after `c` holding `x`.
fn find_from(b: &[u8], c: usize, x: u8) -> (r: Option<usize>)
    ensures
        match r {
            Some(k) => find_byte(b@, c as int, x) == Some(k as int),
            None => find_byte(b@, c as int, x) is None,
        },
{
    let mut i = c;
    while i < b.len()
        invariant
            c <= i,
            find_byte(b@, c as int, x) == find_byte(b@, i as int, x),
        decreases b@.len() - i,
    {
        if b[i] == x {
            return Some(i);
        }
        i = i + 1;
    }
    None
}

/// The position just after a run of `#` starting at `c`.
fn hash_run_at(b: &[u8], c: usize) -> (r: usize)
    requires
        c <= b@.len(),
    ensures
        r == hash_run(b@, c as int),
        c <= r <= b@.len(),
{
    let mut i = c;
    while i < b.len() && b[i] == 0x23
        invariant
            c <= i <= b@.len(),
            hash_run(b@, c as int) == hash_run(b@, i as int),
        decreases b@.len() - i,
    {
        i = i + 1;
    }
    i
}

/// The end of a raw string body scanned from `c` (see [`raw_close`]).
fn raw_close_at(b: &[u8], c: usize, h: usize) -> (r: usize)
    requires
        c <= b@.len(),
        h <= b@.len(),
    ensures
        r == raw_close(b@, c as int, h as int),
{
    let n = b.len();
    let mut i = c;
    while i < n
        invariant
            n == b@.len(),
            h <= n,
            c <= i <= n,
            raw_close(b@, c as int, h as int) == raw_close(b@, i as int, h as int),
        decreases n - i,
    {
        if b[i] == 0x22 && h < n - i {
            let mut k: usize = 0;
            while k < h && b[i + 1 + k] == 0x23
                invariant
                    n == b@.len(),
                    i < n,
                    h < n - i,
                    k <= h,
                    forall|q: int| i + 1 <= q < i + 1 + k ==> #[trigger] b@[q] == 0x23,
                decreases h - k,
            {
                k = k + 1;
            }
            if k == h {
                assert(closes_raw(b@, i as int, h as int));
                return i + 1 + h;
            }
            assert(!closes_raw(b@, i as int, h as int)) by {
                assert(b@[i + 1 + k] != 0x23);
            }
        }
        i = i + 1;
    }
    n
}

/// Where a raw string starting at `s` ends, if one starts there.
fn raw_string_end_at(b: &[u8], s: usize) -> (r: Option<usize>)
    requires
        s < b@.len(),
    ensures
        match r {
            Some(e) => raw_string_end(b@, s as int) == Some(e as int),
            None => raw_string_end(b@, s as int) is None,
        },
{
    if s > 0 && ident_byte(b[s - 1]) {
        return None;
    }
    let n = b.len();
    let p = if n - s >= 2 && (b[s] == 0x62 || b[s] == 0x63) && b[s + 1] == 0x72 {
        s + 2
    } else if b[s] == 0x72 {
        s + 1
    } else {
        return None;
    };
    let q = hash_run_at(b, p);
    if q < n && b[q] == 0x22 {
        Some(raw_close_at(b, q + 1, q - p))
    } else {
        None
    }
}

/// The end of a quoted string body scanned from `c` (see [`quoted_close`]).
fn quoted_close_at(b: &[u8], c: usize) -> (r: usize)
    requires
        c <= b@.len(),
    ensures
        r == quoted_close(b@, c as int),
{
    let n = b.len();
    let mut i = c;
    while i < n
        invariant
            n == b@.len(),
            c <= i <= n,
            quoted_close(b@, c as int) == quoted_close(b@, i as int),
        decreases n - i,
    {
        if b[i] == 0x5c {
            i = if n - i > 2 {
                i + 2
            } else {
                n
            };
        } else if b[i] == 0x22 {
            return i + 1;
        } else {
            i = i + 1;
        }
    }
    n
}

/// The byte length of the character led by `x`.
fn width_of(x: u8) -> (r: usize)
    ensures
        r == utf8_width(x),
{
    if x < 0x80 {
        1
    } else if x < 0xe0 {
        2
    } else if x < 0xf0 {
        3
    } else {
        4
    }
}

/// Where a character literal opened at `s` ends, if it is one.
fn char_literal_end_at(b: &[u8], s: usize) -> (r: Option<usize>)
    requires
        s < b@.len(),
    ensures
        match r {
            Some(e) => char_literal_end(b@, s as int) == Some(e as int),
            None => char_literal_end(b@, s as int) is None,
        },
{
    let n = b.len();
    let f = s + 1;
    if f >= n {
        return None;
    }
    if b[f] == 0x0a || b[f] == 0x0d || b[f] == 0x27 {
        return None;
    }
    if b[f] != 0x5c {
        let w = width_of(b[f]);
        if w < n - f && b[f + w] == 0x27 {
            return Some(f + w + 1);
        }
        return None;
    }
    let e = s + 2;
    if e >= n || b[e] == 0x0a || b[e] == 0x0d {
        return None;
    }
    let w = width_of(b[e]);
    if w >= n - e {
        return None;
    }
    let c0 = e + w;
    let closing = if b[e] == 0x78 {
        if n - c0 <= 2 {
            return None;
        }
        c0 + 2
    } else if b[e] == 0x75 && c0 < n && b[c0] == 0x7b {
        match find_from(b, c0 + 1, 0x7d) {
            Some(k) => {
                proof {
                    lemma_find_byte(b@, c0 + 1, 0x7d);
                }
                k + 1
            },
            None => return None,
        }
    } else {
        c0
    };
    if closing < n && b[closing] == 0x27 {
        Some(closing + 1)
    } else {
        None
    }
}

/// The end of a block comment scanned from `e` at nesting `depth`.
fn block_end_at(b: &[u8], e: usize, depth: usize) -> (r: usize)
    requires
        e <= b@.len(),
        depth <= e,
    ensures
        r == block_end(b@, e as int, depth as nat),
{
    let n = b.len();
    let mut i = e;
    let mut d = depth;
    while i < n && d > 0
        invariant
            n == b@.len(),
            e <= i <= n,
            d <= i,
            block_end(b@, e as int, depth as nat) == block_end(b@, i as int, d as nat),
        decreases n - i,
    {
        if n - i >= 2 && b[i] == 0x2f && b[i + 1] == 0x2a {
            d = d + 1;
            i = i + 2;
        } else if n - i >= 2 && b[i] == 0x2a && b[i + 1] == 0x2f {
            d = d - 1;
            i = i + 2;
        } else {
            i = i + 1;
        }
    }
    i
}

/// Where the comment or literal starting at `c` ends, if one starts there.
fn region_end_at(b: &[u8], c: usize) -> (r: Option<usize>)
    requires
        c < b@.len(),
    ensures
        match r {
            Some(e) => region_end(b@, c as int) == Some(e as int),
            None => region_end(b@, c as int) is None,
        },
{
    let n = b.len();
    if n - c >= 2 && b[c] == 0x2f && b[c + 1] == 0x2f {
        return match find_from(b, c + 2, 0x0a) {
            Some(k) => Some(k),
            None => Some(n),
        };
    }
    if n - c >= 2 && b[c] == 0x2f && b[c + 1] == 0x2a {
        return Some(block_end_at(b, c + 2, 1));
    }
    match raw_string_end_at(b, c) {
        Some(e) => Some(e),
        None => if b[c] == 0x22 {
            Some(quoted_close_at(b, c + 1))
        } else if b[c] == 0x27 {
            char_literal_end_at(b, c)
        } else {
            None
        },
    }
}

/// The bytes of `text` with every comment, string literal and character
/// literal blanked to spaces (line breaks kept), as [`masked`] gives them.
pub fn mask_rust_macro_non_code(text: &str) -> (r: Vec<u8>)
    ensures
        r@ == masked(encode_utf8(text@)),
{
    let b = text.as_bytes();
    let n = b.len();
    let mut out: Vec<u8> = Vec::new();
    let mut c: usize = 0;
    while c < n
        invariant
            n == b@.len(),
            c <= n,
            out@ + mask_from(b@, c as int) == masked(b@),
        decreases n - c,
    {
        proof {
            lemma_region_end_bounds(b@, c as int);
        }
        match region_end_at(b, c) {
            Some(e) => {
                let ghost before = out@;
                let mut k = c;
                while k < e
                    invariant
                        c <= k <= e,
                        e <= n,
                        n == b@.len(),
                        out@ == before + b@.subrange(c as int, k as int).map_values(|x: u8| blank(x)),
                    decreases e - k,
                {
                    let x = b[k];
                    out.push(if x == 0x0a || x == 0x0d { x } else { 0x20 });
                    k = k + 1;
                    assert(out@ =~= before + b@.subrange(c as int, k as int).map_values(|x: u8| blank(x)));
                }
                assert(mask_from(b@, c as int) == b@.subrange(c as int, e as int).map_values(|x: u8| blank(x))
                    + mask_from(b@, e as int));
                assert(out@ + mask_from(b@, e as int) =~= before + mask_from(b@, c as int));
                c = e;
            },
            None => {
                let ghost before = out@;
                out.push(b[c]);
                assert(out@ + mask_from(b@, c + 1) =~= before + mask_from(b@, c as int));
                c = c + 1;
            },
        }
    }
    assert(mask_from(b@, c as int) =~= Seq::<u8>::empty());
    assert(out@ =~= masked(b@));
    out
}

// ---------------------------------------------------------------- call scan

/// `_` or an ASCII letter: a byte that can start an identifier.
pub open spec fn is_start_byte(x: u8) -> bool {
    x == 0x5f || (0x61 <= x <= 0x7a) || (0x41 <= x <= 0x5a)
}

/// The end of the identifier run continuing at `i`.
pub open spec fn ident_end(m: Seq<u8>, i: int) -> int
    decreases m.len() - i,
{
    if 0 <= i < m.len() && is_ident_byte(m[i]) {
        ident_end(m, i + 1)
    } else {
        i
    }
}

/// The start of the identifier run ending at `t`.
pub open spec fn ident_start_before(m: Seq<u8>, t: int) -> int
    decreases t,
{
    if 0 < t <= m.len() && is_ident_byte(m[t - 1]) {
        ident_start_before(m, t - 1)
    } else {
        t
    }
}

/// The byte length of the Unicode whitespace character starting at `i`,
/// or 0 when none starts there.
pub open spec fn ws_width(m: Seq<u8>, i: int) -> int {
    if i < 0 || i >= m.len() {
        0
    } else if (0x09 <= m[i] <= 0x0d) || m[i] == 0x20 {
        1
    } else if m[i] == 0xc2 && i + 1 < m.len() && (m[i + 1] == 0x85 || m[i + 1] == 0xa0) {
        2
    } else if i + 2 < m.len() && ((m[i] == 0xe1 && m[i + 1] == 0x9a && m[i + 2] == 0x80) || (m[i] == 0xe2
        && m[i + 1] == 0x80 && ((0x80 <= m[i + 2] <= 0x8a) || m[i + 2] == 0xa8 || m[i + 2] == 0xa9 || m[i
        + 2] == 0xaf)) || (m[i] == 0xe2 && m[i + 1] == 0x81 && m[i + 2] == 0x9f) || (m[i] == 0xe3 && m[i
        + 1] == 0x80 && m[i + 2] == 0x80)) {
        3
    } else {
        0
    }
}

/// The byte length of the Unicode whitespace character ending just before
/// `t`, or 0 when none ends there.
pub open spec fn ws_width_before(m: Seq<u8>, t: int) -> int {
    if t <= 0 || t > m.len() {
        0
    } else if (0x09 <= m[t - 1] <= 0x0d) || m[t - 1] == 0x20 {
        1
    } else if t >= 2 && ws_width(m, t - 2) == 2 {
        2
    } else if t >= 3 && ws_width(m, t - 3) == 3 {
        3
    } else {
        0
    }
}

/// The position after the whitespace starting at `i`.
pub open spec fn skip_ws(m: Seq<u8>, i: int) -> int
    decreases m.len() - i,
{
    if ws_width(m, i) > 0 {
        skip_ws(m, i + ws_width(m, i))
    } else {
        i
    }
}

/// The position before the whitespace ending at `t`.
pub open spec fn trim_back(m: Seq<u8>, t: int) -> int
    decreases t,
{
    if ws_width_before(m, t) > 0 {
        trim_back(m, t - ws_width_before(m, t))
    } else {
        t
    }
}

/// ASCII bytes read as characters.
pub open spec fn ascii_text(bytes: Seq<u8>) -> Seq<char> {
    bytes.map_values(|x: u8| x as char)
}

/// Words that look like calls but are keywords or constructors.
pub open spec fn is_call_noise_text(name: Seq<char>) -> bool {
    ||| name == "fn"@
    ||| name == "if"@
    ||| name == "for"@
    ||| name == "while"@
    ||| name == "loop"@
    ||| name == "match"@
    ||| name == "return"@
    ||| name == "Some"@
    ||| name == "Ok"@
    ||| name == "Err"@
}

/// The receiver or path written before the callee starting at `start`:
/// the identifier before a `.` or `::` (whitespace allowed around them),
/// `<expression>` when something else stands there, and `None` when the
/// callee is not qualified.
pub open spec fn qualifier_of(m: Seq<u8>, start: int) -> Option<Seq<char>> {
    let t = trim_back(m, start);
    let stem_end = if t >= 1 && m[t - 1] == 0x2e {
        Some(trim_back(m, t - 1))
    } else if t >= 2 && m[t - 2] == 0x3a && m[t - 1] == 0x3a {
        Some(trim_back(m, t - 2))
    } else {
        None
    };
    match stem_end {
        None => None,
        Some(se) => {
            let st = ident_start_before(m, se);
            if st == se {
                Some("<expression>"@)
            } else {
                Some(ascii_text(m.subrange(st, se)))
            }
        },
    }
}

/// The call-like identifiers of masked text from position `i` on: each
/// identifier followed (after whitespace) by `(`, unless it is call noise,
/// with its qualifier.
pub open spec fn calls_from(m: Seq<u8>, i: int) -> Seq<(Seq<char>, Option<Seq<char>>)>
    decreases m.len() - i,
{
    if i < 0 || i >= m.len() {
        seq![]
    } else if is_start_byte(m[i]) {
        proof {
            lemma_ident_end(m, i + 1);
        }
        let e = ident_end(m, i + 1);
        let name = ascii_text(m.subrange(i, e));
        let r = skip_ws(m, e);
        let here: Seq<(Seq<char>, Option<Seq<char>>)> = if r < m.len() && m[r] == 0x28 && !is_call_noise_text(name) {
            seq![(name, qualifier_of(m, i))]
        } else {
            seq![]
        };
        here + calls_from(m, e)
    } else {
        calls_from(m, i + 1)
    }
}

/// A call reference as text.
pub open spec fn call_ref_view(c: (String, Option<String>)) -> (Seq<char>, Option<Seq<char>>) {
    (
        c.0@,
        match c.1 {
            Some(q) => Some(q@),
            None => None,
        },
    )
}

/// The identifier run continuing at `i` lies within the text and is made of
/// identifier bytes.
pub proof fn lemma_ident_end(m: Seq<u8>, i: int)
    requires
        0 <= i <= m.len(),
    ensures
        i <= ident_end(m, i) <= m.len(),
        forall|k: int| i <= k < ident_end(m, i) ==> is_ident_byte(#[trigger] m[k]),
    decreases m.len() - i,
{
    if i < m.len() && is_ident_byte(m[i]) {
        lemma_ident_end(m, i + 1);
    }
}

proof fn lemma_ident_start_before(m: Seq<u8>, t: int)
    requires
        0 <= t <= m.len(),
    ensures
        0 <= ident_start_before(m, t) <= t,
        forall|k: int| ident_start_before(m, t) <= k < t ==> is_ident_byte(#[trigger] m[k]),
    decreases t,
{
    if 0 < t && is_ident_byte(m[t - 1]) {
        lemma_ident_start_before(m, t - 1);
    }
}

/// True for call noise.
pub fn is_call_noise(name: &str) -> (r: bool)
    ensures
        r == is_call_noise_text(name@),
{
    crate::strmap::str_eq(name, "fn") || crate::strmap::str_eq(name, "if") || crate::strmap::str_eq(name, "for")
        || crate::strmap::str_eq(name, "while") || crate::strmap::str_eq(name, "loop")
        || crate::strmap::str_eq(name, "match") || crate::strmap::str_eq(name, "return")
        || crate::strmap::str_eq(name, "Some") || crate::strmap::str_eq(name, "Ok")
        || crate::strmap::str_eq(name, "Err")
}

/// The byte length of the whitespace character starting at `i`.
fn ws_width_at(m: &Vec<u8>, i: usize) -> (r: usize)
    ensures
        r == ws_width(m@, i as int),
        r <= 3,
{
    let n = m.len();
    if i >= n {
        return 0;
    }
    let x = m[i];
    if (0x09 <= x && x <= 0x0d) || x == 0x20 {
        return 1;
    }
    if x == 0xc2 && n - i > 1 && (m[i + 1] == 0x85 || m[i + 1] == 0xa0) {
        return 2;
    }
    if n - i > 2 {
        let y = m[i + 1];
        let z = m[i + 2];
        if (x == 0xe1 && y == 0x9a && z == 0x80) || (x == 0xe2 && y == 0x80 && ((0x80 <= z && z <= 0x8a) || z
            == 0xa8 || z == 0xa9 || z == 0xaf)) || (x == 0xe2 && y == 0x81 && z == 0x9f) || (x == 0xe3 && y
            == 0x80 && z == 0x80) {
            return 3;
        }
    }
    0
}

/// The position after the whitespace starting at `i`.
fn skip_ws_at(m: &Vec<u8>, i: usize) -> (r: usize)
    requires
        i <= m@.len(),
    ensures
        r == skip_ws(m@, i as int),
        i <= r <= m@.len(),
{
    let n = m.len();
    let mut k = i;
    loop
        invariant
            n == m@.len(),
            i <= k <= m@.len(),
            skip_ws(m@, i as int) == skip_ws(m@, k as int),
        decreases m@.len() - k,
    {
        let w = ws_width_at(m, k);
        if w == 0 {
            return k;
        }
        assert(k + w <= m@.len());
        k = k + w;
    }
}

/// The byte length of the whitespace character ending before `t`.
fn ws_width_before_at(m: &Vec<u8>, t: usize) -> (r: usize)
    requires
        t <= m@.len(),
    ensures
        r == ws_width_before(m@, t as int),
        r <= t,
{
    if t == 0 {
        return 0;
    }
    let x = m[t - 1];
    if (0x09 <= x && x <= 0x0d) || x == 0x20 {
        return 1;
    }
    if t >= 2 && ws_width_at(m, t - 2) == 2 {
        return 2;
    }
    if t >= 3 && ws_width_at(m, t - 3) == 3 {
        return 3;
    }
    0
}

/// The position before the whitespace ending at `t`.
fn trim_back_at(m: &Vec<u8>, t: usize) -> (r: usize)
    requires
        t <= m@.len(),
    ensures
        r == trim_back(m@, t as int),
        r <= t,
{
    let mut k = t;
    loop
        invariant
            k <= t,
            t <= m@.len(),
            trim_back(m@, t as int) == trim_back(m@, k as int),
        decreases k,
    {
        let w = ws_width_before_at(m, k);
        if w == 0 {
            return k;
        }
        k = k - w;
    }
}

/// The text of ASCII bytes `m[a..b]`.
fn ascii_string(m: &Vec<u8>, a: usize, b: usize) -> (r: String)
    requires
        a <= b <= m@.len(),
    ensures
        r@ == ascii_text(m@.subrange(a as int, b as int)),
{
    let mut s = String::new();
    let mut k = a;
    while k < b
        invariant
            a <= k <= b,
            b <= m@.len(),
            s@ == ascii_text(m@.subrange(a as int, k as int)),
        decreases b - k,
    {
        crate::text::push_char(&mut s, m[k] as char);
        k = k + 1;
        assert(s@ =~= ascii_text(m@.subrange(a as int, k as int)));
    }
    s
}

/// The qualifier of the callee starting at `start` (see [`qualifier_of`]).
fn textual_qualifier(m: &Vec<u8>, start: usize) -> (r: Option<String>)
    requires
        start <= m@.len(),
    ensures
        match r {
            Some(q) => qualifier_of(m@, start as int) == Some(q@),
            None => qualifier_of(m@, start as int) is None,
        },
{
    let t = trim_back_at(m, start);
    let se = if t >= 1 && m[t - 1] == 0x2e {
        trim_back_at(m, t - 1)
    } else if t >= 2 && m[t - 2] == 0x3a && m[t - 1] == 0x3a {
        trim_back_at(m, t - 2)
    } else {
        return None;
    };
    let mut st = se;
    while st > 0 && ident_byte(m[st - 1])
        invariant
            st <= se,
            se <= m@.len(),
            ident_start_before(m@, se as int) == ident_start_before(m@, st as int),
        decreases st,
    {
        st = st - 1;
    }
    if st == se {
        Some("<expression>".to_string())
    } else {
        Some(ascii_string(m, st, se))
    }
}

/// Call-like identifiers in a macro token tree, in order, each with the
/// receiver or path written before it; comments and literals are ignored.
pub fn textual_call_refs(text: &str) -> (r: Vec<(String, Option<String>)>)
    ensures
        r@.map_values(|c: (String, Option<String>)| call_ref_view(c)) == calls_from(
            masked(encode_utf8(text@)),
            0,
        ),
{
    let m = mask_rust_macro_non_code(text);
    let ghost mv = m@;
    let n = m.len();
    let mut calls: Vec<(String, Option<String>)> = Vec::new();
    let mut i: usize = 0;
    while i < n
        invariant
            n == m@.len(),
            mv == m@,
            i <= n,
            calls@.map_values(|c: (String, Option<String>)| call_ref_view(c)) + calls_from(mv, i as int)
                == calls_from(mv, 0),
        decreases n - i,
    {
        let x = m[i];
        if x == 0x5f || (0x61 <= x && x <= 0x7a) || (0x41 <= x && x <= 0x5a) {
            let mut e = i + 1;
            while e < n && ident_byte(m[e])
                invariant
                    i < e <= n,
                    n == m@.len(),
                    mv == m@,
                    ident_end(mv, i + 1) == ident_end(mv, e as int),
                decreases n - e,
            {
                e = e + 1;
            }
            let ghost before = calls@.map_values(|c: (String, Option<String>)| call_ref_view(c));
            let name = ascii_string(&m, i, e);
            let r = skip_ws_at(&m, e);
            if r < n && m[r] == 0x28 && !is_call_noise(name.as_str()) {
                let q = textual_qualifier(&m, i);
                calls.push((name, q));
                assert(calls@.map_values(|c: (String, Option<String>)| call_ref_view(c)) =~= before.push(
                    call_ref_view(calls@[calls@.len() - 1]),
                ));
            }
            assert(calls@.map_values(|c: (String, Option<String>)| call_ref_view(c)) + calls_from(mv, e as int)
                =~= before + calls_from(mv, i as int));
            i = e;
        } else {
            i = i + 1;
        }
    }
    assert(calls@.map_values(|c: (String, Option<String>)| call_ref_view(c)) =~= calls_from(mv, 0));
    calls
}

} // verus!
