//! Describing a whole-buffer edit to an incremental parser: where the old
//! and new texts first differ, and where each ends, in bytes and in
//! (row, byte column) positions.

use vstd::prelude::*;
use crate::text::chars_of;

verus! {

/// The number of bytes UTF-8 takes for a character.
pub open spec fn utf8_width(c: char) -> nat {
    if (c as u32) < 0x80 {
        1
    } else if (c as u32) < 0x800 {
        2
    } else if (c as u32) < 0x10000 {
        3
    } else {
        4
    }
}

/// The number of bytes UTF-8 takes for a text.
pub open spec fn utf8_len(cs: Seq<char>) -> nat
    decreases cs.len(),
{
    if cs.len() == 0 {
        0
    } else {
        utf8_len(cs.drop_last()) + utf8_width(cs.last())
    }
}

proof fn lemma_utf8_len_bound(cs: Seq<char>)
    ensures
        utf8_len(cs) <= 4 * cs.len(),
    decreases cs.len(),
{
    if cs.len() > 0 {
        lemma_utf8_len_bound(cs.drop_last());
    }
}

/// The row and byte column of byte offset `byte`, reading from character
/// `k` at byte `pos`, row `row` and column `col`: each newline before the
/// offset starts a new row.
pub open spec fn point_scan(cs: Seq<char>, k: int, pos: nat, byte: nat, row: nat, col: nat) -> (nat, nat)
    decreases cs.len() - k,
{
    if k < 0 || k >= cs.len() || pos >= byte {
        (row, col)
    } else if cs[k] == '\n' {
        point_scan(cs, k + 1, pos + utf8_width(cs[k]), byte, row + 1, 0)
    } else {
        point_scan(cs, k + 1, pos + utf8_width(cs[k]), byte, row, col + utf8_width(cs[k]))
    }
}

/// The (row, byte column) position of byte offset `byte` of a text.
pub open spec fn point_of(cs: Seq<char>, byte: nat) -> (nat, nat) {
    point_scan(cs, 0, 0, byte, 0, 0)
}

/// The number of bytes UTF-8 takes for a character.
fn width_of(c: char) -> (r: usize)
    ensures
        r == utf8_width(c),
{
    let v = c as u32;
    if v < 0x80 {
        1
    } else if v < 0x800 {
        2
    } else if v < 0x10000 {
        3
    } else {
        4
    }
}

/// A position in a text: its row and its byte column.
#[derive(Debug, Clone, Copy, PartialEq, Eq)]
pub struct TextPoint {
    pub row: usize,
    pub column: usize,
}

/// Computes [`point_of`].
pub fn byte_to_point(text: &str, byte: usize) -> (r: TextPoint)
    requires
        4 * text@.len() <= usize::MAX,
    ensures
        (r.row as nat, r.column as nat) == point_of(text@, byte as nat),
{
    let cs = chars_of(text);
    let mut row: usize = 0;
    let mut col: usize = 0;
    let mut pos: usize = 0;
    let mut k: usize = 0;
    while k < cs.len() && pos < byte
        invariant
            k <= cs@.len(),
            cs@ == text@,
            4 * cs@.len() <= usize::MAX,
            pos <= 4 * k,
            row <= k,
            col <= 4 * k,
            point_of(text@, byte as nat) == point_scan(cs@, k as int, pos as nat, byte as nat, row as nat, col as nat),
        decreases cs@.len() - k,
    {
        let w = width_of(cs[k]);
        if cs[k] == '\n' {
            row = row + 1;
            col = 0;
        } else {
            col = col + w;
        }
        pos = pos + w;
        k = k + 1;
    }
    TextPoint { row, column: col }
}

/// The length of the longest common prefix of two texts, in characters.
pub open spec fn common_prefix(a: Seq<char>, b: Seq<char>) -> nat
    decreases a.len(),
{
    if a.len() == 0 || b.len() == 0 || a[0] != b[0] {
        0
    } else {
        1 + common_prefix(a.drop_first(), b.drop_first())
    }
}

/// A text edit as plain values: the byte where old and new first differ,
/// where each ends, and those three as (row, byte column) positions.
#[derive(Debug, Clone, Copy, PartialEq, Eq)]
pub struct EditRange {
    pub start_byte: usize,
    pub old_end_byte: usize,
    pub new_end_byte: usize,
    pub start_position: TextPoint,
    pub old_end_position: TextPoint,
    pub new_end_position: TextPoint,
}

/// The edit that turns `old` into `new`, changed from their first
/// differing character to the end.
pub open spec fn whole_edit_of(old: Seq<char>, new: Seq<char>, e: EditRange) -> bool {
    let start = utf8_len(old.take(common_prefix(old, new) as int));
    &&& e.start_byte == start
    &&& e.old_end_byte == utf8_len(old)
    &&& e.new_end_byte == utf8_len(new)
    &&& (e.start_position.row as nat, e.start_position.column as nat) == point_of(old, start)
    &&& (e.old_end_position.row as nat, e.old_end_position.column as nat) == point_of(old, utf8_len(old))
    &&& (e.new_end_position.row as nat, e.new_end_position.column as nat) == point_of(new, utf8_len(new))
}

/// The UTF-8 length of the first `k` characters.
fn utf8_len_of(cs: &Vec<char>, k: usize) -> (r: usize)
    requires
        k <= cs@.len(),
        4 * cs@.len() <= usize::MAX,
    ensures
        r == utf8_len(cs@.take(k as int)),
{
    let mut n: usize = 0;
    let mut i: usize = 0;
    while i < k
        invariant
            i <= k <= cs@.len(),
            4 * cs@.len() <= usize::MAX,
            n == utf8_len(cs@.take(i as int)),
            n <= 4 * i,
        decreases k - i,
    {
        assert(cs@.take(i + 1).drop_last() =~= cs@.take(i as int));
        n = n + width_of(cs[i]);
        i = i + 1;
    }
    n
}

/// Describes the change from `old` to `new` as one edit from their first
/// differing character to the end of each.
pub fn whole_buffer_edit_range(old: &str, new: &str) -> (r: EditRange)
    requires
        4 * old@.len() <= usize::MAX,
        4 * new@.len() <= usize::MAX,
    ensures
        whole_edit_of(old@, new@, r),
{
    let a = chars_of(old);
    let b = chars_of(new);
    let mut k: usize = 0;
    assert(a@.skip(0) =~= a@ && b@.skip(0) =~= b@);
    while k < a.len() && k < b.len() && a[k] == b[k]
        invariant
            k <= a@.len(),
            k <= b@.len(),
            common_prefix(a@, b@) == k + common_prefix(a@.skip(k as int), b@.skip(k as int)),
        decreases a@.len() - k,
    {
        assert(a@.skip(k as int).drop_first() =~= a@.skip(k + 1));
        assert(b@.skip(k as int).drop_first() =~= b@.skip(k + 1));
        k = k + 1;
    }
    proof {
        if k < a@.len() && k < b@.len() {
            assert(a@.skip(k as int)[0] != b@.skip(k as int)[0]);
        }
    }
    assert(a@.take(a@.len() as int) =~= a@);
    assert(b@.take(b@.len() as int) =~= b@);
    let start = utf8_len_of(&a, k);
    let old_end = utf8_len_of(&a, a.len());
    let new_end = utf8_len_of(&b, b.len());
    EditRange {
        start_byte: start,
        old_end_byte: old_end,
        new_end_byte: new_end,
        start_position: byte_to_point(old, start),
        old_end_position: byte_to_point(old, old_end),
        new_end_position: byte_to_point(new, new_end),
    }
}

} // verus!
