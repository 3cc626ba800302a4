//! Module paths of source files and Rust import targets.
//!
//! A file's module path is directory-aware (`src/net/client.rs` is
//! `crate::net::client`); Rust imports are resolved against the crate root
//! of the file they occur in, so that `crate::` in a workspace member means
//! that member's `src`.

use vstd::prelude::*;
use crate::fields::{last_dot, texts};
use crate::strmap::str_eq;
use crate::text::{chars_of, push_char, push_str, string_of};

verus! {

// ---------------------------------------------------------------- splitting and joining

/// `/` or `\`.
pub open spec fn is_path_sep(c: char) -> bool {
    c == '/' || c == '\\'
}

/// The pieces of `s` between path separators (either `/` or `\`).
pub open spec fn split_path(s: Seq<char>) -> Seq<Seq<char>>
    decreases s.len(),
{
    if s.len() == 0 {
        seq![seq![]]
    } else {
        let prev = split_path(s.drop_last());
        if is_path_sep(s.last()) {
            prev.push(seq![])
        } else {
            prev.update(prev.len() - 1, prev.last().push(s.last()))
        }
    }
}

proof fn lemma_split_path_nonempty(s: Seq<char>)
    ensures
        split_path(s).len() >= 1,
    decreases s.len(),
{
    if s.len() > 0 {
        lemma_split_path_nonempty(s.drop_last());
    }
}

/// A path piece that names a directory or file: not empty and not `.`.
pub open spec fn named_piece(p: Seq<char>) -> bool {
    p.len() > 0 && p != "."@
}

/// The pieces of a path that name something.
pub open spec fn named_pieces(s: Seq<char>) -> Seq<Seq<char>> {
    split_path(s).filter(|p: Seq<char>| named_piece(p))
}

/// The parts joined with `::`.
pub open spec fn join_colons(parts: Seq<Seq<char>>) -> Seq<char>
    decreases parts.len(),
{
    if parts.len() == 0 {
        seq![]
    } else if parts.len() == 1 {
        parts[0]
    } else {
        join_colons(parts.drop_last()) + "::"@ + parts.last()
    }
}

/// The pieces of `s` between occurrences of `::`, as `str::split("::")`
/// yields them (leftmost, non-overlapping matches).
pub open spec fn split_colons(s: Seq<char>) -> Seq<Seq<char>>
    decreases s.len(),
{
    if s.len() < 2 {
        seq![s]
    } else if s[0] == ':' && s[1] == ':' {
        seq![seq![]] + split_colons(s.subrange(2, s.len() as int))
    } else {
        let rest = split_colons(s.drop_first());
        rest.update(0, seq![s[0]] + rest[0])
    }
}

pub(crate) proof fn lemma_split_colons_nonempty(s: Seq<char>)
    ensures
        split_colons(s).len() >= 1,
    decreases s.len(),
{
    if s.len() >= 2 {
        if s[0] == ':' && s[1] == ':' {
            lemma_split_colons_nonempty(s.subrange(2, s.len() as int));
        } else {
            lemma_split_colons_nonempty(s.drop_first());
        }
    }
}

/// Splits at every `/` and `\`, keeping only the pieces that name something.
fn named_path_pieces(s: &str) -> (r: Vec<String>)
    ensures
        texts(r@) == named_pieces(s@),
{
    let cs = chars_of(s);
    let mut pieces: Vec<String> = Vec::new();
    let mut cur: Vec<char> = Vec::new();
    let mut i: usize = 0;
    while i < cs.len()
        invariant
            cs@ == s@,
            i <= cs@.len(),
            texts(pieces@).push(cur@) == split_path(cs@.take(i as int)),
        decreases cs@.len() - i,
    {
        proof {
            lemma_split_path_nonempty(cs@.take(i as int));
        }
        assert(cs@.take(i + 1).drop_last() =~= cs@.take(i as int));
        let c = cs[i];
        if c == '/' || c == '\\' {
            pieces.push(string_of(cur.as_slice()));
            cur = Vec::new();
            assert(texts(pieces@).push(cur@) =~= split_path(cs@.take(i + 1)));
        } else {
            cur.push(c);
            assert(texts(pieces@).push(cur@) =~= split_path(cs@.take(i + 1)));
        }
        i = i + 1;
    }
    assert(cs@.take(cs@.len() as int) =~= cs@);
    pieces.push(string_of(cur.as_slice()));
    let ghost all = texts(pieces@);
    assert(all == split_path(s@));
    let mut out: Vec<String> = Vec::new();
    let mut k: usize = 0;
    proof {
        reveal(Seq::filter);
    }
    assert(all.take(0).filter(|p: Seq<char>| named_piece(p)) =~= Seq::<Seq<char>>::empty());
    while k < pieces.len()
        invariant
            k <= pieces@.len(),
            all == texts(pieces@),
            texts(out@) == all.take(k as int).filter(|p: Seq<char>| named_piece(p)),
        decreases pieces@.len() - k,
    {
        proof {
            reveal(Seq::filter);
        }
        assert(all.take(k + 1).drop_last() =~= all.take(k as int));
        assert(all[k as int] == pieces@[k as int]@);
        let keep = pieces[k].as_str().as_bytes().len() > 0 && !str_eq(pieces[k].as_str(), ".");
        proof {
            vstd::utf8::encode_utf8_decode_utf8(all[k as int]);
            if all[k as int].len() == 0 {
                assert(vstd::utf8::encode_utf8(all[k as int]) =~= Seq::<u8>::empty());
            }
        }
        if keep {
            out.push(pieces[k].clone());
        }
        k = k + 1;
        assert(texts(out@) =~= all.take(k as int).filter(|p: Seq<char>| named_piece(p)));
    }
    assert(all.take(pieces@.len() as int) =~= all);
    out
}

/// The parts joined with `::`.
fn join_with_colons(parts: &Vec<String>, from: usize) -> (r: String)
    requires
        from <= parts@.len(),
    ensures
        r@ == join_colons(texts(parts@).subrange(from as int, parts@.len() as int)),
{
    let ghost all = texts(parts@);
    let mut out = String::new();
    let mut i = from;
    assert(all.subrange(from as int, from as int) =~= Seq::<Seq<char>>::empty());
    while i < parts.len()
        invariant
            from <= i <= parts@.len(),
            all == texts(parts@),
            out@ == join_colons(all.subrange(from as int, i as int)),
        decreases parts@.len() - i,
    {
        assert(all.subrange(from as int, i + 1).drop_last() =~= all.subrange(from as int, i as int));
        assert(all[i as int] == parts@[i as int]@);
        if i > from {
            push_str(&mut out, "::");
        }
        push_str(&mut out, parts[i].as_str());
        i = i + 1;
        assert(out@ =~= join_colons(all.subrange(from as int, i as int)));
    }
    out
}

// ---------------------------------------------------------------- module paths

/// The file path without its extension: everything before the last `.`.
pub open spec fn without_extension(f: Seq<char>) -> Seq<char> {
    match last_dot(f) {
        Some(k) => f.subrange(0, k),
        None => f,
    }
}

/// The named pieces of a module's file path, a leading `src` dropped.
pub open spec fn module_pieces(file: Seq<char>) -> Seq<Seq<char>> {
    let parts = named_pieces(without_extension(file));
    if parts.len() > 0 && parts[0] == "src"@ {
        parts.drop_first()
    } else {
        parts
    }
}

/// The directory-aware module path of a source file: `crate` followed by
/// the file's named path pieces (without a leading `src` and without the
/// extension), joined by `::`.
pub open spec fn module_path_of(file: Seq<char>) -> Seq<char> {
    let parts = module_pieces(file);
    if parts.len() == 0 {
        "crate"@
    } else {
        "crate::"@ + join_colons(parts)
    }
}

/// The text before the last `.`, or all of it.
fn strip_extension(file: &str) -> (r: String)
    ensures
        r@ == without_extension(file@),
{
    let cs = chars_of(file);
    let mut k = cs.len();
    assert(cs@.take(k as int) =~= cs@);
    while k > 0 && cs[k - 1] != '.'
        invariant
            cs@ == file@,
            k <= cs@.len(),
            last_dot(file@) == last_dot(cs@.take(k as int)),
        decreases k,
    {
        assert(cs@.take(k as int).drop_last() =~= cs@.take(k - 1));
        k = k - 1;
    }
    if k == 0 {
        assert(cs@.take(0) =~= Seq::<char>::empty());
        return string_of(cs.as_slice());
    }
    assert(last_dot(cs@.take(k as int)) == Some(k - 1));
    let mut out = String::new();
    let mut j: usize = 0;
    while j < k - 1
        invariant
            j <= k - 1,
            k <= cs@.len(),
            out@ == cs@.subrange(0, j as int),
        decreases k - 1 - j,
    {
        push_char(&mut out, cs[j]);
        j = j + 1;
        assert(out@ =~= cs@.subrange(0, j as int));
    }
    out
}

/// Derives a module path from a relative file path, directory-aware so
/// files in different folders do not collide: `src/math.rs` is
/// `crate::math`, `src/net/client.rs` is `crate::net::client`, and
/// `app/main.py` is `crate::app::main`.
pub fn module_path_for(file: &str) -> (r: String)
    ensures
        r@ == module_path_of(file@),
{
    let stem = strip_extension(file);
    let parts = named_path_pieces(stem.as_str());
    let from: usize = if parts.len() > 0 && str_eq(parts[0].as_str(), "src") {
        1
    } else {
        0
    };
    proof {
        if parts@.len() > 0 {
            assert(texts(parts@)[0] == parts@[0]@);
        }
    }
    if from >= parts.len() {
        return "crate".to_string();
    }
    let joined = join_with_colons(&parts, from);
    let mut out = String::new();
    push_str(&mut out, "crate::");
    push_str(&mut out, joined.as_str());
    proof {
        if from == 1 {
            assert(texts(parts@).subrange(1, parts@.len() as int) =~= texts(parts@).drop_first());
        } else {
            assert(texts(parts@).subrange(0, parts@.len() as int) =~= texts(parts@));
        }
    }
    assert(out@ =~= module_path_of(file@));
    out
}

// ---------------------------------------------------------------- path segments

/// The position of the last `::` in `s`.
pub open spec fn last_colons(s: Seq<char>) -> Option<int>
    decreases s.len(),
{
    if s.len() < 2 {
        None
    } else if s[s.len() - 2] == ':' && s[s.len() - 1] == ':' {
        Some(s.len() - 2)
    } else {
        last_colons(s.drop_last())
    }
}

proof fn lemma_last_colons(s: Seq<char>)
    ensures
        last_colons(s) matches Some(i) ==> 0 <= i && i + 2 <= s.len() && s[i] == ':' && s[i + 1] == ':',
    decreases s.len(),
{
    if s.len() >= 2 && !(s[s.len() - 2] == ':' && s[s.len() - 1] == ':') {
        lemma_last_colons(s.drop_last());
    }
}

/// The owning module of a path: everything before its last `::`.
pub open spec fn module_of_path(path: Seq<char>) -> Seq<char> {
    match last_colons(path) {
        Some(i) => path.subrange(0, i),
        None => path,
    }
}

/// The last `::` segment of a path.
pub open spec fn last_segment_of(path: Seq<char>) -> Seq<char> {
    match last_colons(path) {
        Some(i) => path.subrange(i + 2, path.len() as int),
        None => path,
    }
}

/// Position of the last `::` in a character vector's first `k` characters.
fn find_last_colons(cs: &Vec<char>, k: usize) -> (r: Option<usize>)
    requires
        k <= cs@.len(),
    ensures
        match r {
            Some(i) => last_colons(cs@.take(k as int)) == Some(i as int),
            None => last_colons(cs@.take(k as int)) is None,
        },
{
    let mut j = k;
    while j >= 2 && !(cs[j - 2] == ':' && cs[j - 1] == ':')
        invariant
            j <= k <= cs@.len(),
            last_colons(cs@.take(k as int)) == last_colons(cs@.take(j as int)),
        decreases j,
    {
        assert(cs@.take(j as int).drop_last() =~= cs@.take(j - 1));
        j = j - 1;
    }
    if j >= 2 {
        Some(j - 2)
    } else {
        None
    }
}

/// The characters `cs[a..b]` as a string.
fn slice_string(cs: &Vec<char>, a: usize, b: usize) -> (r: String)
    requires
        a <= b <= cs@.len(),
    ensures
        r@ == cs@.subrange(a as int, b as int),
{
    let mut out = String::new();
    let mut k = a;
    while k < b
        invariant
            a <= k <= b,
            b <= cs@.len(),
            out@ == cs@.subrange(a as int, k as int),
        decreases b - k,
    {
        push_char(&mut out, cs[k]);
        k = k + 1;
        assert(out@ =~= cs@.subrange(a as int, k as int));
    }
    out
}

/// The module that owns a node, from its full path: `crate::math::add`
/// belongs to `crate::math`.
pub fn module_of(path: &str) -> (r: String)
    ensures
        r@ == module_of_path(path@),
{
    let cs = chars_of(path);
    assert(cs@.take(cs@.len() as int) =~= cs@);
    match find_last_colons(&cs, cs.len()) {
        Some(i) => {
            proof {
                lemma_last_colons(path@);
            }
            slice_string(&cs, 0, i)
        },
        None => {
            assert(cs@.subrange(0, cs@.len() as int) =~= cs@);
            slice_string(&cs, 0, cs.len())
        },
    }
}

/// The last `::` segment of a path.
pub fn last_segment(path: &str) -> (r: String)
    ensures
        r@ == last_segment_of(path@),
{
    let cs = chars_of(path);
    assert(cs@.take(cs@.len() as int) =~= cs@);
    match find_last_colons(&cs, cs.len()) {
        Some(i) => {
            proof {
                lemma_last_colons(path@);
            }
            slice_string(&cs, i + 2, cs.len())
        },
        None => {
            assert(cs@.subrange(0, cs@.len() as int) =~= cs@);
            slice_string(&cs, 0, cs.len())
        },
    }
}

/// The module a node comes from: its file's module when the file is
/// known, else the module that owns its path.
pub fn source_module(file: Option<&str>, path: &str) -> (r: String)
    ensures
        r@ == match file {
            Some(f) => module_path_of(f@),
            None => module_of_path(path@),
        },
{
    match file {
        Some(f) => module_path_for(f),
        None => module_of(path),
    }
}

/// The last non-empty `::` segment, scanning from the right.
pub open spec fn last_named_segment(p: Seq<char>) -> Option<Seq<char>>
    decreases p.len(),
{
    match last_colons(p) {
        Some(i) => if 0 <= i && i + 2 < p.len() {
            Some(p.subrange(i + 2, p.len() as int))
        } else if 0 <= i && i < p.len() {
            last_named_segment(p.subrange(0, i))
        } else {
            None
        },
        None => if p.len() > 0 {
            Some(p)
        } else {
            None
        },
    }
}

/// The last non-empty `::` segment of a path (the whole path when there is
/// none), trimmed.
pub open spec fn last_path_segment_of(path: Seq<char>) -> Seq<char> {
    crate::fields::trim(
        match last_named_segment(path) {
            Some(s) => s,
            None => path,
        },
    )
}

/// The last non-empty `::` segment of a path, trimmed.
#[verifier::loop_isolation(false)]
pub fn last_path_segment(path: &str) -> (r: String)
    ensures
        r@ == last_path_segment_of(path@),
{
    let cs = chars_of(path);
    let mut k = cs.len();
    assert(cs@.take(k as int) =~= cs@);
    let mut lo: usize = 0;
    let mut hi: usize = 0;
    let mut found = false;
    loop
        invariant
            k <= cs@.len(),
            cs@ == path@,
            !found,
            last_named_segment(path@) == last_named_segment(cs@.take(k as int)),
        decreases k,
    {
        match find_last_colons(&cs, k) {
            Some(i) => {
                proof {
                    lemma_last_colons(cs@.take(k as int));
                }
                if i + 2 < k {
                    assert(cs@.take(k as int).subrange(i + 2, k as int) =~= cs@.subrange(i + 2, k as int));
                    lo = i + 2;
                    hi = k;
                    found = true;
                    break;
                }
                assert(cs@.take(k as int).subrange(0, i as int) =~= cs@.take(i as int));
                k = i;
            },
            None => {
                if k > 0 {
                    assert(cs@.take(k as int) =~= cs@.subrange(0, k as int));
                    lo = 0;
                    hi = k;
                    found = true;
                }
                break;
            },
        }
    }
    let piece: Vec<char> = if found {
        let mut v: Vec<char> = Vec::new();
        let mut q = lo;
        while q < hi
            invariant
                lo <= q <= hi,
                hi <= cs@.len(),
                v@ == cs@.subrange(lo as int, q as int),
            decreases hi - q,
        {
            v.push(cs[q]);
            q = q + 1;
            assert(v@ =~= cs@.subrange(lo as int, q as int));
        }
        v
    } else {
        cs.clone()
    };
    crate::fields::trim_chars(&piece)
}

// ---------------------------------------------------------------- qualifiers and owners

/// `.` or `:`.
pub open spec fn is_qualifier_sep(c: char) -> bool {
    c == '.' || c == ':'
}

/// The end of `q` once trailing separators are dropped.
pub open spec fn tail_end(q: Seq<char>, e: int) -> int
    decreases e,
{
    if 0 < e <= q.len() && is_qualifier_sep(q[e - 1]) {
        tail_end(q, e - 1)
    } else {
        e
    }
}

/// The start of the separator-free run ending at `e`.
pub open spec fn tail_start(q: Seq<char>, e: int) -> int
    decreases e,
{
    if 0 < e <= q.len() && !is_qualifier_sep(q[e - 1]) {
        tail_start(q, e - 1)
    } else {
        e
    }
}

/// The last `.`/`:`-separated part of a qualifier that is not empty (the
/// whole qualifier when there is none), trimmed: the binding or type name
/// it ends with.
pub open spec fn qualifier_tail_of(q: Seq<char>) -> Seq<char> {
    let e = tail_end(q, q.len() as int);
    crate::fields::trim(
        if e == 0 {
            q
        } else {
            q.subrange(tail_start(q, e), e)
        },
    )
}

proof fn lemma_tail_bounds(q: Seq<char>, e: int)
    requires
        0 <= e <= q.len(),
    ensures
        0 <= tail_end(q, e) <= e,
        0 <= tail_start(q, e) <= e,
    decreases e,
{
    if 0 < e {
        lemma_tail_bounds(q, e - 1);
    }
}

/// The last non-empty `.`/`:`-separated part of a qualifier, trimmed.
pub fn qualifier_tail(qualifier: &str) -> (r: String)
    ensures
        r@ == qualifier_tail_of(qualifier@),
{
    let cs = chars_of(qualifier);
    let mut e = cs.len();
    while e > 0 && (cs[e - 1] == '.' || cs[e - 1] == ':')
        invariant
            e <= cs@.len(),
            cs@ == qualifier@,
            tail_end(qualifier@, qualifier@.len() as int) == tail_end(qualifier@, e as int),
        decreases e,
    {
        e = e - 1;
    }
    if e == 0 {
        return crate::fields::trim_chars(&cs);
    }
    let mut st = e;
    while st > 0 && !(cs[st - 1] == '.' || cs[st - 1] == ':')
        invariant
            st <= e,
            e <= cs@.len(),
            cs@ == qualifier@,
            tail_start(qualifier@, e as int) == tail_start(qualifier@, st as int),
        decreases st,
    {
        st = st - 1;
    }
    let mut v: Vec<char> = Vec::new();
    let mut k = st;
    while k < e
        invariant
            st <= k <= e,
            e <= cs@.len(),
            v@ == cs@.subrange(st as int, k as int),
        decreases e - k,
    {
        v.push(cs[k]);
        k = k + 1;
        assert(v@ =~= cs@.subrange(st as int, k as int));
    }
    crate::fields::trim_chars(&v)
}

/// An ASCII letter or digit.
pub open spec fn is_ascii_alnum(c: char) -> bool {
    ('a' <= c && c <= 'z') || ('A' <= c && c <= 'Z') || ('0' <= c && c <= '9')
}

/// The ASCII letters and digits of a text, lowercased.
pub open spec fn normalized_symbol_of(v: Seq<char>) -> Seq<char> {
    crate::search::lower(v.filter(|c: char| is_ascii_alnum(c)))
}

/// The ASCII letters and digits of a text, lowercased.
pub fn normalized_symbol(value: &str) -> (r: String)
    ensures
        r@ == normalized_symbol_of(value@),
{
    let cs = chars_of(value);
    let mut out = String::new();
    let mut i: usize = 0;
    proof {
        reveal(Seq::filter);
    }
    assert(cs@.take(0).filter(|c: char| is_ascii_alnum(c)) =~= Seq::<char>::empty());
    while i < cs.len()
        invariant
            i <= cs@.len(),
            cs@ == value@,
            out@ == crate::search::lower(cs@.take(i as int).filter(|c: char| is_ascii_alnum(c))),
        decreases cs@.len() - i,
    {
        proof {
            reveal(Seq::filter);
        }
        assert(cs@.take(i + 1).drop_last() =~= cs@.take(i as int));
        let c = cs[i];
        if ('a' <= c && c <= 'z') || ('A' <= c && c <= 'Z') || ('0' <= c && c <= '9') {
            let d = if 'A' <= c && c <= 'Z' {
                ((c as u8) + 32) as char
            } else {
                c
            };
            assert(d == crate::search::ascii_lower(c));
            push_char(&mut out, d);
        }
        i = i + 1;
        assert(out@ =~= crate::search::lower(cs@.take(i as int).filter(|c: char| is_ascii_alnum(c))));
    }
    assert(cs@.take(cs@.len() as int) =~= cs@);
    out
}

/// The text before the first `<`.
pub open spec fn before_generics(v: Seq<char>) -> Seq<char> {
    match crate::fields::first_index_of(v, '<') {
        Some(k) => v.subrange(0, k),
        None => v,
    }
}

/// An owner's bare type name for name-based matching: its last `::`
/// segment, generic parameters dropped, normalized.
pub open spec fn owner_tail_of(owner: Seq<char>) -> Seq<char> {
    normalized_symbol_of(before_generics(last_segment_of(owner)))
}

/// An owner's bare type name for name-based matching.
pub fn owner_tail(owner: &str) -> (r: String)
    ensures
        r@ == owner_tail_of(owner@),
{
    let name = last_segment(owner);
    let cs = chars_of(name.as_str());
    let mut k: usize = 0;
    while k < cs.len() && cs[k] != '<'
        invariant
            k <= cs@.len(),
            cs@ == name@,
            forall|j: int| 0 <= j < k ==> name@[j] != '<',
        decreases cs@.len() - k,
    {
        k = k + 1;
    }
    let mut v = String::new();
    let mut q: usize = 0;
    while q < k
        invariant
            q <= k,
            k <= cs@.len(),
            v@ == cs@.subrange(0, q as int),
        decreases k - q,
    {
        push_char(&mut v, cs[q]);
        q = q + 1;
        assert(v@ =~= cs@.subrange(0, q as int));
    }
    proof {
        crate::fields::lemma_first_index(name@, '<', k as int);
        if k == cs@.len() {
            assert(cs@.subrange(0, k as int) =~= cs@);
        }
    }
    normalized_symbol(v.as_str())
}

/// The normalized name a qualifier carries, when it is at least three
/// characters long and not `self` or `cls`.
pub open spec fn qualifier_hint_of(q: Seq<char>) -> Option<Seq<char>> {
    let hint = normalized_symbol_of(qualifier_tail_of(q));
    if hint.len() >= 3 && hint != "self"@ && hint != "cls"@ {
        Some(hint)
    } else {
        None
    }
}

/// The normalized name a qualifier carries, if it is useful evidence.
pub fn qualifier_hint(qualifier: &str) -> (r: Option<String>)
    ensures
        match r {
            Some(h) => qualifier_hint_of(qualifier@) == Some(h@),
            None => qualifier_hint_of(qualifier@) is None,
        },
{
    let tail = qualifier_tail(qualifier);
    let hint = normalized_symbol(tail.as_str());
    let n = chars_of(hint.as_str()).len();
    if n >= 3 && !str_eq(hint.as_str(), "self") && !str_eq(hint.as_str(), "cls") {
        Some(hint)
    } else {
        None
    }
}

/// The qualifier's hint is exactly the owner's bare type name.
pub fn qualifier_matches_owner_exactly(qualifier: &str, owner: &str) -> (r: bool)
    ensures
        r == (qualifier_hint_of(qualifier@) matches Some(h) && owner_tail_of(owner@) == h),
{
    match qualifier_hint(qualifier) {
        Some(h) => {
            let o = owner_tail(owner);
            str_eq(o.as_str(), h.as_str())
        },
        None => false,
    }
}

/// The owner's bare type name ends with the qualifier's hint.
pub fn qualifier_matches_owner(qualifier: &str, owner: &str) -> (r: bool)
    ensures
        r == (qualifier_hint_of(qualifier@) matches Some(h) && h.is_suffix_of(owner_tail_of(owner@))),
{
    match qualifier_hint(qualifier) {
        Some(h) => {
            let o = owner_tail(owner);
            crate::text::ends_with(o.as_str(), h.as_str())
        },
        None => false,
    }
}

// ---------------------------------------------------------------- crate roots and import targets

/// Position of the last piece equal to `t`.
pub open spec fn last_piece_index(ps: Seq<Seq<char>>, t: Seq<char>) -> Option<int>
    decreases ps.len(),
{
    if ps.len() == 0 {
        None
    } else if ps.last() == t {
        Some(ps.len() - 1)
    } else {
        last_piece_index(ps.drop_last(), t)
    }
}

/// The module path of the crate a file belongs to: `crate` followed by
/// the file's path pieces up to and including its last `src` directory,
/// or plain `crate` when that `src` is the first piece or absent.
pub open spec fn crate_root_of(file: Seq<char>) -> Seq<char> {
    let segs = named_pieces(file);
    match last_piece_index(segs, "src"@) {
        Some(k) => if k == 0 {
            "crate"@
        } else {
            "crate::"@ + join_colons(segs.take(k + 1))
        },
        None => "crate"@,
    }
}

/// The module path of the crate a file belongs to.
pub fn source_crate_root(file: &str) -> (r: String)
    ensures
        r@ == crate_root_of(file@),
{
    let segs = named_path_pieces(file);
    let ghost sv = texts(segs@);
    let mut k = segs.len();
    assert(sv.take(k as int) =~= sv);
    while k > 0 && !str_eq(segs[k - 1].as_str(), "src")
        invariant
            k <= segs@.len(),
            sv == texts(segs@),
            last_piece_index(sv, "src"@) == last_piece_index(sv.take(k as int), "src"@),
        decreases k,
    {
        assert(sv.take(k as int).drop_last() =~= sv.take(k - 1));
        assert(sv[k - 1] == segs@[k - 1]@);
        k = k - 1;
    }
    if k == 0 {
        assert(sv.take(0) =~= Seq::<Seq<char>>::empty());
        return "crate".to_string();
    }
    assert(sv[k - 1] == segs@[k - 1]@);
    assert(last_piece_index(sv.take(k as int), "src"@) == Some(k - 1));
    if k == 1 {
        return "crate".to_string();
    }
    let mut prefix: Vec<String> = Vec::new();
    let mut j: usize = 0;
    while j < k
        invariant
            j <= k,
            k <= segs@.len(),
            sv == texts(segs@),
            prefix@.len() == j,
            forall|q: int| 0 <= q < j ==> (#[trigger] prefix@[q])@ == sv[q],
        decreases k - j,
    {
        assert(sv[j as int] == segs@[j as int]@);
        prefix.push(segs[j].clone());
        j = j + 1;
    }
    assert(texts(prefix@) =~= sv.take(k as int));
    let joined = join_with_colons(&prefix, 0);
    assert(texts(prefix@).subrange(0, prefix@.len() as int) =~= texts(prefix@));
    let mut out = String::new();
    push_str(&mut out, "crate::");
    push_str(&mut out, joined.as_str());
    out
}

/// The module path of a Rust source file: like [`module_path_of`], except
/// that `mod.rs`, and a `lib.rs` or `main.rs` directly in a `src`
/// directory, stand for the enclosing module.
pub open spec fn rust_module_path_of(file: Seq<char>) -> Seq<char> {
    let module = module_path_of(file);
    let segs = named_pieces(file);
    let file_name = if segs.len() > 0 {
        segs.last()
    } else {
        seq![]
    };
    let dirs = if segs.len() > 0 {
        segs.drop_last()
    } else {
        segs
    };
    let stem = without_extension(file_name);
    let crate_root_file = (stem == "lib"@ || stem == "main"@) && dirs.len() > 0 && dirs.last() == "src"@;
    if stem == "mod"@ || crate_root_file {
        module_of_path(module)
    } else {
        module
    }
}

/// The module path of a Rust source file.
pub fn rust_module_path_for(file: &str) -> (r: String)
    ensures
        r@ == rust_module_path_of(file@),
{
    let module = module_path_for(file);
    let segs = named_path_pieces(file);
    let ghost sv = texts(segs@);
    let n = segs.len();
    let file_name: &str = if n > 0 {
        segs[n - 1].as_str()
    } else {
        proof {
            reveal_strlit("");
        }
        ""
    };
    assert(n > 0 ==> sv.last() == segs@[n - 1]@);
    let stem = strip_extension(file_name);
    let in_src = n > 1 && str_eq(segs[n - 2].as_str(), "src");
    proof {
        if n > 1 {
            assert(sv.drop_last().last() == segs@[n - 2]@);
        }
    }
    let crate_root_file = (str_eq(stem.as_str(), "lib") || str_eq(stem.as_str(), "main")) && in_src;
    assert(stem@ == without_extension(if sv.len() > 0 { sv.last() } else { seq![] }));
    proof {
        let dirs = if sv.len() > 0 { sv.drop_last() } else { sv };
        if n > 1 {
            assert(sv[n - 2] == segs@[n - 2]@);
            assert(dirs.last() == sv[n - 2]);
        }
        assert(in_src == (dirs.len() > 0 && dirs.last() == "src"@));
    }
    if str_eq(stem.as_str(), "mod") || crate_root_file {
        module_of(module.as_str())
    } else {
        module
    }
}

/// The parts of an import path: its `::` pieces, trimmed, empty ones
/// dropped.
pub open spec fn import_parts(target: Seq<char>) -> Seq<Seq<char>> {
    split_colons(target).map_values(|p: Seq<char>| crate::fields::trim(p)).filter(|p: Seq<char>| p.len() > 0)
}

/// How many parts at the front are `super`.
pub open spec fn leading_supers(ps: Seq<Seq<char>>) -> nat
    decreases ps.len(),
{
    if ps.len() > 0 && ps[0] == "super"@ {
        1 + leading_supers(ps.drop_first())
    } else {
        0
    }
}

/// The absolute module path an import of `target` in `file` (whose module
/// is `module`) refers to: `crate::` resolves against the file's crate
/// root, `self::` against its module, each leading `super::` climbs one
/// module (never above the crate root), and any other path is relative to
/// the module.
pub open spec fn normalized_import(file: Seq<char>, module: Seq<char>, target: Seq<char>) -> Option<Seq<char>> {
    let ps = import_parts(target);
    if ps.len() == 0 {
        None
    } else {
        let root = split_colons(crate_root_of(file));
        let m = split_colons(module);
        if ps[0] == "crate"@ {
            Some(join_colons(root + ps.drop_first()))
        } else if ps[0] == "self"@ {
            Some(join_colons(m + ps.drop_first()))
        } else if ps[0] == "super"@ {
            let k = leading_supers(ps);
            if m.len() < root.len() + k {
                None
            } else {
                Some(join_colons(m.take(m.len() - k) + ps.skip(k as int)))
            }
        } else {
            Some(join_colons(m + ps))
        }
    }
}

/// Splits at every `::`.
pub(crate) fn split_on_colons(s: &str) -> (r: Vec<String>)
    ensures
        texts(r@) == split_colons(s@),
{
    let cs = chars_of(s);
    let n = cs.len();
    let mut done: Vec<String> = Vec::new();
    let mut cur: Vec<char> = Vec::new();
    let mut i: usize = 0;
    proof {
        assert(cs@.subrange(0, n as int) =~= cs@);
        lemma_split_colons_nonempty(cs@);
        assert(split_colons(cs@).update(0, seq![] + split_colons(cs@)[0]) =~= split_colons(cs@));
        assert(texts(done@) =~= Seq::<Seq<char>>::empty());
    }
    while i < n
        invariant
            n == cs@.len(),
            cs@ == s@,
            i <= n,
            split_colons(s@) == texts(done@) + split_colons(cs@.subrange(i as int, n as int)).update(
                0,
                cur@ + split_colons(cs@.subrange(i as int, n as int))[0],
            ),
        decreases n - i,
    {
        let ghost rest = cs@.subrange(i as int, n as int);
        proof {
            lemma_split_colons_nonempty(rest);
        }
        if n - i >= 2 && cs[i] == ':' && cs[i + 1] == ':' {
            let ghost after = cs@.subrange(i + 2, n as int);
            assert(rest.subrange(2, rest.len() as int) =~= after);
            proof {
                lemma_split_colons_nonempty(after);
            }
            done.push(string_of(cur.as_slice()));
            cur = Vec::new();
            i = i + 2;
            assert(split_colons(after).update(0, cur@ + split_colons(after)[0]) =~= split_colons(after));
            assert(texts(done@) + split_colons(after) =~= texts(done@).drop_last() + split_colons(rest).update(
                0,
                texts(done@).last() + split_colons(rest)[0],
            ));
        } else {
            let ghost after = cs@.subrange(i + 1, n as int);
            assert(rest.drop_first() =~= after);
            proof {
                lemma_split_colons_nonempty(after);
                if rest.len() < 2 {
                    assert(after =~= Seq::<char>::empty());
                    assert(rest =~= seq![cs@[i as int]]);
                    assert(split_colons(rest) =~= seq![seq![cs@[i as int]]]);
                }
            }
            let ghost old_cur = cur@;
            cur.push(cs[i]);
            i = i + 1;
            assert(old_cur + (seq![cs@[i - 1]] + split_colons(after)[0]) =~= cur@ + split_colons(after)[0]);
            assert(split_colons(after).update(0, cur@ + split_colons(after)[0]) =~= split_colons(rest).update(
                0,
                old_cur + split_colons(rest)[0],
            ));
        }
    }
    let ghost last = cs@.subrange(n as int, n as int);
    assert(last =~= Seq::<char>::empty());
    done.push(string_of(cur.as_slice()));
    assert(texts(done@) =~= split_colons(s@));
    done
}

proof fn lemma_leading_supers(ps: Seq<Seq<char>>, j: int)
    requires
        0 <= j <= ps.len(),
        forall|q: int| 0 <= q < j ==> ps[q] == "super"@,
        j < ps.len() ==> ps[j] != "super"@,
    ensures
        leading_supers(ps) == j,
    decreases j,
{
    if j > 0 {
        let t = ps.drop_first();
        assert forall|q: int| 0 <= q < j - 1 implies t[q] == "super"@ by {
            assert(t[q] == ps[q + 1]);
        }
        lemma_leading_supers(t, j - 1);
    }
}

/// Appends `src[from..]` to `dst`.
fn extend_from(dst: &mut Vec<String>, src: &Vec<String>, from: usize)
    requires
        from <= src@.len(),
    ensures
        texts(final(dst)@) == texts(old(dst)@) + texts(src@).skip(from as int),
{
    let ghost start = texts(dst@);
    let mut i = from;
    while i < src.len()
        invariant
            from <= i <= src@.len(),
            dst@.len() == start.len() + (i - from),
            forall|q: int| 0 <= q < start.len() ==> (#[trigger] dst@[q])@ == start[q],
            forall|q: int| start.len() <= q < dst@.len() ==> (#[trigger] dst@[q])@ == src@[q - start.len() + from]@,
        decreases src@.len() - i,
    {
        dst.push(src[i].clone());
        i = i + 1;
    }
    assert(texts(dst@) =~= start + texts(src@).skip(from as int));
}

/// The absolute module path an import refers to (see [`normalized_import`]).
#[verifier::loop_isolation(false)]
pub fn normalize_rust_import_target(file: &str, module: &str, target: &str) -> (r: Option<String>)
    ensures
        match r {
            Some(t) => normalized_import(file@, module@, target@) == Some(t@),
            None => normalized_import(file@, module@, target@) is None,
        },
{
    let raw = split_on_colons(target);
    let ghost tr = split_colons(target@).map_values(|p: Seq<char>| crate::fields::trim(p));
    let mut ps: Vec<String> = Vec::new();
    let mut i: usize = 0;
    proof {
        reveal(Seq::filter);
    }
    assert(tr.take(0).filter(|p: Seq<char>| p.len() > 0) =~= Seq::<Seq<char>>::empty());
    while i < raw.len()
        invariant
            i <= raw@.len(),
            texts(raw@) == split_colons(target@),
            tr == split_colons(target@).map_values(|p: Seq<char>| crate::fields::trim(p)),
            texts(ps@) == tr.take(i as int).filter(|p: Seq<char>| p.len() > 0),
        decreases raw@.len() - i,
    {
        proof {
            reveal(Seq::filter);
        }
        assert(tr.take(i + 1).drop_last() =~= tr.take(i as int));
        assert(texts(raw@)[i as int] == raw@[i as int]@);
        let piece = crate::fields::trim_chars(&chars_of(raw[i].as_str()));
        assert(piece@ == tr[i as int]);
        let ghost before = texts(ps@);
        if chars_of(piece.as_str()).len() > 0 {
            ps.push(piece);
            assert(texts(ps@) =~= before.push(tr[i as int]));
        }
        i = i + 1;
        assert(texts(ps@) =~= tr.take(i as int).filter(|p: Seq<char>| p.len() > 0));
    }
    assert(tr.take(raw@.len() as int) =~= tr);
    let ghost pv = texts(ps@);
    assert(pv == import_parts(target@));
    if ps.len() == 0 {
        return None;
    }
    assert(pv[0] == ps@[0]@);
    let root_text = source_crate_root(file);
    let root = split_on_colons(root_text.as_str());
    let m = split_on_colons(module);
    let mut resolved: Vec<String> = Vec::new();
    let from: usize;
    if str_eq(ps[0].as_str(), "crate") {
        extend_from(&mut resolved, &root, 0);
        from = 1;
    } else if str_eq(ps[0].as_str(), "self") {
        extend_from(&mut resolved, &m, 0);
        from = 1;
    } else if str_eq(ps[0].as_str(), "super") {
        let mut k: usize = 0;
        while k < ps.len() && str_eq(ps[k].as_str(), "super")
            invariant
                k <= ps@.len(),
                pv == texts(ps@),
                forall|q: int| 0 <= q < k ==> pv[q] == "super"@,
            decreases ps@.len() - k,
        {
            assert(pv[k as int] == ps@[k as int]@);
            k = k + 1;
        }
        proof {
            if k < ps@.len() {
                assert(pv[k as int] == ps@[k as int]@);
            }
            lemma_leading_supers(pv, k as int);
        }
        if m.len() < root.len() || m.len() - root.len() < k {
            return None;
        }
        let mut j: usize = 0;
        while j < m.len() - k
            invariant
                j <= m@.len() - k,
                k <= m@.len(),
                resolved@.len() == j,
                forall|q: int| 0 <= q < j ==> (#[trigger] resolved@[q])@ == m@[q]@,
            decreases m@.len() - k - j,
        {
            resolved.push(m[j].clone());
            j = j + 1;
        }
        assert(texts(resolved@) =~= texts(m@).take(m@.len() - k));
        from = k;
    } else {
        extend_from(&mut resolved, &m, 0);
        from = 0;
    }
    extend_from(&mut resolved, &ps, from);
    proof {
        assert(texts(root@).skip(0) =~= texts(root@));
        assert(texts(m@).skip(0) =~= texts(m@));
        assert(pv.skip(1) =~= pv.drop_first());
        assert(pv.skip(0) =~= pv);
    }
    let joined = join_with_colons(&resolved, 0);
    assert(texts(resolved@).subrange(0, resolved@.len() as int) =~= texts(resolved@));
    Some(joined)
}

/// Following re-exports from `cur`: `None` when a path repeats, when a
/// path re-exports more than one target, or after `fuel` steps; else the
/// first path that re-exports nothing.
pub open spec fn follow_from(m: Map<Seq<char>, Vec<String>>, cur: Seq<char>, seen: Seq<Seq<char>>, fuel: nat) -> Option<
    Seq<char>,
>
    decreases fuel,
{
    if fuel == 0 {
        None
    } else if seen.contains(cur) {
        None
    } else if !m.contains_key(cur) {
        Some(cur)
    } else if m[cur]@.len() == 1 {
        follow_from(m, m[cur]@[0]@, seen.push(cur), (fuel - 1) as nat)
    } else {
        None
    }
}

/// The most re-export hops followed.
pub const MAX_REEXPORT_DEPTH: usize = 16;

/// Follows single-target re-exports from `start` to the path they end at;
/// `None` on a cycle, an ambiguous re-export, or more than
/// [`MAX_REEXPORT_DEPTH`] hops.
pub fn follow_reexports(start: String, reexports: &crate::strmap::StrMap<Vec<String>>) -> (r: Option<String>)
    ensures
        match r {
            Some(p) => follow_from(reexports.view(), start@, seq![], 16) == Some(p@),
            None => follow_from(reexports.view(), start@, seq![], 16) is None,
        },
{
    let mut current = start;
    let mut visited: Vec<String> = Vec::new();
    let mut step: usize = 0;
    assert(texts(visited@) =~= Seq::<Seq<char>>::empty());
    while step < 16
        invariant
            step <= 16,
            follow_from(reexports.view(), start@, seq![], 16) == follow_from(
                reexports.view(),
                current@,
                texts(visited@),
                (16 - step) as nat,
            ),
        decreases 16 - step,
    {
        let mut seen = false;
        let mut j: usize = 0;
        while j < visited.len()
            invariant
                j <= visited@.len(),
                seen == (exists|q: int| 0 <= q < j && visited@[q]@ == current@),
            decreases visited@.len() - j,
        {
            if str_eq(visited[j].as_str(), current.as_str()) {
                seen = true;
            }
            j = j + 1;
        }
        proof {
            if seen {
                let q = choose|q: int| 0 <= q < visited@.len() && visited@[q]@ == current@;
                assert(texts(visited@)[q] == current@);
            } else {
                assert forall|q: int| 0 <= q < texts(visited@).len() implies texts(visited@)[q] != current@ by {
                    assert(texts(visited@)[q] == visited@[q]@);
                }
            }
        }
        if seen {
            return None;
        }
        match reexports.get(current.as_str()) {
            None => {
                return Some(current);
            },
            Some(targets) => {
                if targets.len() == 1 {
                    let next = targets[0].clone();
                    let ghost old_visited = texts(visited@);
                    visited.push(current);
                    assert(texts(visited@) =~= old_visited.push(texts(visited@).last()));
                    current = next;
                } else {
                    return None;
                }
            },
        }
        step = step + 1;
    }
    None
}

/// Re-export resolution ends at a path that re-exports nothing.
pub proof fn law_reexports_end_unaliased(
    m: Map<Seq<char>, Vec<String>>,
    cur: Seq<char>,
    seen: Seq<Seq<char>>,
    fuel: nat,
)
    ensures
        follow_from(m, cur, seen, fuel) matches Some(p) ==> !m.contains_key(p),
    decreases fuel,
{
    if fuel > 0 && !seen.contains(cur) && m.contains_key(cur) && m[cur]@.len() == 1 {
        law_reexports_end_unaliased(m, m[cur]@[0]@, seen.push(cur), (fuel - 1) as nat);
    }
}

// ---------------------------------------------------------------- binary targets

/// Backslashes turned into slashes.
pub open spec fn slashed(f: Seq<char>) -> Seq<char> {
    f.map_values(|c: char| if c == '\\' { '/' } else { c })
}

/// The start of the last occurrence of `pat` in `s`.
pub open spec fn last_match(s: Seq<char>, pat: Seq<char>) -> Option<int>
    decreases s.len(),
{
    if s.len() < pat.len() {
        None
    } else if s.subrange(s.len() - pat.len(), s.len() as int) == pat {
        Some(s.len() - pat.len())
    } else if s.len() == 0 {
        None
    } else {
        last_match(s.drop_last(), pat)
    }
}

/// What follows `src/bin/` in a normalized path, if it lies in one.
pub open spec fn bin_path_of(n: Seq<char>) -> Option<Seq<char>> {
    match last_match(n, "/src/bin/"@) {
        Some(i) => Some(n.subrange(i + "/src/bin/"@.len(), n.len() as int)),
        None => if "src/bin/"@.is_prefix_of(n) {
            Some(n.subrange("src/bin/"@.len() as int, n.len() as int))
        } else {
            None
        },
    }
}

/// The Cargo binary target a file conventionally belongs to: the empty
/// name for `src/main.rs` (its real name comes from the manifest),
/// `name` for `src/bin/name.rs` and for `src/bin/name/main.rs`.
pub open spec fn binary_target_of(file: Seq<char>) -> Option<Seq<char>> {
    let n = slashed(file);
    if n == "src/main.rs"@ || "/src/main.rs"@.is_suffix_of(n) {
        Some(seq![])
    } else {
        match bin_path_of(n) {
            None => None,
            Some(b) => match crate::fields::first_index_of(b, '/') {
                None => if ".rs"@.is_suffix_of(b) {
                    Some(b.subrange(0, b.len() - ".rs"@.len()))
                } else {
                    None
                },
                Some(k) => if b.subrange(k + 1, b.len() as int) == "main.rs"@ && k > 0 {
                    Some(b.subrange(0, k))
                } else {
                    None
                },
            },
        }
    }
}

/// True when `pat` occurs in `cs` at `i`.
fn matches_at(cs: &Vec<char>, i: usize, pat: &Vec<char>) -> (r: bool)
    requires
        i <= cs@.len(),
    ensures
        r == (pat@.len() <= cs@.len() - i && cs@.subrange(i as int, i + pat@.len()) == pat@),
{
    let n = cs.len();
    if pat.len() > n - i {
        return false;
    }
    let mut k: usize = 0;
    while k < pat.len()
        invariant
            n == cs@.len(),
            i <= n,
            k <= pat@.len(),
            pat@.len() <= cs@.len() - i,
            forall|q: int| 0 <= q < k ==> cs@[i + q] == pat@[q],
        decreases pat@.len() - k,
    {
        if cs[i + k] != pat[k] {
            assert(cs@.subrange(i as int, i + pat@.len())[k as int] != pat@[k as int]);
            return false;
        }
        k = k + 1;
    }
    assert(cs@.subrange(i as int, i + pat@.len()) =~= pat@);
    true
}

/// Backslashes turned into slashes.
fn slash_normalized(f: &str) -> (r: Vec<char>)
    ensures
        r@ == slashed(f@),
{
    let raw = chars_of(f);
    let mut n: Vec<char> = Vec::new();
    let mut i: usize = 0;
    while i < raw.len()
        invariant
            i <= raw@.len(),
            raw@ == f@,
            n@ == slashed(raw@.take(i as int)),
        decreases raw@.len() - i,
    {
        n.push(if raw[i] == '\\' { '/' } else { raw[i] });
        i = i + 1;
        assert(n@ =~= slashed(raw@.take(i as int)));
    }
    assert(raw@.take(raw@.len() as int) =~= raw@);
    n
}

/// What follows `src/bin/` in a normalized path (see [`bin_path_of`]).
#[verifier::loop_isolation(false)]
fn bin_path(n: &Vec<char>) -> (r: Option<Vec<char>>)
    ensures
        match r {
            Some(b) => bin_path_of(n@) == Some(b@),
            None => bin_path_of(n@) is None,
        },
{
    let ghost nv = n@;
    let len = n.len();
    let bin_dir = chars_of("/src/bin/");
    let bin_root = chars_of("src/bin/");
    let mut end = len;
    let mut found: Option<usize> = None;
    assert(nv.take(len as int) =~= nv);
    while end >= bin_dir.len()
        invariant
            end <= len,
            len == nv.len(),
            found is None,
            last_match(nv, bin_dir@) == last_match(nv.take(end as int), bin_dir@),
        decreases end,
    {
        assert(nv.take(end as int).subrange(end - bin_dir@.len(), end as int) =~= nv.subrange(
            end - bin_dir@.len(),
            end as int,
        ));
        if matches_at(n, end - bin_dir.len(), &bin_dir) {
            found = Some(end - bin_dir.len());
            break;
        }
        if end == 0 {
            break;
        }
        assert(nv.take(end as int).drop_last() =~= nv.take(end - 1));
        end = end - 1;
    }
    let start = match found {
        Some(s) => s + bin_dir.len(),
        None => {
            if matches_at(n, 0, &bin_root) {
                bin_root.len()
            } else {
                return None;
            }
        },
    };
    let mut b: Vec<char> = Vec::new();
    let mut q = start;
    while q < len
        invariant
            start <= q <= len,
            len == nv.len(),
            b@ == nv.subrange(start as int, q as int),
        decreases len - q,
    {
        b.push(n[q]);
        q = q + 1;
        assert(b@ =~= nv.subrange(start as int, q as int));
    }
    Some(b)
}

/// The target named by what follows `src/bin/`.
#[verifier::loop_isolation(false)]
fn target_from_bin_path(b: &Vec<char>) -> (r: Option<String>)
    ensures
        match r {
            Some(t) => (match crate::fields::first_index_of(b@, '/') {
                None => ".rs"@.is_suffix_of(b@) && t@ == b@.subrange(0, b@.len() - ".rs"@.len()),
                Some(k) => b@.subrange(k + 1, b@.len() as int) == "main.rs"@ && k > 0 && t@ == b@.subrange(0, k),
            }),
            None => (match crate::fields::first_index_of(b@, '/') {
                None => !".rs"@.is_suffix_of(b@),
                Some(k) => !(b@.subrange(k + 1, b@.len() as int) == "main.rs"@ && k > 0),
            }),
        },
{
    let ghost bv = b@;
    let mut k: usize = 0;
    while k < b.len() && b[k] != '/'
        invariant
            k <= b@.len(),
            forall|j: int| 0 <= j < k ==> bv[j] != '/',
        decreases b@.len() - k,
    {
        k = k + 1;
    }
    proof {
        crate::fields::lemma_first_index(bv, '/', k as int);
    }
    if k == b.len() {
        let rs = chars_of(".rs");
        if b.len() >= rs.len() && matches_at(b, b.len() - rs.len(), &rs) {
            assert(bv.subrange(bv.len() - rs@.len(), bv.len() - rs@.len() + rs@.len()) =~= bv.subrange(
                bv.len() - rs@.len(),
                bv.len() as int,
            ));
            let mut t = String::new();
            let mut j: usize = 0;
            while j < b.len() - rs.len()
                invariant
                    j <= b@.len() - rs@.len(),
                    rs@.len() <= b@.len(),
                    t@ == bv.subrange(0, j as int),
                decreases b@.len() - rs@.len() - j,
            {
                push_char(&mut t, b[j]);
                j = j + 1;
                assert(t@ =~= bv.subrange(0, j as int));
            }
            return Some(t);
        }
        proof {
            if rs@.len() <= bv.len() {
                assert(bv.subrange(bv.len() - rs@.len(), bv.len() - rs@.len() + rs@.len()) =~= bv.subrange(
                    bv.len() - rs@.len(),
                    bv.len() as int,
                ));
            }
        }
        return None;
    }
    let main = chars_of("main.rs");
    let name_ok = b.len() - (k + 1) == main.len() && matches_at(b, k + 1, &main);
    proof {
        if b@.len() - (k + 1) == main@.len() {
            assert(bv.subrange(k + 1, k + 1 + main@.len()) =~= bv.subrange(k + 1, bv.len() as int));
        }
    }
    if name_ok && k > 0 {
        let mut t = String::new();
        let mut j: usize = 0;
        while j < k
            invariant
                j <= k,
                k <= b@.len(),
                t@ == bv.subrange(0, j as int),
            decreases k - j,
        {
            push_char(&mut t, b[j]);
            j = j + 1;
            assert(t@ =~= bv.subrange(0, j as int));
        }
        return Some(t);
    }
    None
}

/// The Cargo binary target a file conventionally belongs to.
pub fn conventional_rust_binary_target(file: Option<&str>) -> (r: Option<String>)
    ensures
        match file {
            None => r is None,
            Some(f) => match r {
                Some(t) => binary_target_of(f@) == Some(t@),
                None => binary_target_of(f@) is None,
            },
        },
{
    let f = match file {
        Some(f) => f,
        None => return None,
    };
    let n = slash_normalized(f);
    let ghost nv = n@;
    let main_rs = chars_of("src/main.rs");
    let slash_main_rs = chars_of("/src/main.rs");
    let len = n.len();
    let exact = len == main_rs.len() && matches_at(&n, 0, &main_rs);
    let suffix = len >= slash_main_rs.len() && matches_at(&n, len - slash_main_rs.len(), &slash_main_rs);
    proof {
        if len == main_rs@.len() {
            assert(nv.subrange(0, 0int + main_rs@.len()) =~= nv);
        }
        if len >= slash_main_rs@.len() {
            assert(nv.subrange(len - slash_main_rs@.len(), len - slash_main_rs@.len() + slash_main_rs@.len())
                =~= nv.subrange(len - slash_main_rs@.len(), len as int));
        }
    }
    if exact || suffix {
        return Some(String::new());
    }
    match bin_path(&n) {
        None => None,
        Some(b) => target_from_bin_path(&b),
    }
}

} // verus!
