//! Rust type text as the call resolver reads it: top-level generic
//! arguments, declared type parameters, and the outer name of a type.

use vstd::prelude::*;
use crate::fields::{split_on, texts, trim, trim_chars};
use crate::text::{chars_of, starts_with, string_of};
use crate::words::{is_ident_char, last_nonempty, split_by, split_text_by, Separator};

verus! {

/// The state of scanning type text for top-level commas: bracket depth
/// over `<>`, `()`, `[]` and `{}`, where the current piece started, and
/// the trimmed pieces cut so far.
pub struct TypeScan {
    pub depth: nat,
    pub start: int,
    pub parts: Seq<Seq<char>>,
}

/// Scans `v` for commas outside every kind of bracket (a closing bracket
/// without an opening one leaves the depth at zero).
pub open spec fn type_scan(v: Seq<char>) -> TypeScan
    decreases v.len(),
{
    if v.len() == 0 {
        TypeScan { depth: 0, start: 0, parts: seq![] }
    } else {
        let s = type_scan(v.drop_last());
        let ch = v.last();
        let i = v.len() - 1;
        if ch == '<' || ch == '(' || ch == '[' || ch == '{' {
            TypeScan { depth: s.depth + 1, ..s }
        } else if ch == '>' || ch == ')' || ch == ']' || ch == '}' {
            TypeScan { depth: if s.depth > 0 { (s.depth - 1) as nat } else { 0 }, ..s }
        } else if ch == ',' && s.depth == 0 {
            TypeScan { start: i + 1, parts: s.parts.push(trim(v.subrange(s.start, i))), ..s }
        } else {
            s
        }
    }
}

/// The trimmed pieces of type text between its top-level commas.
pub open spec fn type_parts_of(v: Seq<char>) -> Seq<Seq<char>> {
    let s = type_scan(v);
    s.parts.push(trim(v.subrange(s.start, v.len() as int)))
}

proof fn lemma_type_scan_bounds(v: Seq<char>)
    ensures
        0 <= type_scan(v).start <= v.len(),
        type_scan(v).depth <= v.len(),
    decreases v.len(),
{
    if v.len() > 0 {
        lemma_type_scan_bounds(v.drop_last());
    }
}

/// Splits type text at its top-level commas and trims each piece.
pub fn top_level_parts(value: &str) -> (r: Vec<String>)
    ensures
        texts(r@) == type_parts_of(value@),
{
    let cs = chars_of(value);
    let n = cs.len();
    let mut parts: Vec<String> = Vec::new();
    let mut start: usize = 0;
    let mut depth: usize = 0;
    let mut i: usize = 0;
    while i < n
        invariant
            n == cs@.len(),
            cs@ == value@,
            i <= n,
            type_scan(cs@.take(i as int)).depth == depth as nat,
            type_scan(cs@.take(i as int)).start == start as int,
            type_scan(cs@.take(i as int)).parts == texts(parts@),
            depth <= i,
        decreases n - i,
    {
        proof {
            lemma_type_scan_bounds(cs@.take(i as int));
        }
        assert(cs@.take(i + 1).drop_last() =~= cs@.take(i as int));
        assert(cs@.take(i + 1).last() == cs@[i as int]);
        let ch = cs[i];
        if ch == '<' || ch == '(' || ch == '[' || ch == '{' {
            depth = depth + 1;
        } else if ch == '>' || ch == ')' || ch == ']' || ch == '}' {
            if depth > 0 {
                depth = depth - 1;
            }
        } else if ch == ',' && depth == 0 {
            let piece = trimmed_slice(&cs, start, i);
            assert(cs@.take(i + 1).subrange(start as int, i as int) =~= cs@.subrange(start as int, i as int));
            parts.push(piece);
            start = i + 1;
            assert(texts(parts@) =~= type_scan(cs@.take(i + 1)).parts);
        }
        i = i + 1;
    }
    assert(cs@.take(n as int) =~= cs@);
    proof {
        lemma_type_scan_bounds(cs@);
    }
    parts.push(trimmed_slice(&cs, start, n));
    assert(texts(parts@) =~= type_parts_of(value@));
    parts
}

/// The characters of `cs` from `a` to `b`, trimmed.
fn trimmed_slice(cs: &Vec<char>, a: usize, b: usize) -> (r: String)
    requires
        a <= b <= cs@.len(),
    ensures
        r@ == trim(cs@.subrange(a as int, b as int)),
{
    let mut out: Vec<char> = Vec::new();
    let mut k = a;
    while k < b
        invariant
            a <= k <= b,
            b <= cs@.len(),
            out@ == cs@.subrange(a as int, k as int),
        decreases b - k,
    {
        out.push(cs[k]);
        k = k + 1;
        assert(out@ =~= cs@.subrange(a as int, k as int));
    }
    trim_chars(&out)
}

/// The characters of `cs` from `a` to `b`.
fn slice_chars(cs: &Vec<char>, a: usize, b: usize) -> (r: String)
    requires
        a <= b <= cs@.len(),
    ensures
        r@ == cs@.subrange(a as int, b as int),
{
    let mut out: Vec<char> = Vec::new();
    let mut k = a;
    while k < b
        invariant
            a <= k <= b,
            b <= cs@.len(),
            out@ == cs@.subrange(a as int, k as int),
        decreases b - k,
    {
        out.push(cs[k]);
        k = k + 1;
        assert(out@ =~= cs@.subrange(a as int, k as int));
    }
    string_of(out.as_slice())
}

/// The length of the leading run of identifier characters.
pub open spec fn ident_prefix_len(p: Seq<char>) -> int
    decreases p.len(),
{
    if p.len() == 0 || !is_ident_char(p[0]) {
        0
    } else {
        1 + ident_prefix_len(p.drop_first())
    }
}

proof fn lemma_ident_prefix_len(p: Seq<char>, k: int)
    requires
        0 <= k <= p.len(),
        forall|j: int| 0 <= j < k ==> is_ident_char(#[trigger] p[j]),
    ensures
        ident_prefix_len(p) == k + ident_prefix_len(p.subrange(k, p.len() as int)),
    decreases k,
{
    if k == 0 {
        assert(p.subrange(0, p.len() as int) =~= p);
    } else {
        assert(p.drop_first().subrange(k - 1, p.drop_first().len() as int) =~= p.subrange(k, p.len() as int));
        lemma_ident_prefix_len(p.drop_first(), k - 1);
    }
}

/// The text inside a generic parameter list `<..>`, or the text itself
/// when it is not one.
pub open spec fn generics_inner(value: Seq<char>) -> Seq<char> {
    let t = trim(value);
    if t.len() >= 2 && t[0] == '<' && t.last() == '>' {
        t.subrange(1, t.len() - 1)
    } else {
        value
    }
}

/// The type parameter a generic parameter declares: its leading
/// identifier, none for lifetimes, const parameters and empty pieces.
pub open spec fn declared_param(p: Seq<char>) -> Option<Seq<char>> {
    let q = trim(p);
    if "'"@.is_prefix_of(q) || "const "@.is_prefix_of(q) || ident_prefix_len(q) == 0 {
        None
    } else {
        Some(q.take(ident_prefix_len(q)))
    }
}

/// The declared type parameters of the first `k` pieces.
pub open spec fn declared_params(ps: Seq<Seq<char>>) -> Seq<Seq<char>>
    decreases ps.len(),
{
    if ps.len() == 0 {
        seq![]
    } else {
        match declared_param(ps.last()) {
            Some(n) => declared_params(ps.drop_last()).push(n),
            None => declared_params(ps.drop_last()),
        }
    }
}

/// The type parameter names a generic parameter list declares.
pub open spec fn generic_params_of(value: Seq<char>) -> Seq<Seq<char>> {
    declared_params(type_parts_of(generics_inner(value)))
}

/// The type parameter a generic parameter declares.
#[verifier::loop_isolation(false)]
fn declared_param_exec(p: &str) -> (r: Option<String>)
    ensures
        match r {
            Some(s) => declared_param(p@) == Some(s@),
            None => declared_param(p@) is None,
        },
{
    let pc = chars_of(p);
    let q = trim_chars(&pc);
    proof {
        reveal_strlit("'");
        reveal_strlit("const ");
    }
    if starts_with(q.as_str(), "'") || starts_with(q.as_str(), "const ") {
        return None;
    }
    let qc = chars_of(q.as_str());
    let mut end: usize = 0;
    while end < qc.len() && (qc[end] == '_' || ('a' <= qc[end] && qc[end] <= 'z') || ('A' <= qc[end] && qc[end]
        <= 'Z') || ('0' <= qc[end] && qc[end] <= '9'))
        invariant
            qc@ == q@,
            end <= qc@.len(),
            forall|j: int| 0 <= j < end ==> is_ident_char(#[trigger] qc@[j]),
        decreases qc@.len() - end,
    {
        end = end + 1;
    }
    proof {
        lemma_ident_prefix_len(qc@, end as int);
        if end < qc@.len() {
            assert(!is_ident_char(qc@.subrange(end as int, qc@.len() as int)[0]));
        } else {
            assert(qc@.subrange(end as int, qc@.len() as int) =~= Seq::<char>::empty());
        }
    }
    if end == 0 {
        return None;
    }
    let r = slice_chars(&qc, 0, end);
    assert(qc@.subrange(0, end as int) =~= qc@.take(end as int));
    Some(r)
}

/// The type parameter names a generic parameter list declares (lifetimes
/// and const parameters left out).
pub fn generic_type_parameters(value: &str) -> (r: Vec<String>)
    ensures
        texts(r@) == generic_params_of(value@),
{
    let vc = chars_of(value);
    let t = trim_chars(&vc);
    let tc = chars_of(t.as_str());
    let n = tc.len();
    let inner = if n >= 2 && tc[0] == '<' && tc[n - 1] == '>' {
        slice_chars(&tc, 1, n - 1)
    } else {
        string_of(vc.as_slice())
    };
    assert(inner@ == generics_inner(value@));
    let parts = top_level_parts(inner.as_str());
    let mut out: Vec<String> = Vec::new();
    let mut i: usize = 0;
    while i < parts.len()
        invariant
            i <= parts@.len(),
            texts(parts@) == type_parts_of(inner@),
            texts(out@) == declared_params(texts(parts@).take(i as int)),
        decreases parts@.len() - i,
    {
        assert(texts(parts@).take(i + 1).drop_last() =~= texts(parts@).take(i as int));
        assert(texts(parts@).take(i + 1).last() == parts@[i as int]@);
        match declared_param_exec(parts[i].as_str()) {
            Some(name) => {
                out.push(name);
                assert(texts(out@) =~= declared_params(texts(parts@).take(i + 1)));
            },
            None => {},
        }
        i = i + 1;
    }
    assert(texts(parts@).take(parts@.len() as int) =~= texts(parts@));
    out
}

/// The outer name of a type: the last identifier before its first `<`.
pub open spec fn outer_name_of(value: Seq<char>) -> Option<Seq<char>> {
    last_nonempty(split_by(trim(split_on(value, '<')[0]), Separator::NonIdent))
}

/// The outer name of a type.
pub fn outer_type_name(value: &str) -> (r: Option<String>)
    ensures
        match r {
            Some(s) => outer_name_of(value@) == Some(s@),
            None => outer_name_of(value@) is None,
        },
{
    let pieces = crate::fields::split_text(value, '<');
    proof {
        crate::fields::lemma_split_nonempty(value@, '<');
    }
    let hc = chars_of(pieces[0].as_str());
    let head = trim_chars(&hc);
    let tokens = split_text_by(head.as_str(), Separator::NonIdent);
    let mut k = tokens.len();
    assert(texts(tokens@).take(k as int) =~= texts(tokens@));
    proof {
        reveal_strlit("");
    }
    while k > 0 && crate::strmap::str_eq(tokens[k - 1].as_str(), "")
        invariant
            k <= tokens@.len(),
            texts(tokens@) == split_by(head@, Separator::NonIdent),
            last_nonempty(texts(tokens@)) == last_nonempty(texts(tokens@).take(k as int)),
        decreases k,
    {
        assert(texts(tokens@).take(k as int).drop_last() =~= texts(tokens@).take(k - 1));
        assert(texts(tokens@).take(k as int).last() == tokens@[k - 1]@);
        proof {
            reveal_strlit("");
        }
        k = k - 1;
    }
    if k == 0 {
        assert(texts(tokens@).take(0) =~= Seq::<Seq<char>>::empty());
        None
    } else {
        assert(texts(tokens@).take(k as int).last() == tokens@[k - 1]@);
        proof {
            reveal_strlit("");
            if tokens@[k - 1]@.len() == 0 {
                assert(tokens@[k - 1]@ =~= ""@);
            }
        }
        Some(tokens[k - 1].clone())
    }
}

/// Position of the first `c` in `v`.
pub open spec fn first_pos(v: Seq<char>, c: char) -> Option<int> {
    crate::fields::first_index_of(v, c)
}

/// Position of the last `c` in `v`.
pub open spec fn last_pos(v: Seq<char>, c: char) -> Option<int>
    decreases v.len(),
{
    if v.len() == 0 {
        None
    } else if v.last() == c {
        Some(v.len() - 1)
    } else {
        last_pos(v.drop_last(), c)
    }
}

pub proof fn lemma_last_pos(v: Seq<char>, c: char)
    ensures
        last_pos(v, c) matches Some(k) ==> 0 <= k < v.len() && v[k] == c,
    decreases v.len(),
{
    if v.len() > 0 && v.last() != c {
        lemma_last_pos(v.drop_last(), c);
    }
}

/// A type is the generic itself, or passes it as one of its top-level
/// generic arguments (between its first `<` and last `>`).
pub open spec fn direct_generic_argument(value: Seq<char>, generic: Seq<char>) -> bool {
    let v = trim(value);
    if v == generic {
        true
    } else {
        match (first_pos(v, '<'), last_pos(v, '>')) {
            (Some(s), Some(e)) => s < e && type_parts_of(v.subrange(s + 1, e)).contains(generic),
            _ => false,
        }
    }
}

/// True when the type is the generic, or passes it directly as a generic
/// argument.
#[verifier::loop_isolation(false)]
pub fn has_direct_generic_argument(value: &str, generic: &str) -> (r: bool)
    ensures
        r == direct_generic_argument(value@, generic@),
{
    let vc = chars_of(value);
    let t = trim_chars(&vc);
    if crate::strmap::str_eq(t.as_str(), generic) {
        return true;
    }
    let tc = chars_of(t.as_str());
    let n = tc.len();
    let mut s: usize = 0;
    while s < n && tc[s] != '<'
        invariant
            tc@ == t@,
            n == tc@.len(),
            s <= n,
            forall|j: int| 0 <= j < s ==> tc@[j] != '<',
        decreases n - s,
    {
        s = s + 1;
    }
    proof {
        crate::fields::lemma_first_index(t@, '<', s as int);
    }
    if s == n {
        return false;
    }
    let mut e: usize = n;
    assert(tc@.take(e as int) =~= tc@);
    while e > 0 && tc[e - 1] != '>'
        invariant
            tc@ == t@,
            n == tc@.len(),
            e <= n,
            last_pos(t@, '>') == last_pos(tc@.take(e as int), '>'),
        decreases e,
    {
        assert(tc@.take(e as int).drop_last() =~= tc@.take(e - 1));
        e = e - 1;
    }
    if e == 0 {
        assert(tc@.take(0) =~= Seq::<char>::empty());
        return false;
    }
    let end = e - 1;
    assert(tc@.take(e as int).last() == tc@[end as int]);
    assert(last_pos(t@, '>') == Some(end as int));
    if !(s < end) {
        return false;
    }
    let args = slice_chars(&tc, s + 1, end);
    let parts = top_level_parts(args.as_str());
    let mut i: usize = 0;
    while i < parts.len()
        invariant
            i <= parts@.len(),
            texts(parts@) == type_parts_of(args@),
            forall|j: int| 0 <= j < i ==> texts(parts@)[j] != generic@,
        decreases parts@.len() - i,
    {
        if crate::strmap::str_eq(parts[i].as_str(), generic) {
            assert(texts(parts@)[i as int] == generic@);
            return true;
        }
        i = i + 1;
    }
    false
}

} // verus!
