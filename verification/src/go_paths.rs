//! Go source paths and type references: the graph module of a file, the
//! type a reference names, test functions, and quoted import paths.

use vstd::prelude::*;
use crate::fields::{has_char, split_on, split_text, texts, trim, trim_chars};
use crate::paths::join_colons;
use crate::sources::{forward_slashes, named_parts};
use crate::strmap::str_eq;
use crate::text::{chars_of, ends_with, push_str, starts_with, string_of};
use crate::words::{char_is_alphanumeric, char_is_lowercase, is_alphanumeric_char, is_lowercase_char};

verus! {

/// The directory part of a path: everything before its last `/` (empty
/// when there is none).
pub open spec fn directory_of(n: Seq<char>) -> Seq<char> {
    match crate::rust_types::last_pos(n, '/') {
        Some(k) => n.subrange(0, k),
        None => seq![],
    }
}

/// The graph module of a Go file: `crate` followed by its directory's
/// named pieces.
pub open spec fn go_module_path_of(file: Seq<char>) -> Seq<char> {
    let parts = named_parts(split_on(directory_of(forward_slashes(file)), '/'));
    if parts.len() == 0 {
        "crate"@
    } else {
        "crate::"@ + join_colons(parts)
    }
}

/// The graph module of a Go file.
pub fn go_module_path(file: &str) -> (r: String)
    ensures
        r@ == go_module_path_of(file@),
{
    let cs = chars_of(file);
    let mut n: Vec<char> = Vec::new();
    let mut i: usize = 0;
    while i < cs.len()
        invariant
            cs@ == file@,
            i <= cs@.len(),
            n@ == forward_slashes(cs@.take(i as int)),
        decreases cs@.len() - i,
    {
        let c = cs[i];
        n.push(if c == '\\' { '/' } else { c });
        i = i + 1;
        assert(n@ =~= forward_slashes(cs@.take(i as int)));
    }
    assert(cs@.take(cs@.len() as int) =~= cs@);
    let mut e: usize = n.len();
    assert(n@.take(e as int) =~= n@);
    while e > 0 && n[e - 1] != '/'
        invariant
            e <= n@.len(),
            crate::rust_types::last_pos(n@, '/') == crate::rust_types::last_pos(n@.take(e as int), '/'),
        decreases e,
    {
        assert(n@.take(e as int).drop_last() =~= n@.take(e - 1));
        e = e - 1;
    }
    let mut dir: Vec<char> = Vec::new();
    if e > 0 {
        assert(n@.take(e as int).last() == n@[e - 1]);
        let mut q: usize = 0;
        while q < e - 1
            invariant
                0 < e <= n@.len(),
                q <= e - 1,
                dir@ == n@.subrange(0, q as int),
            decreases e - 1 - q,
        {
            dir.push(n[q]);
            q = q + 1;
            assert(dir@ =~= n@.subrange(0, q as int));
        }
    } else {
        assert(n@.take(0) =~= Seq::<char>::empty());
    }
    assert(dir@ == directory_of(forward_slashes(file@)));
    let d = string_of(dir.as_slice());
    let pieces = split_text(d.as_str(), '/');
    let mut parts: Vec<String> = Vec::new();
    let mut p: usize = 0;
    while p < pieces.len()
        invariant
            p <= pieces@.len(),
            texts(pieces@) == split_on(d@, '/'),
            texts(parts@) == named_parts(texts(pieces@).take(p as int)),
        decreases pieces@.len() - p,
    {
        assert(texts(pieces@).take(p + 1).drop_last() =~= texts(pieces@).take(p as int));
        assert(texts(pieces@).take(p + 1).last() == pieces@[p as int]@);
        let s = pieces[p].as_str();
        proof {
            reveal_strlit("");
            if s@.len() == 0 {
                assert(s@ =~= ""@);
            }
        }
        if !(str_eq(s, "") || str_eq(s, ".")) {
            parts.push(pieces[p].clone());
            assert(texts(parts@) =~= named_parts(texts(pieces@).take(p + 1)));
        }
        p = p + 1;
    }
    assert(texts(pieces@).take(pieces@.len() as int) =~= texts(pieces@));
    if parts.len() == 0 {
        return "crate".to_string();
    }
    let mut out = String::new();
    push_str(&mut out, "crate");
    let mut w: usize = 0;
    while w < parts.len()
        invariant
            w <= parts@.len(),
            out@ == "crate"@ + (if w == 0 {
                Seq::<char>::empty()
            } else {
                "::"@ + join_colons(texts(parts@).take(w as int))
            }),
        decreases parts@.len() - w,
    {
        assert(texts(parts@).take(w + 1).drop_last() =~= texts(parts@).take(w as int));
        push_str(&mut out, "::");
        push_str(&mut out, parts[w].as_str());
        proof {
            reveal_strlit("::");
            if w == 0 {
                assert(texts(parts@).take(1) =~= seq![parts@[0]@]);
            }
        }
        assert(out@ =~= "crate"@ + ("::"@ + join_colons(texts(parts@).take(w + 1))));
        w = w + 1;
    }
    assert(texts(parts@).take(parts@.len() as int) =~= texts(parts@));
    proof {
        reveal_strlit("crate");
        reveal_strlit("crate::");
        reveal_strlit("::");
    }
    assert(out@ =~= "crate::"@ + join_colons(texts(parts@)));
    out
}

/// `v` with leading `*`s removed, trimming after each.
pub open spec fn strip_pointers(v: Seq<char>) -> Seq<char>
    decreases v.len(),
{
    if v.len() > 0 && v[0] == '*' {
        proof {
            crate::py_hints::lemma_trim_len(v.drop_first());
        }
        strip_pointers(trim(v.drop_first()))
    } else {
        v
    }
}

/// A type text that no plain named type can be: empty, a slice, map,
/// channel, function or interface type, or anything with brackets, unions
/// or approximation constraints.
pub open spec fn composite_type(ty: Seq<char>) -> bool {
    ||| ty.len() == 0
    ||| "[]"@.is_prefix_of(ty)
    ||| "map["@.is_prefix_of(ty)
    ||| "chan "@.is_prefix_of(ty)
    ||| "func("@.is_prefix_of(ty)
    ||| "interface {"@.is_prefix_of(ty)
    ||| has_char(ty, '[')
    ||| has_char(ty, ']')
    ||| has_char(ty, '|')
    ||| has_char(ty, '~')
}

/// The graph path of the named type a Go type reference names: through
/// the single import of its package qualifier, or in the file's own module
/// for a plain name.
pub open spec fn go_type_path_of(raw: Seq<char>, module: Seq<char>, imports: Map<Seq<char>, Vec<String>>) -> Option<
    Seq<char>,
> {
    let ty = strip_pointers(trim(raw));
    if composite_type(ty) {
        None
    } else {
        match crate::fields::first_index_of(ty, '.') {
            Some(k) => {
                let qualifier = ty.subrange(0, k);
                let name = ty.subrange(k + 1, ty.len() as int);
                if imports.contains_key(qualifier) && imports[qualifier]@.len() == 1 {
                    Some("go-type:"@ + imports[qualifier]@[0]@ + "::"@ + name)
                } else {
                    None
                }
            },
            None => if forall|i: int| 0 <= i < ty.len() ==> #[trigger] ty[i] == '_' || is_alphanumeric_char(ty[i]) {
                Some(module + "::"@ + ty)
            } else {
                None
            },
        }
    }
}

/// The graph path of the named type a Go type reference names.
#[verifier::loop_isolation(false)]
pub fn resolve_type_path(raw: &str, module: &str, imports: &crate::strmap::StrMap<Vec<String>>) -> (r: Option<String>)
    ensures
        match r {
            Some(s) => go_type_path_of(raw@, module@, imports.view()) == Some(s@),
            None => go_type_path_of(raw@, module@, imports.view()) is None,
        },
{
    let rc = chars_of(raw);
    let t = trim_chars(&rc);
    let mut cur = chars_of(t.as_str());
    while cur.len() > 0 && cur[0] == '*'
        invariant
            strip_pointers(trim(raw@)) == strip_pointers(cur@),
        decreases cur@.len(),
    {
        let mut rest: Vec<char> = Vec::new();
        let mut k: usize = 1;
        while k < cur.len()
            invariant
                1 <= k <= cur@.len(),
                rest@ == cur@.subrange(1, k as int),
            decreases cur@.len() - k,
        {
            rest.push(cur[k]);
            k = k + 1;
            assert(rest@ =~= cur@.subrange(1, k as int));
        }
        assert(rest@ =~= cur@.drop_first());
        proof {
            crate::py_hints::lemma_trim_len(rest@);
        }
        let trimmed = trim_chars(&rest);
        cur = chars_of(trimmed.as_str());
    }
    let ty = string_of(cur.as_slice());
    let ts = ty.as_str();
    proof {
        reveal_strlit("[]");
        reveal_strlit("map[");
        reveal_strlit("chan ");
        reveal_strlit("func(");
        reveal_strlit("interface {");
    }
    if cur.len() == 0 || starts_with(ts, "[]") || starts_with(ts, "map[") || starts_with(ts, "chan ")
        || starts_with(ts, "func(") || starts_with(ts, "interface {") {
        return None;
    }
    let mut i: usize = 0;
    let mut dot: Option<usize> = None;
    while i < cur.len()
        invariant
            i <= cur@.len(),
            forall|j: int| 0 <= j < i ==> cur@[j] != '[' && cur@[j] != ']' && cur@[j] != '|' && cur@[j] != '~',
            match dot {
                Some(k) => k < i && cur@[k as int] == '.' && forall|j: int| 0 <= j < k ==> cur@[j] != '.',
                None => forall|j: int| 0 <= j < i ==> cur@[j] != '.',
            },
        decreases cur@.len() - i,
    {
        let c = cur[i];
        if c == '[' || c == ']' || c == '|' || c == '~' {
            assert(has_char(cur@, c));
            return None;
        }
        if c == '.' && dot.is_none() {
            dot = Some(i);
        }
        i = i + 1;
    }
    match dot {
        Some(k) => {
            proof {
                crate::fields::lemma_first_index(cur@, '.', k as int);
            }
            let mut q: Vec<char> = Vec::new();
            let mut a: usize = 0;
            while a < k
                invariant
                    k < cur@.len(),
                    a <= k,
                    q@ == cur@.subrange(0, a as int),
                decreases k - a,
            {
                q.push(cur[a]);
                a = a + 1;
                assert(q@ =~= cur@.subrange(0, a as int));
            }
            let mut nm: Vec<char> = Vec::new();
            let mut b: usize = k + 1;
            while b < cur.len()
                invariant
                    k < cur@.len(),
                    k + 1 <= b <= cur@.len(),
                    nm@ == cur@.subrange(k + 1, b as int),
                decreases cur@.len() - b,
            {
                nm.push(cur[b]);
                b = b + 1;
                assert(nm@ =~= cur@.subrange(k + 1, b as int));
            }
            let qualifier = string_of(q.as_slice());
            let name = string_of(nm.as_slice());
            match imports.get(qualifier.as_str()) {
                Some(targets) => {
                    if targets.len() != 1 {
                        return None;
                    }
                    let mut out = String::new();
                    push_str(&mut out, "go-type:");
                    push_str(&mut out, targets[0].as_str());
                    push_str(&mut out, "::");
                    push_str(&mut out, name.as_str());
                    Some(out)
                },
                None => None,
            }
        },
        None => {
            proof {
                crate::fields::lemma_first_index(cur@, '.', cur@.len() as int);
            }
            let mut j: usize = 0;
            while j < cur.len()
                invariant
                    j <= cur@.len(),
                    forall|m: int| 0 <= m < j ==> #[trigger] cur@[m] == '_' || is_alphanumeric_char(cur@[m]),
                decreases cur@.len() - j,
            {
                let c = cur[j];
                if !(c == '_' || char_is_alphanumeric(c)) {
                    return None;
                }
                j = j + 1;
            }
            let mut out = String::new();
            push_str(&mut out, module);
            push_str(&mut out, "::");
            push_str(&mut out, ts);
            Some(out)
        },
    }
}

/// One of the Go test-function prefixes.
pub open spec fn go_test_prefix(k: int) -> Seq<char> {
    if k == 0 {
        "Test"@
    } else if k == 1 {
        "Benchmark"@
    } else if k == 2 {
        "Fuzz"@
    } else {
        "Example"@
    }
}

/// A function of a `_test.go` file is a test, benchmark, fuzz target or
/// example when its name is such a prefix followed by a character that is
/// not lowercase.
pub open spec fn go_test_of(file: Seq<char>, name: Seq<char>) -> bool {
    "_test.go"@.is_suffix_of(forward_slashes(file)) && exists|k: int|
        0 <= k < 4 && #[trigger] go_test_prefix(k).is_prefix_of(name) && name.len() > go_test_prefix(k).len()
            && !is_lowercase_char(name[go_test_prefix(k).len() as int])
}

/// The prefix literal at position `k`.
fn test_prefix(k: usize) -> (r: &'static str)
    requires
        k < 4,
    ensures
        r@ == go_test_prefix(k as int),
{
    if k == 0 {
        "Test"
    } else if k == 1 {
        "Benchmark"
    } else if k == 2 {
        "Fuzz"
    } else {
        "Example"
    }
}

/// True when `name`, declared in `file`, is a Go test function.
pub fn is_go_test(file: &str, name: &str) -> (r: bool)
    ensures
        r == go_test_of(file@, name@),
{
    let fc = chars_of(file);
    let mut n: Vec<char> = Vec::new();
    let mut i: usize = 0;
    while i < fc.len()
        invariant
            fc@ == file@,
            i <= fc@.len(),
            n@ == forward_slashes(fc@.take(i as int)),
        decreases fc@.len() - i,
    {
        let c = fc[i];
        n.push(if c == '\\' { '/' } else { c });
        i = i + 1;
        assert(n@ =~= forward_slashes(fc@.take(i as int)));
    }
    assert(fc@.take(fc@.len() as int) =~= fc@);
    let normalized = string_of(n.as_slice());
    if !ends_with(normalized.as_str(), "_test.go") {
        return false;
    }
    let nc = chars_of(name);
    let mut k: usize = 0;
    while k < 4
        invariant
            k <= 4,
            nc@ == name@,
            "_test.go"@.is_suffix_of(forward_slashes(file@)),
            forall|j: int|
                0 <= j < k ==> !(#[trigger] go_test_prefix(j).is_prefix_of(name@) && name@.len() > go_test_prefix(j).len()
                    && !is_lowercase_char(name@[go_test_prefix(j).len() as int])),
        decreases 4 - k,
    {
        let prefix = test_prefix(k);
        if starts_with(name, prefix) {
            let plen = chars_of(prefix).len();
            if nc.len() > plen && !char_is_lowercase(nc[plen]) {
                return true;
            }
        }
        k = k + 1;
    }
    false
}

/// A Go string literal without its quotes: `"..."` or a raw `` `...` ``.
pub open spec fn unquoted_go(v: Seq<char>) -> Seq<char> {
    if v.len() >= 2 && ((v[0] == '"' && v.last() == '"') || (v[0] == '`' && v.last() == '`')) {
        v.subrange(1, v.len() - 1)
    } else {
        v
    }
}

/// Removes the quotes of a Go string literal.
pub fn unquote(value: &str) -> (r: String)
    ensures
        r@ == unquoted_go(value@),
{
    let v = chars_of(value);
    let n = v.len();
    if n >= 2 && ((v[0] == '"' && v[n - 1] == '"') || (v[0] == '`' && v[n - 1] == '`')) {
        let mut out: Vec<char> = Vec::new();
        let mut k: usize = 1;
        while k < n - 1
            invariant
                n == v@.len(),
                n >= 2,
                1 <= k <= n - 1,
                out@ == v@.subrange(1, k as int),
            decreases n - 1 - k,
        {
            out.push(v[k]);
            k = k + 1;
            assert(out@ =~= v@.subrange(1, k as int));
        }
        string_of(out.as_slice())
    } else {
        string_of(v.as_slice())
    }
}

} // verus!
