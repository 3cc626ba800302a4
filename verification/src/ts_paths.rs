//! TypeScript module paths: the graph path of a source file, where a
//! relative import specifier leads, and the target a type reference names.

use vstd::prelude::*;
use crate::fields::{split_on, split_text, texts, trim, trim_chars};
use crate::paths::join_colons;
use crate::sources::{forward_slashes, join_slash, named_parts};
use crate::strmap::str_eq;
use crate::text::{chars_of, ends_with, push_str, starts_with, string_of};

verus! {

/// The TypeScript source extensions, in the order they are tried.
pub open spec fn ts_extension(k: int) -> Seq<char> {
    if k == 0 {
        ".d.ts"@
    } else if k == 1 {
        ".d.mts"@
    } else if k == 2 {
        ".d.cts"@
    } else if k == 3 {
        ".tsx"@
    } else if k == 4 {
        ".mts"@
    } else if k == 5 {
        ".cts"@
    } else {
        ".ts"@
    }
}

/// `n` without the first of the extensions, from the `k`-th on, that it
/// ends with.
pub open spec fn strip_ts_extension_from(n: Seq<char>, k: nat) -> Seq<char>
    decreases 7 - k,
{
    if k >= 7 {
        n
    } else if ts_extension(k as int).is_suffix_of(n) {
        n.subrange(0, n.len() - ts_extension(k as int).len())
    } else {
        strip_ts_extension_from(n, k + 1)
    }
}

/// The graph module path of a TypeScript file: `crate` followed by its
/// directory and file pieces, extension removed, a leading `src` dropped.
pub open spec fn ts_module_path_of(file: Seq<char>) -> Seq<char> {
    let w = strip_ts_extension_from(forward_slashes(file), 0);
    let ps = named_parts(split_on(w, '/'));
    let parts = if ps.len() > 0 && ps[0] == "src"@ {
        ps.drop_first()
    } else {
        ps
    };
    if parts.len() == 0 {
        "crate"@
    } else {
        "crate::"@ + join_colons(parts)
    }
}

/// The text of `s` with every `\` made `/`.
fn forward_slashed(s: &str) -> (r: String)
    ensures
        r@ == forward_slashes(s@),
{
    let cs = chars_of(s);
    let mut out: Vec<char> = Vec::new();
    let mut i: usize = 0;
    while i < cs.len()
        invariant
            cs@ == s@,
            i <= cs@.len(),
            out@ == forward_slashes(cs@.take(i as int)),
        decreases cs@.len() - i,
    {
        let c = cs[i];
        out.push(if c == '\\' { '/' } else { c });
        i = i + 1;
        assert(out@ =~= forward_slashes(cs@.take(i as int)));
    }
    assert(cs@.take(cs@.len() as int) =~= cs@);
    string_of(out.as_slice())
}

/// The extension literal tried at step `k`.
fn extension_at(k: usize) -> (r: &'static str)
    requires
        k < 7,
    ensures
        r@ == ts_extension(k as int),
{
    if k == 0 {
        ".d.ts"
    } else if k == 1 {
        ".d.mts"
    } else if k == 2 {
        ".d.cts"
    } else if k == 3 {
        ".tsx"
    } else if k == 4 {
        ".mts"
    } else if k == 5 {
        ".cts"
    } else {
        ".ts"
    }
}

/// The pieces of a `/`-separated path that name something.
fn named_path_parts(s: &str) -> (r: Vec<String>)
    ensures
        texts(r@) == named_parts(split_on(s@, '/')),
{
    let pieces = split_text(s, '/');
    let mut parts: Vec<String> = Vec::new();
    let mut q: usize = 0;
    while q < pieces.len()
        invariant
            q <= pieces@.len(),
            texts(pieces@) == split_on(s@, '/'),
            texts(parts@) == named_parts(texts(pieces@).take(q as int)),
        decreases pieces@.len() - q,
    {
        assert(texts(pieces@).take(q + 1).drop_last() =~= texts(pieces@).take(q as int));
        assert(texts(pieces@).take(q + 1).last() == pieces@[q as int]@);
        let p = pieces[q].as_str();
        proof {
            reveal_strlit("");
            if p@.len() == 0 {
                assert(p@ =~= ""@);
            }
        }
        if !(str_eq(p, "") || str_eq(p, ".")) {
            parts.push(pieces[q].clone());
            assert(texts(parts@) =~= named_parts(texts(pieces@).take(q + 1)));
        }
        q = q + 1;
    }
    assert(texts(pieces@).take(pieces@.len() as int) =~= texts(pieces@));
    parts
}

/// The pieces from `from` on, joined with `::`.
fn join_with_colons(parts: &Vec<String>, from: usize) -> (r: String)
    requires
        from <= parts@.len(),
    ensures
        r@ == join_colons(texts(parts@).skip(from as int)),
{
    let mut out = String::new();
    let mut i = from;
    assert(texts(parts@).skip(from as int).take(0) =~= Seq::<Seq<char>>::empty());
    while i < parts.len()
        invariant
            from <= i <= parts@.len(),
            out@ == join_colons(texts(parts@).skip(from as int).take(i - from)),
        decreases parts@.len() - i,
    {
        let ghost sk = texts(parts@).skip(from as int);
        assert(sk.take(i - from + 1).drop_last() =~= sk.take(i - from));
        assert(sk.take(i - from + 1).last() == parts@[i as int]@);
        if i > from {
            push_str(&mut out, "::");
        }
        push_str(&mut out, parts[i].as_str());
        proof {
            reveal_strlit("::");
            if i == from {
                assert(sk.take(1) =~= seq![parts@[i as int]@]);
            }
        }
        assert(out@ =~= join_colons(sk.take(i - from + 1)));
        i = i + 1;
    }
    assert(texts(parts@).skip(from as int).take(parts@.len() - from) =~= texts(parts@).skip(from as int));
    out
}

/// The graph module path of a TypeScript file.
pub fn ts_module_path(file: &str) -> (r: String)
    ensures
        r@ == ts_module_path_of(file@),
{
    let normalized = forward_slashed(file);
    let mut k: usize = 0;
    while k < 7 && !ends_with(normalized.as_str(), extension_at(k))
        invariant
            k <= 7,
            normalized@ == forward_slashes(file@),
            strip_ts_extension_from(normalized@, 0) == strip_ts_extension_from(normalized@, k as nat),
        decreases 7 - k,
    {
        k = k + 1;
    }
    let without = if k < 7 {
        let ext = chars_of(extension_at(k));
        let nc = chars_of(normalized.as_str());
        let cut = nc.len() - ext.len();
        let mut w: Vec<char> = Vec::new();
        let mut q: usize = 0;
        while q < cut
            invariant
                cut <= nc@.len(),
                q <= cut,
                w@ == nc@.subrange(0, q as int),
            decreases cut - q,
        {
            w.push(nc[q]);
            q = q + 1;
            assert(w@ =~= nc@.subrange(0, q as int));
        }
        string_of(w.as_slice())
    } else {
        normalized
    };
    assert(without@ == strip_ts_extension_from(forward_slashes(file@), 0));
    let parts = named_path_parts(without.as_str());
    let from: usize = if parts.len() > 0 && str_eq(parts[0].as_str(), "src") {
        1
    } else {
        0
    };
    assert(texts(parts@).skip(from as int) == (if texts(parts@).len() > 0 && texts(parts@)[0] == "src"@ {
        texts(parts@).drop_first()
    } else {
        texts(parts@)
    }));
    if from == parts.len() {
        return "crate".to_string();
    }
    let mut out = String::new();
    push_str(&mut out, "crate::");
    let joined = join_with_colons(&parts, from);
    push_str(&mut out, joined.as_str());
    out
}

/// Where a relative import specifier leads from `file`: the file's
/// directory pieces, then each specifier piece (`..` going up, failing
/// above the root; empty and `.` pieces ignored), as a module path. Only
/// specifiers starting with `.` are relative.
pub open spec fn import_target_parts(dir: Seq<Seq<char>>, spec_pieces: Seq<Seq<char>>) -> Option<Seq<Seq<char>>>
    decreases spec_pieces.len(),
{
    if spec_pieces.len() == 0 {
        Some(dir)
    } else {
        match import_target_parts(dir, spec_pieces.drop_last()) {
            None => None,
            Some(ps) => {
                let p = spec_pieces.last();
                if p.len() == 0 || p == "."@ {
                    Some(ps)
                } else if p == ".."@ {
                    if ps.len() == 0 {
                        None
                    } else {
                        Some(ps.drop_last())
                    }
                } else {
                    Some(ps.push(p))
                }
            },
        }
    }
}

/// The module a relative import specifier names, seen from `file`.
pub open spec fn import_module_path_of(file: Seq<char>, specifier: Seq<char>) -> Option<Seq<char>> {
    if !"."@.is_prefix_of(specifier) {
        None
    } else {
        let ps = named_parts(split_on(forward_slashes(file), '/'));
        let dir = if ps.len() > 0 {
            ps.drop_last()
        } else {
            ps
        };
        match import_target_parts(dir, split_on(specifier, '/')) {
            None => None,
            Some(parts) => Some(ts_module_path_of(join_slash(parts))),
        }
    }
}

/// The module a relative import specifier names, seen from `file`.
#[verifier::loop_isolation(false)]
pub fn import_module_path(file: &str, specifier: &str) -> (r: Option<String>)
    ensures
        match r {
            Some(s) => import_module_path_of(file@, specifier@) == Some(s@),
            None => import_module_path_of(file@, specifier@) is None,
        },
{
    proof {
        reveal_strlit(".");
    }
    if !starts_with(specifier, ".") {
        return None;
    }
    let normalized = forward_slashed(file);
    let mut parts = named_path_parts(normalized.as_str());
    let ghost ps = texts(parts@);
    if parts.len() > 0 {
        parts.pop();
        assert(texts(parts@) =~= ps.drop_last());
    }
    let pieces = split_text(specifier, '/');
    let ghost dir = texts(parts@);
    let mut i: usize = 0;
    while i < pieces.len()
        invariant
            i <= pieces@.len(),
            texts(pieces@) == split_on(specifier@, '/'),
            import_target_parts(dir, texts(pieces@).take(i as int)) == Some(texts(parts@)),
        decreases pieces@.len() - i,
    {
        assert(texts(pieces@).take(i + 1).drop_last() =~= texts(pieces@).take(i as int));
        assert(texts(pieces@).take(i + 1).last() == pieces@[i as int]@);
        let p = pieces[i].as_str();
        proof {
            reveal_strlit("");
            if p@.len() == 0 {
                assert(p@ =~= ""@);
            }
        }
        if str_eq(p, "") || str_eq(p, ".") {
        } else if str_eq(p, "..") {
            if parts.len() == 0 {
                assert(import_target_parts(dir, texts(pieces@).take(i + 1)) is None);
                proof {
                    lemma_import_failure_sticks(dir, texts(pieces@), (i + 1) as int);
                }
                return None;
            }
            let ghost before = texts(parts@);
            parts.pop();
            assert(texts(parts@) =~= before.drop_last());
        } else {
            parts.push(pieces[i].clone());
            assert(texts(parts@) =~= texts(parts@).drop_last().push(pieces@[i as int]@));
        }
        i = i + 1;
    }
    assert(texts(pieces@).take(pieces@.len() as int) =~= texts(pieces@));
    let mut joined = String::new();
    let mut w: usize = 0;
    while w < parts.len()
        invariant
            w <= parts@.len(),
            joined@ == join_slash(texts(parts@).take(w as int)),
        decreases parts@.len() - w,
    {
        assert(texts(parts@).take(w + 1).drop_last() =~= texts(parts@).take(w as int));
        if w > 0 {
            push_str(&mut joined, "/");
        }
        push_str(&mut joined, parts[w].as_str());
        proof {
            reveal_strlit("/");
            if w == 0 {
                assert(texts(parts@).take(1) =~= seq![parts@[0]@]);
            }
        }
        assert(joined@ =~= join_slash(texts(parts@).take(w + 1)));
        w = w + 1;
    }
    assert(texts(parts@).take(parts@.len() as int) =~= texts(parts@));
    Some(ts_module_path(joined.as_str()))
}

/// Going above the root fails the whole specifier.
proof fn lemma_import_failure_sticks(dir: Seq<Seq<char>>, pieces: Seq<Seq<char>>, i: int)
    requires
        0 <= i <= pieces.len(),
        import_target_parts(dir, pieces.take(i)) is None,
    ensures
        import_target_parts(dir, pieces) is None,
    decreases pieces.len() - i,
{
    if i < pieces.len() {
        assert(pieces.take(i + 1).drop_last() =~= pieces.take(i));
        lemma_import_failure_sticks(dir, pieces, i + 1);
    } else {
        assert(pieces.take(i) =~= pieces);
    }
}

/// What a type reference names: through an import binding of its first
/// `.` segment (the rest appended with `::`), or else its last segment.
pub open spec fn type_target_of(raw: Seq<char>, imports: Map<Seq<char>, String>) -> Option<Seq<char>> {
    let wg = trim(split_on(raw, '<')[0]);
    let parts = split_on(wg, '.');
    let first = trim(parts[0]);
    if first.len() == 0 {
        None
    } else if imports.contains_key(first) {
        let suffix = join_colons(parts.drop_first());
        if suffix.len() == 0 {
            Some(imports[first]@)
        } else {
            Some(imports[first]@ + "::"@ + suffix)
        }
    } else {
        Some(trim(parts.last()))
    }
}

/// What a type reference names, given the file's import bindings (local
/// name to target path).
pub fn resolve_type_target(raw: &str, imports: &crate::strmap::StrMap<String>) -> (r: Option<String>)
    ensures
        match r {
            Some(s) => type_target_of(raw@, imports.view()) == Some(s@),
            None => type_target_of(raw@, imports.view()) is None,
        },
{
    let heads = split_text(raw, '<');
    proof {
        crate::fields::lemma_split_nonempty(raw@, '<');
    }
    let hc = chars_of(heads[0].as_str());
    let wg = trim_chars(&hc);
    let parts = split_text(wg.as_str(), '.');
    proof {
        crate::fields::lemma_split_nonempty(wg@, '.');
    }
    let fc = chars_of(parts[0].as_str());
    let first = trim_chars(&fc);
    if chars_of(first.as_str()).len() == 0 {
        return None;
    }
    match imports.get(first.as_str()) {
        Some(target) => {
            let suffix = join_with_colons(&parts, 1);
            assert(texts(parts@).skip(1) =~= texts(parts@).drop_first());
            if chars_of(suffix.as_str()).len() == 0 {
                Some(target.clone())
            } else {
                let mut out = String::new();
                push_str(&mut out, target.as_str());
                push_str(&mut out, "::");
                push_str(&mut out, suffix.as_str());
                Some(out)
            }
        },
        None => {
            let lc = chars_of(parts[parts.len() - 1].as_str());
            Some(trim_chars(&lc))
        },
    }
}

} // verus!
