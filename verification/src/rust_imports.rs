//! The names a Rust file brings into scope with `use` declarations: each
//! local name with the path it stands for, and whether the declaration
//! re-exports it.

use vstd::prelude::*;
use crate::aliases::RustImportRef;
use crate::fields::trim;
use crate::paths::last_segment_of;
use crate::text::{chars_of, push_str, starts_with};
use crate::tree::{field_index, has_named_kind, lemma_field_index, SyntaxNode};
use crate::strmap::str_eq;

verus! {

/// An import as plain values: local name, target path, re-exported.
pub type ImportFact = (Seq<char>, Seq<char>, bool);

/// The facts of a list of imports.
pub open spec fn import_facts(v: Seq<RustImportRef>) -> Seq<ImportFact> {
    v.map_values(|x: RustImportRef| (x.local@, x.target@, x.is_reexport))
}

/// A `use` path below `prefix`: `self` names the prefix itself, and a path
/// that starts at `crate` or `super` (or any path under an empty prefix)
/// stands alone.
pub open spec fn combined_path(prefix: Seq<char>, suffix: Seq<char>) -> Seq<char> {
    let s = trim(suffix);
    if s == "self"@ {
        prefix
    } else if prefix.len() == 0 || s == "crate"@ || "crate::"@.is_prefix_of(s) || s == "super"@
        || "super::"@.is_prefix_of(s) {
        s
    } else {
        prefix + "::"@ + s
    }
}

/// The imports of one `use` clause under `prefix`.
pub open spec fn clause_imports(n: SyntaxNode, prefix: Seq<char>, re: bool) -> Seq<ImportFact>
    decreases n, n.children@.len() + 1,
{
    let ch = n.children@;
    proof {
        lemma_field_index(ch, "path"@);
        lemma_field_index(ch, "list"@);
        lemma_field_index(ch, "alias"@);
    }
    if n.kind@ == "scoped_use_list"@ {
        let path = match field_index(ch, "path"@) {
            Some(p) => combined_path(prefix, ch[p].text@),
            None => prefix,
        };
        match field_index(ch, "list"@) {
            Some(l) => clause_imports(ch[l], path, re),
            None => seq![],
        }
    } else if n.kind@ == "use_list"@ {
        list_imports(n, 0, prefix, re)
    } else if n.kind@ == "use_as_clause"@ {
        match (field_index(ch, "path"@), field_index(ch, "alias"@)) {
            (Some(p), Some(a)) => {
                let local = trim(ch[a].text@);
                let target = combined_path(prefix, ch[p].text@);
                if local == "_"@ || target.len() == 0 {
                    seq![]
                } else {
                    seq![(local, target, re)]
                }
            },
            _ => seq![],
        }
    } else if n.kind@ == "use_wildcard"@ {
        seq![]
    } else {
        let target = combined_path(prefix, n.text@);
        let local = trim(last_segment_of(target));
        if local.len() > 0 && local != "*"@ {
            seq![(local, target, re)]
        } else {
            seq![]
        }
    }
}

/// The imports of the named children of a `use` list, from position `i`.
pub open spec fn list_imports(n: SyntaxNode, i: int, prefix: Seq<char>, re: bool) -> Seq<ImportFact>
    decreases n, n.children@.len() - i,
{
    if i < 0 || i >= n.children@.len() {
        seq![]
    } else if n.children@[i].named {
        clause_imports(n.children@[i], prefix, re) + list_imports(n, i + 1, prefix, re)
    } else {
        list_imports(n, i + 1, prefix, re)
    }
}

/// The imports of one `use` declaration.
pub open spec fn declaration_imports(d: SyntaxNode) -> Seq<ImportFact> {
    let re = has_named_kind(d.children@, "visibility_modifier"@);
    match field_index(d.children@, "argument"@) {
        Some(a) => clause_imports(d.children@[a], ""@, re),
        None => seq![],
    }
}

/// The imports of the `use` declarations among the named children of a
/// file's root, from position `i`.
pub open spec fn file_imports_from(root: SyntaxNode, i: int) -> Seq<ImportFact>
    decreases root.children@.len() - i,
{
    if i < 0 || i >= root.children@.len() {
        seq![]
    } else {
        let c = root.children@[i];
        let here = if c.named && c.kind@ == "use_declaration"@ {
            declaration_imports(c)
        } else {
            seq![]
        };
        here + file_imports_from(root, i + 1)
    }
}

/// The imports of the top-level `use` declarations of a Rust file, in
/// source order.
pub open spec fn file_imports(root: SyntaxNode) -> Seq<ImportFact> {
    file_imports_from(root, 0)
}

/// Computes [`combined_path`].
pub fn combine_path(prefix: &str, suffix: &str) -> (r: String)
    ensures
        r@ == combined_path(prefix@, suffix@),
{
    let s = crate::fields::trim_chars(&chars_of(suffix));
    let st = s.as_str();
    if str_eq(st, "self") {
        return prefix.to_owned();
    }
    if prefix.is_empty() || str_eq(st, "crate") || starts_with(st, "crate::") || str_eq(st, "super")
        || starts_with(st, "super::") {
        return s;
    }
    let mut out = String::new();
    push_str(&mut out, prefix);
    push_str(&mut out, "::");
    push_str(&mut out, st);
    out
}

/// Appending one import appends its fact.
proof fn lemma_facts_push(v: Seq<RustImportRef>, x: RustImportRef)
    ensures
        import_facts(v.push(x)) == import_facts(v).push((x.local@, x.target@, x.is_reexport)),
{
    assert(import_facts(v.push(x)) =~= import_facts(v).push((x.local@, x.target@, x.is_reexport)));
}

/// Appends the imports of one `use` clause under `prefix`.
fn collect_clause(n: &SyntaxNode, prefix: &str, re: bool, out: &mut Vec<RustImportRef>)
    ensures
        import_facts(final(out)@) == import_facts(old(out)@) + clause_imports(*n, prefix@, re),
    decreases n, n.children@.len() + 1,
{
    let ghost ch = n.children@;
    proof {
        lemma_field_index(ch, "path"@);
        lemma_field_index(ch, "list"@);
        lemma_field_index(ch, "alias"@);
    }
    let kind = n.kind.as_str();
    if str_eq(kind, "scoped_use_list") {
        let path = match n.field_position("path") {
            Some(p) => combine_path(prefix, n.children[p].text.as_str()),
            None => prefix.to_owned(),
        };
        match n.field_position("list") {
            Some(l) => collect_clause(&n.children[l], path.as_str(), re, out),
            None => {
                assert(import_facts(out@) =~= import_facts(out@) + Seq::<ImportFact>::empty());
            },
        }
    } else if str_eq(kind, "use_list") {
        let mut i: usize = 0;
        while i < n.children.len()
            invariant
                i <= n.children@.len(),
                ch == n.children@,
                import_facts(out@) + list_imports(*n, i as int, prefix@, re) == import_facts(old(out)@)
                    + list_imports(*n, 0, prefix@, re),
            decreases n.children@.len() - i,
        {
            let ghost before = out@;
            if n.children[i].named {
                collect_clause(&n.children[i], prefix, re, out);
                assert(import_facts(out@) + list_imports(*n, i + 1, prefix@, re) =~= import_facts(before)
                    + list_imports(*n, i as int, prefix@, re));
            } else {
                assert(list_imports(*n, i as int, prefix@, re) == list_imports(*n, i + 1, prefix@, re));
            }
            i = i + 1;
        }
        assert(import_facts(out@) =~= import_facts(out@) + list_imports(*n, i as int, prefix@, re));
    } else if str_eq(kind, "use_as_clause") {
        match (n.field_position("path"), n.field_position("alias")) {
            (Some(p), Some(a)) => {
                let local = crate::fields::trim_chars(&chars_of(n.children[a].text.as_str()));
                let target = combine_path(prefix, n.children[p].text.as_str());
                if str_eq(local.as_str(), "_") || target.as_str().is_empty() {
                    assert(import_facts(out@) =~= import_facts(out@) + Seq::<ImportFact>::empty());
                } else {
                    proof {
                        lemma_facts_push(out@, RustImportRef { local: local, target: target, is_reexport: re });
                    }
                    out.push(RustImportRef { local, target, is_reexport: re });
                }
            },
            _ => {
                assert(import_facts(out@) =~= import_facts(out@) + Seq::<ImportFact>::empty());
            },
        }
    } else if str_eq(kind, "use_wildcard") {
        assert(import_facts(out@) =~= import_facts(out@) + Seq::<ImportFact>::empty());
    } else {
        let target = combine_path(prefix, n.text.as_str());
        let local = crate::words::last_ident(target.as_str());
        if !local.as_str().is_empty() && !str_eq(local.as_str(), "*") {
            proof {
                lemma_facts_push(out@, RustImportRef { local: local, target: target, is_reexport: re });
            }
            out.push(RustImportRef { local, target, is_reexport: re });
        } else {
            assert(import_facts(out@) =~= import_facts(out@) + Seq::<ImportFact>::empty());
        }
    }
}

/// The imports of the top-level `use` declarations of a Rust file's
/// syntax tree, in source order: one per imported name, with the path it
/// stands for and whether the declaration is public (a re-export).
/// Wildcards and `_` bindings bring no name.
pub fn collect_rust_imports(root: &SyntaxNode) -> (r: Vec<RustImportRef>)
    ensures
        import_facts(r@) == file_imports(*root),
{
    let mut out: Vec<RustImportRef> = Vec::new();
    let mut i: usize = 0;
    while i < root.children.len()
        invariant
            i <= root.children@.len(),
            import_facts(out@) + file_imports_from(*root, i as int) == file_imports(*root),
        decreases root.children@.len() - i,
    {
        let ghost before = out@;
        let c = &root.children[i];
        if c.named && str_eq(c.kind.as_str(), "use_declaration") {
            let re = c.has_named_child_of_kind("visibility_modifier");
            proof {
                lemma_field_index(c.children@, "argument"@);
            }
            match c.field_position("argument") {
                Some(a) => collect_clause(&c.children[a], "", re, &mut out),
                None => {},
            }
        }
        assert(import_facts(out@) + file_imports_from(*root, i + 1) =~= import_facts(before) + file_imports_from(
            *root,
            i as int,
        ));
        i = i + 1;
    }
    assert(import_facts(out@) =~= import_facts(out@) + file_imports_from(*root, i as int));
    out
}

} // verus!
