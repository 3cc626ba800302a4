//! Resolving what a Rust call's name refers to through `use` renames and
//! `pub use` re-exports, and which Cargo binary a file belongs to.

use vstd::prelude::*;
use crate::paths::{
    binary_target_of, conventional_rust_binary_target, follow_from, follow_reexports, last_path_segment,
    last_path_segment_of, normalize_rust_import_target, normalized_import, rust_module_path_for,
    rust_module_path_of,
};
use crate::sources::forward_slashes;
use crate::strmap::{str_eq, StrMap};
use crate::text::{chars_of, push_str, string_of};
use crate::words::{char_is_alphanumeric, is_alphanumeric_char};

verus! {

/// A Rust `use` binding: the local name, the path it imports, and whether
/// it is re-exported (`pub use`).
#[derive(Debug, Clone, PartialEq, Eq)]
pub struct RustImportRef {
    pub local: String,
    pub target: String,
    pub is_reexport: bool,
}

/// What a name resolves to through imports and re-exports.
#[derive(Debug)]
pub enum AliasResolution {
    /// No import or re-export is involved.
    NotAliased,
    /// The path the name finally stands for.
    Resolved(String),
    /// Imports disagree, or the re-export chain is ambiguous or cyclic.
    Ambiguous,
}

/// The meaning of an [`AliasResolution`].
pub enum Alias {
    NotAliased,
    Resolved(Seq<char>),
    Ambiguous,
}

impl View for AliasResolution {
    type V = Alias;

    open spec fn view(&self) -> Alias {
        match self {
            AliasResolution::NotAliased => Alias::NotAliased,
            AliasResolution::Resolved(p) => Alias::Resolved(p@),
            AliasResolution::Ambiguous => Alias::Ambiguous,
        }
    }
}

/// Follows the re-exports from an import target that names a re-exported
/// path (or that the import renamed).
pub open spec fn followed(initial: Seq<char>, reexports: Map<Seq<char>, Vec<String>>) -> Alias {
    match follow_from(reexports, initial, seq![], 16) {
        Some(p) => Alias::Resolved(p),
        None => Alias::Ambiguous,
    }
}

/// The result of following re-exports from `initial`.
fn follow(initial: String, reexports: &StrMap<Vec<String>>) -> (r: AliasResolution)
    ensures
        r@ == followed(initial@, reexports.view()),
{
    match follow_reexports(initial, reexports) {
        Some(p) => AliasResolution::Resolved(p),
        None => AliasResolution::Ambiguous,
    }
}

/// A qualifier that could be a module path: no `.`, only `:`, `_` and
/// alphanumeric characters.
pub open spec fn path_like(q: Seq<char>) -> bool {
    forall|i: int| 0 <= i < q.len() ==> #[trigger] q[i] == ':' || q[i] == '_' || is_alphanumeric_char(q[i])
}

/// What `qualifier::callee` in `file` resolves to through re-exports.
pub open spec fn qualified_reexport_of(
    file: Seq<char>,
    qualifier: Seq<char>,
    callee: Seq<char>,
    reexports: Map<Seq<char>, Vec<String>>,
) -> Alias {
    if !path_like(qualifier) {
        Alias::NotAliased
    } else {
        match normalized_import(file, rust_module_path_of(file), qualifier + "::"@ + callee) {
            None => Alias::Ambiguous,
            Some(initial) => if !reexports.contains_key(initial) {
                Alias::NotAliased
            } else {
                followed(initial, reexports)
            },
        }
    }
}

/// What a qualified call `qualifier::callee` in `file` resolves to
/// through re-exports.
pub fn resolve_qualified_reexport(
    file: &str,
    qualifier: &str,
    callee: &str,
    reexports: &StrMap<Vec<String>>,
) -> (r: AliasResolution)
    ensures
        r@ == qualified_reexport_of(file@, qualifier@, callee@, reexports.view()),
{
    let qc = chars_of(qualifier);
    let mut i: usize = 0;
    while i < qc.len()
        invariant
            qc@ == qualifier@,
            i <= qc@.len(),
            forall|j: int| 0 <= j < i ==> #[trigger] qc@[j] == ':' || qc@[j] == '_' || is_alphanumeric_char(qc@[j]),
        decreases qc@.len() - i,
    {
        let c = qc[i];
        if !(c == ':' || c == '_' || char_is_alphanumeric(c)) {
            return AliasResolution::NotAliased;
        }
        i = i + 1;
    }
    let module = rust_module_path_for(file);
    let mut path = String::new();
    push_str(&mut path, qualifier);
    push_str(&mut path, "::");
    push_str(&mut path, callee);
    let initial = match normalize_rust_import_target(file, module.as_str(), path.as_str()) {
        None => {
            return AliasResolution::Ambiguous;
        },
        Some(t) => t,
    };
    if reexports.get(initial.as_str()).is_none() {
        return AliasResolution::NotAliased;
    }
    follow(initial, reexports)
}

/// The normalized target of each import of `callee`, with whether the
/// import renamed it.
pub open spec fn alias_candidates(file: Seq<char>, imports: Seq<RustImportRef>, callee: Seq<char>) -> Seq<
    (Seq<char>, bool),
>
    decreases imports.len(),
{
    if imports.len() == 0 {
        seq![]
    } else {
        let earlier = alias_candidates(file, imports.drop_last(), callee);
        let imp = imports.last();
        if imp.local@ == callee {
            match normalized_import(file, rust_module_path_of(file), imp.target@) {
                Some(t) => earlier.push((t, last_path_segment_of(imp.target@) != callee)),
                None => earlier,
            }
        } else {
            earlier
        }
    }
}

/// What a bare call `callee` in `file` resolves to through the file's
/// imports: not aliased without a matching import; ambiguous when imports
/// disagree; otherwise the import's target, followed through re-exports
/// when it was renamed or is itself re-exported.
pub open spec fn local_alias_of(
    file: Seq<char>,
    imports: Seq<RustImportRef>,
    callee: Seq<char>,
    reexports: Map<Seq<char>, Vec<String>>,
) -> Alias {
    let cands = alias_candidates(file, imports, callee);
    if cands.len() == 0 {
        Alias::NotAliased
    } else if exists|i: int| 0 <= i < cands.len() && #[trigger] cands[i] != cands[0] {
        Alias::Ambiguous
    } else {
        let (initial, renamed) = cands[0];
        if !renamed && !reexports.contains_key(initial) {
            Alias::NotAliased
        } else {
            followed(initial, reexports)
        }
    }
}

/// What a bare call `callee` in `file` resolves to through its imports.
pub fn resolve_local_call_alias(
    file: &str,
    imports: &Vec<RustImportRef>,
    callee: &str,
    reexports: &StrMap<Vec<String>>,
) -> (r: AliasResolution)
    ensures
        r@ == local_alias_of(file@, imports@, callee@, reexports.view()),
{
    let module = rust_module_path_for(file);
    let mut targets: Vec<String> = Vec::new();
    let mut renames: Vec<bool> = Vec::new();
    let mut i: usize = 0;
    while i < imports.len()
        invariant
            i <= imports@.len(),
            module@ == rust_module_path_of(file@),
            targets@.len() == renames@.len(),
            targets@.len() == alias_candidates(file@, imports@.take(i as int), callee@).len(),
            forall|k: int|
                0 <= k < targets@.len() ==> (#[trigger] alias_candidates(file@, imports@.take(i as int), callee@)[k])
                    == (targets@[k]@, renames@[k]),
        decreases imports@.len() - i,
    {
        assert(imports@.take(i + 1).drop_last() =~= imports@.take(i as int));
        assert(imports@.take(i + 1).last() == imports@[i as int]);
        let imp = &imports[i];
        if str_eq(imp.local.as_str(), callee) {
            match normalize_rust_import_target(file, module.as_str(), imp.target.as_str()) {
                Some(t) => {
                    let seg = last_path_segment(imp.target.as_str());
                    let renamed = !str_eq(seg.as_str(), callee);
                    targets.push(t);
                    renames.push(renamed);
                },
                None => {},
            }
        }
        i = i + 1;
    }
    assert(imports@.take(imports@.len() as int) =~= imports@);
    let ghost cands = alias_candidates(file@, imports@, callee@);
    if targets.len() == 0 {
        return AliasResolution::NotAliased;
    }
    let mut k: usize = 1;
    while k < targets.len()
        invariant
            1 <= k <= targets@.len(),
            cands == alias_candidates(file@, imports@, callee@),
            targets@.len() == renames@.len(),
            targets@.len() == cands.len(),
            forall|q: int| 0 <= q < targets@.len() ==> (#[trigger] cands[q]) == (targets@[q]@, renames@[q]),
            forall|q: int| 0 <= q < k ==> #[trigger] cands[q] == cands[0],
        decreases targets@.len() - k,
    {
        if !str_eq(targets[k].as_str(), targets[0].as_str()) || renames[k] != renames[0] {
            assert(cands[k as int] != cands[0]);
            return AliasResolution::Ambiguous;
        }
        k = k + 1;
    }
    let renamed = renames[0];
    let initial = targets[0].clone();
    if !renamed && reexports.get(initial.as_str()).is_none() {
        return AliasResolution::NotAliased;
    }
    follow(initial, reexports)
}

/// The Cargo binary target of a file: its manifest `[[bin]]` entry, else
/// the conventional target of its path.
pub open spec fn binary_target(file: Option<Seq<char>>, bins: Map<Seq<char>, String>) -> Option<Seq<char>> {
    match file {
        None => None,
        Some(f) => {
            let n = forward_slashes(f);
            if bins.contains_key(n) {
                Some(bins[n]@)
            } else {
                binary_target_of(n)
            }
        },
    }
}

/// The Cargo binary target of a file, from its declared `[[bin]]` path or
/// from convention.
pub fn rust_binary_target(file: Option<&str>, bin_targets: &StrMap<String>) -> (r: Option<String>)
    ensures
        match r {
            Some(t) => binary_target(
                match file {
                    Some(f) => Some(f@),
                    None => None,
                },
                bin_targets.view(),
            ) == Some(t@),
            None => binary_target(
                match file {
                    Some(f) => Some(f@),
                    None => None,
                },
                bin_targets.view(),
            ) is None,
        },
{
    let f = match file {
        None => {
            return None;
        },
        Some(f) => f,
    };
    let fc = chars_of(f);
    let mut n: Vec<char> = Vec::new();
    let mut i: usize = 0;
    while i < fc.len()
        invariant
            fc@ == f@,
            i <= fc@.len(),
            n@ == forward_slashes(fc@.take(i as int)),
        decreases fc@.len() - i,
    {
        let c = fc[i];
        n.push(if c == '\\' { '/' } else { c });
        i = i + 1;
        assert(n@ =~= forward_slashes(fc@.take(i as int)));
    }
    assert(fc@.take(fc@.len() as int) =~= fc@);
    let normalized = string_of(n.as_slice());
    match bin_targets.get(normalized.as_str()) {
        Some(t) => Some(t.clone()),
        None => conventional_rust_binary_target(Some(normalized.as_str())),
    }
}

} // verus!
