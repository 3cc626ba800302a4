//! Crate-wide proof of method calls on annotated receivers.
//!
//! Each Rust file contributes textual facts: the type items it defines, its
//! inherent methods, trait method declarations and trait impls, `Deref`
//! impls, its imports, and the method calls whose receiver was bound with
//! an explicit type. A call `x.m()` with `let x: T = ..` is proven to reach
//! the single inherent `T::m` only when every rule below holds; any doubt
//! leaves the call unproven. The facts are an over-approximation read from
//! syntax, never a trait solver.

use vstd::prelude::*;
use crate::fields::{has_char, trim, trim_chars};
use crate::paths::{lemma_split_colons_nonempty, split_colons, split_on_colons};
use crate::strmap::str_eq;
use crate::text::{chars_of, starts_with, string_of};

verus! {

/// How a method's first parameter binds its receiver, in Rust's autoref
/// probe order: by value, then `&self`, then `&mut self`. A shape that
/// cannot be classified (such as `self: Box<Self>`) is `Unrecognized`.
#[derive(Debug, Clone, Copy, PartialEq, Eq, Structural)]
pub enum ReceiverKind {
    Value,
    RefShared,
    RefMut,
    Unrecognized,
}

/// A type-namespace item (struct, enum, union, trait or type alias).
pub struct TypeItemFact {
    pub name: String,
    /// Gated by a `cfg` attribute on the item, an enclosing inline module,
    /// or the file.
    pub cfg_gated: bool,
}

/// An inherent method `impl T { fn m(..) }`.
pub struct InherentMethodFact {
    pub self_type: String,
    pub method_name: String,
    pub receiver: ReceiverKind,
    pub is_pub: bool,
    /// The impl's bounds, normalized and joined with `;`.
    pub bounds: String,
    /// The impl is generic over every parameter of the type.
    pub generic_over_all_type_params: bool,
    pub cfg_gated: bool,
    /// The graph node the method was extracted as, by its index.
    pub target_id: Option<u64>,
    pub file: String,
}

/// A method declared by an in-crate trait.
pub struct TraitMethodDeclFact {
    pub trait_name: String,
    pub method_name: String,
    pub receiver: ReceiverKind,
    pub cfg_gated: bool,
}

/// An impl of an in-crate trait; a blanket impl has no type name.
pub struct TraitImplFact {
    pub trait_name: String,
    pub self_type: Option<String>,
    pub bounds: String,
    pub cfg_gated: bool,
}

/// A `Deref` or `DerefMut` impl.
pub struct DerefImplFact {
    pub self_type: String,
}

/// A `mod x;` declaration.
pub struct ModDeclFact {
    pub name: String,
    pub cfg_gated: bool,
    /// Carries `#[path = ..]`.
    pub has_path_attr: bool,
    /// The enclosing lexical module, by its start byte (`u64::MAX` for the
    /// file's top level).
    pub scope: u64,
}

/// A named import `use a::b as c;`.
pub struct ImportFact {
    pub local: String,
    /// The first `::` segment of the imported path, as written.
    pub first_segment: String,
    pub full_path: String,
    /// The enclosing lexical module, as in [`ModDeclFact::scope`].
    pub scope: u64,
}

/// A method call `x.m()` on a bare identifier receiver.
pub struct CandidateMethodCall {
    pub receiver_name: String,
    pub method_name: String,
    /// The calling function, by its index among the file's nodes.
    pub owner_index: usize,
    /// The receiver's declared type as written, when its binding is unique.
    pub annotated_type: Option<String>,
}

/// Everything one file contributes to the crate-wide rules.
pub struct RustMethodFacts {
    pub type_items: Vec<TypeItemFact>,
    pub inherent_methods: Vec<InherentMethodFact>,
    pub trait_decls: Vec<TraitMethodDeclFact>,
    pub trait_impls: Vec<TraitImplFact>,
    pub deref_impls: Vec<DerefImplFact>,
    pub mod_decls: Vec<ModDeclFact>,
    pub named_imports: Vec<ImportFact>,
    /// The path before `::*` of each glob import.
    pub glob_imports: Vec<String>,
    pub candidate_calls: Vec<CandidateMethodCall>,
    pub file_transformed_scope: bool,
    pub file_duplicate_paths: bool,
    pub file_parse_error: bool,
    pub macro_owner_function_indices: Vec<usize>,
}

// ---------------------------------------------------------------- text rules

/// A path's first segment names this crate: `crate`, `self`, `super`, or
/// the package's own name.
pub open spec fn in_crate(segment: Seq<char>, package: Option<Seq<char>>) -> bool {
    segment == "crate"@ || segment == "self"@ || segment == "super"@ || package == Some(segment)
}

/// Decides [`in_crate`].
pub fn segment_in_crate(segment: &str, package: Option<&str>) -> (r: bool)
    ensures
        r == in_crate(segment@, match package {
            Some(p) => Some(p@),
            None => None,
        }),
{
    if str_eq(segment, "crate") || str_eq(segment, "self") || str_eq(segment, "super") {
        return true;
    }
    match package {
        Some(p) => str_eq(segment, p),
        None => false,
    }
}

/// Method names the standard prelude may supply on almost any type.
pub open spec fn is_prelude_method(m: Seq<char>) -> bool {
    ||| m == "clone"@ ||| m == "clone_from"@ ||| m == "into"@ ||| m == "from"@
    ||| m == "try_into"@ ||| m == "try_from"@ ||| m == "as_ref"@ ||| m == "as_mut"@
    ||| m == "borrow"@ ||| m == "borrow_mut"@ ||| m == "eq"@ ||| m == "ne"@ ||| m == "cmp"@
    ||| m == "partial_cmp"@ ||| m == "fmt"@ ||| m == "hash"@ ||| m == "default"@ ||| m == "drop"@
    ||| m == "next"@ ||| m == "iter"@ ||| m == "iter_mut"@ ||| m == "into_iter"@ ||| m == "deref"@
    ||| m == "deref_mut"@ ||| m == "index"@ ||| m == "index_mut"@ ||| m == "to_string"@
    ||| m == "to_owned"@
}

/// Decides [`is_prelude_method`].
pub fn prelude_method(m: &str) -> (r: bool)
    ensures
        r == is_prelude_method(m@),
{
    str_eq(m, "clone") || str_eq(m, "clone_from") || str_eq(m, "into") || str_eq(m, "from")
        || str_eq(m, "try_into") || str_eq(m, "try_from") || str_eq(m, "as_ref") || str_eq(m, "as_mut")
        || str_eq(m, "borrow") || str_eq(m, "borrow_mut") || str_eq(m, "eq") || str_eq(m, "ne")
        || str_eq(m, "cmp") || str_eq(m, "partial_cmp") || str_eq(m, "fmt") || str_eq(m, "hash")
        || str_eq(m, "default") || str_eq(m, "drop") || str_eq(m, "next") || str_eq(m, "iter")
        || str_eq(m, "iter_mut") || str_eq(m, "into_iter") || str_eq(m, "deref") || str_eq(m, "deref_mut")
        || str_eq(m, "index") || str_eq(m, "index_mut") || str_eq(m, "to_string") || str_eq(m, "to_owned")
}

/// External names a named import may bring in without being suspected of
/// supplying a trait method: common standard containers and types.
pub open spec fn is_known_safe_import(name: Seq<char>) -> bool {
    ||| name == "HashMap"@ ||| name == "HashSet"@ ||| name == "BTreeMap"@ ||| name == "BTreeSet"@
    ||| name == "VecDeque"@ ||| name == "BinaryHeap"@ ||| name == "String"@ ||| name == "Vec"@
    ||| name == "Box"@ ||| name == "Rc"@ ||| name == "Arc"@ ||| name == "Cell"@ ||| name == "RefCell"@
    ||| name == "Mutex"@ ||| name == "RwLock"@ ||| name == "PathBuf"@ ||| name == "Path"@
}

/// Decides [`is_known_safe_import`].
pub fn known_safe_import(name: &str) -> (r: bool)
    ensures
        r == is_known_safe_import(name@),
{
    str_eq(name, "HashMap") || str_eq(name, "HashSet") || str_eq(name, "BTreeMap") || str_eq(name, "BTreeSet")
        || str_eq(name, "VecDeque") || str_eq(name, "BinaryHeap") || str_eq(name, "String")
        || str_eq(name, "Vec") || str_eq(name, "Box") || str_eq(name, "Rc") || str_eq(name, "Arc")
        || str_eq(name, "Cell") || str_eq(name, "RefCell") || str_eq(name, "Mutex") || str_eq(name, "RwLock")
        || str_eq(name, "PathBuf") || str_eq(name, "Path")
}

/// Where the head of a type ends: at its first `<` or space.
pub open spec fn head_end(t: Seq<char>) -> int
    decreases t.len(),
{
    if t.len() == 0 || t[0] == '<' || t[0] == ' ' {
        0
    } else {
        1 + head_end(t.drop_first())
    }
}

/// Two consecutive `:` occur in `v`.
pub open spec fn has_double_colon(v: Seq<char>) -> bool {
    exists|i: int| 0 <= i < v.len() - 1 && #[trigger] v[i] == ':' && v[i + 1] == ':'
}

/// The bare, single-segment type name a receiver annotation names: none
/// for references, trait objects, `impl` types, pointers and paths.
pub open spec fn bare_type_name_of(annotated: Seq<char>) -> Option<Seq<char>> {
    let t = trim(annotated);
    if "&"@.is_prefix_of(t) || "dyn "@.is_prefix_of(t) || "impl "@.is_prefix_of(t) || has_char(t, '*') {
        None
    } else {
        bare_head_of(annotated)
    }
}

/// The head of a type annotation (its text before the first `<` or
/// space), when that head is a nonempty single segment.
pub open spec fn bare_head_of(annotated: Seq<char>) -> Option<Seq<char>> {
    let t = trim(annotated);
    let head = t.take(head_end(t));
    if has_double_colon(head) || head.len() == 0 {
        None
    } else {
        Some(head)
    }
}

proof fn lemma_head_end(t: Seq<char>, k: int)
    requires
        0 <= k <= t.len(),
        forall|j: int| 0 <= j < k ==> t[j] != '<' && t[j] != ' ',
    ensures
        head_end(t) == k + head_end(t.subrange(k, t.len() as int)),
        0 <= head_end(t) <= t.len(),
    decreases k,
{
    if k == 0 {
        assert(t.subrange(0, t.len() as int) =~= t);
        lemma_head_bound(t);
    } else {
        assert(t.drop_first().subrange(k - 1, t.drop_first().len() as int) =~= t.subrange(k, t.len() as int));
        lemma_head_end(t.drop_first(), k - 1);
    }
}

proof fn lemma_head_bound(t: Seq<char>)
    ensures
        0 <= head_end(t) <= t.len(),
    decreases t.len(),
{
    if t.len() > 0 {
        lemma_head_bound(t.drop_first());
    }
}

/// The bare type name of a receiver annotation.
#[verifier::loop_isolation(false)]
pub fn bare_type_name(annotated: &str) -> (r: Option<String>)
    ensures
        match r {
            Some(s) => bare_type_name_of(annotated@) == Some(s@),
            None => bare_type_name_of(annotated@) is None,
        },
{
    let all = chars_of(annotated);
    let trimmed = trim_chars(&all);
    let t = trimmed.as_str();
    proof {
        reveal_strlit("&");
        reveal_strlit("dyn ");
        reveal_strlit("impl ");
    }
    if starts_with(t, "&") || starts_with(t, "dyn ") || starts_with(t, "impl ") {
        return None;
    }
    let cs = chars_of(t);
    let n = cs.len();
    let mut i: usize = 0;
    while i < n
        invariant
            n == cs@.len(),
            cs@ == t@,
            i <= n,
            forall|j: int| 0 <= j < i ==> cs@[j] != '*',
        decreases n - i,
    {
        if cs[i] == '*' {
            assert(has_char(t@, '*'));
            return None;
        }
        i = i + 1;
    }
    bare_head(annotated)
}

/// The head of a type annotation, when it is a nonempty single segment.
#[verifier::loop_isolation(false)]
pub fn bare_head(annotated: &str) -> (r: Option<String>)
    ensures
        match r {
            Some(s) => bare_head_of(annotated@) == Some(s@),
            None => bare_head_of(annotated@) is None,
        },
{
    let all = chars_of(annotated);
    let trimmed = trim_chars(&all);
    let cs = chars_of(trimmed.as_str());
    let n = cs.len();
    let mut k: usize = 0;
    while k < n && cs[k] != '<' && cs[k] != ' '
        invariant
            n == cs@.len(),
            k <= n,
            forall|j: int| 0 <= j < k ==> cs@[j] != '<' && cs@[j] != ' ',
        decreases n - k,
    {
        k = k + 1;
    }
    proof {
        lemma_head_end(cs@, k as int);
        if k < n {
            assert(head_end(cs@.subrange(k as int, n as int)) == 0);
        } else {
            assert(cs@.subrange(k as int, n as int) =~= Seq::<char>::empty());
        }
    }
    if k == 0 {
        return None;
    }
    let mut q: usize = 0;
    while q + 1 < k
        invariant
            k <= n,
            n == cs@.len(),
            q < k,
            forall|j: int| 0 <= j < q ==> !(#[trigger] cs@[j] == ':' && cs@[j + 1] == ':'),
        decreases k - q,
    {
        if cs[q] == ':' && cs[q + 1] == ':' {
            assert(cs@.take(k as int)[q as int] == ':' && cs@.take(k as int)[q + 1] == ':');
            assert(has_double_colon(cs@.take(k as int)));
            return None;
        }
        q = q + 1;
    }
    let mut head: Vec<char> = Vec::new();
    let mut p: usize = 0;
    while p < k
        invariant
            k <= n,
            n == cs@.len(),
            p <= k,
            head@ == cs@.take(p as int),
        decreases k - p,
    {
        head.push(cs[p]);
        p = p + 1;
        assert(head@ =~= cs@.take(p as int));
    }
    assert(!has_double_colon(cs@.take(k as int))) by {
        assert forall|j: int| 0 <= j < cs@.take(k as int).len() - 1 implies !(#[trigger] cs@.take(k as int)[j] == ':'
            && cs@.take(k as int)[j + 1] == ':') by {
            assert(cs@.take(k as int)[j] == cs@[j]);
        }
    }
    Some(string_of(head.as_slice()))
}

/// The autoref step at which a receiver kind is probed.
pub open spec fn step_of(k: ReceiverKind) -> Option<int> {
    match k {
        ReceiverKind::Value => Some(0),
        ReceiverKind::RefShared => Some(1),
        ReceiverKind::RefMut => Some(2),
        ReceiverKind::Unrecognized => None,
    }
}

/// The autoref step of a receiver kind.
pub fn receiver_step_index(kind: ReceiverKind) -> (r: Option<u8>)
    ensures
        match r {
            Some(s) => step_of(kind) == Some(s as int),
            None => step_of(kind) is None,
        },
{
    match kind {
        ReceiverKind::Value => Some(0),
        ReceiverKind::RefShared => Some(1),
        ReceiverKind::RefMut => Some(2),
        ReceiverKind::Unrecognized => None,
    }
}

// ---------------------------------------------------------------- file rules

/// The optional package name, as text.
pub open spec fn package_text(package: Option<&str>) -> Option<Seq<char>> {
    match package {
        Some(p) => Some(p@),
        None => None,
    }
}

/// Every glob import of the file starts inside the crate.
pub open spec fn globs_in_crate(facts: RustMethodFacts, package: Option<Seq<char>>) -> bool {
    forall|j: int| 0 <= j < facts.glob_imports@.len() ==> in_crate(
        split_colons(#[trigger] facts.glob_imports@[j]@)[0],
        package,
    )
}

/// Some named import of the file brings in an external name that is not
/// known to be safe: it could be a trait supplying the method.
pub open spec fn has_unverifiable_import(facts: RustMethodFacts, package: Option<Seq<char>>) -> bool {
    exists|j: int|
        0 <= j < facts.named_imports@.len() && !in_crate(#[trigger] facts.named_imports@[j].first_segment@, package)
            && !is_known_safe_import(facts.named_imports@[j].local@)
}

/// Decides [`globs_in_crate`].
pub fn file_globs_are_in_crate(facts: &RustMethodFacts, package: Option<&str>) -> (r: bool)
    ensures
        r == globs_in_crate(*facts, package_text(package)),
{
    let mut j: usize = 0;
    while j < facts.glob_imports.len()
        invariant
            j <= facts.glob_imports@.len(),
            forall|q: int| 0 <= q < j ==> in_crate(
                split_colons(#[trigger] facts.glob_imports@[q]@)[0],
                package_text(package),
            ),
        decreases facts.glob_imports@.len() - j,
    {
        let parts = split_on_colons(facts.glob_imports[j].as_str());
        proof {
            lemma_split_colons_nonempty(facts.glob_imports@[j as int]@);
        }
        assert(parts@[0]@ == split_colons(facts.glob_imports@[j as int]@)[0]);
        if !segment_in_crate(parts[0].as_str(), package) {
            return false;
        }
        j = j + 1;
    }
    true
}

/// Decides [`has_unverifiable_import`].
pub fn file_has_unverifiable_external_import(facts: &RustMethodFacts, package: Option<&str>) -> (r: bool)
    ensures
        r == has_unverifiable_import(*facts, package_text(package)),
{
    let mut j: usize = 0;
    while j < facts.named_imports.len()
        invariant
            j <= facts.named_imports@.len(),
            forall|q: int|
                0 <= q < j ==> !(!in_crate(#[trigger] facts.named_imports@[q].first_segment@, package_text(package))
                    && !is_known_safe_import(facts.named_imports@[q].local@)),
        decreases facts.named_imports@.len() - j,
    {
        let imp = &facts.named_imports[j];
        if !segment_in_crate(imp.first_segment.as_str(), package) && !known_safe_import(imp.local.as_str()) {
            return true;
        }
        j = j + 1;
    }
    false
}

// ---------------------------------------------------------------- crate rules

/// How many type items of the list are named `name`.
pub open spec fn file_type_count(items: Seq<TypeItemFact>, name: Seq<char>) -> nat
    decreases items.len(),
{
    if items.len() == 0 {
        0
    } else {
        file_type_count(items.drop_last(), name) + if items.last().name@ == name {
            1nat
        } else {
            0nat
        }
    }
}

/// How many type items named `name` the crate defines.
pub open spec fn crate_type_count(files: Seq<RustMethodFacts>, name: Seq<char>) -> nat
    decreases files.len(),
{
    if files.len() == 0 {
        0
    } else {
        crate_type_count(files.drop_last(), name) + file_type_count(files.last().type_items@, name)
    }
}

/// The smaller of `n` and 2.
pub open spec fn capped(n: nat) -> nat {
    if n < 2 {
        n
    } else {
        2
    }
}

/// True when exactly one type item named `name` exists crate-wide.
pub fn unique_type_item(files: &Vec<RustMethodFacts>, name: &str) -> (r: bool)
    ensures
        r == (crate_type_count(files@, name@) == 1),
{
    let mut found: usize = 0;
    let mut i: usize = 0;
    while i < files.len()
        invariant
            i <= files@.len(),
            found as nat == capped(crate_type_count(files@.take(i as int), name@)),
        decreases files@.len() - i,
    {
        let items = &files[i].type_items;
        let mut j: usize = 0;
        while j < items.len()
            invariant
                i < files@.len(),
                items@ == files@[i as int].type_items@,
                j <= items@.len(),
                found as nat == capped(
                    crate_type_count(files@.take(i as int), name@) + file_type_count(items@.take(j as int), name@),
                ),
            decreases items@.len() - j,
        {
            assert(items@.take(j + 1).drop_last() =~= items@.take(j as int));
            if str_eq(items[j].name.as_str(), name) && found < 2 {
                found = found + 1;
            }
            j = j + 1;
        }
        assert(items@.take(items@.len() as int) =~= items@);
        assert(files@.take(i + 1).drop_last() =~= files@.take(i as int));
        i = i + 1;
    }
    assert(files@.take(files@.len() as int) =~= files@);
    found == 1
}

/// Some external named import anywhere in the crate binds `name`.
pub open spec fn externally_aliased(files: Seq<RustMethodFacts>, name: Seq<char>, package: Option<Seq<char>>) -> bool {
    exists|i: int, j: int|
        0 <= i < files.len() && 0 <= j < files[i].named_imports@.len() && !in_crate(
            (#[trigger] files[i].named_imports@[j]).first_segment@,
            package,
        ) && files[i].named_imports@[j].local@ == name
}

/// Decides [`externally_aliased`].
pub fn is_externally_aliased(files: &Vec<RustMethodFacts>, name: &str, package: Option<&str>) -> (r: bool)
    ensures
        r == externally_aliased(files@, name@, package_text(package)),
{
    let mut i: usize = 0;
    while i < files.len()
        invariant
            i <= files@.len(),
            forall|a: int, b: int|
                0 <= a < i && 0 <= b < files@[a].named_imports@.len() ==> !(!in_crate(
                    (#[trigger] files@[a].named_imports@[b]).first_segment@,
                    package_text(package),
                ) && files@[a].named_imports@[b].local@ == name@),
        decreases files@.len() - i,
    {
        let imports = &files[i].named_imports;
        let mut j: usize = 0;
        while j < imports.len()
            invariant
                i < files@.len(),
                imports@ == files@[i as int].named_imports@,
                j <= imports@.len(),
                forall|a: int, b: int|
                    0 <= a < i && 0 <= b < files@[a].named_imports@.len() ==> !(!in_crate(
                        (#[trigger] files@[a].named_imports@[b]).first_segment@,
                        package_text(package),
                    ) && files@[a].named_imports@[b].local@ == name@),
                forall|b: int|
                    0 <= b < j ==> !(!in_crate(
                        (#[trigger] files@[i as int].named_imports@[b]).first_segment@,
                        package_text(package),
                    ) && files@[i as int].named_imports@[b].local@ == name@),
            decreases imports@.len() - j,
        {
            if !segment_in_crate(imports[j].first_segment.as_str(), package) && str_eq(imports[j].local.as_str(), name) {
                assert(files@[i as int].named_imports@[j as int] == imports@[j as int]);
                return true;
            }
            j = j + 1;
        }
        i = i + 1;
    }
    false
}

/// Some `Deref` impl anywhere in the crate is for `name`.
pub open spec fn has_deref(files: Seq<RustMethodFacts>, name: Seq<char>) -> bool {
    exists|i: int, j: int|
        0 <= i < files.len() && 0 <= j < files[i].deref_impls@.len() && (
        #[trigger] files[i].deref_impls@[j]).self_type@ == name
}

/// Decides [`has_deref`].
pub fn is_deref_type(files: &Vec<RustMethodFacts>, name: &str) -> (r: bool)
    ensures
        r == has_deref(files@, name@),
{
    let mut i: usize = 0;
    while i < files.len()
        invariant
            i <= files@.len(),
            forall|a: int, b: int|
                0 <= a < i && 0 <= b < files@[a].deref_impls@.len() ==> (
                #[trigger] files@[a].deref_impls@[b]).self_type@ != name@,
        decreases files@.len() - i,
    {
        let derefs = &files[i].deref_impls;
        let mut j: usize = 0;
        while j < derefs.len()
            invariant
                i < files@.len(),
                derefs@ == files@[i as int].deref_impls@,
                j <= derefs@.len(),
                forall|a: int, b: int|
                    0 <= a < i && 0 <= b < files@[a].deref_impls@.len() ==> (
                    #[trigger] files@[a].deref_impls@[b]).self_type@ != name@,
                forall|b: int| 0 <= b < j ==> (#[trigger] files@[i as int].deref_impls@[b]).self_type@ != name@,
            decreases derefs@.len() - j,
        {
            if str_eq(derefs[j].self_type.as_str(), name) {
                assert(files@[i as int].deref_impls@[j as int] == derefs@[j as int]);
                return true;
            }
            j = j + 1;
        }
        i = i + 1;
    }
    false
}

/// Positions `(file, index)` of the inherent methods `t::m` in one file.
pub open spec fn file_inherent_positions(ms: Seq<InherentMethodFact>, file: int, t: Seq<char>, m: Seq<char>) -> Seq<(int, int)>
    decreases ms.len(),
{
    if ms.len() == 0 {
        seq![]
    } else {
        let earlier = file_inherent_positions(ms.drop_last(), file, t, m);
        if ms.last().self_type@ == t && ms.last().method_name@ == m {
            earlier.push((file, ms.len() - 1))
        } else {
            earlier
        }
    }
}

/// Positions of every inherent method `t::m` in the crate, file by file.
pub open spec fn inherent_positions(files: Seq<RustMethodFacts>, t: Seq<char>, m: Seq<char>) -> Seq<(int, int)>
    decreases files.len(),
{
    if files.len() == 0 {
        seq![]
    } else {
        inherent_positions(files.drop_last(), t, m) + file_inherent_positions(
            files.last().inherent_methods@,
            files.len() - 1,
            t,
            m,
        )
    }
}

/// Every listed position of the file names an inherent `t::m` there.
proof fn lemma_file_positions_valid(ms: Seq<InherentMethodFact>, file: int, t: Seq<char>, m: Seq<char>)
    ensures
        forall|k: int| 0 <= k < file_inherent_positions(ms, file, t, m).len() ==> {
            let p = #[trigger] file_inherent_positions(ms, file, t, m)[k];
            &&& p.0 == file
            &&& 0 <= p.1 < ms.len()
            &&& ms[p.1].self_type@ == t
            &&& ms[p.1].method_name@ == m
        },
    decreases ms.len(),
{
    if ms.len() > 0 {
        lemma_file_positions_valid(ms.drop_last(), file, t, m);
    }
}

/// Every listed position names an inherent `t::m` of the crate.
proof fn lemma_positions_valid(files: Seq<RustMethodFacts>, t: Seq<char>, m: Seq<char>)
    ensures
        forall|k: int| 0 <= k < inherent_positions(files, t, m).len() ==> {
            let p = #[trigger] inherent_positions(files, t, m)[k];
            &&& 0 <= p.0 < files.len()
            &&& 0 <= p.1 < files[p.0].inherent_methods@.len()
            &&& files[p.0].inherent_methods@[p.1].self_type@ == t
            &&& files[p.0].inherent_methods@[p.1].method_name@ == m
        },
    decreases files.len(),
{
    if files.len() > 0 {
        lemma_positions_valid(files.drop_last(), t, m);
        lemma_file_positions_valid(files.last().inherent_methods@, files.len() - 1, t, m);
        let a = inherent_positions(files.drop_last(), t, m);
        let b = file_inherent_positions(files.last().inherent_methods@, files.len() - 1, t, m);
        assert forall|k: int| 0 <= k < inherent_positions(files, t, m).len() implies {
            let p = #[trigger] inherent_positions(files, t, m)[k];
            &&& 0 <= p.0 < files.len()
            &&& 0 <= p.1 < files[p.0].inherent_methods@.len()
            &&& files[p.0].inherent_methods@[p.1].self_type@ == t
            &&& files[p.0].inherent_methods@[p.1].method_name@ == m
        } by {
            if k < a.len() {
                assert(inherent_positions(files, t, m)[k] == a[k]);
                assert(files.drop_last()[a[k].0] == files[a[k].0]);
            } else {
                assert(inherent_positions(files, t, m)[k] == b[k - a.len()]);
            }
        }
    }
}

/// The positions of the crate's inherent methods `t::m`.
pub fn find_inherent(files: &Vec<RustMethodFacts>, t: &str, m: &str) -> (r: Vec<(usize, usize)>)
    ensures
        r@.len() == inherent_positions(files@, t@, m@).len(),
        forall|k: int| 0 <= k < r@.len() ==> r@[k].0 as int == (#[trigger] inherent_positions(files@, t@, m@)[k]).0
            && r@[k].1 as int == inherent_positions(files@, t@, m@)[k].1,
{
    let mut out: Vec<(usize, usize)> = Vec::new();
    let mut i: usize = 0;
    while i < files.len()
        invariant
            i <= files@.len(),
            out@.len() == inherent_positions(files@.take(i as int), t@, m@).len(),
            forall|k: int| 0 <= k < out@.len() ==> out@[k].0 as int == (#[trigger] inherent_positions(
                files@.take(i as int),
                t@,
                m@,
            )[k]).0 && out@[k].1 as int == inherent_positions(files@.take(i as int), t@, m@)[k].1,
        decreases files@.len() - i,
    {
        let ms = &files[i].inherent_methods;
        let ghost before = inherent_positions(files@.take(i as int), t@, m@);
        let mut j: usize = 0;
        while j < ms.len()
            invariant
                i < files@.len(),
                ms@ == files@[i as int].inherent_methods@,
                j <= ms@.len(),
                out@.len() == before.len() + file_inherent_positions(ms@.take(j as int), i as int, t@, m@).len(),
                forall|k: int| 0 <= k < out@.len() ==> out@[k].0 as int == (#[trigger] (before + file_inherent_positions(
                    ms@.take(j as int),
                    i as int,
                    t@,
                    m@,
                ))[k]).0 && out@[k].1 as int == (before + file_inherent_positions(ms@.take(j as int), i as int, t@, m@))[k].1,
            decreases ms@.len() - j,
        {
            assert(ms@.take(j + 1).drop_last() =~= ms@.take(j as int));
            let ghost prev = before + file_inherent_positions(ms@.take(j as int), i as int, t@, m@);
            if str_eq(ms[j].self_type.as_str(), t) && str_eq(ms[j].method_name.as_str(), m) {
                out.push((i, j));
                assert(before + file_inherent_positions(ms@.take(j + 1), i as int, t@, m@) =~= prev.push((i as int, j as int)));
            } else {
                assert(before + file_inherent_positions(ms@.take(j + 1), i as int, t@, m@) =~= prev);
            }
            j = j + 1;
        }
        assert(ms@.take(ms@.len() as int) =~= ms@);
        assert(files@.take(i + 1).drop_last() =~= files@.take(i as int));
        assert(files@.take(i + 1).last() == files@[i as int]);
        i = i + 1;
    }
    assert(files@.take(files@.len() as int) =~= files@);
    out
}

/// A trait impl does not threaten the inherent method: it is for another
/// type, or for this type without `cfg` and with the same bounds. A blanket
/// impl always threatens.
pub open spec fn impl_allows(inherent: InherentMethodFact, imp: TraitImplFact) -> bool {
    match imp.self_type {
        None => false,
        Some(n) => n@ != inherent.self_type@ || (!imp.cfg_gated && imp.bounds@ == inherent.bounds@),
    }
}

/// No impl of trait `name` anywhere in the crate threatens the inherent
/// method.
pub open spec fn impls_allow(files: Seq<RustMethodFacts>, inherent: InherentMethodFact, name: Seq<char>) -> bool {
    forall|i: int, j: int|
        0 <= i < files.len() && 0 <= j < files[i].trait_impls@.len() && (#[trigger] files[i].trait_impls@[j]).trait_name@
            == name ==> impl_allows(inherent, files[i].trait_impls@[j])
}

/// A trait method of the same name does not compete with the inherent
/// method: it is not gated by `cfg`, has a recognized receiver, and is
/// probed at a later step, or at the same step for a trait with no
/// threatening impl.
pub open spec fn decl_allows(files: Seq<RustMethodFacts>, inherent: InherentMethodFact, decl: TraitMethodDeclFact) -> bool {
    !decl.cfg_gated && match (step_of(decl.receiver), step_of(inherent.receiver)) {
        (Some(d), Some(s)) => d > s || (d == s && impls_allow(files, inherent, decl.trait_name@)),
        _ => false,
    }
}

/// The inherent method wins method resolution at its own autoref step
/// against every in-crate trait method of the same name.
pub open spec fn inherent_wins_in(files: Seq<RustMethodFacts>, inherent: InherentMethodFact) -> bool {
    step_of(inherent.receiver) is Some && forall|i: int, j: int|
        0 <= i < files.len() && 0 <= j < files[i].trait_decls@.len() && (#[trigger] files[i].trait_decls@[j]).method_name@
            == inherent.method_name@ ==> decl_allows(files, inherent, files[i].trait_decls@[j])
}

/// Decides [`impl_allows`].
fn impl_allows_exec(inherent: &InherentMethodFact, imp: &TraitImplFact) -> (r: bool)
    ensures
        r == impl_allows(*inherent, *imp),
{
    match &imp.self_type {
        None => false,
        Some(n) => !str_eq(n.as_str(), inherent.self_type.as_str()) || (!imp.cfg_gated && str_eq(
            imp.bounds.as_str(),
            inherent.bounds.as_str(),
        )),
    }
}

/// Decides [`impls_allow`].
fn impls_allow_exec(files: &Vec<RustMethodFacts>, inherent: &InherentMethodFact, name: &str) -> (r: bool)
    ensures
        r == impls_allow(files@, *inherent, name@),
{
    let mut i: usize = 0;
    while i < files.len()
        invariant
            i <= files@.len(),
            forall|a: int, b: int|
                0 <= a < i && 0 <= b < files@[a].trait_impls@.len() && (#[trigger] files@[a].trait_impls@[b]).trait_name@
                    == name@ ==> impl_allows(*inherent, files@[a].trait_impls@[b]),
        decreases files@.len() - i,
    {
        let impls = &files[i].trait_impls;
        let mut j: usize = 0;
        while j < impls.len()
            invariant
                i < files@.len(),
                impls@ == files@[i as int].trait_impls@,
                j <= impls@.len(),
                forall|a: int, b: int|
                    0 <= a < i && 0 <= b < files@[a].trait_impls@.len() && (#[trigger] files@[a].trait_impls@[b]).trait_name@
                        == name@ ==> impl_allows(*inherent, files@[a].trait_impls@[b]),
                forall|b: int|
                    0 <= b < j && (#[trigger] files@[i as int].trait_impls@[b]).trait_name@ == name@ ==> impl_allows(
                        *inherent,
                        files@[i as int].trait_impls@[b],
                    ),
            decreases impls@.len() - j,
        {
            if str_eq(impls[j].trait_name.as_str(), name) && !impl_allows_exec(inherent, &impls[j]) {
                assert(files@[i as int].trait_impls@[j as int] == impls@[j as int]);
                return false;
            }
            j = j + 1;
        }
        i = i + 1;
    }
    true
}

/// Decides [`decl_allows`].
fn decl_allows_exec(files: &Vec<RustMethodFacts>, inherent: &InherentMethodFact, decl: &TraitMethodDeclFact) -> (r: bool)
    ensures
        r == decl_allows(files@, *inherent, *decl),
{
    if decl.cfg_gated {
        return false;
    }
    match (receiver_step_index(decl.receiver), receiver_step_index(inherent.receiver)) {
        (Some(d), Some(s)) => {
            if d > s {
                true
            } else if d < s {
                false
            } else {
                impls_allow_exec(files, inherent, decl.trait_name.as_str())
            }
        },
        _ => false,
    }
}

/// Decides [`inherent_wins_in`].
pub fn inherent_wins(files: &Vec<RustMethodFacts>, inherent: &InherentMethodFact) -> (r: bool)
    ensures
        r == inherent_wins_in(files@, *inherent),
{
    if receiver_step_index(inherent.receiver).is_none() {
        return false;
    }
    let mut i: usize = 0;
    while i < files.len()
        invariant
            i <= files@.len(),
            step_of(inherent.receiver) is Some,
            forall|a: int, b: int|
                0 <= a < i && 0 <= b < files@[a].trait_decls@.len() && (#[trigger] files@[a].trait_decls@[b]).method_name@
                    == inherent.method_name@ ==> decl_allows(files@, *inherent, files@[a].trait_decls@[b]),
        decreases files@.len() - i,
    {
        let decls = &files[i].trait_decls;
        let mut j: usize = 0;
        while j < decls.len()
            invariant
                i < files@.len(),
                decls@ == files@[i as int].trait_decls@,
                j <= decls@.len(),
                forall|a: int, b: int|
                    0 <= a < i && 0 <= b < files@[a].trait_decls@.len() && (#[trigger] files@[a].trait_decls@[b]).method_name@
                        == inherent.method_name@ ==> decl_allows(files@, *inherent, files@[a].trait_decls@[b]),
                forall|b: int|
                    0 <= b < j && (#[trigger] files@[i as int].trait_decls@[b]).method_name@ == inherent.method_name@
                        ==> decl_allows(files@, *inherent, files@[i as int].trait_decls@[b]),
            decreases decls@.len() - j,
        {
            if str_eq(decls[j].method_name.as_str(), inherent.method_name.as_str()) && !decl_allows_exec(
                files,
                inherent,
                &decls[j],
            ) {
                assert(files@[i as int].trait_decls@[j as int] == decls@[j as int]);
                return false;
            }
            j = j + 1;
        }
        i = i + 1;
    }
    true
}

// ---------------------------------------------------------------- the proof of a call

/// The file defines a type item named `t`.
pub open spec fn defines_type(facts: RustMethodFacts, t: Seq<char>) -> bool {
    exists|j: int| 0 <= j < facts.type_items@.len() && (#[trigger] facts.type_items@[j]).name@ == t
}

/// The file imports `t` by name from inside the crate.
pub open spec fn imports_in_crate(facts: RustMethodFacts, t: Seq<char>, package: Option<Seq<char>>) -> bool {
    exists|j: int|
        0 <= j < facts.named_imports@.len() && (#[trigger] facts.named_imports@[j]).local@ == t && in_crate(
            facts.named_imports@[j].first_segment@,
            package,
        )
}

/// The inherent method a call is proven to reach, by its graph node, or
/// none when any rule leaves the call unproven:
/// the caller's file has only in-crate globs and no unverifiable import;
/// the method is not one the prelude could supply; the receiver's
/// annotation names a bare type that the file defines or imports from the
/// crate, that no external import aliases, that is defined exactly once in
/// the crate and has no `Deref` impl; exactly one inherent method of that
/// name exists for it, public, free of `cfg`, generic over all the type's
/// parameters, with a recognized receiver and a known node; and it wins
/// against every trait method of the same name.
pub open spec fn proven_target(files: Seq<RustMethodFacts>, fi: int, ci: int, package: Option<Seq<char>>) -> Option<u64> {
    let facts = files[fi];
    let call = facts.candidate_calls@[ci];
    if !globs_in_crate(facts, package) || has_unverifiable_import(facts, package) || is_prelude_method(
        call.method_name@,
    ) {
        None
    } else {
        match call.annotated_type {
            None => None,
            Some(a) => match bare_type_name_of(a@) {
                None => None,
                Some(t) => if !(defines_type(facts, t) || imports_in_crate(facts, t, package)) || externally_aliased(
                    files,
                    t,
                    package,
                ) || crate_type_count(files, t) != 1 || has_deref(files, t) {
                    None
                } else {
                    let ps = inherent_positions(files, t, call.method_name@);
                    if ps.len() != 1 {
                        None
                    } else {
                        let inh = files[ps[0].0].inherent_methods@[ps[0].1];
                        if !inh.is_pub || inh.cfg_gated || !inh.generic_over_all_type_params || inh.receiver
                            == ReceiverKind::Unrecognized {
                            None
                        } else {
                            match inh.target_id {
                                None => None,
                                Some(id) => if inherent_wins_in(files, inh) {
                                    Some(id)
                                } else {
                                    None
                                },
                            }
                        }
                    }
                }
            },
        }
    }
}

/// Decides [`defines_type`].
fn file_defines_type(facts: &RustMethodFacts, t: &str) -> (r: bool)
    ensures
        r == defines_type(*facts, t@),
{
    let mut j: usize = 0;
    while j < facts.type_items.len()
        invariant
            j <= facts.type_items@.len(),
            forall|q: int| 0 <= q < j ==> (#[trigger] facts.type_items@[q]).name@ != t@,
        decreases facts.type_items@.len() - j,
    {
        if str_eq(facts.type_items[j].name.as_str(), t) {
            return true;
        }
        j = j + 1;
    }
    false
}

/// Decides [`imports_in_crate`].
fn file_imports_in_crate(facts: &RustMethodFacts, t: &str, package: Option<&str>) -> (r: bool)
    ensures
        r == imports_in_crate(*facts, t@, package_text(package)),
{
    let mut j: usize = 0;
    while j < facts.named_imports.len()
        invariant
            j <= facts.named_imports@.len(),
            forall|q: int|
                0 <= q < j ==> !((#[trigger] facts.named_imports@[q]).local@ == t@ && in_crate(
                    facts.named_imports@[q].first_segment@,
                    package_text(package),
                )),
        decreases facts.named_imports@.len() - j,
    {
        let imp = &facts.named_imports[j];
        if str_eq(imp.local.as_str(), t) && segment_in_crate(imp.first_segment.as_str(), package) {
            return true;
        }
        j = j + 1;
    }
    false
}

/// The inherent method that call `ci` of file `fi` is proven to reach.
pub fn proven_call_target(files: &Vec<RustMethodFacts>, fi: usize, ci: usize, package: Option<&str>) -> (r: Option<u64>)
    requires
        fi < files@.len(),
        ci < files@[fi as int].candidate_calls@.len(),
    ensures
        r == proven_target(files@, fi as int, ci as int, package_text(package)),
{
    let facts = &files[fi];
    let call = &facts.candidate_calls[ci];
    if !file_globs_are_in_crate(facts, package) || file_has_unverifiable_external_import(facts, package)
        || prelude_method(call.method_name.as_str()) {
        return None;
    }
    let annotated = match &call.annotated_type {
        None => {
            return None;
        },
        Some(a) => a,
    };
    let bare = match bare_type_name(annotated.as_str()) {
        None => {
            return None;
        },
        Some(b) => b,
    };
    let t = bare.as_str();
    if !(file_defines_type(facts, t) || file_imports_in_crate(facts, t, package)) {
        return None;
    }
    if is_externally_aliased(files, t, package) || !unique_type_item(files, t) || is_deref_type(files, t) {
        return None;
    }
    let ps = find_inherent(files, t, call.method_name.as_str());
    if ps.len() != 1 {
        return None;
    }
    proof {
        lemma_positions_valid(files@, t@, call.method_name@);
        assert(inherent_positions(files@, t@, call.method_name@)[0] == (ps@[0].0 as int, ps@[0].1 as int));
    }
    let inh = &files[ps[0].0].inherent_methods[ps[0].1];
    if !inh.is_pub || inh.cfg_gated || !inh.generic_over_all_type_params || inh.receiver == ReceiverKind::Unrecognized {
        return None;
    }
    match inh.target_id {
        None => None,
        Some(id) => if inherent_wins(files, inh) {
            Some(id)
        } else {
            None
        },
    }
}

/// A call proven to reach an inherent method: the file, the call among
/// the file's candidate calls, and the method's graph node.
#[derive(Debug, Clone, Copy, PartialEq, Eq, Structural)]
pub struct MethodUpgrade {
    pub file: usize,
    pub call: usize,
    pub target: u64,
}

/// `(f1, c1)` comes before `(f2, c2)`, file first.
pub open spec fn position_before(f1: int, c1: int, f2: int, c2: int) -> bool {
    f1 < f2 || (f1 == f2 && c1 < c2)
}

/// Every proven call of the crate, in file and call order, with its target.
pub fn method_call_upgrades(files: &Vec<RustMethodFacts>, package: Option<&str>) -> (r: Vec<MethodUpgrade>)
    ensures
        forall|k: int|
            0 <= k < r@.len() ==> {
                let u = #[trigger] r@[k];
                &&& u.file < files@.len()
                &&& u.call < files@[u.file as int].candidate_calls@.len()
                &&& proven_target(files@, u.file as int, u.call as int, package_text(package)) == Some(u.target)
            },
        forall|k1: int, k2: int|
            0 <= k1 < k2 < r@.len() ==> position_before(
                (#[trigger] r@[k1]).file as int,
                r@[k1].call as int,
                (#[trigger] r@[k2]).file as int,
                r@[k2].call as int,
            ),
        forall|fi: int, ci: int|
            0 <= fi < files@.len() && 0 <= ci < files@[fi].candidate_calls@.len() && (#[trigger] proven_target(
                files@,
                fi,
                ci,
                package_text(package),
            )) is Some ==> exists|k: int| 0 <= k < r@.len() && r@[k].file == fi && r@[k].call == ci,
{
    let mut out: Vec<MethodUpgrade> = Vec::new();
    let mut i: usize = 0;
    while i < files.len()
        invariant
            i <= files@.len(),
            forall|k: int|
                0 <= k < out@.len() ==> {
                    let u = #[trigger] out@[k];
                    &&& u.file < i
                    &&& u.call < files@[u.file as int].candidate_calls@.len()
                    &&& proven_target(files@, u.file as int, u.call as int, package_text(package)) == Some(u.target)
                },
            forall|k1: int, k2: int|
                0 <= k1 < k2 < out@.len() ==> position_before(
                    (#[trigger] out@[k1]).file as int,
                    out@[k1].call as int,
                    (#[trigger] out@[k2]).file as int,
                    out@[k2].call as int,
                ),
            forall|fi: int, ci: int|
                0 <= fi < i && 0 <= ci < files@[fi].candidate_calls@.len() && (#[trigger] proven_target(
                    files@,
                    fi,
                    ci,
                    package_text(package),
                )) is Some ==> exists|k: int| 0 <= k < out@.len() && out@[k].file == fi && out@[k].call == ci,
        decreases files@.len() - i,
    {
        let n = files[i].candidate_calls.len();
        let mut j: usize = 0;
        while j < n
            invariant
                i < files@.len(),
                n == files@[i as int].candidate_calls@.len(),
                j <= n,
                forall|k: int|
                    0 <= k < out@.len() ==> {
                        let u = #[trigger] out@[k];
                        &&& position_before(u.file as int, u.call as int, i as int, j as int)
                        &&& u.file <= i
                        &&& u.call < files@[u.file as int].candidate_calls@.len()
                        &&& proven_target(files@, u.file as int, u.call as int, package_text(package)) == Some(
                            u.target,
                        )
                    },
                forall|k1: int, k2: int|
                    0 <= k1 < k2 < out@.len() ==> position_before(
                        (#[trigger] out@[k1]).file as int,
                        out@[k1].call as int,
                        (#[trigger] out@[k2]).file as int,
                        out@[k2].call as int,
                    ),
                forall|fi: int, ci: int|
                    ((0 <= fi < i && 0 <= ci < files@[fi].candidate_calls@.len()) || (fi == i && 0 <= ci < j)) && (
                    #[trigger] proven_target(files@, fi, ci, package_text(package))) is Some ==> exists|k: int|
                        0 <= k < out@.len() && out@[k].file == fi && out@[k].call == ci,
            decreases n - j,
        {
            match proven_call_target(files, i, j, package) {
                Some(target) => {
                    let ghost before = out@;
                    out.push(MethodUpgrade { file: i, call: j, target });
                    assert forall|fi: int, ci: int|
                        ((0 <= fi < i && 0 <= ci < files@[fi].candidate_calls@.len()) || (fi == i && 0 <= ci < j
                            + 1)) && (#[trigger] proven_target(files@, fi, ci, package_text(package))) is Some implies exists|
                        k: int,
                    | 0 <= k < out@.len() && out@[k].file == fi && out@[k].call == ci by {
                        if fi == i && ci == j {
                            assert(out@[before.len() as int].file == fi && out@[before.len() as int].call == ci);
                        } else {
                            let k = choose|k: int| 0 <= k < before.len() && before[k].file == fi && before[k].call == ci;
                            assert(out@[k] == before[k]);
                        }
                    }
                },
                None => {},
            }
            j = j + 1;
        }
        i = i + 1;
    }
    out
}

/// A file that glob-imports from outside the crate gets none of its calls
/// proven: the glob could bring a competing trait into scope.
pub proof fn law_external_glob_blocks_every_call(
    files: Seq<RustMethodFacts>,
    fi: int,
    ci: int,
    package: Option<Seq<char>>,
    g: int,
)
    requires
        0 <= fi < files.len(),
        0 <= ci < files[fi].candidate_calls@.len(),
        0 <= g < files[fi].glob_imports@.len(),
        !in_crate(split_colons(files[fi].glob_imports@[g]@)[0], package),
    ensures
        proven_target(files, fi, ci, package) is None,
{
    assert(!globs_in_crate(files[fi], package));
}

/// Calls of methods the prelude could supply are never proven.
pub proof fn law_prelude_methods_are_never_proven(
    files: Seq<RustMethodFacts>,
    fi: int,
    ci: int,
    package: Option<Seq<char>>,
)
    requires
        0 <= fi < files.len(),
        0 <= ci < files[fi].candidate_calls@.len(),
        is_prelude_method(files[fi].candidate_calls@[ci].method_name@),
    ensures
        proven_target(files, fi, ci, package) is None,
{
}

/// A proven call reaches the single public, `cfg`-free inherent method of
/// its name whose node is the target, and every in-crate trait method of
/// that name is free of `cfg` and probed no earlier than it.
pub proof fn law_proven_calls_reach_a_winning_inherent_method(
    files: Seq<RustMethodFacts>,
    fi: int,
    ci: int,
    package: Option<Seq<char>>,
)
    requires
        0 <= fi < files.len(),
        0 <= ci < files[fi].candidate_calls@.len(),
        proven_target(files, fi, ci, package) is Some,
    ensures
        exists|a: int, b: int|
            0 <= a < files.len() && 0 <= b < files[a].inherent_methods@.len() && {
                let inh = #[trigger] files[a].inherent_methods@[b];
                &&& inh.method_name@ == files[fi].candidate_calls@[ci].method_name@
                &&& inh.target_id == proven_target(files, fi, ci, package)
                &&& inh.is_pub
                &&& !inh.cfg_gated
                &&& forall|i: int, j: int|
                    0 <= i < files.len() && 0 <= j < files[i].trait_decls@.len() && (
                    #[trigger] files[i].trait_decls@[j]).method_name@ == inh.method_name@ ==> {
                        &&& !files[i].trait_decls@[j].cfg_gated
                        &&& step_of(files[i].trait_decls@[j].receiver) is Some
                        &&& step_of(files[i].trait_decls@[j].receiver)->0 >= step_of(inh.receiver)->0
                    }
            },
{
    let facts = files[fi];
    let call = facts.candidate_calls@[ci];
    let t = bare_type_name_of(call.annotated_type->0@)->0;
    let ps = inherent_positions(files, t, call.method_name@);
    lemma_positions_valid(files, t, call.method_name@);
    let p = ps[0];
    let inh = files[p.0].inherent_methods@[p.1];
    assert forall|i: int, j: int|
        0 <= i < files.len() && 0 <= j < files[i].trait_decls@.len() && (
        #[trigger] files[i].trait_decls@[j]).method_name@ == inh.method_name@ implies {
            &&& !files[i].trait_decls@[j].cfg_gated
            &&& step_of(files[i].trait_decls@[j].receiver) is Some
            &&& step_of(files[i].trait_decls@[j].receiver)->0 >= step_of(inh.receiver)->0
        } by {
        assert(decl_allows(files, inh, files[i].trait_decls@[j]));
    }
    assert(files[p.0].inherent_methods@[p.1] == inh);
}

} // verus!
