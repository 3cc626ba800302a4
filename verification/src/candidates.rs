//! Choosing the function a call resolves to among the functions that share
//! its name: by the receiver's type or qualifier, by the caller's module,
//! by the factory that produced the receiver, or by an exact path. A choice
//! is only made when exactly one candidate fits; otherwise the call stays
//! unresolved.

use vstd::prelude::*;
use crate::aliases::{binary_target, rust_binary_target};
use crate::hints::CallTargetRef;
use crate::paths::{
    last_path_segment, last_path_segment_of, owner_tail_of, qualifier_hint_of, qualifier_matches_owner,
    qualifier_matches_owner_exactly, qualifier_tail, qualifier_tail_of,
};
use crate::rust_types::{
    direct_generic_argument, generic_params_of, generic_type_parameters, has_direct_generic_argument, outer_name_of,
    outer_type_name,
};
use crate::fields::texts;
use crate::strmap::{str_eq, StrMap};
use crate::text::ends_with;
use crate::words::{has_type_token, has_word, return_type_matches_owner, returns_owner};

verus! {

/// A function a call may resolve to.
#[derive(Debug, Clone)]
pub struct FunctionCandidate {
    /// The function's full path.
    pub path: String,
    pub file: Option<String>,
    /// The module of the file that defines it.
    pub source_module: String,
    /// The module or type that lexically owns it.
    pub owner: String,
    /// Its graph node.
    pub id: u64,
    pub return_type: Option<String>,
    pub type_parameters: Option<String>,
    pub first_parameter_type: Option<String>,
}

/// An optional text, by its contents.
pub open spec fn opt_view(o: Option<String>) -> Option<Seq<char>> {
    match o {
        Some(s) => Some(s@),
        None => None,
    }
}

/// A test a candidate passes or fails.
#[derive(Debug)]
pub enum CandidateFilter {
    /// Owned by exactly this owner.
    OwnerIs(String),
    /// The owner's bare type name is the qualifier's hint.
    OwnerExactly(String),
    /// The owner's bare type name ends with the qualifier's hint.
    OwnerSuffix(String),
    /// A free function of this module.
    ModuleFunction(String),
    /// Defined in this module.
    InModule(String),
    /// The return type names the owner.
    ReturnsOwner(String),
    /// Has exactly this path.
    PathIs(String),
    /// A `main` that is the entry point of some Cargo binary.
    Entrypoint,
    /// A `main` that is the entry point of this Cargo binary.
    EntrypointFor(String),
}

/// A candidate filter by the texts it holds.
pub enum FilterView {
    OwnerIs(Seq<char>),
    OwnerExactly(Seq<char>),
    OwnerSuffix(Seq<char>),
    ModuleFunction(Seq<char>),
    InModule(Seq<char>),
    ReturnsOwner(Seq<char>),
    PathIs(Seq<char>),
    Entrypoint,
    EntrypointFor(Seq<char>),
}

/// A filter by the texts it holds.
pub open spec fn filter_view(f: CandidateFilter) -> FilterView {
    match f {
        CandidateFilter::OwnerIs(x) => FilterView::OwnerIs(x@),
        CandidateFilter::OwnerExactly(x) => FilterView::OwnerExactly(x@),
        CandidateFilter::OwnerSuffix(x) => FilterView::OwnerSuffix(x@),
        CandidateFilter::ModuleFunction(x) => FilterView::ModuleFunction(x@),
        CandidateFilter::InModule(x) => FilterView::InModule(x@),
        CandidateFilter::ReturnsOwner(x) => FilterView::ReturnsOwner(x@),
        CandidateFilter::PathIs(x) => FilterView::PathIs(x@),
        CandidateFilter::Entrypoint => FilterView::Entrypoint,
        CandidateFilter::EntrypointFor(x) => FilterView::EntrypointFor(x@),
    }
}

/// The candidate is a crate's top-level `main` with a binary target.
pub open spec fn entrypoint_target(c: FunctionCandidate, bins: Map<Seq<char>, String>) -> Option<Seq<char>> {
    if c.owner@ == c.source_module@ && "::main"@.is_suffix_of(c.path@) {
        binary_target(opt_view(c.file), bins)
    } else {
        None
    }
}

/// Whether the candidate passes the filter.
pub open spec fn passes(c: FunctionCandidate, f: FilterView, bins: Map<Seq<char>, String>) -> bool {
    match f {
        FilterView::OwnerIs(o) => c.owner@ == o,
        FilterView::OwnerExactly(q) => qualifier_hint_of(q) matches Some(h) && owner_tail_of(c.owner@) == h,
        FilterView::OwnerSuffix(q) => qualifier_hint_of(q) matches Some(h) && h.is_suffix_of(owner_tail_of(c.owner@)),
        FilterView::ModuleFunction(m) => c.source_module@ == m && c.owner@ == c.source_module@,
        FilterView::InModule(m) => c.source_module@ == m,
        FilterView::ReturnsOwner(t) => returns_owner(t, c.owner@),
        FilterView::PathIs(t) => c.path@ == t,
        FilterView::Entrypoint => entrypoint_target(c, bins) is Some,
        FilterView::EntrypointFor(t) => entrypoint_target(c, bins) == Some(t),
    }
}

/// The only position whose candidate passes the filter, when exactly one
/// does.
pub open spec fn only_passing(
    cs: Seq<FunctionCandidate>,
    f: FilterView,
    bins: Map<Seq<char>, String>,
) -> Option<int> {
    if exists|i: int|
        0 <= i < cs.len() && passes(cs[i], f, bins) && forall|j: int|
            0 <= j < cs.len() && j != i ==> !passes(#[trigger] cs[j], f, bins) {
        Some(
            choose|i: int|
                0 <= i < cs.len() && passes(cs[i], f, bins) && forall|j: int|
                    0 <= j < cs.len() && j != i ==> !passes(#[trigger] cs[j], f, bins),
        )
    } else {
        None
    }
}

/// Decides [`passes`].
fn passes_filter(c: &FunctionCandidate, f: &CandidateFilter, bins: &StrMap<String>) -> (r: bool)
    ensures
        r == passes(*c, filter_view(*f), bins.view()),
{
    match f {
        CandidateFilter::OwnerIs(o) => str_eq(c.owner.as_str(), o.as_str()),
        CandidateFilter::OwnerExactly(q) => qualifier_matches_owner_exactly(q.as_str(), c.owner.as_str()),
        CandidateFilter::OwnerSuffix(q) => qualifier_matches_owner(q.as_str(), c.owner.as_str()),
        CandidateFilter::ModuleFunction(m) => str_eq(c.source_module.as_str(), m.as_str()) && str_eq(
            c.owner.as_str(),
            c.source_module.as_str(),
        ),
        CandidateFilter::InModule(m) => str_eq(c.source_module.as_str(), m.as_str()),
        CandidateFilter::ReturnsOwner(t) => return_type_matches_owner(t.as_str(), c.owner.as_str()),
        CandidateFilter::PathIs(t) => str_eq(c.path.as_str(), t.as_str()),
        CandidateFilter::Entrypoint => match entrypoint_of(c, bins) {
            Some(_) => true,
            None => false,
        },
        CandidateFilter::EntrypointFor(t) => match entrypoint_of(c, bins) {
            Some(x) => str_eq(x.as_str(), t.as_str()),
            None => false,
        },
    }
}

/// Computes [`entrypoint_target`].
fn entrypoint_of(c: &FunctionCandidate, bins: &StrMap<String>) -> (r: Option<String>)
    ensures
        opt_view(r) == entrypoint_target(*c, bins.view()),
{
    if str_eq(c.owner.as_str(), c.source_module.as_str()) && ends_with(c.path.as_str(), "::main") {
        match &c.file {
            Some(f) => rust_binary_target(Some(f.as_str()), bins),
            None => rust_binary_target(None, bins),
        }
    } else {
        None
    }
}

/// Finds [`only_passing`].
pub fn only_candidate(cs: &Vec<FunctionCandidate>, f: &CandidateFilter, bins: &StrMap<String>) -> (r: Option<usize>)
    ensures
        match r {
            Some(i) => only_passing(cs@, filter_view(*f), bins.view()) == Some(i as int) && i < cs@.len(),
            None => only_passing(cs@, filter_view(*f), bins.view()) is None,
        },
{
    let mut i: usize = 0;
    while i < cs.len() && !passes_filter(&cs[i], f, bins)
        invariant
            i <= cs@.len(),
            forall|j: int| 0 <= j < i ==> !passes(#[trigger] cs@[j], filter_view(*f), bins.view()),
        decreases cs@.len() - i,
    {
        i = i + 1;
    }
    if i == cs.len() {
        return None;
    }
    let mut j: usize = i + 1;
    while j < cs.len()
        invariant
            i < j <= cs@.len(),
            passes(cs@[i as int], filter_view(*f), bins.view()),
            forall|k: int| 0 <= k < i ==> !passes(#[trigger] cs@[k], filter_view(*f), bins.view()),
            forall|k: int| i < k < j ==> !passes(#[trigger] cs@[k], filter_view(*f), bins.view()),
        decreases cs@.len() - j,
    {
        if passes_filter(&cs[j], f, bins) {
            assert(!(exists|x: int|
                0 <= x < cs@.len() && passes(cs@[x], filter_view(*f), bins.view()) && forall|y: int|
                    0 <= y < cs@.len() && y != x ==> !passes(#[trigger] cs@[y], filter_view(*f), bins.view()))) by {
                assert forall|x: int|
                    0 <= x < cs@.len() && passes(cs@[x], filter_view(*f), bins.view()) implies !(forall|y: int|
                    0 <= y < cs@.len() && y != x ==> !passes(#[trigger] cs@[y], filter_view(*f), bins.view())) by {
                    if x != i as int {
                        assert(passes(cs@[i as int], filter_view(*f), bins.view()));
                    } else {
                        assert(passes(cs@[j as int], filter_view(*f), bins.view()));
                    }
                }
            }
            return None;
        }
        j = j + 1;
    }
    let ghost w = i as int;
    assert(0 <= w < cs@.len() && passes(cs@[w], filter_view(*f), bins.view()) && forall|y: int|
        0 <= y < cs@.len() && y != w ==> !passes(#[trigger] cs@[y], filter_view(*f), bins.view()));
    proof {
        let c = choose|x: int|
            0 <= x < cs@.len() && passes(cs@[x], filter_view(*f), bins.view()) && forall|y: int|
                0 <= y < cs@.len() && y != x ==> !passes(#[trigger] cs@[y], filter_view(*f), bins.view());
        if c != w {
            assert(!passes(cs@[c], filter_view(*f), bins.view()));
        }
    }
    Some(i)
}

// ---------------------------------------------------------------- selection

/// The qualifier names the caller's own type: `self`, `Self` or `cls`.
pub open spec fn is_self_word(t: Seq<char>) -> bool {
    t == "self"@ || t == "Self"@ || t == "cls"@
}

/// The first choice, else the second.
pub open spec fn either(a: Option<int>, b: Option<int>) -> Option<int> {
    match a {
        Some(_) => a,
        None => b,
    }
}

/// The candidate at a chosen position.
pub open spec fn chosen(cs: Seq<FunctionCandidate>, i: Option<int>) -> Option<FunctionCandidate> {
    match i {
        Some(k) => Some(cs[k]),
        None => None,
    }
}

/// Which candidate a call resolves to. A bare call shadowed by a local
/// resolves to none; a bare call prefers a free function of the caller's
/// module, then any function of that module, then a candidate that is the
/// only one. A call through `self`, `Self` or `cls` needs a unique function
/// of the caller's owner; another qualified call needs the receiver's type
/// (or a qualifier allowed to stand for it) and prefers an owner named
/// exactly by it over one whose name merely ends with it.
pub open spec fn selected(
    cs: Seq<FunctionCandidate>,
    module: Seq<char>,
    owner: Seq<char>,
    qualifier: Option<Seq<char>>,
    receiver_type: Option<Seq<char>>,
    fallback: bool,
    shadowed: bool,
) -> Option<int> {
    let none = Map::<Seq<char>, String>::empty();
    match qualifier {
        None => if shadowed {
            None
        } else {
            either(
                only_passing(cs, FilterView::ModuleFunction(module), none),
                either(
                    only_passing(cs, FilterView::InModule(module), none),
                    if cs.len() == 1 {
                        Some(0)
                    } else {
                        None
                    },
                ),
            )
        },
        Some(q) => if is_self_word(qualifier_tail_of(q)) {
            only_passing(cs, FilterView::OwnerIs(owner), none)
        } else if receiver_type is None && !fallback {
            None
        } else {
            let hint = match receiver_type {
                Some(r) => r,
                None => q,
            };
            either(
                only_passing(cs, FilterView::OwnerExactly(hint), none),
                only_passing(cs, FilterView::OwnerSuffix(hint), none),
            )
        },
    }
}

/// Chooses the candidate a call resolves to, as [`selected`] says.
pub fn select_candidate<'a>(
    candidates: &'a Vec<FunctionCandidate>,
    caller_source_module: &str,
    caller_owner: &str,
    qualifier: Option<&str>,
    receiver_type: Option<&str>,
    qualifier_owner_fallback: bool,
    shadowed_by_local: bool,
) -> (r: Option<&'a FunctionCandidate>)
    ensures
        opt_candidate(r) == chosen(
            candidates@,
            selected(
                candidates@,
                caller_source_module@,
                caller_owner@,
                match qualifier {
                    Some(q) => Some(q@),
                    None => None,
                },
                match receiver_type {
                    Some(t) => Some(t@),
                    None => None,
                },
                qualifier_owner_fallback,
                shadowed_by_local,
            ),
        ),
{
    let none: StrMap<String> = StrMap::new();
    match qualifier {
        None => {
            if shadowed_by_local {
                return None;
            }
            let f = CandidateFilter::ModuleFunction(caller_source_module.to_owned());
            match only_candidate(candidates, &f, &none) {
                Some(i) => return Some(&candidates[i]),
                None => {},
            }
            let f = CandidateFilter::InModule(caller_source_module.to_owned());
            match only_candidate(candidates, &f, &none) {
                Some(i) => return Some(&candidates[i]),
                None => {},
            }
            if candidates.len() == 1 {
                Some(&candidates[0])
            } else {
                None
            }
        },
        Some(q) => {
            let tail = qualifier_tail(q);
            if str_eq(tail.as_str(), "self") || str_eq(tail.as_str(), "Self") || str_eq(tail.as_str(), "cls") {
                let f = CandidateFilter::OwnerIs(caller_owner.to_owned());
                return match only_candidate(candidates, &f, &none) {
                    Some(i) => Some(&candidates[i]),
                    None => None,
                };
            }
            if receiver_type.is_none() && !qualifier_owner_fallback {
                return None;
            }
            let hint = match receiver_type {
                Some(t) => t,
                None => q,
            };
            let f = CandidateFilter::OwnerExactly(hint.to_owned());
            match only_candidate(candidates, &f, &none) {
                Some(i) => return Some(&candidates[i]),
                None => {},
            }
            let f = CandidateFilter::OwnerSuffix(hint.to_owned());
            match only_candidate(candidates, &f, &none) {
                Some(i) => Some(&candidates[i]),
                None => None,
            }
        },
    }
}

/// A producer that passes a generic type through: its first parameter and
/// its return type share their outer type and both take one of its type
/// parameters directly as an argument.
pub open spec fn passes_generic(c: FunctionCandidate) -> bool {
    match (c.type_parameters, c.first_parameter_type, c.return_type) {
        (Some(tp), Some(p), Some(rt)) => outer_name_of(p@) == outer_name_of(rt@) && exists|i: int|
            0 <= i < generic_params_of(tp@).len() && direct_generic_argument(p@, #[trigger] generic_params_of(tp@)[i])
                && direct_generic_argument(rt@, generic_params_of(tp@)[i]),
        _ => false,
    }
}

/// Decides [`passes_generic`].
#[verifier::loop_isolation(false)]
pub fn passes_generic_type(candidate: &FunctionCandidate) -> (r: bool)
    ensures
        r == passes_generic(*candidate),
{
    let (tp, p, rt) = match (&candidate.type_parameters, &candidate.first_parameter_type, &candidate.return_type) {
        (Some(tp), Some(p), Some(rt)) => (tp, p, rt),
        _ => return false,
    };
    let a = outer_type_name(p.as_str());
    let b = outer_type_name(rt.as_str());
    let same = match (&a, &b) {
        (Some(x), Some(y)) => str_eq(x.as_str(), y.as_str()),
        (None, None) => true,
        _ => false,
    };
    if !same {
        return false;
    }
    let gs = generic_type_parameters(tp.as_str());
    let mut i: usize = 0;
    while i < gs.len()
        invariant
            i <= gs@.len(),
            texts(gs@) == generic_params_of(tp@),
            forall|j: int|
                0 <= j < i ==> !(direct_generic_argument(p@, #[trigger] generic_params_of(tp@)[j])
                    && direct_generic_argument(rt@, generic_params_of(tp@)[j])),
        decreases gs@.len() - i,
    {
        assert(texts(gs@)[i as int] == gs@[i as int]@);
        if has_direct_generic_argument(p.as_str(), gs[i].as_str()) && has_direct_generic_argument(
            rt.as_str(),
            gs[i].as_str(),
        ) {
            assert(direct_generic_argument(p@, generic_params_of(tp@)[i as int]));
            return true;
        }
        i = i + 1;
    }
    false
}

/// The function a factory call resolves to among the functions of its
/// name: through its own receiver's factory when it has one, else as a
/// qualified or bare call whose qualifier may stand for the receiver.
pub open spec fn factory_choice(
    f: CallTargetRef,
    by_name: Map<Seq<char>, Vec<FunctionCandidate>>,
    module: Seq<char>,
    owner: Seq<char>,
) -> Option<FunctionCandidate>
    decreases f, 0nat,
{
    if !by_name.contains_key(f.callee@) {
        None
    } else {
        let cs = by_name[f.callee@]@;
        match f.receiver_factory {
            Some(rf) => receiver_choice(*rf, cs, by_name, module, owner),
            None => chosen(cs, selected(cs, module, owner, opt_view(f.qualifier), opt_view(f.receiver_type), true, false)),
        }
    }
}

/// The candidate among `cs` whose owner is the type that the factory `f`
/// returns: by `Self` or by name; for a producer that passes a generic
/// type through, by the factory's fallback type and then its fallback
/// factory.
pub open spec fn receiver_choice(
    f: CallTargetRef,
    cs: Seq<FunctionCandidate>,
    by_name: Map<Seq<char>, Vec<FunctionCandidate>>,
    module: Seq<char>,
    owner: Seq<char>,
) -> Option<FunctionCandidate>
    decreases f, 1nat,
{
    let none = Map::<Seq<char>, String>::empty();
    match factory_choice(f, by_name, module, owner) {
        None => None,
        Some(producer) => match producer.return_type {
            None => None,
            Some(rt) => {
                let direct = if has_word(rt@, "Self"@) {
                    only_passing(cs, FilterView::OwnerIs(producer.owner@), none)
                } else {
                    only_passing(cs, FilterView::ReturnsOwner(rt@), none)
                };
                if direct is Some || !passes_generic(producer) {
                    chosen(cs, direct)
                } else {
                    let via = match f.fallback_type {
                        Some(ft) => only_passing(cs, FilterView::ReturnsOwner(ft@), none),
                        None => None,
                    };
                    match via {
                        Some(i) => Some(cs[i]),
                        None => match f.fallback_factory {
                            Some(ff) => receiver_choice(*ff, cs, by_name, module, owner),
                            None => None,
                        },
                    }
                }
            },
        },
    }
}

/// An optional candidate, by value.
pub open spec fn opt_candidate(r: Option<&FunctionCandidate>) -> Option<FunctionCandidate> {
    match r {
        Some(c) => Some(*c),
        None => None,
    }
}

/// Resolves a factory call, as [`factory_choice`] says.
pub fn factory_candidate<'a>(
    factory: &CallTargetRef,
    by_name: &'a StrMap<Vec<FunctionCandidate>>,
    caller_source_module: &str,
    caller_owner: &str,
) -> (r: Option<&'a FunctionCandidate>)
    ensures
        opt_candidate(r) == factory_choice(*factory, by_name.view(), caller_source_module@, caller_owner@),
    decreases factory, 0nat,
{
    let candidates = match by_name.get(factory.callee.as_str()) {
        Some(cs) => cs,
        None => return None,
    };
    match &factory.receiver_factory {
        Some(rf) => resolve_factory_receiver(rf, candidates, by_name, caller_source_module, caller_owner),
        None => {
            let q: Option<&str> = match &factory.qualifier {
                Some(q) => Some(q.as_str()),
                None => None,
            };
            let t: Option<&str> = match &factory.receiver_type {
                Some(t) => Some(t.as_str()),
                None => None,
            };
            select_candidate(candidates, caller_source_module, caller_owner, q, t, true, false)
        },
    }
}

/// Resolves a call on a receiver made by a factory, as
/// [`receiver_choice`] says.
pub fn resolve_factory_receiver<'a>(
    factory: &CallTargetRef,
    candidates: &'a Vec<FunctionCandidate>,
    by_name: &'a StrMap<Vec<FunctionCandidate>>,
    caller_source_module: &str,
    caller_owner: &str,
) -> (r: Option<&'a FunctionCandidate>)
    ensures
        opt_candidate(r) == receiver_choice(
            *factory,
            candidates@,
            by_name.view(),
            caller_source_module@,
            caller_owner@,
        ),
    decreases factory, 1nat,
{
    let none: StrMap<String> = StrMap::new();
    let producer = match factory_candidate(factory, by_name, caller_source_module, caller_owner) {
        Some(p) => p,
        None => return None,
    };
    let rt = match &producer.return_type {
        Some(rt) => rt,
        None => return None,
    };
    let filter = if has_type_token(rt.as_str(), "Self") {
        CandidateFilter::OwnerIs(producer.owner.clone())
    } else {
        CandidateFilter::ReturnsOwner(rt.clone())
    };
    let direct = only_candidate(candidates, &filter, &none);
    if direct.is_some() || !passes_generic_type(producer) {
        return match direct {
            Some(i) => Some(&candidates[i]),
            None => None,
        };
    }
    match &factory.fallback_type {
        Some(ft) => {
            let f = CandidateFilter::ReturnsOwner(ft.clone());
            match only_candidate(candidates, &f, &none) {
                Some(i) => return Some(&candidates[i]),
                None => {},
            }
        },
        None => {},
    }
    match &factory.fallback_factory {
        Some(ff) => resolve_factory_receiver(ff, candidates, by_name, caller_source_module, caller_owner),
        None => None,
    }
}

/// The function with exactly the given path, when exactly one function of
/// its last segment's name has it.
pub open spec fn exact_path_choice(target: Seq<char>, by_name: Map<Seq<char>, Vec<FunctionCandidate>>) -> Option<
    FunctionCandidate,
> {
    let key = last_path_segment_of(target);
    if !by_name.contains_key(key) {
        None
    } else {
        chosen(by_name[key]@, only_passing(by_name[key]@, FilterView::PathIs(target), Map::empty()))
    }
}

/// Resolves a call to an exact path, as [`exact_path_choice`] says.
pub fn select_exact_path<'a>(target: &str, by_name: &'a StrMap<Vec<FunctionCandidate>>) -> (r: Option<
    &'a FunctionCandidate,
>)
    ensures
        opt_candidate(r) == exact_path_choice(target@, by_name.view()),
{
    let none: StrMap<String> = StrMap::new();
    let key = last_path_segment(target);
    let candidates = match by_name.get(key.as_str()) {
        Some(cs) => cs,
        None => return None,
    };
    let f = CandidateFilter::PathIs(target.to_owned());
    match only_candidate(candidates, &f, &none) {
        Some(i) => Some(&candidates[i]),
        None => None,
    }
}

/// The crate entry point a subprocess launch of binary `target` runs: the
/// only `main` of that binary, else the only `main` of any binary.
pub open spec fn entrypoint_choice(cs: Seq<FunctionCandidate>, target: Seq<char>, bins: Map<Seq<char>, String>) -> Option<
    int,
> {
    either(
        only_passing(cs, FilterView::EntrypointFor(target), bins),
        only_passing(cs, FilterView::Entrypoint, bins),
    )
}

/// Resolves a subprocess launch, as [`entrypoint_choice`] says.
pub fn select_process_entrypoint<'a>(
    candidates: &'a Vec<FunctionCandidate>,
    target: &str,
    bin_targets: &StrMap<String>,
) -> (r: Option<&'a FunctionCandidate>)
    ensures
        opt_candidate(r) == chosen(candidates@, entrypoint_choice(candidates@, target@, bin_targets.view())),
{
    let f = CandidateFilter::EntrypointFor(target.to_owned());
    match only_candidate(candidates, &f, bin_targets) {
        Some(i) => return Some(&candidates[i]),
        None => {},
    }
    match only_candidate(candidates, &CandidateFilter::Entrypoint, bin_targets) {
        Some(i) => Some(&candidates[i]),
        None => None,
    }
}

/// `Self` names the caller's own type exactly as `self` (and `cls`) do: a
/// call whose qualifier ends in `Self` resolves to the same candidate as
/// one whose qualifier ends in `self` or `cls`, whatever the receiver type
/// or fallback, and that candidate is the only one the caller's owner owns.
pub proof fn law_self_type_names_the_callers_owner(
    cs: Seq<FunctionCandidate>,
    module: Seq<char>,
    owner: Seq<char>,
    upper: Seq<char>,
    lower: Seq<char>,
    receiver_type: Option<Seq<char>>,
    other_receiver: Option<Seq<char>>,
    fallback: bool,
    other_fallback: bool,
    shadowed: bool,
)
    requires
        qualifier_tail_of(upper) == "Self"@,
        qualifier_tail_of(lower) == "self"@ || qualifier_tail_of(lower) == "cls"@,
    ensures
        selected(cs, module, owner, Some(upper), receiver_type, fallback, shadowed) == selected(
            cs,
            module,
            owner,
            Some(lower),
            other_receiver,
            other_fallback,
            shadowed,
        ),
        selected(cs, module, owner, Some(upper), receiver_type, fallback, shadowed) matches Some(i) ==> cs[i].owner@
            == owner && forall|j: int| 0 <= j < cs.len() && j != i ==> #[trigger] cs[j].owner@ != owner,
{
    let none = Map::<Seq<char>, String>::empty();
    reveal_strlit("Self");
    reveal_strlit("self");
    reveal_strlit("cls");
    let f = FilterView::OwnerIs(owner);
    if only_passing(cs, f, none) is Some {
        let i = only_passing(cs, f, none)->0;
        assert(passes(cs[i], f, none));
        assert forall|j: int| 0 <= j < cs.len() && j != i implies #[trigger] cs[j].owner@ != owner by {
            assert(!passes(cs[j], f, none));
        }
    }
}

} // verus!
