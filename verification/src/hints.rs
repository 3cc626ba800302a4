//! Receiver hints for call resolution, copied under a node budget.
//!
//! A hint about where a call's receiver comes from can nest factories
//! inside factories (`make_a(make_b(make_c()))`); adversarial input can nest
//! them deeply. Copies of a hint are therefore bounded: at most
//! [`MAX_RECEIVER_HINT_NODES`] nodes are kept, in pre-order, and deeper
//! factories are dropped.

use vstd::prelude::*;

verus! {

/// The most nodes a copied receiver hint keeps.
pub const MAX_RECEIVER_HINT_NODES: usize = 16;

/// A callable used to infer the type of a local binding from its return
/// type, with the factories its own receiver came from.
#[derive(Debug)]
pub struct CallTargetRef {
    pub callee: String,
    pub qualifier: Option<String>,
    pub receiver_type: Option<String>,
    /// Factory that produced this factory call's receiver, when the receiver
    /// itself is not statically annotated.
    pub receiver_factory: Option<Box<CallTargetRef>>,
    /// Single nested result source for generic pass-through wrappers.
    pub fallback_type: Option<String>,
    pub fallback_factory: Option<Box<CallTargetRef>>,
}

/// A type named in source, with its generic arguments.
#[derive(Debug)]
pub struct RustTypeHint {
    pub name: String,
    pub generic_arguments: Vec<RustTypeHint>,
}

/// What is known about a binding's type.
#[derive(Debug)]
pub enum ReceiverHint {
    Type(RustTypeHint),
    ReturnOf(CallTargetRef),
    /// An explicit annotation exists but does not identify one safe owner.
    Unresolved,
}

/// A call target as text.
pub struct TargetView {
    pub callee: Seq<char>,
    pub qualifier: Option<Seq<char>>,
    pub receiver_type: Option<Seq<char>>,
    pub receiver_factory: Option<Box<TargetView>>,
    pub fallback_type: Option<Seq<char>>,
    pub fallback_factory: Option<Box<TargetView>>,
}

/// An optional text.
pub open spec fn opt_text(o: Option<String>) -> Option<Seq<char>> {
    match o {
        Some(s) => Some(s@),
        None => None,
    }
}

/// A call target as text.
pub open spec fn target_view(t: CallTargetRef) -> TargetView
    decreases t,
{
    TargetView {
        callee: t.callee@,
        qualifier: opt_text(t.qualifier),
        receiver_type: opt_text(t.receiver_type),
        receiver_factory: match t.receiver_factory {
            Some(f) => Some(Box::new(target_view(*f))),
            None => None,
        },
        fallback_type: opt_text(t.fallback_type),
        fallback_factory: match t.fallback_factory {
            Some(f) => Some(Box::new(target_view(*f))),
            None => None,
        },
    }
}

/// Copies `t` in pre-order (the node, then its receiver factory, then its
/// fallback factory) while `budget` nodes remain; returns the copy and the
/// budget left.
pub open spec fn clone_budget(t: TargetView, budget: nat) -> (Option<TargetView>, nat)
    decreases t,
{
    if budget == 0 {
        (None, 0)
    } else {
        let (rf, b2): (Option<TargetView>, nat) = match t.receiver_factory {
            Some(f) => clone_budget(*f, (budget - 1) as nat),
            None => (None, (budget - 1) as nat),
        };
        let (ff, b3): (Option<TargetView>, nat) = match t.fallback_factory {
            Some(f) => clone_budget(*f, b2),
            None => (None, b2),
        };
        (
            Some(
                TargetView {
                    callee: t.callee,
                    qualifier: t.qualifier,
                    receiver_type: t.receiver_type,
                    receiver_factory: match rf {
                        Some(v) => Some(Box::new(v)),
                        None => None,
                    },
                    fallback_type: t.fallback_type,
                    fallback_factory: match ff {
                        Some(v) => Some(Box::new(v)),
                        None => None,
                    },
                },
            ),
            b3,
        )
    }
}

/// The number of nodes of a call target.
pub open spec fn target_nodes(t: TargetView) -> nat
    decreases t,
{
    1 + match t.receiver_factory {
        Some(f) => target_nodes(*f),
        None => 0,
    } + match t.fallback_factory {
        Some(f) => target_nodes(*f),
        None => 0,
    }
}

/// The number of nodes of an optional call target.
pub open spec fn opt_nodes(t: Option<TargetView>) -> nat {
    match t {
        Some(v) => target_nodes(v),
        None => 0,
    }
}

/// A copy of an optional text.
fn clone_opt(o: &Option<String>) -> (r: Option<String>)
    ensures
        opt_text(r) == opt_text(*o),
{
    match o {
        Some(s) => Some(s.clone()),
        None => None,
    }
}

/// Copies `source` within `budget` nodes (see [`clone_budget`]).
fn clone_with_budget(source: &CallTargetRef, budget: &mut usize) -> (r: Option<CallTargetRef>)
    ensures
        (match r {
            Some(c) => Some(target_view(c)),
            None => None,
        }, *final(budget) as nat) == clone_budget(target_view(*source), *old(budget) as nat),
    decreases source,
{
    if *budget == 0 {
        return None;
    }
    *budget = *budget - 1;
    let receiver_factory = match &source.receiver_factory {
        Some(f) => match clone_with_budget(f, budget) {
            Some(c) => Some(Box::new(c)),
            None => None,
        },
        None => None,
    };
    let fallback_factory = match &source.fallback_factory {
        Some(f) => match clone_with_budget(f, budget) {
            Some(c) => Some(Box::new(c)),
            None => None,
        },
        None => None,
    };
    Some(
        CallTargetRef {
            callee: source.callee.clone(),
            qualifier: clone_opt(&source.qualifier),
            receiver_type: clone_opt(&source.receiver_type),
            receiver_factory,
            fallback_type: clone_opt(&source.fallback_type),
            fallback_factory,
        },
    )
}

impl CallTargetRef {
    /// A copy keeping at most [`MAX_RECEIVER_HINT_NODES`] nodes, in
    /// pre-order.
    pub fn bounded_clone(&self) -> (r: Self)
        ensures
            clone_budget(target_view(*self), 16).0 == Some(target_view(r)),
    {
        let mut budget: usize = MAX_RECEIVER_HINT_NODES;
        match clone_with_budget(self, &mut budget) {
            Some(c) => c,
            None => {
                assert(false);
                CallTargetRef {
                    callee: String::new(),
                    qualifier: None,
                    receiver_type: None,
                    receiver_factory: None,
                    fallback_type: None,
                    fallback_factory: None,
                }
            },
        }
    }
}

/// A type hint as text.
pub struct TypeView {
    pub name: Seq<char>,
    pub generic_arguments: Seq<TypeView>,
}

/// A type hint as text.
pub open spec fn type_view(h: RustTypeHint) -> TypeView
    decreases h, 0nat,
{
    TypeView { name: h.name@, generic_arguments: args_view(h.generic_arguments@, h.generic_arguments@.len()) }
}

/// The first `n` generic arguments as text.
pub open spec fn args_view(a: Seq<RustTypeHint>, n: nat) -> Seq<TypeView>
    decreases a, n,
{
    if n == 0 || n > a.len() {
        seq![]
    } else {
        args_view(a, (n - 1) as nat).push(type_view(a[n - 1]))
    }
}

pub proof fn lemma_args_view_push(a: Seq<RustTypeHint>, x: RustTypeHint, n: nat)
    requires
        n <= a.len(),
    ensures
        args_view(a.push(x), n) == args_view(a, n),
    decreases n,
{
    if n > 0 {
        lemma_args_view_push(a, x, (n - 1) as nat);
        assert(a.push(x)[n - 1] == a[n - 1]);
    }
}

impl RustTypeHint {
    /// A type hint with no generic arguments.
    pub fn named(name: &str) -> (r: Self)
        ensures
            r.name@ == name@,
            r.generic_arguments@.len() == 0,
    {
        RustTypeHint { name: name.to_string(), generic_arguments: Vec::new() }
    }
}

/// A full copy of a type hint.
/// The first `n` arguments' views, one for each argument.
pub proof fn lemma_args_view_index(a: Seq<RustTypeHint>, n: nat)
    requires
        n <= a.len(),
    ensures
        args_view(a, n).len() == n,
        forall|k: int| 0 <= k < n ==> #[trigger] args_view(a, n)[k] == type_view(a[k]),
    decreases n,
{
    if n > 0 {
        lemma_args_view_index(a, (n - 1) as nat);
    }
}

pub fn clone_type_hint(h: &RustTypeHint) -> (r: RustTypeHint)
    ensures
        type_view(r) == type_view(*h),
    decreases h,
{
    let mut args: Vec<RustTypeHint> = Vec::new();
    let mut i: usize = 0;
    while i < h.generic_arguments.len()
        invariant
            i <= h.generic_arguments@.len(),
            args@.len() == i,
            args_view(args@, i as nat) == args_view(h.generic_arguments@, i as nat),
        decreases h.generic_arguments@.len() - i,
    {
        assert(decreases_to!(h => h.generic_arguments));
        let c = clone_type_hint(&h.generic_arguments[i]);
        proof {
            lemma_args_view_push(args@, c, i as nat);
        }
        args.push(c);
        i = i + 1;
    }
    let r = RustTypeHint { name: h.name.clone(), generic_arguments: args };
    r
}

/// A receiver hint as text.
pub enum HintView {
    Type(TypeView),
    ReturnOf(TargetView),
    Unresolved,
}

/// A receiver hint as text.
pub open spec fn hint_view(h: ReceiverHint) -> HintView {
    match h {
        ReceiverHint::Type(t) => HintView::Type(type_view(t)),
        ReceiverHint::ReturnOf(f) => HintView::ReturnOf(target_view(f)),
        ReceiverHint::Unresolved => HintView::Unresolved,
    }
}

impl ReceiverHint {
    /// A copy whose factory chain, if any, is bounded like
    /// [`CallTargetRef::bounded_clone`].
    pub fn bounded_clone(&self) -> (r: Self)
        ensures
            match *self {
                ReceiverHint::Type(t) => hint_view(r) == HintView::Type(type_view(t)),
                ReceiverHint::ReturnOf(f) => r matches ReceiverHint::ReturnOf(g) && clone_budget(
                    target_view(f),
                    16,
                ).0 == Some(target_view(g)),
                ReceiverHint::Unresolved => r is Unresolved,
            },
    {
        match self {
            ReceiverHint::Type(t) => ReceiverHint::Type(clone_type_hint(t)),
            ReceiverHint::ReturnOf(f) => ReceiverHint::ReturnOf(f.bounded_clone()),
            ReceiverHint::Unresolved => ReceiverHint::Unresolved,
        }
    }
}

/// A budgeted copy has at most `budget` nodes, uses up exactly the nodes it
/// keeps, and is the whole tree when the tree fits.
pub proof fn law_clone_budget_bounds(t: TargetView, budget: nat)
    ensures
        opt_nodes(clone_budget(t, budget).0) + clone_budget(t, budget).1 == budget,
        target_nodes(t) <= budget ==> clone_budget(t, budget).0 == Some(t) && clone_budget(t, budget).1
            == budget - target_nodes(t),
    decreases t,
{
    if budget > 0 {
        let b1 = (budget - 1) as nat;
        match t.receiver_factory {
            Some(f) => law_clone_budget_bounds(*f, b1),
            None => {},
        }
        let b2 = match t.receiver_factory {
            Some(f) => clone_budget(*f, b1).1,
            None => b1,
        };
        match t.fallback_factory {
            Some(f) => law_clone_budget_bounds(*f, b2),
            None => {},
        }
    }
}

/// A full copy of a call target.
pub fn clone_target(t: &CallTargetRef) -> (r: CallTargetRef)
    ensures
        target_view(r) == target_view(*t),
    decreases t,
{
    let receiver_factory = match &t.receiver_factory {
        Some(f) => Some(Box::new(clone_target(f))),
        None => None,
    };
    let fallback_factory = match &t.fallback_factory {
        Some(f) => Some(Box::new(clone_target(f))),
        None => None,
    };
    CallTargetRef {
        callee: t.callee.clone(),
        qualifier: clone_opt(&t.qualifier),
        receiver_type: clone_opt(&t.receiver_type),
        receiver_factory,
        fallback_type: clone_opt(&t.fallback_type),
        fallback_factory,
    }
}

/// A full copy of a receiver hint.
pub fn clone_hint(h: &ReceiverHint) -> (r: ReceiverHint)
    ensures
        hint_view(r) == hint_view(*h),
{
    match h {
        ReceiverHint::Type(t) => ReceiverHint::Type(clone_type_hint(t)),
        ReceiverHint::ReturnOf(f) => ReceiverHint::ReturnOf(clone_target(f)),
        ReceiverHint::Unresolved => ReceiverHint::Unresolved,
    }
}

} // verus!
