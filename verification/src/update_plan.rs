//! The first stage of an incremental update: which files a batch of edits
//! dirties, which files exist afterwards, whether the whole project must be
//! rebuilt and why, and which files are parsed again or reused.

use vstd::prelude::*;
use crate::sources::{normalize_source_path, normalized_source, FileChange, FullRebuildReason, UpdateError};
use crate::strmap::StrMap;

verus! {

/// The outcome of planning an update.
#[derive(Debug)]
pub struct UpdatePlan {
    /// Each normalized changed path with its last new source (none for a
    /// deletion).
    pub dirty: StrMap<Option<String>>,
    /// The source files after the batch.
    pub after: StrMap<bool>,
    /// Every file before or after the batch: all are re-resolved.
    pub scope: StrMap<bool>,
    /// Why the whole project is rebuilt, in declaration order, each once.
    pub reasons: Vec<FullRebuildReason>,
    /// Files whose cached extraction is kept, in ascending order.
    pub reused: Vec<String>,
    /// Files parsed again, in ascending order.
    pub parsed: Vec<String>,
}

/// An optional text.
pub open spec fn opt_text(s: Option<String>) -> Option<Seq<char>> {
    match s {
        Some(t) => Some(t@),
        None => None,
    }
}

/// The first change from position `i` on whose path is not a supported
/// project-relative source path.
pub open spec fn first_unsupported(changes: Seq<FileChange>, i: int) -> Option<int>
    decreases changes.len() - i,
{
    if i < 0 || i >= changes.len() {
        None
    } else if normalized_source(changes[i].path@) is None {
        Some(i)
    } else {
        first_unsupported(changes, i + 1)
    }
}

/// The dirty files after the first `k` changes: the last change to a
/// normalized path wins.
pub open spec fn dirty_of(changes: Seq<FileChange>, k: int) -> Map<Seq<char>, Option<Seq<char>>>
    decreases k,
{
    if k <= 0 || k > changes.len() {
        Map::empty()
    } else {
        dirty_of(changes, k - 1).insert(
            normalized_source(changes[k - 1].path@)->0,
            opt_text(changes[k - 1].source),
        )
    }
}

/// The cached files.
pub open spec fn before_of(cached: Seq<String>) -> Set<Seq<char>> {
    Set::new(|p: Seq<char>| exists|i: int| 0 <= i < cached.len() && cached[i]@ == p)
}

/// The files after the batch: a dirty path exists when it has a source,
/// any other when it was cached.
pub open spec fn after_of(before: Set<Seq<char>>, dirty: Map<Seq<char>, Option<Seq<char>>>) -> Set<Seq<char>> {
    Set::new(
        |p: Seq<char>|
            if dirty.contains_key(p) {
                dirty[p] is Some
            } else {
                before.contains(p)
            },
    )
}

/// Twice `d`, saturated at the largest `usize`.
pub open spec fn doubled(d: nat) -> nat {
    if 2 * d > usize::MAX {
        usize::MAX as nat
    } else {
        2 * d
    }
}

/// Whether `x` is a reason to rebuild everything: a structural reason the
/// caller gives, a changed configuration, an inconsistent cache, or a
/// dirty set larger than half of the larger of the file sets.
pub open spec fn reason_holds(
    x: FullRebuildReason,
    structural: Seq<FullRebuildReason>,
    configuration_changed: bool,
    cache_consistent: bool,
    dirty: nat,
    before: nat,
    after: nat,
) -> bool {
    ||| structural.contains(x)
    ||| (x == FullRebuildReason::ConfigurationChanged && configuration_changed)
    ||| (x == FullRebuildReason::CacheInconsistent && !cache_consistent)
    ||| (x == FullRebuildReason::DirtySetExceedsHalf && doubled(dirty) > if before >= after {
        before
    } else {
        after
    })
}

/// Every reason, in declaration order.
pub open spec fn all_reasons() -> Seq<FullRebuildReason> {
    seq![
        FullRebuildReason::OwnershipChanged,
        FullRebuildReason::ConfigurationChanged,
        FullRebuildReason::UncertainEventMapping,
        FullRebuildReason::CacheInconsistent,
        FullRebuildReason::DirtySetExceedsHalf,
    ]
}

/// The reasons among the first `k` of [`all_reasons`] that hold.
pub open spec fn reasons_upto(
    k: int,
    structural: Seq<FullRebuildReason>,
    configuration_changed: bool,
    cache_consistent: bool,
    dirty: nat,
    before: nat,
    after: nat,
) -> Seq<FullRebuildReason>
    decreases k,
{
    if k <= 0 || k > 5 {
        seq![]
    } else {
        let earlier = reasons_upto(k - 1, structural, configuration_changed, cache_consistent, dirty, before, after);
        if reason_holds(all_reasons()[k - 1], structural, configuration_changed, cache_consistent, dirty, before, after) {
            earlier.push(all_reasons()[k - 1])
        } else {
            earlier
        }
    }
}

/// The paths among `ks` that are reused (when `reuse` is true) or parsed
/// (when false): with no reason to rebuild, a path that is not dirty is
/// reused; every other path is parsed.
pub open spec fn split_paths(
    ks: Seq<Seq<char>>,
    no_reasons: bool,
    dirty: Map<Seq<char>, Option<Seq<char>>>,
    reuse: bool,
) -> Seq<Seq<char>>
    decreases ks.len(),
{
    if ks.len() == 0 {
        seq![]
    } else {
        let earlier = split_paths(ks.drop_last(), no_reasons, dirty, reuse);
        if (no_reasons && !dirty.contains_key(ks.last())) == reuse {
            earlier.push(ks.last())
        } else {
            earlier
        }
    }
}

/// The paths of a list of texts.
pub open spec fn texts(v: Seq<String>) -> Seq<Seq<char>> {
    v.map_values(|s: String| s@)
}

/// The keys of a map, ascending.
pub open spec fn keys_of(m: StrMap<bool>) -> Seq<Seq<char>> {
    m.pairs().map_values(|p: (Seq<char>, bool)| p.0)
}

/// A copy of an optional text.
fn copy_opt(s: &Option<String>) -> (r: Option<String>)
    ensures
        opt_text(r) == opt_text(*s),
{
    match s {
        Some(t) => Some(t.clone()),
        None => None,
    }
}

proof fn lemma_texts_push(v: Seq<String>, s: String)
    ensures
        texts(v.push(s)) == texts(v).push(s@),
{
    assert(texts(v.push(s)) =~= texts(v).push(s@));
}

/// Whether `structural` holds `x`.
fn lists_reason(structural: &Vec<FullRebuildReason>, x: FullRebuildReason) -> (r: bool)
    ensures
        r == structural@.contains(x),
{
    let mut i: usize = 0;
    while i < structural.len()
        invariant
            i <= structural@.len(),
            forall|j: int| 0 <= j < i ==> structural@[j] != x,
        decreases structural@.len() - i,
    {
        if structural[i] == x {
            assert(structural@[i as int] == x);
            return true;
        }
        i = i + 1;
    }
    false
}

/// Plans an incremental update of the source files `cached` by a batch of
/// `changes`: refuses the batch at its first unsupported path (the error
/// carries the path as given); otherwise the dirty files, the files
/// afterwards, the files to re-resolve, the reasons to rebuild everything
/// (the caller's structural ones, a changed configuration, an inconsistent
/// cache, a dirty set larger than half of the larger file set), and, with
/// no such reason, the clean files reused and the dirty ones parsed (with
/// one, every file parsed).
#[verifier::loop_isolation(false)]
#[verifier::rlimit(40)]
pub fn plan_update(
    cached: &Vec<String>,
    changes: &Vec<FileChange>,
    structural: &Vec<FullRebuildReason>,
    configuration_changed: bool,
    cache_consistent: bool,
) -> (r: Result<UpdatePlan, UpdateError>)
    ensures
        match r {
            Err(e) => first_unsupported(changes@, 0) matches Some(i) && e.0@ == changes@[i].path@,
            Ok(p) => {
                let d = dirty_of(changes@, changes@.len() as int);
                let b = before_of(cached@);
                let a = after_of(b, d);
                &&& first_unsupported(changes@, 0) is None
                &&& b.finite() && a.finite() && d.dom().finite()
                &&& p.dirty.view().dom() == d.dom()
                &&& forall|k: Seq<char>| #[trigger] d.contains_key(k) ==> opt_text(p.dirty.view()[k]) == d[k]
                &&& p.after.view().dom() == a
                &&& p.scope.view().dom() == b.union(a)
                &&& p.reasons@ == reasons_upto(
                    5,
                    structural@,
                    configuration_changed,
                    cache_consistent,
                    d.dom().len(),
                    b.len(),
                    a.len(),
                )
                &&& texts(p.reused@) == split_paths(keys_of(p.after), p.reasons@.len() == 0, d, true)
                &&& texts(p.parsed@) == split_paths(keys_of(p.after), p.reasons@.len() == 0, d, false)
            },
        },
{
    // The dirty set: the last change to each normalized path.
    let mut dirty: StrMap<Option<String>> = StrMap::new();
    let mut i: usize = 0;
    while i < changes.len()
        invariant
            i <= changes@.len(),
            first_unsupported(changes@, 0) == first_unsupported(changes@, i as int),
            dirty.view().dom() == dirty_of(changes@, i as int).dom(),
            forall|k: Seq<char>|
                #[trigger] dirty_of(changes@, i as int).contains_key(k) ==> opt_text(dirty.view()[k]) == dirty_of(
                    changes@,
                    i as int,
                )[k],
        decreases changes@.len() - i,
    {
        match normalize_source_path(changes[i].path.as_str()) {
            Err(e) => {
                return Err(e);
            },
            Ok(n) => {
                let ghost before = dirty.view();
                let src = copy_opt(&changes[i].source);
                dirty.insert(n, src);
                assert(dirty.view().dom() =~= dirty_of(changes@, i + 1).dom());
            },
        }
        i = i + 1;
    }
    let ghost d = dirty_of(changes@, changes@.len() as int);
    // The cached files.
    let mut before: StrMap<bool> = StrMap::new();
    let mut c: usize = 0;
    while c < cached.len()
        invariant
            c <= cached@.len(),
            before.view().dom() == before_of(cached@.take(c as int)),
        decreases cached@.len() - c,
    {
        let ghost old_dom = before.view().dom();
        before.insert(cached[c].clone(), true);
        c = c + 1;
        assert(before.view().dom() =~= before_of(cached@.take(c as int))) by {
            assert forall|p: Seq<char>| before_of(cached@.take(c as int)).contains(p) implies before.view().dom().contains(p) by {
                let j = choose|j: int| 0 <= j < c && (#[trigger] cached@.take(c as int)[j])@ == p;
                if j < c - 1 {
                    assert(cached@.take(c - 1)[j] == cached@.take(c as int)[j]);
                }
            }
            assert forall|p: Seq<char>| before.view().dom().contains(p) implies before_of(cached@.take(c as int)).contains(p) by {
                if p == cached@[c - 1]@ {
                    assert(cached@.take(c as int)[c - 1] == cached@[c - 1]);
                } else {
                    assert(old_dom.contains(p));
                    let j = choose|j: int| 0 <= j < c - 1 && (#[trigger] cached@.take(c - 1)[j])@ == p;
                    assert(cached@.take(c as int)[j] == cached@.take(c - 1)[j]);
                }
            }
        }
    }
    assert(cached@.take(cached@.len() as int) =~= cached@);
    let ghost b = before_of(cached@);
    // The files afterwards.
    let mut after = before.copied();
    let n = dirty.len();
    let ghost pairs = dirty.pairs();
    let mut j: usize = 0;
    while j < n
        invariant
            j <= n,
            n == pairs.len(),
            pairs == dirty.pairs(),
            forall|p: Seq<char>|
                #[trigger] after.view().dom().contains(p) <==> if exists|q: int| 0 <= q < j && pairs[q].0 == p {
                    dirty.view()[p] is Some
                } else {
                    b.contains(p)
                },
        decreases n - j,
    {
        let _facts = dirty.len();
        let k = dirty.key(j);
        let is_some = dirty.value(j).is_some();
        if is_some {
            after.insert(k.clone(), true);
        } else {
            after.remove(k.as_str());
        }
        assert forall|p: Seq<char>| #[trigger] after.view().dom().contains(p) <==> if exists|q: int| 0 <= q < j + 1 && pairs[q].0 == p {
            dirty.view()[p] is Some
        } else {
            b.contains(p)
        } by {
            if p == pairs[j as int].0 {
                assert(dirty.view()[pairs[j as int].0] == pairs[j as int].1);
            } else {
                if exists|q: int| 0 <= q < j + 1 && pairs[q].0 == p {
                    let q = choose|q: int| 0 <= q < j + 1 && pairs[q].0 == p;
                    assert(q < j);
                }
            }
        }
        j = j + 1;
    }
    let _facts = dirty.len();
    assert(after.view().dom() =~= after_of(b, d)) by {
        assert forall|p: Seq<char>| after.view().dom().contains(p) <==> #[trigger] after_of(b, d).contains(p) by {
            if d.contains_key(p) {
                assert(dirty.view().contains_key(p));
                let q = choose|q: int| 0 <= q < pairs.len() && pairs[q].0 == p;
                assert(opt_text(dirty.view()[p]) == d[p]);
            } else {
                assert(!dirty.view().contains_key(p));
                if exists|q: int| 0 <= q < n && pairs[q].0 == p {
                    let q = choose|q: int| 0 <= q < n && pairs[q].0 == p;
                    assert(dirty.view().contains_key(pairs[q].0));
                }
            }
        }
    }
    let ghost a = after_of(b, d);
    // Every file before or after.
    let mut scope = before.copied();
    let m = after.len();
    let mut w: usize = 0;
    while w < m
        invariant
            w <= m,
            m == after.pairs().len(),
            forall|p: Seq<char>|
                #[trigger] scope.view().dom().contains(p) <==> (b.contains(p) || exists|q: int|
                    0 <= q < w && after.pairs()[q].0 == p),
        decreases m - w,
    {
        let _facts = after.len();
        scope.insert(after.key(w).clone(), true);
        assert forall|p: Seq<char>| #[trigger] scope.view().dom().contains(p) <==> (b.contains(p) || exists|q: int|
            0 <= q < w + 1 && after.pairs()[q].0 == p) by {
            if exists|q: int| 0 <= q < w + 1 && after.pairs()[q].0 == p {
                let q = choose|q: int| 0 <= q < w + 1 && after.pairs()[q].0 == p;
                if q < w {
                    assert(exists|q2: int| 0 <= q2 < w && after.pairs()[q2].0 == p);
                }
            }
        }
        w = w + 1;
    }
    let _facts = after.len();
    assert(scope.view().dom() =~= b.union(a)) by {
        assert forall|p: Seq<char>| scope.view().dom().contains(p) <==> #[trigger] b.union(a).contains(p) by {
            if a.contains(p) {
                assert(after.view().contains_key(p));
                let q = choose|q: int| 0 <= q < after.pairs().len() && after.pairs()[q].0 == p;
            }
            if exists|q: int| 0 <= q < m && after.pairs()[q].0 == p {
                let q = choose|q: int| 0 <= q < m && after.pairs()[q].0 == p;
                assert(after.view().contains_key(after.pairs()[q].0));
            }
        }
    }
    // Why everything is rebuilt.
    let dc = dirty.count();
    let bc = before.count();
    let ac = after.count();
    let doubled_dirty: usize = if dc > usize::MAX / 2 {
        usize::MAX
    } else {
        2 * dc
    };
    let larger = if bc >= ac {
        bc
    } else {
        ac
    };
    let half = doubled_dirty > larger;
    let all: Vec<FullRebuildReason> = vec![
        FullRebuildReason::OwnershipChanged,
        FullRebuildReason::ConfigurationChanged,
        FullRebuildReason::UncertainEventMapping,
        FullRebuildReason::CacheInconsistent,
        FullRebuildReason::DirtySetExceedsHalf,
    ];
    assert(all@ =~= all_reasons());
    let ghost dn = d.dom().len();
    let ghost bn = b.len();
    let ghost an = a.len();
    let mut reasons: Vec<FullRebuildReason> = Vec::new();
    let mut k: usize = 0;
    while k < 5
        invariant
            k <= 5,
            all@ == all_reasons(),
            reasons@ == reasons_upto(k as int, structural@, configuration_changed, cache_consistent, dn, bn, an),
        decreases 5 - k,
    {
        let x = all[k];
        let holds = lists_reason(structural, x) || (x == FullRebuildReason::ConfigurationChanged && configuration_changed)
            || (x == FullRebuildReason::CacheInconsistent && !cache_consistent) || (x
            == FullRebuildReason::DirtySetExceedsHalf && half);
        if holds {
            reasons.push(x);
        }
        k = k + 1;
    }
    // Reused and parsed files, in ascending order.
    let no_reasons = reasons.len() == 0;
    let mut reused: Vec<String> = Vec::new();
    let mut parsed: Vec<String> = Vec::new();
    let ghost ks = keys_of(after);
    let mut q: usize = 0;
    while q < m
        invariant
            q <= m,
            m == after.pairs().len(),
            ks == keys_of(after),
            texts(reused@) == split_paths(ks.take(q as int), no_reasons, d, true),
            texts(parsed@) == split_paths(ks.take(q as int), no_reasons, d, false),
        decreases m - q,
    {
        let key = after.key(q);
        let is_dirty = dirty.get(key.as_str()).is_some();
        assert(ks.take(q + 1).drop_last() =~= ks.take(q as int));
        assert(ks.take(q + 1).last() == key@);
        let copy = key.clone();
        if no_reasons && !is_dirty {
            proof {
                lemma_texts_push(reused@, copy);
            }
            reused.push(copy);
        } else {
            proof {
                lemma_texts_push(parsed@, copy);
            }
            parsed.push(copy);
        }
        q = q + 1;
    }
    assert(ks.take(m as int) =~= ks);
    Ok(UpdatePlan { dirty, after, scope, reasons, reused, parsed })
}

} // verus!
