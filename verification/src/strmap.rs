//! A map keyed by strings that keeps its entries in ascending key order, so
//! that iteration is deterministic and two maps with the same contents have
//! the same entry list.

use vstd::prelude::*;
use crate::text::chars_of;

verus! {

/// Lexicographic order on character sequences, by code point; the order of
/// `str` comparison in Rust.
pub open spec fn seq_lt(a: Seq<char>, b: Seq<char>) -> bool
    decreases a.len(),
{
    if a.len() == 0 {
        b.len() > 0
    } else if b.len() == 0 {
        false
    } else if a[0] != b[0] {
        (a[0] as int) < (b[0] as int)
    } else {
        seq_lt(a.drop_first(), b.drop_first())
    }
}

/// No sequence is below itself.
pub proof fn lemma_seq_lt_irreflexive(a: Seq<char>)
    ensures
        !seq_lt(a, a),
    decreases a.len(),
{
    if a.len() > 0 {
        lemma_seq_lt_irreflexive(a.drop_first());
    }
}

/// The order is transitive.
pub proof fn lemma_seq_lt_transitive(a: Seq<char>, b: Seq<char>, c: Seq<char>)
    requires
        seq_lt(a, b),
        seq_lt(b, c),
    ensures
        seq_lt(a, c),
    decreases a.len(),
{
    if a.len() > 0 && b.len() > 0 && c.len() > 0 {
        if a[0] == b[0] && b[0] == c[0] {
            lemma_seq_lt_transitive(a.drop_first(), b.drop_first(), c.drop_first());
        }
    }
}

/// Any two distinct sequences are ordered one way or the other.
pub proof fn lemma_seq_lt_total(a: Seq<char>, b: Seq<char>)
    requires
        a != b,
    ensures
        seq_lt(a, b) || seq_lt(b, a),
    decreases a.len(),
{
    if a.len() > 0 && b.len() > 0 && a[0] == b[0] {
        if a.drop_first() == b.drop_first() {
            assert(a =~= seq![a[0]] + a.drop_first());
            assert(b =~= seq![b[0]] + b.drop_first());
        }
        lemma_seq_lt_total(a.drop_first(), b.drop_first());
    } else if a.len() > 0 && b.len() > 0 {
    } else if a.len() == 0 && b.len() == 0 {
        assert(a =~= b);
    }
}

/// Decides `seq_lt` on two string slices.
pub fn str_lt(a: &str, b: &str) -> (r: bool)
    ensures
        r == seq_lt(a@, b@),
{
    let x = chars_of(a);
    let y = chars_of(b);
    let mut i: usize = 0;
    assert(a@.skip(0) =~= a@);
    assert(b@.skip(0) =~= b@);
    while i < x.len() && i < y.len() && x[i] == y[i]
        invariant
            x@ == a@,
            y@ == b@,
            i <= x@.len(),
            i <= y@.len(),
            seq_lt(a@, b@) == seq_lt(a@.skip(i as int), b@.skip(i as int)),
        decreases x@.len() - i,
    {
        assert(a@.skip(i as int).drop_first() =~= a@.skip(i + 1));
        assert(b@.skip(i as int).drop_first() =~= b@.skip(i + 1));
        i = i + 1;
    }
    if i == x.len() {
        i < y.len()
    } else if i == y.len() {
        false
    } else {
        x[i] < y[i]
    }
}

/// Keys of an entry list strictly ascend.
pub open spec fn sorted_entries<V>(e: Seq<(String, V)>) -> bool {
    forall|i: int, j: int| 0 <= i < j < e.len() ==> seq_lt(#[trigger] e[i].0@, #[trigger] e[j].0@)
}

/// The map described by an entry list.
pub open spec fn entries_view<V>(e: Seq<(String, V)>) -> Map<Seq<char>, V> {
    Map::new(
        |k: Seq<char>| exists|i: int| 0 <= i < e.len() && e[i].0@ == k,
        |k: Seq<char>| e[entry_index(e, k)].1,
    )
}

/// Some position holding key `k`.
pub open spec fn entry_index<V>(e: Seq<(String, V)>, k: Seq<char>) -> int {
    choose|i: int| 0 <= i < e.len() && e[i].0@ == k
}

proof fn lemma_entry<V>(e: Seq<(String, V)>, i: int)
    requires
        sorted_entries(e),
        0 <= i < e.len(),
    ensures
        entries_view(e).contains_key(e[i].0@),
        entries_view(e)[e[i].0@] == e[i].1,
{
    let k = e[i].0@;
    assert(e[i].0@ == k);
    assert(entries_view(e).contains_key(k));
    let j = entry_index(e, k);
    if j < i {
        assert(seq_lt(e[j].0@, e[i].0@));
        lemma_seq_lt_irreflexive(k);
    } else if j > i {
        assert(seq_lt(e[i].0@, e[j].0@));
        lemma_seq_lt_irreflexive(k);
    }
    assert(entries_view(e)[k] == e[j].1);
}

proof fn lemma_view_after_set<V>(old_e: Seq<(String, V)>, new_e: Seq<(String, V)>, i: int, k: Seq<char>, v: V)
    requires
        sorted_entries(old_e),
        sorted_entries(new_e),
        0 <= i < old_e.len(),
        new_e.len() == old_e.len(),
        forall|j: int| 0 <= j < old_e.len() && j != i ==> new_e[j] == old_e[j],
        old_e[i].0@ == k,
        new_e[i].0@ == k,
        new_e[i].1 == v,
    ensures
        entries_view(new_e) == entries_view(old_e).insert(k, v),
{
    let m = entries_view(old_e).insert(k, v);
    assert forall|key: Seq<char>| #[trigger] entries_view(new_e).contains_key(key) <==> m.contains_key(key) by {
        if m.contains_key(key) && key != k {
            let j = choose|j: int| 0 <= j < old_e.len() && old_e[j].0@ == key;
            assert(new_e[j].0@ == key);
        }
        if entries_view(new_e).contains_key(key) {
            let j = choose|j: int| 0 <= j < new_e.len() && new_e[j].0@ == key;
            if j != i {
                assert(old_e[j].0@ == key);
            }
        }
    }
    assert forall|key: Seq<char>| #[trigger] entries_view(new_e).contains_key(key) implies entries_view(new_e)[key] == m[key] by {
        let j = choose|j: int| 0 <= j < new_e.len() && new_e[j].0@ == key;
        lemma_entry(new_e, j);
        if j != i {
            if j < i {
                assert(seq_lt(new_e[j].0@, new_e[i].0@));
            } else {
                assert(seq_lt(new_e[i].0@, new_e[j].0@));
            }
            lemma_seq_lt_irreflexive(key);
            lemma_entry(old_e, j);
        }
    }
    assert(entries_view(new_e) =~= m);
}

proof fn lemma_view_after_insert<V>(old_e: Seq<(String, V)>, new_e: Seq<(String, V)>, i: int, k: Seq<char>, v: V)
    requires
        sorted_entries(old_e),
        sorted_entries(new_e),
        0 <= i <= old_e.len(),
        new_e.len() == old_e.len() + 1,
        new_e == old_e.insert(i, new_e[i]),
        new_e[i].0@ == k,
        new_e[i].1 == v,
    ensures
        entries_view(new_e) == entries_view(old_e).insert(k, v),
{
    let m = entries_view(old_e).insert(k, v);
    assert forall|key: Seq<char>| #[trigger] entries_view(new_e).contains_key(key) <==> m.contains_key(key) by {
        if m.contains_key(key) && key != k {
            let j = choose|j: int| 0 <= j < old_e.len() && old_e[j].0@ == key;
            if j < i {
                assert(new_e[j].0@ == key);
            } else {
                assert(new_e[j + 1].0@ == key);
            }
        }
        if entries_view(new_e).contains_key(key) {
            let j = choose|j: int| 0 <= j < new_e.len() && new_e[j].0@ == key;
            if j < i {
                assert(old_e[j].0@ == key);
            } else if j > i {
                assert(old_e[j - 1].0@ == key);
            }
        }
    }
    assert forall|key: Seq<char>| #[trigger] entries_view(new_e).contains_key(key) implies entries_view(new_e)[key] == m[key] by {
        let j = choose|j: int| 0 <= j < new_e.len() && new_e[j].0@ == key;
        lemma_entry(new_e, j);
        if j != i {
            if j < i {
                assert(seq_lt(new_e[j].0@, new_e[i].0@));
            } else {
                assert(seq_lt(new_e[i].0@, new_e[j].0@));
            }
            lemma_seq_lt_irreflexive(key);
        }
        if j < i {
            lemma_entry(old_e, j);
        } else if j > i {
            lemma_entry(old_e, j - 1);
        }
    }
    assert(entries_view(new_e) =~= m);
}

/// A map from strings to values, stored as a list of entries in strictly
/// ascending key order.
#[derive(Debug)]
pub struct StrMap<V> {
    entries: Vec<(String, V)>,
}

impl<V> StrMap<V> {
    /// The entries, as (key, value) pairs in ascending key order.
    pub closed spec fn pairs(self) -> Seq<(Seq<char>, V)> {
        self.entries@.map_values(|e: (String, V)| (e.0@, e.1))
    }

    /// Keys strictly ascend, so each key occurs once.
    pub closed spec fn wf(self) -> bool {
        sorted_entries(self.entries@)
    }

    #[verifier::type_invariant]
    closed spec fn inv(self) -> bool {
        self.wf()
    }

    /// The contents as a mathematical map.
    pub closed spec fn view(self) -> Map<Seq<char>, V> {
        entries_view(self.entries@)
    }

    /// The empty map.
    pub fn new() -> (r: Self)
        ensures
            r.view() == Map::<Seq<char>, V>::empty(),
            r.pairs() == Seq::<(Seq<char>, V)>::empty(),
    {
        let r = StrMap { entries: Vec::new() };
        assert(r.view() =~= Map::<Seq<char>, V>::empty());
        assert(r.pairs() =~= Seq::<(Seq<char>, V)>::empty());
        r
    }

    /// Number of entries; the entries enumerate the map in strictly
    /// ascending key order.
    pub fn len(&self) -> (r: usize)
        ensures
            r == self.pairs().len(),
            forall|i: int|
                0 <= i < self.pairs().len() ==> #[trigger] self.view().contains_key(self.pairs()[i].0)
                    && self.view()[self.pairs()[i].0] == self.pairs()[i].1,
            forall|k: Seq<char>|
                #[trigger] self.view().contains_key(k) ==> exists|i: int|
                    0 <= i < self.pairs().len() && self.pairs()[i].0 == k,
            forall|i: int, j: int|
                0 <= i < j < self.pairs().len() ==> seq_lt(
                    #[trigger] self.pairs()[i].0,
                    #[trigger] self.pairs()[j].0,
                ),
    {
        proof {
            use_type_invariant(self);
            self.lemma_pairs_view();
        }
        self.entries.len()
    }

    /// The number of keys, which are finitely many.
    pub fn count(&self) -> (r: usize)
        ensures
            self.view().dom().finite(),
            r == self.view().dom().len(),
    {
        proof {
            use_type_invariant(self);
            self.lemma_pairs_view();
            let ks = self.pairs().map_values(|p: (Seq<char>, V)| p.0);
            assert(ks.no_duplicates()) by {
                assert forall|i: int, j: int| 0 <= i < ks.len() && 0 <= j < ks.len() && i != j implies ks[i] != ks[j] by {
                    lemma_seq_lt_irreflexive(ks[i]);
                    if i < j {
                        assert(seq_lt(self.pairs()[i].0, self.pairs()[j].0));
                    } else {
                        assert(seq_lt(self.pairs()[j].0, self.pairs()[i].0));
                    }
                }
            }
            ks.unique_seq_to_set();
            assert forall|k: Seq<char>| self.view().dom().contains(k) <==> #[trigger] ks.to_set().contains(k) by {
                if self.view().dom().contains(k) {
                    assert(self.view().contains_key(k));
                    let i = choose|i: int| 0 <= i < self.pairs().len() && self.pairs()[i].0 == k;
                    assert(ks[i] == k);
                }
                if ks.to_set().contains(k) {
                    let i = choose|i: int| 0 <= i < ks.len() && ks[i] == k;
                    assert(self.view().contains_key(self.pairs()[i].0));
                }
            }
            assert(self.view().dom() =~= ks.to_set());
        }
        self.entries.len()
    }

    /// Key of entry `i`, in ascending order.
    pub fn key(&self, i: usize) -> (r: &String)
        requires
            i < self.pairs().len(),
        ensures
            r@ == self.pairs()[i as int].0,
    {
        &self.entries[i].0
    }

    /// Value of entry `i`, in ascending key order.
    pub fn value(&self, i: usize) -> (r: &V)
        requires
            i < self.pairs().len(),
        ensures
            *r == self.pairs()[i as int].1,
    {
        &self.entries[i].1
    }

    /// The pairs describe the map exactly, in strictly ascending key order.
    pub proof fn lemma_pairs_view(self)
        requires
            self.wf(),
        ensures
            forall|i: int|
                0 <= i < self.pairs().len() ==> #[trigger] self.view().contains_key(self.pairs()[i].0)
                    && self.view()[self.pairs()[i].0] == self.pairs()[i].1,
            forall|k: Seq<char>|
                #[trigger] self.view().contains_key(k) ==> exists|i: int|
                    0 <= i < self.pairs().len() && self.pairs()[i].0 == k,
            forall|i: int, j: int|
                0 <= i < j < self.pairs().len() ==> seq_lt(
                    #[trigger] self.pairs()[i].0,
                    #[trigger] self.pairs()[j].0,
                ),
    {
        assert forall|i: int| 0 <= i < self.pairs().len() implies #[trigger] self.view().contains_key(
            self.pairs()[i].0,
        ) && self.view()[self.pairs()[i].0] == self.pairs()[i].1 by {
            lemma_entry(self.entries@, i);
        }
        assert forall|k: Seq<char>| #[trigger] self.view().contains_key(k) implies exists|i: int|
            0 <= i < self.pairs().len() && self.pairs()[i].0 == k by {
            let i = choose|i: int| 0 <= i < self.entries@.len() && self.entries@[i].0@ == k;
            assert(self.pairs()[i].0 == k);
        }
    }

    /// Position of the first entry whose key is not below `k`.
    fn lower_bound(&self, k: &str) -> (r: usize)
        ensures
            r <= self.entries@.len(),
            forall|i: int| 0 <= i < r ==> seq_lt(#[trigger] self.entries@[i].0@, k@),
            r < self.entries@.len() ==> !seq_lt(self.entries@[r as int].0@, k@),
    {
        proof {
            use_type_invariant(self);
        }
        let mut i: usize = 0;
        while i < self.entries.len() && str_lt(self.entries[i].0.as_str(), k)
            invariant
                i <= self.entries@.len(),
                forall|j: int| 0 <= j < i ==> seq_lt(#[trigger] self.entries@[j].0@, k@),
            decreases self.entries@.len() - i,
        {
            i = i + 1;
        }
        i
    }

    /// The value stored under `k`, if any.
    pub fn get(&self, k: &str) -> (r: Option<&V>)
        ensures
            r is Some <==> self.view().contains_key(k@),
            r matches Some(v) ==> *v == self.view()[k@],
    {
        proof {
            use_type_invariant(self);
        }
        let i = self.lower_bound(k);
        if i < self.entries.len() && str_eq(self.entries[i].0.as_str(), k) {
            proof {
                lemma_entry(self.entries@, i as int);
            }
            Some(&self.entries[i].1)
        } else {
            proof {
                if self.view().contains_key(k@) {
                    let j = choose|j: int| 0 <= j < self.entries@.len() && self.entries@[j].0@ == k@;
                    if j < i {
                        lemma_seq_lt_irreflexive(k@);
                    } else if j > i {
                        assert(seq_lt(self.entries@[i as int].0@, self.entries@[j].0@));
                        lemma_seq_lt_total(self.entries@[i as int].0@, k@);
                        lemma_seq_lt_transitive(k@, self.entries@[i as int].0@, k@);
                        lemma_seq_lt_irreflexive(k@);
                    }
                }
            }
            None
        }
    }

    /// Binds `k` to `v`, replacing any previous value of `k`.
    pub fn insert(&mut self, k: String, v: V)
        ensures
            final(self).view() == old(self).view().insert(k@, v),
    {
        proof {
            use_type_invariant(&*self);
        }
        let i = self.lower_bound(k.as_str());
        let mut e: Vec<(String, V)> = Vec::new();
        std::mem::swap(&mut e, &mut self.entries);
        let ghost old_e = e@;
        let ghost kk = k@;
        if i < e.len() && str_eq(e[i].0.as_str(), k.as_str()) {
            e.set(i, (k, v));
            proof {
                assert forall|a: int, b: int| 0 <= a < b < e@.len() implies seq_lt(
                    #[trigger] e@[a].0@,
                    #[trigger] e@[b].0@,
                ) by {
                    assert(seq_lt(old_e[a].0@, old_e[b].0@));
                }
                lemma_view_after_set(old_e, e@, i as int, kk, v);
            }
        } else {
            e.insert(i, (k, v));
            proof {
                assert forall|a: int, b: int| 0 <= a < b < e@.len() implies seq_lt(
                    #[trigger] e@[a].0@,
                    #[trigger] e@[b].0@,
                ) by {
                    if b < i {
                        assert(seq_lt(old_e[a].0@, old_e[b].0@));
                    } else if b == i {
                        assert(seq_lt(old_e[a].0@, kk));
                    } else if a == i {
                        assert(old_e[i as int].0@ != kk);
                        lemma_seq_lt_total(old_e[i as int].0@, kk);
                        if b - 1 > i {
                            assert(seq_lt(old_e[i as int].0@, old_e[b - 1].0@));
                            lemma_seq_lt_transitive(kk, old_e[i as int].0@, old_e[b - 1].0@);
                        }
                    } else if a < i {
                        assert(seq_lt(old_e[a].0@, old_e[b - 1].0@));
                    } else {
                        assert(seq_lt(old_e[a - 1].0@, old_e[b - 1].0@));
                    }
                }
                lemma_view_after_insert(old_e, e@, i as int, kk, v);
            }
        }
        self.entries = e;
    }
}

/// Two sorted entry lists with the same keys and values at every position
/// describe the same map, and conversely: a map has exactly one sorted
/// entry list.
pub proof fn lemma_canonical<V>(a: StrMap<V>, b: StrMap<V>)
    requires
        a.wf(),
        b.wf(),
    ensures
        (a.view() == b.view()) <==> (a.pairs() == b.pairs()),
{
    a.lemma_pairs_view();
    b.lemma_pairs_view();
    let pa = a.pairs();
    let pb = b.pairs();
    if a.view() == b.view() {
        // keys agree position by position
        assert forall|i: int| 0 <= i < pa.len() && i < pb.len() implies #[trigger] pa[i] == pb[i] by {
            lemma_same_prefix(a, b, i);
        }
        if pa.len() < pb.len() {
            let n = pa.len() as int;
            let k = pb[n].0;
            assert(b.view().contains_key(k));
            let j = choose|j: int| 0 <= j < pa.len() && pa[j].0 == k;
            assert(pa[j] == pb[j]);
            assert(seq_lt(pb[j].0, pb[n].0));
            lemma_seq_lt_irreflexive(k);
        } else if pb.len() < pa.len() {
            let n = pb.len() as int;
            let k = pa[n].0;
            assert(a.view().contains_key(k));
            let j = choose|j: int| 0 <= j < pb.len() && pb[j].0 == k;
            assert(pa[j] == pb[j]);
            assert(seq_lt(pa[j].0, pa[n].0));
            lemma_seq_lt_irreflexive(k);
        }
        assert(pa =~= pb);
    }
    if pa == pb {
        assert forall|k: Seq<char>| a.view().contains_key(k) <==> b.view().contains_key(k) by {
            if a.view().contains_key(k) {
                let i = choose|i: int| 0 <= i < pa.len() && pa[i].0 == k;
                assert(b.view().contains_key(pb[i].0));
            }
            if b.view().contains_key(k) {
                let i = choose|i: int| 0 <= i < pb.len() && pb[i].0 == k;
                assert(a.view().contains_key(pa[i].0));
            }
        }
        assert forall|k: Seq<char>| #[trigger] a.view().contains_key(k) implies a.view()[k] == b.view()[k] by {
            let i = choose|i: int| 0 <= i < pa.len() && pa[i].0 == k;
            assert(a.view()[pa[i].0] == pa[i].1);
            assert(b.view()[pb[i].0] == pb[i].1);
        }
        assert(a.view() =~= b.view());
    }
}

proof fn lemma_same_prefix<V>(a: StrMap<V>, b: StrMap<V>, n: int)
    requires
        a.wf(),
        b.wf(),
        a.view() == b.view(),
        0 <= n < a.pairs().len(),
        n < b.pairs().len(),
    ensures
        a.pairs()[n] == b.pairs()[n],
    decreases n,
{
    a.lemma_pairs_view();
    b.lemma_pairs_view();
    let pa = a.pairs();
    let pb = b.pairs();
    if n > 0 {
        lemma_same_prefix(a, b, n - 1);
    }
    assert forall|i: int| 0 <= i < n implies pa[i] == pb[i] by {
        lemma_same_prefix(a, b, i);
    }
    let x = pa[n].0;
    let y = pb[n].0;
    if x != y {
        lemma_seq_lt_total(x, y);
        if seq_lt(x, y) {
            assert(b.view().contains_key(x));
            let j = choose|j: int| 0 <= j < pb.len() && pb[j].0 == x;
            if j < n {
                assert(pa[j] == pb[j]);
                assert(seq_lt(pa[j].0, pa[n].0));
                lemma_seq_lt_irreflexive(x);
            } else if j > n {
                assert(seq_lt(pb[n].0, pb[j].0));
                lemma_seq_lt_transitive(x, y, x);
                lemma_seq_lt_irreflexive(x);
            }
        } else {
            assert(a.view().contains_key(y));
            let j = choose|j: int| 0 <= j < pa.len() && pa[j].0 == y;
            if j < n {
                assert(pa[j] == pb[j]);
                assert(seq_lt(pb[j].0, pb[n].0));
                lemma_seq_lt_irreflexive(y);
            } else if j > n {
                assert(seq_lt(pa[n].0, pa[j].0));
                lemma_seq_lt_transitive(y, x, y);
                lemma_seq_lt_irreflexive(y);
            }
        }
    }
    assert(a.view()[x] == pa[n].1);
    assert(b.view()[y] == pb[n].1);
}

/// The keys at the positions of `e` where `keep` holds, among the first `j`.
pub open spec fn kept_keys<V>(e: Seq<(Seq<char>, V)>, keep: Seq<bool>, j: int) -> Set<Seq<char>> {
    Set::new(|k: Seq<char>| exists|i: int| 0 <= i < j && e[i].0 == k && keep[i])
}

impl<V> StrMap<V> {
    /// Keeps the entries at the positions (in ascending key order) where
    /// `keep` holds, and drops the others.
    pub fn keep_where(&mut self, keep: &Vec<bool>)
        requires
            keep@.len() == old(self).pairs().len(),
        ensures
            final(self).view() == old(self).view().restrict(
                kept_keys(old(self).pairs(), keep@, keep@.len() as int),
            ),
    {
        proof {
            use_type_invariant(&*self);
        }
        let ghost old_view = self.view();
        let ghost old_pairs = self.pairs();
        let mut e: Vec<(String, V)> = Vec::new();
        std::mem::swap(&mut e, &mut self.entries);
        let ghost old_e = e@;
        proof {
            assert(old_view == entries_view(old_e));
        }
        let mut out: Vec<(String, V)> = Vec::new();
        let mut j: usize = 0;
        let n = keep.len();
        proof {
            assert(entries_view(out@) =~= old_view.restrict(kept_keys(old_pairs, keep@, 0)));
        }
        while j < n
            invariant
                n == keep@.len(),
                n == old_e.len(),
                old_pairs.len() == old_e.len(),
                forall|i: int| 0 <= i < old_e.len() ==> (#[trigger] old_pairs[i]).0 == old_e[i].0@ && old_pairs[i].1 == old_e[i].1,
                sorted_entries(old_e),
                old_view == entries_view(old_e),
                j <= n,
                e@ == old_e.skip(j as int),
                sorted_entries(out@),
                forall|a: int, b: int|
                    0 <= a < out@.len() && j <= b < old_e.len() ==> seq_lt(#[trigger] out@[a].0@, #[trigger] old_e[b].0@),
                entries_view(out@) == old_view.restrict(kept_keys(old_pairs, keep@, j as int)),
            decreases n - j,
        {
            let x = e.remove(0);
            let ghost before = out@;
            proof {
                assert(x == old_e[j as int]);
                lemma_entry(old_e, j as int);
            }
            if keep[j] {
                out.push(x);
                proof {
                    assert(out@ == before.insert(before.len() as int, out@[before.len() as int]));
                    assert forall|a: int, b: int| 0 <= a < b < out@.len() implies seq_lt(
                        #[trigger] out@[a].0@,
                        #[trigger] out@[b].0@,
                    ) by {
                        if b == before.len() {
                            assert(seq_lt(before[a].0@, old_e[j as int].0@));
                        }
                    }
                    assert forall|a: int, b: int|
                        0 <= a < out@.len() && j + 1 <= b < old_e.len() implies seq_lt(
                        #[trigger] out@[a].0@,
                        #[trigger] old_e[b].0@,
                    ) by {
                        if a == before.len() {
                            assert(seq_lt(old_e[j as int].0@, old_e[b].0@));
                        }
                    }
                    lemma_view_after_insert(before, out@, before.len() as int, old_e[j as int].0@, old_e[j as int].1);
                    let k = old_e[j as int].0@;
                    assert(old_pairs[j as int].0 == k);
                    assert forall|key: Seq<char>| #[trigger] kept_keys(old_pairs, keep@, j + 1).contains(key) <==> (
                        kept_keys(old_pairs, keep@, j as int).contains(key) || key == k) by {
                        if key == k {
                            assert(old_pairs[j as int].0 == key && keep@[j as int]);
                        }
                    }
                    assert(entries_view(out@) =~= old_view.restrict(kept_keys(old_pairs, keep@, j + 1)));
                }
            } else {
                proof {
                    let k = old_e[j as int].0@;
                    assert forall|key: Seq<char>| #[trigger] kept_keys(old_pairs, keep@, j + 1).contains(key) <==> kept_keys(
                        old_pairs,
                        keep@,
                        j as int,
                    ).contains(key) by {
                        if kept_keys(old_pairs, keep@, j + 1).contains(key) {
                            let i = choose|i: int| 0 <= i < j + 1 && old_pairs[i].0 == key && keep@[i];
                            assert(i != j);
                        }
                    }
                    assert(kept_keys(old_pairs, keep@, j + 1) =~= kept_keys(old_pairs, keep@, j as int));
                    assert forall|a: int, b: int|
                        0 <= a < out@.len() && j + 1 <= b < old_e.len() implies seq_lt(
                        #[trigger] out@[a].0@,
                        #[trigger] old_e[b].0@,
                    ) by {
                    }
                }
            }
            proof {
                assert(e@ =~= old_e.skip(j + 1));
            }
            j = j + 1;
        }
        self.entries = out;
    }

    /// Drops the binding of `k`, if any.
    pub fn remove(&mut self, k: &str)
        ensures
            final(self).view() == old(self).view().remove(k@),
    {
        proof {
            use_type_invariant(&*self);
            self.lemma_pairs_view();
        }
        let ghost pairs = self.pairs();
        let n = self.len();
        let mut keep: Vec<bool> = Vec::new();
        let mut i: usize = 0;
        while i < n
            invariant
                n == pairs.len(),
                pairs == self.pairs(),
                i <= n,
                keep@.len() == i,
                forall|j: int| 0 <= j < i ==> #[trigger] keep@[j] == (pairs[j].0 != k@),
            decreases n - i,
        {
            let b = !str_eq(self.key(i).as_str(), k);
            keep.push(b);
            i = i + 1;
        }
        let ghost old_view = self.view();
        self.keep_where(&keep);
        proof {
            assert forall|key: Seq<char>| old_view.contains_key(key) implies (#[trigger] kept_keys(pairs, keep@, n as int).contains(key)
                <==> key != k@) by {
                let i = choose|i: int| 0 <= i < pairs.len() && pairs[i].0 == key;
                if key != k@ {
                    assert(keep@[i]);
                }
            }
            assert(self.view() =~= old_view.remove(k@));
        }
    }
}

impl<V: Copy> StrMap<V> {
    /// A copy with the same bindings.
    pub fn copied(&self) -> (r: Self)
        ensures
            r.view() == self.view(),
    {
        proof {
            use_type_invariant(self);
        }
        let mut entries: Vec<(String, V)> = Vec::new();
        let mut i: usize = 0;
        while i < self.entries.len()
            invariant
                i <= self.entries@.len(),
                entries@.len() == i,
                forall|j: int| 0 <= j < i ==> (#[trigger] entries@[j]).0@ == self.entries@[j].0@ && entries@[j].1 == self.entries@[j].1,
            decreases self.entries@.len() - i,
        {
            let k = self.entries[i].0.clone();
            entries.push((k, self.entries[i].1));
            i = i + 1;
        }
        assert(sorted_entries(entries@)) by {
            assert forall|a: int, b: int| 0 <= a < b < entries@.len() implies seq_lt(
                #[trigger] entries@[a].0@, #[trigger] entries@[b].0@) by {
                assert(seq_lt(self.entries@[a].0@, self.entries@[b].0@));
            }
        }
        let r = StrMap { entries };
        assert(r.pairs() =~= self.pairs());
        proof {
            lemma_canonical(r, *self);
        }
        r
    }
}

impl StrMap<String> {
    /// A copy with the same bindings.
    pub fn copied_text(&self) -> (r: Self)
        ensures
            r.view() == self.view(),
    {
        proof {
            use_type_invariant(self);
        }
        let mut entries: Vec<(String, String)> = Vec::new();
        let mut i: usize = 0;
        while i < self.entries.len()
            invariant
                i <= self.entries@.len(),
                entries@.len() == i,
                forall|j: int| 0 <= j < i ==> (#[trigger] entries@[j]).0@ == self.entries@[j].0@ && entries@[j].1 == self.entries@[j].1,
            decreases self.entries@.len() - i,
        {
            let k = self.entries[i].0.clone();
            let v = self.entries[i].1.clone();
            entries.push((k, v));
            i = i + 1;
        }
        assert(sorted_entries(entries@)) by {
            assert forall|a: int, b: int| 0 <= a < b < entries@.len() implies seq_lt(
                #[trigger] entries@[a].0@, #[trigger] entries@[b].0@) by {
                assert(seq_lt(self.entries@[a].0@, self.entries@[b].0@));
            }
        }
        let r = StrMap { entries };
        assert(r.pairs() =~= self.pairs());
        proof {
            lemma_canonical(r, *self);
        }
        r
    }
}

impl StrMap<i64> {
    /// True when both maps hold the same bindings.
    pub fn same_as(&self, other: &Self) -> (r: bool)
        ensures
            r == (self.view() == other.view()),
    {
        proof {
            use_type_invariant(self);
            use_type_invariant(other);
            lemma_canonical(*self, *other);
        }
        if self.entries.len() != other.entries.len() {
            assert(self.pairs().len() != other.pairs().len());
            return false;
        }
        let mut i: usize = 0;
        while i < self.entries.len()
            invariant
                (self.view() == other.view()) <==> (self.pairs() == other.pairs()),
                self.entries@.len() == other.entries@.len(),
                i <= self.entries@.len(),
                forall|j: int| 0 <= j < i ==> #[trigger] self.pairs()[j] == other.pairs()[j],
            decreases self.entries@.len() - i,
        {
            if !str_eq(self.entries[i].0.as_str(), other.entries[i].0.as_str()) || self.entries[i].1 != other.entries[i].1 {
                assert(self.pairs()[i as int] != other.pairs()[i as int]);
                return false;
            }
            i = i + 1;
        }
        assert(self.pairs() =~= other.pairs());
        true
    }

    /// A copy with the same bindings.
    pub fn duplicate(&self) -> (r: Self)
        ensures
            r.view() == self.view(),
            r.pairs() == self.pairs(),
    {
        proof {
            use_type_invariant(self);
        }
        let mut entries: Vec<(String, i64)> = Vec::new();
        let mut i: usize = 0;
        while i < self.entries.len()
            invariant
                i <= self.entries@.len(),
                entries@.len() == i,
                forall|j: int| 0 <= j < i ==> (#[trigger] entries@[j]).0@ == self.entries@[j].0@ && entries@[j].1 == self.entries@[j].1,
            decreases self.entries@.len() - i,
        {
            let k = self.entries[i].0.clone();
            entries.push((k, self.entries[i].1));
            i = i + 1;
        }
        assert(sorted_entries(entries@)) by {
            assert forall|a: int, b: int| 0 <= a < b < entries@.len() implies seq_lt(
                #[trigger] entries@[a].0@, #[trigger] entries@[b].0@) by {
                assert(seq_lt(self.entries@[a].0@, self.entries@[b].0@));
            }
        }
        let r = StrMap { entries };
        assert(r.pairs() =~= self.pairs());
        proof {
            lemma_canonical(r, *self);
        }
        r
    }
}

impl StrMap<String> {
    /// The entries with both keys and values taken by their contents.
    pub closed spec fn text_pairs(self) -> Seq<(Seq<char>, Seq<char>)> {
        self.entries@.map_values(|e: (String, String)| (e.0@, e.1@))
    }

    /// Key of entry `i` as text.
    pub proof fn lemma_text_pairs(self)
        ensures
            self.text_pairs().len() == self.pairs().len(),
            forall|i: int| 0 <= i < self.pairs().len() ==> (#[trigger] self.text_pairs()[i]).0 == self.pairs()[i].0
                && self.text_pairs()[i].1 == self.pairs()[i].1@,
    {
    }

    /// True when both maps hold the same keys bound to the same texts.
    pub fn same_text_as(&self, other: &Self) -> (r: bool)
        ensures
            r == (self.text_pairs() == other.text_pairs()),
    {
        if self.entries.len() != other.entries.len() {
            assert(self.text_pairs().len() != other.text_pairs().len());
            return false;
        }
        let mut i: usize = 0;
        while i < self.entries.len()
            invariant
                self.entries@.len() == other.entries@.len(),
                i <= self.entries@.len(),
                forall|j: int| 0 <= j < i ==> #[trigger] self.text_pairs()[j] == other.text_pairs()[j],
            decreases self.entries@.len() - i,
        {
            if !str_eq(self.entries[i].0.as_str(), other.entries[i].0.as_str())
                || !str_eq(self.entries[i].1.as_str(), other.entries[i].1.as_str()) {
                assert(self.text_pairs()[i as int] != other.text_pairs()[i as int]);
                return false;
            }
            i = i + 1;
        }
        assert(self.text_pairs() =~= other.text_pairs());
        true
    }
}

/// Decides equality of two string slices.
pub fn str_eq(a: &str, b: &str) -> (r: bool)
    ensures
        r == (a@ == b@),
{
    let x = chars_of(a);
    let y = chars_of(b);
    if x.len() != y.len() {
        return false;
    }
    let mut i: usize = 0;
    while i < x.len()
        invariant
            x@ == a@,
            y@ == b@,
            x@.len() == y@.len(),
            i <= x@.len(),
            forall|j: int| 0 <= j < i ==> x@[j] == y@[j],
        decreases x@.len() - i,
    {
        if x[i] != y[i] {
            return false;
        }
        i = i + 1;
    }
    assert(x@ =~= y@);
    true
}

} // verus!
