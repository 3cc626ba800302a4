//! Ranked keyword search over a marketplace catalog.
//!
//! A query is split into whitespace-separated terms, compared ASCII
//! case-insensitively. Each term found in a listing's id scores 8, in its
//! name 6, in its tags 4, in its summary 2 and in its intent 1. Listings
//! that score are returned by descending score, then ascending id, and in
//! catalog order when both tie. An empty query returns every listing.

use vstd::prelude::*;
use crate::fields::{char_is_whitespace, is_whitespace, texts};
use crate::marketplace::{MarketplaceCatalog, MarketplaceListing};
use crate::strmap::{lemma_seq_lt_irreflexive, lemma_seq_lt_total, lemma_seq_lt_transitive, seq_lt, str_eq, str_lt};
use crate::text::chars_of;

verus! {

/// ASCII lowercase of one character.
pub open spec fn ascii_lower(c: char) -> char {
    if 'A' <= c && c <= 'Z' {
        ((c as u32) + 32) as char
    } else {
        c
    }
}

/// ASCII lowercase of a text.
pub open spec fn lower(s: Seq<char>) -> Seq<char> {
    s.map_values(|c: char| ascii_lower(c))
}

/// `t` occurs in `h` as a contiguous run.
pub open spec fn contains_text(h: Seq<char>, t: Seq<char>) -> bool {
    exists|i: int| 0 <= i && i + t.len() <= h.len() && #[trigger] h.subrange(i, i + t.len()) == t
}

/// The words of `s` so far, and the word being read.
pub open spec fn words_acc(s: Seq<char>) -> (Seq<Seq<char>>, Seq<char>)
    decreases s.len(),
{
    if s.len() == 0 {
        (seq![], seq![])
    } else {
        let (w, cur) = words_acc(s.drop_last());
        if is_whitespace(s.last()) {
            if cur.len() > 0 {
                (w.push(cur), seq![])
            } else {
                (w, seq![])
            }
        } else {
            (w, cur.push(s.last()))
        }
    }
}

/// The maximal runs of non-whitespace characters, as `split_whitespace`
/// yields them.
pub open spec fn words(s: Seq<char>) -> Seq<Seq<char>> {
    let (w, cur) = words_acc(s);
    if cur.len() > 0 {
        w.push(cur)
    } else {
        w
    }
}

/// The parts joined with single spaces.
pub open spec fn join_spaced(parts: Seq<Seq<char>>) -> Seq<char>
    decreases parts.len(),
{
    if parts.len() == 0 {
        seq![]
    } else if parts.len() == 1 {
        parts[0]
    } else {
        join_spaced(parts.drop_last()) + seq![' '] + parts.last()
    }
}

/// 1 when the condition holds, else 0.
pub open spec fn one_if(b: bool) -> nat {
    if b {
        1
    } else {
        0
    }
}

/// What one (lowercase) term scores for a listing.
pub open spec fn term_score(l: MarketplaceListing, t: Seq<char>) -> nat {
    8 * one_if(contains_text(lower(l.id@), t)) + 6 * one_if(contains_text(lower(l.name@), t)) + 4 * one_if(
        contains_text(lower(join_spaced(texts(l.tags@))), t),
    ) + 2 * one_if(contains_text(lower(l.summary@), t)) + one_if(contains_text(lower(l.intent@), t))
}

/// What the first `n` terms score for a listing.
pub open spec fn terms_score(l: MarketplaceListing, terms: Seq<Seq<char>>, n: nat) -> nat
    decreases n,
{
    if n == 0 {
        0
    } else {
        terms_score(l, terms, (n - 1) as nat) + term_score(l, terms[n - 1])
    }
}

/// A listing's score for a query's lowercase terms; 1 for every listing
/// when there are none.
pub open spec fn listing_score(l: MarketplaceListing, terms: Seq<Seq<char>>) -> nat {
    if terms.len() == 0 {
        1
    } else {
        terms_score(l, terms, terms.len())
    }
}

/// The lowercase terms of a query.
pub open spec fn query_terms(q: Seq<char>) -> Seq<Seq<char>> {
    words(q).map_values(|w: Seq<char>| lower(w))
}

/// Listing `a` ranks before listing `b`: higher score, then smaller id,
/// then earlier in the catalog.
pub open spec fn ranks_before(ls: Seq<MarketplaceListing>, terms: Seq<Seq<char>>, a: int, b: int) -> bool {
    let sa = listing_score(ls[a], terms);
    let sb = listing_score(ls[b], terms);
    ||| sa > sb
    ||| sa == sb && seq_lt(ls[a].id@, ls[b].id@)
    ||| sa == sb && ls[a].id@ == ls[b].id@ && a < b
}

/// `idx` lists exactly the positions of the listings that score, in
/// ranking order.
pub open spec fn ranked(ls: Seq<MarketplaceListing>, terms: Seq<Seq<char>>, idx: Seq<int>) -> bool {
    &&& forall|k: int| 0 <= k < idx.len() ==> 0 <= #[trigger] idx[k] < ls.len() && listing_score(ls[idx[k]], terms) > 0
    &&& forall|i: int| 0 <= i < ls.len() && listing_score(ls[i], terms) > 0 ==> #[trigger] idx.contains(i)
    &&& forall|a: int, b: int| 0 <= a < b < idx.len() ==> ranks_before(ls, terms, #[trigger] idx[a], #[trigger] idx[b])
}

/// Ranking is irreflexive.
proof fn lemma_rank_irreflexive(ls: Seq<MarketplaceListing>, terms: Seq<Seq<char>>, a: int)
    ensures
        !ranks_before(ls, terms, a, a),
{
    lemma_seq_lt_irreflexive(ls[a].id@);
}

/// Ranking never goes both ways.
proof fn lemma_rank_asymmetric(ls: Seq<MarketplaceListing>, terms: Seq<Seq<char>>, a: int, b: int)
    requires
        ranks_before(ls, terms, a, b),
    ensures
        !ranks_before(ls, terms, b, a),
{
    if seq_lt(ls[a].id@, ls[b].id@) && seq_lt(ls[b].id@, ls[a].id@) {
        lemma_seq_lt_transitive(ls[a].id@, ls[b].id@, ls[a].id@);
        lemma_seq_lt_irreflexive(ls[a].id@);
    }
    if ls[a].id@ == ls[b].id@ {
        lemma_seq_lt_irreflexive(ls[a].id@);
    }
}

/// Distinct positions are ranked one way or the other.
proof fn lemma_rank_total(ls: Seq<MarketplaceListing>, terms: Seq<Seq<char>>, a: int, b: int)
    requires
        a != b,
    ensures
        ranks_before(ls, terms, a, b) || ranks_before(ls, terms, b, a),
{
    if ls[a].id@ != ls[b].id@ {
        lemma_seq_lt_total(ls[a].id@, ls[b].id@);
    }
}

/// Ranking is transitive.
proof fn lemma_rank_transitive(ls: Seq<MarketplaceListing>, terms: Seq<Seq<char>>, a: int, b: int, c: int)
    requires
        ranks_before(ls, terms, a, b),
        ranks_before(ls, terms, b, c),
    ensures
        ranks_before(ls, terms, a, c),
{
    if seq_lt(ls[a].id@, ls[b].id@) && seq_lt(ls[b].id@, ls[c].id@) {
        lemma_seq_lt_transitive(ls[a].id@, ls[b].id@, ls[c].id@);
    }
}

/// Positions sorted strictly in ranking order.
pub open spec fn rank_sorted(ls: Seq<MarketplaceListing>, terms: Seq<Seq<char>>, s: Seq<int>) -> bool {
    forall|a: int, b: int| 0 <= a < b < s.len() ==> ranks_before(ls, terms, #[trigger] s[a], #[trigger] s[b])
}

proof fn lemma_sorted_unique(ls: Seq<MarketplaceListing>, terms: Seq<Seq<char>>, a: Seq<int>, b: Seq<int>)
    requires
        rank_sorted(ls, terms, a),
        rank_sorted(ls, terms, b),
        forall|x: int| a.contains(x) <==> b.contains(x),
    ensures
        a == b,
    decreases a.len(),
{
    if a.len() == 0 {
        if b.len() > 0 {
            assert(b.contains(b[0]));
        }
        assert(a =~= b);
    } else {
        assert(a.contains(a[0]));
        assert(b.len() > 0);
        assert(b.contains(b[0]));
        if a[0] != b[0] {
            let ia = choose|i: int| 0 <= i < a.len() && a[i] == b[0];
            let ib = choose|i: int| 0 <= i < b.len() && b[i] == a[0];
            assert(ranks_before(ls, terms, a[0], a[ia]));
            assert(ranks_before(ls, terms, b[0], b[ib]));
            lemma_rank_asymmetric(ls, terms, a[0], b[0]);
        }
        let ta = a.drop_first();
        let tb = b.drop_first();
        assert forall|x: int| ta.contains(x) <==> tb.contains(x) by {
            if ta.contains(x) {
                let i = choose|i: int| 0 <= i < ta.len() && ta[i] == x;
                assert(a[i + 1] == x);
                assert(ranks_before(ls, terms, a[0], a[i + 1]));
                if x == a[0] {
                    lemma_rank_irreflexive(ls, terms, x);
                }
                assert(b.contains(x));
                let j = choose|j: int| 0 <= j < b.len() && b[j] == x;
                assert(j != 0);
                assert(tb[j - 1] == x);
            }
            if tb.contains(x) {
                let i = choose|i: int| 0 <= i < tb.len() && tb[i] == x;
                assert(b[i + 1] == x);
                assert(ranks_before(ls, terms, b[0], b[i + 1]));
                if x == b[0] {
                    lemma_rank_irreflexive(ls, terms, x);
                }
                assert(a.contains(x));
                let j = choose|j: int| 0 <= j < a.len() && a[j] == x;
                assert(j != 0);
                assert(ta[j - 1] == x);
            }
        }
        assert forall|p: int, q: int| 0 <= p < q < ta.len() implies ranks_before(ls, terms, #[trigger] ta[p], #[trigger] ta[q]) by {
            assert(ta[p] == a[p + 1] && ta[q] == a[q + 1]);
        }
        assert forall|p: int, q: int| 0 <= p < q < tb.len() implies ranks_before(ls, terms, #[trigger] tb[p], #[trigger] tb[q]) by {
            assert(tb[p] == b[p + 1] && tb[q] == b[q + 1]);
        }
        lemma_sorted_unique(ls, terms, ta, tb);
        assert(ta.len() == a.len() - 1);
        assert(tb.len() == b.len() - 1);
        assert(a.len() == b.len());
        assert forall|k: int| 0 <= k < a.len() implies a[k] == b[k] by {
            if k > 0 {
                assert(a[k] == ta[k - 1]);
                assert(b[k] == tb[k - 1]);
            }
        }
        assert(a =~= b);
    }
}

/// The ranking is unique: two orders that both rank the same catalog for
/// the same terms are equal, so search results are deterministic.
pub proof fn law_ranking_is_unique(ls: Seq<MarketplaceListing>, terms: Seq<Seq<char>>, a: Seq<int>, b: Seq<int>)
    requires
        ranked(ls, terms, a),
        ranked(ls, terms, b),
    ensures
        a == b,
{
    assert forall|x: int| a.contains(x) <==> b.contains(x) by {
        if a.contains(x) {
            let k = choose|k: int| 0 <= k < a.len() && a[k] == x;
            assert(0 <= a[k] < ls.len());
        }
        if b.contains(x) {
            let k = choose|k: int| 0 <= k < b.len() && b[k] == x;
            assert(0 <= b[k] < ls.len());
        }
    }
    lemma_sorted_unique(ls, terms, a, b);
}

/// ASCII lowercase of a text, as characters.
fn lower_chars(s: &str) -> (r: Vec<char>)
    ensures
        r@ == lower(s@),
{
    let cs = chars_of(s);
    let mut out: Vec<char> = Vec::new();
    let mut i: usize = 0;
    while i < cs.len()
        invariant
            cs@ == s@,
            i <= cs@.len(),
            out@ == lower(cs@.take(i as int)),
        decreases cs@.len() - i,
    {
        let c = cs[i];
        let d = if 'A' <= c && c <= 'Z' {
            ((c as u8) + 32) as char
        } else {
            c
        };
        assert(d == ascii_lower(c));
        out.push(d);
        i = i + 1;
        assert(out@ =~= lower(cs@.take(i as int)));
    }
    assert(cs@.take(cs@.len() as int) =~= cs@);
    out
}

/// True when `t` occurs in `h`.
pub(crate) fn contains_chars(h: &Vec<char>, t: &Vec<char>) -> (r: bool)
    ensures
        r == contains_text(h@, t@),
{
    if t.len() == 0 {
        assert(h@.subrange(0, 0int + t@.len()) =~= t@);
        return true;
    }
    if t.len() > h.len() {
        return false;
    }
    let hl = h.len();
    let last = hl - t.len();
    let mut i: usize = 0;
    while i <= last
        invariant
            hl == h@.len(),
            last == h@.len() - t@.len(),
            1 <= t@.len() <= h@.len(),
            forall|k: int| 0 <= k < i ==> #[trigger] h@.subrange(k, k + t@.len()) != t@,
        decreases last + 1 - i,
    {
        let mut j: usize = 0;
        while j < t.len() && h[i + j] == t[j]
            invariant
                hl == h@.len(),
                i <= last,
                last == h@.len() - t@.len(),
                j <= t@.len(),
                forall|q: int| 0 <= q < j ==> h@[i + q] == t@[q],
            decreases t@.len() - j,
        {
            j = j + 1;
        }
        if j == t.len() {
            assert(h@.subrange(i as int, i + t@.len()) =~= t@);
            return true;
        }
        assert(h@.subrange(i as int, i + t@.len())[j as int] != t@[j as int]);
        i = i + 1;
    }
    false
}

/// The words of a text.
pub(crate) fn split_words(q: &str) -> (r: Vec<String>)
    ensures
        texts(r@) == words(q@),
{
    let cs = chars_of(q);
    let mut done: Vec<String> = Vec::new();
    let mut cur: Vec<char> = Vec::new();
    let mut i: usize = 0;
    while i < cs.len()
        invariant
            cs@ == q@,
            i <= cs@.len(),
            texts(done@) == words_acc(cs@.take(i as int)).0,
            cur@ == words_acc(cs@.take(i as int)).1,
        decreases cs@.len() - i,
    {
        assert(cs@.take(i + 1).drop_last() =~= cs@.take(i as int));
        let c = cs[i];
        if char_is_whitespace(c) {
            if cur.len() > 0 {
                let w = crate::text::string_of(cur.as_slice());
                done.push(w);
                assert(texts(done@) =~= words_acc(cs@.take(i + 1)).0);
            }
            cur = Vec::new();
            assert(cur@ =~= words_acc(cs@.take(i + 1)).1);
        } else {
            cur.push(c);
        }
        i = i + 1;
    }
    assert(cs@.take(cs@.len() as int) =~= cs@);
    if cur.len() > 0 {
        let w = crate::text::string_of(cur.as_slice());
        done.push(w);
        assert(texts(done@) =~= words(q@));
    }
    done
}

/// The lowercase terms of a query.
fn terms_of(query: &str) -> (r: Vec<String>)
    ensures
        texts(r@) == query_terms(query@),
{
    let ws = split_words(query);
    let mut out: Vec<String> = Vec::new();
    let mut i: usize = 0;
    while i < ws.len()
        invariant
            i <= ws@.len(),
            texts(ws@) == words(query@),
            out@.len() == i,
            forall|j: int| 0 <= j < i ==> (#[trigger] out@[j])@ == lower(words(query@)[j]),
        decreases ws@.len() - i,
    {
        assert(texts(ws@)[i as int] == ws@[i as int]@);
        let l = lower_chars(ws[i].as_str());
        let s = crate::text::string_of(l.as_slice());
        out.push(s);
        i = i + 1;
    }
    assert(texts(out@) =~= query_terms(query@));
    out
}

/// The tags joined by single spaces.
pub(crate) fn joined_tags(tags: &Vec<String>) -> (r: String)
    ensures
        r@ == join_spaced(texts(tags@)),
{
    let ghost parts = texts(tags@);
    let mut out = String::new();
    let mut i: usize = 0;
    while i < tags.len()
        invariant
            i <= tags@.len(),
            parts == texts(tags@),
            out@ == join_spaced(parts.take(i as int)),
        decreases tags@.len() - i,
    {
        assert(parts.take(i + 1).drop_last() =~= parts.take(i as int));
        if i > 0 {
            crate::text::push_char(&mut out, ' ');
        }
        crate::text::push_str(&mut out, tags[i].as_str());
        assert(parts[i as int] == tags@[i as int]@);
        i = i + 1;
        if i == 1 {
            assert(out@ =~= join_spaced(parts.take(i as int)));
        } else {
            assert(out@ =~= join_spaced(parts.take(i as int)));
        }
    }
    assert(parts.take(tags@.len() as int) =~= parts);
    out
}

/// What the terms score for a listing: for each term, 8 when the id
/// contains it, 6 for the name, 4 for the tags, 2 for the summary and 1
/// for the intent, compared ASCII case-insensitively.
pub fn search_score(listing: &MarketplaceListing, terms: &[String]) -> (r: usize)
    requires
        21 * terms@.len() <= usize::MAX,
    ensures
        r == terms_score(*listing, texts(terms@), terms@.len()),
{
    let id = lower_chars(listing.id.as_str());
    let name = lower_chars(listing.name.as_str());
    let tags_text = joined_tags(&listing.tags);
    let tags = lower_chars(tags_text.as_str());
    let summary = lower_chars(listing.summary.as_str());
    let intent = lower_chars(listing.intent.as_str());
    let ghost ts = texts(terms@);
    let mut total: usize = 0;
    let mut i: usize = 0;
    while i < terms.len()
        invariant
            i <= terms@.len(),
            21 * terms@.len() <= usize::MAX,
            ts == texts(terms@),
            id@ == lower(listing.id@),
            name@ == lower(listing.name@),
            tags@ == lower(join_spaced(texts(listing.tags@))),
            summary@ == lower(listing.summary@),
            intent@ == lower(listing.intent@),
            total == terms_score(*listing, ts, i as nat),
            total <= 21 * i,
        decreases terms@.len() - i,
    {
        let t = chars_of(terms[i].as_str());
        assert(t@ == ts[i as int]);
        let mut s: usize = 0;
        if contains_chars(&id, &t) {
            s = s + 8;
        }
        if contains_chars(&name, &t) {
            s = s + 6;
        }
        if contains_chars(&tags, &t) {
            s = s + 4;
        }
        if contains_chars(&summary, &t) {
            s = s + 2;
        }
        if contains_chars(&intent, &t) {
            s = s + 1;
        }
        assert(s == term_score(*listing, ts[i as int]));
        total = total + s;
        i = i + 1;
    }
    total
}

/// There are no more words than characters.
proof fn lemma_words_len(s: Seq<char>)
    ensures
        words(s).len() <= s.len(),
        words_acc(s).0.len() + (if words_acc(s).1.len() > 0 {
            1int
        } else {
            0int
        }) <= s.len(),
        words_acc(s).1.len() <= s.len(),
    decreases s.len(),
{
    if s.len() > 0 {
        lemma_words_len(s.drop_last());
    }
}

impl MarketplaceCatalog {
    /// The listings matching a query, best first (see [`ranked`]).
    #[verifier::loop_isolation(false)]
    pub fn search(&self, query: &str) -> (r: Vec<&MarketplaceListing>)
        requires
            21 * query@.len() <= usize::MAX,
        ensures
            exists|idx: Seq<int>|
                ranked(self.listings@, query_terms(query@), idx) && r@.len() == idx.len() && forall|k: int|
                    0 <= k < idx.len() ==> *r@[k] == self.listings@[#[trigger] idx[k]],
    {
        let terms = terms_of(query);
        let ghost tv = query_terms(query@);
        proof {
            lemma_words_len(query@);
            assert(terms@.len() == texts(terms@).len());
        }
        let ls = &self.listings;
        let ghost lv = ls@;
        let mut scores: Vec<usize> = Vec::new();
        let mut order: Vec<usize> = Vec::new();
        let mut i: usize = 0;
        while i < ls.len()
            invariant
                i <= ls@.len(),
                lv == ls@,
                texts(terms@) == tv,
                scores@.len() == i,
                forall|j: int| 0 <= j < i ==> #[trigger] scores@[j] == listing_score(lv[j], tv),
                forall|k: int| 0 <= k < order@.len() ==> #[trigger] order@[k] < i && scores@[order@[k] as int] > 0,
                forall|j: int| 0 <= j < i && scores@[j] > 0 ==> #[trigger] order@.contains(j as usize),
                forall|a: int, b: int|
                    0 <= a < b < order@.len() ==> ranks_before(lv, tv, #[trigger] order@[a] as int, #[trigger] order@[b] as int),
            decreases ls@.len() - i,
        {
            let sc = if terms.len() == 0 {
                1
            } else {
                search_score(&ls[i], terms.as_slice())
            };
            assert(sc == listing_score(lv[i as int], tv));
            scores.push(sc);
            if sc > 0 {
                let mut p: usize = 0;
                while p < order.len() && !(sc > scores[order[p]] || (sc == scores[order[p]] && str_lt(
                    ls[i].id.as_str(),
                    ls[order[p]].id.as_str(),
                )))
                    invariant
                        p <= order@.len(),
                        forall|k: int| 0 <= k < p ==> ranks_before(lv, tv, #[trigger] order@[k] as int, i as int),
                    decreases order@.len() - p,
                {
                    proof {
                        let o = order@[p as int] as int;
                        assert(o < i);
                        lemma_rank_total(lv, tv, o, i as int);
                    }
                    p = p + 1;
                }
                let ghost before = order@;
                proof {
                    if p < order@.len() {
                        assert(ranks_before(lv, tv, i as int, order@[p as int] as int));
                    }
                }
                order.insert(p, i);
                proof {
                    assert forall|a: int, b: int| 0 <= a < b < order@.len() implies ranks_before(
                        lv,
                        tv,
                        #[trigger] order@[a] as int,
                        #[trigger] order@[b] as int,
                    ) by {
                        if b == p {
                            assert(order@[a] == before[a]);
                        } else if a == p {
                            assert(order@[b] == before[b - 1]);
                            if b - 1 > p {
                                lemma_rank_transitive(lv, tv, i as int, before[p as int] as int, before[b - 1] as int);
                            }
                        } else if a < p && b > p {
                            assert(order@[a] == before[a]);
                            assert(order@[b] == before[b - 1]);
                        } else if a > p {
                            assert(order@[a] == before[a - 1]);
                            assert(order@[b] == before[b - 1]);
                        } else {
                            assert(order@[a] == before[a]);
                            assert(order@[b] == before[b]);
                        }
                    }
                    assert forall|j: int| 0 <= j < i + 1 && scores@[j] > 0 implies #[trigger] order@.contains(j as usize) by {
                        if j < i {
                            assert(before.contains(j as usize));
                            let k = choose|k: int| 0 <= k < before.len() && before[k] == j as usize;
                            if k < p {
                                assert(order@[k] == j as usize);
                            } else {
                                assert(order@[k + 1] == j as usize);
                            }
                        } else {
                            assert(order@[p as int] == j as usize);
                        }
                    }
                    assert forall|k: int| 0 <= k < order@.len() implies #[trigger] order@[k] < i + 1 && scores@[order@[k] as int] > 0 by {
                        if k < p {
                            assert(order@[k] == before[k]);
                        } else if k > p {
                            assert(order@[k] == before[k - 1]);
                        }
                    }
                }
            }
            i = i + 1;
        }
        let ghost idx = order@.map_values(|x: usize| x as int);
        let mut r: Vec<&MarketplaceListing> = Vec::new();
        let mut k: usize = 0;
        while k < order.len()
            invariant
                k <= order@.len(),
                r@.len() == k,
                forall|q: int| 0 <= q < order@.len() ==> #[trigger] order@[q] < ls@.len(),
                forall|q: int| 0 <= q < k ==> *r@[q] == ls@[order@[q] as int],
            decreases order@.len() - k,
        {
            r.push(&ls[order[k]]);
            k = k + 1;
        }
        proof {
            assert forall|q: int| 0 <= q < idx.len() implies 0 <= #[trigger] idx[q] < lv.len() && listing_score(
                lv[idx[q]],
                tv,
            ) > 0 by {
                assert(idx[q] == order@[q] as int);
            }
            assert forall|j: int| 0 <= j < lv.len() && listing_score(lv[j], tv) > 0 implies #[trigger] idx.contains(j) by {
                assert(order@.contains(j as usize));
                let q = choose|q: int| 0 <= q < order@.len() && order@[q] == j as usize;
                assert(idx[q] == j);
            }
            assert forall|a: int, b: int| 0 <= a < b < idx.len() implies ranks_before(
                lv,
                tv,
                #[trigger] idx[a],
                #[trigger] idx[b],
            ) by {
                assert(idx[a] == order@[a] as int && idx[b] == order@[b] as int);
            }
            assert(ranked(lv, tv, idx));
            assert forall|q: int| 0 <= q < idx.len() implies *r@[q] == self.listings@[#[trigger] idx[q]] by {
                assert(idx[q] == order@[q] as int);
            }
        }
        r
    }
}

proof fn lemma_lower_char(c: char)
    ensures
        is_whitespace(ascii_lower(c)) == is_whitespace(c),
        ascii_lower(ascii_lower(c)) == ascii_lower(c),
        'A' <= ascii_lower(c) <= 'Z' ==> false,
{
    if 'A' <= c && c <= 'Z' {
        assert(('a' as u32) <= (c as u32) + 32 <= ('z' as u32));
    }
}

proof fn lemma_words_acc_lower(s: Seq<char>)
    ensures
        words_acc(lower(s)).0 == words_acc(s).0.map_values(|w: Seq<char>| lower(w)),
        words_acc(lower(s)).1 == lower(words_acc(s).1),
    decreases s.len(),
{
    if s.len() > 0 {
        lemma_words_acc_lower(s.drop_last());
        lemma_lower_char(s.last());
        assert(lower(s).drop_last() =~= lower(s.drop_last()));
        assert(lower(s).last() == ascii_lower(s.last()));
        let (w, cur) = words_acc(s.drop_last());
        assert(lower(cur.push(s.last())) =~= lower(cur).push(ascii_lower(s.last())));
        assert(w.push(cur).map_values(|x: Seq<char>| lower(x)) =~= w.map_values(|x: Seq<char>| lower(x)).push(lower(cur)));
        assert(lower(Seq::<char>::empty()) =~= Seq::<char>::empty());
    } else {
        assert(lower(s) =~= Seq::<char>::empty());
        assert(Seq::<Seq<char>>::empty().map_values(|w: Seq<char>| lower(w)) =~= Seq::<Seq<char>>::empty());
        assert(lower(Seq::<char>::empty()) =~= Seq::<char>::empty());
    }
}

proof fn lemma_lower_idempotent(w: Seq<char>)
    ensures
        lower(lower(w)) == lower(w),
{
    assert forall|i: int| 0 <= i < w.len() implies lower(lower(w))[i] == lower(w)[i] by {
        lemma_lower_char(w[i]);
    }
    assert(lower(lower(w)) =~= lower(w));
}

/// Search ignores ASCII case: a query and its ASCII lowercase have the
/// same terms, so they rank the same listings the same way; and every term
/// is already lowercase.
pub proof fn law_search_ignores_case(q: Seq<char>, ls: Seq<MarketplaceListing>, idx: Seq<int>)
    ensures
        query_terms(lower(q)) == query_terms(q),
        forall|i: int| 0 <= i < query_terms(q).len() ==> lower(#[trigger] query_terms(q)[i]) == query_terms(q)[i],
        forall|i: int, j: int|
            0 <= i < query_terms(q).len() && 0 <= j < query_terms(q)[i].len() ==> !('A' <= #[trigger] query_terms(
                q,
            )[i][j] <= 'Z'),
        ranked(ls, query_terms(lower(q)), idx) == ranked(ls, query_terms(q), idx),
{
    lemma_words_acc_lower(q);
    let (w, cur) = words_acc(q);
    assert(lower(Seq::<char>::empty()).len() == 0);
    assert(words(lower(q)) =~= words(q).map_values(|x: Seq<char>| lower(x))) by {
        if cur.len() > 0 {
            assert(w.push(cur).map_values(|x: Seq<char>| lower(x)) =~= w.map_values(|x: Seq<char>| lower(x)).push(
                lower(cur),
            ));
        }
    }
    assert forall|i: int| 0 <= i < query_terms(q).len() implies lower(#[trigger] query_terms(q)[i])
        == query_terms(q)[i] by {
        lemma_lower_idempotent(words(q)[i]);
    }
    assert forall|i: int, j: int|
        0 <= i < query_terms(q).len() && 0 <= j < query_terms(q)[i].len() implies !('A' <= #[trigger] query_terms(
            q,
        )[i][j] <= 'Z') by {
        lemma_lower_char(words(q)[i][j]);
    }
    assert(query_terms(lower(q)) =~= query_terms(q)) by {
        assert forall|i: int| 0 <= i < query_terms(q).len() implies query_terms(lower(q))[i] == query_terms(q)[i] by {
            lemma_lower_idempotent(words(q)[i]);
        }
    }
}

} // verus!
