//! Digest-bound grants and installed extension records.
//!
//! A grant names one recipe by id and by the SHA-256 digest of its canonical
//! JSON, together with exactly the capability kinds it requested; a record
//! pairs an authorized recipe with its grant, its enabled state and the
//! receipts of the project files it projected.

use vstd::prelude::*;
use vstd::utf8::encode_utf8;
use crate::digest::{content_digest, sha256_hex};
use crate::extension::{
    cap_kind, recipe_canonical_json, recipe_json, CapabilityKind, Contribution, ExtensionRecipe,
    ProjectProjection,
};
use crate::fields::{
    as_invalid, fault_text, first_fault, lemma_first_fault_stop, outcome, text2, text3, texts, ExtensionError,
    Fault,
};
use crate::recipe_rules::{has_kind, recipe_rule, recipe_valid};
use crate::strmap::str_eq;
use crate::text::{nat_decimal, push_str, push_u64_decimal};

verus! {

/// The exact approval of one recipe.
#[derive(Debug, Clone, PartialEq, Eq)]
pub struct ExtensionGrant {
    pub extension_id: String,
    pub recipe_digest: String,
    pub capabilities: Vec<CapabilityKind>,
}

/// Whether an installed extension is active.
#[derive(Debug, Clone, Copy, PartialEq, Eq, Structural)]
pub enum ExtensionState {
    Enabled,
    Disabled,
}

/// An installed extension.
#[derive(Debug, Clone, PartialEq, Eq)]
pub struct ExtensionRecord {
    pub version: u32,
    pub recipe: ExtensionRecipe,
    pub grant: ExtensionGrant,
    pub state: ExtensionState,
    pub projection_receipts: Vec<ProjectionReceipt>,
}

/// What applying one projection did: the file's previous contents, if any,
/// and the digest of what was written.
#[derive(Debug, Clone, PartialEq, Eq)]
pub struct ProjectionReceipt {
    pub path: String,
    pub previous: Option<String>,
    pub applied_digest: String,
}

/// The digest of a recipe: SHA-256 over its canonical JSON, in hex.
#[verifier::opaque]
pub open spec fn recipe_digest(r: ExtensionRecipe) -> Seq<char> {
    sha256_hex(encode_utf8(recipe_json(r)))
}

/// Every capability kind, in declaration order.
pub open spec fn all_kinds() -> Seq<CapabilityKind> {
    seq![
        CapabilityKind::ReadGraph,
        CapabilityKind::WriteGraph,
        CapabilityKind::ReadProject,
        CapabilityKind::WriteProject,
        CapabilityKind::RunValidation,
        CapabilityKind::Network,
        CapabilityKind::ContributeUi,
    ]
}

/// Whether a kind is among the capabilities.
pub open spec fn requested_by(caps: Seq<crate::extension::Capability>) -> spec_fn(CapabilityKind) -> bool {
    |k: CapabilityKind| has_kind(caps, k)
}

/// The kinds a recipe requests, each once, in declaration order.
pub open spec fn requested_kinds(r: ExtensionRecipe) -> Seq<CapabilityKind> {
    all_kinds().filter(requested_by(r.capabilities@))
}

impl ExtensionRecipe {
    /// The SHA-256 digest of the recipe's canonical JSON, for a valid recipe.
    pub fn digest(&self) -> (r: Result<String, ExtensionError>)
        ensures
            match recipe_rule(*self) {
                None => r matches Ok(d) && d@ == recipe_digest(*self) && d@.len() == 64,
                Some(m) => r matches Err(e) && e@ == Fault::Invalid(m),
            },
    {
        let v = self.validate();
        match v {
            Err(e) => Err(e),
            Ok(()) => {
                reveal(recipe_digest);
                let json = recipe_canonical_json(self);
                Ok(content_digest(json.as_str().as_bytes()))
            },
        }
    }

    /// The kinds of the requested capabilities, sorted, each once.
    pub fn capability_kinds(&self) -> (r: Vec<CapabilityKind>)
        ensures
            r@ == requested_kinds(*self),
    {
        let all: [CapabilityKind; 7] = [
            CapabilityKind::ReadGraph,
            CapabilityKind::WriteGraph,
            CapabilityKind::ReadProject,
            CapabilityKind::WriteProject,
            CapabilityKind::RunValidation,
            CapabilityKind::Network,
            CapabilityKind::ContributeUi,
        ];
        assert(all@ =~= all_kinds());
        proof {
            reveal(Seq::filter);
        }
        assert(all_kinds().take(0).filter(requested_by(self.capabilities@)) =~= Seq::<CapabilityKind>::empty());
        let mut out: Vec<CapabilityKind> = Vec::new();
        let mut i: usize = 0;
        while i < 7
            invariant
                i <= 7,
                all@ == all_kinds(),
                out@ == all_kinds().take(i as int).filter(requested_by(self.capabilities@)),
            decreases 7 - i,
        {
            let kind = all[i];
            let mut present = false;
            let mut j: usize = 0;
            while j < self.capabilities.len()
                invariant
                    j <= self.capabilities@.len(),
                    present == (exists|k: int| 0 <= k < j && cap_kind(self.capabilities@[k]) == kind),
                decreases self.capabilities@.len() - j,
            {
                if self.capabilities[j].kind() == kind {
                    present = true;
                }
                j = j + 1;
            }
            assert(present == has_kind(self.capabilities@, kind));
            assert(all_kinds().take(i + 1).drop_last() =~= all_kinds().take(i as int));
            if present {
                out.push(kind);
            }
            i = i + 1;
            proof {
                reveal(Seq::filter);
            }
            assert(out@ =~= all_kinds().take(i as int).filter(requested_by(self.capabilities@)));
        }
        assert(all_kinds().take(7) =~= all_kinds());
        out
    }
}

/// Some kind occurs twice.
pub open spec fn has_duplicate_kind(ks: Seq<CapabilityKind>) -> bool {
    exists|i: int, j: int| 0 <= i < j < ks.len() && ks[i] == ks[j]
}

/// The kinds listed are exactly those the capabilities have.
pub open spec fn same_kinds(ks: Seq<CapabilityKind>, caps: Seq<crate::extension::Capability>) -> bool {
    forall|k: CapabilityKind| ks.contains(k) <==> has_kind(caps, k)
}

/// Why a grant does not authorize a recipe, or `None` when it does: the
/// recipe is valid, and the grant names its id, its exact digest, and
/// exactly its capability kinds, each once.
pub open spec fn authorize_rule(g: ExtensionGrant, r: ExtensionRecipe) -> Option<Fault> {
    match recipe_rule(r) {
        Some(m) => Some(Fault::Invalid(m)),
        None => if g.extension_id@ != r.id@ {
            Some(Fault::Authorization("grant belongs to "@ + g.extension_id@ + ", not "@ + r.id@))
        } else if g.recipe_digest@ != recipe_digest(r) {
            Some(Fault::Authorization("grant digest does not match the exact recipe"@))
        } else {
            kinds_rule(g.capabilities@, r.capabilities@)
        },
    }
}

/// Granted kinds must be distinct and exactly the requested ones.
pub open spec fn kinds_rule(ks: Seq<CapabilityKind>, caps: Seq<crate::extension::Capability>) -> Option<Fault> {
    if has_duplicate_kind(ks) {
        Some(Fault::Authorization("grant contains duplicate capabilities"@))
    } else if !same_kinds(ks, caps) {
        Some(Fault::Authorization("grant must exactly match the recipe's requested capabilities"@))
    } else {
        None
    }
}

/// True when the kinds occur in the list.
fn kinds_contain(ks: &Vec<CapabilityKind>, k: CapabilityKind) -> (r: bool)
    ensures
        r == ks@.contains(k),
{
    let mut i: usize = 0;
    while i < ks.len()
        invariant
            i <= ks@.len(),
            forall|j: int| 0 <= j < i ==> ks@[j] != k,
        decreases ks@.len() - i,
    {
        if ks[i] == k {
            return true;
        }
        i = i + 1;
    }
    false
}

/// True when some capability of the recipe has the kind.
fn recipe_has_kind(r: &ExtensionRecipe, k: CapabilityKind) -> (b: bool)
    ensures
        b == has_kind(r.capabilities@, k),
{
    let mut i: usize = 0;
    while i < r.capabilities.len()
        invariant
            i <= r.capabilities@.len(),
            forall|j: int| 0 <= j < i ==> cap_kind(#[trigger] r.capabilities@[j]) != k,
        decreases r.capabilities@.len() - i,
    {
        if r.capabilities[i].kind() == k {
            return true;
        }
        i = i + 1;
    }
    false
}

impl ExtensionGrant {
    /// Grants a valid recipe exactly what it asks for, bound to its digest.
    pub fn approve(recipe: &ExtensionRecipe) -> (r: Result<Self, ExtensionError>)
        ensures
            match recipe_rule(*recipe) {
                Some(m) => r matches Err(e) && e@ == Fault::Invalid(m),
                None => r matches Ok(g) && g.extension_id@ == recipe.id@ && g.recipe_digest@ == recipe_digest(
                    *recipe,
                ) && g.recipe_digest@.len() == 64 && g.capabilities@ == requested_kinds(*recipe),
            },
    {
        let d = recipe.digest();
        match d {
            Err(e) => Err(e),
            Ok(digest) => Ok(
                ExtensionGrant {
                    extension_id: recipe.id.clone(),
                    recipe_digest: digest,
                    capabilities: recipe.capability_kinds(),
                },
            ),
        }
    }

    /// Checks that this grant authorizes exactly this recipe
    /// ([`authorize_rule`]).
    #[verifier::loop_isolation(false)]
    pub fn authorize(&self, recipe: &ExtensionRecipe) -> (r: Result<(), ExtensionError>)
        ensures
            outcome(r, authorize_rule(*self, *recipe)),
    {
        let d = recipe.digest();
        let digest = match d {
            Err(e) => return Err(e),
            Ok(digest) => digest,
        };
        if !str_eq(self.extension_id.as_str(), recipe.id.as_str()) {
            let mut m = String::new();
            push_str(&mut m, "grant belongs to ");
            push_str(&mut m, self.extension_id.as_str());
            push_str(&mut m, ", not ");
            push_str(&mut m, recipe.id.as_str());
            assert(m@ =~= "grant belongs to "@ + self.extension_id@ + ", not "@ + recipe.id@);
            return Err(ExtensionError::Authorization(m));
        }
        if !str_eq(self.recipe_digest.as_str(), digest.as_str()) {
            return Err(ExtensionError::Authorization("grant digest does not match the exact recipe".to_string()));
        }
        check_kinds(&self.capabilities, recipe)
    }
}

/// Checks [`kinds_rule`].
#[verifier::loop_isolation(false)]
fn check_kinds(ks: &Vec<CapabilityKind>, recipe: &ExtensionRecipe) -> (r: Result<(), ExtensionError>)
    ensures
        outcome(r, kinds_rule(ks@, recipe.capabilities@)),
{
    let mut i: usize = 0;
    while i < ks.len()
        invariant
            i <= ks@.len(),
            forall|a: int, b: int| 0 <= a < b < i ==> ks@[a] != ks@[b],
        decreases ks@.len() - i,
    {
        let mut j: usize = 0;
        while j < i
            invariant
                i < ks@.len(),
                j <= i,
                forall|a: int, b: int| 0 <= a < b < i ==> ks@[a] != ks@[b],
                forall|a: int| 0 <= a < j ==> ks@[a] != ks@[i as int],
            decreases i - j,
        {
            if ks[j] == ks[i] {
                assert(has_duplicate_kind(ks@));
                return Err(ExtensionError::Authorization("grant contains duplicate capabilities".to_string()));
            }
            j = j + 1;
        }
        i = i + 1;
    }
    let all: [CapabilityKind; 7] = [
        CapabilityKind::ReadGraph,
        CapabilityKind::WriteGraph,
        CapabilityKind::ReadProject,
        CapabilityKind::WriteProject,
        CapabilityKind::RunValidation,
        CapabilityKind::Network,
        CapabilityKind::ContributeUi,
    ];
    assert(all@ =~= all_kinds());
    let mut t: usize = 0;
    while t < 7
        invariant
            t <= 7,
            all@ == all_kinds(),
            forall|u: int| 0 <= u < t ==> (ks@.contains(#[trigger] all_kinds()[u]) <==> has_kind(recipe.capabilities@, all_kinds()[u])),
        decreases 7 - t,
    {
        if kinds_contain(ks, all[t]) != recipe_has_kind(recipe, all[t]) {
            assert(!same_kinds(ks@, recipe.capabilities@));
            return Err(
                ExtensionError::Authorization(
                    "grant must exactly match the recipe's requested capabilities".to_string(),
                ),
            );
        }
        t = t + 1;
    }
    assert forall|k: CapabilityKind| ks@.contains(k) <==> has_kind(recipe.capabilities@, k) by {
        let u = crate::extension::kind_rank(k) as int;
        assert(all_kinds()[u] == k);
    }
    Ok(())
}

/// Bytes of a receipt's baseline, zero when there was none.
pub open spec fn baseline_bytes(rc: ProjectionReceipt) -> nat {
    match rc.previous {
        Some(p) => encode_utf8(p@).len(),
        None => 0,
    }
}

/// The total baseline size of the first `n` receipts.
pub open spec fn baselines_through(rs: Seq<ProjectionReceipt>, n: nat) -> nat
    decreases n,
{
    if n == 0 {
        0
    } else {
        baselines_through(rs, (n - 1) as nat) + baseline_bytes(rs[n - 1])
    }
}

/// Receipt `k` of a record: for projection `k`'s path, with the digest of
/// its contents, a baseline of at most 1 MiB, the running baseline total at
/// most 4 MiB.
pub open spec fn receipt_step(rec: ExtensionRecord) -> spec_fn(int) -> Option<Fault> {
    |k: int|
        {
            let p = rec.recipe.projections@[k];
            let rc = rec.projection_receipts@[k];
            if p.path@ != rc.path@ {
                Some(Fault::Corrupt("projection receipt "@ + rc.path@ + " does not match "@ + p.path@))
            } else if rc.applied_digest@ != sha256_hex(encode_utf8(p.contents@)) {
                Some(Fault::Corrupt("projection receipt digest does not match "@ + p.path@))
            } else if baseline_bytes(rc) > 1048576 {
                Some(Fault::Corrupt("projection baseline for "@ + p.path@ + " exceeds 1048576 bytes"@))
            } else if baselines_through(rec.projection_receipts@, (k + 1) as nat) > 4194304 {
                Some(Fault::Corrupt("all projection baselines exceed 4194304 bytes"@))
            } else {
                None
            }
        }
}

/// Why a stored record is corrupt, or `None` when it is sound.
pub open spec fn record_rule(rec: ExtensionRecord) -> Option<Fault> {
    if rec.version != 1 {
        Some(Fault::Corrupt("unsupported record version "@ + nat_decimal(rec.version as nat) + "; expected 1"@))
    } else {
        match authorize_rule(rec.grant, rec.recipe) {
            Some(f) => Some(Fault::Corrupt(fault_text(f))),
            None => if rec.projection_receipts@.len() != rec.recipe.projections@.len() {
                Some(Fault::Corrupt("projection receipts do not match the installed recipe"@))
            } else {
                first_fault(rec.projection_receipts@.len(), receipt_step(rec))
            },
        }
    }
}

impl ExtensionRecord {
    /// An enabled record of an authorized recipe, with no receipts yet.
    pub fn new(recipe: ExtensionRecipe, grant: ExtensionGrant) -> (r: Result<Self, ExtensionError>)
        ensures
            match authorize_rule(grant, recipe) {
                Some(f) => r matches Err(e) && e@ == f,
                None => r matches Ok(rec) && rec.version == 1 && rec.recipe == recipe && rec.grant == grant
                    && rec.state == ExtensionState::Enabled && rec.projection_receipts@.len() == 0,
            },
    {
        let a = grant.authorize(&recipe);
        match a {
            Err(e) => Err(e),
            Ok(()) => Ok(
                ExtensionRecord {
                    version: 1,
                    recipe,
                    grant,
                    state: ExtensionState::Enabled,
                    projection_receipts: Vec::new(),
                },
            ),
        }
    }

    /// Checks a stored record against [`record_rule`].
    #[verifier::loop_isolation(false)]
    pub fn validate(&self) -> (r: Result<(), ExtensionError>)
        ensures
            outcome(r, record_rule(*self)),
    {
        if self.version != 1 {
            let mut m = String::new();
            push_str(&mut m, "unsupported record version ");
            push_u64_decimal(&mut m, self.version as u64);
            push_str(&mut m, "; expected 1");
            assert(m@ =~= "unsupported record version "@ + nat_decimal(self.version as nat) + "; expected 1"@);
            return Err(ExtensionError::Corrupt(m));
        }
        let a = self.grant.authorize(&self.recipe);
        match a {
            Err(e) => return Err(ExtensionError::Corrupt(e.message())),
            Ok(()) => {},
        }
        let ps = &self.recipe.projections;
        let rs = &self.projection_receipts;
        if rs.len() != ps.len() {
            return Err(
                ExtensionError::Corrupt("projection receipts do not match the installed recipe".to_string()),
            );
        }
        let ghost f = receipt_step(*self);
        let mut total: usize = 0;
        let mut i: usize = 0;
        while i < rs.len()
            invariant
                i <= rs@.len(),
                first_fault(i as nat, f) is None,
                total == baselines_through(rs@, i as nat),
                total <= 4194304,
            decreases rs@.len() - i,
        {
            let p = &ps[i];
            let rc = &rs[i];
            if !str_eq(p.path.as_str(), rc.path.as_str()) {
                let mut m = String::new();
                push_str(&mut m, "projection receipt ");
                push_str(&mut m, rc.path.as_str());
                push_str(&mut m, " does not match ");
                push_str(&mut m, p.path.as_str());
                assert(m@ =~= "projection receipt "@ + rc.path@ + " does not match "@ + p.path@);
                proof {
                    lemma_first_fault_stop(i as nat, rs@.len(), f);
                }
                return Err(ExtensionError::Corrupt(m));
            }
            let d = content_digest(p.contents.as_str().as_bytes());
            if !str_eq(rc.applied_digest.as_str(), d.as_str()) {
                proof {
                    lemma_first_fault_stop(i as nat, rs@.len(), f);
                }
                return Err(
                    ExtensionError::Corrupt(text2("projection receipt digest does not match ", p.path.as_str())),
                );
            }
            match &rc.previous {
                Some(prev) => {
                    let size = prev.as_str().as_bytes().len();
                    if size > 1048576 {
                        proof {
                            lemma_first_fault_stop(i as nat, rs@.len(), f);
                        }
                        return Err(
                            ExtensionError::Corrupt(
                                text3("projection baseline for ", p.path.as_str(), " exceeds 1048576 bytes"),
                            ),
                        );
                    }
                    total = total + size;
                    if total > 4194304 {
                        proof {
                            lemma_first_fault_stop(i as nat, rs@.len(), f);
                        }
                        return Err(
                            ExtensionError::Corrupt("all projection baselines exceed 4194304 bytes".to_string()),
                        );
                    }
                },
                None => {},
            }
            assert(f(i as int) is None);
            i = i + 1;
        }
        Ok(())
    }
}

/// The graph path of an extension's node.
pub fn extension_path(id: &str) -> (r: String)
    ensures
        r@ == "extension::"@ + id@,
{
    text2("extension::", id)
}

/// The label of a state as stored on the extension's graph node.
pub fn state_label(state: ExtensionState) -> (r: &'static str)
    ensures
        r@ == (match state {
            ExtensionState::Enabled => "enabled"@,
            ExtensionState::Disabled => "disabled"@,
        }),
{
    match state {
        ExtensionState::Enabled => "enabled",
        ExtensionState::Disabled => "disabled",
    }
}

/// Filtering keeps exactly the elements that satisfy the predicate and
/// keeps a duplicate-free sequence duplicate-free.
proof fn lemma_filter_distinct<A>(s: Seq<A>, p: spec_fn(A) -> bool)
    requires
        forall|i: int, j: int| 0 <= i < j < s.len() ==> s[i] != s[j],
    ensures
        forall|i: int, j: int| 0 <= i < j < s.filter(p).len() ==> s.filter(p)[i] != s.filter(p)[j],
        forall|x: A| s.filter(p).contains(x) <==> (s.contains(x) && p(x)),
    decreases s.len(),
{
    assert forall|x: A| s.filter(p).contains(x) <==> (s.contains(x) && p(x)) by {
        if s.filter(p).contains(x) {
            s.lemma_filter_contains_rev(p, x);
            let v = choose|v: int| 0 <= v < s.filter(p).len() && s.filter(p)[v] == x;
            s.lemma_filter_pred(p, v);
        }
        if s.contains(x) && p(x) {
            let w = choose|w: int| 0 <= w < s.len() && s[w] == x;
            s.lemma_filter_contains(p, w);
        }
    }
    if s.len() > 0 {
        let d = s.drop_last();
        lemma_filter_distinct(d, p);
        reveal(Seq::filter);
        if p(s.last()) {
            assert(s.filter(p) == d.filter(p).push(s.last()));
            assert forall|i: int, j: int| 0 <= i < j < s.filter(p).len() implies s.filter(p)[i] != s.filter(p)[j] by {
                if j == s.filter(p).len() - 1 && s.filter(p)[i] == s.filter(p)[j] {
                    assert(d.filter(p)[i] == s.last());
                    assert(d.filter(p).contains(s.last()));
                    d.lemma_filter_contains_rev(p, s.last());
                    let w = choose|w: int| 0 <= w < d.len() && d[w] == s.last();
                    assert(s[w] == s[s.len() - 1]);
                }
            }
        } else {
            assert(s.filter(p) == d.filter(p));
        }
    }
}

/// A grant approved for a recipe authorizes that recipe.
pub proof fn law_approved_grant_authorizes(r: ExtensionRecipe, g: ExtensionGrant)
    requires
        recipe_valid(r),
        g.extension_id@ == r.id@,
        g.recipe_digest@ == recipe_digest(r),
        g.capabilities@ == requested_kinds(r),
    ensures
        authorize_rule(g, r) is None,
{
    assert forall|i: int, j: int| 0 <= i < j < all_kinds().len() implies all_kinds()[i] != all_kinds()[j] by {}
    lemma_filter_distinct(all_kinds(), requested_by(r.capabilities@));
    assert forall|k: CapabilityKind| g.capabilities@.contains(k) <==> has_kind(r.capabilities@, k) by {
        let u = crate::extension::kind_rank(k) as int;
        assert(all_kinds()[u] == k);
        assert(all_kinds().contains(k));
    }
}

/// A grant authorizes a recipe only when it names the recipe's id and exact
/// digest, and grants exactly the kinds the recipe requests.
pub proof fn law_authorization_is_exact(g: ExtensionGrant, r: ExtensionRecipe)
    requires
        authorize_rule(g, r) is None,
    ensures
        recipe_valid(r),
        g.extension_id@ == r.id@,
        g.recipe_digest@ == recipe_digest(r),
        forall|k: CapabilityKind| g.capabilities@.contains(k) <==> has_kind(r.capabilities@, k),
{
}

/// A freshly created record of a recipe without projections is sound.
pub proof fn law_new_record_without_projections_is_sound(rec: ExtensionRecord)
    requires
        authorize_rule(rec.grant, rec.recipe) is None,
        rec.version == 1,
        rec.recipe.projections@.len() == 0,
        rec.projection_receipts@.len() == 0,
    ensures
        record_rule(rec) is None,
{
}

} // verus!
