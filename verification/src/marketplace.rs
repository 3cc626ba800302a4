//! A catalog of reviewed extension intents.
//!
//! Each listing carries a reference recipe, the digest of that recipe, the
//! digest of the listing's reviewed content, and reviews bound to both
//! digests. A listing is only valid while every digest matches what it
//! describes and at least one review approves it.

use vstd::prelude::*;
use vstd::utf8::encode_utf8;
use crate::digest::{content_digest, sha256_hex};
use crate::extension::{
    cap_kind, capability_json, clone_capability, lemma_capability_json_view, more, push_capability_json,
    push_recipe_json, recipe_json, Capability, CapabilityKind, ExtensionRecipe,
};
use crate::fields::{
    as_invalid, digest_rule, extension_id_rule, first_fault, lemma_first_fault_stop, or_else, outcome,
    slug_rule, text2, text3, text_rule, texts, validate_digest, validate_extension_id, validate_slug,
    validate_text, ExtensionError, Fault,
};
use crate::grant::recipe_digest;
use crate::json::{
    json_array, json_join, json_member, json_nat, json_string, json_string_array, lemma_json_join_push,
    push_json_string, push_json_string_array, push_json_u32, push_member_name,
};
use crate::recipe_rules::recipe_rule;
use crate::strmap::{seq_lt, str_eq, StrMap};
use crate::text::{nat_decimal, push_char, push_str, push_u64_decimal};

verus! {

/// The catalog format version this library reads and writes.
pub const CATALOG_VERSION: u32 = 1;

/// Largest accepted catalog text, in bytes.
pub const MAX_CATALOG_BYTES: usize = 2097152;

/// A catalog of reviewed listings.
#[derive(Debug, Clone, PartialEq, Eq)]
pub struct MarketplaceCatalog {
    pub version: u32,
    pub id: String,
    pub name: String,
    pub description: String,
    pub listings: Vec<MarketplaceListing>,
}

/// One reviewed extension intent.
#[derive(Debug, Clone, PartialEq, Eq)]
pub struct MarketplaceListing {
    pub id: String,
    pub name: String,
    pub summary: String,
    pub intent: String,
    pub tags: Vec<String>,
    pub reference_recipe: ExtensionRecipe,
    pub recipe_digest: String,
    pub listing_digest: String,
    pub reviews: Vec<MarketplaceReview>,
}

/// An auditor's decision on a listing, bound to its digests.
#[derive(Debug, Clone, PartialEq, Eq)]
pub struct MarketplaceReview {
    pub auditor: String,
    pub decision: ReviewDecision,
    pub recipe_digest: String,
    pub listing_digest: String,
    pub evidence: String,
}

/// Approve or reject.
#[derive(Debug, Clone, Copy, PartialEq, Eq, Structural)]
pub enum ReviewDecision {
    Approved,
    Rejected,
}

/// How an adapted recipe's capabilities differ from a listing's reference
/// recipe, compared by exact scope.
#[derive(Debug, Clone, PartialEq, Eq)]
pub struct CapabilityDelta {
    pub added: Vec<Capability>,
    pub removed: Vec<Capability>,
}

// ---------------------------------------------------------------- canonical JSON

/// `"approved"` or `"rejected"`.
pub open spec fn decision_tag(d: ReviewDecision) -> Seq<char> {
    match d {
        ReviewDecision::Approved => "approved"@,
        ReviewDecision::Rejected => "rejected"@,
    }
}

/// The canonical JSON of a review.
#[verifier::opaque]
pub open spec fn review_json(v: MarketplaceReview) -> Seq<char> {
    seq!['{'] + json_member("auditor"@, json_string(v.auditor@)) + more(
        "decision"@,
        json_string(decision_tag(v.decision)),
    ) + more("recipe_digest"@, json_string(v.recipe_digest@)) + more(
        "listing_digest"@,
        json_string(v.listing_digest@),
    ) + more("evidence"@, json_string(v.evidence@)) + seq!['}']
}

/// The listing members that its digest covers, without the closing brace.
#[verifier::opaque]
pub open spec fn listing_payload_members(l: MarketplaceListing) -> Seq<char> {
    seq!['{'] + json_member("id"@, json_string(l.id@)) + more("name"@, json_string(l.name@)) + more(
        "summary"@,
        json_string(l.summary@),
    ) + more("intent"@, json_string(l.intent@)) + more("tags"@, json_string_array(texts(l.tags@))) + more(
        "reference_recipe"@,
        recipe_json(l.reference_recipe),
    ) + more("recipe_digest"@, json_string(l.recipe_digest@))
}

/// The reviewed content of a listing: everything but its own digest and
/// its reviews.
pub open spec fn listing_payload_json(l: MarketplaceListing) -> Seq<char> {
    listing_payload_members(l) + seq!['}']
}

/// The digest of a listing's reviewed content.
#[verifier::opaque]
pub open spec fn listing_content_digest(l: MarketplaceListing) -> Seq<char> {
    sha256_hex(encode_utf8(listing_payload_json(l)))
}

/// A JSON array of reviews.
pub open spec fn reviews_json(vs: Seq<MarketplaceReview>) -> Seq<char> {
    json_array(vs.map_values(|v: MarketplaceReview| review_json(v)))
}

/// The canonical JSON of a listing.
#[verifier::opaque]
pub open spec fn listing_json(l: MarketplaceListing) -> Seq<char> {
    listing_payload_members(l) + more("listing_digest"@, json_string(l.listing_digest@)) + more(
        "reviews"@,
        reviews_json(l.reviews@),
    ) + seq!['}']
}

/// A JSON array of listings.
pub open spec fn listings_json(ls: Seq<MarketplaceListing>) -> Seq<char> {
    json_array(ls.map_values(|l: MarketplaceListing| listing_json(l)))
}

/// The canonical JSON of a catalog.
#[verifier::opaque]
pub open spec fn catalog_json(c: MarketplaceCatalog) -> Seq<char> {
    seq!['{'] + json_member("version"@, json_nat(c.version as nat)) + more("id"@, json_string(c.id@)) + more(
        "name"@,
        json_string(c.name@),
    ) + more("description"@, json_string(c.description@)) + more("listings"@, listings_json(c.listings@))
        + seq!['}']
}

/// Appends `,"name":"<text>"`.
fn push_text_member(out: &mut String, name: &str, text: &str)
    ensures
        final(out)@ == old(out)@ + more(name@, json_string(text@)),
{
    let ghost start = out@;
    push_char(out, ',');
    push_member_name(out, name);
    push_json_string(out, text);
    assert(out@ =~= start + more(name@, json_string(text@)));
}

/// Appends the canonical JSON of a review.
fn push_review_json(out: &mut String, v: &MarketplaceReview)
    ensures
        final(out)@ == old(out)@ + review_json(*v),
{
    let ghost start = out@;
    push_char(out, '{');
    push_member_name(out, "auditor");
    push_json_string(out, v.auditor.as_str());
    let ghost a = seq!['{'] + json_member("auditor"@, json_string(v.auditor@));
    assert(out@ =~= start + a);
    let tag = match v.decision {
        ReviewDecision::Approved => "approved",
        ReviewDecision::Rejected => "rejected",
    };
    push_text_member(out, "decision", tag);
    let ghost b = more("decision"@, json_string(decision_tag(v.decision)));
    proof { vstd::seq_lib::lemma_concat_associative(start, a, b); }
    push_text_member(out, "recipe_digest", v.recipe_digest.as_str());
    let ghost c = more("recipe_digest"@, json_string(v.recipe_digest@));
    proof { vstd::seq_lib::lemma_concat_associative(start, a + b, c); }
    push_text_member(out, "listing_digest", v.listing_digest.as_str());
    let ghost d = more("listing_digest"@, json_string(v.listing_digest@));
    proof { vstd::seq_lib::lemma_concat_associative(start, a + b + c, d); }
    push_text_member(out, "evidence", v.evidence.as_str());
    let ghost e = more("evidence"@, json_string(v.evidence@));
    proof { vstd::seq_lib::lemma_concat_associative(start, a + b + c + d, e); }
    push_char(out, '}');
    proof {
        vstd::seq_lib::lemma_concat_associative(start, a + b + c + d + e, seq!['}']);
        reveal(review_json);
    }
}

/// Appends the members a listing's digest covers.
fn push_listing_payload_members(out: &mut String, l: &MarketplaceListing)
    ensures
        final(out)@ == old(out)@ + listing_payload_members(*l),
{
    let ghost start = out@;
    push_char(out, '{');
    push_member_name(out, "id");
    push_json_string(out, l.id.as_str());
    let ghost a = seq!['{'] + json_member("id"@, json_string(l.id@));
    assert(out@ =~= start + a);
    push_text_member(out, "name", l.name.as_str());
    let ghost b = more("name"@, json_string(l.name@));
    proof { vstd::seq_lib::lemma_concat_associative(start, a, b); }
    push_text_member(out, "summary", l.summary.as_str());
    let ghost c = more("summary"@, json_string(l.summary@));
    proof { vstd::seq_lib::lemma_concat_associative(start, a + b, c); }
    push_text_member(out, "intent", l.intent.as_str());
    let ghost d = more("intent"@, json_string(l.intent@));
    proof { vstd::seq_lib::lemma_concat_associative(start, a + b + c, d); }
    let ghost s1 = out@;
    push_char(out, ',');
    push_member_name(out, "tags");
    push_json_string_array(out, &l.tags);
    let ghost e = more("tags"@, json_string_array(texts(l.tags@)));
    assert(out@ =~= s1 + e);
    proof { vstd::seq_lib::lemma_concat_associative(start, a + b + c + d, e); }
    let ghost s2 = out@;
    push_char(out, ',');
    push_member_name(out, "reference_recipe");
    push_recipe_json(out, &l.reference_recipe);
    let ghost f = more("reference_recipe"@, recipe_json(l.reference_recipe));
    assert(out@ =~= s2 + f);
    proof { vstd::seq_lib::lemma_concat_associative(start, a + b + c + d + e, f); }
    push_text_member(out, "recipe_digest", l.recipe_digest.as_str());
    let ghost g = more("recipe_digest"@, json_string(l.recipe_digest@));
    proof {
        vstd::seq_lib::lemma_concat_associative(start, a + b + c + d + e + f, g);
        reveal(listing_payload_members);
    }
}

/// Appends a JSON array of reviews.
fn push_reviews_json(out: &mut String, vs: &Vec<MarketplaceReview>)
    ensures
        final(out)@ == old(out)@ + reviews_json(vs@),
{
    let ghost start = out@;
    let ghost parts = vs@.map_values(|v: MarketplaceReview| review_json(v));
    push_char(out, '[');
    let mut i: usize = 0;
    while i < vs.len()
        invariant
            i <= vs@.len(),
            parts == vs@.map_values(|v: MarketplaceReview| review_json(v)),
            out@ == start + seq!['['] + json_join(parts.take(i as int)),
        decreases vs@.len() - i,
    {
        proof {
            lemma_json_join_push(parts, i as int);
        }
        if i > 0 {
            push_char(out, ',');
        }
        push_review_json(out, &vs[i]);
        i = i + 1;
        assert(out@ =~= start + seq!['['] + json_join(parts.take(i as int)));
    }
    assert(parts.take(vs@.len() as int) =~= parts);
    push_char(out, ']');
    assert(out@ =~= start + reviews_json(vs@));
}

/// Appends the canonical JSON of a listing.
fn push_listing_json(out: &mut String, l: &MarketplaceListing)
    ensures
        final(out)@ == old(out)@ + listing_json(*l),
{
    let ghost start = out@;
    push_listing_payload_members(out, l);
    let ghost a = listing_payload_members(*l);
    push_text_member(out, "listing_digest", l.listing_digest.as_str());
    let ghost b = more("listing_digest"@, json_string(l.listing_digest@));
    proof { vstd::seq_lib::lemma_concat_associative(start, a, b); }
    let ghost s1 = out@;
    push_char(out, ',');
    push_member_name(out, "reviews");
    push_reviews_json(out, &l.reviews);
    let ghost c = more("reviews"@, reviews_json(l.reviews@));
    assert(out@ =~= s1 + c);
    proof { vstd::seq_lib::lemma_concat_associative(start, a + b, c); }
    push_char(out, '}');
    proof {
        vstd::seq_lib::lemma_concat_associative(start, a + b + c, seq!['}']);
        reveal(listing_json);
    }
}

/// Appends a JSON array of listings.
fn push_listings_json(out: &mut String, ls: &Vec<MarketplaceListing>)
    ensures
        final(out)@ == old(out)@ + listings_json(ls@),
{
    let ghost start = out@;
    let ghost parts = ls@.map_values(|l: MarketplaceListing| listing_json(l));
    push_char(out, '[');
    let mut i: usize = 0;
    while i < ls.len()
        invariant
            i <= ls@.len(),
            parts == ls@.map_values(|l: MarketplaceListing| listing_json(l)),
            out@ == start + seq!['['] + json_join(parts.take(i as int)),
        decreases ls@.len() - i,
    {
        proof {
            lemma_json_join_push(parts, i as int);
        }
        if i > 0 {
            push_char(out, ',');
        }
        push_listing_json(out, &ls[i]);
        i = i + 1;
        assert(out@ =~= start + seq!['['] + json_join(parts.take(i as int)));
    }
    assert(parts.take(ls@.len() as int) =~= parts);
    push_char(out, ']');
    assert(out@ =~= start + listings_json(ls@));
}

/// The canonical JSON text of a catalog.
pub fn catalog_canonical_json(c: &MarketplaceCatalog) -> (s: String)
    ensures
        s@ == catalog_json(*c),
{
    let mut out = String::new();
    let ghost start = out@;
    push_char(&mut out, '{');
    push_member_name(&mut out, "version");
    push_json_u32(&mut out, c.version);
    let ghost a = seq!['{'] + json_member("version"@, json_nat(c.version as nat));
    assert(out@ =~= start + a);
    push_text_member(&mut out, "id", c.id.as_str());
    let ghost b = more("id"@, json_string(c.id@));
    proof { vstd::seq_lib::lemma_concat_associative(start, a, b); }
    push_text_member(&mut out, "name", c.name.as_str());
    let ghost d = more("name"@, json_string(c.name@));
    proof { vstd::seq_lib::lemma_concat_associative(start, a + b, d); }
    push_text_member(&mut out, "description", c.description.as_str());
    let ghost e = more("description"@, json_string(c.description@));
    proof { vstd::seq_lib::lemma_concat_associative(start, a + b + d, e); }
    let ghost s1 = out@;
    push_char(&mut out, ',');
    push_member_name(&mut out, "listings");
    push_listings_json(&mut out, &c.listings);
    let ghost f = more("listings"@, listings_json(c.listings@));
    assert(out@ =~= s1 + f);
    proof { vstd::seq_lib::lemma_concat_associative(start, a + b + d + e, f); }
    push_char(&mut out, '}');
    proof { vstd::seq_lib::lemma_concat_associative(start, a + b + d + e + f, seq!['}']); }
    assert(start =~= Seq::<char>::empty());
    proof {
        reveal(catalog_json);
    }
    assert(out@ =~= catalog_json(*c));
    out
}

impl MarketplaceListing {
    /// The digest of the listing's reviewed content.
    pub fn content_digest(&self) -> (r: String)
        ensures
            r@ == listing_content_digest(*self),
            r@.len() == 64,
    {
        let mut out = String::new();
        push_listing_payload_members(&mut out, self);
        push_char(&mut out, '}');
        assert(out@ =~= listing_payload_json(*self));
        proof {
            reveal(listing_content_digest);
        }
        content_digest(out.as_str().as_bytes())
    }
}

// ---------------------------------------------------------------- validation

/// A review bound to the expected recipe and listing digests.
pub open spec fn review_rule(v: MarketplaceReview, recipe_d: Seq<char>, listing_d: Seq<char>) -> Option<Seq<char>> {
    or_else(
        extension_id_rule(v.auditor@),
        or_else(
            digest_rule("review recipe digest"@, v.recipe_digest@),
            or_else(
                digest_rule("review listing digest"@, v.listing_digest@),
                or_else(
                    text_rule("review evidence"@, v.evidence@, 1, 1000),
                    if v.recipe_digest@ != recipe_d {
                        Some("review by "@ + v.auditor@ + " is not bound to the listing recipe digest"@)
                    } else if v.listing_digest@ != listing_d {
                        Some("review by "@ + v.auditor@ + " is not bound to the full marketplace listing"@)
                    } else {
                        None
                    },
                ),
            ),
        ),
    )
}

impl MarketplaceReview {
    /// Checks the review against [`review_rule`].
    pub fn validate(&self, expected_recipe_digest: &str, expected_listing_digest: &str) -> (r: Result<
        (),
        ExtensionError,
    >)
        ensures
            outcome(r, as_invalid(review_rule(*self, expected_recipe_digest@, expected_listing_digest@))),
    {
        let c = validate_extension_id(self.auditor.as_str());
        if c.is_err() {
            return c;
        }
        let c = validate_digest("review recipe digest", self.recipe_digest.as_str());
        if c.is_err() {
            return c;
        }
        let c = validate_digest("review listing digest", self.listing_digest.as_str());
        if c.is_err() {
            return c;
        }
        let c = validate_text("review evidence", self.evidence.as_str(), 1, 1000);
        if c.is_err() {
            return c;
        }
        if !str_eq(self.recipe_digest.as_str(), expected_recipe_digest) {
            return Err(
                ExtensionError::Invalid(
                    text3("review by ", self.auditor.as_str(), " is not bound to the listing recipe digest"),
                ),
            );
        }
        if !str_eq(self.listing_digest.as_str(), expected_listing_digest) {
            return Err(
                ExtensionError::Invalid(
                    text3("review by ", self.auditor.as_str(), " is not bound to the full marketplace listing"),
                ),
            );
        }
        Ok(())
    }
}

/// Tag `k` of a listing: a slug of at most 32 bytes, not repeated.
pub open spec fn tag_step(l: MarketplaceListing) -> spec_fn(int) -> Option<Seq<char>> {
    |k: int|
        or_else(
            slug_rule("marketplace tag"@, texts(l.tags@)[k], 32),
            if exists|i: int| 0 <= i < k && texts(l.tags@)[i] == texts(l.tags@)[k] {
                Some("listing "@ + l.id@ + " contains duplicate tags"@)
            } else {
                None
            },
        )
}

/// Review `k` of a listing: valid, bound to the listing's digests, by a
/// auditor not seen before.
pub open spec fn review_step(l: MarketplaceListing) -> spec_fn(int) -> Option<Seq<char>> {
    |k: int|
        {
            let v = l.reviews@[k];
            or_else(
                review_rule(v, recipe_digest(l.reference_recipe), listing_content_digest(l)),
                if exists|i: int| 0 <= i < k && l.reviews@[i].auditor@ == v.auditor@ {
                    Some("listing "@ + l.id@ + " contains duplicate auditor "@ + v.auditor@)
                } else {
                    None
                },
            )
        }
}

/// Some review approves.
pub open spec fn has_approval(vs: Seq<MarketplaceReview>) -> bool {
    exists|i: int| 0 <= i < vs.len() && vs[i].decision == ReviewDecision::Approved
}

/// Everything a listing must satisfy, checked in order.
#[verifier::opaque]
pub open spec fn listing_rule(l: MarketplaceListing) -> Option<Seq<char>> {
    let id = l.id@;
    let r = l.reference_recipe;
    or_else(
        extension_id_rule(id),
        or_else(
            text_rule("listing name"@, l.name@, 1, 80),
            or_else(
                text_rule("listing summary"@, l.summary@, 1, 500),
                or_else(
                    text_rule("listing intent"@, l.intent@, 1, 2000),
                    if l.tags@.len() > 16 {
                        Some("listing "@ + id + " contains more than 16 tags"@)
                    } else {
                        or_else(
                            first_fault(l.tags@.len(), tag_step(l)),
                            or_else(
                                recipe_rule(r),
                                if r.version != 1 {
                                    Some("listing "@ + id + " uses an unsupported recipe version"@)
                                } else if r.id@ != id {
                                    Some("listing "@ + id + " does not match reference recipe id "@ + r.id@)
                                } else {
                                    listing_digest_rule(l)
                                },
                            ),
                        )
                    },
                ),
            ),
        ),
    )
}

/// The digest and review part of [`listing_rule`].
pub open spec fn listing_digest_rule(l: MarketplaceListing) -> Option<Seq<char>> {
    let id = l.id@;
    or_else(
        digest_rule("listing recipe digest"@, l.recipe_digest@),
        if l.recipe_digest@ != recipe_digest(l.reference_recipe) {
            Some("listing "@ + id + " recipe digest does not match its reference recipe"@)
        } else {
            or_else(
                digest_rule("listing digest"@, l.listing_digest@),
                if l.listing_digest@ != listing_content_digest(l) {
                    Some("listing "@ + id + " digest does not match its reviewed content"@)
                } else if l.reviews@.len() == 0 || l.reviews@.len() > 16 {
                    Some("listing "@ + id + " must contain 1 to 16 reviews"@)
                } else {
                    or_else(
                        first_fault(l.reviews@.len(), review_step(l)),
                        if has_approval(l.reviews@) {
                            None
                        } else {
                            Some("listing "@ + id + " has no review approving the exact recipe digest"@)
                        },
                    )
                },
            )
        },
    )
}

impl MarketplaceListing {
    /// Checks the listing against [`listing_rule`].
    pub fn validate(&self) -> (r: Result<(), ExtensionError>)
        ensures
            outcome(r, as_invalid(listing_rule(*self))),
    {
        proof {
            reveal(listing_rule);
        }
        let c = validate_extension_id(self.id.as_str());
        if c.is_err() {
            return c;
        }
        let c = validate_text("listing name", self.name.as_str(), 1, 80);
        if c.is_err() {
            return c;
        }
        let c = validate_text("listing summary", self.summary.as_str(), 1, 500);
        if c.is_err() {
            return c;
        }
        let c = validate_text("listing intent", self.intent.as_str(), 1, 2000);
        if c.is_err() {
            return c;
        }
        if self.tags.len() > 16 {
            return Err(ExtensionError::Invalid(text3("listing ", self.id.as_str(), " contains more than 16 tags")));
        }
        let c = self.validate_tags();
        if c.is_err() {
            return c;
        }
        let d = self.reference_recipe.digest();
        let digest = match d {
            Err(e) => return Err(e),
            Ok(digest) => digest,
        };
        if self.reference_recipe.version != 1 {
            return Err(
                ExtensionError::Invalid(text3("listing ", self.id.as_str(), " uses an unsupported recipe version")),
            );
        }
        if !str_eq(self.reference_recipe.id.as_str(), self.id.as_str()) {
            let mut m = String::new();
            push_str(&mut m, "listing ");
            push_str(&mut m, self.id.as_str());
            push_str(&mut m, " does not match reference recipe id ");
            push_str(&mut m, self.reference_recipe.id.as_str());
            assert(m@ =~= "listing "@ + self.id@ + " does not match reference recipe id "@ + self.reference_recipe.id@);
            return Err(ExtensionError::Invalid(m));
        }
        self.validate_digests(digest.as_str())
    }

    /// Checks the tags: the `first_fault` part of [`listing_rule`] over tags.
    #[verifier::loop_isolation(false)]
    fn validate_tags(&self) -> (r: Result<(), ExtensionError>)
        ensures
            outcome(r, as_invalid(first_fault(self.tags@.len(), tag_step(*self)))),
    {
        let ghost f = tag_step(*self);
        let ghost ts = texts(self.tags@);
        let mut i: usize = 0;
        while i < self.tags.len()
            invariant
                i <= self.tags@.len(),
                f == tag_step(*self),
                ts == texts(self.tags@),
                first_fault(i as nat, f) is None,
            decreases self.tags@.len() - i,
        {
            assert(ts[i as int] == self.tags@[i as int]@);
            let c = validate_slug("marketplace tag", self.tags[i].as_str(), 32);
            if c.is_err() {
                proof {
                    lemma_first_fault_stop(i as nat, self.tags@.len(), f);
                }
                return c;
            }
            let mut j: usize = 0;
            while j < i
                invariant
                    i < self.tags@.len(),
                    ts == texts(self.tags@),
                    j <= i,
                    forall|k: int| 0 <= k < j ==> ts[k] != ts[i as int],
                decreases i - j,
            {
                assert(ts[j as int] == self.tags@[j as int]@);
                if str_eq(self.tags[j].as_str(), self.tags[i].as_str()) {
                    assert(f(i as int) == Some("listing "@ + self.id@ + " contains duplicate tags"@));
                    proof {
                        lemma_first_fault_stop(i as nat, self.tags@.len(), f);
                    }
                    return Err(
                        ExtensionError::Invalid(text3("listing ", self.id.as_str(), " contains duplicate tags")),
                    );
                }
                j = j + 1;
            }
            assert(f(i as int) is None);
            i = i + 1;
        }
        Ok(())
    }

    /// Checks the digests and reviews ([`listing_digest_rule`]), given the
    /// reference recipe's digest.
    #[verifier::loop_isolation(false)]
    fn validate_digests(&self, digest: &str) -> (r: Result<(), ExtensionError>)
        requires
            digest@ == recipe_digest(self.reference_recipe),
        ensures
            outcome(r, as_invalid(listing_digest_rule(*self))),
    {
        let c = validate_digest("listing recipe digest", self.recipe_digest.as_str());
        if c.is_err() {
            return c;
        }
        if !str_eq(self.recipe_digest.as_str(), digest) {
            return Err(
                ExtensionError::Invalid(
                    text3("listing ", self.id.as_str(), " recipe digest does not match its reference recipe"),
                ),
            );
        }
        let c = validate_digest("listing digest", self.listing_digest.as_str());
        if c.is_err() {
            return c;
        }
        let listing_digest = self.content_digest();
        if !str_eq(self.listing_digest.as_str(), listing_digest.as_str()) {
            return Err(
                ExtensionError::Invalid(
                    text3("listing ", self.id.as_str(), " digest does not match its reviewed content"),
                ),
            );
        }
        if self.reviews.len() == 0 || self.reviews.len() > 16 {
            return Err(
                ExtensionError::Invalid(text3("listing ", self.id.as_str(), " must contain 1 to 16 reviews")),
            );
        }
        let ghost f = review_step(*self);
        let mut approved = false;
        let mut i: usize = 0;
        while i < self.reviews.len()
            invariant
                i <= self.reviews@.len(),
                first_fault(i as nat, f) is None,
                approved == (exists|k: int| 0 <= k < i && self.reviews@[k].decision == ReviewDecision::Approved),
            decreases self.reviews@.len() - i,
        {
            let v = &self.reviews[i];
            let c = v.validate(digest, listing_digest.as_str());
            if c.is_err() {
                proof {
                    lemma_first_fault_stop(i as nat, self.reviews@.len(), f);
                }
                return c;
            }
            let mut j: usize = 0;
            while j < i
                invariant
                    i < self.reviews@.len(),
                    j <= i,
                    forall|k: int| 0 <= k < j ==> (#[trigger] self.reviews@[k]).auditor@ != self.reviews@[i as int].auditor@,
                decreases i - j,
            {
                if str_eq(self.reviews[j].auditor.as_str(), v.auditor.as_str()) {
                    let mut m = String::new();
                    push_str(&mut m, "listing ");
                    push_str(&mut m, self.id.as_str());
                    push_str(&mut m, " contains duplicate auditor ");
                    push_str(&mut m, v.auditor.as_str());
                    assert(m@ =~= "listing "@ + self.id@ + " contains duplicate auditor "@ + v.auditor@);
                    proof {
                        lemma_first_fault_stop(i as nat, self.reviews@.len(), f);
                    }
                    return Err(ExtensionError::Invalid(m));
                }
                j = j + 1;
            }
            if v.decision == ReviewDecision::Approved {
                approved = true;
            }
            assert(f(i as int) is None);
            i = i + 1;
        }
        if !approved {
            return Err(
                ExtensionError::Invalid(
                    text3("listing ", self.id.as_str(), " has no review approving the exact recipe digest"),
                ),
            );
        }
        Ok(())
    }
}

/// Listing `k` of a catalog: valid, with an id not used before.
pub open spec fn listing_step(c: MarketplaceCatalog) -> spec_fn(int) -> Option<Seq<char>> {
    |k: int|
        {
            let l = c.listings@[k];
            or_else(
                listing_rule(l),
                if exists|i: int| 0 <= i < k && c.listings@[i].id@ == l.id@ {
                    Some("duplicate marketplace listing "@ + l.id@)
                } else {
                    None
                },
            )
        }
}

/// Everything a catalog must satisfy, checked in order.
pub open spec fn catalog_rule(c: MarketplaceCatalog) -> Option<Seq<char>> {
    if c.version != 1 {
        Some("unsupported catalog version "@ + nat_decimal(c.version as nat) + "; expected 1"@)
    } else {
        or_else(
            extension_id_rule(c.id@),
            or_else(
                text_rule("catalog name"@, c.name@, 1, 80),
                or_else(
                    text_rule("catalog description"@, c.description@, 1, 500),
                    if c.listings@.len() > 256 {
                        Some("catalog contains more than 256 listings"@)
                    } else {
                        first_fault(c.listings@.len(), listing_step(c))
                    },
                ),
            ),
        )
    }
}

/// The number of approving reviews.
pub open spec fn approvals(vs: Seq<MarketplaceReview>) -> nat
    decreases vs.len(),
{
    if vs.len() == 0 {
        0
    } else {
        approvals(vs.drop_last()) + if vs.last().decision == ReviewDecision::Approved {
            1nat
        } else {
            0nat
        }
    }
}

impl MarketplaceCatalog {
    /// Checks the catalog against [`catalog_rule`].
    #[verifier::loop_isolation(false)]
    pub fn validate(&self) -> (r: Result<(), ExtensionError>)
        ensures
            outcome(r, as_invalid(catalog_rule(*self))),
    {
        if self.version != 1 {
            let mut m = String::new();
            push_str(&mut m, "unsupported catalog version ");
            push_u64_decimal(&mut m, self.version as u64);
            push_str(&mut m, "; expected 1");
            assert(m@ =~= "unsupported catalog version "@ + nat_decimal(self.version as nat) + "; expected 1"@);
            return Err(ExtensionError::Invalid(m));
        }
        let c = validate_extension_id(self.id.as_str());
        if c.is_err() {
            return c;
        }
        let c = validate_text("catalog name", self.name.as_str(), 1, 80);
        if c.is_err() {
            return c;
        }
        let c = validate_text("catalog description", self.description.as_str(), 1, 500);
        if c.is_err() {
            return c;
        }
        if self.listings.len() > 256 {
            return Err(ExtensionError::Invalid("catalog contains more than 256 listings".to_string()));
        }
        let ghost f = listing_step(*self);
        let mut i: usize = 0;
        while i < self.listings.len()
            invariant
                i <= self.listings@.len(),
                first_fault(i as nat, f) is None,
            decreases self.listings@.len() - i,
        {
            let l = &self.listings[i];
            let c = l.validate();
            if c.is_err() {
                proof {
                    lemma_first_fault_stop(i as nat, self.listings@.len(), f);
                }
                return c;
            }
            let mut j: usize = 0;
            while j < i
                invariant
                    i < self.listings@.len(),
                    j <= i,
                    forall|k: int| 0 <= k < j ==> (#[trigger] self.listings@[k]).id@ != self.listings@[i as int].id@,
                decreases i - j,
            {
                if str_eq(self.listings[j].id.as_str(), l.id.as_str()) {
                    proof {
                        lemma_first_fault_stop(i as nat, self.listings@.len(), f);
                    }
                    return Err(ExtensionError::Invalid(text2("duplicate marketplace listing ", l.id.as_str())));
                }
                j = j + 1;
            }
            assert(f(i as int) is None);
            i = i + 1;
        }
        Ok(())
    }

    /// The SHA-256 digest of a valid catalog's canonical JSON.
    pub fn digest(&self) -> (r: Result<String, ExtensionError>)
        ensures
            match catalog_rule(*self) {
                None => r matches Ok(d) && d@ == sha256_hex(encode_utf8(catalog_json(*self))) && d@.len() == 64,
                Some(m) => r matches Err(e) && e@ == Fault::Invalid(m),
            },
    {
        let v = self.validate();
        match v {
            Err(e) => Err(e),
            Ok(()) => {
                let json = catalog_canonical_json(self);
                Ok(content_digest(json.as_str().as_bytes()))
            },
        }
    }

    /// The first listing with the given id.
    pub fn listing(&self, id: &str) -> (r: Option<&MarketplaceListing>)
        ensures
            match r {
                Some(l) => exists|i: int|
                    0 <= i < self.listings@.len() && self.listings@[i] == *l && l.id@ == id@ && forall|j: int|
                        0 <= j < i ==> self.listings@[j].id@ != id@,
                None => forall|j: int| 0 <= j < self.listings@.len() ==> self.listings@[j].id@ != id@,
            },
    {
        let mut i: usize = 0;
        while i < self.listings.len()
            invariant
                i <= self.listings@.len(),
                forall|j: int| 0 <= j < i ==> self.listings@[j].id@ != id@,
            decreases self.listings@.len() - i,
        {
            if str_eq(self.listings[i].id.as_str(), id) {
                return Some(&self.listings[i]);
            }
            i = i + 1;
        }
        None
    }
}

impl MarketplaceListing {
    /// The digest of a valid listing's reviewed content.
    pub fn digest(&self) -> (r: Result<String, ExtensionError>)
        ensures
            match listing_rule(*self) {
                None => r matches Ok(d) && d@ == listing_content_digest(*self) && d@.len() == 64,
                Some(m) => r matches Err(e) && e@ == Fault::Invalid(m),
            },
    {
        let v = self.validate();
        match v {
            Err(e) => Err(e),
            Ok(()) => Ok(self.content_digest()),
        }
    }

    /// The number of approving reviews.
    pub fn approved_review_count(&self) -> (r: usize)
        ensures
            r == approvals(self.reviews@),
    {
        let mut n: usize = 0;
        let mut i: usize = 0;
        while i < self.reviews.len()
            invariant
                i <= self.reviews@.len(),
                n == approvals(self.reviews@.take(i as int)),
                n <= i,
            decreases self.reviews@.len() - i,
        {
            assert(self.reviews@.take(i + 1).drop_last() =~= self.reviews@.take(i as int));
            if self.reviews[i].decision == ReviewDecision::Approved {
                n = n + 1;
            }
            i = i + 1;
        }
        assert(self.reviews@.take(self.reviews@.len() as int) =~= self.reviews@);
        n
    }
}

/// The instructions given to a model asked to adapt a listing's recipe.
pub fn adaptation_system_prompt() -> (r: &'static str)
    ensures
        r@ == ADAPTATION_PROMPT@,
{
    ADAPTATION_PROMPT
}

/// The text of [`adaptation_system_prompt`].
pub const ADAPTATION_PROMPT: &'static str = "Return exactly one JSON object and no prose or markdown. Adapt the reviewed declarative Girder extension listing to the current project. Preserve the listing's intent and extension id. The reference recipe is context, not authorization. Request only capabilities necessary for the adapted recipe. Never emit executable plugin code. Supported recipe version is 1. Every contribution and projection must satisfy the recipe's declared capabilities. The result will be validated and shown with an exact capability delta before a human may approve its SHA-256 digest.";

// ---------------------------------------------------------------- capability deltas

/// Position of the last capability with each canonical JSON.
pub open spec fn json_index(caps: Seq<Capability>) -> Map<Seq<char>, usize>
    decreases caps.len(),
{
    if caps.len() == 0 {
        Map::empty()
    } else {
        json_index(caps.drop_last()).insert(capability_json(caps.last()), (caps.len() - 1) as usize)
    }
}

/// Each indexed position holds a capability with that JSON.
pub proof fn lemma_json_index(caps: Seq<Capability>, key: Seq<char>)
    requires
        json_index(caps).contains_key(key),
        caps.len() <= usize::MAX,
    ensures
        json_index(caps)[key] < caps.len(),
        capability_json(caps[json_index(caps)[key] as int]) == key,
    decreases caps.len(),
{
    if caps.len() > 0 && capability_json(caps.last()) != key {
        let d = caps.drop_last();
        lemma_json_index(d, key);
        assert(d[json_index(d)[key] as int] == caps[json_index(d)[key] as int]);
    }
}

/// `out` lists, in strictly ascending order of canonical JSON, one
/// capability for each JSON that `from` has and `other` lacks: the last
/// one in `from` with that JSON.
pub open spec fn delta_matches(out: Seq<Capability>, from: Seq<Capability>, other: Seq<Capability>) -> bool {
    let fi = json_index(from);
    let oi = json_index(other);
    &&& forall|a: int, b: int|
        0 <= a < b < out.len() ==> seq_lt(capability_json(#[trigger] out[a]), capability_json(#[trigger] out[b]))
    &&& forall|k: int|
        0 <= k < out.len() ==> {
            let key = capability_json(#[trigger] out[k]);
            &&& fi.contains_key(key)
            &&& !oi.contains_key(key)
            &&& out[k]@ == from[fi[key] as int]@
        }
    &&& forall|key: Seq<char>|
        #[trigger] fi.contains_key(key) && !oi.contains_key(key) ==> exists|k: int|
            0 <= k < out.len() && capability_json(out[k]) == key
}

/// The canonical JSON texts of the capabilities: their exact scopes.
pub open spec fn scope_set(caps: Seq<Capability>) -> Set<Seq<char>> {
    Set::new(|key: Seq<char>| exists|i: int| 0 <= i < caps.len() && capability_json(caps[i]) == key)
}

/// The index holds exactly the JSON texts of the capabilities.
proof fn lemma_json_index_dom(caps: Seq<Capability>)
    ensures
        json_index(caps).dom() == scope_set(caps),
    decreases caps.len(),
{
    if caps.len() > 0 {
        let d = caps.drop_last();
        lemma_json_index_dom(d);
        assert forall|key: Seq<char>| json_index(caps).dom().contains(key) <==> #[trigger] scope_set(caps).contains(
            key,
        ) by {
            if scope_set(caps).contains(key) {
                let i = choose|i: int| 0 <= i < caps.len() && capability_json(caps[i]) == key;
                if i < caps.len() - 1 {
                    assert(d[i] == caps[i]);
                    assert(scope_set(d).contains(key));
                }
            }
            if scope_set(d).contains(key) {
                let i = choose|i: int| 0 <= i < d.len() && capability_json(d[i]) == key;
                assert(caps[i] == d[i]);
            }
            if key == capability_json(caps.last()) {
                assert(caps[caps.len() - 1] == caps.last());
            }
        }
        assert(json_index(caps).dom() =~= scope_set(caps));
    } else {
        assert(scope_set(caps) =~= Set::<Seq<char>>::empty());
        assert(json_index(caps).dom() =~= Set::<Seq<char>>::empty());
    }
}

/// A delta is empty exactly when the two recipes grant the same set of
/// capabilities, compared by exact scope (canonical JSON); in particular a
/// recipe compared with itself has an empty delta.
pub proof fn law_empty_delta_iff_same_scopes(
    added: Seq<Capability>,
    removed: Seq<Capability>,
    adapted: Seq<Capability>,
    reference: Seq<Capability>,
)
    requires
        delta_matches(added, adapted, reference),
        delta_matches(removed, reference, adapted),
    ensures
        (added.len() == 0 && removed.len() == 0) <==> scope_set(adapted) == scope_set(reference),
{
    lemma_json_index_dom(adapted);
    lemma_json_index_dom(reference);
    let fa = json_index(adapted);
    let fr = json_index(reference);
    if added.len() == 0 && removed.len() == 0 {
        assert forall|key: Seq<char>| #[trigger] fa.contains_key(key) <==> fr.contains_key(key) by {
            if fa.contains_key(key) && !fr.contains_key(key) {
                let k = choose|k: int| 0 <= k < added.len() && capability_json(added[k]) == key;
            }
            if fr.contains_key(key) && !fa.contains_key(key) {
                let k = choose|k: int| 0 <= k < removed.len() && capability_json(removed[k]) == key;
            }
        }
        assert(scope_set(adapted) =~= scope_set(reference));
    }
    if scope_set(adapted) == scope_set(reference) {
        if added.len() > 0 {
            let key = capability_json(added[0]);
            assert(fa.contains_key(key) && !fr.contains_key(key));
        }
        if removed.len() > 0 {
            let key = capability_json(removed[0]);
            assert(fr.contains_key(key) && !fa.contains_key(key));
        }
    }
}

/// The capabilities keyed by canonical JSON, and their JSON texts.
fn index_by_json(caps: &Vec<Capability>) -> (r: StrMap<usize>)
    ensures
        r.view() == json_index(caps@),
{
    let mut m: StrMap<usize> = StrMap::new();
    let mut i: usize = 0;
    while i < caps.len()
        invariant
            i <= caps@.len(),
            m.view() == json_index(caps@.take(i as int)),
        decreases caps@.len() - i,
    {
        assert(caps@.take(i + 1).drop_last() =~= caps@.take(i as int));
        let mut json = String::new();
        push_capability_json(&mut json, &caps[i]);
        assert(json@ =~= capability_json(caps@[i as int]));
        m.insert(json, i);
        i = i + 1;
    }
    assert(caps@.take(caps@.len() as int) =~= caps@);
    m
}

/// The capabilities of `from` whose exact scope `other` lacks, in the
/// order of [`delta_matches`].
#[verifier::loop_isolation(false)]
fn one_side(from: &Vec<Capability>, other: &Vec<Capability>) -> (r: Vec<Capability>)
    ensures
        delta_matches(r@, from@, other@),
{
    let fm = index_by_json(from);
    let om = index_by_json(other);
    let flen = from.len();
    let n = fm.len();
    let mut out: Vec<Capability> = Vec::new();
    let ghost mut picked: Seq<int> = seq![];
    let mut i: usize = 0;
    while i < n
        invariant
            i <= n,
            n == fm.pairs().len(),
            out@.len() == picked.len(),
            forall|k: int| 0 <= k < picked.len() ==> 0 <= #[trigger] picked[k] < i,
            forall|a: int, b: int| 0 <= a < b < picked.len() ==> picked[a] < picked[b],
            forall|k: int|
                0 <= k < out@.len() ==> capability_json(#[trigger] out@[k]) == fm.pairs()[picked[k]].0,
            forall|k: int|
                0 <= k < out@.len() ==> {
                    let key = capability_json(#[trigger] out@[k]);
                    &&& json_index(from@).contains_key(key)
                    &&& !json_index(other@).contains_key(key)
                    &&& out@[k]@ == from@[json_index(from@)[key] as int]@
                },
            forall|j: int|
                0 <= j < i && !json_index(other@).contains_key(#[trigger] fm.pairs()[j].0) ==> exists|k: int|
                    0 <= k < out@.len() && capability_json(out@[k]) == fm.pairs()[j].0,
        decreases n - i,
    {
        let ghost old_out = out@;
        let key = fm.key(i);
        let idx = *fm.value(i);
        let ghost kv = fm.pairs()[i as int].0;
        assert(fm.view().contains_key(fm.pairs()[i as int].0));
        assert(json_index(from@).contains_key(kv) && json_index(from@)[kv] == idx);
        proof {
            lemma_json_index(from@, kv);
        }
        if om.get(key.as_str()).is_none() {
            let c = clone_capability(&from[idx]);
            proof {
                lemma_capability_json_view(c, from@[idx as int]);
            }
            out.push(c);
            proof {
                picked = picked.push(i as int);
            }
            assert(capability_json(out@[out@.len() - 1]) == kv);
        }
        assert forall|j: int|
            0 <= j < i + 1 && !json_index(other@).contains_key(#[trigger] fm.pairs()[j].0) implies exists|k: int|
                0 <= k < out@.len() && capability_json(out@[k]) == fm.pairs()[j].0 by {
            if j < i {
                let k = choose|k: int| 0 <= k < old_out.len() && capability_json(old_out[k]) == fm.pairs()[j].0;
                assert(out@[k] == old_out[k]);
            } else {
                assert(capability_json(out@[out@.len() - 1]) == fm.pairs()[j].0);
            }
        }
        i = i + 1;
    }
    proof {
        assert forall|a: int, b: int| 0 <= a < b < out@.len() implies seq_lt(
            capability_json(#[trigger] out@[a]),
            capability_json(#[trigger] out@[b]),
        ) by {
            assert(picked[a] < picked[b]);
        }
        assert forall|key: Seq<char>|
            #[trigger] json_index(from@).contains_key(key) && !json_index(other@).contains_key(key) implies exists|k: int|
                0 <= k < out@.len() && capability_json(out@[k]) == key by {
            let j = choose|j: int| 0 <= j < fm.pairs().len() && fm.pairs()[j].0 == key;
            assert(!json_index(other@).contains_key(fm.pairs()[j].0));
        }
    }
    out
}

impl CapabilityDelta {
    /// True when nothing was added or removed.
    pub fn is_empty(&self) -> (r: bool)
        ensures
            r == (self.added@.len() == 0 && self.removed@.len() == 0),
    {
        self.added.len() == 0 && self.removed.len() == 0
    }

    /// The kinds of the added capabilities, in order.
    pub fn added_kinds(&self) -> (r: Vec<CapabilityKind>)
        ensures
            r@ == self.added@.map_values(|c: Capability| cap_kind(c)),
    {
        kinds_of(&self.added)
    }

    /// The kinds of the removed capabilities, in order.
    pub fn removed_kinds(&self) -> (r: Vec<CapabilityKind>)
        ensures
            r@ == self.removed@.map_values(|c: Capability| cap_kind(c)),
    {
        kinds_of(&self.removed)
    }
}

/// The kinds of the capabilities, in order.
fn kinds_of(caps: &Vec<Capability>) -> (r: Vec<CapabilityKind>)
    ensures
        r@ == caps@.map_values(|c: Capability| cap_kind(c)),
{
    let mut out: Vec<CapabilityKind> = Vec::new();
    let mut i: usize = 0;
    while i < caps.len()
        invariant
            i <= caps@.len(),
            out@ == caps@.take(i as int).map_values(|c: Capability| cap_kind(c)),
        decreases caps@.len() - i,
    {
        out.push(caps[i].kind());
        i = i + 1;
        assert(out@ =~= caps@.take(i as int).map_values(|c: Capability| cap_kind(c)));
    }
    assert(caps@.take(caps@.len() as int) =~= caps@);
    out
}

impl MarketplaceListing {
    /// How an adapted version of the listing's recipe changes its
    /// capabilities, for a valid listing and a valid adaptation with the
    /// same id.
    pub fn capability_delta(&self, adapted: &ExtensionRecipe) -> (r: Result<CapabilityDelta, ExtensionError>)
        ensures
            match listing_rule(*self) {
                Some(m) => r matches Err(e) && e@ == Fault::Invalid(m),
                None => match recipe_rule(*adapted) {
                    Some(m) => r matches Err(e) && e@ == Fault::Invalid(m),
                    None => if adapted.id@ != self.id@ {
                        r matches Err(e) && e@ == Fault::Invalid(
                            "adapted recipe id "@ + adapted.id@ + " does not match marketplace listing "@ + self.id@,
                        )
                    } else {
                        r matches Ok(d) && delta_matches(
                            d.added@,
                            adapted.capabilities@,
                            self.reference_recipe.capabilities@,
                        ) && delta_matches(d.removed@, self.reference_recipe.capabilities@, adapted.capabilities@)
                    },
                },
            },
    {
        let v = self.validate();
        if let Err(e) = v {
            return Err(e);
        }
        let v = adapted.validate();
        if let Err(e) = v {
            return Err(e);
        }
        if !str_eq(adapted.id.as_str(), self.id.as_str()) {
            let mut m = String::new();
            push_str(&mut m, "adapted recipe id ");
            push_str(&mut m, adapted.id.as_str());
            push_str(&mut m, " does not match marketplace listing ");
            push_str(&mut m, self.id.as_str());
            assert(m@ =~= "adapted recipe id "@ + adapted.id@ + " does not match marketplace listing "@ + self.id@);
            return Err(ExtensionError::Invalid(m));
        }
        let added = one_side(&adapted.capabilities, &self.reference_recipe.capabilities);
        let removed = one_side(&self.reference_recipe.capabilities, &adapted.capabilities);
        Ok(CapabilityDelta { added, removed })
    }
}

/// Refuses a catalog text longer than [`MAX_CATALOG_BYTES`] bytes.
pub fn check_catalog_size(json: &str) -> (r: Result<(), ExtensionError>)
    ensures
        r is Ok <==> encode_utf8(json@).len() <= MAX_CATALOG_BYTES,
        r matches Err(e) ==> e@ == Fault::Invalid("catalog exceeds 2097152 bytes"@),
{
    if json.as_bytes().len() > MAX_CATALOG_BYTES {
        return crate::fields::invalid("catalog exceeds 2097152 bytes".to_string());
    }
    Ok(())
}

/// A valid listing is bound to its content: its recipe digest is the
/// reference recipe's, its listing digest is its reviewed content's, its
/// auditors are distinct, and some review approves exactly these digests.
pub proof fn law_valid_listing_is_approved_for_its_content(l: MarketplaceListing)
    requires
        listing_rule(l) is None,
    ensures
        l.recipe_digest@ == recipe_digest(l.reference_recipe),
        l.listing_digest@ == listing_content_digest(l),
        exists|i: int|
            0 <= i < l.reviews@.len() && (#[trigger] l.reviews@[i]).decision == ReviewDecision::Approved
                && l.reviews@[i].recipe_digest@ == l.recipe_digest@ && l.reviews@[i].listing_digest@
                == l.listing_digest@,
        forall|i: int, j: int|
            0 <= i < j < l.reviews@.len() ==> (#[trigger] l.reviews@[i]).auditor@ != (
            #[trigger] l.reviews@[j]).auditor@,
{
    reveal(listing_rule);
    assert(listing_digest_rule(l) is None);
    let f = review_step(l);
    assert forall|k: int| 0 <= k < l.reviews@.len() implies {
        &&& (#[trigger] l.reviews@[k]).recipe_digest@ == l.recipe_digest@
        &&& l.reviews@[k].listing_digest@ == l.listing_digest@
        &&& forall|i: int| 0 <= i < k ==> l.reviews@[i].auditor@ != l.reviews@[k].auditor@
    } by {
        crate::fields::lemma_first_fault_none(l.reviews@.len(), f, k);
        assert(f(k) is None);
    }
    let i = choose|i: int| 0 <= i < l.reviews@.len() && l.reviews@[i].decision == ReviewDecision::Approved;
    assert(l.reviews@[i].recipe_digest@ == l.recipe_digest@);
}

} // verus!
