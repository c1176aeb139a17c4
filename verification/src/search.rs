//! Case-insensitive substring search over titles and descriptions.

use vstd::prelude::*;
use crate::resource::EczemaResource;
use crate::store::EczemaStore;

verus! {

/// The lowercase image of a character sequence, as `str::to_lowercase`
/// computes it. The mapping depends on the characters alone, so it gets a
/// name here rather than a page of case-folding tables.
pub uninterp spec fn lower_of(s: Seq<char>) -> Seq<char>;

/// Relies on str::to_lowercase: the result is a function of the characters
/// alone, and an empty string lowercases to an empty string.
#[verifier::external_body]
fn to_lowercase_string(s: &str) -> (r: String)
    ensures
        r@ == lower_of(s@),
        s@.len() == 0 ==> r@.len() == 0,
{
    s.to_lowercase()
}

/// `needle` occurs contiguously inside `hay`.
pub open spec fn is_substring(needle: Seq<char>, hay: Seq<char>) -> bool {
    exists|i: int| 0 <= i && i + needle.len() <= hay.len() && #[trigger] hay.subrange(
        i,
        i + needle.len(),
    ) == needle
}

/// Relies on str::contains with a `&str` pattern: true exactly when the
/// needle occurs as a substring. UTF-8 is self-synchronizing, so a byte-level
/// occurrence is a character-level occurrence and the two notions agree.
#[verifier::external_body]
fn contains_substring(hay: &str, needle: &str) -> (r: bool)
    ensures
        r == is_substring(needle@, hay@),
{
    hay.contains(needle)
}

/// A resource matches a lowercased query when the query occurs in the
/// lowercased title or the lowercased description.
pub open spec fn resource_matches(q: Seq<char>, r: EczemaResource) -> bool {
    is_substring(q, lower_of(r.title@)) || is_substring(q, lower_of(r.description@))
}

/// The subsequence of `s` matching the lowercased query `q`, in order.
pub open spec fn matching(s: Seq<EczemaResource>, q: Seq<char>) -> Seq<EczemaResource>
    decreases s.len(),
{
    if s.len() == 0 {
        Seq::empty()
    } else if resource_matches(q, s.last()) {
        matching(s.drop_last(), q).push(s.last())
    } else {
        matching(s.drop_last(), q)
    }
}

/// An empty query matches every resource: the empty sequence is a substring
/// of anything.
pub proof fn lemma_empty_query_matches(q: Seq<char>, r: EczemaResource)
    requires
        q.len() == 0,
    ensures
        resource_matches(q, r),
{
    let hay = lower_of(r.title@);
    assert(hay.subrange(0, 0 + q.len() as int) =~= q);
    assert(is_substring(q, hay));
}

/// Law: with an empty query, the matching subsequence is the whole store.
pub proof fn lemma_matching_all(s: Seq<EczemaResource>, q: Seq<char>)
    requires
        q.len() == 0,
    ensures
        matching(s, q) == s,
    decreases s.len(),
{
    if s.len() == 0 {
        assert(matching(s, q) =~= s);
    } else {
        lemma_matching_all(s.drop_last(), q);
        lemma_empty_query_matches(q, s.last());
        assert(matching(s, q) =~= s);
    }
}

/// Law: every stored resource that matches the query is in the matching
/// subsequence; in particular a query occurring in some stored title,
/// however the cases vary, brings that resource back.
pub proof fn lemma_matching_contains(s: Seq<EczemaResource>, q: Seq<char>, k: int)
    requires
        0 <= k < s.len(),
        resource_matches(q, s[k]),
    ensures
        matching(s, q).contains(s[k]),
    decreases s.len(),
{
    if k == s.len() - 1 {
        let m = matching(s, q);
        assert(m == matching(s.drop_last(), q).push(s.last()));
        assert(m[m.len() - 1] == s[k]);
    } else {
        lemma_matching_contains(s.drop_last(), q, k);
        let sub = matching(s.drop_last(), q);
        let j = choose|j: int| 0 <= j < sub.len() && sub[j] == s.drop_last()[k];
        assert(s.drop_last()[k] == s[k]);
        if resource_matches(q, s.last()) {
            assert(matching(s, q)[j] == s[k]);
        } else {
            assert(matching(s, q)[j] == s[k]);
        }
    }
}

impl EczemaStore {
    /// Every stored resource whose title or description contains the query,
    /// compared case-insensitively, in id order. An empty query matches
    /// everything.
    pub fn search_resources(&self, query: &str) -> (r: Vec<EczemaResource>)
        ensures
            r@ == matching(self.resources@, lower_of(query@)),
            query@.len() == 0 ==> r@ == self.resources@,
            forall|k: int|
                0 <= k < self.resources@.len() && is_substring(
                    lower_of(query@),
                    lower_of((#[trigger] self.resources@[k]).title@),
                ) ==> r@.contains(self.resources@[k]),
    {
        let query_lower = to_lowercase_string(query);
        let mut out: Vec<EczemaResource> = Vec::new();
        let mut i: usize = 0;
        while i < self.resources.len()
            invariant
                i <= self.resources@.len(),
                query_lower@ == lower_of(query@),
                out@ == matching(self.resources@.take(i as int), lower_of(query@)),
            decreases self.resources@.len() - i,
        {
            let title_lower = to_lowercase_string(self.resources[i].title.as_str());
            let description_lower = to_lowercase_string(self.resources[i].description.as_str());
            let hit = contains_substring(title_lower.as_str(), query_lower.as_str())
                || contains_substring(description_lower.as_str(), query_lower.as_str());
            proof {
                let s2 = self.resources@.take(i as int + 1);
                assert(s2.drop_last() =~= self.resources@.take(i as int));
                assert(s2.last() == self.resources@[i as int]);
            }
            if hit {
                out.push(self.resources[i].clone());
            }
            i += 1;
        }
        proof {
            assert(self.resources@.take(self.resources@.len() as int) =~= self.resources@);
            if query@.len() == 0 {
                lemma_matching_all(self.resources@, lower_of(query@));
            }
            assert forall|k: int|
                0 <= k < self.resources@.len() && is_substring(
                    lower_of(query@),
                    lower_of((#[trigger] self.resources@[k]).title@),
                ) implies out@.contains(self.resources@[k]) by {
                lemma_matching_contains(self.resources@, lower_of(query@), k);
            }
        }
        out
    }
}

} // verus!
