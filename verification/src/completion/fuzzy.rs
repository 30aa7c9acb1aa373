//! Searching proposals for a term: those that resemble it, best first.

use vstd::prelude::*;
use crate::completion::Completion;
use crate::completion;
use crate::text;

verus! {

/// The Jaro similarity of two texts, a number between 0 and 1, as the
/// bits of its 64-bit floating-point form. For such numbers a greater
/// number has greater bits, and the bits of 0 are 0.
pub uninterp spec fn jaro_bits(a: Seq<char>, b: Seq<char>) -> u64;

/// Calls `strsim::jaro`, which gives the Jaro similarity of two strings as
/// a number between 0 and 1, and returns the bits of that number.
#[verifier::external_body]
fn jaro(a: &str, b: &str) -> (r: u64)
    ensures
        r == jaro_bits(a@, b@),
{
    strsim::jaro(a, b).to_bits()
}

/// The length of the longest text both begin with.
pub open spec fn common_prefix(a: Seq<char>, b: Seq<char>) -> nat
    decreases a.len(),
{
    if a.len() > 0 && b.len() > 0 && a[0] == b[0] {
        1 + common_prefix(a.drop_first(), b.drop_first())
    } else {
        0
    }
}

/// The length of the longest text both end with.
pub open spec fn common_suffix(a: Seq<char>, b: Seq<char>) -> nat
    decreases a.len(),
{
    if a.len() > 0 && b.len() > 0 && a.last() == b.last() {
        1 + common_suffix(a.drop_last(), b.drop_last())
    } else {
        0
    }
}

/// The length of the longest text both strings begin with, in characters.
pub fn longest_common_prefix(first: &str, second: &str) -> (n: usize)
    ensures
        n == common_prefix(first@, second@),
{
    let a = text::chars_of(first);
    let b = text::chars_of(second);
    let mut n: usize = 0;
    assert(a@.skip(0) =~= a@ && b@.skip(0) =~= b@);
    while n < a.len() && n < b.len() && a[n] == b[n]
        invariant
            n <= a@.len(),
            n <= b@.len(),
            common_prefix(a@, b@) == n + common_prefix(a@.skip(n as int), b@.skip(n as int)),
        decreases a@.len() - n,
    {
        assert(a@.skip(n as int).drop_first() =~= a@.skip(n + 1));
        assert(b@.skip(n as int).drop_first() =~= b@.skip(n + 1));
        n += 1;
    }
    n
}

/// The length of the longest text both strings end with, in characters.
pub fn longest_common_suffix(first: &str, second: &str) -> (n: usize)
    ensures
        n == common_suffix(first@, second@),
{
    let a = text::chars_of(first);
    let b = text::chars_of(second);
    let mut n: usize = 0;
    assert(a@.take(a@.len() as int) =~= a@ && b@.take(b@.len() as int) =~= b@);
    while n < a.len() && n < b.len() && a[a.len() - 1 - n] == b[b.len() - 1 - n]
        invariant
            n <= a@.len(),
            n <= b@.len(),
            common_suffix(a@, b@) == n + common_suffix(a@.take(a@.len() - n), b@.take(b@.len() - n)),
        decreases a@.len() - n,
    {
        assert(a@.take(a@.len() - n).drop_last() =~= a@.take(a@.len() - n - 1));
        assert(b@.take(b@.len() - n).drop_last() =~= b@.take(b@.len() - n - 1));
        n += 1;
    }
    n
}

/// How well a proposal answers a search: its similarity to the term, the
/// lengths of what it has in common with the term at the start and at the
/// end, and the rank it had.
#[derive(Clone, Copy, Debug)]
pub struct Score {
    pub similarity: u64,
    pub prefix: usize,
    pub suffix: usize,
    pub rank: usize,
}

impl Score {
    /// Whether this score comes before the other: by greater similarity,
    /// then by the longer common start, then by the longer common end,
    /// then by the lower rank.
    pub open spec fn before(self, other: Score) -> bool {
        self.similarity > other.similarity || (self.similarity == other.similarity && (self.prefix
            > other.prefix || (self.prefix == other.prefix && (self.suffix > other.suffix || (
        self.suffix == other.suffix && self.rank < other.rank)))))
    }

    /// Whether this score comes before the other, see [`Score::before`].
    pub fn comes_before(&self, other: &Score) -> (r: bool)
        ensures
            r == self.before(*other),
    {
        self.similarity > other.similarity || (self.similarity == other.similarity && (self.prefix
            > other.prefix || (self.prefix == other.prefix && (self.suffix > other.suffix || (
        self.suffix == other.suffix && self.rank < other.rank)))))
    }
}

/// The score of a proposal for a term.
pub open spec fn score_of(c: Completion, term: Seq<char>) -> Score {
    Score {
        similarity: jaro_bits(term, c.replacement@),
        prefix: common_prefix(term, c.replacement@) as usize,
        suffix: common_suffix(term, c.replacement@) as usize,
        rank: c.rank,
    }
}

/// The places in `set` of the proposals that resemble the term, best
/// first: every proposal of a similarity above 0 is there once, none
/// other, and each place comes before the next by its score.
pub open spec fn is_ranking(set: Seq<Completion>, term: Seq<char>, places: Seq<usize>) -> bool {
    &&& forall|i: int| 0 <= i < places.len() ==> (#[trigger] places[i]) < set.len() && jaro_bits(term, set[places[i] as int].replacement@) > 0
    &&& forall|i: int, j: int|
        0 <= i < j < places.len() ==> score_of(set[places[i] as int], term).before(
            score_of(set[places[j] as int], term),
        )
    &&& forall|p: int|
        0 <= p < set.len() && jaro_bits(term, set[p].replacement@) > 0 ==> exists|i: int|
            0 <= i < places.len() && places[i] == p
}

/// The proposals at the given places, each ranked by where it now stands.
pub open spec fn is_picked(set: Seq<Completion>, places: Seq<usize>, found: Seq<Completion>) -> bool {
    &&& found.len() == places.len()
    &&& forall|i: int|
        0 <= i < found.len() ==> (#[trigger] found[i]).rank == i && places[i] < set.len()
            && found[i].replacement@ == set[places[i] as int].replacement@ && found[i].description@
            == set[places[i] as int].description@
}

/// What a search gives: the proposals that resemble the term, best first,
/// ranked anew.
pub open spec fn is_result(set: Seq<Completion>, term: Seq<char>, found: Seq<Completion>) -> bool {
    exists|places: Seq<usize>| is_ranking(set, term, places) && is_picked(set, places, found)
}

/// The places of the proposals that resemble the term, best first.
pub fn rank_candidates(original_set: &Vec<Completion>, search_term: &str) -> (places: Vec<usize>)
    requires
        completion::ranked(original_set@),
    ensures
        is_ranking(original_set@, search_term@, places@),
{
    let mut places: Vec<usize> = Vec::new();
    let mut scores: Vec<Score> = Vec::new();
    let mut p: usize = 0;
    while p < original_set.len()
        invariant
            p <= original_set@.len(),
            completion::ranked(original_set@),
            scores@.len() == places@.len(),
            forall|i: int|
                0 <= i < places@.len() ==> (#[trigger] places@[i]) < p && scores@[i] == score_of(
                    original_set@[places@[i] as int],
                    search_term@,
                ) && scores@[i].similarity > 0,
            forall|i: int, j: int| 0 <= i < j < scores@.len() ==> scores@[i].before(scores@[j]),
            forall|q: int|
                0 <= q < p && jaro_bits(search_term@, original_set@[q].replacement@) > 0 ==> exists|
                    i: int,
                | 0 <= i < places@.len() && places@[i] == q,
        decreases original_set@.len() - p,
    {
        let candidate = &original_set[p];
        let similarity = jaro(search_term, candidate.replacement.as_str());
        if similarity > 0 {
            let score = Score {
                similarity,
                prefix: longest_common_prefix(search_term, candidate.replacement.as_str()),
                suffix: longest_common_suffix(search_term, candidate.replacement.as_str()),
                rank: candidate.rank,
            };
            assert(score == score_of(original_set@[p as int], search_term@));
            let mut at: usize = 0;
            while at < scores.len() && scores[at].comes_before(&score)
                invariant
                    at <= scores@.len(),
                    forall|i: int| 0 <= i < at ==> scores@[i].before(score),
                decreases scores@.len() - at,
            {
                at += 1;
            }
            let ghost old_places = places@;
            let ghost old_scores = scores@;
            proof {
                assert forall|i: int| at <= i < old_scores.len() implies score.before(old_scores[i]) by {
                    let here = old_places[at as int];
                    assert(old_scores[at as int] == score_of(original_set@[here as int], search_term@));
                    assert(here < p);
                    assert(original_set@[here as int].rank < original_set@[p as int].rank);
                    assert(!old_scores[at as int].before(score));
                    if i > at {
                        assert(old_scores[at as int].before(old_scores[i]));
                    }
                }
            }
            places.insert(at, p);
            scores.insert(at, score);
            proof {
                assert forall|i: int| 0 <= i < places@.len() implies (#[trigger] places@[i]) < p + 1
                    && scores@[i] == score_of(original_set@[places@[i] as int], search_term@)
                    && scores@[i].similarity > 0 by {
                    if i < at {
                        assert(places@[i] == old_places[i]);
                    } else if i > at {
                        assert(places@[i] == old_places[i - 1]);
                        assert(scores@[i] == old_scores[i - 1]);
                    }
                }
                assert forall|i: int, j: int| 0 <= i < j < scores@.len() implies scores@[i].before(
                    scores@[j],
                ) by {
                    if j < at {
                        assert(scores@[i] == old_scores[i] && scores@[j] == old_scores[j]);
                    } else if j == at {
                        assert(scores@[i] == old_scores[i]);
                    } else if i < at {
                        assert(scores@[i] == old_scores[i] && scores@[j] == old_scores[j - 1]);
                    } else if i == at {
                        assert(scores@[j] == old_scores[j - 1]);
                    } else {
                        assert(scores@[i] == old_scores[i - 1] && scores@[j] == old_scores[j - 1]);
                    }
                }
                assert forall|q: int|
                    0 <= q < p + 1 && jaro_bits(search_term@, original_set@[q].replacement@)
                        > 0 implies exists|i: int| 0 <= i < places@.len() && places@[i] == q by {
                    if q == p {
                        assert(places@[at as int] == q);
                    } else {
                        let i = choose|i: int| 0 <= i < old_places.len() && old_places[i] == q;
                        if i < at {
                            assert(places@[i] == q);
                        } else {
                            assert(places@[i + 1] == q);
                        }
                    }
                }
            }
        }
        p += 1;
    }
    places
}

/// Searches proposals for a term. The proposals whose Jaro similarity to
/// the term is above 0 are kept and put in order: by greater similarity,
/// then by the longer common start with the term, then by the longer
/// common end, then by the rank they had; each is ranked anew by its
/// place.
pub fn fuzzy_search(original_set: &Vec<Completion>, search_term: &str) -> (found: Vec<Completion>)
    requires
        completion::ranked(original_set@),
    ensures
        is_result(original_set@, search_term@, found@),
        completion::ranked_by_place(found@),
{
    let places = rank_candidates(original_set, search_term);
    let mut found: Vec<Completion> = Vec::new();
    let mut i: usize = 0;
    while i < places.len()
        invariant
            i <= places@.len(),
            is_ranking(original_set@, search_term@, places@),
            found@.len() == i,
            forall|k: int|
                0 <= k < i ==> (#[trigger] found@[k]).rank == k && found@[k].replacement@
                    == original_set@[places@[k] as int].replacement@ && found@[k].description@
                    == original_set@[places@[k] as int].description@,
        decreases places@.len() - i,
    {
        let source = &original_set[places[i]];
        found.push(
            Completion {
                rank: i,
                replacement: source.replacement.clone(),
                description: source.description.clone(),
            },
        );
        i += 1;
    }
    assert(is_picked(original_set@, places@, found@));
    found
}

} // verus!
