//! Completions: what engines propose for the word under the cursor,
//! grouped by category and ranked.

use vstd::prelude::*;
use crate::text;

pub mod engines;
pub mod fuzzy;

verus! {

/// One proposal: what to put in place of the word, and what to say about
/// it. Proposals of a set are told apart and ordered by their rank.
#[derive(Debug)]
pub struct Completion {
    pub rank: usize,
    pub replacement: String,
    pub description: String,
}

/// The proposals of one category: all of them, and, after a search, those
/// that match it, ranked by how well they do.
#[derive(Debug)]
pub struct CompletionSet {
    pub original_set: Vec<Completion>,
    pub current_set: Option<Vec<Completion>>,
}

/// The proposals of every category for one word of one line.
#[derive(Debug)]
pub struct Completions {
    /// The sets by category; no category occurs twice.
    pub sets: Vec<(String, CompletionSet)>,
    /// The word the proposals are for.
    pub start: String,
    /// The line the word stands in.
    pub line: String,
}

/// Something that proposes completions.
pub trait Engine {
    /// Proposals for the word `start` in `line`, best first, each with a
    /// description; `None` where the engine has none.
    fn completions(&mut self, start: &str, line: &str) -> (r: Option<Vec<(String, String)>>);

    /// The category the engine's proposals belong to.
    fn category(&self) -> (r: String);
}

/// Asks every engine and gathers what they propose.
pub struct Completer<E> {
    pub engines: Vec<E>,
}

/// The proposals stand in the order of their ranks, and no rank occurs
/// twice.
pub open spec fn ranked(set: Seq<Completion>) -> bool {
    forall|i: int, j: int| 0 <= i < j < set.len() ==> set[i].rank < set[j].rank
}

/// The rank of each proposal is its place.
pub open spec fn ranked_by_place(set: Seq<Completion>) -> bool {
    forall|i: int| 0 <= i < set.len() ==> (#[trigger] set[i]).rank == i
}

/// The sum of the sizes of the sets.
pub open spec fn total_size(sets: Seq<(String, CompletionSet)>) -> nat
    decreases sets.len(),
{
    if sets.len() == 0 {
        0
    } else {
        total_size(sets.drop_last()) + sets.last().1.original_set@.len()
    }
}

/// The place of the first set that holds a proposal.
pub open spec fn first_filled(sets: Seq<(String, CompletionSet)>) -> Option<int>
    decreases sets.len(),
{
    if sets.len() == 0 {
        None
    } else if sets[0].1.original_set@.len() > 0 {
        Some(0)
    } else {
        match first_filled(sets.drop_first()) {
            Some(i) => Some(i + 1),
            None => None,
        }
    }
}

/// No category occurs twice.
pub open spec fn distinct_categories(sets: Seq<(String, CompletionSet)>) -> bool {
    forall|i: int, j: int| 0 <= i < j < sets.len() ==> sets[i].0@ != sets[j].0@
}

impl CompletionSet {
    /// A set of proposals on which no search has been made.
    pub fn new(set: Vec<Completion>) -> (r: CompletionSet)
        requires
            ranked(set@),
        ensures
            r.original_set == set,
            r.current_set is None,
    {
        CompletionSet { original_set: set, current_set: None }
    }

    /// The proposals to show: those that match the search where one has
    /// been made, all of them otherwise.
    pub fn current(&self) -> (r: &Vec<Completion>)
        ensures
            *r == match self.current_set {
                Some(s) => s,
                None => self.original_set,
            },
    {
        match &self.current_set {
            None => &self.original_set,
            Some(s) => s,
        }
    }

    /// Whether a search has been made.
    pub fn filtered(&self) -> (r: bool)
        ensures
            r == self.current_set is Some,
    {
        self.current_set.is_some()
    }

    /// Searches the proposals for a term: those that resemble it are kept
    /// and ranked, see [`fuzzy::fuzzy_search`].
    pub fn update(&mut self, search_term: &str)
        requires
            ranked(old(self).original_set@),
        ensures
            final(self).original_set == old(self).original_set,
            final(self).current_set matches Some(found) && fuzzy::is_result(
                old(self).original_set@,
                search_term@,
                found@,
            ),
    {
        let found = fuzzy::fuzzy_search(&self.original_set, search_term);
        self.current_set = Some(found);
    }

    /// Forgets the search.
    pub fn clear(&mut self)
        ensures
            final(self).original_set == old(self).original_set,
            final(self).current_set is None,
    {
        self.current_set = None;
    }
}

impl Completions {
    /// The number of proposals in all sets, or the greatest number a
    /// machine word holds where there are more.
    pub fn len(&self) -> (n: usize)
        ensures
            n == if total_size(self.sets@) <= usize::MAX {
                total_size(self.sets@)
            } else {
                usize::MAX as nat
            },
    {
        let mut total: usize = 0;
        let mut i: usize = 0;
        assert(self.sets@.take(0) =~= Seq::<(String, CompletionSet)>::empty());
        while i < self.sets.len()
            invariant
                i <= self.sets@.len(),
                total == if total_size(self.sets@.take(i as int)) <= usize::MAX {
                    total_size(self.sets@.take(i as int))
                } else {
                    usize::MAX as nat
                },
            decreases self.sets@.len() - i,
        {
            assert(self.sets@.take(i + 1).drop_last() =~= self.sets@.take(i as int));
            assert(self.sets@.take(i + 1).last() == self.sets@[i as int]);
            let size = self.sets[i].1.original_set.len();
            total = if size > usize::MAX - total {
                usize::MAX
            } else {
                total + size
            };
            i += 1;
        }
        assert(self.sets@.take(self.sets@.len() as int) =~= self.sets@);
        total
    }

    /// The first proposal of the first set that holds one.
    pub fn pick_one(&self) -> (r: Option<&Completion>)
        ensures
            match r {
                Some(c) => first_filled(self.sets@) matches Some(i) && 0 <= i < self.sets@.len()
                    && self.sets@[i].1.original_set@.len() > 0 && *c == self.sets@[i].1.original_set@[0],
                None => first_filled(self.sets@) is None,
            },
    {
        let mut i: usize = 0;
        assert(self.sets@.skip(0) =~= self.sets@);
        while i < self.sets.len()
            invariant
                i <= self.sets@.len(),
                first_filled(self.sets@) == match first_filled(self.sets@.skip(i as int)) {
                    Some(k) => Some(k + i),
                    None => None,
                },
            decreases self.sets@.len() - i,
        {
            assert(self.sets@.skip(i as int).drop_first() =~= self.sets@.skip(i + 1));
            assert(self.sets@.skip(i as int)[0] == self.sets@[i as int]);
            if self.sets[i].1.original_set.len() > 0 {
                return Some(&self.sets[i].1.original_set[0]);
            }
            i += 1;
        }
        None
    }
}

/// The first place of the list that holds a set of `category`.
pub open spec fn place_of(sets: Seq<(String, CompletionSet)>, category: Seq<char>) -> Option<int>
    decreases sets.len(),
{
    if sets.len() == 0 {
        None
    } else {
        match place_of(sets.drop_last(), category) {
            Some(i) => Some(i),
            None => if sets.last().0@ == category {
                Some(sets.len() - 1)
            } else {
                None
            },
        }
    }
}

/// The list with the set of `category` put to `set`: in the place of the
/// set the category had, at the end where it had none.
#[verifier::spinoff_prover]
fn put_set(sets: &mut Vec<(String, CompletionSet)>, category: String, set: CompletionSet)
    requires
        distinct_categories(old(sets)@),
        forall|i: int| 0 <= i < old(sets)@.len() ==> ranked_by_place(#[trigger] old(sets)@[i].1.original_set@),
        ranked_by_place(set.original_set@),
    ensures
        distinct_categories(final(sets)@),
        forall|i: int| 0 <= i < final(sets)@.len() ==> ranked_by_place(#[trigger] final(sets)@[i].1.original_set@),
        match place_of(old(sets)@, category@) {
            Some(i) => final(sets)@ == old(sets)@.update(i, (category, set)),
            None => final(sets)@ == old(sets)@.push((category, set)),
        },
{
    let mut i: usize = 0;
    while i < sets.len()
        invariant
            i <= sets@.len(),
            *sets == *old(sets),
            distinct_categories(sets@),
            forall|k: int| 0 <= k < sets@.len() ==> ranked_by_place(#[trigger] sets@[k].1.original_set@),
            ranked_by_place(set.original_set@),
            forall|j: int| 0 <= j < i ==> sets@[j].0@ != category@,
            place_of(sets@.take(i as int), category@) is None,
        decreases sets@.len() - i,
    {
        proof {
            assert(sets@.take(i + 1).drop_last() =~= sets@.take(i as int));
            assert(sets@.take(i + 1).last() == sets@[i as int]);
        }
        if text::same_text(sets[i].0.as_str(), category.as_str()) {
            let ghost before = sets@;
            proof {
                lemma_place_of(before, category@, i + 1);
            }
            assert(place_of(before, category@) == Some(i as int));
            sets.set(i, (category, set));
            assert(forall|j: int| 0 <= j < sets@.len() && j != i ==> sets@[j] == before[j]);
            assert(sets@[i as int].0@ == before[i as int].0@);
            assert forall|a: int, b: int| 0 <= a < b < sets@.len() implies sets@[a].0@ != sets@[b].0@ by {
                assert(before[a].0@ != before[b].0@);
            }
            assert forall|k: int| 0 <= k < sets@.len() implies ranked_by_place(
                #[trigger] sets@[k].1.original_set@,
            ) by {
                if k != i {
                    assert(sets@[k] == before[k]);
                    assert(ranked_by_place(before[k].1.original_set@));
                }
            }
            return ;
        }
        i += 1;
    }
    assert(sets@.take(sets@.len() as int) =~= sets@);
    sets.push((category, set));
}

/// The first place that holds a set of a category among the first `k`
/// sets is the first among all.
proof fn lemma_place_of(sets: Seq<(String, CompletionSet)>, category: Seq<char>, k: int)
    requires
        0 <= k <= sets.len(),
        place_of(sets.take(k), category) is Some,
    ensures
        place_of(sets, category) == place_of(sets.take(k), category),
    decreases sets.len() - k,
{
    if k < sets.len() {
        assert(sets.take(k + 1).drop_last() =~= sets.take(k));
        lemma_place_of(sets, category, k + 1);
    } else {
        assert(sets.take(k) =~= sets);
    }
}

/// A place that holds a set of a category lies in the list.
pub proof fn lemma_place_within(sets: Seq<(String, CompletionSet)>, category: Seq<char>)
    ensures
        place_of(sets, category) matches Some(i) ==> 0 <= i < sets.len() && sets[i].0@ == category,
    decreases sets.len(),
{
    if sets.len() > 0 {
        lemma_place_within(sets.drop_last(), category);
    }
}

/// The set holds what an engine proposed, in the order the engine gave,
/// each proposal ranked by its place.
pub open spec fn answers(list: Seq<(String, String)>, set: Seq<Completion>) -> bool {
    &&& set.len() == list.len()
    &&& forall|k: int|
        0 <= k < set.len() ==> (#[trigger] set[k]).rank == k && set[k].replacement@ == list[k].0@
            && set[k].description@ == list[k].1@
}

/// The set of what an engine proposed, see [`answers`], nothing of it
/// filtered.
pub fn set_of(list: &[(String, String)]) -> (r: CompletionSet)
    ensures
        answers(list@, r.original_set@),
        ranked_by_place(r.original_set@),
        r.current_set is None,
{
    let mut set: Vec<Completion> = Vec::new();
    let mut k: usize = 0;
    while k < list.len()
        invariant
            k <= list@.len(),
            set@.len() == k,
            ranked_by_place(set@),
            answers(list@.take(k as int), set@),
        decreases list@.len() - k,
    {
        set.push(Completion { rank: k, replacement: list[k].0.clone(), description: list[k].1.clone() });
        k += 1;
    }
    assert(list@.take(list@.len() as int) =~= list@);
    CompletionSet { original_set: set, current_set: None }
}

/// Takes in what the engine of `category` answered: without an answer
/// the sets stay as they are; an answer becomes the set of the category,
/// in the place of the set the category had, at the end where it had
/// none.
pub fn add_answer(sets: &mut Vec<(String, CompletionSet)>, category: String, answer: Option<Vec<(String, String)>>)
    requires
        distinct_categories(old(sets)@),
        forall|i: int| 0 <= i < old(sets)@.len() ==> ranked_by_place(#[trigger] old(sets)@[i].1.original_set@),
    ensures
        distinct_categories(final(sets)@),
        forall|i: int| 0 <= i < final(sets)@.len() ==> ranked_by_place(#[trigger] final(sets)@[i].1.original_set@),
        match answer {
            None => final(sets)@ == old(sets)@,
            Some(list) => match place_of(old(sets)@, category@) {
                Some(i) => {
                    &&& final(sets)@.len() == old(sets)@.len()
                    &&& forall|j: int| 0 <= j < old(sets)@.len() && j != i ==> final(sets)@[j] == old(sets)@[j]
                    &&& final(sets)@[i].0 == category
                    &&& answers(list@, final(sets)@[i].1.original_set@)
                    &&& final(sets)@[i].1.current_set is None
                },
                None => {
                    &&& final(sets)@.len() == old(sets)@.len() + 1
                    &&& final(sets)@.drop_last() == old(sets)@
                    &&& final(sets)@.last().0 == category
                    &&& answers(list@, final(sets)@.last().1.original_set@)
                    &&& final(sets)@.last().1.current_set is None
                },
            },
        },
{
    match answer {
        None => {},
        Some(list) => {
            let set = set_of(list.as_slice());
            put_set(sets, category, set);
            proof {
                lemma_place_within(old(sets)@, category@);
                if place_of(old(sets)@, category@) is None {
                    assert(sets@.drop_last() =~= old(sets)@);
                }
            }
        },
    }
}

impl<E: Engine> Completer<E> {
    /// A completer that asks the given engines, in order.
    pub fn new(engines: Vec<E>) -> (r: Completer<E>)
        ensures
            r.engines == engines,
    {
        Completer { engines }
    }

    /// Asks every engine, in order, for proposals for the word `start` in
    /// `line`, and takes each answer in as [`add_answer`] says: what an
    /// engine proposes becomes the set of its category, ranked in the
    /// order the engine gave; a later engine of the same category takes
    /// the place of an earlier one.
    pub fn completions(&mut self, start: &str, line: &[char]) -> (r: Completions)
        ensures
            r.start@ == start@,
            r.line@ == line@,
            distinct_categories(r.sets@),
            forall|i: int| 0 <= i < r.sets@.len() ==> ranked_by_place(#[trigger] r.sets@[i].1.original_set@),
            final(self).engines@.len() == old(self).engines@.len(),
            r.sets@.len() <= old(self).engines@.len(),
    {
        let line_string = text::string_of(line);
        let mut sets: Vec<(String, CompletionSet)> = Vec::new();
        let mut i: usize = 0;
        while i < self.engines.len()
            invariant
                i <= self.engines@.len(),
                self.engines@.len() == old(self).engines@.len(),
                distinct_categories(sets@),
                forall|k: int| 0 <= k < sets@.len() ==> ranked_by_place(#[trigger] sets@[k].1.original_set@),
                sets@.len() <= i,
            decreases self.engines@.len() - i,
        {
            let category = self.engines[i].category();
            let answer = self.engines[i].completions(start, line_string.as_str());
            add_answer(&mut sets, category, answer);
            i += 1;
        }
        Completions { sets, start: start.to_owned(), line: line_string }
    }
}

} // verus!
