//! The bounded memory of a search.
//!
//! A history keeps two things apart. The best set holds the few best scored
//! solutions that a search has settled on, in ascending order. The recent
//! list holds the solutions that a descent has lately stood on, newest first,
//! each with the iteration at which it came in; a solution on that list is
//! tabu, and leaves it by age or when the list is full.

use crate::scored::score_laws;
use crate::scored::solution_laws;
use crate::scored::Score;
use crate::scored::ScoredSolution;
use crate::scored::Solution;
use crate::random::draw_one;
use crate::ranking::is_lt;
use crate::ranking::le;
use crate::ranking::lemma_le_transitive;
use crate::ranking::lemma_trichotomy;
use rand_chacha::ChaCha20Rng;
use std::collections::HashSet;
use std::collections::VecDeque;
use vstd::prelude::*;

verus! {

broadcast use vstd::std_specs::hash::group_hash_axioms;

/// A count after it has gone up by one. It stays where it is once it has
/// reached the largest number that `u64` holds.
pub open spec fn next_count(count: u64) -> u64 {
    if count < u64::MAX {
        (count + 1) as u64
    } else {
        count
    }
}

/// An entry that came in at iteration `inserted` is still on the recent list
/// at iteration `now` when it is younger than `expiry`.
pub open spec fn is_live(inserted: u64, now: u64, expiry: u64) -> bool {
    now - inserted < expiry
}

/// The entries of `recent` that are still live at iteration `now`.
pub open spec fn live_entries<S: Solution, Sc: Score>(
    recent: Seq<(ScoredSolution<S, Sc>, u64)>,
    now: u64,
    expiry: u64,
) -> Seq<(ScoredSolution<S, Sc>, u64)> {
    recent.filter(|entry: (ScoredSolution<S, Sc>, u64)| is_live(entry.1, now, expiry))
}

/// Whether `solution` stands on the list `recent`.
pub open spec fn on_list<S: Solution, Sc: Score>(
    recent: Seq<(ScoredSolution<S, Sc>, u64)>,
    solution: S,
) -> bool {
    exists|i: int| 0 <= i < recent.len() && (#[trigger] recent[i]).0.solution == solution
}

/// The list `recent` after `scored` has asked to come in at iteration `now`:
/// unchanged where its solution is on the list already or the list may hold
/// nothing, else with the new entry in front, the oldest entries having
/// made room for it.
pub open spec fn admitted<S: Solution, Sc: Score>(
    recent: Seq<(ScoredSolution<S, Sc>, u64)>,
    scored: ScoredSolution<S, Sc>,
    now: u64,
    capacity: usize,
) -> Seq<(ScoredSolution<S, Sc>, u64)> {
    if capacity == 0 || on_list(recent, scored.solution) {
        recent
    } else if recent.len() < capacity {
        seq![(scored, now)] + recent
    } else {
        seq![(scored, now)] + recent.take(capacity - 1)
    }
}

/// No solution stands on `recent` twice.
pub open spec fn solutions_distinct<S: Solution, Sc: Score>(
    recent: Seq<(ScoredSolution<S, Sc>, u64)>,
) -> bool {
    forall|i: int, j: int|
        0 <= i < j < recent.len() ==> (#[trigger] recent[i]).0.solution != (
        #[trigger] recent[j]).0.solution
}

/// The entries of `recent` came in one after the other, the first of them
/// last, and none after iteration `now`: the iterations at which they came
/// in fall from the front to the back, and fall strictly below the largest
/// number that `u64` holds, at which the count of iterations stays.
pub open spec fn newest_first<S: Solution, Sc: Score>(
    recent: Seq<(ScoredSolution<S, Sc>, u64)>,
    now: u64,
) -> bool {
    &&& forall|i: int| 0 <= i < recent.len() ==> (#[trigger] recent[i]).1 <= now
    &&& forall|i: int, j: int|
        0 <= i < j < recent.len() ==> (#[trigger] recent[i]).1 >= (#[trigger] recent[j]).1
    &&& forall|i: int, j: int|
        0 <= i < j < recent.len() ==> (#[trigger] recent[i]).1 > (#[trigger] recent[j]).1
            || recent[j].1 == u64::MAX
}

/// Every entry of `recent` came in before iteration `now`, unless the count
/// of iterations has reached the largest number that `u64` holds.
pub open spec fn all_earlier<S: Solution, Sc: Score>(
    recent: Seq<(ScoredSolution<S, Sc>, u64)>,
    now: u64,
) -> bool {
    forall|i: int| 0 <= i < recent.len() ==> (#[trigger] recent[i]).1 < now || now == u64::MAX
}

/// Every entry of `recent` is live at iteration `now`.
pub open spec fn all_live<S: Solution, Sc: Score>(
    recent: Seq<(ScoredSolution<S, Sc>, u64)>,
    now: u64,
    expiry: u64,
) -> bool {
    forall|i: int| 0 <= i < recent.len() ==> is_live((#[trigger] recent[i]).1, now, expiry)
}

/// Each solution of `best` precedes those behind it.
pub open spec fn ascending<S: Solution, Sc: Score>(best: Seq<ScoredSolution<S, Sc>>) -> bool {
    forall|i: int, j: int| 0 <= i < j < best.len() ==> (#[trigger] best[i]).precedes(#[trigger] best[j])
}

/// The members of a best set of the given capacity after `candidate` has
/// asked to come in: it is let in while there is room; into a full set it is
/// let in where its score is no worse than that of the last member, which
/// leaves.
pub open spec fn members_after<S: Solution, Sc: Score>(
    best: Seq<ScoredSolution<S, Sc>>,
    candidate: ScoredSolution<S, Sc>,
    capacity: usize,
) -> Set<ScoredSolution<S, Sc>> {
    if best.len() < capacity {
        best.to_set().insert(candidate)
    } else if best.len() > 0 && le(candidate.score, best.last().score) {
        best.drop_last().to_set().insert(candidate)
    } else {
        best.to_set()
    }
}

/// What a search remembers: the best scored solutions it has settled on, and
/// the solutions it has lately seen.
pub struct History<_Solution, _Score> where _Solution: Solution, _Score: Score {
    best_solutions: Vec<ScoredSolution<_Solution, _Score>>,
    best_solutions_capacity: usize,
    all_solutions: VecDeque<(ScoredSolution<_Solution, _Score>, u64)>,
    all_solutions_capacity: usize,
    all_solutions_lookup: HashSet<_Solution>,
    all_solution_iteration_expiry: u64,
    iteration_count: u64,
}

impl<_Solution, _Score> History<_Solution, _Score> where _Solution: Solution, _Score: Score {
    /// The best set, in ascending order.
    pub closed spec fn best(&self) -> Seq<ScoredSolution<_Solution, _Score>> {
        self.best_solutions@
    }

    /// The recent list, newest entry first, each with the iteration at which
    /// it came in.
    pub closed spec fn recent(&self) -> Seq<(ScoredSolution<_Solution, _Score>, u64)> {
        self.all_solutions@
    }

    /// How many solutions the best set may hold.
    pub closed spec fn best_capacity(&self) -> usize {
        self.best_solutions_capacity
    }

    /// How many entries the recent list may hold.
    pub closed spec fn recent_capacity(&self) -> usize {
        self.all_solutions_capacity
    }

    /// The age at which an entry leaves the recent list.
    pub closed spec fn expiry(&self) -> u64 {
        self.all_solution_iteration_expiry
    }

    /// How many solutions have been shown to this history.
    pub closed spec fn iterations(&self) -> u64 {
        self.iteration_count
    }

    /// The solutions that are tabu: those on the recent list.
    pub open spec fn tabu(&self) -> Set<_Solution> {
        Set::new(|solution: _Solution| on_list(self.recent(), solution))
    }

    /// The lookup set holds the solutions of the recent list.
    pub closed spec fn lookup_agrees(&self) -> bool {
        self.all_solutions_lookup@ == self.tabu()
    }

    /// What holds of a history between the steps of an update.
    pub open spec fn wf_but_for_age(&self) -> bool {
        &&& solution_laws::<_Solution>()
        &&& score_laws::<_Score>()
        &&& self.lookup_agrees()
        &&& ascending(self.best())
        &&& self.best().len() <= self.best_capacity()
        &&& self.recent().len() <= self.recent_capacity()
        &&& solutions_distinct(self.recent())
        &&& newest_first(self.recent(), self.iterations())
    }

    /// What holds of a history whenever a caller sees it.
    pub open spec fn wf(&self) -> bool {
        &&& self.wf_but_for_age()
        &&& self.expiry() > 0 ==> all_live(self.recent(), self.iterations(), self.expiry())
    }

    /// The limits of `self` are those of `other`.
    pub open spec fn same_limits(&self, other: &Self) -> bool {
        &&& self.best_capacity() == other.best_capacity()
        &&& self.recent_capacity() == other.recent_capacity()
        &&& self.expiry() == other.expiry()
    }

    /// `self` is `before` after it has been shown `solution`: the count of
    /// iterations has gone up by one; the entries that are no longer live at
    /// the new count have left the recent list; and `solution` has then
    /// asked to come in. The best set and the limits are as they were.
    pub open spec fn shown(&self, before: &Self, solution: ScoredSolution<_Solution, _Score>) -> bool {
        &&& self.same_limits(before)
        &&& self.best() == before.best()
        &&& self.iterations() == next_count(before.iterations())
        &&& self.recent() == admitted(
            live_entries(before.recent(), self.iterations(), before.expiry()),
            solution,
            self.iterations(),
            before.recent_capacity(),
        )
    }

    /// `self` is `before` after `solution` has been offered to its best
    /// set: the members of the set are those that [`members_after`] names,
    /// and the recent list, the count of iterations and the limits are as
    /// they were.
    pub open spec fn offered(&self, before: &Self, solution: ScoredSolution<_Solution, _Score>) -> bool {
        &&& self.same_limits(before)
        &&& self.recent() == before.recent()
        &&& self.iterations() == before.iterations()
        &&& self.best().to_set() == members_after(
            before.best(),
            solution,
            before.best_capacity(),
        )
    }

    /// A history that has seen nothing yet: its best set may hold
    /// `best_solutions_capacity` solutions, its recent list
    /// `all_solutions_capacity` entries, each until it has reached the age
    /// `all_solution_iteration_expiry`. It is well formed for host types that
    /// keep their laws.
    pub fn new(
        best_solutions_capacity: usize,
        all_solutions_capacity: usize,
        all_solution_iteration_expiry: u64,
    ) -> (history: Self)
        ensures
            solution_laws::<_Solution>() && score_laws::<_Score>() ==> history.wf(),
            history.best().len() == 0,
            history.recent().len() == 0,
            history.iterations() == 0,
            history.best_capacity() == best_solutions_capacity,
            history.recent_capacity() == all_solutions_capacity,
            history.expiry() == all_solution_iteration_expiry,
    {
        let history = History {
            best_solutions: Vec::new(),
            best_solutions_capacity,
            all_solutions: VecDeque::new(),
            all_solutions_capacity,
            all_solutions_lookup: HashSet::new(),
            all_solution_iteration_expiry,
            iteration_count: 0,
        };
        assert(history.all_solutions_lookup@ =~= history.tabu());
        history
    }

    /// How many solutions have been shown to this history.
    pub fn iteration_count(&self) -> (count: u64)
        ensures
            count == self.iterations(),
    {
        self.iteration_count
    }

    /// Shows `solution` to the history: the count of iterations goes up by
    /// one, the entries that have reached the expiry age leave the recent
    /// list, and `solution` comes in at its front unless it stands on the
    /// list already. A full list drops its oldest entry to make room.
    pub fn seen_solution(&mut self, solution: ScoredSolution<_Solution, _Score>)
        requires
            old(self).wf(),
        ensures
            final(self).wf(),
            final(self).shown(old(self), solution),
    {
        if self.iteration_count < u64::MAX {
            self.iteration_count += 1;
        }
        assert(all_earlier(self.recent(), self.iterations()));
        self.pop_solution_for_age();
        if self.all_solutions_capacity == 0 {
            return ;
        }
        if self.all_solutions_lookup.contains(&solution.solution) {
            return ;
        }
        self.add_solution(solution);
    }

    /// Whether `solution` is tabu: whether it stands on the recent list.
    pub fn is_solution_tabu(&self, solution: &_Solution) -> (tabu: bool)
        requires
            self.wf_but_for_age(),
        ensures
            tabu == on_list(self.recent(), *solution),
    {
        self.all_solutions_lookup.contains(solution)
    }

    /// Offers `solution` to the best set. While the set has room it comes in.
    /// Into a full set it comes in where its score is no worse than that of
    /// the worst member, which leaves. The best score of the set never gets
    /// worse.
    pub fn local_search_chose_solution(&mut self, solution: ScoredSolution<_Solution, _Score>)
        requires
            old(self).wf(),
        ensures
            final(self).wf(),
            final(self).offered(old(self), solution),
            old(self).best().len() > 0 ==> final(self).best().len() > 0 && le(
                final(self).best()[0].score,
                old(self).best()[0].score,
            ),
    {
        let ghost before = self.best();
        let length = self.best_solutions.len();
        if length < self.best_solutions_capacity {
            insert_ascending(&mut self.best_solutions, solution);
            proof {
                lemma_first_is_least(self.best(), before, solution);
            }
            return ;
        }
        if length == 0 {
            return ;
        }
        proof {
            lemma_trichotomy(solution.score, before.last().score);
        }
        if !is_lt(&self.best_solutions[length - 1].score, &solution.score) {
            self.best_solutions.pop();
            insert_ascending(&mut self.best_solutions, solution);
            proof {
                lemma_first_is_least(self.best(), before.drop_last(), solution);
                if before.len() == 1 {
                    lemma_le_transitive(self.best()[0].score, solution.score, before[0].score);
                }
            }
        }
    }

    /// The best solution settled on so far, if there is any.
    pub fn get_best(&self) -> (found: Option<ScoredSolution<_Solution, _Score>>)
        requires
            self.wf(),
        ensures
            found == if self.best().len() == 0 {
                None
            } else {
                Some(self.best()[0])
            },
    {
        if self.best_solutions.len() == 0 {
            return None;
        }
        Some(self.best_solutions[0].clone())
    }

    /// The `number_to_get` best solutions settled on so far, best first, or
    /// all of them where there are fewer; `None` where there is none.
    pub fn get_best_multiple(&self, number_to_get: usize) -> (found: Option<
        Vec<ScoredSolution<_Solution, _Score>>,
    >)
        requires
            self.wf(),
        ensures
            self.best().len() == 0 <==> found is None,
            found matches Some(several) ==> several@ == if number_to_get < self.best().len() {
                self.best().take(number_to_get as int)
            } else {
                self.best()
            },
    {
        if self.best_solutions.len() == 0 {
            return None;
        }
        let mut several: Vec<ScoredSolution<_Solution, _Score>> = Vec::new();
        let mut taken: usize = 0;
        while taken < number_to_get && taken < self.best_solutions.len()
            invariant
                self.wf(),
                taken <= number_to_get,
                taken <= self.best().len(),
                several@ == self.best().take(taken as int),
            decreases self.best().len() - taken,
        {
            several.push(self.best_solutions[taken].clone());
            taken += 1;
        }
        Some(several)
    }

    /// One of the best solutions settled on so far, each with the same
    /// chance; `None` where there is none, and nothing is drawn then.
    pub fn get_random_best_solution(&self, rng: &mut ChaCha20Rng) -> (found: Option<
        ScoredSolution<_Solution, _Score>,
    >)
        requires
            self.wf(),
        ensures
            self.best().len() == 0 <==> found is None,
            found matches Some(drawn) ==> self.best().contains(drawn),
            self.best().len() == 0 ==> *final(rng) == *old(rng),
    {
        if self.best_solutions.len() == 0 {
            return None;
        }
        match draw_one(&self.best_solutions, rng) {
            Some(drawn) => Some(drawn.clone()),
            None => None,
        }
    }

    /// Whether `solution` is a member of the best set.
    pub fn is_best_solution(&self, solution: ScoredSolution<_Solution, _Score>) -> (member: bool)
        requires
            self.wf(),
        ensures
            member == self.best().contains(solution),
    {
        let mut place: usize = 0;
        while place < self.best_solutions.len()
            invariant
                self.wf(),
                place <= self.best().len(),
                forall|j: int| 0 <= j < place ==> self.best()[j] != solution,
            decreases self.best().len() - place,
        {
            if self.best_solutions[place].is_same_as(&solution) {
                return true;
            }
            place += 1;
        }
        false
    }

    /// Forgets every solution. The count of iterations and the limits stay.
    pub fn clear(&mut self)
        requires
            old(self).wf(),
        ensures
            final(self).wf(),
            final(self).best().len() == 0,
            final(self).recent().len() == 0,
            final(self).iterations() == old(self).iterations(),
            final(self).same_limits(old(self)),
    {
        self.all_solutions.clear();
        self.all_solutions_lookup.clear();
        self.best_solutions.clear();
        assert(self.all_solutions_lookup@ =~= self.tabu());
    }

    /// Puts `solution` in front of the recent list, which does not hold it.
    fn add_solution(&mut self, solution: ScoredSolution<_Solution, _Score>)
        requires
            old(self).wf(),
            old(self).recent_capacity() > 0,
            !on_list(old(self).recent(), solution.solution),
            all_earlier(old(self).recent(), old(self).iterations()),
        ensures
            final(self).wf(),
            final(self).same_limits(old(self)),
            final(self).best() == old(self).best(),
            final(self).iterations() == old(self).iterations(),
            final(self).recent() == admitted(
                old(self).recent(),
                solution,
                old(self).iterations(),
                old(self).recent_capacity(),
            ),
    {
        self.pop_solution_for_size();
        let ghost kept = self.recent();
        let tabu = solution.solution.clone();
        let ghost entry = (solution, self.iteration_count);
        self.all_solutions.push_front((solution, self.iteration_count));
        self.all_solutions_lookup.insert(tabu);
        proof {
            let now = self.recent();
            assert(now == seq![entry] + kept);
            assert forall|s: _Solution| on_list(now, s) <==> (s == tabu || on_list(kept, s)) by {
                if on_list(kept, s) {
                    let i = choose|i: int| 0 <= i < kept.len() && (#[trigger] kept[i]).0.solution == s;
                    assert(now[i + 1].0.solution == s);
                }
                if s == tabu {
                    assert(now[0].0.solution == s);
                }
            }
            assert(self.all_solutions_lookup@ =~= self.tabu());
        }
    }

    /// Drops entries from the old end of the recent list until it has room
    /// for one more.
    fn pop_solution_for_size(&mut self)
        requires
            old(self).wf(),
            old(self).recent_capacity() > 0,
        ensures
            final(self).wf(),
            final(self).same_limits(old(self)),
            final(self).best() == old(self).best(),
            final(self).iterations() == old(self).iterations(),
            final(self).recent().len() < old(self).recent_capacity(),
            final(self).recent() == if old(self).recent().len() < old(self).recent_capacity() {
                old(self).recent()
            } else {
                old(self).recent().take(old(self).recent_capacity() - 1)
            },
    {
        while self.all_solutions.len() >= self.all_solutions_capacity
            invariant
                self.wf(),
                self.recent_capacity() > 0,
                self.same_limits(old(self)),
                self.best() == old(self).best(),
                self.iterations() == old(self).iterations(),
                self.recent() == old(self).recent() || (old(self).recent().len()
                    >= self.recent_capacity() && self.recent() == old(self).recent().take(
                    self.recent_capacity() - 1,
                )),
            decreases self.all_solutions.len(),
        {
            self.pop_oldest();
        }
    }

    /// Drops the entries at the old end of the recent list that have reached
    /// the expiry age.
    fn pop_solution_for_age(&mut self)
        requires
            old(self).wf_but_for_age(),
        ensures
            final(self).wf(),
            final(self).same_limits(old(self)),
            final(self).best() == old(self).best(),
            final(self).iterations() == old(self).iterations(),
            final(self).recent() == live_entries(
                old(self).recent(),
                old(self).iterations(),
                old(self).expiry(),
            ),
            all_earlier(old(self).recent(), old(self).iterations()) ==> all_earlier(
                final(self).recent(),
                final(self).iterations(),
            ),
    {
        loop
            invariant
                self.wf_but_for_age(),
                self.same_limits(old(self)),
                self.best() == old(self).best(),
                self.iterations() == old(self).iterations(),
                all_earlier(old(self).recent(), old(self).iterations()) ==> all_earlier(
                    self.recent(),
                    self.iterations(),
                ),
                live_entries(self.recent(), self.iterations(), self.expiry()) == live_entries(
                    old(self).recent(),
                    old(self).iterations(),
                    old(self).expiry(),
                ),
            ensures
                self.wf_but_for_age(),
                self.same_limits(old(self)),
                self.best() == old(self).best(),
                self.iterations() == old(self).iterations(),
                all_earlier(old(self).recent(), old(self).iterations()) ==> all_earlier(
                    self.recent(),
                    self.iterations(),
                ),
                live_entries(self.recent(), self.iterations(), self.expiry()) == live_entries(
                    old(self).recent(),
                    old(self).iterations(),
                    old(self).expiry(),
                ),
                all_live(self.recent(), self.iterations(), self.expiry()),
            decreases self.all_solutions.len(),
        {
            let length = self.all_solutions.len();
            if length == 0 {
                break ;
            }
            let inserted = self.all_solutions[length - 1].1;
            if self.iteration_count - inserted < self.all_solution_iteration_expiry {
                break ;
            }
            proof {
                lemma_live_entries_drop_last(self.recent(), self.iterations(), self.expiry());
            }
            self.pop_oldest();
        }
        proof {
            lemma_live_entries_of_all_live(self.recent(), self.iterations(), self.expiry());
        }
    }

    /// Drops the oldest entry of the recent list.
    fn pop_oldest(&mut self)
        requires
            old(self).wf_but_for_age(),
            old(self).recent().len() > 0,
        ensures
            final(self).wf_but_for_age(),
            old(self).wf() ==> final(self).wf(),
            final(self).same_limits(old(self)),
            final(self).best() == old(self).best(),
            final(self).iterations() == old(self).iterations(),
            final(self).recent() == old(self).recent().drop_last(),
    {
        let ghost before = self.recent();
        let oldest = self.all_solutions.pop_back();
        if let Some(entry) = oldest {
            self.all_solutions_lookup.remove(&entry.0.solution);
            proof {
                let now = self.recent();
                assert forall|s: _Solution| on_list(now, s) <==> (on_list(before, s) && s
                    != entry.0.solution) by {
                    if on_list(before, s) && s != entry.0.solution {
                        let i = choose|i: int|
                            0 <= i < before.len() && (#[trigger] before[i]).0.solution == s;
                        assert(now[i].0.solution == s);
                    }
                }
                assert(self.all_solutions_lookup@ =~= self.tabu());
            }
        }
    }
}

/// How many solutions the best set of a default history may hold.
pub const DEFAULT_BEST_SOLUTIONS_CAPACITY: usize = 16;

/// How many entries the recent list of a default history may hold.
pub const DEFAULT_ALL_SOLUTIONS_CAPACITY: usize = 10_000;

/// The age at which an entry leaves the recent list of a default history.
pub const DEFAULT_ALL_SOLUTION_ITERATION_EXPIRY: u64 = 100_000;

impl<_Solution, _Score> Default for History<_Solution, _Score> where
    _Solution: Solution,
    _Score: Score,
 {
    /// A history with the default limits that has seen nothing yet.
    fn default() -> (history: Self)
        ensures
            solution_laws::<_Solution>() && score_laws::<_Score>() ==> history.wf(),
            history.best().len() == 0,
            history.recent().len() == 0,
            history.iterations() == 0,
            history.best_capacity() == DEFAULT_BEST_SOLUTIONS_CAPACITY,
            history.recent_capacity() == DEFAULT_ALL_SOLUTIONS_CAPACITY,
            history.expiry() == DEFAULT_ALL_SOLUTION_ITERATION_EXPIRY,
    {
        Self::new(
            DEFAULT_BEST_SOLUTIONS_CAPACITY,
            DEFAULT_ALL_SOLUTIONS_CAPACITY,
            DEFAULT_ALL_SOLUTION_ITERATION_EXPIRY,
        )
    }
}

impl<_Solution, _Score> History<_Solution, _Score> where _Solution: Solution, _Score: Score {
    /// Neither list of a history is ever longer than its capacity.
    pub proof fn lemma_bounded(&self)
        requires
            self.wf(),
        ensures
            self.recent().len() <= self.recent_capacity(),
            self.best().len() <= self.best_capacity(),
    {
    }

    /// Every entry of the recent list is younger than the expiry age, unless
    /// that age is zero: then an entry stays until the next solution is
    /// shown.
    pub proof fn lemma_entries_are_young(&self, i: int)
        requires
            self.wf(),
            self.expiry() > 0,
            0 <= i < self.recent().len(),
        ensures
            self.iterations() - self.recent()[i].1 < self.expiry(),
    {
    }

    /// A solution that has been shown to a history is tabu, unless the
    /// recent list may hold nothing.
    pub proof fn lemma_shown_is_tabu(&self, before: &Self, solution: ScoredSolution<_Solution, _Score>)
        requires
            self.shown(before, solution),
            self.recent_capacity() > 0,
        ensures
            self.tabu().contains(solution.solution),
    {
        let live = live_entries(before.recent(), self.iterations(), before.expiry());
        if !on_list(live, solution.solution) {
            assert(self.recent()[0].0.solution == solution.solution);
        }
    }

    /// Showing a history the same solution twice leaves the tabu set as the
    /// first showing left it, provided that no other solution on the list
    /// reaches the expiry age at the second showing.
    pub proof fn lemma_shown_twice(
        &self,
        once: &Self,
        before: &Self,
        solution: ScoredSolution<_Solution, _Score>,
    )
        requires
            once.wf(),
            once.shown(before, solution),
            self.shown(once, solution),
            forall|i: int|
                0 <= i < once.recent().len() && (#[trigger] once.recent()[i]).0.solution
                    != solution.solution ==> is_live(
                    once.recent()[i].1,
                    self.iterations(),
                    once.expiry(),
                ),
        ensures
            self.tabu() == once.tabu(),
    {
        let list = once.recent();
        let now = self.iterations();
        let expiry = once.expiry();
        if once.recent_capacity() > 0 {
            once.lemma_shown_is_tabu(before, solution);
            let at = choose|i: int| 0 <= i < list.len() && (#[trigger] list[i]).0.solution
                == solution.solution;
            if is_live(list[at].1, now, expiry) {
                // Every entry is live, so that the list stays as it is.
                lemma_live_entries_of_all_live(list, now, expiry);
            } else {
                // The entry of the solution is the oldest. It leaves, and the
                // solution comes in again in front of the others.
                let rest = list.drop_last();
                lemma_live_entries_drop_last(list, now, expiry);
                lemma_live_entries_of_all_live(rest, now, expiry);
                let after = self.recent();
                assert forall|s: _Solution| on_list(after, s) <==> on_list(list, s) by {
                    if on_list(list, s) {
                        let j = choose|j: int| 0 <= j < list.len() && (#[trigger] list[j]).0.solution
                            == s;
                        if j == at {
                            assert(after[0].0.solution == s);
                        } else {
                            assert(after[j + 1] == rest[j]);
                        }
                    }
                }
            }
        }
    }

    /// After an offer the best of a history is no worse than the solution
    /// offered, where the best set may hold a solution at all.
    pub proof fn lemma_offer_is_kept(
        &self,
        before: &Self,
        solution: ScoredSolution<_Solution, _Score>,
    )
        requires
            before.wf(),
            self.wf(),
            self.offered(before, solution),
            before.best_capacity() > 0,
        ensures
            self.best().len() > 0,
            le(self.best()[0].score, solution.score),
    {
        lemma_member_is_kept(before.best(), self.best(), solution, before.best_capacity());
    }

    /// After an offer the best of a history is no worse than it was.
    pub proof fn lemma_offer_gets_no_worse(
        &self,
        before: &Self,
        solution: ScoredSolution<_Solution, _Score>,
    )
        requires
            before.wf(),
            self.wf(),
            self.offered(before, solution),
            before.best().len() > 0,
        ensures
            self.best().len() > 0,
            le(self.best()[0].score, before.best()[0].score),
    {
        let old_best = before.best();
        let new_best = self.best();
        if old_best.len() < before.best_capacity() {
            lemma_first_is_least(new_best, old_best, solution);
        } else if le(solution.score, old_best.last().score) {
            lemma_first_is_least(new_best, old_best.drop_last(), solution);
            if old_best.len() == 1 {
                lemma_le_transitive(new_best[0].score, solution.score, old_best[0].score);
            } else {
                assert(old_best.drop_last()[0] == old_best[0]);
            }
        } else {
            lemma_ascending_by_members(new_best, old_best);
        }
    }

    /// After any number of offers the best of a history is no worse than
    /// any of the solutions offered, where the best set may hold a solution
    /// at all: `states` holds a history and then the same history after each
    /// of the `offers`.
    pub proof fn lemma_offers_keep_the_best(
        states: Seq<Self>,
        offers: Seq<ScoredSolution<_Solution, _Score>>,
        i: int,
    )
        requires
            states.len() == offers.len() + 1,
            forall|k: int| 0 <= k < states.len() ==> (#[trigger] states[k]).wf(),
            forall|k: int|
                0 <= k < offers.len() ==> (#[trigger] states[k + 1]).offered(&states[k], offers[k]),
            states[0].best_capacity() > 0,
            0 <= i < offers.len(),
        ensures
            states.last().best().len() > 0,
            le(states.last().best()[0].score, offers[i].score),
        decreases offers.len() - i,
    {
        assert(states[i + 1].offered(&states[i], offers[i]));
        Self::lemma_offers_keep_the_limits(states, offers, i);
        states[i + 1].lemma_offer_is_kept(&states[i], offers[i]);
        if i + 1 < offers.len() {
            Self::lemma_offers_keep_the_best(states, offers, i + 1);
            Self::lemma_offers_get_no_worse(states, offers, i + 1, offers.len() as int);
            lemma_le_transitive(
                states.last().best()[0].score,
                states[i + 1].best()[0].score,
                offers[i].score,
            );
        }
    }

    /// Offers leave the limits of a history as they are.
    proof fn lemma_offers_keep_the_limits(
        states: Seq<Self>,
        offers: Seq<ScoredSolution<_Solution, _Score>>,
        i: int,
    )
        requires
            states.len() == offers.len() + 1,
            forall|k: int|
                0 <= k < offers.len() ==> (#[trigger] states[k + 1]).offered(&states[k], offers[k]),
            0 <= i < states.len(),
        ensures
            states[i].same_limits(&states[0]),
        decreases i,
    {
        if i > 0 {
            Self::lemma_offers_keep_the_limits(states, offers, i - 1);
            assert(states[i - 1 + 1].offered(&states[i - 1], offers[i - 1]));
        }
    }

    /// From a state with a best solution on, offers make the best of a
    /// history no worse.
    proof fn lemma_offers_get_no_worse(
        states: Seq<Self>,
        offers: Seq<ScoredSolution<_Solution, _Score>>,
        i: int,
        j: int,
    )
        requires
            states.len() == offers.len() + 1,
            forall|k: int| 0 <= k < states.len() ==> (#[trigger] states[k]).wf(),
            forall|k: int|
                0 <= k < offers.len() ==> (#[trigger] states[k + 1]).offered(&states[k], offers[k]),
            0 <= i <= j < states.len(),
            states[i].best().len() > 0,
        ensures
            states[j].best().len() > 0,
            le(states[j].best()[0].score, states[i].best()[0].score),
        decreases j - i,
    {
        if i < j {
            Self::lemma_offers_get_no_worse(states, offers, i, j - 1);
            assert(states[j - 1 + 1].offered(&states[j - 1], offers[j - 1]));
            states[j].lemma_offer_gets_no_worse(&states[j - 1], offers[j - 1]);
            lemma_le_transitive(
                states[j].best()[0].score,
                states[j - 1].best()[0].score,
                states[i].best()[0].score,
            );
        }
    }

    /// The best set is known by its members: two histories with the same
    /// members hold them in the same order.
    pub proof fn lemma_best_set_by_members(&self, other: &Self)
        requires
            self.wf(),
            other.wf(),
            self.best().to_set() == other.best().to_set(),
        ensures
            self.best() == other.best(),
    {
        lemma_ascending_by_members(self.best(), other.best());
    }
}

/// Where `after` holds the members of the best set `before` after
/// `candidate` has asked to come in, its first member is no worse than
/// `candidate`, provided that the set may hold a solution at all.
pub proof fn lemma_member_is_kept<S: Solution, Sc: Score>(
    before: Seq<ScoredSolution<S, Sc>>,
    after: Seq<ScoredSolution<S, Sc>>,
    candidate: ScoredSolution<S, Sc>,
    capacity: usize,
)
    requires
        solution_laws::<S>(),
        score_laws::<Sc>(),
        ascending(before),
        ascending(after),
        capacity > 0,
        after.to_set() == members_after(before, candidate, capacity),
    ensures
        after.len() > 0,
        le(after[0].score, candidate.score),
{
    if before.len() < capacity || le(candidate.score, before.last().score) {
        assert(after.to_set().contains(candidate));
        let k = choose|k: int| 0 <= k < after.len() && after[k] == candidate;
        assert(k == 0 || after[0].precedes(after[k]));
    } else {
        assert(before.to_set().contains(before[0]));
        assert(after.to_set().contains(before[0]));
        assert(after.to_set().contains(after[0]));
        let k = choose|k: int| 0 <= k < before.len() && before[k] == after[0];
        assert(k == before.len() - 1 || before[k].precedes(before[before.len() - 1]));
        lemma_trichotomy(candidate.score, before.last().score);
        lemma_le_transitive(after[0].score, before.last().score, candidate.score);
    }
}

/// An ascending list is known by its members.
pub proof fn lemma_ascending_by_members<S: Solution, Sc: Score>(
    one: Seq<ScoredSolution<S, Sc>>,
    other: Seq<ScoredSolution<S, Sc>>,
)
    requires
        solution_laws::<S>(),
        score_laws::<Sc>(),
        ascending(one),
        ascending(other),
        one.to_set() == other.to_set(),
    ensures
        one == other,
    decreases one.len(),
{
    if one.len() == 0 {
        if other.len() > 0 {
            assert(other.to_set().contains(other[0]));
            assert(one.contains(other[0]));
        }
        assert(one =~= other);
    } else {
        let top = one.last();
        assert(one.to_set().contains(top));
        assert(other.contains(top));
        let j = choose|j: int| 0 <= j < other.len() && other[j] == top;
        assert(other.to_set().contains(other.last()));
        assert(one.contains(other.last()));
        let i = choose|i: int| 0 <= i < one.len() && one[i] == other.last();
        top.lemma_precedes_total(other.last());
        if i < one.len() - 1 {
            assert(one[i].precedes(one[one.len() - 1]));
        }
        if j < other.len() - 1 {
            assert(other[j].precedes(other[other.len() - 1]));
        }
        assert(other.last() == top);
        let one_rest = one.drop_last();
        let other_rest = other.drop_last();
        assert forall|x: ScoredSolution<S, Sc>| one_rest.contains(x) <==> other_rest.contains(
            x,
        ) by {
            if one_rest.contains(x) {
                let k = choose|k: int| 0 <= k < one_rest.len() && one_rest[k] == x;
                assert(one[k].precedes(one[one.len() - 1]));
                x.lemma_precedes_total(top);
                assert(one.to_set().contains(one[k]));
                assert(other.contains(x));
                let m = choose|m: int| 0 <= m < other.len() && other[m] == x;
                assert(other_rest[m] == x);
            }
            if other_rest.contains(x) {
                let k = choose|k: int| 0 <= k < other_rest.len() && other_rest[k] == x;
                assert(other[k].precedes(other[other.len() - 1]));
                x.lemma_precedes_total(top);
                assert(other.to_set().contains(other[k]));
                assert(one.contains(x));
                let m = choose|m: int| 0 <= m < one.len() && one[m] == x;
                assert(one_rest[m] == x);
            }
        }
        assert(one_rest.to_set() =~= other_rest.to_set());
        lemma_ascending_by_members(one_rest, other_rest);
        assert(one =~= one_rest.push(top));
        assert(other =~= other_rest.push(top));
    }
}

/// Puts `candidate` into the ascending list `best` at its place, unless it
/// is there already.
fn insert_ascending<S: Solution, Sc: Score>(
    best: &mut Vec<ScoredSolution<S, Sc>>,
    candidate: ScoredSolution<S, Sc>,
)
    requires
        solution_laws::<S>(),
        score_laws::<Sc>(),
        ascending(old(best)@),
    ensures
        ascending(final(best)@),
        final(best)@.to_set() == old(best)@.to_set().insert(candidate),
        final(best)@.len() == old(best)@.len() + if old(best)@.contains(candidate) {
            0int
        } else {
            1int
        },
        final(best)@.len() > 0,
        old(best)@.len() > 0 ==> final(best)@[0] == old(best)@[0] || final(best)@[0] == candidate,
{
    let ghost before = best@;
    let mut place: usize = 0;
    while place < best.len() && best[place].comes_before(&candidate)
        invariant
            solution_laws::<S>(),
            score_laws::<Sc>(),
            best@ == before,
            place <= best.len(),
            forall|j: int| 0 <= j < place ==> (#[trigger] before[j]).precedes(candidate),
        decreases best.len() - place,
    {
        place += 1;
    }
    proof {
        assert forall|j: int| 0 <= j < place implies before[j] != candidate by {
            before[j].lemma_precedes_total(candidate);
        }
        if place < before.len() {
            let found = before[place as int];
            found.lemma_precedes_total(candidate);
            assert forall|j: int| place < j < before.len() implies candidate.precedes(
                #[trigger] before[j],
            ) && before[j] != candidate by {
                if found != candidate {
                    candidate.lemma_precedes_transitive(found, before[j]);
                }
            }
        }
    }
    let present = place < best.len() && best[place].is_same_as(&candidate);
    if !present {
        best.insert(place, candidate);
        proof {
            let after = best@;
            assert forall|x: ScoredSolution<S, Sc>| after.contains(x) <==> (before.contains(x)
                || x == candidate) by {
                if before.contains(x) {
                    let k = choose|k: int| 0 <= k < before.len() && before[k] == x;
                    if k < place {
                        assert(after[k] == x);
                    } else {
                        assert(after[k + 1] == x);
                    }
                }
                if x == candidate {
                    assert(after[place as int] == x);
                }
            }
        }
    }
}

/// After `candidate` has come into an ascending list, the first member of
/// the list is no worse than the first member before.
proof fn lemma_first_is_least<S: Solution, Sc: Score>(
    after: Seq<ScoredSolution<S, Sc>>,
    before: Seq<ScoredSolution<S, Sc>>,
    candidate: ScoredSolution<S, Sc>,
)
    requires
        solution_laws::<S>(),
        score_laws::<Sc>(),
        ascending(after),
        after.to_set() == before.to_set().insert(candidate),
    ensures
        forall|j: int|
            0 <= j < before.len() ==> after.len() > 0 && le(after[0].score, (#[trigger] before[j]).score),
        after.len() > 0,
        le(after[0].score, candidate.score),
{
    assert(after.to_set().contains(candidate));
    assert forall|j: int| 0 <= j < before.len() implies le(
        after[0].score,
        (#[trigger] before[j]).score,
    ) by {
        assert(after.to_set().contains(before[j]));
    }
}

/// An entry at the old end that is not live adds nothing to the live entries.
pub proof fn lemma_live_entries_drop_last<S: Solution, Sc: Score>(
    recent: Seq<(ScoredSolution<S, Sc>, u64)>,
    now: u64,
    expiry: u64,
)
    requires
        recent.len() > 0,
    ensures
        live_entries(recent, now, expiry) == if is_live(recent.last().1, now, expiry) {
            live_entries(recent.drop_last(), now, expiry).push(recent.last())
        } else {
            live_entries(recent.drop_last(), now, expiry)
        },
{
    reveal(Seq::filter);
}

/// Where every entry is live, the live entries are the whole list.
pub proof fn lemma_live_entries_of_all_live<S: Solution, Sc: Score>(
    recent: Seq<(ScoredSolution<S, Sc>, u64)>,
    now: u64,
    expiry: u64,
)
    requires
        all_live(recent, now, expiry),
    ensures
        live_entries(recent, now, expiry) == recent,
    decreases recent.len(),
{
    if recent.len() == 0 {
    } else {
        let front = recent.drop_last();
        lemma_live_entries_of_all_live(front, now, expiry);
        lemma_live_entries_drop_last(recent, now, expiry);
    }
}

} // verus!
