//! The steps of a descent: which of the proposed moves it looks at, which
//! of them it takes, and when it ends.

use crate::history::admitted;
use crate::history::live_entries;
use crate::history::next_count;
use crate::history::on_list;
use crate::history::History;
use crate::ranking::is_lt;
use crate::ranking::lt;
use crate::scored::optimal;
use crate::scored::score_laws;
use crate::scored::scored_by;
use crate::scored::scorer_laws;
use crate::scored::solution_laws;
use crate::scored::Score;
use crate::scored::ScoredSolution;
use crate::scored::Solution;
use crate::scored::SolutionScoreCalculator;
use vstd::prelude::*;

verus! {

/// The moves of `moves` that a descent may take: those that are not on the
/// list `recent`, in the order in which they were proposed.
pub open spec fn open_moves<S: Solution, Sc: Score>(
    moves: Seq<S>,
    recent: Seq<(ScoredSolution<S, Sc>, u64)>,
) -> Seq<S> {
    moves.filter(|candidate: S| !on_list(recent, candidate))
}

/// The first `window_size` of `solutions`, or all of them where there are
/// fewer.
pub open spec fn window<S>(solutions: Seq<S>, window_size: usize) -> Seq<S> {
    if window_size < solutions.len() {
        solutions.take(window_size as int)
    } else {
        solutions
    }
}

/// Each of `solutions` with the score that `calculator` gives to it.
pub open spec fn scored_all<SSC: SolutionScoreCalculator>(
    calculator: SSC,
    solutions: Seq<SSC::_Solution>,
) -> Seq<ScoredSolution<SSC::_Solution, SSC::_Score>> {
    Seq::new(solutions.len(), |i: int| scored_by(calculator, solutions[i]))
}

/// Scores the neighbourhood that a descent looks at: of the proposed moves
/// the first `window_size` that are not tabu.
pub fn score_neighborhood<S, Sc, SSC>(
    moves: Vec<S>,
    history: &History<S, Sc>,
    calculator: &SSC,
    window_size: usize,
) -> (neighborhood: Vec<ScoredSolution<S, Sc>>) where
    S: Solution,
    Sc: Score,
    SSC: SolutionScoreCalculator<_Solution = S, _Score = Sc>,

    requires
        history.wf_but_for_age(),
        scorer_laws(*calculator),
    ensures
        neighborhood@ == scored_all(
            *calculator,
            window(open_moves(moves@, history.recent()), window_size),
        ),
{
    let ghost all = moves@;
    let ghost recent = history.recent();
    let mut neighborhood: Vec<ScoredSolution<S, Sc>> = Vec::new();
    for candidate in iter: moves
        invariant
            iter.seq() == all,
            history.wf_but_for_age(),
            history.recent() == recent,
            scorer_laws(*calculator),
            neighborhood@ == scored_all(
                *calculator,
                window(open_moves(all.take(iter.index() as int), recent), window_size),
            ),
    {
        proof {
            let seen = all.take(iter.index() as int);
            assert(all.take(iter.index() + 1) =~= seen.push(candidate));
            seen.lemma_filter_push(candidate, |candidate: S| !on_list(recent, candidate));
        }
        if neighborhood.len() < window_size && !history.is_solution_tabu(&candidate) {
            let scored = calculator.get_scored_solution(candidate);
            neighborhood.push(scored);
        }
    }
    proof {
        assert(all.take(all.len() as int) =~= all);
    }
    neighborhood
}

/// `candidate` is one of `among`, and none of them precedes it.
pub open spec fn is_least<S: Solution, Sc: Score>(
    candidate: ScoredSolution<S, Sc>,
    among: Seq<ScoredSolution<S, Sc>>,
) -> bool {
    &&& among.contains(candidate)
    &&& forall|i: int|
        0 <= i < among.len() ==> candidate == among[i] || candidate.precedes(#[trigger] among[i])
}

/// The best of a neighbourhood: the scored solution that precedes all
/// others; `None` where the neighbourhood is empty.
pub open spec fn least_of<S: Solution, Sc: Score>(among: Seq<ScoredSolution<S, Sc>>) -> Option<
    ScoredSolution<S, Sc>,
> {
    if among.len() == 0 {
        None
    } else {
        Some(choose|candidate: ScoredSolution<S, Sc>| is_least(candidate, among))
    }
}

/// Finds the best of a neighbourhood.
pub fn least<S: Solution, Sc: Score>(neighborhood: Vec<ScoredSolution<S, Sc>>) -> (found: Option<
    ScoredSolution<S, Sc>,
>)
    requires
        solution_laws::<S>(),
        score_laws::<Sc>(),
    ensures
        found == least_of(neighborhood@),
        found matches Some(candidate) ==> is_least(candidate, neighborhood@),
{
    if neighborhood.len() == 0 {
        return None;
    }
    let mut neighborhood = neighborhood;
    let ghost all = neighborhood@;
    let mut place: usize = 0;
    let mut next: usize = 1;
    while next < neighborhood.len()
        invariant
            solution_laws::<S>(),
            score_laws::<Sc>(),
            neighborhood@ == all,
            place < next <= all.len(),
            forall|i: int| 0 <= i < next ==> all[place as int] == all[i] || all[place as int].precedes(#[trigger] all[i]),
        decreases all.len() - next,
    {
        if neighborhood[next].comes_before(&neighborhood[place]) {
            proof {
                let lower = all[next as int];
                let upper = all[place as int];
                assert forall|i: int| 0 <= i < next + 1 implies lower == all[i] || lower.precedes(
                    #[trigger] all[i],
                ) by {
                    if i < next && upper != all[i] {
                        lower.lemma_precedes_transitive(upper, all[i]);
                    }
                }
            }
            place = next;
        } else {
            proof {
                all[place as int].lemma_precedes_total(all[next as int]);
            }
        }
        next += 1;
    }
    proof {
        lemma_least_is_one(all[place as int], all[place as int], all);
    }
    Some(neighborhood.swap_remove(place))
}

/// A neighbourhood has one least member at most.
pub proof fn lemma_least_is_one<S: Solution, Sc: Score>(
    one: ScoredSolution<S, Sc>,
    other: ScoredSolution<S, Sc>,
    among: Seq<ScoredSolution<S, Sc>>,
)
    requires
        solution_laws::<S>(),
        score_laws::<Sc>(),
        is_least(one, among),
        is_least(other, among),
    ensures
        one == other,
        least_of(among) == Some(one),
{
    let chosen = choose|candidate: ScoredSolution<S, Sc>| is_least(candidate, among);
    assert(among.contains(one) && among.contains(other) && among.contains(chosen));
    one.lemma_precedes_total(other);
    one.lemma_precedes_total(chosen);
}

/// Where a descent stands: the solution it is on, the best it has
/// recorded, and for how many steps in a row it has found nothing better
/// than the solution it stood on.
pub struct Descent<_Solution, _Score> where _Solution: Solution, _Score: Score {
    pub current: ScoredSolution<_Solution, _Score>,
    pub best: ScoredSolution<_Solution, _Score>,
    pub no_improvement_for: u64,
}

impl<_Solution, _Score> Descent<_Solution, _Score> where _Solution: Solution, _Score: Score {
    /// The descent after one step, and whether it goes on. `candidate` is the
    /// best of the neighbourhood. Without one the descent ends. A candidate
    /// with a better score than the current solution is recorded as the best
    /// and becomes the current solution. Any other candidate counts as a
    /// step without improvement: with `allow_no_improvement_for` such steps
    /// in a row the descent ends, else it moves on to the candidate all the
    /// same.
    pub open spec fn after(
        self,
        candidate: Option<ScoredSolution<_Solution, _Score>>,
        allow_no_improvement_for: u64,
    ) -> (Self, bool) {
        match candidate {
            None => (self, false),
            Some(neighbor) => if lt(neighbor.score, self.current.score) {
                (Descent { current: neighbor, best: neighbor, no_improvement_for: 0 }, true)
            } else {
                let count: u64 = if self.no_improvement_for < u64::MAX {
                    (self.no_improvement_for + 1) as u64
                } else {
                    self.no_improvement_for
                };
                if count >= allow_no_improvement_for {
                    (
                        Descent { current: self.current, best: self.best, no_improvement_for: count },
                        false,
                    )
                } else {
                    (Descent { current: neighbor, best: self.best, no_improvement_for: count }, true)
                }
            },
        }
    }

    /// A descent that stands on `start` and has not moved yet.
    pub fn start(start: ScoredSolution<_Solution, _Score>) -> (descent: Self)
        requires
            solution_laws::<_Solution>(),
            score_laws::<_Score>(),
        ensures
            descent == (Descent { current: start, best: start, no_improvement_for: 0 }),
    {
        Descent { current: start.clone(), best: start, no_improvement_for: 0 }
    }

    /// Takes one step, and says whether the descent goes on.
    pub fn advance(
        &mut self,
        candidate: Option<ScoredSolution<_Solution, _Score>>,
        allow_no_improvement_for: u64,
    ) -> (goes_on: bool)
        requires
            solution_laws::<_Solution>(),
            score_laws::<_Score>(),
        ensures
            (*final(self), goes_on) == old(self).after(candidate, allow_no_improvement_for),
    {
        match candidate {
            None => false,
            Some(neighbor) => {
                if is_lt(&neighbor.score, &self.current.score) {
                    self.best = neighbor.clone();
                    self.current = neighbor;
                    self.no_improvement_for = 0;
                    true
                } else {
                    if self.no_improvement_for < u64::MAX {
                        self.no_improvement_for += 1;
                    }
                    if self.no_improvement_for >= allow_no_improvement_for {
                        false
                    } else {
                        self.current = neighbor;
                        true
                    }
                }
            },
        }
    }
}

/// How a descent has ended.
pub struct DescentOutcome<_Solution, _Score> where _Solution: Solution, _Score: Score {
    /// The scored solution that the descent hands back.
    pub found: ScoredSolution<_Solution, _Score>,
    /// The recent list that the descent leaves in the history.
    pub recent: Seq<(ScoredSolution<_Solution, _Score>, u64)>,
    /// The count of iterations that the descent leaves in the history.
    pub count: u64,
    /// The solutions whose neighbours the proposer was asked for, step by
    /// step.
    pub asked: Seq<_Solution>,
}

impl<_Solution, _Score> DescentOutcome<_Solution, _Score> where
    _Solution: Solution,
    _Score: Score,
 {
    /// This outcome where the proposer had been asked for the neighbours of
    /// `earlier` before.
    pub open spec fn asked_after(self, earlier: Seq<_Solution>) -> Self {
        DescentOutcome { asked: earlier + self.asked, ..self }
    }
}

/// How a descent of at most `steps` steps ends, where the proposer answers
/// the first step with `proposals[0]`, the next with `proposals[1]` and so on.
///
/// Each step shows the current solution to the history, and ends the descent
/// with the current solution where its score is the best there is. It then
/// asks the proposer for the neighbours of the current solution, scores the
/// first `window_size` of them that are not on the recent list, and takes
/// the step that [`Descent::after`] describes towards the best of them. A
/// descent that ends otherwise hands back the best solution that it has
/// recorded.
pub open spec fn descent_outcome<SSC: SolutionScoreCalculator>(
    calculator: SSC,
    window_size: usize,
    allow_no_improvement_for: u64,
    capacity: usize,
    expiry: u64,
    steps: nat,
    descent: Descent<SSC::_Solution, SSC::_Score>,
    recent: Seq<(ScoredSolution<SSC::_Solution, SSC::_Score>, u64)>,
    count: u64,
    proposals: Seq<Seq<SSC::_Solution>>,
) -> DescentOutcome<SSC::_Solution, SSC::_Score>
    decreases steps,
{
    if steps == 0 {
        DescentOutcome { found: descent.best, recent, count, asked: Seq::empty() }
    } else {
        let now = next_count(count);
        let listed = admitted(live_entries(recent, now, expiry), descent.current, now, capacity);
        if optimal(descent.current.score) {
            DescentOutcome { found: descent.current, recent: listed, count: now, asked: Seq::empty() }
        } else {
            let moves = if proposals.len() > 0 {
                proposals[0]
            } else {
                Seq::empty()
            };
            let neighborhood = scored_all(
                calculator,
                window(open_moves(moves, listed), window_size),
            );
            let (next, goes_on) = descent.after(least_of(neighborhood), allow_no_improvement_for);
            let asked = seq![descent.current.solution];
            if goes_on {
                descent_outcome(
                    calculator,
                    window_size,
                    allow_no_improvement_for,
                    capacity,
                    expiry,
                    (steps - 1) as nat,
                    next,
                    listed,
                    now,
                    proposals.skip(1),
                ).asked_after(asked)
            } else {
                DescentOutcome { found: next.best, recent: listed, count: now, asked }
            }
        }
    }
}

} // verus!
