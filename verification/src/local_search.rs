//! The local search: a descent from a starting solution through
//! neighbourhoods of moves to a local minimum.

pub use crate::descent::least;
pub use crate::descent::score_neighborhood;
pub use crate::descent::Descent;
pub use crate::history::History;
pub use crate::scored::Score;
pub use crate::scored::ScoredSolution;
pub use crate::scored::Solution;
pub use crate::scored::SolutionScoreCalculator;
use crate::descent::descent_outcome;
use crate::descent::DescentOutcome;
use crate::ranking::le;
use crate::ranking::lemma_le_transitive;
use crate::ranking::lt;
use crate::scored::optimal;
use crate::scored::score_laws;
use crate::scored::score_of;
use crate::scored::scored_by;
use crate::scored::scorer_laws;
use crate::scored::solution_laws;
use rand_chacha::ChaCha20Rng;
use vstd::prelude::*;

verus! {

/// Produces the solution that a search starts from.
pub trait InitialSolutionGenerator {
    type Solution: Solution;

    /// A solution to start from, drawn with `rng`. It has to be one that
    /// the calculator can score, and need not be a good one.
    fn generate_initial_solution(&self, rng: &mut ChaCha20Rng) -> Self::Solution;
}

/// Proposes the neighbours of a solution.
pub trait MoveProposer {
    type Solution: Solution;

    /// The neighbours of `start`, drawn with `rng`, in the order in which a
    /// descent is to look at them. A descent looks at the first of them that
    /// are not tabu, as many as its window takes, so that a host with a
    /// large or endless neighbourhood proposes no more than that. The list
    /// may hold `start` and may hold a solution twice.
    fn iter_local_moves(&self, start: &Self::Solution, rng: &mut ChaCha20Rng) -> Vec<
        Self::Solution,
    >;
}

/// Finds a local minimum: walks from a starting solution through
/// neighbourhoods of moves until it is stuck.
#[verifier::reject_recursive_types(_Solution)]
#[verifier::reject_recursive_types(_Score)]
pub struct LocalSearch<_Solution, _Score, SSC, MP> where
    _Solution: Solution,
    _Score: Score,
    SSC: SolutionScoreCalculator<_Solution = _Solution, _Score = _Score>,
    MP: MoveProposer<Solution = _Solution>,
 {
    move_proposer: MP,
    solution_score_calculator: SSC,
    max_iterations: u64,
    window_size: usize,
    history: History<_Solution, _Score>,
    rng: ChaCha20Rng,
}

impl<_Solution, _Score, SSC, MP> LocalSearch<_Solution, _Score, SSC, MP> where
    _Solution: Solution,
    _Score: Score,
    SSC: SolutionScoreCalculator<_Solution = _Solution, _Score = _Score>,
    MP: MoveProposer<Solution = _Solution>,
 {
    /// The proposer of the moves of a descent.
    pub closed spec fn proposer(&self) -> MP {
        self.move_proposer
    }

    /// The calculator that scores every solution of a descent.
    pub closed spec fn calculator(&self) -> SSC {
        self.solution_score_calculator
    }

    /// The most steps that one descent takes.
    pub closed spec fn step_limit(&self) -> u64 {
        self.max_iterations
    }

    /// The most neighbours that one step scores.
    pub closed spec fn window_limit(&self) -> usize {
        self.window_size
    }

    /// The memory of the solutions that the descents have stood on.
    pub closed spec fn tabu_history(&self) -> History<_Solution, _Score> {
        self.history
    }

    /// What holds of a local search whenever a caller sees it.
    pub open spec fn wf(&self) -> bool {
        &&& self.tabu_history().wf()
        &&& scorer_laws(self.calculator())
    }

    /// The settings of `self` are those of `other`.
    pub open spec fn same_settings(&self, other: &Self) -> bool {
        &&& self.proposer() == other.proposer()
        &&& self.calculator() == other.calculator()
        &&& self.step_limit() == other.step_limit()
        &&& self.window_limit() == other.window_limit()
        &&& self.tabu_history().same_limits(&other.tabu_history())
    }

    /// `moves` is an answer of the proposer of this search to the question
    /// for the neighbours of `start`.
    pub open spec fn proposed(&self, start: _Solution, moves: Seq<_Solution>) -> bool {
        exists|rng: &mut ChaCha20Rng, answer: Vec<_Solution>| #[trigger]
            call_ensures(MP::iter_local_moves, (&self.proposer(), &start, rng), answer) && answer@
                == moves
    }

    /// How a descent of this search ends that stands at `descent` and has
    /// `steps` steps left, on the given recent list and count of iterations:
    /// [`descent_outcome`] with the settings of this search.
    pub open spec fn outcome(
        &self,
        allow_no_improvement_for: u64,
        steps: nat,
        descent: Descent<_Solution, _Score>,
        recent: Seq<(ScoredSolution<_Solution, _Score>, u64)>,
        count: u64,
        proposals: Seq<Seq<_Solution>>,
    ) -> DescentOutcome<_Solution, _Score> {
        descent_outcome(
            self.calculator(),
            self.window_limit(),
            allow_no_improvement_for,
            self.tabu_history().recent_capacity(),
            self.tabu_history().expiry(),
            steps,
            descent,
            recent,
            count,
            proposals,
        )
    }

    /// `self` is `before` after a descent from `start` that handed back
    /// `found`, where `proposals` are the answers of the proposer step by
    /// step. The descent ran as [`descent_outcome`] says, on the recent list
    /// of its history, and each of the `proposals` is an answer of the
    /// proposer to the question for the neighbours of the solution on which
    /// the descent then stood. The best set of that history and the settings
    /// are as they were.
    pub open spec fn descended(
        &self,
        before: &Self,
        start: _Solution,
        allow_no_improvement_for: u64,
        proposals: Seq<Seq<_Solution>>,
        found: ScoredSolution<_Solution, _Score>,
    ) -> bool {
        let outcome = before.outcome(
            allow_no_improvement_for,
            before.step_limit() as nat,
            Descent {
                current: scored_by(before.calculator(), start),
                best: scored_by(before.calculator(), start),
                no_improvement_for: 0,
            },
            before.tabu_history().recent(),
            before.tabu_history().iterations(),
            proposals,
        );
        &&& self.same_settings(before)
        &&& self.tabu_history().best() == before.tabu_history().best()
        &&& self.tabu_history().recent() == outcome.recent
        &&& self.tabu_history().iterations() == outcome.count
        &&& found == outcome.found
        &&& proposals.len() == outcome.asked.len()
        &&& proposals.len() <= before.step_limit()
        &&& forall|i: int|
            0 <= i < proposals.len() ==> before.proposed(outcome.asked[i], #[trigger] proposals[i])
    }

    /// A local search that has its own history, with the given limits, and
    /// draws from `rng`.
    pub fn new(
        move_proposer: MP,
        solution_score_calculator: SSC,
        max_iterations: u64,
        window_size: usize,
        best_solutions_capacity: usize,
        all_solutions_capacity: usize,
        all_solution_iteration_expiry: u64,
        rng: ChaCha20Rng,
    ) -> (search: Self)
        ensures
            solution_laws::<_Solution>() && score_laws::<_Score>() && scorer_laws(
                solution_score_calculator,
            ) ==> search.wf(),
            search.proposer() == move_proposer,
            search.calculator() == solution_score_calculator,
            search.step_limit() == max_iterations,
            search.window_limit() == window_size,
            search.tabu_history().best().len() == 0,
            search.tabu_history().recent().len() == 0,
            search.tabu_history().iterations() == 0,
            search.tabu_history().best_capacity() == best_solutions_capacity,
            search.tabu_history().recent_capacity() == all_solutions_capacity,
            search.tabu_history().expiry() == all_solution_iteration_expiry,
    {
        LocalSearch {
            move_proposer,
            solution_score_calculator,
            max_iterations,
            window_size,
            history: History::new(
                best_solutions_capacity,
                all_solutions_capacity,
                all_solution_iteration_expiry,
            ),
            rng,
        }
    }

    /// Descends from `start` and hands back the best solution that the
    /// descent recorded, with its score.
    ///
    /// Each step shows the current solution to the history, which makes it
    /// tabu, and ends the descent at once if its score is the best there is.
    /// It then scores the neighbourhood, that is the first `window_size`
    /// proposed moves that are not tabu, and takes a step towards the best
    /// of them as [`Descent::after`] says. The descent ends after
    /// `max_iterations` steps at the latest.
    ///
    /// Where `allow_no_improvement_for` is at most one, every step taken is
    /// an improvement, and the result is no worse than `start`. With a
    /// larger allowance the descent may climb, and records as best any
    /// solution that is better than the one it has just climbed to.
    pub fn execute(&mut self, start: _Solution, allow_no_improvement_for: u64) -> (found:
        ScoredSolution<_Solution, _Score>)
        requires
            old(self).wf(),
        ensures
            final(self).wf(),
            exists|proposals: Seq<Seq<_Solution>>| #[trigger]
                final(self).descended(
                    old(self),
                    start,
                    allow_no_improvement_for,
                    proposals,
                    found,
                ),
            old(self).tabu_history().iterations() <= final(self).tabu_history().iterations()
                <= old(self).tabu_history().iterations() + old(self).step_limit(),
            found == scored_by(old(self).calculator(), found.solution),
            old(self).step_limit() == 0 || optimal(score_of(old(self).calculator(), start))
                ==> found == scored_by(old(self).calculator(), start),
            allow_no_improvement_for <= 1 ==> le(
                found.score,
                score_of(old(self).calculator(), start),
            ),
    {
        let ghost origin = scored_by(self.calculator(), start);
        let ghost first = Descent { current: origin, best: origin, no_improvement_for: 0 };
        let ghost none = Seq::<Seq<_Solution>>::empty();
        let ghost mut trace = none;
        let ghost mut asked = Seq::<_Solution>::empty();
        let scored = self.solution_score_calculator.get_scored_solution(start);
        let mut descent = Descent::start(scored);
        let mut iteration: u64 = 0;
        while iteration < self.max_iterations
            invariant
                self.wf(),
                self.same_settings(old(self)),
                self.tabu_history().best() == old(self).tabu_history().best(),
                old(self).tabu_history().iterations() <= self.tabu_history().iterations()
                    <= old(self).tabu_history().iterations() + iteration,
                iteration <= self.step_limit(),
                origin == scored_by(old(self).calculator(), start),
                first == (Descent { current: origin, best: origin, no_improvement_for: 0 }),
                none == Seq::<Seq<_Solution>>::empty(),
                trace.len() == iteration,
                asked.len() == iteration,
                forall|i: int| 0 <= i < trace.len() ==> old(self).proposed(asked[i], #[trigger] trace[i]),
                // Whatever the proposer answers from here on, the descent from
                // the start ends as the descent from here does.
                forall|rest: Seq<Seq<_Solution>>| #[trigger]
                    old(self).outcome(
                        allow_no_improvement_for,
                        self.step_limit() as nat,
                        first,
                        old(self).tabu_history().recent(),
                        old(self).tabu_history().iterations(),
                        trace + rest,
                    ) == old(self).outcome(
                        allow_no_improvement_for,
                        (self.step_limit() - iteration) as nat,
                        descent,
                        self.tabu_history().recent(),
                        self.tabu_history().iterations(),
                        rest,
                    ).asked_after(asked),
                descent.current == scored_by(self.calculator(), descent.current.solution),
                descent.best == scored_by(self.calculator(), descent.best.solution),
                (descent.current == origin && descent.best == origin) || (self.step_limit() > 0
                    && !optimal(origin.score)),
                allow_no_improvement_for <= 1 ==> descent.best == descent.current && le(
                    descent.best.score,
                    origin.score,
                ),
            decreases self.max_iterations - iteration,
        {
            let ghost before = descent;
            let ghost recent = self.tabu_history().recent();
            let ghost count = self.tabu_history().iterations();
            let ghost left = (self.step_limit() - iteration) as nat;
            iteration += 1;
            self.history.seen_solution(descent.current.clone());
            if descent.current.score.is_best() {
                proof {
                    assert(trace + none =~= trace);
                    assert(self.descended(
                        old(self),
                        start,
                        allow_no_improvement_for,
                        trace,
                        descent.current,
                    ));
                }
                return descent.current;
            }
            let moves = self.move_proposer.iter_local_moves(
                &descent.current.solution,
                &mut self.rng,
            );
            let ghost proposal = moves@;
            let neighborhood = score_neighborhood(
                moves,
                &self.history,
                &self.solution_score_calculator,
                self.window_size,
            );
            let candidate = least(neighborhood);
            proof {
                if candidate is Some {
                    let neighbor = candidate->0;
                    if allow_no_improvement_for <= 1 && lt(neighbor.score, descent.current.score) {
                        lemma_le_transitive(neighbor.score, descent.current.score, origin.score);
                    }
                }
            }
            let goes_on = descent.advance(candidate, allow_no_improvement_for);
            let ghost earlier = asked;
            proof {
                let longer = trace.push(proposal);
                let further = asked.push(before.current.solution);
                assert forall|rest: Seq<Seq<_Solution>>| #[trigger]
                    old(self).outcome(
                        allow_no_improvement_for,
                        self.step_limit() as nat,
                        first,
                        old(self).tabu_history().recent(),
                        old(self).tabu_history().iterations(),
                        longer + rest,
                    ) == old(self).outcome(
                        allow_no_improvement_for,
                        left,
                        before,
                        recent,
                        count,
                        seq![proposal] + rest,
                    ).asked_after(asked) by {
                    assert(longer + rest =~= trace + (seq![proposal] + rest));
                }
                assert forall|rest: Seq<Seq<_Solution>>|
                    (#[trigger] (seq![proposal] + rest))[0] == proposal && (seq![proposal]
                        + rest).skip(1) == rest by {}
                assert forall|later: Seq<_Solution>| #[trigger]
                    (asked + (seq![before.current.solution] + later)) == further + later by {}
                trace = longer;
                asked = further;
            }
            if !goes_on {
                proof {
                    let last = old(self).outcome(
                        allow_no_improvement_for,
                        left,
                        before,
                        recent,
                        count,
                        seq![proposal] + none,
                    );
                    assert(old(self).outcome(
                        allow_no_improvement_for,
                        self.step_limit() as nat,
                        first,
                        old(self).tabu_history().recent(),
                        old(self).tabu_history().iterations(),
                        trace + none,
                    ) == last.asked_after(earlier));
                    assert(self.descended(
                        old(self),
                        start,
                        allow_no_improvement_for,
                        trace,
                        descent.best,
                    ));
                }
                return descent.best;
            }
        }
        proof {
            assert(trace + none =~= trace);
            assert(self.descended(old(self), start, allow_no_improvement_for, trace, descent.best));
        }
        descent.best
    }
}

} // verus!
