//! The outer loop of the search: perturb the current solution, descend
//! from there, record the local minimum and decide where to go on.

use crate::history::lemma_member_is_kept;
use crate::history::members_after;
use crate::history::next_count;
use crate::history::History;
use crate::local_search::InitialSolutionGenerator;
use crate::local_search::LocalSearch;
use crate::local_search::MoveProposer;
use crate::random::draw_weighted;
use crate::random::total_weight;
use crate::ranking::le;
use crate::ranking::lemma_le_transitive;
use crate::scored::optimal;
use crate::scored::scored_by;
use crate::scored::scorer_laws;
use crate::scored::Score;
use crate::scored::ScoredSolution;
use crate::scored::Solution;
use crate::scored::SolutionScoreCalculator;
use rand_chacha::ChaCha20Rng;
use vstd::prelude::*;

verus! {

/// The weight with which a round stays on the solution it started from.
pub const EXISTING_WEIGHT: u64 = 1;

/// The weight with which a round moves on to the local minimum it found.
pub const NEW_WEIGHT: u64 = 5;

/// The weight with which a round goes back to one of the best solutions.
pub const BEST_WEIGHT: u64 = 1;

/// After this many rounds the search starts again from a fresh solution.
pub const RESTART_INTERVAL: u64 = 100;

/// The solutions that a round may go on from, each with its weight: the
/// one it started from, the local minimum it found and, where there is one,
/// a solution drawn from the best set.
pub open spec fn weighted_candidates<S: Solution, Sc: Score>(
    existing: ScoredSolution<S, Sc>,
    new: ScoredSolution<S, Sc>,
    random_best: Option<ScoredSolution<S, Sc>>,
) -> Seq<(ScoredSolution<S, Sc>, u64)> {
    match random_best {
        Some(best) => seq![(existing, EXISTING_WEIGHT), (new, NEW_WEIGHT), (best, BEST_WEIGHT)],
        None => seq![(existing, EXISTING_WEIGHT), (new, NEW_WEIGHT)],
    }
}

/// Decides from which solution the next round goes on.
pub struct AcceptanceCriterion {}

impl AcceptanceCriterion {
    /// The criterion with the weights [`EXISTING_WEIGHT`], [`NEW_WEIGHT`] and
    /// [`BEST_WEIGHT`].
    pub fn new() -> Self {
        AcceptanceCriterion {  }
    }

    /// Lists the solutions that a round may go on from, each with its
    /// weight.
    pub fn candidates<S: Solution, Sc: Score>(
        existing: ScoredSolution<S, Sc>,
        new: ScoredSolution<S, Sc>,
        random_best: Option<ScoredSolution<S, Sc>>,
    ) -> (choices: Vec<(ScoredSolution<S, Sc>, u64)>)
        ensures
            choices@ == weighted_candidates(existing, new, random_best),
    {
        let mut choices: Vec<(ScoredSolution<S, Sc>, u64)> = Vec::new();
        choices.push((existing, EXISTING_WEIGHT));
        choices.push((new, NEW_WEIGHT));
        if let Some(best) = random_best {
            choices.push((best, BEST_WEIGHT));
        }
        choices
    }

    /// Draws the solution from which the next round goes on: one of the
    /// [`weighted_candidates`], each with a chance in proportion to its
    /// weight. The solution of the best set among them is itself drawn, each
    /// member with the same chance.
    pub fn accept<S: Solution, Sc: Score>(
        &mut self,
        existing_local_minima: ScoredSolution<S, Sc>,
        new_local_minima: ScoredSolution<S, Sc>,
        history: &History<S, Sc>,
        rng: &mut ChaCha20Rng,
    ) -> (chosen: ScoredSolution<S, Sc>)
        requires
            history.wf(),
        ensures
            chosen == existing_local_minima || chosen == new_local_minima
                || history.best().contains(chosen),
    {
        let random_best = history.get_random_best_solution(rng);
        let choices = Self::candidates(existing_local_minima, new_local_minima, random_best);
        proof {
            reveal_with_fuel(total_weight, 4);
        }
        match draw_weighted(&choices, rng) {
            Some(choice) => choice.0.clone(),
            None => unreached(),
        }
    }
}

impl Default for AcceptanceCriterion {
    /// The criterion that [`AcceptanceCriterion::new`] makes.
    fn default() -> Self {
        AcceptanceCriterion::new()
    }
}


/// Proposes the solution from which the next descent starts: a step away
/// from the current local minimum that is larger than a single move. The
/// proposal need not be better than `current`. A perturbation may look into
/// the history of the search, and kick a solution of the best set less far
/// than another.
pub trait Perturbation {
    type _Solution: Solution;

    type _Score: Score;

    type _SSC: SolutionScoreCalculator<_Solution = Self::_Solution, _Score = Self::_Score>;

    fn propose_new_starting_solution(
        &mut self,
        current: &ScoredSolution<Self::_Solution, Self::_Score>,
        history: &History<Self::_Solution, Self::_Score>,
        rng: &mut ChaCha20Rng,
    ) -> Self::_Solution
        requires
            history.wf(),
    ;
}

/// The allowance of steps without improvement for the next descent. A
/// round that starts ahead of the best solution settled on, that is from a
/// scored solution that precedes it, makes the allowance smaller by one, any
/// other round larger by one, within `0..=limit`.
pub open spec fn adapted_allowance(allowance: u64, ahead: bool, limit: u64) -> u64 {
    let moved = if ahead {
        if allowance > 0 {
            allowance - 1
        } else {
            0
        }
    } else {
        allowance + 1
    };
    if moved > limit {
        limit
    } else {
        moved as u64
    }
}

/// Computes [`adapted_allowance`].
pub fn adapt_allowance(allowance: u64, ahead: bool, limit: u64) -> (adapted: u64)
    ensures
        adapted == adapted_allowance(allowance, ahead, limit),
{
    let moved = if ahead {
        if allowance > 0 {
            allowance - 1
        } else {
            0
        }
    } else if allowance < limit {
        allowance + 1
    } else {
        limit
    };
    if moved > limit {
        limit
    } else {
        moved
    }
}

/// How far a search has come.
#[derive(Clone, Copy, Debug, PartialEq, Eq, Structural)]
pub struct IterationInfo {
    /// The rounds executed so far.
    pub current: u64,
    /// The rounds after which the search is finished in any case.
    pub total: u64,
}

/// An iterated local search: it holds a current solution and, round by
/// round, perturbs it, descends to a local minimum, offers that to the best
/// set and draws the solution to go on from.
#[verifier::reject_recursive_types(_Solution)]
#[verifier::reject_recursive_types(_Score)]
#[verifier::reject_recursive_types(_SSC)]
pub struct IteratedLocalSearch<_Solution, _Score, _SSC, _MP, _ISG, _P> where
    _Solution: Solution,
    _Score: Score,
    _SSC: SolutionScoreCalculator<_Solution = _Solution, _Score = _Score>,
    _MP: MoveProposer<Solution = _Solution>,
    _ISG: InitialSolutionGenerator<Solution = _Solution>,
    _P: Perturbation<_Solution = _Solution, _Score = _Score, _SSC = _SSC>,
 {
    initial_solution_generator: _ISG,
    solution_score_calculator: _SSC,
    local_search: LocalSearch<_Solution, _Score, _SSC, _MP>,
    perturbation: _P,
    history: History<_Solution, _Score>,
    acceptance_criterion: AcceptanceCriterion,
    max_iterations: u64,
    max_allow_no_improvement_for: u64,
    rng: ChaCha20Rng,
    current: ScoredSolution<_Solution, _Score>,
    iteration: u64,
    allow_no_improvement_for: u64,
}

impl<_Solution, _Score, _SSC, _MP, _ISG, _P> IteratedLocalSearch<
    _Solution,
    _Score,
    _SSC,
    _MP,
    _ISG,
    _P,
> where
    _Solution: Solution,
    _Score: Score,
    _SSC: SolutionScoreCalculator<_Solution = _Solution, _Score = _Score>,
    _MP: MoveProposer<Solution = _Solution>,
    _ISG: InitialSolutionGenerator<Solution = _Solution>,
    _P: Perturbation<_Solution = _Solution, _Score = _Score, _SSC = _SSC>,
 {
    /// The history that holds the best set of this search.
    pub closed spec fn best_history(&self) -> History<_Solution, _Score> {
        self.history
    }

    /// The local search that makes the descents.
    pub closed spec fn descents(&self) -> LocalSearch<_Solution, _Score, _SSC, _MP> {
        self.local_search
    }

    /// The generator of the solutions that the search starts from.
    pub closed spec fn generator(&self) -> _ISG {
        self.initial_solution_generator
    }

    /// The perturbation, in the state in which the next round finds it.
    pub closed spec fn perturbation_state(&self) -> _P {
        self.perturbation
    }

    /// The calculator that scores the starting solutions.
    pub closed spec fn calculator(&self) -> _SSC {
        self.solution_score_calculator
    }

    /// The solution that the next round goes on from.
    pub closed spec fn current(&self) -> ScoredSolution<_Solution, _Score> {
        self.current
    }

    /// The rounds executed so far.
    pub closed spec fn iteration(&self) -> u64 {
        self.iteration
    }

    /// The rounds after which the search is finished in any case.
    pub closed spec fn iteration_limit(&self) -> u64 {
        self.max_iterations
    }

    /// The steps without improvement that the next descent is allowed.
    pub closed spec fn allowance(&self) -> u64 {
        self.allow_no_improvement_for
    }

    /// The most steps without improvement that a descent is ever allowed.
    pub closed spec fn allowance_limit(&self) -> u64 {
        self.max_allow_no_improvement_for
    }

    /// What holds of a search whenever a caller sees it.
    pub open spec fn wf(&self) -> bool {
        &&& self.best_history().wf()
        &&& self.descents().wf()
        &&& scorer_laws(self.calculator())
    }

    /// The settings of `self` are those of `other`.
    pub open spec fn same_settings(&self, other: &Self) -> bool {
        &&& self.generator() == other.generator()
        &&& self.calculator() == other.calculator()
        &&& self.iteration_limit() == other.iteration_limit()
        &&& self.allowance_limit() == other.allowance_limit()
        &&& self.best_history().same_limits(&other.best_history())
        &&& self.descents().same_settings(&other.descents())
    }

    /// `self` is `before` one round later, as far as the count of rounds
    /// goes.
    pub open spec fn one_round_after(&self, before: &Self) -> bool {
        &&& self.iteration_limit() == before.iteration_limit()
        &&& self.iteration() == next_count(before.iteration())
    }

    /// Whether the best solution settled on has the best score there is.
    pub open spec fn at_optimum(&self) -> bool {
        self.best_history().best().len() > 0 && optimal(self.best_history().best()[0].score)
    }

    /// Whether the search is over: the rounds are used up, or the best
    /// solution settled on cannot be improved.
    pub open spec fn finished(&self) -> bool {
        self.iteration() >= self.iteration_limit() || self.at_optimum()
    }

    /// The best solution settled on, or the current solution where the best
    /// set holds none.
    pub open spec fn best_solution(&self) -> ScoredSolution<_Solution, _Score> {
        if self.best_history().best().len() > 0 {
            self.best_history().best()[0]
        } else {
            self.current()
        }
    }

    /// `solution` is an answer of the generator of this search.
    pub open spec fn generated(&self, solution: _Solution) -> bool {
        exists|rng: &mut ChaCha20Rng| #[trigger]
            call_ensures(_ISG::generate_initial_solution, (&self.generator(), rng), solution)
    }

    /// `perturbed` is a proposal that a perturbation in the state `state`
    /// makes for a search that stands on `current` and has the memory
    /// `history`.
    pub open spec fn kicked(
        state: _P,
        current: ScoredSolution<_Solution, _Score>,
        history: History<_Solution, _Score>,
        perturbed: _Solution,
    ) -> bool {
        exists|perturbation: &mut _P, rng: &mut ChaCha20Rng|
            *perturbation == state && #[trigger] call_ensures(
                _P::propose_new_starting_solution,
                (perturbation, &current, &history, rng),
                perturbed,
            )
    }

    /// `self` is `before` after a round that set out from `start`, was
    /// kicked to `perturbed` and descended from there to `found`, the
    /// proposer answering with `proposals`. The round set out from the
    /// current solution, or from an answer of the generator with its score
    /// where the count of rounds had come to a multiple of
    /// [`RESTART_INTERVAL`]. It adapted the allowance where the best set held
    /// a solution, asked the perturbation for `perturbed`, descended as
    /// [`LocalSearch::descended`] says, offered `found` to the best set, and
    /// went on from `start`, from `found` or from a member of the best set.
    pub open spec fn after_round(
        &self,
        before: &Self,
        start: ScoredSolution<_Solution, _Score>,
        perturbed: _Solution,
        proposals: Seq<Seq<_Solution>>,
        found: ScoredSolution<_Solution, _Score>,
    ) -> bool {
        &&& if self.iteration() % RESTART_INTERVAL == 0 {
            before.generated(start.solution) && start == scored_by(
                before.calculator(),
                start.solution,
            )
        } else {
            start == before.current()
        }
        &&& Self::kicked(before.perturbation_state(), start, before.best_history(), perturbed)
        &&& self.allowance() == if before.best_history().best().len() > 0 {
            adapted_allowance(
                before.allowance(),
                start.precedes(before.best_history().best()[0]),
                before.allowance_limit(),
            )
        } else {
            before.allowance()
        }
        &&& self.descents().descended(
            &before.descents(),
            perturbed,
            self.allowance(),
            proposals,
            found,
        )
        &&& self.best_history().best().to_set() == members_after(
            before.best_history().best(),
            found,
            before.best_history().best_capacity(),
        )
        &&& self.current() == start || self.current() == found
            || self.best_history().best().contains(self.current())
    }

    /// `self` is `before` one round later. The count of rounds has gone up
    /// by one. Where the best solution of `before` had the best score there
    /// is, nothing else has changed; otherwise the round ran as
    /// [`Self::after_round`] says. The recent list of the history is as it
    /// was, and the best score of the best set is no worse than it was. A
    /// proof that looks into a round reveals this definition.
    #[verifier::opaque]
    pub open spec fn round_from(&self, before: &Self) -> bool {
        &&& self.wf()
        &&& self.same_settings(before)
        &&& self.one_round_after(before)
        &&& before.at_optimum() ==> {
            &&& self.finished()
            &&& self.best_history() == before.best_history()
            &&& self.current() == before.current()
            &&& self.allowance() == before.allowance()
            &&& self.descents() == before.descents()
            &&& self.perturbation_state() == before.perturbation_state()
        }
        &&& !before.at_optimum() ==> exists|
            start: ScoredSolution<_Solution, _Score>,
            perturbed: _Solution,
            proposals: Seq<Seq<_Solution>>,
            found: ScoredSolution<_Solution, _Score>,
        | #[trigger] self.after_round(before, start, perturbed, proposals, found)
        &&& self.best_history().recent() == before.best_history().recent()
        &&& self.best_history().iterations() == before.best_history().iterations()
        &&& before.best_history().best().len() > 0 ==> self.best_history().best().len() > 0
            && le(self.best_history().best()[0].score, before.best_history().best()[0].score)
    }

    /// `rounds` holds a search and then the same search after each round of
    /// a run: each round set out from a search that was not finished.
    pub open spec fn ran(rounds: Seq<Self>) -> bool {
        forall|i: int|
            0 <= i < rounds.len() - 1 ==> !(#[trigger] rounds[i]).finished() && rounds[i
                + 1].round_from(&rounds[i])
    }

    /// A search that has not run yet. Its current solution is a freshly
    /// generated one with its score, which is offered to the best set of
    /// `history` at once, so that the search has a best solution from the
    /// start wherever that set may hold one.
    pub fn new(
        initial_solution_generator: _ISG,
        solution_score_calculator: _SSC,
        local_search: LocalSearch<_Solution, _Score, _SSC, _MP>,
        perturbation: _P,
        history: History<_Solution, _Score>,
        acceptance_criterion: AcceptanceCriterion,
        max_iterations: u64,
        max_allow_no_improvement_for: u64,
        rng: ChaCha20Rng,
    ) -> (search: Self)
        requires
            history.wf(),
            local_search.wf(),
            scorer_laws(solution_score_calculator),
        ensures
            search.wf(),
            search.iteration() == 0,
            search.allowance() == 0,
            search.iteration_limit() == max_iterations,
            search.allowance_limit() == max_allow_no_improvement_for,
            search.calculator() == solution_score_calculator,
            search.descents() == local_search,
            search.generator() == initial_solution_generator,
            search.perturbation_state() == perturbation,
            search.generated(search.current().solution),
            search.current() == scored_by(solution_score_calculator, search.current().solution),
            search.best_history().same_limits(&history),
            search.best_history().recent() == history.recent(),
            search.best_history().iterations() == history.iterations(),
            search.best_history().best().to_set() == members_after(
                history.best(),
                search.current(),
                history.best_capacity(),
            ),
    {
        let mut rng = rng;
        let mut history = history;
        let initial = initial_solution_generator.generate_initial_solution(&mut rng);
        let current = solution_score_calculator.get_scored_solution(initial);
        history.local_search_chose_solution(current.clone());
        IteratedLocalSearch {
            initial_solution_generator,
            solution_score_calculator,
            local_search,
            perturbation,
            history,
            acceptance_criterion,
            max_iterations,
            max_allow_no_improvement_for,
            rng,
            current,
            iteration: 0,
            allow_no_improvement_for: 0,
        }
    }

    /// Whether the search is over.
    pub fn is_finished(&self) -> (finished: bool)
        requires
            self.wf(),
        ensures
            finished == self.finished(),
    {
        if self.iteration >= self.max_iterations {
            return true;
        }
        match self.history.get_best() {
            Some(best) => best.score.is_best(),
            None => false,
        }
    }

    /// The best solution settled on so far, or the current solution where
    /// the best set holds none, as it does where it may hold nothing.
    pub fn get_best_solution(&self) -> (best: ScoredSolution<_Solution, _Score>)
        requires
            self.wf(),
        ensures
            best == self.best_solution(),
    {
        match self.history.get_best() {
            Some(best) => best,
            None => self.current.clone(),
        }
    }

    /// The rounds executed so far, and the rounds after which the search
    /// is finished in any case.
    pub fn get_iteration_info(&self) -> (info: IterationInfo)
        ensures
            info.current == self.iteration(),
            info.total == self.iteration_limit(),
    {
        IterationInfo { current: self.iteration, total: self.max_iterations }
    }

    /// Executes one round.
    ///
    /// The count of rounds goes up by one. Where the best solution settled
    /// on has the best score there is, nothing else happens. Otherwise the
    /// round, every [`RESTART_INTERVAL`] rounds, replaces the current
    /// solution by a freshly generated one with its score; adapts the
    /// allowance of steps without improvement as [`adapted_allowance`] says,
    /// where the best set holds a solution; lets the perturbation propose a
    /// starting solution; descends from it; offers the local minimum found
    /// to the best set; and draws, as [`AcceptanceCriterion::accept`] says,
    /// the solution to go on from.
    ///
    /// The best score of the best set never gets worse.
    pub fn execute_round(&mut self)
        requires
            old(self).wf(),
        ensures
            final(self).wf(),
            final(self).round_from(old(self)),
    {
        reveal(IteratedLocalSearch::round_from);
        if self.iteration < u64::MAX {
            self.iteration += 1;
        }
        let best = self.history.get_best();
        if let Some(best) = &best {
            if best.score.is_best() {
                return ;
            }
        }
        if self.iteration % RESTART_INTERVAL == 0 {
            let fresh = self.initial_solution_generator.generate_initial_solution(&mut self.rng);
            assert(self.generator() == old(self).generator());
            self.current = self.solution_score_calculator.get_scored_solution(fresh);
        }
        if let Some(best) = &best {
            self.allow_no_improvement_for = adapt_allowance(
                self.allow_no_improvement_for,
                self.current.comes_before(best),
                self.max_allow_no_improvement_for,
            );
        }
        let ghost start = self.current;
        let perturbed = self.perturbation.propose_new_starting_solution(
            &self.current,
            &self.history,
            &mut self.rng,
        );
        let ghost kicked = perturbed;
        let ghost descents = self.local_search;
        let new = self.local_search.execute(perturbed, self.allow_no_improvement_for);
        let ghost proposals = choose|proposals: Seq<Seq<_Solution>>|
            self.local_search.descended(
                &descents,
                kicked,
                self.allow_no_improvement_for,
                proposals,
                new,
            );
        self.history.local_search_chose_solution(new.clone());
        let ghost found = new;
        self.current = self.acceptance_criterion.accept(
            self.current.clone(),
            new,
            &self.history,
            &mut self.rng,
        );
        assert(self.after_round(old(self), start, kicked, proposals, found));
    }

    /// Executes rounds until the search is finished, and hands back the
    /// best solution. A search that is finished already stays as it is.
    pub fn execute(&mut self) -> (best: ScoredSolution<_Solution, _Score>)
        requires
            old(self).wf(),
        ensures
            final(self).wf(),
            exists|rounds: Seq<Self>|
                rounds.len() > 0 && rounds[0] == *old(self) && rounds.last() == *final(self)
                    && #[trigger] Self::ran(rounds),
            old(self).finished() ==> *final(self) == *old(self),
            final(self).same_settings(old(self)),
            final(self).finished(),
            old(self).iteration() <= final(self).iteration(),
            final(self).iteration() <= old(self).iteration() || final(self).iteration()
                <= old(self).iteration_limit(),
            best == final(self).best_solution(),
            old(self).best_history().best().len() > 0 ==> final(self).best_history().best().len()
                > 0 && le(
                final(self).best_history().best()[0].score,
                old(self).best_history().best()[0].score,
            ),
    {
        let ghost mut rounds = seq![*self];
        while !self.is_finished()
            invariant
                self.wf(),
                rounds.len() > 0,
                rounds[0] == *old(self),
                rounds.last() == *self,
                Self::ran(rounds),
                old(self).finished() ==> rounds.len() == 1,
                self.same_settings(old(self)),
                old(self).iteration() <= self.iteration(),
                self.iteration() <= old(self).iteration() || self.iteration()
                    <= old(self).iteration_limit(),
                old(self).best_history().best().len() > 0 ==> self.best_history().best().len() > 0
                    && le(
                    self.best_history().best()[0].score,
                    old(self).best_history().best()[0].score,
                ),
            decreases self.iteration_limit() - self.iteration(),
        {
            let ghost before = self.best_history().best();
            let ghost last = *self;
            self.execute_round();
            proof {
                assert(self.same_settings(&last) && self.one_round_after(&last) && (before.len()
                    > 0 ==> self.best_history().best().len() > 0 && le(
                    self.best_history().best()[0].score,
                    before[0].score,
                ))) by {
                    reveal(IteratedLocalSearch::round_from);
                }
                rounds = rounds.push(*self);
                if old(self).best_history().best().len() > 0 {
                    lemma_le_transitive(
                        self.best_history().best()[0].score,
                        before[0].score,
                        old(self).best_history().best()[0].score,
                    );
                }
            }
        }
        self.get_best_solution()
    }
}

impl<_Solution, _Score, _SSC, _MP, _ISG, _P> IteratedLocalSearch<
    _Solution,
    _Score,
    _SSC,
    _MP,
    _ISG,
    _P,
> where
    _Solution: Solution,
    _Score: Score,
    _SSC: SolutionScoreCalculator<_Solution = _Solution, _Score = _Score>,
    _MP: MoveProposer<Solution = _Solution>,
    _ISG: InitialSolutionGenerator<Solution = _Solution>,
    _P: Perturbation<_Solution = _Solution, _Score = _Score, _SSC = _SSC>,
 {
    /// The best solution at the end of a run is no worse than any local
    /// minimum that a round of the run has found, where the best set may
    /// hold a solution at all.
    pub proof fn lemma_run_keeps_the_best(
        rounds: Seq<Self>,
        i: int,
        start: ScoredSolution<_Solution, _Score>,
        perturbed: _Solution,
        proposals: Seq<Seq<_Solution>>,
        found: ScoredSolution<_Solution, _Score>,
    )
        requires
            Self::ran(rounds),
            rounds.len() > 0,
            rounds[0].wf(),
            rounds[0].best_history().best_capacity() > 0,
            0 <= i < rounds.len() - 1,
            rounds[i + 1].after_round(&rounds[i], start, perturbed, proposals, found),
        ensures
            le(rounds.last().best_solution().score, found.score),
    {
        Self::lemma_run_is_well_formed(rounds, i);
        Self::lemma_run_is_well_formed(rounds, i + 1);
        let before = rounds[i].best_history().best();
        let after = rounds[i + 1].best_history().best();
        lemma_member_is_kept(before, after, found, rounds[i].best_history().best_capacity());
        Self::lemma_run_gets_no_worse(rounds, i + 1, rounds.len() - 1);
        lemma_le_transitive(
            rounds.last().best_history().best()[0].score,
            after[0].score,
            found.score,
        );
    }

    /// Every search of a run is well formed, with the limits of the first.
    proof fn lemma_run_is_well_formed(rounds: Seq<Self>, i: int)
        requires
            Self::ran(rounds),
            rounds[0].wf(),
            0 <= i < rounds.len(),
        ensures
            rounds[i].wf(),
            rounds[i].best_history().best_capacity() == rounds[0].best_history().best_capacity(),
        decreases i,
    {
        if i > 0 {
            Self::lemma_run_is_well_formed(rounds, i - 1);
            assert(rounds[i - 1 + 1].round_from(&rounds[i - 1]));
            reveal(IteratedLocalSearch::round_from);
        }
    }

    /// From a round that leaves a solution in the best set on, the best
    /// score of a run gets no worse.
    proof fn lemma_run_gets_no_worse(rounds: Seq<Self>, i: int, j: int)
        requires
            Self::ran(rounds),
            rounds[0].wf(),
            0 <= i <= j < rounds.len(),
            rounds[i].best_history().best().len() > 0,
        ensures
            rounds[j].best_history().best().len() > 0,
            le(
                rounds[j].best_history().best()[0].score,
                rounds[i].best_history().best()[0].score,
            ),
        decreases j - i,
    {
        if i < j {
            Self::lemma_run_gets_no_worse(rounds, i, j - 1);
            Self::lemma_run_is_well_formed(rounds, j);
            assert(rounds[j - 1 + 1].round_from(&rounds[j - 1]));
            reveal(IteratedLocalSearch::round_from);
            lemma_le_transitive(
                rounds[j].best_history().best()[0].score,
                rounds[j - 1].best_history().best()[0].score,
                rounds[i].best_history().best()[0].score,
            );
        }
    }

    /// A search is finished after as many rounds as its limit allows:
    /// where `rounds` holds a search that has not run yet and then the same
    /// search after each of its rounds, more rounds than the limit leave it
    /// finished.
    pub proof fn lemma_rounds_run_out(rounds: Seq<Self>)
        requires
            rounds.len() > 0,
            rounds[0].iteration() == 0,
            forall|i: int|
                0 <= i < rounds.len() - 1 ==> (#[trigger] rounds[i + 1]).one_round_after(
                    &rounds[i],
                ),
            rounds.len() > rounds[0].iteration_limit(),
        ensures
            rounds.last().finished(),
    {
        Self::lemma_rounds_are_counted(rounds, rounds.len() - 1);
    }

    /// After `i` rounds the count of rounds is `i`, unless `u64` does not
    /// hold that number.
    proof fn lemma_rounds_are_counted(rounds: Seq<Self>, i: int)
        requires
            0 <= i < rounds.len(),
            rounds[0].iteration() == 0,
            forall|i: int|
                0 <= i < rounds.len() - 1 ==> (#[trigger] rounds[i + 1]).one_round_after(
                    &rounds[i],
                ),
        ensures
            rounds[i].iteration_limit() == rounds[0].iteration_limit(),
            rounds[i].iteration() == if i < u64::MAX {
                i
            } else {
                u64::MAX as int
            },
        decreases i,
    {
        if i > 0 {
            Self::lemma_rounds_are_counted(rounds, i - 1);
            assert(rounds[i - 1 + 1].one_round_after(&rounds[i - 1]));
        }
    }
}

} // verus!
