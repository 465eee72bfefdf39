//! What a host answers for: its solutions, its scores and the calculator that
//! scores a solution. The search takes a few laws for granted of them, which
//! are stated here, and works on solutions that carry their score.

use crate::ranking::is_lt;
use crate::ranking::is_same;
use crate::ranking::le;
use crate::ranking::lemma_le_transitive;
use crate::ranking::lemma_lt_transitive;
use crate::ranking::lemma_trichotomy;
use crate::ranking::lt;
use crate::ranking::total_order;
use core::cmp::Ordering;
use vstd::prelude::*;
use vstd::std_specs::cmp::PartialEqSpec;
use vstd::std_specs::cmp::PartialEqSpecImpl;
use vstd::std_specs::cmp::PartialOrdSpec;
use vstd::std_specs::cmp::PartialOrdSpecImpl;
use vstd::std_specs::hash::obeys_key_model;

verus! {

/// A candidate answer to the host's problem: plain data that can be copied,
/// compared, ordered and hashed.
pub trait Solution: Clone + Send + PartialEq + Eq + PartialOrd + Ord + std::hash::Hash + std::fmt::Debug {

}

/// The cost of a solution. Lower is better.
pub trait Score: Clone + Send + PartialEq + Eq + PartialOrd + Ord + std::fmt::Debug {
    /// Whether this is the best score there is. A search stops as soon as it
    /// meets such a score. A host that does not know the optimum answers
    /// `false` throughout.
    fn is_best(&self) -> bool;
}

/// Whether `T::clone` hands back a value equal to the one it was given.
pub open spec fn clone_is_exact<T: Clone>() -> bool {
    forall|a: T, b: T| #[trigger] call_ensures(T::clone, (&a,), b) ==> a == b
}

/// Whether `score` is one that `is_best` accepts.
pub open spec fn optimal<Sc: Score>(score: Sc) -> bool {
    call_ensures(Sc::is_best, (&score,), true)
}

/// What the search takes for granted of a solution type: its `==` and `<`
/// form a strict total order on its values, equal values hash alike, and a
/// clone equals the value it was made from.
pub open spec fn solution_laws<S: Solution>() -> bool {
    &&& total_order::<S>()
    &&& obeys_key_model::<S>()
    &&& clone_is_exact::<S>()
}

/// What the search takes for granted of a score type: its `==` and `<` form
/// a strict total order on its values, a clone equals the value it was made
/// from, and `is_best` gives one answer for one score.
pub open spec fn score_laws<Sc: Score>() -> bool {
    &&& total_order::<Sc>()
    &&& clone_is_exact::<Sc>()
    &&& forall|score: Sc| #[trigger]
        optimal(score) ==> !call_ensures(Sc::is_best, (&score,), false)
}

/// A solution together with its score.
///
/// In executable code `==` compares the solutions alone, and so does the
/// hash; `<` goes by the score, and among equal scores by the solution. In
/// contracts `==` is equality of values: of both fields.
#[derive(Debug)]
pub struct ScoredSolution<_Solution, _Score> where _Solution: Solution, _Score: Score {
    pub score: _Score,
    pub solution: _Solution,
}

impl<_Solution, _Score> ScoredSolution<_Solution, _Score> where
    _Solution: Solution,
    _Score: Score,
 {
    /// The order of scored solutions: by score, and among equal scores by
    /// solution.
    pub open spec fn precedes(self, other: Self) -> bool {
        lt(self.score, other.score) || (self.score == other.score && lt(
            self.solution,
            other.solution,
        ))
    }

    /// Binds `score` to `solution`.
    pub fn new(solution: _Solution, score: _Score) -> (scored: Self)
        ensures
            scored.solution == solution,
            scored.score == score,
    {
        Self { solution, score }
    }

    /// Decides `precedes`.
    pub fn comes_before(&self, other: &Self) -> (before: bool)
        requires
            solution_laws::<_Solution>(),
            score_laws::<_Score>(),
        ensures
            before == self.precedes(*other),
    {
        if is_lt(&self.score, &other.score) {
            true
        } else if is_same(&self.score, &other.score) {
            is_lt(&self.solution, &other.solution)
        } else {
            false
        }
    }

    /// Decides equality of scored solutions: of their scores and of their
    /// solutions.
    pub fn is_same_as(&self, other: &Self) -> (same: bool)
        requires
            solution_laws::<_Solution>(),
            score_laws::<_Score>(),
        ensures
            same == (*self == *other),
    {
        is_same(&self.score, &other.score) && is_same(&self.solution, &other.solution)
    }

    /// Of two scored solutions exactly one precedes the other, unless they
    /// are equal.
    pub proof fn lemma_precedes_total(self, other: Self)
        requires
            solution_laws::<_Solution>(),
            score_laws::<_Score>(),
        ensures
            self.precedes(other) || self == other || other.precedes(self),
            !(self.precedes(other) && self == other),
            !(self.precedes(other) && other.precedes(self)),
            self.precedes(other) ==> le(self.score, other.score),
    {
        lemma_trichotomy(self.score, other.score);
        lemma_trichotomy(self.solution, other.solution);
    }

    /// `precedes` is transitive.
    pub proof fn lemma_precedes_transitive(self, middle: Self, other: Self)
        requires
            solution_laws::<_Solution>(),
            score_laws::<_Score>(),
            self.precedes(middle),
            middle.precedes(other),
        ensures
            self.precedes(other),
    {
        lemma_trichotomy(self.score, middle.score);
        lemma_le_transitive(self.score, middle.score, other.score);
        if self.score == other.score {
            lemma_lt_transitive(self.solution, middle.solution, other.solution);
        }
    }
}

impl<_Solution, _Score> Clone for ScoredSolution<_Solution, _Score> where
    _Solution: Solution,
    _Score: Score,
 {
    /// A copy made of clones of the solution and of the score.
    fn clone(&self) -> (copy: Self)
        ensures
            clone_is_exact::<_Solution>() && clone_is_exact::<_Score>() ==> copy == *self,
    {
        ScoredSolution { score: self.score.clone(), solution: self.solution.clone() }
    }
}

impl<_Solution, _Score> PartialEq for ScoredSolution<_Solution, _Score> where
    _Solution: Solution,
    _Score: Score,
 {
    /// Whether the two solutions are equal, whatever their scores.
    fn eq(&self, other: &Self) -> (equal: bool) {
        self.solution == other.solution
    }
}

impl<_Solution, _Score> PartialEqSpecImpl for ScoredSolution<_Solution, _Score> where
    _Solution: Solution,
    _Score: Score,
 {
    open spec fn obeys_eq_spec() -> bool {
        _Solution::obeys_eq_spec()
    }

    open spec fn eq_spec(&self, other: &Self) -> bool {
        self.solution.eq_spec(&other.solution)
    }
}

impl<_Solution, _Score> Eq for ScoredSolution<_Solution, _Score> where
    _Solution: Solution,
    _Score: Score,
 {

}

impl<_Solution, _Score> PartialOrd for ScoredSolution<_Solution, _Score> where
    _Solution: Solution,
    _Score: Score,
 {
    /// The order of the scores, and among equal scores that of the
    /// solutions.
    fn partial_cmp(&self, other: &Self) -> (order: Option<Ordering>) {
        match self.score.partial_cmp(&other.score) {
            Some(Ordering::Equal) => self.solution.partial_cmp(&other.solution),
            order => order,
        }
    }
}

impl<_Solution, _Score> PartialOrdSpecImpl for ScoredSolution<_Solution, _Score> where
    _Solution: Solution,
    _Score: Score,
 {
    open spec fn obeys_partial_cmp_spec() -> bool {
        _Solution::obeys_partial_cmp_spec() && _Score::obeys_partial_cmp_spec()
    }

    open spec fn partial_cmp_spec(&self, other: &Self) -> Option<Ordering> {
        match self.score.partial_cmp_spec(&other.score) {
            Some(Ordering::Equal) => self.solution.partial_cmp_spec(&other.solution),
            order => order,
        }
    }
}

impl<_Solution, _Score> std::hash::Hash for ScoredSolution<_Solution, _Score> where
    _Solution: Solution,
    _Score: Score,
 {
    /// `std::hash::Hash::hash` of the solution: the solution, and nothing
    /// else, is fed into the hasher. Nothing is claimed of the state in
    /// which that leaves the hasher.
    #[verifier::external_body]
    fn hash<H: std::hash::Hasher>(&self, state: &mut H) {
        self.solution.hash(state)
    }
}

/// Computes the score of a solution. Within one search a calculator gives
/// one score to one solution.
pub trait SolutionScoreCalculator {
    type _Solution: Solution;

    type _Score: Score;

    /// Scores `solution` and hands it back together with its score.
    fn get_scored_solution(&self, solution: Self::_Solution) -> ScoredSolution<
        Self::_Solution,
        Self::_Score,
    >;
}

/// The score that `calculator` gives to `solution`.
pub open spec fn score_of<SSC: SolutionScoreCalculator>(
    calculator: SSC,
    solution: SSC::_Solution,
) -> SSC::_Score {
    (choose|scored: ScoredSolution<SSC::_Solution, SSC::_Score>|
        call_ensures(SSC::get_scored_solution, (&calculator, solution), scored)).score
}

/// `solution` with the score that `calculator` gives to it.
pub open spec fn scored_by<SSC: SolutionScoreCalculator>(
    calculator: SSC,
    solution: SSC::_Solution,
) -> ScoredSolution<SSC::_Solution, SSC::_Score> {
    ScoredSolution { score: score_of(calculator, solution), solution }
}

/// What the search takes for granted of a calculator: it hands back the
/// solution it was given, and gives one score to one solution.
pub open spec fn scorer_laws<SSC: SolutionScoreCalculator>(calculator: SSC) -> bool {
    forall|solution: SSC::_Solution, scored: ScoredSolution<SSC::_Solution, SSC::_Score>| #[trigger]
        call_ensures(SSC::get_scored_solution, (&calculator, solution), scored) ==> scored
            == scored_by(calculator, solution)
}

/// Scoring one solution twice gives the same scored solution twice.
pub proof fn lemma_scoring_repeats<SSC: SolutionScoreCalculator>(
    calculator: SSC,
    solution: SSC::_Solution,
    first: ScoredSolution<SSC::_Solution, SSC::_Score>,
    second: ScoredSolution<SSC::_Solution, SSC::_Score>,
)
    requires
        scorer_laws(calculator),
        call_ensures(SSC::get_scored_solution, (&calculator, solution), first),
        call_ensures(SSC::get_scored_solution, (&calculator, solution), second),
    ensures
        first == second,
{
}

/// A clone of a solution gets the score of the solution.
pub proof fn lemma_clone_keeps_score<SSC: SolutionScoreCalculator>(
    calculator: SSC,
    solution: SSC::_Solution,
    copy: SSC::_Solution,
    first: ScoredSolution<SSC::_Solution, SSC::_Score>,
    second: ScoredSolution<SSC::_Solution, SSC::_Score>,
)
    requires
        scorer_laws(calculator),
        clone_is_exact::<SSC::_Solution>(),
        call_ensures(SSC::_Solution::clone, (&solution,), copy),
        call_ensures(SSC::get_scored_solution, (&calculator, solution), first),
        call_ensures(SSC::get_scored_solution, (&calculator, copy), second),
    ensures
        first.score == second.score,
{
}

} // verus!
