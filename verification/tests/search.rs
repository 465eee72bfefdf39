use local_search::history::History;
use local_search::iterated_local_search::{
    adapt_allowance, AcceptanceCriterion, IteratedLocalSearch, Perturbation, RESTART_INTERVAL,
};
use local_search::local_search::{
    least, score_neighborhood, Descent, InitialSolutionGenerator, LocalSearch, MoveProposer, Score,
    ScoredSolution, Solution, SolutionScoreCalculator,
};
use std::cell::Cell;
use std::rc::Rc;
use rand::SeedableRng;
use rand_chacha::ChaCha20Rng;

#[derive(Clone, Debug, PartialEq, Eq, PartialOrd, Ord, Hash)]
struct Point(i64);

impl Solution for Point {}

#[derive(Clone, Debug, PartialEq, Eq, PartialOrd, Ord, Hash)]
struct Cost(u64);

impl Score for Cost {
    fn is_best(&self) -> bool {
        self.0 == 0
    }
}

struct Distance {
    target: i64,
}

impl SolutionScoreCalculator for Distance {
    type _Solution = Point;
    type _Score = Cost;

    fn get_scored_solution(&self, solution: Point) -> ScoredSolution<Point, Cost> {
        let score = Cost((solution.0 - self.target).unsigned_abs());
        ScoredSolution::new(solution, score)
    }
}

/// Costs by position, from position zero on; every other position costs a hundred.
struct Table {
    costs: Vec<u64>,
}

impl SolutionScoreCalculator for Table {
    type _Solution = Point;
    type _Score = Cost;

    fn get_scored_solution(&self, solution: Point) -> ScoredSolution<Point, Cost> {
        let cost = usize::try_from(solution.0).ok().and_then(|i| self.costs.get(i).copied());
        ScoredSolution::new(solution, Cost(cost.unwrap_or(100)))
    }
}

struct Steps {
    by: Vec<i64>,
}

impl MoveProposer for Steps {
    type Solution = Point;

    fn iter_local_moves(&self, start: &Point, _rng: &mut ChaCha20Rng) -> Vec<Point> {
        self.by.iter().map(|step| Point(start.0 + step)).collect()
    }
}

fn scored(position: i64, cost: u64) -> ScoredSolution<Point, Cost> {
    ScoredSolution::new(Point(position), Cost(cost))
}

fn pair(found: &ScoredSolution<Point, Cost>) -> (i64, u64) {
    (found.solution.0, found.score.0)
}

fn search<SSC: SolutionScoreCalculator<_Solution = Point, _Score = Cost>>(
    by: Vec<i64>,
    scorer: SSC,
    max_iterations: u64,
    window_size: usize,
) -> LocalSearch<Point, Cost, SSC, Steps> {
    LocalSearch::new(
        Steps { by },
        scorer,
        max_iterations,
        window_size,
        4,
        100,
        100,
        ChaCha20Rng::seed_from_u64(1),
    )
}

#[test]
fn scoring_binds_solution_and_score() {
    let scored = Distance { target: 0 }.get_scored_solution(Point(3));
    assert_eq!((3, 3), pair(&scored));
    assert!(!scored.score.is_best());
    let again = Distance { target: 0 }.get_scored_solution(Point(3));
    assert_eq!(pair(&again), pair(&scored));
    let of_copy = Distance { target: 0 }.get_scored_solution(scored.solution.clone());
    assert_eq!(of_copy.score, scored.score);
}

#[test]
fn the_neighborhood_is_the_first_moves_that_are_not_tabu() {
    let mut history: History<Point, Cost> = History::new(4, 10, 100);
    history.seen_solution(scored(2, 0));
    history.seen_solution(scored(4, 0));
    let moves: Vec<Point> = (1..8).map(Point).collect();
    let scorer = Distance { target: 10 };
    let all = score_neighborhood(moves.clone(), &history, &scorer, 100);
    assert_eq!(
        vec![(1, 9), (3, 7), (5, 5), (6, 4), (7, 3)],
        all.iter().map(pair).collect::<Vec<_>>()
    );
    let some = score_neighborhood(moves.clone(), &history, &scorer, 3);
    assert_eq!(vec![(1, 9), (3, 7), (5, 5)], some.iter().map(pair).collect::<Vec<_>>());
    assert!(score_neighborhood(moves, &history, &scorer, 0).is_empty());
    assert!(score_neighborhood(Vec::new(), &history, &scorer, 3).is_empty());
    let taken = score_neighborhood(vec![Point(2), Point(4)], &history, &scorer, 3);
    assert!(taken.is_empty());
}

#[test]
fn the_neighborhood_keeps_moves_that_are_proposed_twice() {
    let history: History<Point, Cost> = History::new(4, 10, 100);
    let scorer = Distance { target: 0 };
    let twice = score_neighborhood(vec![Point(1), Point(1), Point(2)], &history, &scorer, 2);
    assert_eq!(vec![(1, 1), (1, 1)], twice.iter().map(pair).collect::<Vec<_>>());
}

#[test]
fn the_least_of_a_neighborhood_has_the_lowest_score() {
    assert!(least::<Point, Cost>(Vec::new()).is_none());
    let found = least(vec![scored(1, 9), scored(5, 2), scored(3, 7)]).unwrap();
    assert_eq!((5, 2), pair(&found));
    let tie = least(vec![scored(4, 2), scored(-4, 2), scored(9, 2), scored(0, 3)]).unwrap();
    assert_eq!((-4, 2), pair(&tie));
    let only = least(vec![scored(1, 9)]).unwrap();
    assert_eq!((1, 9), pair(&only));
}

#[test]
fn a_better_neighbor_becomes_current_and_best() {
    let mut descent = Descent::start(scored(0, 5));
    assert_eq!((0, 5), pair(&descent.current));
    assert_eq!((0, 5), pair(&descent.best));
    assert_eq!(0, descent.no_improvement_for);
    descent.no_improvement_for = 3;
    assert!(descent.advance(Some(scored(1, 4)), 0));
    assert_eq!((1, 4), pair(&descent.current));
    assert_eq!((1, 4), pair(&descent.best));
    assert_eq!(0, descent.no_improvement_for);
}

#[test]
fn a_neighbor_that_is_no_better_counts_against_the_allowance() {
    let mut descent = Descent::start(scored(0, 5));
    assert!(descent.advance(Some(scored(1, 5)), 3));
    assert_eq!((1, 5), pair(&descent.current));
    assert_eq!((0, 5), pair(&descent.best));
    assert_eq!(1, descent.no_improvement_for);
    assert!(descent.advance(Some(scored(2, 8)), 3));
    assert_eq!((2, 8), pair(&descent.current));
    assert_eq!(2, descent.no_improvement_for);
    assert!(!descent.advance(Some(scored(3, 9)), 3));
    assert_eq!((2, 8), pair(&descent.current));
    assert_eq!((0, 5), pair(&descent.best));
    assert_eq!(3, descent.no_improvement_for);
}

#[test]
fn a_descent_without_allowance_ends_at_the_first_step_that_is_no_better() {
    for allowance in [0, 1] {
        let mut descent = Descent::start(scored(0, 5));
        assert!(!descent.advance(Some(scored(1, 5)), allowance));
        assert_eq!((0, 5), pair(&descent.current));
        assert_eq!((0, 5), pair(&descent.best));
        assert_eq!(1, descent.no_improvement_for);
    }
}

#[test]
fn a_descent_ends_without_a_neighbor() {
    let mut descent = Descent::start(scored(0, 5));
    assert!(!descent.advance(None, 9));
    assert_eq!((0, 5), pair(&descent.current));
    assert_eq!((0, 5), pair(&descent.best));
    assert_eq!(0, descent.no_improvement_for);
}

#[test]
fn a_climb_records_as_best_what_is_better_than_where_it_stands() {
    let mut descent = Descent::start(scored(0, 5));
    assert!(descent.advance(Some(scored(1, 7)), 2));
    assert!(descent.advance(Some(scored(2, 6)), 2));
    assert_eq!((2, 6), pair(&descent.best));
    assert_eq!((2, 6), pair(&descent.current));
    assert_eq!(0, descent.no_improvement_for);
}

#[test]
fn the_count_of_steps_without_improvement_stops_at_the_largest_number() {
    let mut descent = Descent::start(scored(0, 5));
    descent.no_improvement_for = u64::MAX;
    assert!(!descent.advance(Some(scored(1, 5)), u64::MAX));
    assert_eq!(u64::MAX, descent.no_improvement_for);
}

#[test]
fn descent_reaches_the_target() {
    let mut search = search(vec![1, -1], Distance { target: 10 }, 1000, 8);
    let found = search.execute(Point(-5), 1);
    assert_eq!((10, 0), pair(&found));
}

#[test]
fn descent_is_no_worse_than_its_start() {
    let costs = vec![6, 4, 5, 3, 8, 2, 9, 9, 1, 7];
    for start in 0..10 {
        for allowance in [0, 1] {
            let mut search = search(vec![1, -1], Table { costs: costs.clone() }, 50, 8);
            let found = search.execute(Point(start), allowance);
            assert!(found.score.0 <= costs[start as usize]);
            assert_eq!(found.score.0, costs[found.solution.0 as usize]);
        }
    }
}

#[test]
fn descent_stops_at_a_local_minimum() {
    let mut search = search(vec![1, -1], Table { costs: vec![6, 4, 5, 3, 8, 2] }, 50, 8);
    assert_eq!((1, 4), pair(&search.execute(Point(0), 1)));
}

#[test]
fn descent_with_an_allowance_may_end_above_its_start() {
    let mut search = search(vec![1], Table { costs: vec![5, 7, 6, 9, 10] }, 50, 8);
    assert_eq!((2, 6), pair(&search.execute(Point(0), 2)));
}

#[test]
fn descent_of_no_steps_hands_back_its_start() {
    let mut search = search(vec![1, -1], Distance { target: 10 }, 0, 8);
    assert_eq!((-5, 15), pair(&search.execute(Point(-5), 3)));
}

#[test]
fn descent_stops_after_the_given_number_of_steps() {
    let mut search = search(vec![1, -1], Distance { target: 10 }, 4, 8);
    assert_eq!((4, 6), pair(&search.execute(Point(0), 1)));
}

#[test]
fn descent_from_the_optimum_stays_there() {
    let mut search = search(vec![1, -1], Distance { target: 3 }, 50, 8);
    assert_eq!((3, 0), pair(&search.execute(Point(3), 5)));
}

#[test]
fn descent_with_an_empty_window_hands_back_its_start() {
    let mut search = search(vec![1, -1], Distance { target: 10 }, 50, 0);
    assert_eq!((2, 8), pair(&search.execute(Point(2), 5)));
}

#[test]
fn descent_looks_at_the_window_only() {
    let mut search = search(vec![-1, 1], Distance { target: 10 }, 50, 1);
    assert_eq!((2, 8), pair(&search.execute(Point(2), 1)));
}

#[test]
fn descent_without_an_open_move_hands_back_its_start() {
    let mut search = search(vec![0], Distance { target: 10 }, 50, 8);
    assert_eq!((2, 8), pair(&search.execute(Point(2), 5)));
}

#[test]
fn descent_does_not_go_back_to_what_it_has_seen() {
    let mut search = search(vec![1, -1], Table { costs: vec![5, 5, 5, 5] }, 50, 8);
    let found = search.execute(Point(1), 10);
    assert_eq!((1, 5), pair(&found));
    let again = search.execute(Point(1), 10);
    assert_eq!((1, 5), pair(&again));
}

#[test]
fn the_allowance_moves_by_one_within_its_limit() {
    assert_eq!(0, adapt_allowance(0, true, 5));
    assert_eq!(1, adapt_allowance(0, false, 5));
    assert_eq!(2, adapt_allowance(3, true, 5));
    assert_eq!(4, adapt_allowance(3, false, 5));
    assert_eq!(5, adapt_allowance(5, false, 5));
    assert_eq!(5, adapt_allowance(9, true, 5));
    assert_eq!(0, adapt_allowance(0, false, 0));
    assert_eq!(u64::MAX, adapt_allowance(u64::MAX, false, u64::MAX));
}

#[test]
fn a_search_starts_again_every_hundred_rounds() {
    assert_eq!(100, RESTART_INTERVAL);
}

#[test]
fn the_candidates_carry_their_weights() {
    let two = AcceptanceCriterion::candidates(scored(1, 1), scored(2, 2), None);
    assert_eq!(
        vec![((1, 1), 1), ((2, 2), 5)],
        two.iter().map(|(s, w)| (pair(s), *w)).collect::<Vec<_>>()
    );
    let three = AcceptanceCriterion::candidates(scored(1, 1), scored(2, 2), Some(scored(3, 3)));
    assert_eq!(
        vec![((1, 1), 1), ((2, 2), 5), ((3, 3), 1)],
        three.iter().map(|(s, w)| (pair(s), *w)).collect::<Vec<_>>()
    );
}

#[test]
fn acceptance_draws_one_of_the_candidates_by_weight() {
    let mut history: History<Point, Cost> = History::new(4, 10, 100);
    history.local_search_chose_solution(scored(3, 3));
    let mut criterion = AcceptanceCriterion::new();
    let mut rng = ChaCha20Rng::seed_from_u64(8);
    let mut counts = [0u32; 4];
    for _ in 0..7000 {
        let chosen = criterion.accept(scored(1, 1), scored(2, 2), &history, &mut rng);
        assert_eq!(chosen.solution.0 as u64, chosen.score.0);
        counts[chosen.solution.0 as usize] += 1;
    }
    assert_eq!(0, counts[0]);
    assert!(counts[1] > 800 && counts[1] < 1200);
    assert!(counts[2] > 4700 && counts[2] < 5300);
    assert!(counts[3] > 800 && counts[3] < 1200);
}

#[test]
fn acceptance_without_a_best_solution_draws_from_two() {
    let history: History<Point, Cost> = History::new(4, 10, 100);
    let mut criterion = AcceptanceCriterion::default();
    let mut rng = ChaCha20Rng::seed_from_u64(8);
    let mut counts = [0u32; 3];
    for _ in 0..6000 {
        let chosen = criterion.accept(scored(1, 1), scored(2, 2), &history, &mut rng);
        counts[chosen.solution.0 as usize] += 1;
    }
    assert_eq!(0, counts[0]);
    assert!(counts[1] > 800 && counts[1] < 1200);
    assert!(counts[2] > 4800 && counts[2] < 5200);
}

/// Starts at a fixed position, and counts how often it is asked.
struct CountedStart {
    position: i64,
    asked: Rc<Cell<u64>>,
}

impl InitialSolutionGenerator for CountedStart {
    type Solution = Point;

    fn generate_initial_solution(&self, _rng: &mut ChaCha20Rng) -> Point {
        self.asked.set(self.asked.get() + 1);
        Point(self.position)
    }
}

/// Kicks a solution one position up, and records the histories it is shown.
struct Kick {
    best_seen: Rc<Cell<usize>>,
}

impl Perturbation for Kick {
    type _Solution = Point;
    type _Score = Cost;
    type _SSC = Distance;

    fn propose_new_starting_solution(
        &mut self,
        current: &ScoredSolution<Point, Cost>,
        history: &History<Point, Cost>,
        _rng: &mut ChaCha20Rng,
    ) -> Point {
        self.best_seen.set(history.get_best_multiple(usize::MAX).map_or(0, |best| best.len()));
        Point(current.solution.0 + 1)
    }
}

fn far_search(
    rounds: u64,
    best_capacity: usize,
    asked: Rc<Cell<u64>>,
    best_seen: Rc<Cell<usize>>,
) -> IteratedLocalSearch<Point, Cost, Distance, Steps, CountedStart, Kick> {
    IteratedLocalSearch::new(
        CountedStart { position: 0, asked },
        Distance { target: 1_000_000 },
        search(vec![1, -1], Distance { target: 1_000_000 }, 3, 8),
        Kick { best_seen },
        History::new(best_capacity, 10, 10),
        AcceptanceCriterion::new(),
        rounds,
        1,
        ChaCha20Rng::seed_from_u64(3),
    )
}

#[test]
fn a_search_asks_for_a_fresh_solution_every_hundred_rounds() {
    let asked = Rc::new(Cell::new(0));
    let mut search = far_search(250, 4, asked.clone(), Rc::new(Cell::new(0)));
    assert_eq!(1, asked.get());
    for round in 1..=250u64 {
        search.execute_round();
        assert_eq!(1 + round / 100, asked.get());
        assert_eq!(round, search.get_iteration_info().current);
    }
    assert!(search.is_finished());
    assert_eq!(3, asked.get());
}

#[test]
fn a_round_offers_its_local_minimum_to_the_best_set() {
    let best_seen = Rc::new(Cell::new(0));
    let mut search = far_search(10, 4, Rc::new(Cell::new(0)), best_seen.clone());
    assert_eq!((0, 1_000_000), pair(&search.get_best_solution()));
    search.execute_round();
    assert_eq!(1, best_seen.get());
    assert_eq!((4, 999_996), pair(&search.get_best_solution()));
    search.execute_round();
    assert_eq!(2, best_seen.get());
    assert!(search.get_best_solution().score.0 <= 999_996);
}

#[test]
fn a_search_that_keeps_no_best_solutions_still_runs_its_rounds() {
    let best_seen = Rc::new(Cell::new(7));
    let mut search = far_search(5, 0, Rc::new(Cell::new(0)), best_seen.clone());
    let best = search.execute();
    assert_eq!(5, search.get_iteration_info().current);
    assert_eq!(0, best_seen.get());
    assert_eq!(best.score.0, 1_000_000 - best.solution.0 as u64);
}

#[test]
fn a_run_ends_no_worse_than_any_local_minimum_it_found() {
    let best_seen = Rc::new(Cell::new(0));
    let mut search = far_search(30, 2, Rc::new(Cell::new(0)), best_seen);
    let mut least = u64::MAX;
    while !search.is_finished() {
        search.execute_round();
        least = least.min(search.get_best_solution().score.0);
    }
    let best = search.execute();
    assert_eq!(30, search.get_iteration_info().current);
    assert_eq!(least, best.score.0);
    assert!(best.score.0 <= 999_996);
}
