use local_search::ackley::{
    draw_order, list_moves, AckleyInitialSolutionGenerator, AckleyPerturbation,
    AckleyPerturbationStrategy, MoveUpOrDown,
};
use local_search::history::History;
use local_search::iterated_local_search::{AcceptanceCriterion, IteratedLocalSearch, Perturbation};
use local_search::local_search::{
    InitialSolutionGenerator, LocalSearch, MoveProposer, Score, ScoredSolution, Solution,
    SolutionScoreCalculator,
};
use ordered_float::OrderedFloat;
use rand::Rng;
use rand::SeedableRng;
use rand_chacha::ChaCha20Rng;
use rand_distr::Distribution;

const X_MIN: f64 = -32.768;
const X_MAX: f64 = 32.768;

struct AckleyFunction {
    a: f64,
    b: f64,
    c: f64,
}

impl AckleyFunction {
    fn new(a: f64, b: f64, c: f64) -> Self {
        AckleyFunction { a, b, c }
    }

    fn calculate(&self, xs: &Vec<OrderedFloat<f64>>) -> f64 {
        let dimensions: f64 = xs.len() as f64;
        let mut fx: f64 = 0.0;
        let mut square_sum = 0.0;
        let mut cosine_sum = 0.0;
        xs.into_iter().for_each(|xi| {
            square_sum += xi.0 * xi.0;
            cosine_sum += (self.c * xi.0).cos();
        });
        fx += -self.a * (-self.b * (square_sum / dimensions).sqrt()).exp();
        fx -= (cosine_sum / dimensions).exp();
        fx += self.a + std::f64::consts::E;
        fx
    }
}

impl Default for AckleyFunction {
    fn default() -> Self {
        Self::new(20.0, 0.2, 2.0 * std::f64::consts::PI)
    }
}

#[derive(Clone, Debug, Eq, PartialEq, Ord, PartialOrd, Hash)]
struct AckleySolution {
    x: Vec<OrderedFloat<f64>>,
}

impl Solution for AckleySolution {}

impl AckleySolution {
    fn new(x: Vec<OrderedFloat<f64>>) -> Self {
        AckleySolution { x }
    }
}

#[derive(Clone, Debug, Eq, PartialEq, Ord, PartialOrd, Hash)]
struct AckleyScore(OrderedFloat<f64>);

impl Score for AckleyScore {
    fn is_best(&self) -> bool {
        self.0 .0.abs() <= 1e-2
    }
}

impl AckleyScore {
    fn get_score(&self) -> f64 {
        self.0 .0
    }
}

#[derive(Default)]
struct AckleySolutionScoreCalculator {
    ackley_function: AckleyFunction,
}

impl SolutionScoreCalculator for AckleySolutionScoreCalculator {
    type _Solution = AckleySolution;
    type _Score = AckleyScore;

    fn get_scored_solution(
        &self,
        solution: AckleySolution,
    ) -> ScoredSolution<AckleySolution, AckleyScore> {
        let score = self.ackley_function.calculate(&solution.x);
        ScoredSolution::new(solution, AckleyScore(OrderedFloat(score)))
    }
}

struct AckleyStart(AckleyInitialSolutionGenerator);

impl InitialSolutionGenerator for AckleyStart {
    type Solution = AckleySolution;

    fn generate_initial_solution(&self, rng: &mut ChaCha20Rng) -> AckleySolution {
        AckleySolution {
            x: (0..self.0.dimensions()).map(|_| OrderedFloat(rng.gen_range(X_MIN..X_MAX))).collect(),
        }
    }
}

struct AckleyMoveProposer {
    dimensions: usize,
    min_move_size: f64,
    max_move_size: f64,
}

impl AckleyMoveProposer {
    fn new(dimensions: usize, min_move_size: f64, max_move_size: f64) -> Self {
        AckleyMoveProposer { dimensions, min_move_size, max_move_size }
    }
}

impl MoveProposer for AckleyMoveProposer {
    type Solution = AckleySolution;

    fn iter_local_moves(&self, start: &AckleySolution, rng: &mut ChaCha20Rng) -> Vec<AckleySolution> {
        let schedule = draw_order(self.dimensions, rng);
        let move_size = rng.gen_range(self.min_move_size..self.max_move_size);
        list_moves(&schedule)
            .into_iter()
            .map(|(dimension, direction)| {
                let mut moved = start.clone();
                moved.x[dimension] = OrderedFloat(match direction {
                    MoveUpOrDown::Up => moved.x[dimension].0 + move_size,
                    MoveUpOrDown::Down => moved.x[dimension].0 - move_size,
                });
                moved
            })
            .collect()
    }
}

#[derive(Default)]
struct AckleyKick(AckleyPerturbation);

impl Perturbation for AckleyKick {
    type _Solution = AckleySolution;
    type _Score = AckleyScore;
    type _SSC = AckleySolutionScoreCalculator;

    fn propose_new_starting_solution(
        &mut self,
        current: &ScoredSolution<AckleySolution, AckleyScore>,
        _history: &History<AckleySolution, AckleyScore>,
        rng: &mut ChaCha20Rng,
    ) -> AckleySolution {
        match self.0.draw_strategy(rng).unwrap() {
            AckleyPerturbationStrategy::ChangeSubset => {
                let mut new_solution = current.solution.clone();
                assert!(!new_solution.x.is_empty());
                for i in AckleyPerturbation::draw_dimensions(new_solution.x.len(), rng) {
                    let normal = rand_distr::Normal::new(new_solution.x[i].0, 1.0).unwrap();
                    let v = normal.sample(rng).clamp(X_MIN, X_MAX);
                    new_solution.x[i] = OrderedFloat(v)
                }
                new_solution
            }
            AckleyPerturbationStrategy::DoNothing => current.solution.clone(),
        }
    }
}

fn ackley_local_search(
    dimensions: usize,
    min_move_size: f64,
    window_size: usize,
    seed: u64,
) -> LocalSearch<AckleySolution, AckleyScore, AckleySolutionScoreCalculator, AckleyMoveProposer> {
    LocalSearch::new(
        AckleyMoveProposer::new(dimensions, min_move_size, 0.1),
        AckleySolutionScoreCalculator::default(),
        100_000,
        window_size,
        16,
        10_000,
        10_000,
        ChaCha20Rng::seed_from_u64(seed),
    )
}

#[test]
fn ackley_search_in_two_dimensions_improves_on_its_start() {
    let dimensions = 2;
    let seed = 0;
    let local_search = ackley_local_search(dimensions, 1e-3, 500, seed);
    let mut search = IteratedLocalSearch::new(
        AckleyStart(AckleyInitialSolutionGenerator::new(dimensions)),
        AckleySolutionScoreCalculator::default(),
        local_search,
        AckleyKick::default(),
        History::<AckleySolution, AckleyScore>::default(),
        AcceptanceCriterion::default(),
        40,
        5,
        ChaCha20Rng::seed_from_u64(seed),
    );
    let start = search.get_best_solution();
    let mut last = start.score.clone();
    while !search.is_finished() {
        search.execute_round();
        let now = search.get_best_solution().score;
        assert!(now <= last);
        last = now;
    }
    assert_eq!(40, search.get_iteration_info().current);
    let end = search.get_best_solution();
    assert!(end.score < start.score);
    let rescored = AckleySolutionScoreCalculator::default().get_scored_solution(end.solution.clone());
    assert_eq!(rescored.score, end.score);
}

/// Starts every search at the same point.
struct FixedStart(Vec<f64>);

impl InitialSolutionGenerator for FixedStart {
    type Solution = AckleySolution;

    fn generate_initial_solution(&self, _rng: &mut ChaCha20Rng) -> AckleySolution {
        AckleySolution::new(self.0.iter().map(|x| OrderedFloat(*x)).collect())
    }
}

#[test]
fn ackley_search_in_two_dimensions_from_the_basin_of_the_optimum_reaches_it() {
    let dimensions = 2;
    let seed = 0;
    let local_search = ackley_local_search(dimensions, 1e-3, 500, seed);
    let mut search = IteratedLocalSearch::new(
        FixedStart(vec![0.3; dimensions]),
        AckleySolutionScoreCalculator::default(),
        local_search,
        AckleyKick::default(),
        History::<AckleySolution, AckleyScore>::default(),
        AcceptanceCriterion::default(),
        10_000,
        5,
        ChaCha20Rng::seed_from_u64(seed),
    );
    let start = search.get_best_solution();
    assert!(start.score.get_score() > 1.0);
    let solution = search.execute();
    assert!(search.is_finished());
    assert!(search.get_iteration_info().current < 10_000);
    assert!((0.0 - solution.score.get_score()).abs() <= 1e-2);
    assert!(solution.score.is_best());
    let rescored = AckleySolutionScoreCalculator::default().get_scored_solution(solution.solution.clone());
    assert_eq!(rescored.score, solution.score);
}

#[test]
fn ackley_local_minima_found() {
    println!("test: ackley_local_minima_found");
    let dimensions = 2;
    let seed = 42;
    let mut local_search = ackley_local_search(dimensions, 1e-6, 256, seed);
    let initial_solution_generator = AckleyStart(AckleyInitialSolutionGenerator::new(dimensions));
    let mut initial_solution_rng = ChaCha20Rng::seed_from_u64(seed);
    let start = initial_solution_generator.generate_initial_solution(&mut initial_solution_rng);
    println!("start: {:?}", start);
    let allow_no_improvement_for = 1;
    let end = local_search.execute(start.clone(), allow_no_improvement_for);

    let solution_score_calculator = AckleySolutionScoreCalculator::default();
    let start_score = solution_score_calculator.get_scored_solution(start.clone()).score;

    println!(
        "start_score: {:?}, end_score: {:?}, start: {:?}, end: {:?}",
        start_score, end.score, start, end
    );
    assert!(end.score < start_score, "expected end_score to be better than start_score");
    assert_ne!(start, end.solution, "expected end solution to be different from start solution");
}

#[test]
fn ackley_when_starting_from_global_minima_does_not_move() {
    println!("test: ackley_when_starting_from_global_minima_does_not_move");
    let dimensions = 2;
    let seed = 42;
    let mut local_search = ackley_local_search(dimensions, 1e-6, 256, seed);
    let start = AckleySolution::new((0..dimensions).map(|_| OrderedFloat(0.0)).collect());
    println!("start: {:?}", start);
    let allow_no_improvement_for = 1;
    let end = local_search.execute(start.clone(), allow_no_improvement_for);

    let solution_score_calculator = AckleySolutionScoreCalculator::default();
    let start_score = solution_score_calculator.get_scored_solution(start.clone()).score;

    println!(
        "start_score: {:?}, end_score: {:?}, start: {:?}, end: {:?}",
        start_score, end.score, start, end
    );
    assert!((end.score.get_score() - start_score.get_score()).abs() <= 1e-12);
    assert_eq!(start, end.solution, "expected end solution to be same as start solution");
}

#[test]
fn an_order_lists_each_dimension_once() {
    let mut rng = ChaCha20Rng::seed_from_u64(5);
    let mut order = draw_order(9, &mut rng);
    assert_ne!(order, (0..9).collect::<Vec<usize>>());
    order.sort();
    assert_eq!(order, (0..9).collect::<Vec<usize>>());
    assert!(draw_order(0, &mut rng).is_empty());
}

#[test]
fn moves_go_up_then_down_along_the_order() {
    let moves = list_moves(&vec![2, 0]);
    assert_eq!(
        moves,
        vec![
            (2, MoveUpOrDown::Up),
            (2, MoveUpOrDown::Down),
            (0, MoveUpOrDown::Up),
            (0, MoveUpOrDown::Down)
        ]
    );
    assert!(list_moves(&Vec::new()).is_empty());
}

#[test]
fn a_perturbation_alters_fewer_dimensions_than_there_are() {
    let mut rng = ChaCha20Rng::seed_from_u64(11);
    let mut sizes = std::collections::BTreeSet::new();
    for _ in 0..200 {
        let mut chosen = AckleyPerturbation::draw_dimensions(4, &mut rng);
        assert!(chosen.len() < 4);
        assert!(chosen.iter().all(|dimension| *dimension < 4));
        sizes.insert(chosen.len());
        chosen.sort();
        chosen.dedup();
        assert_eq!(sizes.contains(&chosen.len()), true);
    }
    assert_eq!(sizes.into_iter().collect::<Vec<usize>>(), vec![0, 1, 2, 3]);
    assert!(AckleyPerturbation::draw_dimensions(1, &mut rng).is_empty());
}

#[test]
fn strategies_are_drawn_by_weight() {
    let mut rng = ChaCha20Rng::seed_from_u64(3);
    let only = AckleyPerturbation::new(vec![
        (AckleyPerturbationStrategy::ChangeSubset, 0),
        (AckleyPerturbationStrategy::DoNothing, 4),
    ]);
    for _ in 0..50 {
        assert_eq!(only.draw_strategy(&mut rng), Some(AckleyPerturbationStrategy::DoNothing));
    }
    let usual = AckleyPerturbation::default();
    let mut changes = 0;
    for _ in 0..1100 {
        if usual.draw_strategy(&mut rng) == Some(AckleyPerturbationStrategy::ChangeSubset) {
            changes += 1;
        }
    }
    assert!(changes > 900 && changes < 1100);
}

#[test]
fn nothing_is_drawn_without_weight() {
    let mut rng = ChaCha20Rng::seed_from_u64(3);
    assert_eq!(AckleyPerturbation::new(Vec::new()).draw_strategy(&mut rng), None);
    let zero = AckleyPerturbation::new(vec![(AckleyPerturbationStrategy::ChangeSubset, 0)]);
    assert_eq!(zero.draw_strategy(&mut rng), None);
    let too_much = AckleyPerturbation::new(vec![
        (AckleyPerturbationStrategy::ChangeSubset, u64::MAX),
        (AckleyPerturbationStrategy::DoNothing, 1),
    ]);
    assert_eq!(too_much.draw_strategy(&mut rng), None);
}
