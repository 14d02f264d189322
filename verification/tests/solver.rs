use cube::algorithm::{Algorithm, Move};
use cube::cube::Cube;
use cube::permutation::Permutation;
use cube::solver::{Goal, Heuristic, SearchResult, Solver, DEFAULT_LIMIT};
use cube::stage::{Stage, UnitHeuristic};

fn scrambled(text: &str) -> Cube {
    Cube::new().execute(&Algorithm::from_str(text).unwrap())
}

fn no_face_twice_in_a_row(alg: &Algorithm) -> bool {
    let words: Vec<String> = alg
        .to_string()
        .split_whitespace()
        .map(|w| w[..1].to_string())
        .collect();
    words.windows(2).all(|pair| pair[0] != pair[1])
}

#[test]
fn a_solved_cube_needs_no_moves() {
    let (alg, end) = Solver::new().solve(&Cube::new()).unwrap();
    assert_eq!(alg.len(), 0);
    assert_eq!(end, Permutation::id());
}

#[test]
fn solving_a_scramble_leads_back_to_identity() {
    for (text, solution) in [
        ("R", "R R2"),
        ("U2", "U2"),
        ("F", "F F2"),
        ("R U", "U' R R2"),
        ("F R'", "R F F2"),
        ("L2 D' B", "B B2 D L2"),
        ("R U R' U'", "U R U' R R2"),
        ("F2 B2 U D'", "U D U2 F2 B2"),
    ] {
        let cube = scrambled(text);
        let (alg, end) = Solver::new().solve(&cube).unwrap();
        assert_eq!(end, Permutation::id(), "{text}");
        assert_eq!(alg.execute(cube.state), Permutation::id(), "{text}");
        assert_eq!(cube.execute(&alg).state, Permutation::id(), "{text}");
        assert_eq!(alg.to_string(), solution, "{text}");
    }
}

#[test]
fn a_stage_finds_a_shortest_path_without_repeated_faces() {
    let cube = scrambled("F R U' B");
    let moves = Stage::EdgeOrientation.moves();
    let goal = Stage::EdgeOrientation;
    let (alg, end) =
        Solver::search(cube.state, &moves, &goal, &UnitHeuristic, DEFAULT_LIMIT).unwrap();
    assert_eq!(end, alg.execute(cube.state));
    assert!(Stage::EdgeOrientation.evaluate(&end));
    assert_eq!(end.eo, [0; 12]);
    assert!(no_face_twice_in_a_row(&alg));
    assert_eq!(alg.to_string(), "B' U R' F");
}

#[test]
fn the_search_gives_up_beyond_the_limit() {
    let cube = scrambled("R U");
    let moves = Move::moves_list();
    assert!(Solver::search(cube.state, &moves, &Stage::Finish, &UnitHeuristic, 2).is_none());
    let (alg, _) = Solver::search(cube.state, &moves, &Stage::Finish, &UnitHeuristic, 3).unwrap();
    assert_eq!(alg.to_string(), "U' R'");
    assert!(Solver::search(cube.state, &moves, &Stage::Finish, &UnitHeuristic, 0).is_none());
}

#[test]
fn the_search_ends_when_nothing_was_cut_off() {
    let cube = scrambled("R");
    let only_u: Vec<Move> = Move::moves_list().into_iter().take(3).collect();
    assert!(Solver::search(cube.state, &only_u, &Stage::Finish, &UnitHeuristic, 1000).is_none());
    let none: Vec<Move> = Vec::new();
    assert!(Solver::search(cube.state, &none, &Stage::Finish, &UnitHeuristic, 1000).is_none());
    let (alg, end) = Solver::search(
        Permutation::id(),
        &none,
        &Stage::Finish,
        &UnitHeuristic,
        1,
    )
    .unwrap();
    assert_eq!(alg.len(), 0);
    assert_eq!(end, Permutation::id());
}

#[test]
fn a_solver_with_a_small_limit_gives_up() {
    let cube = scrambled("R U F");
    assert!(Solver::with_limit(3).solve(&cube).is_none());
    assert!(Solver::with_limit(0).solve(&Cube::new()).is_none());
    assert!(Solver::with_limit(1).solve(&Cube::new()).is_some());
}

#[test]
fn each_stage_uses_a_subset_of_the_moves_before() {
    let names = |stage: Stage| -> String {
        stage
            .moves()
            .iter()
            .map(|m| m.to_string())
            .collect::<Vec<String>>()
            .join(" ")
    };
    assert_eq!(
        names(Stage::EdgeOrientation),
        "U U2 U' D D2 D' L L2 L' R R2 R' F F2 F' B B2 B'"
    );
    assert_eq!(
        names(Stage::DominoReduction),
        "U U2 U' D D2 D' L L2 L' R R2 R' F2 B2"
    );
    assert_eq!(names(Stage::HalfTurn), "U U2 U' D D2 D' L2 R2 F2 B2");
    assert_eq!(names(Stage::Finish), "U2 D2 L2 R2 F2 B2");
}

#[test]
fn the_goals_tell_the_stages_apart() {
    let state = |text: &str| scrambled(text).state;
    let goals = |p: Permutation| -> [bool; 4] {
        [
            Stage::EdgeOrientation.evaluate(&p),
            Stage::DominoReduction.evaluate(&p),
            Stage::HalfTurn.evaluate(&p),
            Stage::Finish.evaluate(&p),
        ]
    };
    assert_eq!(goals(Permutation::id()), [true, true, true, true]);
    assert_eq!(goals(state("R2")), [true, true, true, false]);
    assert_eq!(goals(state("U")), [true, true, false, false]);
    assert_eq!(goals(state("R")), [true, false, false, false]);
    assert_eq!(goals(state("F")), [false, false, false, false]);
    assert_eq!(goals(state("U R2 D' L2")), [true, true, false, false]);
    assert_eq!(goals(state("R2 U2 F2 D2")), [true, true, true, false]);
}

#[test]
fn later_stages_keep_what_earlier_stages_reached() {
    let stages = [
        Stage::EdgeOrientation,
        Stage::DominoReduction,
        Stage::HalfTurn,
        Stage::Finish,
    ];
    let starts = ["", "U2 R2", "D L2 U' F2", "R2 B2 D2 L2 U2"];
    for done in 0..3 {
        for text in starts {
            let start = scrambled(text).state;
            if !(0..=done).all(|s| stages[s].evaluate(&start)) {
                continue;
            }
            for later in (done + 1)..4 {
                for mov in stages[later].moves() {
                    assert!(
                        stages[done].evaluate(&mov.execute(start)),
                        "{:?} after {:?} by {}",
                        stages[done],
                        text,
                        mov.to_string()
                    );
                }
            }
        }
    }
}

struct Zero;

impl Heuristic for Zero {
    fn evaluate(&self, _state: &Permutation) -> usize {
        0
    }
}

struct MisplacedCorners;

impl Heuristic for MisplacedCorners {
    fn evaluate(&self, state: &Permutation) -> usize {
        ((0..8).filter(|&i| state.cp[i] != i).count() + 3) / 4
    }
}

struct ThreeUnlessSolved;

impl Heuristic for ThreeUnlessSolved {
    fn evaluate(&self, state: &Permutation) -> usize {
        if *state == Permutation::id() {
            0
        } else {
            3
        }
    }
}

struct CornersAtHome;

impl Goal for CornersAtHome {
    fn evaluate(&self, state: &Permutation) -> bool {
        state.cp == Permutation::id().cp
    }
}

#[test]
fn the_threshold_starts_at_the_estimate_and_counts_the_depth() {
    let state = scrambled("R U").state;
    let moves = Move::moves_list();
    assert!(Solver::search(state, &moves, &Stage::Finish, &Zero, 1).is_none());
    let (alg, _) = Solver::search(state, &moves, &Stage::Finish, &Zero, 2).unwrap();
    assert_eq!(alg.to_string(), "U' R'");
    assert!(Solver::search(state, &moves, &Stage::Finish, &MisplacedCorners, 1).is_none());
    let (alg, _) = Solver::search(state, &moves, &Stage::Finish, &MisplacedCorners, 2).unwrap();
    assert_eq!(alg.to_string(), "U' R'");
    let (alg, end) =
        Solver::search(scrambled("F R U' B").state, &moves, &Stage::EdgeOrientation, &Zero, 10)
            .unwrap();
    assert_eq!(alg.to_string(), "B' U R' F");
    assert_eq!(end.eo, [0; 12]);
}

#[test]
fn an_estimate_that_is_too_high_costs_the_path_its_worst_state() {
    let state = scrambled("R").state;
    let moves = Move::moves_list();
    let (alg, _) =
        Solver::search(state, &moves, &Stage::Finish, &ThreeUnlessSolved, 10).unwrap();
    assert_eq!(alg.to_string(), "R'");
    assert!(Solver::search(state, &moves, &Stage::Finish, &ThreeUnlessSolved, 2).is_none());
    let (alg, _) = Solver::search(state, &moves, &Stage::Finish, &ThreeUnlessSolved, 3).unwrap();
    assert_eq!(alg.to_string(), "R'");
}

#[test]
fn a_goal_of_ones_own_can_be_searched_for() {
    let state = scrambled("R2 U").state;
    let moves = Move::moves_list();
    let (alg, end) = Solver::search(state, &moves, &CornersAtHome, &UnitHeuristic, 5).unwrap();
    assert_eq!(end.cp, Permutation::id().cp);
    assert_eq!(end, alg.execute(state));
    assert_eq!(alg.to_string(), "U' R2");
    assert!(no_face_twice_in_a_row(&alg));
}

#[test]
fn the_first_path_in_catalog_order_is_found() {
    let moves = Move::moves_list();
    let state = scrambled("U2").state;
    let (alg, _) = Solver::search(state, &moves, &Stage::Finish, &UnitHeuristic, 5).unwrap();
    assert_eq!(alg.to_string(), "U2");
    let quarters: Vec<Move> = moves.iter().copied().filter(|m| !m.is_halfturn()).collect();
    let (alg, _) = Solver::search(state, &quarters, &Stage::Finish, &UnitHeuristic, 5).unwrap();
    assert_eq!(alg.to_string(), "U D U D'");
    let reversed: Vec<Move> = moves.iter().rev().copied().collect();
    let state = scrambled("R F").state;
    let goal = Stage::EdgeOrientation;
    let (first, _) = Solver::search(state, &moves, &goal, &UnitHeuristic, 5).unwrap();
    let (other, _) = Solver::search(state, &reversed, &goal, &UnitHeuristic, 5).unwrap();
    assert_eq!(first.to_string(), "F");
    assert_eq!(other.to_string(), "F'");
}

#[test]
fn the_last_stage_gives_up_where_half_turns_do_not_suffice() {
    let cube = scrambled("U L2 U2 L2 U' R2 U L2 U' R2 U' L2 U'");
    assert_eq!(cube.state.cp, [7, 1, 0, 3, 4, 5, 6, 2]);
    assert_eq!(cube.state.co, [0; 8]);
    assert_eq!(cube.state.ep, Permutation::id().ep);
    assert_eq!(cube.state.eo, [0; 12]);
    let solver = Solver::with_limit(8);
    for stage in [Stage::EdgeOrientation, Stage::DominoReduction, Stage::HalfTurn] {
        let (alg, end) = solver.solve_stage(stage, cube.state).unwrap();
        assert_eq!(alg.len(), 0);
        assert_eq!(end, cube.state);
    }
    assert!(solver.solve_stage(Stage::Finish, cube.state).is_none());
    assert!(solver.solve(&cube).is_none());
}

#[test]
fn the_stages_of_a_solution_can_be_run_one_by_one() {
    let cube = scrambled("R U R' U'");
    let solver = Solver::new();
    let mut state = cube.state;
    let mut parts = Vec::new();
    for stage in [
        Stage::EdgeOrientation,
        Stage::DominoReduction,
        Stage::HalfTurn,
        Stage::Finish,
    ] {
        let (alg, end) = solver.solve_stage(stage, state).unwrap();
        assert!(stage.evaluate(&end));
        assert!(no_face_twice_in_a_row(&alg));
        assert!(alg.to_string().split_whitespace().all(|w| {
            stage.moves().iter().any(|m| m.to_string() == w)
        }));
        parts.push(alg.to_string());
        state = end;
    }
    assert_eq!(parts, ["", "U R U' R", "", "R2"]);
    assert_eq!(state, Permutation::id());
    let (whole, _) = solver.solve(&cube).unwrap();
    assert_eq!(whole.to_string(), "U R U' R R2");
}

struct Never;

impl Goal for Never {
    fn evaluate(&self, _state: &Permutation) -> bool {
        false
    }
}

struct MisplacedEdges;

impl Heuristic for MisplacedEdges {
    fn evaluate(&self, state: &Permutation) -> usize {
        (0..12).filter(|&i| state.ep[i] != i).count()
    }
}

fn pass(
    state: Permutation,
    moves: &Vec<Move>,
    goal: &impl Goal,
    heuristic: &impl Heuristic,
    before: &str,
    depth: usize,
    threshold: u16,
) -> (SearchResult, String) {
    let mut alg = Algorithm::from_str(before).unwrap();
    let res = Solver::search_inner(state, moves, goal, heuristic, &mut alg, depth, threshold);
    (res, alg.to_string())
}

#[test]
fn a_state_beyond_the_threshold_reports_its_depth_plus_its_estimate() {
    let moves = Move::moves_list();
    let solved = Permutation::id();
    let goal = Stage::Finish;
    assert_eq!(
        pass(solved, &moves, &goal, &UnitHeuristic, "", 0, 0),
        (SearchResult::UpperBound(1), String::new())
    );
    assert_eq!(
        pass(solved, &moves, &goal, &UnitHeuristic, "R U", 5, 3),
        (SearchResult::UpperBound(6), "R U".to_string())
    );
    let state = scrambled("R U").state;
    assert_eq!(
        pass(state, &moves, &goal, &MisplacedEdges, "", 0, 6),
        (SearchResult::UpperBound(7), String::new())
    );
    assert_eq!(
        pass(state, &moves, &goal, &MisplacedEdges, "F", 2, 8),
        (SearchResult::UpperBound(9), "F".to_string())
    );
    assert_eq!(
        pass(solved, &moves, &goal, &UnitHeuristic, "", usize::MAX, 9),
        (SearchResult::UpperBound(usize::MAX), String::new())
    );
    assert_eq!(
        pass(state, &moves, &goal, &MisplacedEdges, "", usize::MAX - 3, u16::MAX),
        (SearchResult::UpperBound(usize::MAX), String::new())
    );
}

#[test]
fn a_state_within_the_threshold_that_meets_the_goal_ends_the_pass() {
    let moves = Move::moves_list();
    let solved = Permutation::id();
    assert_eq!(
        pass(solved, &moves, &Stage::Finish, &UnitHeuristic, "", 0, 1),
        (SearchResult::Success(solved), String::new())
    );
    assert_eq!(
        pass(solved, &moves, &Stage::Finish, &UnitHeuristic, "L D", 2, 3),
        (SearchResult::Success(solved), "L D".to_string())
    );
}

#[test]
fn a_pass_reports_the_least_bound_of_the_states_it_cut_off() {
    let moves = Move::moves_list();
    let solved = Permutation::id();
    assert_eq!(
        pass(solved, &moves, &Never, &MisplacedEdges, "", 0, 0),
        (SearchResult::UpperBound(5), String::new())
    );
    let state = scrambled("F2").state;
    for (threshold, bound) in [(3, 4), (4, 5), (5, 6), (6, 8)] {
        assert_eq!(
            pass(state, &moves, &Never, &MisplacedEdges, "", 0, threshold),
            (SearchResult::UpperBound(bound), String::new())
        );
    }
    let state = scrambled("R U").state;
    for (threshold, bound) in [(6, 7), (7, 8), (8, 9)] {
        assert_eq!(
            pass(state, &moves, &Never, &MisplacedEdges, "", 0, threshold),
            (SearchResult::UpperBound(bound), String::new())
        );
    }
    for (threshold, bound) in [(0, 1), (1, 2), (2, 3)] {
        assert_eq!(
            pass(state, &moves, &Stage::Finish, &UnitHeuristic, "", 0, threshold),
            (SearchResult::UpperBound(bound), String::new())
        );
    }
    assert_eq!(
        pass(state, &moves, &Stage::Finish, &MisplacedCorners, "", 0, 1),
        (SearchResult::UpperBound(2), String::new())
    );
}

#[test]
fn a_pass_that_cut_nothing_off_reports_no_bound() {
    let only_u: Vec<Move> = Move::moves_list().into_iter().take(3).collect();
    let state = scrambled("R").state;
    assert_eq!(
        pass(state, &only_u, &Stage::Finish, &UnitHeuristic, "", 0, 3),
        (SearchResult::Failure, String::new())
    );
    assert_eq!(
        pass(state, &only_u, &Stage::Finish, &UnitHeuristic, "", 0, 1),
        (SearchResult::UpperBound(2), String::new())
    );
    assert_eq!(
        pass(state, &Vec::new(), &Stage::Finish, &UnitHeuristic, "", 0, 3),
        (SearchResult::Failure, String::new())
    );
    let solved = Permutation::id();
    for threshold in 0..5 {
        assert_eq!(
            pass(solved, &only_u, &Never, &MisplacedEdges, "", 0, threshold),
            (SearchResult::UpperBound(5), String::new())
        );
    }
    assert_eq!(
        pass(solved, &only_u, &Never, &MisplacedEdges, "", 0, 5),
        (SearchResult::Failure, String::new())
    );
    let u_and_d: Vec<Move> = Move::moves_list().into_iter().take(6).collect();
    assert_eq!(
        pass(state, &u_and_d, &Stage::Finish, &UnitHeuristic, "", 0, 3),
        (SearchResult::UpperBound(4), String::new())
    );
}

#[test]
fn a_pass_starts_from_the_moves_that_led_to_its_state() {
    let moves = Move::moves_list();
    let state = scrambled("R U").state;
    let goal = Stage::Finish;
    assert_eq!(
        pass(state, &moves, &goal, &UnitHeuristic, "", 0, 3),
        (SearchResult::Success(Permutation::id()), "U' R'".to_string())
    );
    assert_eq!(
        pass(state, &moves, &goal, &UnitHeuristic, "F", 0, 3),
        (SearchResult::Success(Permutation::id()), "F U' R'".to_string())
    );
    assert_eq!(
        pass(state, &moves, &goal, &UnitHeuristic, "U", 0, 3),
        (SearchResult::UpperBound(4), "U".to_string())
    );
    assert_eq!(
        pass(state, &moves, &goal, &UnitHeuristic, "U", 0, 4),
        (SearchResult::UpperBound(5), "U".to_string())
    );
    assert_eq!(
        pass(state, &moves, &goal, &UnitHeuristic, "F", 1, 3),
        (SearchResult::UpperBound(4), "F".to_string())
    );
    assert_eq!(
        pass(state, &moves, &goal, &UnitHeuristic, "F", 1, 4),
        (SearchResult::Success(Permutation::id()), "F U' R'".to_string())
    );
}

#[test]
fn the_stages_run_in_one_order() {
    let mut order = vec![Stage::first()];
    while let Some(later) = order.last().unwrap().next() {
        order.push(later);
    }
    assert_eq!(
        order,
        [
            Stage::EdgeOrientation,
            Stage::DominoReduction,
            Stage::HalfTurn,
            Stage::Finish,
        ]
    );
}

#[test]
fn every_limit_is_a_limit() {
    let cube = scrambled("R U");
    let moves = Move::moves_list();
    let (alg, _) =
        Solver::search(cube.state, &moves, &Stage::Finish, &UnitHeuristic, u16::MAX).unwrap();
    assert_eq!(alg.to_string(), "U' R'");
    assert!(Solver::with_limit(u16::MAX).solve(&Cube::new()).is_some());
    assert_eq!(DEFAULT_LIMIT, 20);
}
