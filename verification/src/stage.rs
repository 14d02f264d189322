//! The four stages of the solver: what each aims at, which moves it may
//! use, and why a later stage never undoes an earlier one.

use crate::algorithm::{lemma_move_permutation, run, Move, MoveBase, Turn};
use crate::permutation::{
    is_generator, lemma_compose_wf, lemma_identity, lemma_quarter_turn_order, CornerLoc, EdgeLoc,
    Permutation,
};
use crate::solver::{Goal, Heuristic};
use crate::table::{group_table_index, lemma_each12, lemma_each8};
use vstd::prelude::*;

verus! {

broadcast use group_table_index;

/// Every edge is unflipped.
pub open spec fn edges_oriented(state: Permutation) -> bool {
    forall|i: int| 0 <= i < 12 ==> #[trigger] state.eo[i] == 0
}

/// Every corner is untwisted.
pub open spec fn corners_oriented(state: Permutation) -> bool {
    forall|i: int| 0 <= i < 8 ==> #[trigger] state.co[i] == 0
}

/// The four belt slots hold the four belt edges, in some order.
pub open spec fn belt_confined(state: Permutation) -> bool {
    forall|i: int|
        0 <= i < 12 && EdgeLoc::is_belt(i) ==> EdgeLoc::is_belt(#[trigger] state.ep[i] as int)
}

/// Every piece sits in a slot of the half-turn class of its home.
pub open spec fn class_consistent(state: Permutation) -> bool {
    &&& forall|i: int|
        0 <= i < 8 ==> CornerLoc::class_of(#[trigger] state.cp[i] as int) == CornerLoc::class_of(i)
    &&& forall|i: int|
        0 <= i < 12 ==> EdgeLoc::class_of(#[trigger] state.ep[i] as int) == EdgeLoc::class_of(i)
}

/// The stages, in the order in which they run.
#[derive(Clone, Copy, Debug, PartialEq, Eq, Structural)]
pub enum Stage {
    /// Unflip every edge.
    EdgeOrientation,
    /// Untwist every corner and bring the belt edges into the belt.
    DominoReduction,
    /// Bring every piece into the half-turn class of its home.
    HalfTurn,
    /// Solve the cube.
    Finish,
}

impl Stage {
    /// The states that the stage aims at.
    pub open spec fn goal(self, state: Permutation) -> bool {
        match self {
            Stage::EdgeOrientation => edges_oriented(state),
            Stage::DominoReduction => corners_oriented(state) && belt_confined(state),
            Stage::HalfTurn => class_consistent(state),
            Stage::Finish => state == Permutation::id(),
        }
    }

    /// Position of the stage in the order in which the stages run.
    pub open spec fn rank(self) -> int {
        match self {
            Stage::EdgeOrientation => 0,
            Stage::DominoReduction => 1,
            Stage::HalfTurn => 2,
            Stage::Finish => 3,
        }
    }

    /// The stage that runs after this one, if there is one.
    pub open spec fn spec_next(self) -> Option<Stage> {
        match self {
            Stage::EdgeOrientation => Some(Stage::DominoReduction),
            Stage::DominoReduction => Some(Stage::HalfTurn),
            Stage::HalfTurn => Some(Stage::Finish),
            Stage::Finish => None,
        }
    }

    /// The stage that runs first.
    pub fn first() -> (res: Stage)
        ensures
            res == Stage::EdgeOrientation,
            res.rank() == 0,
    {
        Stage::EdgeOrientation
    }

    /// The stage that runs after this one, if there is one.
    #[verifier::when_used_as_spec(spec_next)]
    pub fn next(self) -> (res: Option<Stage>)
        ensures
            res == self.spec_next(),
            res matches Some(later) ==> later.rank() == self.rank() + 1,
            res is None <==> self == Stage::Finish,
    {
        match self {
            Stage::EdgeOrientation => Some(Stage::DominoReduction),
            Stage::DominoReduction => Some(Stage::HalfTurn),
            Stage::HalfTurn => Some(Stage::Finish),
            Stage::Finish => None,
        }
    }

    /// The moves that the stage may use: each stage keeps those moves of
    /// the stage before it that cannot undo what that stage reached.
    pub open spec fn spec_admits(self, mov: Move) -> bool {
        match self {
            Stage::EdgeOrientation => true,
            Stage::DominoReduction => mov.keeps_eo(),
            Stage::HalfTurn => mov.keeps_eo() && mov.keeps_domino(),
            Stage::Finish => mov.keeps_eo() && mov.keeps_domino() && mov.is_halfturn(),
        }
    }

    /// The moves of the stage, in catalog order.
    pub open spec fn move_set(self) -> Seq<Move> {
        Move::catalog().filter(|mov: Move| self.spec_admits(mov))
    }

    /// Whether the stage may use `mov`.
    #[verifier::when_used_as_spec(spec_admits)]
    pub fn admits(self, mov: Move) -> (res: bool)
        ensures
            res == self.spec_admits(mov),
    {
        match self {
            Stage::EdgeOrientation => true,
            Stage::DominoReduction => mov.keeps_eo(),
            Stage::HalfTurn => mov.keeps_eo() && mov.keeps_domino(),
            Stage::Finish => mov.keeps_eo() && mov.keeps_domino() && mov.is_halfturn(),
        }
    }

    /// The moves of the stage, in catalog order.
    pub fn moves(self) -> (res: Vec<Move>)
        ensures
            res@ == self.move_set(),
    {
        let all = Move::moves_list();
        let ghost admitted = |mov: Move| self.spec_admits(mov);
        let mut res: Vec<Move> = Vec::new();
        let mut i: usize = 0;
        while i < all.len()
            invariant
                all@ == Move::catalog(),
                admitted == |mov: Move| self.spec_admits(mov),
                i <= all.len(),
                res@ == all@.take(i as int).filter(admitted),
            decreases all.len() - i,
        {
            proof {
                reveal(Seq::filter);
                assert(all@.take(i + 1).drop_last() =~= all@.take(i as int));
            }
            if self.admits(all[i]) {
                res.push(all[i]);
            }
            i += 1;
        }
        assert(all@.take(all@.len() as int) =~= all@);
        res
    }
}

impl Goal for Stage {
    open spec fn holds(&self, state: Permutation) -> bool {
        self.goal(state)
    }

    fn evaluate(&self, state: &Permutation) -> (res: bool) {
        match self {
            Stage::EdgeOrientation => all_edges_oriented(state),
            Stage::DominoReduction => all_corners_oriented(state) && is_belt_confined(state),
            Stage::HalfTurn => is_class_consistent(state),
            Stage::Finish => *state == Permutation::id(),
        }
    }
}

/// The estimate that counts one move for every state.
pub struct UnitHeuristic;

impl Heuristic for UnitHeuristic {
    open spec fn estimate(&self, state: Permutation) -> nat {
        1
    }

    fn evaluate(&self, state: &Permutation) -> (res: usize) {
        1
    }
}

/// Decides whether every edge is unflipped.
fn all_edges_oriented(state: &Permutation) -> (res: bool)
    ensures
        res == edges_oriented(*state),
{
    let mut res = true;
    for i in 0..12
        invariant
            res <==> forall|k: int| 0 <= k < i ==> #[trigger] state.eo[k] == 0,
    {
        if state.eo[i] != 0 {
            res = false;
        }
    }
    res
}

/// Decides whether every corner is untwisted.
fn all_corners_oriented(state: &Permutation) -> (res: bool)
    ensures
        res == corners_oriented(*state),
{
    let mut res = true;
    for i in 0..8
        invariant
            res <==> forall|k: int| 0 <= k < i ==> #[trigger] state.co[k] == 0,
    {
        if state.co[i] != 0 {
            res = false;
        }
    }
    res
}

/// Decides whether the belt slots hold the belt edges.
fn is_belt_confined(state: &Permutation) -> (res: bool)
    ensures
        res == belt_confined(*state),
{
    let belt: [usize; 4] = [
        EdgeLoc::BR.index(),
        EdgeLoc::FR.index(),
        EdgeLoc::FL.index(),
        EdgeLoc::BL.index(),
    ];
    let mut res = true;
    for i in 0..4
        invariant
            belt@ == seq![4usize, 5, 6, 7],
            res <==> forall|k: int|
                4 <= k < 4 + i ==> EdgeLoc::is_belt(#[trigger] state.ep[k] as int),
    {
        let piece = state.ep[belt[i]];
        assert(belt[i as int] == 4 + i);
        let mut inside = false;
        for j in 0..4
            invariant
                belt@ == seq![4usize, 5, 6, 7],
                inside <==> 4 <= piece < 4 + j,
        {
            if belt[j] == piece {
                inside = true;
            }
        }
        if !inside {
            res = false;
        }
    }
    res
}

/// Decides whether every piece sits in a slot of the class of its home.
fn is_class_consistent(state: &Permutation) -> (res: bool)
    requires
        state.wf(),
    ensures
        res == class_consistent(*state),
{
    let mut res = true;
    for i in 0..8
        invariant
            state.wf(),
            res <==> forall|k: int|
                0 <= k < i ==> CornerLoc::class_of(#[trigger] state.cp[k] as int)
                    == CornerLoc::class_of(k),
    {
        let slot = CornerLoc::from_usize(i);
        let home = CornerLoc::from_usize(state.cp[i]);
        match (slot, home) {
            (Ok(slot), Ok(home)) => {
                if slot.ht_class() != home.ht_class() {
                    res = false;
                }
            },
            _ => {
                res = false;
            },
        }
    }
    let ghost corners = res;
    for i in 0..12
        invariant
            state.wf(),
            corners <==> forall|k: int|
                0 <= k < 8 ==> CornerLoc::class_of(#[trigger] state.cp[k] as int)
                    == CornerLoc::class_of(k),
            res <==> corners && forall|k: int|
                0 <= k < i ==> EdgeLoc::class_of(#[trigger] state.ep[k] as int)
                    == EdgeLoc::class_of(k),
    {
        let slot = EdgeLoc::from_usize(i);
        let home = EdgeLoc::from_usize(state.ep[i]);
        match (slot, home) {
            (Ok(slot), Ok(home)) => {
                if slot.ht_class() != home.ht_class() {
                    res = false;
                }
            },
            _ => {
                res = false;
            },
        }
    }
    res
}

/// The solved cube meets the goal of every stage.
pub proof fn lemma_solved_meets_goals()
    ensures
        forall|stage: Stage| #[trigger] stage.goal(Permutation::id()),
{
    let solved = Permutation::id();
    assert(edges_oriented(solved));
    assert(corners_oriented(solved));
    assert(belt_confined(solved));
    assert(class_consistent(solved));
}

/// Each stage uses fewer moves than the stage before it: whatever a later
/// stage admits an earlier one admits too, and some move it does not.
pub proof fn lemma_moves_shrink(earlier: Stage, later: Stage)
    requires
        earlier.rank() < later.rank(),
    ensures
        forall|mov: Move| #[trigger] later.admits(mov) ==> earlier.admits(mov),
        exists|mov: Move| #[trigger] earlier.admits(mov) && !later.admits(mov),
{
    let quarter_f = Move { face: MoveBase::F, turn: Turn::Clockwise };
    let quarter_r = Move { face: MoveBase::R, turn: Turn::Clockwise };
    let quarter_u = Move { face: MoveBase::U, turn: Turn::Clockwise };
    match later {
        Stage::EdgeOrientation => {},
        Stage::DominoReduction => {
            assert(earlier.admits(quarter_f) && !later.admits(quarter_f));
        },
        Stage::HalfTurn => {
            if earlier == Stage::EdgeOrientation {
                assert(earlier.admits(quarter_f) && !later.admits(quarter_f));
            } else {
                assert(earlier.admits(quarter_r) && !later.admits(quarter_r));
            }
        },
        Stage::Finish => {
            assert(earlier.admits(quarter_u) && !later.admits(quarter_u));
        },
    }
}

/// The states that meet a stage's goal are closed under composition.
pub proof fn lemma_goal_closed(stage: Stage, a: Permutation, b: Permutation)
    requires
        a.wf(),
        b.wf(),
        stage.goal(a),
        stage.goal(b),
    ensures
        stage.goal(a.compose(b)),
{
    let c = a.compose(b);
    match stage {
        Stage::EdgeOrientation => {
            assert forall|i: int| 0 <= i < 12 implies #[trigger] c.eo[i] == 0 by {
                assert(b.eo[i] == 0);
                assert(a.eo[b.ep[i] as int] == 0);
            }
        },
        Stage::DominoReduction => {
            assert forall|i: int| 0 <= i < 8 implies #[trigger] c.co[i] == 0 by {
                assert(b.co[i] == 0);
                assert(a.co[b.cp[i] as int] == 0);
            }
            assert forall|i: int| 0 <= i < 12 && EdgeLoc::is_belt(i) implies EdgeLoc::is_belt(
                #[trigger] c.ep[i] as int,
            ) by {
                assert(EdgeLoc::is_belt(b.ep[i] as int));
                assert(EdgeLoc::is_belt(a.ep[b.ep[i] as int] as int));
            }
        },
        Stage::HalfTurn => {
            assert forall|i: int| 0 <= i < 8 implies CornerLoc::class_of(
                #[trigger] c.cp[i] as int,
            ) == CornerLoc::class_of(i) by {
                assert(CornerLoc::class_of(b.cp[i] as int) == CornerLoc::class_of(i));
                assert(CornerLoc::class_of(a.cp[b.cp[i] as int] as int) == CornerLoc::class_of(
                    b.cp[i] as int,
                ));
            }
            assert forall|i: int| 0 <= i < 12 implies EdgeLoc::class_of(#[trigger] c.ep[i] as int)
                == EdgeLoc::class_of(i) by {
                assert(EdgeLoc::class_of(b.ep[i] as int) == EdgeLoc::class_of(i));
                assert(EdgeLoc::class_of(a.ep[b.ep[i] as int] as int) == EdgeLoc::class_of(
                    b.ep[i] as int,
                ));
            }
        },
        Stage::Finish => {
            lemma_identity(a);
        },
    }
}

/// What the quarter turns keep: those of U, D, L and R flip no edge, and
/// those of U and D twist no corner and leave the belt in place.
pub proof fn lemma_quarter_turn_goals(face: MoveBase)
    ensures
        face != MoveBase::F && face != MoveBase::B ==> Stage::EdgeOrientation.goal(
            face.permutation(),
        ),
        face == MoveBase::U || face == MoveBase::D ==> Stage::DominoReduction.goal(
            face.permutation(),
        ),
{
    let g = face.permutation();
    let unflipped = |i: int| g.eo[i] == 0;
    let untwisted = |i: int| g.co[i] == 0;
    let belt = |i: int| EdgeLoc::is_belt(i) ==> EdgeLoc::is_belt(g.ep[i] as int);
    match face {
        MoveBase::U => {
            lemma_each12(unflipped);
            lemma_each8(untwisted);
            lemma_each12(belt);
        },
        MoveBase::D => {
            lemma_each12(unflipped);
            lemma_each8(untwisted);
            lemma_each12(belt);
        },
        MoveBase::L => {
            lemma_each12(unflipped);
        },
        MoveBase::R => {
            lemma_each12(unflipped);
        },
        MoveBase::F => {},
        MoveBase::B => {},
    }
    if face != MoveBase::F && face != MoveBase::B {
        assert forall|i: int| 0 <= i < 12 implies #[trigger] g.eo[i] == 0 by {
            assert(unflipped(i));
        }
    }
    if face == MoveBase::U || face == MoveBase::D {
        assert forall|i: int| 0 <= i < 8 implies #[trigger] g.co[i] == 0 by {
            assert(untwisted(i));
        }
        assert forall|i: int| 0 <= i < 12 && EdgeLoc::is_belt(i) implies EdgeLoc::is_belt(
            #[trigger] g.ep[i] as int,
        ) by {
            assert(belt(i));
        }
    }
}

/// What the half turns keep: each of them meets the goal of every stage
/// but the last.
pub proof fn lemma_half_turn_goals(face: MoveBase)
    ensures
        Stage::EdgeOrientation.goal(face.permutation().compose(face.permutation())),
        Stage::DominoReduction.goal(face.permutation().compose(face.permutation())),
        Stage::HalfTurn.goal(face.permutation().compose(face.permutation())),
{
    let g = face.permutation();
    let h = g.compose(g);
    let corners = |i: int|
        h.co[i] == 0 && CornerLoc::class_of(h.cp[i] as int) == CornerLoc::class_of(i);
    let edges = |i: int|
        h.eo[i] == 0 && EdgeLoc::class_of(h.ep[i] as int) == EdgeLoc::class_of(i);
    // The arms are alike on purpose: in each the face is known, and the
    // entries of its half turn are computed from the tables of that face.
    match face {
        MoveBase::U => {
            lemma_each8(corners);
            lemma_each12(edges);
        },
        MoveBase::D => {
            lemma_each8(corners);
            lemma_each12(edges);
        },
        MoveBase::L => {
            lemma_each8(corners);
            lemma_each12(edges);
        },
        MoveBase::R => {
            lemma_each8(corners);
            lemma_each12(edges);
        },
        MoveBase::F => {
            lemma_each8(corners);
            lemma_each12(edges);
        },
        MoveBase::B => {
            lemma_each8(corners);
            lemma_each12(edges);
        },
    }
    assert forall|i: int| 0 <= i < 8 implies #[trigger] h.co[i] == 0 && CornerLoc::class_of(
        #[trigger] h.cp[i] as int,
    ) == CornerLoc::class_of(i) by {
        assert(corners(i));
    }
    assert forall|i: int| 0 <= i < 12 implies #[trigger] h.eo[i] == 0 && EdgeLoc::class_of(
        #[trigger] h.ep[i] as int,
    ) == EdgeLoc::class_of(i) by {
        assert(edges(i));
    }
}

/// The moves of a stage meet the goals of the stages before it: seen as
/// states, they lie in the set that those stages aim at.
pub proof fn lemma_move_meets_goal(done: Stage, later: Stage, mov: Move)
    requires
        done.rank() < later.rank(),
        later.admits(mov),
    ensures
        done.goal(mov.permutation()),
{
    let g = mov.face.permutation();
    let h = g.compose(g);
    assert(is_generator(g));
    lemma_move_permutation(mov);
    lemma_quarter_turn_order(g);
    lemma_compose_wf(g, g);
    lemma_half_turn_goals(mov.face);
    lemma_quarter_turn_goals(mov.face);
    if mov.turn == Turn::Counter {
        lemma_goal_closed(done, h, g);
    }
}

/// A later stage never undoes an earlier one: from a state that meets the
/// goal of a stage, every move of a later stage leads to a state that
/// meets it too.
pub proof fn lemma_goal_kept(done: Stage, later: Stage, state: Permutation, mov: Move)
    requires
        done.rank() < later.rank(),
        later.admits(mov),
        state.wf(),
        done.goal(state),
    ensures
        done.goal(state.compose(mov.permutation())),
{
    lemma_move_meets_goal(done, later, mov);
    lemma_move_permutation(mov);
    lemma_goal_closed(done, state, mov.permutation());
}

/// A later stage never undoes an earlier one, however long it runs: from
/// a state that meets the goal of a stage, every sequence of moves of a
/// later stage leads to a state that meets it too.
pub proof fn lemma_goal_kept_along(done: Stage, later: Stage, state: Permutation, path: Seq<Move>)
    requires
        done.rank() < later.rank(),
        forall|i: int| 0 <= i < path.len() ==> later.admits(#[trigger] path[i]),
        state.wf(),
        done.goal(state),
    ensures
        done.goal(run(path, state)),
    decreases path.len(),
{
    if path.len() > 0 {
        let next = state.compose(path[0].permutation());
        lemma_goal_kept(done, later, state, path[0]);
        lemma_move_permutation(path[0]);
        lemma_compose_wf(state, path[0].permutation());
        assert forall|i: int| 0 <= i < path.drop_first().len() implies later.admits(
            #[trigger] path.drop_first()[i],
        ) by {
            assert(path.drop_first()[i] == path[i + 1]);
        }
        lemma_goal_kept_along(done, later, next, path.drop_first());
    }
}

} // verus!
