//! The staged, bounded search that solves a cube.

use crate::algorithm::{lemma_run_concat, run, Algorithm, Move};
use crate::cube::Cube;
use crate::permutation::Permutation;
use crate::stage::{lemma_goal_kept_along, lemma_solved_meets_goals, Stage, UnitHeuristic};
use vstd::prelude::*;

verus! {

/// What a search aims at: a predicate on states.
pub trait Goal {
    /// The states that meet the goal. An implementation states its own;
    /// where it states none, every state meets the goal.
    open spec fn holds(&self, state: Permutation) -> bool {
        true
    }

    /// Decides whether `state` meets the goal.
    fn evaluate(&self, state: &Permutation) -> (res: bool)
        requires
            state.wf(),
        ensures
            res == self.holds(*state),
    ;
}

/// An estimate of how many moves a state is away from the goal.
pub trait Heuristic {
    /// The estimate for `state`. An implementation states its own; where
    /// it states none, the estimate is 0.
    open spec fn estimate(&self, state: Permutation) -> nat {
        0
    }

    /// Computes the estimate for `state`.
    fn evaluate(&self, state: &Permutation) -> (res: usize)
        requires
            state.wf(),
        ensures
            res == self.estimate(*state),
    ;
}

/// The last move of a sequence, if it has one.
pub open spec fn last_of(path: Seq<Move>) -> Option<Move> {
    if path.len() > 0 {
        Some(path.last())
    } else {
        None
    }
}

/// The paths that the search walks: every move is taken from `moves`, no
/// two neighbours turn the same face, and the first move does not turn the
/// face of `last`, the move made just before.
pub open spec fn admissible(moves: Seq<Move>, last: Option<Move>, path: Seq<Move>) -> bool {
    &&& forall|i: int| 0 <= i < path.len() ==> moves.contains(#[trigger] path[i])
    &&& forall|i: int| 0 <= i < path.len() - 1 ==> !(#[trigger] path[i]).is_similar(path[i + 1])
    &&& last matches Some(prev) ==> path.len() > 0 ==> !path[0].is_similar(prev)
}

/// `path` is admissible and leads from `state` to a state that meets the
/// goal.
pub open spec fn reaches<G: Goal>(
    goal: &G,
    moves: Seq<Move>,
    last: Option<Move>,
    path: Seq<Move>,
    state: Permutation,
) -> bool {
    admissible(moves, last, path) && goal.holds(run(path, state))
}

/// The cost of walking `path` from `state`, which lies `depth` moves below
/// the root: the largest value, over the states on the way, of the moves
/// made so far plus the estimate of what is left.
pub open spec fn cost<H: Heuristic>(
    heuristic: &H,
    path: Seq<Move>,
    state: Permutation,
    depth: nat,
) -> nat
    decreases path.len(),
{
    let here = depth + heuristic.estimate(state);
    if path.len() == 0 {
        here
    } else {
        let below = cost(
            heuristic,
            path.drop_first(),
            state.compose(path[0].permutation()),
            depth + 1,
        );
        if here >= below {
            here
        } else {
            below
        }
    }
}

/// An admissible path is one whose first move is allowed after `last` and
/// whose rest is admissible after that move.
pub proof fn lemma_admissible_step(moves: Seq<Move>, last: Option<Move>, path: Seq<Move>)
    requires
        path.len() > 0,
    ensures
        admissible(moves, last, path) <==> {
            &&& moves.contains(path[0])
            &&& last matches Some(prev) ==> !path[0].is_similar(prev)
            &&& admissible(moves, Some(path[0]), path.drop_first())
        },
{
    let rest = path.drop_first();
    if admissible(moves, last, path) {
        assert forall|i: int| 0 <= i < rest.len() implies moves.contains(#[trigger] rest[i]) by {
            assert(rest[i] == path[i + 1]);
        }
        assert forall|i: int| 0 <= i < rest.len() - 1 implies !(#[trigger] rest[i]).is_similar(
            rest[i + 1],
        ) by {
            assert(rest[i] == path[i + 1]);
            assert(rest[i + 1] == path[i + 2]);
        }
        if rest.len() > 0 {
            assert(rest[0] == path[1]);
            assert(!path[0].is_similar(path[1]));
        }
    }
    if moves.contains(path[0]) && (last matches Some(prev) ==> !path[0].is_similar(prev))
        && admissible(moves, Some(path[0]), rest) {
        assert forall|i: int| 0 <= i < path.len() implies moves.contains(#[trigger] path[i]) by {
            if i > 0 {
                assert(path[i] == rest[i - 1]);
            }
        }
        assert forall|i: int| 0 <= i < path.len() - 1 implies !(#[trigger] path[i]).is_similar(
            path[i + 1],
        ) by {
            assert(path[i + 1] == rest[i]);
            if i > 0 {
                assert(path[i] == rest[i - 1]);
            }
        }
    }
}

/// The first position of `mov` in `moves`, or their number if it is not
/// among them.
pub open spec fn first_index(moves: Seq<Move>, mov: Move) -> int
    decreases moves.len(),
{
    if moves.len() == 0 || moves[0] == mov {
        0
    } else {
        1 + first_index(moves.drop_first(), mov)
    }
}

/// The order in which the search comes upon paths: `a` is met no later
/// than `b` when `a` is the start of `b`, or when, at the first move in
/// which they differ, the move of `a` stands earlier in `moves`.
pub open spec fn precedes(moves: Seq<Move>, a: Seq<Move>, b: Seq<Move>) -> bool
    decreases a.len(),
{
    if a.len() == 0 {
        true
    } else if b.len() == 0 {
        false
    } else if a[0] == b[0] {
        precedes(moves, a.drop_first(), b.drop_first())
    } else {
        first_index(moves, a[0]) < first_index(moves, b[0])
    }
}

/// `path` is what the search finds: an admissible path to the goal such
/// that every other one costs more, or costs the same and is met no
/// earlier.
pub open spec fn is_first<G: Goal, H: Heuristic>(
    goal: &G,
    heuristic: &H,
    moves: Seq<Move>,
    state: Permutation,
    path: Seq<Move>,
) -> bool {
    &&& reaches(goal, moves, None, path, state)
    &&& forall|other: Seq<Move>| #[trigger]
        reaches(goal, moves, None, other, state) ==> {
            ||| cost(heuristic, path, state, 0) < cost(heuristic, other, state, 0)
            ||| cost(heuristic, path, state, 0) == cost(heuristic, other, state, 0) && precedes(
                moves,
                path,
                other,
            )
        }
}

/// What a search within `limit` returns: the path that is found first, if
/// its cost is within the limit.
pub open spec fn outcome<G: Goal, H: Heuristic>(
    goal: &G,
    heuristic: &H,
    moves: Seq<Move>,
    state: Permutation,
    limit: nat,
) -> Option<Seq<Move>> {
    if exists|path: Seq<Move>|
        is_first(goal, heuristic, moves, state, path) && cost(heuristic, path, state, 0)
            <= limit {
        Some(
            choose|path: Seq<Move>|
                is_first(goal, heuristic, moves, state, path) && cost(heuristic, path, state, 0)
                    <= limit,
        )
    } else {
        None
    }
}

/// The moves that solve the cube from `state`, stage by stage from `stage`
/// on: what the search of each stage returns from the state that the stage
/// before it left, or nothing if one of them returns nothing.
pub open spec fn solution(stage: Stage, state: Permutation, limit: nat) -> Option<Seq<Move>>
    decreases 4 - stage.rank(),
{
    match outcome(&stage, &UnitHeuristic, stage.move_set(), state, limit) {
        None => None,
        Some(path) => match stage.next() {
            None => Some(path),
            Some(later) => match solution(later, run(path, state), limit) {
                None => None,
                Some(rest) => Some(path + rest),
            },
        },
    }
}

/// Why the stages return nothing: one of them, from the state that the
/// stages before it left, has no admissible path to its goal of fewer than
/// `limit` moves.
pub open spec fn blocked(stage: Stage, state: Permutation, limit: nat) -> bool
    decreases 4 - stage.rank(),
{
    match outcome(&stage, &UnitHeuristic, stage.move_set(), state, limit) {
        None => forall|path: Seq<Move>| #[trigger]
            reaches(&stage, stage.move_set(), None, path, state) ==> path.len() >= limit,
        Some(path) => match stage.next() {
            None => false,
            Some(later) => blocked(later, run(path, state), limit),
        },
    }
}

/// A search returns the path that is found first, if that is within the
/// limit.
pub proof fn lemma_outcome_some<G: Goal, H: Heuristic>(
    goal: &G,
    heuristic: &H,
    moves: Seq<Move>,
    state: Permutation,
    limit: nat,
    path: Seq<Move>,
)
    requires
        is_first(goal, heuristic, moves, state, path),
        cost(heuristic, path, state, 0) <= limit,
    ensures
        outcome(goal, heuristic, moves, state, limit) == Some(path),
{
    let chosen = choose|p: Seq<Move>|
        is_first(goal, heuristic, moves, state, p) && cost(heuristic, p, state, 0) <= limit;
    lemma_first_unique(goal, heuristic, moves, state, chosen, path);
}

/// A search returns nothing if every path to the goal costs more than the
/// limit.
pub proof fn lemma_outcome_none<G: Goal, H: Heuristic>(
    goal: &G,
    heuristic: &H,
    moves: Seq<Move>,
    state: Permutation,
    limit: nat,
)
    requires
        forall|path: Seq<Move>| #[trigger]
            reaches(goal, moves, None, path, state) ==> cost(heuristic, path, state, 0) > limit,
    ensures
        outcome(goal, heuristic, moves, state, limit) is None,
{
}

/// With the unit estimate a path costs one more than the number of moves
/// from the root to its end.
pub proof fn lemma_unit_cost(path: Seq<Move>, state: Permutation, depth: nat)
    ensures
        cost(&UnitHeuristic, path, state, depth) == depth + path.len() + 1,
    decreases path.len(),
{
    if path.len() > 0 {
        lemma_unit_cost(path.drop_first(), state.compose(path[0].permutation()), depth + 1);
    }
}

/// At its goal a search returns at once: where the state it starts from
/// meets the goal and the estimate for it is within the limit, the search
/// returns the empty path.
pub proof fn lemma_outcome_at_goal<G: Goal, H: Heuristic>(
    goal: &G,
    heuristic: &H,
    moves: Seq<Move>,
    state: Permutation,
    limit: nat,
)
    requires
        goal.holds(state),
        heuristic.estimate(state) <= limit,
    ensures
        outcome(goal, heuristic, moves, state, limit) == Some(Seq::<Move>::empty()),
{
    let none = Seq::<Move>::empty();
    assert forall|other: Seq<Move>| #[trigger]
        reaches(goal, moves, None, other, state) implies cost(heuristic, none, state, 0) <= cost(
        heuristic,
        other,
        state,
        0,
    ) by {
        lemma_cost_step(heuristic, other, state, 0);
    }
    lemma_outcome_some(goal, heuristic, moves, state, limit, none);
}

/// A solved cube needs no moves: within a limit of 1 or more, the stages
/// together return the empty sequence.
pub proof fn lemma_solved_needs_no_moves(limit: nat)
    requires
        limit >= 1,
    ensures
        solution(Stage::EdgeOrientation, Permutation::id(), limit) == Some(Seq::<Move>::empty()),
{
    let none = Seq::<Move>::empty();
    let solved = Permutation::id();
    lemma_solved_meets_goals();
    lemma_outcome_at_goal(
        &Stage::EdgeOrientation,
        &UnitHeuristic,
        Stage::EdgeOrientation.move_set(),
        solved,
        limit,
    );
    lemma_outcome_at_goal(
        &Stage::DominoReduction,
        &UnitHeuristic,
        Stage::DominoReduction.move_set(),
        solved,
        limit,
    );
    lemma_outcome_at_goal(
        &Stage::HalfTurn,
        &UnitHeuristic,
        Stage::HalfTurn.move_set(),
        solved,
        limit,
    );
    lemma_outcome_at_goal(
        &Stage::Finish,
        &UnitHeuristic,
        Stage::Finish.move_set(),
        solved,
        limit,
    );
    assert(none + none =~= none);
    reveal_with_fuel(solution, 4);
}

/// The first position of a move holds the move, and no position before it
/// does.
pub proof fn lemma_first_index(moves: Seq<Move>, mov: Move, at: int)
    requires
        0 <= at < moves.len(),
        moves[at] == mov,
    ensures
        0 <= first_index(moves, mov) <= at,
        moves[first_index(moves, mov)] == mov,
        forall|i: int| 0 <= i < first_index(moves, mov) ==> moves[i] != mov,
    decreases moves.len(),
{
    if moves[0] != mov {
        let rest = moves.drop_first();
        lemma_first_index(rest, mov, at - 1);
        assert forall|i: int| 0 <= i < first_index(moves, mov) implies moves[i] != mov by {
            if i > 0 {
                assert(moves[i] == rest[i - 1]);
            }
        }
    }
}

/// Two paths that are each met no later than the other are one path.
pub proof fn lemma_precedes_antisymmetric(moves: Seq<Move>, a: Seq<Move>, b: Seq<Move>)
    requires
        precedes(moves, a, b),
        precedes(moves, b, a),
    ensures
        a == b,
    decreases a.len(),
{
    if a.len() == 0 || b.len() == 0 {
        assert(a =~= b);
    } else {
        lemma_precedes_antisymmetric(moves, a.drop_first(), b.drop_first());
        assert(a =~= seq![a[0]] + a.drop_first());
        assert(b =~= seq![b[0]] + b.drop_first());
    }
}

/// The search finds at most one path.
pub proof fn lemma_first_unique<G: Goal, H: Heuristic>(
    goal: &G,
    heuristic: &H,
    moves: Seq<Move>,
    state: Permutation,
    a: Seq<Move>,
    b: Seq<Move>,
)
    requires
        is_first(goal, heuristic, moves, state, a),
        is_first(goal, heuristic, moves, state, b),
    ensures
        a == b,
{
    assert(reaches(goal, moves, None, a, state));
    assert(reaches(goal, moves, None, b, state));
    lemma_precedes_antisymmetric(moves, a, b);
}

/// How one pass below a node ended.
#[derive(Clone, Copy, Debug, PartialEq)]
pub enum SearchResult {
    /// The goal was met in this state.
    Success(Permutation),
    /// The goal was not met and no state below was cut off.
    Failure,
    /// The goal was not met; of the states below that were cut off, this
    /// is the least depth plus estimate.
    UpperBound(usize),
}

/// What a pass that met the goal has found: the moves added to the buffer
/// lead from `state` to `end`, admissibly and within the threshold, and no
/// other such path is met earlier.
pub open spec fn found<G: Goal, H: Heuristic>(
    goal: &G,
    heuristic: &H,
    moves: Seq<Move>,
    before: Seq<Move>,
    after: Seq<Move>,
    state: Permutation,
    depth: nat,
    threshold: nat,
    end: Permutation,
) -> bool {
    let path = after.skip(before.len() as int);
    &&& before.len() <= after.len()
    &&& after.take(before.len() as int) == before
    &&& reaches(goal, moves, last_of(before), path, state)
    &&& end == run(path, state)
    &&& end.wf()
    &&& cost(heuristic, path, state, depth) <= threshold
    &&& depth + path.len() + heuristic.estimate(end) <= threshold
    &&& forall|other: Seq<Move>|
        within(goal, heuristic, moves, last_of(before), other, state, depth, threshold)
            ==> precedes(moves, path, other)
}

/// `path` leads from `state` to the goal, admissibly and at a cost within
/// the threshold.
pub open spec fn within<G: Goal, H: Heuristic>(
    goal: &G,
    heuristic: &H,
    moves: Seq<Move>,
    last: Option<Move>,
    path: Seq<Move>,
    state: Permutation,
    depth: nat,
    threshold: nat,
) -> bool {
    reaches(goal, moves, last, path, state) && cost(heuristic, path, state, depth) <= threshold
}

/// What a pass that did not meet the goal has shown: `bound`, if there is
/// one, is above the threshold and no admissible path to the goal costs
/// less; without a bound there is no such path at all.
pub open spec fn excluded<G: Goal, H: Heuristic>(
    goal: &G,
    heuristic: &H,
    moves: Seq<Move>,
    last: Option<Move>,
    state: Permutation,
    depth: nat,
    threshold: nat,
    bound: Option<usize>,
    path: Seq<Move>,
) -> bool {
    reaches(goal, moves, last, path, state) ==> {
        &&& bound matches Some(b)
        &&& b <= cost(heuristic, path, state, depth)
    }
}

/// A cost as a size: what is beyond the largest size counts as the
/// largest.
pub open spec fn capped(cost: nat) -> nat {
    if cost > usize::MAX {
        usize::MAX as nat
    } else {
        cost
    }
}

/// No two neighbours of `path` turn the same face.
pub open spec fn no_repeats(path: Seq<Move>) -> bool {
    forall|i: int| 0 <= i < path.len() - 1 ==> !(#[trigger] path[i]).is_similar(path[i + 1])
}

/// A pass below `state` walks `path` and cuts it off at its end: the path
/// is admissible, every state before its end is within the threshold and
/// misses the goal, and its end exceeds the threshold.
pub open spec fn cut_at<G: Goal, H: Heuristic>(
    goal: &G,
    heuristic: &H,
    moves: Seq<Move>,
    last: Option<Move>,
    path: Seq<Move>,
    state: Permutation,
    depth: nat,
    threshold: nat,
) -> bool {
    &&& admissible(moves, last, path)
    &&& forall|i: int|
        0 <= i < path.len() ==> {
            let on_the_way = #[trigger] run(path.take(i), state);
            &&& depth + i + heuristic.estimate(on_the_way) <= threshold
            &&& !goal.holds(on_the_way)
        }
    &&& depth + path.len() + heuristic.estimate(run(path, state)) > threshold
}

/// What the state at the end of `path` reports when it is cut off: its
/// depth plus its estimate, as a size.
pub open spec fn cut_cost<H: Heuristic>(
    heuristic: &H,
    path: Seq<Move>,
    state: Permutation,
    depth: nat,
) -> nat {
    capped(depth + path.len() + heuristic.estimate(run(path, state)))
}

/// `bound` is what a pass below `state` reports of the states it cut off:
/// the least of what they report, and nothing where none was cut off.
pub open spec fn least_cut<G: Goal, H: Heuristic>(
    goal: &G,
    heuristic: &H,
    moves: Seq<Move>,
    last: Option<Move>,
    state: Permutation,
    depth: nat,
    threshold: nat,
    bound: Option<usize>,
) -> bool {
    &&& forall|path: Seq<Move>| #[trigger]
        cut_at(goal, heuristic, moves, last, path, state, depth, threshold) ==> {
            &&& bound matches Some(least)
            &&& least <= cut_cost(heuristic, path, state, depth)
        }
    &&& bound matches Some(least) ==> exists|path: Seq<Move>| #[trigger]
        cut_at(goal, heuristic, moves, last, path, state, depth, threshold) && cut_cost(
            heuristic,
            path,
            state,
            depth,
        ) == least
}

/// A path is cut off at its end exactly when its first state is entered
/// and misses the goal, its first move is allowed there, and its rest is
/// cut off at its end from the next state. Both report the same.
pub proof fn lemma_cut_step<G: Goal, H: Heuristic>(
    goal: &G,
    heuristic: &H,
    moves: Seq<Move>,
    last: Option<Move>,
    path: Seq<Move>,
    state: Permutation,
    depth: nat,
    threshold: nat,
)
    requires
        path.len() > 0,
    ensures
        cut_at(goal, heuristic, moves, last, path, state, depth, threshold) <==> {
            &&& depth + heuristic.estimate(state) <= threshold
            &&& !goal.holds(state)
            &&& moves.contains(path[0])
            &&& last matches Some(prev) ==> !path[0].is_similar(prev)
            &&& cut_at(
                goal,
                heuristic,
                moves,
                Some(path[0]),
                path.drop_first(),
                state.compose(path[0].permutation()),
                depth + 1,
                threshold,
            )
        },
        cut_cost(heuristic, path, state, depth) == cut_cost(
            heuristic,
            path.drop_first(),
            state.compose(path[0].permutation()),
            depth + 1,
        ),
{
    let rest = path.drop_first();
    let next = state.compose(path[0].permutation());
    lemma_admissible_step(moves, last, path);
    assert(run(path.take(0), state) == state);
    assert forall|i: int| 0 <= i <= rest.len() implies run(path.take(i + 1), state) == run(
        rest.take(i),
        next,
    ) by {
        assert(path.take(i + 1).drop_first() =~= rest.take(i));
    }
    assert(path.take(path.len() as int) =~= path);
    assert(rest.take(rest.len() as int) =~= rest);
    if cut_at(goal, heuristic, moves, last, path, state, depth, threshold) {
        assert forall|i: int| 0 <= i < rest.len() implies {
            let on_the_way = #[trigger] run(rest.take(i), next);
            &&& depth + 1 + i + heuristic.estimate(on_the_way) <= threshold
            &&& !goal.holds(on_the_way)
        } by {
            assert(run(path.take(i + 1), state) == run(rest.take(i), next));
        }
    }
    if depth + heuristic.estimate(state) <= threshold && !goal.holds(state) && cut_at(
        goal,
        heuristic,
        moves,
        Some(path[0]),
        rest,
        next,
        depth + 1,
        threshold,
    ) {
        assert forall|i: int| 0 <= i < path.len() implies {
            let on_the_way = #[trigger] run(path.take(i), state);
            &&& depth + i + heuristic.estimate(on_the_way) <= threshold
            &&& !goal.holds(on_the_way)
        } by {
            if i > 0 {
                assert(run(path.take(i - 1 + 1), state) == run(rest.take(i - 1), next));
            }
        }
    }
}

/// A state that exceeds the threshold is cut off at once: the empty path
/// is the one path that is cut off below it.
pub proof fn lemma_cut_at_once<G: Goal, H: Heuristic>(
    goal: &G,
    heuristic: &H,
    moves: Seq<Move>,
    last: Option<Move>,
    state: Permutation,
    depth: nat,
    threshold: nat,
)
    requires
        depth + heuristic.estimate(state) > threshold,
    ensures
        capped(depth + heuristic.estimate(state)) <= usize::MAX,
        least_cut(
            goal,
            heuristic,
            moves,
            last,
            state,
            depth,
            threshold,
            Some(capped(depth + heuristic.estimate(state)) as usize),
        ),
{
    let none = Seq::<Move>::empty();
    assert(run(none, state) == state);
    assert(cut_at(goal, heuristic, moves, last, none, state, depth, threshold));
    assert forall|path: Seq<Move>| #[trigger]
        cut_at(goal, heuristic, moves, last, path, state, depth, threshold) implies path
        == none by {
        if path.len() > 0 {
            assert(run(path.take(0), state) == state);
        }
        assert(path =~= none);
    }
}

/// Where the face of the last move is not turned again, a path without
/// repeated faces stays one when an admissible path follows it.
pub proof fn lemma_no_repeats_after(moves: Seq<Move>, before: Seq<Move>, path: Seq<Move>)
    requires
        no_repeats(before),
        admissible(moves, last_of(before), path),
    ensures
        no_repeats(before + path),
{
    let whole = before + path;
    assert forall|i: int| 0 <= i < whole.len() - 1 implies !(#[trigger] whole[i]).is_similar(
        whole[i + 1],
    ) by {
        let n = before.len() as int;
        if i + 1 < n {
            assert(whole[i] == before[i] && whole[i + 1] == before[i + 1]);
        } else if i + 1 == n {
            assert(whole[i] == before.last() && whole[i + 1] == path[0]);
        } else {
            assert(whole[i] == path[i - n] && whole[i + 1] == path[i - n + 1]);
        }
    }
}

/// A path costs at least what its first state costs, and at least what
/// its rest costs from the next state.
proof fn lemma_cost_step<H: Heuristic>(
    heuristic: &H,
    path: Seq<Move>,
    state: Permutation,
    depth: nat,
)
    ensures
        cost(heuristic, path, state, depth) >= depth + heuristic.estimate(state),
        path.len() > 0 ==> cost(heuristic, path, state, depth) >= cost(
            heuristic,
            path.drop_first(),
            state.compose(path[0].permutation()),
            depth + 1,
        ),
{
}

/// What the pass below a child has shown of the paths from the child, it
/// has shown of the paths from the parent that begin with the move to the
/// child.
proof fn lemma_excluded_below<G: Goal, H: Heuristic>(
    goal: &G,
    heuristic: &H,
    moves: Seq<Move>,
    last: Option<Move>,
    state: Permutation,
    depth: nat,
    threshold: nat,
    below: Option<usize>,
    best: Option<usize>,
    path: Seq<Move>,
)
    requires
        path.len() > 0,
        excluded(
            goal,
            heuristic,
            moves,
            Some(path[0]),
            state.compose(path[0].permutation()),
            depth + 1,
            threshold,
            below,
            path.drop_first(),
        ),
        below matches Some(b) ==> best matches Some(least) && least <= b,
    ensures
        excluded(goal, heuristic, moves, last, state, depth, threshold, best, path),
{
    lemma_admissible_step(moves, last, path);
    lemma_cost_step(heuristic, path, state, depth);
}

/// A pass that met the goal below a child has met it below the parent.
proof fn lemma_found_below<G: Goal, H: Heuristic>(
    goal: &G,
    heuristic: &H,
    moves: Seq<Move>,
    before: Seq<Move>,
    after: Seq<Move>,
    state: Permutation,
    depth: nat,
    threshold: nat,
    mov: Move,
    at: int,
    end: Permutation,
)
    requires
        0 <= at < moves.len(),
        moves[at] == mov,
        last_of(before) matches Some(prev) ==> !mov.is_similar(prev),
        depth + heuristic.estimate(state) <= threshold,
        !goal.holds(state),
        forall|other: Seq<Move>|
            other.len() > 0 && moves.take(at).contains(other[0]) ==> !within(
                goal,
                heuristic,
                moves,
                last_of(before),
                other,
                state,
                depth,
                threshold,
            ),
        found(
            goal,
            heuristic,
            moves,
            before.push(mov),
            after,
            state.compose(mov.permutation()),
            depth + 1,
            threshold,
            end,
        ),
    ensures
        found(goal, heuristic, moves, before, after, state, depth, threshold, end),
{
    let n = before.len() as int;
    let path = after.skip(n);
    let rest = after.skip(n + 1);
    assert(after.take(n) =~= before) by {
        assert(after.take(n + 1) == before.push(mov));
        assert forall|i: int| 0 <= i < n implies after.take(n)[i] == before[i] by {
            assert(after.take(n + 1)[i] == before.push(mov)[i]);
        }
    }
    assert(path[0] == mov) by {
        assert(after.take(n + 1)[n] == before.push(mov)[n]);
    }
    assert(path.drop_first() =~= rest);
    assert(last_of(before.push(mov)) == Some(mov));
    lemma_admissible_step(moves, last_of(before), path);
    assert forall|other: Seq<Move>|
        within(
            goal,
            heuristic,
            moves,
            last_of(before),
            other,
            state,
            depth,
            threshold,
        ) implies precedes(moves, path, other) by {
        assert(other.len() > 0);
        lemma_admissible_step(moves, last_of(before), other);
        lemma_cost_step(heuristic, other, state, depth);
        if other[0] == mov {
            assert(within(
                goal,
                heuristic,
                moves,
                Some(mov),
                other.drop_first(),
                state.compose(mov.permutation()),
                depth + 1,
                threshold,
            ));
            assert(precedes(moves, rest, other.drop_first()));
        } else {
            let i = choose|i: int| 0 <= i < moves.len() && moves[i] == other[0];
            lemma_first_index(moves, other[0], i);
            lemma_first_index(moves, mov, at);
            let first = first_index(moves, other[0]);
            if first < at {
                assert(moves.take(at)[first] == other[0]);
                assert(moves.take(at).contains(other[0]));
            }
            assert(first_index(moves, mov) < first);
            assert(path[0] != other[0]);
        }
    }
}

/// The sum of two sizes, or the largest size if the sum is none.
fn saturating_sum(a: usize, b: usize) -> (sum: usize)
    ensures
        sum == capped(a as nat + b as nat),
{
    if b > usize::MAX - a {
        usize::MAX
    } else {
        a + b
    }
}

/// The cost beyond which a solver gives a stage up, unless it is made
/// with another.
pub const DEFAULT_LIMIT: u16 = 20;

/// The staged solver.
pub struct Solver {
    limit: u16,
}

impl Solver {
    /// The cost beyond which this solver gives a stage up.
    pub closed spec fn limit(self) -> nat {
        self.limit as nat
    }

    /// A solver with the default limit.
    pub fn new() -> (res: Solver)
        ensures
            res.limit() == DEFAULT_LIMIT,
    {
        Solver { limit: DEFAULT_LIMIT }
    }

    /// A solver that gives a stage up beyond the cost `limit`.
    pub fn with_limit(limit: u16) -> (res: Solver)
        ensures
            res.limit() == limit,
    {
        Solver { limit }
    }

    /// Solves the cube in four stages, each a search from the state that
    /// the stage before it left, and returns the moves of all four with the
    /// state they lead to, which is the solved one. There is no result if a
    /// stage finds no path within the limit.
    pub fn solve(&self, cube: &Cube) -> (res: Option<(Algorithm, Permutation)>)
        requires
            cube.state.wf(),
        ensures
            match res {
                Some((alg, end)) => {
                    &&& solution(Stage::EdgeOrientation, cube.state, self.limit()) == Some(alg@)
                    &&& run(alg@, cube.state) == end
                    &&& end == Permutation::id()
                },
                None => {
                    &&& solution(Stage::EdgeOrientation, cube.state, self.limit()) is None
                    &&& blocked(Stage::EdgeOrientation, cube.state, self.limit())
                },
            },
    {
        proof {
            reveal_with_fuel(solution, 4);
            reveal_with_fuel(blocked, 4);
        }
        let state = cube.state;
        let (eo_stage, state) = match self.solve_stage(Stage::EdgeOrientation, state) {
            Some(found) => found,
            None => {
                return None;
            },
        };
        let (dr_stage, state) = match self.solve_stage(Stage::DominoReduction, state) {
            Some(found) => found,
            None => {
                return None;
            },
        };
        let (ht_stage, state) = match self.solve_stage(Stage::HalfTurn, state) {
            Some(found) => found,
            None => {
                return None;
            },
        };
        let (solve_stage, state) = match self.solve_stage(Stage::Finish, state) {
            Some(found) => found,
            None => {
                return None;
            },
        };
        let mut alg = Algorithm::new();
        alg.append(&eo_stage).append(&dr_stage).append(&ht_stage).append(&solve_stage);
        proof {
            let a = eo_stage@;
            let b = dr_stage@;
            let c = ht_stage@;
            let d = solve_stage@;
            assert(alg@ =~= a + (b + (c + d)));
            lemma_run_concat(a, b + (c + d), cube.state);
            lemma_run_concat(b, c + d, run(a, cube.state));
            lemma_run_concat(c, d, run(b, run(a, cube.state)));
        }
        Some((alg, state))
    }

    /// Runs one stage from `state`: a search with the moves and the goal of
    /// the stage, the unit estimate and this solver's limit.
    pub fn solve_stage(&self, stage: Stage, state: Permutation) -> (res: Option<
        (Algorithm, Permutation),
    >)
        requires
            state.wf(),
        ensures
            match res {
                Some((alg, end)) => {
                    &&& outcome(&stage, &UnitHeuristic, stage.move_set(), state, self.limit())
                        == Some(alg@)
                    &&& is_first(&stage, &UnitHeuristic, stage.move_set(), state, alg@)
                    &&& alg@.len() < self.limit()
                    &&& end == run(alg@, state)
                    &&& end.wf()
                    &&& stage.goal(end)
                    &&& forall|done: Stage|
                        done.rank() < stage.rank() && #[trigger] done.goal(state) ==> done.goal(
                            end,
                        )
                    &&& forall|i: int| 0 <= i < alg@.len() ==> stage.admits(#[trigger] alg@[i])
                    &&& forall|i: int|
                        0 <= i < alg@.len() - 1 ==> !(#[trigger] alg@[i]).is_similar(alg@[i + 1])
                    &&& forall|path: Seq<Move>| #[trigger]
                        reaches(&stage, stage.move_set(), None, path, state) ==> alg@.len()
                            <= path.len()
                },
                None => {
                    &&& outcome(
                        &stage,
                        &UnitHeuristic,
                        stage.move_set(),
                        state,
                        self.limit(),
                    ) is None
                    &&& forall|path: Seq<Move>| #[trigger]
                        reaches(&stage, stage.move_set(), None, path, state) ==> path.len()
                            >= self.limit()
                },
            },
    {
        proof {
            assert forall|path: Seq<Move>|
                cost(&UnitHeuristic, path, state, 0) == #[trigger] path.len() + 1 by {
                lemma_unit_cost(path, state, 0);
            }
            assert forall|mov: Move| #[trigger]
                stage.move_set().contains(mov) implies stage.admits(mov) by {
                let admitted = |mov: Move| stage.spec_admits(mov);
                Move::catalog().lemma_filter_contains_rev(admitted, mov);
            }
        }
        let res = Self::search(state, &stage.moves(), &stage, &UnitHeuristic, self.limit);
        proof {
            if res is Some {
                let path = res->Some_0.0@;
                assert forall|done: Stage|
                    done.rank() < stage.rank() && #[trigger] done.goal(state) implies done.goal(
                    run(path, state),
                ) by {
                    lemma_goal_kept_along(done, stage, state, path);
                }
            }
        }
        res
    }

    /// Searches for a path from `state` to the goal, made of moves from
    /// `moves` with no two neighbours on one face. The search goes depth
    /// first below a threshold on the cost, which starts at the estimate for
    /// `state` and is raised, pass by pass, to the least cost at which the
    /// pass was cut off. It ends with the first path found, or without one
    /// when nothing was cut off or the threshold would exceed `limit`.
    pub fn search<G: Goal, H: Heuristic>(
        state: Permutation,
        moves: &Vec<Move>,
        goal: &G,
        heuristic: &H,
        limit: u16,
    ) -> (res: Option<(Algorithm, Permutation)>)
        requires
            state.wf(),
        ensures
            match res {
                Some((alg, end)) => {
                    &&& outcome(goal, heuristic, moves@, state, limit as nat) == Some(alg@)
                    &&& is_first(goal, heuristic, moves@, state, alg@)
                    &&& cost(heuristic, alg@, state, 0) <= limit
                    &&& end == run(alg@, state)
                    &&& end.wf()
                    &&& goal.holds(end)
                    &&& forall|i: int| 0 <= i < alg@.len() ==> moves@.contains(#[trigger] alg@[i])
                    &&& forall|i: int|
                        0 <= i < alg@.len() - 1 ==> !(#[trigger] alg@[i]).is_similar(alg@[i + 1])
                },
                None => {
                    &&& outcome(goal, heuristic, moves@, state, limit as nat) is None
                    &&& forall|path: Seq<Move>| #[trigger]
                        reaches(goal, moves@, None, path, state) ==> cost(
                            heuristic,
                            path,
                            state,
                            0,
                        ) > limit
                },
            },
    {
        let mut alg = Algorithm::new();
        let estimate = heuristic.evaluate(&state);
        proof {
            assert forall|path: Seq<Move>| estimate <= cost(heuristic, path, state, 0) by {
                lemma_cost_step(heuristic, path, state, 0);
            }
        }
        if estimate > limit as usize {
            proof {
                lemma_outcome_none(goal, heuristic, moves@, state, limit as nat);
            }
            return None;
        }
        let mut threshold: u16 = estimate as u16;
        loop
            invariant
                state.wf(),
                threshold <= limit,
                alg@ == Seq::<Move>::empty(),
                forall|path: Seq<Move>| #[trigger]
                    reaches(goal, moves@, None, path, state) ==> threshold <= cost(
                        heuristic,
                        path,
                        state,
                        0,
                    ),
            decreases limit - threshold,
        {
            match Self::search_inner(state, moves, goal, heuristic, &mut alg, 0, threshold) {
                SearchResult::Success(end) => {
                    proof {
                        assert(alg@.skip(0) =~= alg@);
                        assert forall|other: Seq<Move>| #[trigger]
                            reaches(goal, moves@, None, other, state) implies {
                            ||| cost(heuristic, alg@, state, 0) < cost(heuristic, other, state, 0)
                            ||| cost(heuristic, alg@, state, 0) == cost(
                                heuristic,
                                other,
                                state,
                                0,
                            ) && precedes(moves@, alg@, other)
                        } by {
                            if cost(heuristic, other, state, 0) <= threshold {
                                assert(within(
                                    goal,
                                    heuristic,
                                    moves@,
                                    None,
                                    other,
                                    state,
                                    0,
                                    threshold as nat,
                                ));
                            }
                        }
                        lemma_outcome_some(goal, heuristic, moves@, state, limit as nat, alg@);
                    }
                    return Some((alg, end));
                },
                SearchResult::Failure => {
                    proof {
                        assert forall|path: Seq<Move>| #[trigger]
                            reaches(goal, moves@, None, path, state) implies cost(
                            heuristic,
                            path,
                            state,
                            0,
                        ) > limit by {
                            assert(excluded(
                                goal,
                                heuristic,
                                moves@,
                                None,
                                state,
                                0,
                                threshold as nat,
                                None,
                                path,
                            ));
                        }
                        lemma_outcome_none(goal, heuristic, moves@, state, limit as nat);
                    }
                    return None;
                },
                SearchResult::UpperBound(bound) => {
                    proof {
                        assert forall|path: Seq<Move>| #[trigger]
                            reaches(goal, moves@, None, path, state) implies bound <= cost(
                            heuristic,
                            path,
                            state,
                            0,
                        ) by {
                            assert(excluded(
                                goal,
                                heuristic,
                                moves@,
                                None,
                                state,
                                0,
                                threshold as nat,
                                Some(bound),
                                path,
                            ));
                        }
                    }
                    if bound > limit as usize {
                        proof {
                            lemma_outcome_none(goal, heuristic, moves@, state, limit as nat);
                        }
                        return None;
                    }
                    threshold = bound as u16;
                },
            }
        }
    }

    /// One pass of the depth-first search below `state`, which lies `depth`
    /// moves below the root; `alg` holds the moves that led here.
    ///
    /// A state whose depth plus estimate exceeds `threshold` is cut off: it
    /// reports that sum as a bound and is not entered, whether or not it
    /// meets the goal. A state within the threshold that meets the goal
    /// ends the pass, and `alg` then holds the path to it. Otherwise every
    /// move is tried that does not turn the face of the move before; `alg`
    /// is as it was, and the pass reports the least bound of the states it
    /// cut off, or that it cut off none.
    pub fn search_inner<G: Goal, H: Heuristic>(
        state: Permutation,
        moves: &Vec<Move>,
        goal: &G,
        heuristic: &H,
        alg: &mut Algorithm,
        depth: usize,
        threshold: u16,
    ) -> (res: SearchResult)
        requires
            state.wf(),
        ensures
            depth + heuristic.estimate(state) > threshold ==> {
                &&& res == SearchResult::UpperBound(
                    capped(depth as nat + heuristic.estimate(state)) as usize,
                )
                &&& final(alg)@ == old(alg)@
            },
            depth + heuristic.estimate(state) <= threshold && goal.holds(state) ==> {
                &&& res == SearchResult::Success(state)
                &&& final(alg)@ == old(alg)@
            },
            match res {
                SearchResult::Success(end) => {
                    &&& found(
                        goal,
                        heuristic,
                        moves@,
                        old(alg)@,
                        final(alg)@,
                        state,
                        depth as nat,
                        threshold as nat,
                        end,
                    )
                    &&& no_repeats(old(alg)@) ==> no_repeats(final(alg)@)
                },
                SearchResult::Failure => {
                    &&& final(alg)@ == old(alg)@
                    &&& least_cut(
                        goal,
                        heuristic,
                        moves@,
                        last_of(old(alg)@),
                        state,
                        depth as nat,
                        threshold as nat,
                        None,
                    )
                    &&& forall|path: Seq<Move>|
                        excluded(
                            goal,
                            heuristic,
                            moves@,
                            last_of(old(alg)@),
                            state,
                            depth as nat,
                            threshold as nat,
                            None,
                            path,
                        )
                },
                SearchResult::UpperBound(bound) => {
                    &&& final(alg)@ == old(alg)@
                    &&& bound > threshold
                    &&& least_cut(
                        goal,
                        heuristic,
                        moves@,
                        last_of(old(alg)@),
                        state,
                        depth as nat,
                        threshold as nat,
                        Some(bound),
                    )
                    &&& forall|path: Seq<Move>|
                        excluded(
                            goal,
                            heuristic,
                            moves@,
                            last_of(old(alg)@),
                            state,
                            depth as nat,
                            threshold as nat,
                            Some(bound),
                            path,
                        )
                },
            },
        decreases threshold + 1 - depth,
    {
        let ghost before = alg@;
        let ghost last_before = last_of(before);
        let estimate = saturating_sum(depth, heuristic.evaluate(&state));
        if estimate > threshold as usize {
            proof {
                assert forall|path: Seq<Move>|
                    excluded(
                        goal,
                        heuristic,
                        moves@,
                        last_before,
                        state,
                        depth as nat,
                        threshold as nat,
                        Some(estimate),
                        path,
                    ) by {
                    lemma_cost_step(heuristic, path, state, depth as nat);
                }
                lemma_cut_at_once(
                    goal,
                    heuristic,
                    moves@,
                    last_before,
                    state,
                    depth as nat,
                    threshold as nat,
                );
            }
            return SearchResult::UpperBound(estimate);
        }
        if goal.evaluate(&state) {
            proof {
                assert(alg@.skip(before.len() as int) =~= Seq::<Move>::empty());
                assert(alg@.take(before.len() as int) =~= before);
            }
            return SearchResult::Success(state);
        }
        let last = alg.last();
        let mut best: Option<usize> = None;
        let ghost mut best_path: Seq<Move> = Seq::empty();
        let mut k: usize = 0;
        while k < moves.len()
            invariant
                state.wf(),
                depth + heuristic.estimate(state) <= threshold,
                !goal.holds(state),
                before == old(alg)@,
                last_before == last_of(before),
                last == last_before,
                alg@ == before,
                k <= moves.len(),
                best matches Some(least) ==> {
                    &&& least > threshold
                    &&& cut_at(
                        goal,
                        heuristic,
                        moves@,
                        last_before,
                        best_path,
                        state,
                        depth as nat,
                        threshold as nat,
                    )
                    &&& cut_cost(heuristic, best_path, state, depth as nat) == least
                },
                forall|path: Seq<Move>|
                    path.len() > 0 && moves@.take(k as int).contains(path[0]) ==> excluded(
                        goal,
                        heuristic,
                        moves@,
                        last_before,
                        state,
                        depth as nat,
                        threshold as nat,
                        best,
                        path,
                    ),
                forall|path: Seq<Move>|
                    path.len() > 0 && moves@.take(k as int).contains(path[0]) && #[trigger] cut_at(
                        goal,
                        heuristic,
                        moves@,
                        last_before,
                        path,
                        state,
                        depth as nat,
                        threshold as nat,
                    ) ==> {
                        &&& best matches Some(least)
                        &&& least <= cut_cost(heuristic, path, state, depth as nat)
                    },
            decreases moves.len() - k,
        {
            let mov = moves[k];
            let ghost best_before = best;
            let ghost mut below: Option<usize> = None;
            let ghost next_state = state.compose(mov.permutation());
            let repeats = match last {
                Some(prev) => mov.is_similar(prev),
                None => false,
            };
            if !repeats {
                alg.push(mov);
                let next = mov.execute(state);
                match Self::search_inner(next, moves, goal, heuristic, alg, depth + 1, threshold) {
                    SearchResult::Success(end) => {
                        proof {
                            assert forall|other: Seq<Move>|
                                other.len() > 0 && moves@.take(k as int).contains(
                                    other[0],
                                ) implies !within(
                                goal,
                                heuristic,
                                moves@,
                                last_before,
                                other,
                                state,
                                depth as nat,
                                threshold as nat,
                            ) by {
                                assert(excluded(
                                    goal,
                                    heuristic,
                                    moves@,
                                    last_before,
                                    state,
                                    depth as nat,
                                    threshold as nat,
                                    best,
                                    other,
                                ));
                            }
                            lemma_found_below(
                                goal,
                                heuristic,
                                moves@,
                                before,
                                alg@,
                                state,
                                depth as nat,
                                threshold as nat,
                                mov,
                                k as int,
                                end,
                            );
                            if no_repeats(before) {
                                let path = alg@.skip(before.len() as int);
                                lemma_no_repeats_after(moves@, before, path);
                                assert(alg@ =~= before + path);
                            }
                        }
                        return SearchResult::Success(end);
                    },
                    SearchResult::UpperBound(bound) => {
                        proof {
                            below = Some(bound);
                        }
                        let lower = match best {
                            Some(least) => bound < least,
                            None => true,
                        };
                        if lower {
                            best = Some(bound);
                            proof {
                                let rest = choose|rest: Seq<Move>| #[trigger]
                                    cut_at(
                                        goal,
                                        heuristic,
                                        moves@,
                                        Some(mov),
                                        rest,
                                        next_state,
                                        (depth + 1) as nat,
                                        threshold as nat,
                                    ) && cut_cost(heuristic, rest, next_state, (depth + 1) as nat)
                                        == bound;
                                best_path = seq![mov] + rest;
                                assert(best_path.drop_first() =~= rest);
                                lemma_cut_step(
                                    goal,
                                    heuristic,
                                    moves@,
                                    last_before,
                                    best_path,
                                    state,
                                    depth as nat,
                                    threshold as nat,
                                );
                            }
                        }
                    },
                    SearchResult::Failure => {},
                }
                alg.pop();
                assert(alg@ =~= before);
            }
            proof {
                assert forall|path: Seq<Move>|
                    path.len() > 0 && moves@.take(k + 1).contains(path[0]) implies excluded(
                    goal,
                    heuristic,
                    moves@,
                    last_before,
                    state,
                    depth as nat,
                    threshold as nat,
                    best,
                    path,
                ) by {
                    if path[0] == mov {
                        if repeats {
                            lemma_admissible_step(moves@, last_before, path);
                        } else {
                            assert(last_of(before.push(mov)) == Some(mov));
                            assert(excluded(
                                goal,
                                heuristic,
                                moves@,
                                Some(mov),
                                next_state,
                                (depth + 1) as nat,
                                threshold as nat,
                                below,
                                path.drop_first(),
                            ));
                            lemma_excluded_below(
                                goal,
                                heuristic,
                                moves@,
                                last_before,
                                state,
                                depth as nat,
                                threshold as nat,
                                below,
                                best,
                                path,
                            );
                        }
                    } else {
                        let upto = moves@.take(k + 1);
                        let i = choose|i: int| 0 <= i < upto.len() && upto[i] == path[0];
                        assert(moves@.take(k as int)[i] == path[0]);
                        assert(excluded(
                            goal,
                            heuristic,
                            moves@,
                            last_before,
                            state,
                            depth as nat,
                            threshold as nat,
                            best_before,
                            path,
                        ));
                    }
                }
                assert forall|path: Seq<Move>|
                    path.len() > 0 && moves@.take(k + 1).contains(path[0]) && #[trigger] cut_at(
                        goal,
                        heuristic,
                        moves@,
                        last_before,
                        path,
                        state,
                        depth as nat,
                        threshold as nat,
                    ) implies {
                    &&& best matches Some(least)
                    &&& least <= cut_cost(heuristic, path, state, depth as nat)
                } by {
                    if path[0] == mov {
                        lemma_cut_step(
                            goal,
                            heuristic,
                            moves@,
                            last_before,
                            path,
                            state,
                            depth as nat,
                            threshold as nat,
                        );
                        assert(!repeats);
                        assert(last_of(before.push(mov)) == Some(mov));
                        assert(least_cut(
                            goal,
                            heuristic,
                            moves@,
                            Some(mov),
                            next_state,
                            (depth + 1) as nat,
                            threshold as nat,
                            below,
                        ));
                    } else {
                        let upto = moves@.take(k + 1);
                        let i = choose|i: int| 0 <= i < upto.len() && upto[i] == path[0];
                        assert(moves@.take(k as int)[i] == path[0]);
                        assert(moves@.take(k as int).contains(path[0]));
                    }
                }
            }
            k += 1;
        }
        proof {
            assert(moves@.take(moves@.len() as int) =~= moves@);
            assert forall|path: Seq<Move>|
                excluded(
                    goal,
                    heuristic,
                    moves@,
                    last_before,
                    state,
                    depth as nat,
                    threshold as nat,
                    best,
                    path,
                ) by {
                if path.len() == 0 {
                    assert(run(path, state) == state);
                }
            }
            assert forall|path: Seq<Move>| #[trigger]
                cut_at(
                    goal,
                    heuristic,
                    moves@,
                    last_before,
                    path,
                    state,
                    depth as nat,
                    threshold as nat,
                ) implies {
                &&& best matches Some(least)
                &&& least <= cut_cost(heuristic, path, state, depth as nat)
            } by {
                if path.len() == 0 {
                    assert(run(path, state) == state);
                }
            }
        }
        match best {
            Some(least) => SearchResult::UpperBound(least),
            None => SearchResult::Failure,
        }
    }
}

} // verus!
