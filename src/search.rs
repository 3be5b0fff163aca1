use vstd::prelude::*;

use crate::board::{
    lemma_open_contains, lemma_open_count_fill, open_count, open_squares_of, squares_of, winner_of,
    Selection,
};
use crate::player::{max_result, min_result, opponent_of, rank_of, GameResult, Player};
use crate::state::GameState;

verus! {

/// Whether `m` is a square where a mark can be put on `b`.
pub open spec fn is_open_square(b: Seq<Option<Player>>, m: int) -> bool {
    b.len() == 9 && 0 <= m < 9 && b[m] is None
}

/// The result for `persp` under optimal play by both sides, with `next` to
/// move on `b`: a decided board is a win or a loss, a full one a tie, and
/// otherwise the player to move picks the child that is best for them.
pub open spec fn evaluate(b: Seq<Option<Player>>, next: Player, persp: Player) -> GameResult
    decreases open_count(b), 1int, 0int,
{
    match winner_of(b) {
        Some(w) => if w == persp {
            GameResult::Win
        } else {
            GameResult::Loss
        },
        None => if open_count(b) == 0 {
            GameResult::Tie
        } else {
            combine_moves(b, next, persp, open_squares_of(b), next == persp)
        },
    }
}

/// The best (`maximize`) or worst result for `persp` among the moves of
/// `moves`, each evaluated after `next` plays it; `Loss` or `Win` when
/// there is no move to take.
pub open spec fn combine_moves(
    b: Seq<Option<Player>>,
    next: Player,
    persp: Player,
    moves: Seq<int>,
    maximize: bool,
) -> GameResult
    decreases open_count(b), 0int, moves.len(),
{
    if moves.len() == 0 {
        if maximize {
            GameResult::Loss
        } else {
            GameResult::Win
        }
    } else {
        let acc = combine_moves(b, next, persp, moves.drop_last(), maximize);
        let m = moves.last();
        if is_open_square(b, m) {
            proof {
                lemma_open_count_fill(b, m, next);
            }
            let c = evaluate(b.update(m, Some(next)), opponent_of(next), persp);
            if maximize {
                max_result(acc, c)
            } else {
                min_result(acc, c)
            }
        } else {
            acc
        }
    }
}

/// The result for `persp` after `next` plays at `m`.
pub open spec fn move_value(b: Seq<Option<Player>>, next: Player, persp: Player, m: int) -> GameResult {
    evaluate(b.update(m, Some(next)), opponent_of(next), persp)
}

/// Every open square is a square where a mark can be put.
pub proof fn lemma_open_squares_are_open(b: Seq<Option<Player>>)
    requires
        b.len() == 9,
    ensures
        forall|j: int|
            0 <= j < open_squares_of(b).len() ==> is_open_square(b, #[trigger] open_squares_of(b)[j]),
{
    assert forall|j: int|
        0 <= j < open_squares_of(b).len() implies is_open_square(b, #[trigger] open_squares_of(b)[j]) by {
        lemma_open_contains(b, 9, open_squares_of(b)[j]);
    }
}

/// The combination over the first `k + 1` moves extends that over the first `k`.
pub proof fn lemma_combine_step(
    b: Seq<Option<Player>>,
    next: Player,
    persp: Player,
    moves: Seq<int>,
    maximize: bool,
    k: int,
)
    requires
        0 <= k < moves.len(),
        is_open_square(b, moves[k]),
    ensures
        combine_moves(b, next, persp, moves.take(k + 1), maximize) == if maximize {
            max_result(combine_moves(b, next, persp, moves.take(k), maximize), move_value(b, next, persp, moves[k]))
        } else {
            min_result(combine_moves(b, next, persp, moves.take(k), maximize), move_value(b, next, persp, moves[k]))
        },
{
    assert(moves.take(k + 1).drop_last() =~= moves.take(k));
}

/// Minimax search: the result for the computer player under optimal play.
pub fn minimax(state: &GameState) -> (r: GameResult)
    requires
        state.wf(),
    ensures
        r == evaluate(state.board@, state.next_player, state.computer_player),
    decreases open_count(state.board@),
{
    if let Some(winner) = state.winner {
        if winner == state.computer_player {
            return GameResult::Win;
        } else {
            return GameResult::Loss;
        }
    }
    // Check tied game state
    let possible_moves = state.open_squares();
    if possible_moves.len() == 0 {
        return GameResult::Tie;
    }
    let ghost b = state.board@;
    let ghost moves = open_squares_of(b);
    proof {
        lemma_open_squares_are_open(b);
    }
    let maximize = state.next_player == state.computer_player;
    let mut acc = if maximize {
        GameResult::Loss
    } else {
        GameResult::Win
    };
    let mut k: usize = 0;
    assert(moves.take(0) =~= Seq::<int>::empty());
    while k < possible_moves.len()
        invariant
            state.wf(),
            b == state.board@,
            winner_of(b) is None,
            moves == open_squares_of(b),
            squares_of(possible_moves@) == moves,
            maximize == (state.next_player == state.computer_player),
            k <= possible_moves.len(),
            forall|j: int| 0 <= j < moves.len() ==> is_open_square(b, #[trigger] moves[j]),
            acc == combine_moves(b, state.next_player, state.computer_player, moves.take(k as int), maximize),
        decreases possible_moves.len() - k,
    {
        let m = possible_moves[k].square;
        assert(moves[k as int] == m as int);
        proof {
            lemma_open_count_fill(b, m as int, state.next_player);
            lemma_combine_step(b, state.next_player, state.computer_player, moves, maximize, k as int);
        }
        let child = minimax(&state.with_move(m));
        if maximize {
            if child.is_better_than(acc) {
                acc = child;
            }
        } else {
            if acc.is_better_than(child) {
                acc = child;
            }
        }
        k += 1;
    }
    assert(moves.take(moves.len() as int) =~= moves);
    acc
}


/// The moves of `moves`, in their order, whose value for `persp` is `v`.
pub open spec fn moves_with_value(
    b: Seq<Option<Player>>,
    next: Player,
    persp: Player,
    moves: Seq<int>,
    v: GameResult,
) -> Seq<int>
    decreases moves.len(),
{
    if moves.len() == 0 {
        Seq::empty()
    } else {
        let rest = moves_with_value(b, next, persp, moves.drop_last(), v);
        if move_value(b, next, persp, moves.last()) == v {
            rest.push(moves.last())
        } else {
            rest
        }
    }
}

/// The best result that the player to move can reach for `persp` with one move.
pub open spec fn best_value(b: Seq<Option<Player>>, next: Player, persp: Player) -> GameResult {
    combine_moves(b, next, persp, open_squares_of(b), true)
}

/// All open squares, in ascending order, whose move reaches the best value for `persp`.
pub open spec fn best_moves_of(b: Seq<Option<Player>>, next: Player, persp: Player) -> Seq<int> {
    moves_with_value(b, next, persp, open_squares_of(b), best_value(b, next, persp))
}

/// The best of a list of moves is at least the value of each, and the
/// worst at most.
pub proof fn lemma_combine_bounds(
    b: Seq<Option<Player>>,
    next: Player,
    persp: Player,
    moves: Seq<int>,
    maximize: bool,
)
    requires
        forall|j: int| 0 <= j < moves.len() ==> is_open_square(b, #[trigger] moves[j]),
    ensures
        forall|j: int|
            0 <= j < moves.len() ==> if maximize {
                rank_of(#[trigger] move_value(b, next, persp, moves[j])) <= rank_of(
                    combine_moves(b, next, persp, moves, maximize),
                )
            } else {
                rank_of(move_value(b, next, persp, moves[j])) >= rank_of(
                    combine_moves(b, next, persp, moves, maximize),
                )
            },
    decreases moves.len(),
{
    if moves.len() > 0 {
        let rest = moves.drop_last();
        assert forall|j: int| 0 <= j < rest.len() implies is_open_square(b, #[trigger] rest[j]) by {
            assert(rest[j] == moves[j]);
        }
        lemma_combine_bounds(b, next, persp, rest, maximize);
        let all = combine_moves(b, next, persp, moves, maximize);
        let part = combine_moves(b, next, persp, rest, maximize);
        assert forall|j: int| 0 <= j < moves.len() implies if maximize {
            rank_of(#[trigger] move_value(b, next, persp, moves[j])) <= rank_of(all)
        } else {
            rank_of(move_value(b, next, persp, moves[j])) >= rank_of(all)
        } by {
            if j < rest.len() {
                assert(rest[j] == moves[j]);
                assert(move_value(b, next, persp, rest[j]) == move_value(b, next, persp, moves[j]));
            }
        }
    }
}

/// No move reaches a value above the best of the list.
pub proof fn lemma_none_above_best(
    b: Seq<Option<Player>>,
    next: Player,
    persp: Player,
    moves: Seq<int>,
    v: GameResult,
)
    requires
        forall|j: int| 0 <= j < moves.len() ==> is_open_square(b, #[trigger] moves[j]),
        rank_of(v) > rank_of(combine_moves(b, next, persp, moves, true)),
    ensures
        moves_with_value(b, next, persp, moves, v).len() == 0,
    decreases moves.len(),
{
    if moves.len() > 0 {
        let rest = moves.drop_last();
        assert forall|j: int| 0 <= j < rest.len() implies is_open_square(b, #[trigger] rest[j]) by {
            assert(rest[j] == moves[j]);
        }
        lemma_none_above_best(b, next, persp, rest, v);
    }
}

/// Some move of a non-empty list reaches the best value of the list.
pub proof fn lemma_best_reached(b: Seq<Option<Player>>, next: Player, persp: Player, moves: Seq<int>)
    requires
        moves.len() > 0,
        forall|j: int| 0 <= j < moves.len() ==> is_open_square(b, #[trigger] moves[j]),
    ensures
        moves_with_value(b, next, persp, moves, combine_moves(b, next, persp, moves, true)).len() > 0,
    decreases moves.len(),
{
    let rest = moves.drop_last();
    let best = combine_moves(b, next, persp, moves, true);
    let c = move_value(b, next, persp, moves.last());
    if best != c {
        assert forall|j: int| 0 <= j < rest.len() implies is_open_square(b, #[trigger] rest[j]) by {
            assert(rest[j] == moves[j]);
        }
        if rest.len() > 0 {
            lemma_best_reached(b, next, persp, rest);
        }
    }
}

/// A move listed with value `v` is one of the moves and has value `v`.
pub proof fn lemma_with_value_member(
    b: Seq<Option<Player>>,
    next: Player,
    persp: Player,
    moves: Seq<int>,
    v: GameResult,
    m: int,
)
    requires
        moves_with_value(b, next, persp, moves, v).contains(m),
    ensures
        moves.contains(m),
        move_value(b, next, persp, m) == v,
    decreases moves.len(),
{
    let rest = moves.drop_last();
    let found = moves_with_value(b, next, persp, rest, v);
    if m == moves.last() && move_value(b, next, persp, m) == v {
        assert(moves[moves.len() - 1] == m);
    } else {
        if move_value(b, next, persp, moves.last()) == v {
            let w = choose|w: int| 0 <= w < found.len() + 1 && #[trigger] found.push(moves.last())[w] == m;
            assert(found[w] == m);
        }
        lemma_with_value_member(b, next, persp, rest, v, m);
        let w = choose|w: int| 0 <= w < rest.len() && #[trigger] rest[w] == m;
        assert(moves[w] == m);
    }
}

impl GameState {
    /// All open squares whose move gives the computer player the best
    /// result it can reach, in ascending order.
    pub fn get_best_computer_moves(&self) -> (r: Vec<Selection>)
        requires
            self.wf(),
        ensures
            squares_of(r@) == best_moves_of(self.board@, self.next_player, self.computer_player),
            open_count(self.board@) > 0 ==> r@.len() > 0,
    {
        // Start with the remaining possible moves
        let possible_moves = self.open_squares();
        let ghost b = self.board@;
        let ghost next = self.next_player;
        let ghost persp = self.computer_player;
        let ghost moves = open_squares_of(b);
        proof {
            lemma_open_squares_are_open(b);
        }
        let mut best_so_far = GameResult::Loss;
        // The list of moves that reach the best result so far
        let mut winning_moves: Vec<Selection> = Vec::new();
        let mut k: usize = 0;
        assert(moves.take(0) =~= Seq::<int>::empty());
        while k < possible_moves.len()
            invariant
                self.wf(),
                b == self.board@,
                next == self.next_player,
                persp == self.computer_player,
                moves == open_squares_of(b),
                squares_of(possible_moves@) == moves,
                k <= possible_moves.len(),
                forall|j: int| 0 <= j < moves.len() ==> is_open_square(b, #[trigger] moves[j]),
                best_so_far == combine_moves(b, next, persp, moves.take(k as int), true),
                squares_of(winning_moves@) == moves_with_value(b, next, persp, moves.take(k as int), best_so_far),
            decreases possible_moves.len() - k,
        {
            let m = possible_moves[k];
            let ghost seen = moves.take(k as int);
            let ghost upto = moves.take(k as int + 1);
            assert(moves[k as int] == m.square as int);
            assert(upto.drop_last() =~= seen);
            proof {
                lemma_combine_step(b, next, persp, moves, true, k as int);
                assert forall|j: int| 0 <= j < seen.len() implies is_open_square(b, #[trigger] seen[j]) by {
                    assert(seen[j] == moves[j]);
                }
            }
            let move_result = minimax(&self.with_move(m.square));
            if move_result.is_better_than(best_so_far) {
                proof {
                    lemma_none_above_best(b, next, persp, seen, move_result);
                }
                best_so_far = move_result;
                winning_moves.clear();
                winning_moves.push(m);
                assert(squares_of(winning_moves@) =~= seq![m.square as int]);
                assert(moves_with_value(b, next, persp, upto, best_so_far) =~= seq![m.square as int]);
            } else if move_result == best_so_far {
                let ghost before = winning_moves@;
                winning_moves.push(m);
                assert(squares_of(winning_moves@) =~= squares_of(before).push(m.square as int));
            }
            k += 1;
        }
        assert(moves.take(moves.len() as int) =~= moves);
        proof {
            if moves.len() > 0 {
                lemma_best_reached(b, next, persp, moves);
            }
        }
        winning_moves
    }
}


/// Relies on rand::thread_rng and rand::Rng::gen_range: a number drawn from
/// `0..n`. `gen_range` panics on an empty range, so `n` must be positive.
#[verifier::external_body]
fn random_index(n: usize) -> (r: usize)
    requires
        n > 0,
    ensures
        r < n,
{
    rand::Rng::gen_range(&mut rand::thread_rng(), 0..n)
}

impl GameState {
    /// One of the best moves for the computer player, drawn at random so
    /// that games do not repeat.
    pub fn get_random_computer_move(&self) -> (r: Selection)
        requires
            self.wf(),
            open_count(self.board@) > 0,
        ensures
            best_moves_of(self.board@, self.next_player, self.computer_player).contains(
                r.square as int,
            ),
    {
        let best_moves = self.get_best_computer_moves();
        let i = random_index(best_moves.len());
        let r = best_moves[i];
        assert(squares_of(best_moves@)[i as int] == r.square as int);
        r
    }
}

} // verus!
