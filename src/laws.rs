use vstd::prelude::*;

use crate::board::{
    count_upto, lemma_count_monotone, lemma_count_partition, lemma_no_line_no_winner,
    lemma_open_contains, lemma_open_len, lemma_winner_line, line_at, line_squares, occupied_count,
    open_count, open_squares_of, winner_of,
};
use crate::player::{opponent_of, rank_of, GameResult, Player};
use crate::search::{
    best_moves_of, combine_moves, evaluate, is_open_square, lemma_combine_bounds,
    lemma_open_squares_are_open, lemma_with_value_member, move_value,
};
use crate::state::GameState;

verus! {

/// In any state reached by alternating turns from the empty board, a winner
/// can only appear once at least five squares are taken: the winner needs
/// three marks, and the other player has at most one fewer.
pub proof fn lemma_no_early_winner(s: GameState)
    requires
        s.wf(),
    ensures
        winner_of(s.board@) is Some ==> occupied_count(s.board@) >= 5,
{
    let b = s.board@;
    if winner_of(b) is Some {
        let w = winner_of(b)->Some_0;
        let v = Some(w);
        let k = lemma_winner_line(b, 0);
        let (i, j, l) = line_squares(k);
        assert(b[i] == v && b[j] == v && b[l] == v && 0 <= i < j && j < l && l < 9);
        lemma_count_monotone(b, v, 0, i);
        lemma_count_monotone(b, v, i + 1, j);
        lemma_count_monotone(b, v, j + 1, l);
        lemma_count_monotone(b, v, l + 1, 9);
        assert(count_upto(b, v, i + 1) == count_upto(b, v, i) + 1);
        assert(count_upto(b, v, j + 1) == count_upto(b, v, j) + 1);
        assert(count_upto(b, v, l + 1) == count_upto(b, v, l) + 1);
    }
}

/// Every square is either open or occupied.
pub proof fn lemma_open_plus_occupied(b: Seq<Option<Player>>)
    ensures
        open_squares_of(b).len() + occupied_count(b) == 9,
{
    lemma_open_len(b, 9);
    lemma_count_partition(b, 9);
}

/// On a decided board the winner has won and the other player has lost,
/// whoever is to move.
pub proof fn lemma_decided_board(b: Seq<Option<Player>>, next: Player, w: Player)
    requires
        winner_of(b) == Some(w),
    ensures
        evaluate(b, next, w) == GameResult::Win,
        evaluate(b, next, opponent_of(w)) == GameResult::Loss,
{
}

/// A full board without a winner is a tie for both players.
pub proof fn lemma_full_board_tie(b: Seq<Option<Player>>, next: Player, persp: Player)
    requires
        winner_of(b) is None,
        open_count(b) == 0,
    ensures
        evaluate(b, next, persp) == GameResult::Tie,
{
}

/// A full board with no line of three has no winner and is a tie.
pub proof fn lemma_full_board_without_line(b: Seq<Option<Player>>, next: Player, persp: Player)
    requires
        open_count(b) == 0,
        forall|k: int| 0 <= k < 8 ==> #[trigger] line_at(b, k) is None,
    ensures
        winner_of(b) is None,
        evaluate(b, next, persp) == GameResult::Tie,
{
    lemma_no_line_no_winner(b, 0);
}

/// After a move at `s`, `s` is no longer open, and every other square is
/// open exactly when it was before.
pub proof fn lemma_move_closes_square(b: Seq<Option<Player>>, s: int, p: Player)
    requires
        b.len() == 9,
        0 <= s < 9,
        b[s] is None,
    ensures
        !open_squares_of(b.update(s, Some(p))).contains(s),
        forall|j: int|
            j != s ==> (open_squares_of(b.update(s, Some(p))).contains(j) <==> open_squares_of(
                b,
            ).contains(j)),
{
    let after = b.update(s, Some(p));
    lemma_open_contains(after, 9, s);
    assert forall|j: int|
        j != s implies (open_squares_of(after).contains(j) <==> open_squares_of(b).contains(j)) by {
        lemma_open_contains(after, 9, j);
        lemma_open_contains(b, 9, j);
    }
}

/// Along play where `persp` always takes one of its best moves, the value of
/// the game for `persp` never drops, whatever the other player does: a best
/// move keeps it, and an opponent's move can only raise it.
pub proof fn lemma_optimal_play_keeps_value(
    b: Seq<Option<Player>>,
    next: Player,
    persp: Player,
    m: int,
)
    requires
        winner_of(b) is None,
        is_open_square(b, m),
        next == persp ==> best_moves_of(b, next, persp).contains(m),
    ensures
        rank_of(move_value(b, next, persp, m)) >= rank_of(evaluate(b, next, persp)),
{
    let moves = open_squares_of(b);
    lemma_open_contains(b, 9, m);
    lemma_open_squares_are_open(b);
    if next == persp {
        lemma_with_value_member(
            b,
            next,
            persp,
            moves,
            combine_moves(b, next, persp, moves, true),
            m,
        );
    } else {
        lemma_combine_bounds(b, next, persp, moves, false);
        let i = choose|i: int| 0 <= i < moves.len() && #[trigger] moves[i] == m;
        assert(move_value(b, next, persp, moves[i]) == move_value(b, next, persp, m));
    }
}

} // verus!
