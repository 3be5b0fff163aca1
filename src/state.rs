use vstd::prelude::*;

use crate::board::{
    count_upto, get_line_winner, lemma_count_update, lemma_no_line_no_winner, line_at,
    line_squares, open_squares_of, open_upto, squares_of, turn_consistent, winner_from, winner_of,
    Selection,
};
use crate::player::{opponent_of, Player};

verus! {

/// A game in progress: the board, whose turn it is, the winner if there is
/// one, and which player the computer plays.
#[derive(Clone, Copy, Debug)]
pub struct GameState {
    pub board: [Option<Player>; 9],
    pub next_player: Player,
    pub winner: Option<Player>,
    pub computer_player: Player,
}

impl GameState {
    /// The stored winner is the board's winner, and the marks on the board
    /// agree with whose turn it is.
    pub open spec fn wf(&self) -> bool {
        &&& self.winner == winner_of(self.board@)
        &&& turn_consistent(self.board@, self.next_player)
    }

    /// A new game: empty board, X to move.
    pub fn new(computer_player: Player) -> (r: GameState)
        ensures
            r.wf(),
            forall|i: int| 0 <= i < 9 ==> r.board@[i] is None,
            r.next_player == Player::X,
            r.winner is None,
            r.computer_player == computer_player,
    {
        let r = GameState {
            board: [None; 9],
            next_player: Player::X,
            winner: None,
            computer_player,
        };
        proof {
            let b = r.board@;
            assert forall|j: int| 0 <= j < 8 implies #[trigger] line_at(b, j) is None by {
                let (x, y, z) = line_squares(j);
                assert(b[x] is None);
            }
            lemma_no_line_no_winner(b, 0);
            reveal_with_fuel(count_upto, 10);
        }
        r
    }

    /// Put the mark of the player to move on `square`, pass the turn, and
    /// record the winner of the new board.
    pub fn apply_move(&mut self, square: usize)
        requires
            square < 9,
            old(self).board@[square as int] is None,
        ensures
            final(self).board@ == old(self).board@.update(square as int, Some(old(self).next_player)),
            final(self).next_player == opponent_of(old(self).next_player),
            final(self).winner == winner_of(final(self).board@),
            final(self).computer_player == old(self).computer_player,
            old(self).wf() ==> final(self).wf(),
    {
        proof {
            let b = self.board@;
            let p = Some(self.next_player);
            lemma_count_update(b, square as int, p, Some(Player::X), 9);
            lemma_count_update(b, square as int, p, Some(Player::O), 9);
        }
        self.board[square] = Some(self.next_player);
        self.next_player = self.next_player.opponent();
        self.winner = self.check_winner();
    }

    /// A copy of this state with the move at `square` applied; this state
    /// is left as it was.
    pub fn with_move(&self, square: usize) -> (r: GameState)
        requires
            square < 9,
            self.board@[square as int] is None,
        ensures
            r.board@ == self.board@.update(square as int, Some(self.next_player)),
            r.next_player == opponent_of(self.next_player),
            r.winner == winner_of(r.board@),
            r.computer_player == self.computer_player,
            self.wf() ==> r.wf(),
    {
        let mut new_state = *self;
        new_state.apply_move(square);
        new_state
    }

    /// The empty squares, in ascending order.
    pub fn open_squares(&self) -> (r: Vec<Selection>)
        ensures
            squares_of(r@) == open_squares_of(self.board@),
    {
        let mut moves: Vec<Selection> = Vec::new();
        let mut i: usize = 0;
        while i < 9
            invariant
                i <= 9,
                squares_of(moves@) == open_upto(self.board@, i as int),
            decreases 9 - i,
        {
            if self.board[i].is_none() {
                let ghost before = moves@;
                moves.push(Selection::new(i));
                assert(squares_of(moves@) =~= squares_of(before).push(i as int));
            }
            i += 1;
        }
        moves
    }

    /// Return the winner or `None` if there is no winner.
    pub fn check_winner(&self) -> (r: Option<Player>)
        ensures
            r == winner_of(self.board@),
    {
        let ghost b = self.board@;
        let mut i: usize = 0;
        while i < 3
            invariant
                i <= 3,
                b == self.board@,
                winner_from(b, 2 * i as int) == winner_of(b),
            decreases 3 - i,
        {
            assert(line_squares(2 * i as int) == (3 * i as int, 3 * i + 1, 3 * i + 2));
            assert(line_squares(2 * i + 1) == (i as int, i + 3, i + 6));
            assert(winner_from(b, 2 * i + 1) == match line_at(b, 2 * i + 1) {
                Some(p) => Some(p),
                None => winner_from(b, 2 * i + 2),
            });
            // Check the row
            if let Some(winner) = get_line_winner(
                self.board[i * 3],
                self.board[i * 3 + 1],
                self.board[i * 3 + 2],
            ) {
                return Some(winner);
            }
            // Check the column
            if let Some(winner) = get_line_winner(self.board[i], self.board[i + 3], self.board[i + 6]) {
                return Some(winner);
            }
            i += 1;
        }
        assert(winner_from(b, 7) == match line_at(b, 7) {
            Some(p) => Some(p),
            None => winner_from(b, 8),
        });
        // Check the diagonals
        if let Some(winner) = get_line_winner(self.board[0], self.board[4], self.board[8]) {
            return Some(winner);
        }
        if let Some(winner) = get_line_winner(self.board[2], self.board[4], self.board[6]) {
            return Some(winner);
        }
        None
    }
}

} // verus!
