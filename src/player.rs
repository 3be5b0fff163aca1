use vstd::prelude::*;

verus! {

/// One of the two marks that can be placed on the board.
#[derive(Clone, Copy, Debug, PartialEq, Eq, Structural)]
pub enum Player {
    X,
    O,
}

/// The other player.
pub open spec fn opponent_of(p: Player) -> Player {
    match p {
        Player::X => Player::O,
        Player::O => Player::X,
    }
}

impl Player {
    /// Get the opponent for the given player.
    pub fn opponent(self) -> (r: Player)
        ensures
            r == opponent_of(self),
            r != self,
    {
        match self {
            Player::X => Player::O,
            Player::O => Player::X,
        }
    }
}

/// Taking the opponent twice gives back the player.
pub proof fn lemma_opponent_involutive(p: Player)
    ensures
        opponent_of(opponent_of(p)) == p,
        opponent_of(p) != p,
{
}

/// The outcome of a game, seen from one player's side: `Loss < Tie < Win`.
#[derive(Clone, Copy, Debug, PartialEq, Eq, Structural, PartialOrd, Ord)]
pub enum GameResult {
    Loss,
    Tie,
    Win,
}

/// The position of a result in the order `Loss < Tie < Win`.
pub open spec fn rank_of(r: GameResult) -> int {
    match r {
        GameResult::Loss => 0,
        GameResult::Tie => 1,
        GameResult::Win => 2,
    }
}

/// The better of two results.
pub open spec fn max_result(a: GameResult, b: GameResult) -> GameResult {
    if rank_of(a) >= rank_of(b) { a } else { b }
}

/// The worse of two results.
pub open spec fn min_result(a: GameResult, b: GameResult) -> GameResult {
    if rank_of(a) <= rank_of(b) { a } else { b }
}

impl GameResult {
    /// Position of this result in the order `Loss < Tie < Win`, counted from 0.
    pub fn rank(self) -> (r: u8)
        ensures
            r as int == rank_of(self),
    {
        match self {
            GameResult::Loss => 0,
            GameResult::Tie => 1,
            GameResult::Win => 2,
        }
    }

    /// Whether this result is strictly better than `other`.
    pub fn is_better_than(self, other: GameResult) -> (r: bool)
        ensures
            r == (rank_of(self) > rank_of(other)),
    {
        self.rank() > other.rank()
    }
}

} // verus!
