use vstd::prelude::*;

use crate::player::Player;

verus! {

/// Winner of a line of three squares: all three hold the same mark.
/// Three empty squares are no win.
pub open spec fn line_winner(a: Option<Player>, b: Option<Player>, c: Option<Player>) -> Option<
    Player,
> {
    if a.is_some() && a == b && b == c {
        a
    } else {
        None
    }
}

/// The squares of line `k`, in the order the board is scanned for a winner:
/// row `i` is line `2 * i`, column `i` is line `2 * i + 1`, then the
/// diagonal from the top left and the one from the top right.
pub open spec fn line_squares(k: int) -> (int, int, int) {
    if k == 0 {
        (0, 1, 2)
    } else if k == 1 {
        (0, 3, 6)
    } else if k == 2 {
        (3, 4, 5)
    } else if k == 3 {
        (1, 4, 7)
    } else if k == 4 {
        (6, 7, 8)
    } else if k == 5 {
        (2, 5, 8)
    } else if k == 6 {
        (0, 4, 8)
    } else {
        (2, 4, 6)
    }
}

/// Winner of line `k` on board `b`, if its three squares hold one mark.
pub open spec fn line_at(b: Seq<Option<Player>>, k: int) -> Option<Player> {
    let (i, j, l) = line_squares(k);
    line_winner(b[i], b[j], b[l])
}

/// The first winning line at or after line `k`, in scan order.
pub open spec fn winner_from(b: Seq<Option<Player>>, k: int) -> Option<Player>
    decreases 8 - k,
{
    if k < 8 {
        match line_at(b, k) {
            Some(p) => Some(p),
            None => winner_from(b, k + 1),
        }
    } else {
        None
    }
}

/// The winner of a board: the mark of the first complete line in scan order.
pub open spec fn winner_of(b: Seq<Option<Player>>) -> Option<Player> {
    winner_from(b, 0)
}

/// The empty squares among the first `n`, in ascending order.
pub open spec fn open_upto(b: Seq<Option<Player>>, n: int) -> Seq<int>
    decreases n,
{
    if n <= 0 {
        Seq::empty()
    } else if b[n - 1] is None {
        open_upto(b, n - 1).push(n - 1)
    } else {
        open_upto(b, n - 1)
    }
}

/// The empty squares of a board, in ascending order.
pub open spec fn open_squares_of(b: Seq<Option<Player>>) -> Seq<int> {
    open_upto(b, 9)
}

/// How many squares are empty.
pub open spec fn open_count(b: Seq<Option<Player>>) -> nat {
    open_squares_of(b).len()
}

/// How many of the first `n` squares hold `v`.
pub open spec fn count_upto(b: Seq<Option<Player>>, v: Option<Player>, n: int) -> nat
    decreases n,
{
    if n <= 0 {
        0
    } else {
        count_upto(b, v, n - 1) + if b[n - 1] == v {
            1nat
        } else {
            0nat
        }
    }
}

/// How many squares of the board hold `v`.
pub open spec fn count_of(b: Seq<Option<Player>>, v: Option<Player>) -> nat {
    count_upto(b, v, 9)
}

/// How many squares hold a mark.
pub open spec fn occupied_count(b: Seq<Option<Player>>) -> nat {
    count_of(b, Some(Player::X)) + count_of(b, Some(Player::O))
}

/// Turns alternate and X moves first: X has as many marks as O when X is to
/// move, and one more when O is to move.
pub open spec fn turn_consistent(b: Seq<Option<Player>>, next: Player) -> bool {
    count_of(b, Some(Player::X)) == count_of(b, Some(Player::O)) + if next == Player::O {
        1nat
    } else {
        0nat
    }
}

/// A square index offered as a move.
#[derive(Clone, Copy, Debug, PartialEq, Eq, Structural)]
pub struct Selection {
    pub square: usize,
}

impl Selection {
    /// The selection of `square`.
    pub fn new(square: usize) -> (r: Selection)
        ensures
            r.square == square,
    {
        Selection { square }
    }
}

/// The square indices of a list of selections.
pub open spec fn squares_of(v: Seq<Selection>) -> Seq<int> {
    v.map_values(|s: Selection| s.square as int)
}

/// Return the winner for a given line or `None` if there is no winner.
pub fn get_line_winner(a: Option<Player>, b: Option<Player>, c: Option<Player>) -> (r: Option<
    Player,
>)
    ensures
        r == line_winner(a, b, c),
{
    if a.is_some() && a == b && b == c {
        a
    } else {
        None
    }
}

/// The character shown for a square: its mark, or `.` when empty.
pub fn get_char(square: Option<Player>) -> (r: char)
    ensures
        r == match square {
            Some(Player::X) => 'X',
            Some(Player::O) => 'O',
            None => '.',
        },
{
    match square {
        Some(Player::X) => 'X',
        Some(Player::O) => 'O',
        None => '.',
    }
}


/// Writing `x` at square `s` changes the count of `v` by what left and what came.
pub proof fn lemma_count_update(b: Seq<Option<Player>>, s: int, x: Option<Player>, v: Option<Player>, n: int)
    requires
        0 <= s < b.len(),
        0 <= n <= b.len(),
    ensures
        count_upto(b.update(s, x), v, n) as int == count_upto(b, v, n) as int
            - (if s < n && b[s] == v { 1int } else { 0int })
            + (if s < n && x == v { 1int } else { 0int }),
    decreases n,
{
    if n > 0 {
        lemma_count_update(b, s, x, v, n - 1);
    }
}

/// Counts only grow as more squares are taken in.
pub proof fn lemma_count_monotone(b: Seq<Option<Player>>, v: Option<Player>, i: int, j: int)
    requires
        0 <= i <= j,
    ensures
        count_upto(b, v, i) <= count_upto(b, v, j),
    decreases j - i,
{
    if i < j {
        lemma_count_monotone(b, v, i, j - 1);
    }
}

/// The open squares among the first `n` are as many as the empty ones.
pub proof fn lemma_open_len(b: Seq<Option<Player>>, n: int)
    ensures
        open_upto(b, n).len() == count_upto(b, None, n),
    decreases n,
{
    if n > 0 {
        lemma_open_len(b, n - 1);
    }
}

/// Each square is empty or holds one of the two marks.
pub proof fn lemma_count_partition(b: Seq<Option<Player>>, n: int)
    requires
        0 <= n,
    ensures
        count_upto(b, None, n) + count_upto(b, Some(Player::X), n) + count_upto(b, Some(Player::O), n) == n,
    decreases n,
{
    if n > 0 {
        lemma_count_partition(b, n - 1);
        match b[n - 1] {
            None => {},
            Some(Player::X) => {},
            Some(Player::O) => {},
        }
    }
}

/// A square is listed as open exactly when it lies below `n` and is empty.
pub proof fn lemma_open_contains(b: Seq<Option<Player>>, n: int, j: int)
    ensures
        open_upto(b, n).contains(j) <==> (0 <= j < n && b[j] is None),
    decreases n,
{
    if n > 0 {
        lemma_open_contains(b, n - 1, j);
        let prev = open_upto(b, n - 1);
        if b[n - 1] is None {
            assert(prev.push(n - 1)[prev.len() as int] == n - 1);
            if prev.push(n - 1).contains(j) && j != n - 1 {
                let full = prev.push(n - 1);
                let w = choose|w: int| 0 <= w < full.len() && #[trigger] full[w] == j;
                assert(prev[w] == j);
            }
            if prev.contains(j) {
                let w = choose|w: int| 0 <= w < prev.len() && #[trigger] prev[w] == j;
                assert(prev.push(n - 1)[w] == j);
            }
        }
    }
}

/// Filling an empty square leaves one open square fewer.
pub proof fn lemma_open_count_fill(b: Seq<Option<Player>>, m: int, p: Player)
    requires
        b.len() == 9,
        0 <= m < 9,
        b[m] is None,
    ensures
        open_count(b.update(m, Some(p))) + 1 == open_count(b),
{
    lemma_open_len(b, 9);
    lemma_open_len(b.update(m, Some(p)), 9);
    lemma_count_update(b, m, Some(p), None, 9);
}

/// The line that `winner_from` reports.
pub proof fn lemma_winner_line(b: Seq<Option<Player>>, k: int) -> (w: int)
    requires
        winner_from(b, k) is Some,
    ensures
        k <= w < 8,
        line_at(b, w) == winner_from(b, k),
    decreases 8 - k,
{
    if line_at(b, k) is Some {
        k
    } else {
        lemma_winner_line(b, k + 1)
    }
}

/// With no complete line from `k` on, no winner is found from `k` on.
pub proof fn lemma_no_line_no_winner(b: Seq<Option<Player>>, k: int)
    requires
        forall|j: int| k <= j < 8 ==> #[trigger] line_at(b, j) is None,
    ensures
        winner_from(b, k) is None,
    decreases 8 - k,
{
    if k < 8 {
        lemma_no_line_no_winner(b, k + 1);
    }
}

} // verus!
