use tic_tac_toe::{get_char, get_line_winner, minimax, GameResult, GameState, Player, Selection};

fn play(computer: Player, moves: &[usize]) -> GameState {
    let mut game = GameState::new(computer);
    for &m in moves {
        game.apply_move(m);
    }
    game
}

fn squares(v: &[Selection]) -> Vec<usize> {
    v.iter().map(|s| s.square).collect()
}

fn occupied(game: &GameState) -> usize {
    game.board.iter().filter(|s| s.is_some()).count()
}

#[test]
fn opponent_swaps_players() {
    assert_eq!(Player::X.opponent(), Player::O);
    assert_eq!(Player::O.opponent(), Player::X);
    assert_eq!(Player::X.opponent().opponent(), Player::X);
}

#[test]
fn results_are_ordered() {
    assert!(GameResult::Loss < GameResult::Tie);
    assert!(GameResult::Tie < GameResult::Win);
    assert_eq!(GameResult::Loss.rank(), 0);
    assert_eq!(GameResult::Win.rank(), 2);
    assert!(GameResult::Win.is_better_than(GameResult::Tie));
    assert!(!GameResult::Tie.is_better_than(GameResult::Tie));
}

#[test]
fn line_winner_needs_three_equal_marks() {
    assert_eq!(get_line_winner(None, None, None), None);
    assert_eq!(get_line_winner(Some(Player::X), Some(Player::X), Some(Player::X)), Some(Player::X));
    assert_eq!(get_line_winner(Some(Player::O), Some(Player::O), Some(Player::O)), Some(Player::O));
    assert_eq!(get_line_winner(Some(Player::X), Some(Player::X), Some(Player::O)), None);
    assert_eq!(get_line_winner(Some(Player::X), None, Some(Player::X)), None);
}

#[test]
fn chars_for_squares() {
    assert_eq!(get_char(Some(Player::X)), 'X');
    assert_eq!(get_char(Some(Player::O)), 'O');
    assert_eq!(get_char(None), '.');
}

#[test]
fn selection_keeps_square() {
    assert_eq!(Selection::new(7).square, 7);
}

#[test]
fn new_game_is_empty_with_x_to_move() {
    let game = GameState::new(Player::O);
    assert!(game.board.iter().all(|s| s.is_none()));
    assert_eq!(game.next_player, Player::X);
    assert_eq!(game.winner, None);
    assert_eq!(game.computer_player, Player::O);
    assert_eq!(squares(&game.open_squares()), vec![0, 1, 2, 3, 4, 5, 6, 7, 8]);
}

#[test]
fn apply_move_places_mark_and_passes_turn() {
    let game = play(Player::O, &[4, 0]);
    assert_eq!(game.board[4], Some(Player::X));
    assert_eq!(game.board[0], Some(Player::O));
    assert_eq!(game.next_player, Player::X);
    assert_eq!(squares(&game.open_squares()), vec![1, 2, 3, 5, 6, 7, 8]);
}

#[test]
fn winner_on_row_column_and_diagonals() {
    // X takes the top row
    assert_eq!(play(Player::O, &[0, 3, 1, 4, 2]).check_winner(), Some(Player::X));
    // O takes the middle column
    assert_eq!(play(Player::O, &[0, 1, 2, 4, 3, 7]).check_winner(), Some(Player::O));
    // X takes the diagonal from the top left
    assert_eq!(play(Player::O, &[0, 1, 4, 2, 8]).check_winner(), Some(Player::X));
    // X takes the diagonal from the top right
    let game = play(Player::O, &[2, 0, 4, 1, 6]);
    assert_eq!(game.check_winner(), Some(Player::X));
    assert_eq!(game.winner, Some(Player::X));
    // no line yet
    assert_eq!(play(Player::O, &[0, 1, 2]).check_winner(), None);
}

#[test]
fn no_winner_before_five_marks() {
    let sequences: [&[usize]; 4] = [&[0, 3, 1, 4], &[0, 1, 2, 4], &[4, 0, 8, 2], &[2, 5, 4, 8]];
    for seq in sequences {
        let game = play(Player::X, seq);
        assert_eq!(occupied(&game), 4);
        assert_eq!(game.check_winner(), None);
    }
    let game = play(Player::X, &[0, 3, 1, 4, 2]);
    assert_eq!(occupied(&game), 5);
    assert_eq!(game.check_winner(), Some(Player::X));
}

#[test]
fn open_and_occupied_make_nine() {
    let moves = [4, 0, 8, 2, 1, 7, 6];
    for n in 0..=moves.len() {
        let game = play(Player::X, &moves[..n]);
        assert_eq!(game.open_squares().len() + occupied(&game), 9);
        assert_eq!(occupied(&game), n);
    }
}

#[test]
fn decided_board_is_win_for_winner_and_loss_for_other() {
    let moves = [0, 3, 1, 4, 2];
    assert_eq!(minimax(&play(Player::X, &moves)), GameResult::Win);
    assert_eq!(minimax(&play(Player::O, &moves)), GameResult::Loss);
}

#[test]
fn tied_board_is_tie_for_both() {
    let moves = [0, 1, 2, 4, 3, 5, 7, 6, 8];
    assert_eq!(minimax(&play(Player::X, &moves)), GameResult::Tie);
    assert_eq!(minimax(&play(Player::O, &moves)), GameResult::Tie);
}

#[test]
fn empty_board_is_a_tie() {
    assert_eq!(minimax(&GameState::new(Player::X)), GameResult::Tie);
    assert_eq!(minimax(&GameState::new(Player::O)), GameResult::Tie);
}

#[test]
fn best_first_moves_are_corners_and_center() {
    // every opening move draws under optimal play, so corners and center
    // are best moves, and so are the edges
    let game = GameState::new(Player::X);
    let best = squares(&game.get_best_computer_moves());
    for corner_or_center in [0, 2, 4, 6, 8] {
        assert!(best.contains(&corner_or_center));
    }
    assert_eq!(best, vec![0, 1, 2, 3, 4, 5, 6, 7, 8]);
    for m in best {
        assert_eq!(minimax(&game.with_move(m)), GameResult::Tie);
    }
}

#[test]
fn forced_loss_makes_every_reply_equal() {
    // X at 0 and 3, O at 1, O to move: X wins whatever O does
    let game = play(Player::O, &[0, 1, 3]);
    assert_eq!(minimax(&game), GameResult::Loss);
    assert_eq!(squares(&game.get_best_computer_moves()), vec![2, 4, 5, 6, 7, 8]);
    assert_eq!(minimax(&play(Player::X, &[0, 1, 3])), GameResult::Win);
}

#[test]
fn best_reply_to_opposite_corners_is_an_edge() {
    let game = play(Player::O, &[0, 4, 8]);
    assert_eq!(minimax(&game), GameResult::Tie);
    assert_eq!(squares(&game.get_best_computer_moves()), vec![1, 3, 5, 7]);
}

#[test]
fn winning_move_is_the_only_best_move() {
    // X holds 0 and 1, O holds 3 and 4, X to move
    let game = play(Player::X, &[0, 3, 1, 4]);
    assert_eq!(minimax(&game), GameResult::Win);
    assert_eq!(squares(&game.get_best_computer_moves()), vec![2]);
}

fn never_loses(game: &GameState) {
    assert_ne!(minimax(game), GameResult::Loss);
    if game.winner.is_some() || game.open_squares().is_empty() {
        return;
    }
    if game.next_player == game.computer_player {
        for m in game.get_best_computer_moves() {
            never_loses(&game.with_move(m.square));
        }
    } else {
        for m in game.open_squares() {
            never_loses(&game.with_move(m.square));
        }
    }
}

#[test]
fn optimal_play_never_loses_after_forced_position() {
    // X at 0 and 3, O at 1, O to move; X plays best moves against every reply
    let game = play(Player::X, &[0, 1, 3]);
    assert_eq!(game.next_player, Player::O);
    never_loses(&game);
}

#[test]
fn optimal_play_never_loses_from_any_opening() {
    let game = play(Player::X, &[0, 4]);
    never_loses(&game);
    let game = play(Player::O, &[4]);
    never_loses(&game);
}

#[test]
fn move_closes_square_and_keeps_snapshot() {
    let before = play(Player::X, &[4]);
    let after = before.with_move(0);
    assert!(!squares(&after.open_squares()).contains(&0));
    assert_eq!(squares(&after.open_squares()), vec![1, 2, 3, 5, 6, 7, 8]);
    // the earlier state is unchanged and can take the move again
    assert_eq!(before.board[0], None);
    assert_eq!(before.next_player, Player::O);
    let again = before.with_move(0);
    assert_eq!(again.board, after.board);
}

#[test]
fn full_board_without_line_is_a_tie() {
    let game = play(Player::X, &[0, 1, 2, 4, 3, 5, 7, 6, 8]);
    assert!(game.open_squares().is_empty());
    assert_eq!(game.check_winner(), None);
    assert_eq!(game.winner, None);
    assert_eq!(minimax(&game), GameResult::Tie);
}

#[test]
fn random_move_is_a_best_move() {
    let game = play(Player::X, &[4, 1]);
    for _ in 0..20 {
        let m = game.get_random_computer_move();
        assert!([0, 2, 3, 5, 6, 8].contains(&m.square));
    }
    let game = play(Player::O, &[0, 4, 8]);
    for _ in 0..20 {
        assert!([1, 3, 5, 7].contains(&game.get_random_computer_move().square));
    }
    let game = play(Player::X, &[0, 3, 1, 4]);
    for _ in 0..5 {
        assert_eq!(game.get_random_computer_move().square, 2);
    }
}
