use tictactoe::board::Player;
use tictactoe::game::Game;

#[test]
fn new_game_has_empty_board_and_x_to_move() {
    let g = Game::new();
    assert_eq!(g.current_player, Player::XPlayer);
    assert_eq!(g.free_positions().len(), 9);
    assert_eq!(g.winner(), Player::Empty);
}

#[test]
fn toggle_player_swaps_marks() {
    let mut g = Game::new();
    g.toggle_player();
    assert_eq!(g.current_player, Player::CirclePlayer);
    g.toggle_player();
    assert_eq!(g.current_player, Player::XPlayer);
}

#[test]
fn distinct_legal_moves_all_accepted_with_alternating_marks() {
    let mut g = Game::new();
    let moves: [usize; 5] = [4, 0, 8, 2, 6];
    for &pos in moves.iter() {
        assert!(g.do_move(pos));
    }
    assert_eq!(*g.board.get_player_at_position(4), Player::XPlayer);
    assert_eq!(*g.board.get_player_at_position(0), Player::CirclePlayer);
    assert_eq!(*g.board.get_player_at_position(8), Player::XPlayer);
    assert_eq!(*g.board.get_player_at_position(2), Player::CirclePlayer);
    assert_eq!(*g.board.get_player_at_position(6), Player::XPlayer);
}

#[test]
fn accepted_move_toggles_player_rejected_move_does_not() {
    let mut g = Game::new();
    assert!(g.do_move(3));
    assert_eq!(g.current_player, Player::CirclePlayer);
    assert!(!g.do_move(3));
    assert_eq!(g.current_player, Player::CirclePlayer);
    assert!(g.do_move(5));
    assert_eq!(g.current_player, Player::XPlayer);
}

#[test]
fn repeated_move_is_rejected_and_changes_nothing() {
    let mut g = Game::new();
    assert!(g.do_move(0));
    let free_after_first = g.free_positions();
    assert!(!g.do_move(0));
    assert_eq!(*g.board.get_player_at_position(0), Player::XPlayer);
    assert_eq!(g.free_positions(), free_after_first);
    assert_eq!(g.current_player, Player::CirclePlayer);
}

#[test]
fn free_positions_shrink_by_one_per_accepted_move() {
    let mut g = Game::new();
    let moves: [usize; 4] = [7, 1, 5, 3];
    for (played, &pos) in moves.iter().enumerate() {
        assert_eq!(g.free_positions().len(), 9 - played);
        assert!(g.do_move(pos));
    }
    assert_eq!(g.free_positions(), vec![0, 2, 4, 6, 8]);
}

#[test]
fn top_row_scenario_ends_won_by_x() {
    let mut g = Game::new();
    let moves: [usize; 5] = [0, 3, 1, 4, 2];
    for &pos in moves.iter() {
        assert_eq!(g.winner(), Player::Empty);
        assert!(g.do_move(pos));
    }
    assert_eq!(g.winner(), Player::XPlayer);
}

#[test]
fn full_board_without_line_is_a_draw() {
    let mut g = Game::new();
    let moves: [usize; 9] = [0, 1, 2, 4, 3, 5, 7, 6, 8];
    for &pos in moves.iter() {
        assert!(g.do_move(pos));
    }
    assert!(g.free_positions().is_empty());
    assert_eq!(g.winner(), Player::Empty);
}
