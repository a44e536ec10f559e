use tictactoe::board::Board;
use tictactoe::board::Player;

#[test]
fn new_board_is_all_empty() {
    let b = Board::new();
    for pos in 0..9usize {
        assert_eq!(*b.get_player_at_position(pos), Player::Empty);
    }
    assert_eq!(b.check_winner(), Player::Empty);
    assert_eq!(b.free_positions(), vec![0, 1, 2, 3, 4, 5, 6, 7, 8]);
}

#[test]
fn calculate_position_maps_row_and_col() {
    assert_eq!(Board::calculate_position(0, 0), 0);
    assert_eq!(Board::calculate_position(0, 2), 2);
    assert_eq!(Board::calculate_position(1, 0), 3);
    assert_eq!(Board::calculate_position(1, 2), 5);
    assert_eq!(Board::calculate_position(2, 0), 6);
    assert_eq!(Board::calculate_position(2, 2), 8);
    for row in 0..3usize {
        for col in 0..3usize {
            assert_eq!(Board::calculate_position(row, col), 3 * row + col);
        }
    }
}

#[test]
fn set_then_read_back_by_index_and_by_row_col() {
    let mut b = Board::new();
    b.set_player_at_position(&Player::CirclePlayer, 5);
    assert_eq!(*b.get_player_at_position(5), Player::CirclePlayer);
    assert_eq!(*b.get_player_at_row_col(1, 2), Player::CirclePlayer);
    assert_eq!(*b.get_player_at_row_col(1, 1), Player::Empty);
}

#[test]
fn free_position_reflects_occupancy() {
    let mut b = Board::new();
    assert!(b.free_position(4));
    b.set_player_at_position(&Player::XPlayer, 4);
    assert!(!b.free_position(4));
    for pos in 0..9usize {
        if pos != 4 {
            assert!(b.free_position(pos));
        }
    }
}

#[test]
fn free_positions_is_ascending_complement() {
    let mut b = Board::new();
    b.set_player_at_position(&Player::XPlayer, 8);
    b.set_player_at_position(&Player::CirclePlayer, 2);
    b.set_player_at_position(&Player::XPlayer, 5);
    assert_eq!(b.free_positions(), vec![0, 1, 3, 4, 6, 7]);
}

#[test]
fn check_winner_finds_each_winning_triple() {
    let triples: [[usize; 3]; 8] = [
        [0, 1, 2],
        [3, 4, 5],
        [6, 7, 8],
        [0, 3, 6],
        [1, 4, 7],
        [2, 5, 8],
        [0, 4, 8],
        [2, 4, 6],
    ];
    for triple in triples.iter() {
        let mut bx = Board::new();
        let mut bo = Board::new();
        for &pos in triple.iter() {
            bx.set_player_at_position(&Player::XPlayer, pos);
            bo.set_player_at_position(&Player::CirclePlayer, pos);
        }
        assert_eq!(bx.check_winner(), Player::XPlayer);
        assert_eq!(bo.check_winner(), Player::CirclePlayer);
    }
}

#[test]
fn check_winner_empty_when_no_full_line() {
    let mut b = Board::new();
    b.set_player_at_position(&Player::XPlayer, 0);
    b.set_player_at_position(&Player::XPlayer, 1);
    b.set_player_at_position(&Player::CirclePlayer, 2);
    b.set_player_at_position(&Player::CirclePlayer, 4);
    assert_eq!(b.check_winner(), Player::Empty);
}

#[test]
fn check_winner_needs_one_mark_on_whole_line() {
    let mut b = Board::new();
    b.set_player_at_position(&Player::XPlayer, 0);
    b.set_player_at_position(&Player::CirclePlayer, 1);
    b.set_player_at_position(&Player::XPlayer, 2);
    assert_eq!(b.check_winner(), Player::Empty);
}
