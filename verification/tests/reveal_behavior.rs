use mines::board::{Board, Cell, GameState, MinesError};

fn layout(n: usize, mine_positions: &[usize]) -> Vec<bool> {
    let mut flags = vec![false; n];
    for &p in mine_positions {
        flags[p] = true;
    }
    flags
}

fn board_from(width: usize, mine_positions: &[usize]) -> Board {
    Board::with_mine_layout(width, &layout(width * width, mine_positions)).unwrap()
}

fn snapshot(b: &Board) -> Vec<Cell> {
    (0..b.cell_count()).map(|i| b.cell(i)).collect()
}

#[test]
fn out_of_range_reveal_is_rejected() {
    let mut b = board_from(3, &[0, 4]);
    assert_eq!(b.reveal_cell(9), Err(MinesError::IndexOutOfBounds));
    assert_eq!(b.reveal_cell(usize::MAX), Err(MinesError::IndexOutOfBounds));
    assert_eq!(b.game_state(), GameState::InProgress);
    assert_eq!(b.revealed_count(), 0);
}

#[test]
fn reveal_is_idempotent_on_safe_cell() {
    let mut b = board_from(3, &[0, 4]);
    assert_eq!(b.reveal_cell(8), Ok(GameState::InProgress));
    assert!(b.cell(8).is_revealed);
    let first = snapshot(&b);
    assert_eq!(b.reveal_cell(8), Ok(GameState::InProgress));
    assert_eq!(snapshot(&b), first);
}

#[test]
fn losing_reveals_every_cell() {
    let mut b = board_from(3, &[0, 4]);
    assert_eq!(b.reveal_cell(4), Ok(GameState::Lost));
    assert_eq!(b.game_state(), GameState::Lost);
    for i in 0..9 {
        assert!(b.cell(i).is_revealed, "cell {}", i);
    }
    assert_eq!(b.revealed_count(), 9);
}

#[test]
fn terminal_lock_after_loss() {
    let mut b = board_from(3, &[0, 4]);
    assert_eq!(b.reveal_cell(0), Ok(GameState::Lost));
    let frozen = snapshot(&b);
    assert_eq!(b.reveal_cell(5), Ok(GameState::Lost));
    assert_eq!(snapshot(&b), frozen);
    // an out-of-range index is still rejected, and still changes nothing
    assert_eq!(b.reveal_cell(9), Err(MinesError::IndexOutOfBounds));
    assert_eq!(snapshot(&b), frozen);
    assert_eq!(b.game_state(), GameState::Lost);
}

#[test]
fn terminal_lock_after_win() {
    let mut b = board_from(2, &[0]);
    assert_eq!(b.reveal_cell(1), Ok(GameState::InProgress));
    assert_eq!(b.reveal_cell(2), Ok(GameState::InProgress));
    assert_eq!(b.reveal_cell(3), Ok(GameState::Won));
    let frozen = snapshot(&b);
    // a further reveal, even of the still-hidden mine, changes nothing
    assert_eq!(b.reveal_cell(0), Ok(GameState::Won));
    assert_eq!(b.reveal_cell(2), Ok(GameState::Won));
    assert_eq!(snapshot(&b), frozen);
    assert!(!b.cell(0).is_revealed);
}

#[test]
fn win_by_revealing_all_safe_cells_on_two_wide_board() {
    let mut b = board_from(2, &[0]);
    assert_eq!(b.reveal_cell(1), Ok(GameState::InProgress));
    assert_eq!(b.reveal_cell(2), Ok(GameState::InProgress));
    assert_eq!(b.reveal_cell(3), Ok(GameState::Won));
    assert_eq!(b.revealed_count(), 3);
    assert!(!b.cell(0).is_revealed);
}

#[test]
fn loss_by_revealing_the_mine_on_two_wide_board() {
    let mut b = board_from(2, &[0]);
    assert_eq!(b.reveal_cell(0), Ok(GameState::Lost));
    assert_eq!(b.revealed_count(), 4);
}

#[test]
fn flood_reveals_zero_region_and_border_only() {
    // width 4, single mine at 1. The zero-count region is every cell not
    // adjacent to the mine: {3, 7, 8, 9, 10, 11, 12, 13, 14, 15}. Its
    // numbered border is {2, 4, 5, 6}. Cells 0 and 1 touch no zero cell
    // and must stay hidden.
    let mut b = board_from(4, &[1]);
    assert_eq!(b.reveal_cell(15), Ok(GameState::InProgress));
    for i in 0..16 {
        let expected = i != 0 && i != 1;
        assert_eq!(b.cell(i).is_revealed, expected, "cell {}", i);
    }
    assert_eq!(b.revealed_count(), 14);
    // revealing the last safe cell wins the game
    assert_eq!(b.reveal_cell(0), Ok(GameState::Won));
    assert!(!b.cell(1).is_revealed);
}

#[test]
fn flood_from_single_safe_cell_without_zero_count_reveals_only_it() {
    let mut b = board_from(3, &[0, 4]);
    assert_eq!(b.reveal_cell(5), Ok(GameState::InProgress));
    for i in 0..9 {
        assert_eq!(b.cell(i).is_revealed, i == 5, "cell {}", i);
    }
}
