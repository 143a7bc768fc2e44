use mines::board::{Board, GameState, MinesError};

/// Builds a mine layout of `n` flags with mines at the given positions.
fn layout(n: usize, mine_positions: &[usize]) -> Vec<bool> {
    let mut flags = vec![false; n];
    for &p in mine_positions {
        flags[p] = true;
    }
    flags
}

fn board_from(width: usize, mine_positions: &[usize]) -> Board {
    Board::with_mine_layout(width, &layout(width * width, mine_positions)).unwrap()
}

#[test]
fn new_game_places_exactly_requested_mines() {
    let b = Board::new_game(9, 10).unwrap();
    assert_eq!(b.width(), 9);
    assert_eq!(b.mine_count(), 10);
    assert_eq!(b.cell_count(), 81);
    assert_eq!(b.game_state(), GameState::InProgress);
    assert_eq!(b.revealed_count(), 0);
    let mut mines_seen = 0;
    for i in 0..b.cell_count() {
        let c = b.cell(i);
        assert!(!c.is_revealed);
        assert!(c.neighbor_mine_count <= 8);
        if c.is_mine {
            mines_seen += 1;
        }
    }
    assert_eq!(mines_seen, 10);
}

#[test]
fn new_game_rejects_bad_configuration() {
    assert_eq!(Board::new_game(3, 0).err(), Some(MinesError::InvalidConfiguration));
    assert_eq!(Board::new_game(3, 9).err(), Some(MinesError::InvalidConfiguration));
    assert_eq!(Board::new_game(3, 10).err(), Some(MinesError::InvalidConfiguration));
    assert_eq!(Board::new_game(0, 1).err(), Some(MinesError::InvalidConfiguration));
    // a width whose square cannot be addressed
    assert_eq!(
        Board::new_game(usize::MAX, 1).err(),
        Some(MinesError::InvalidConfiguration)
    );
}

#[test]
fn with_mine_layout_rejects_bad_layouts() {
    // wrong length
    assert_eq!(
        Board::with_mine_layout(3, &layout(8, &[0])).err(),
        Some(MinesError::InvalidConfiguration)
    );
    // no mines at all
    assert_eq!(
        Board::with_mine_layout(2, &layout(4, &[])).err(),
        Some(MinesError::InvalidConfiguration)
    );
    // every cell a mine
    assert_eq!(
        Board::with_mine_layout(2, &layout(4, &[0, 1, 2, 3])).err(),
        Some(MinesError::InvalidConfiguration)
    );
}

#[test]
fn with_mine_layout_mirrors_the_layout() {
    let b = board_from(3, &[0, 4]);
    assert_eq!(b.mine_count(), 2);
    for i in 0..9 {
        assert_eq!(b.cell(i).is_mine, i == 0 || i == 4);
        assert!(!b.cell(i).is_revealed);
    }
}

#[test]
fn neighbor_counts_on_three_wide_board() {
    // width 3, mines at 0 (corner) and 4 (center).
    let b = board_from(3, &[0, 4]);
    let expected: [u8; 9] = [1, 2, 1, 2, 1, 1, 1, 1, 1];
    for i in 0..9 {
        assert_eq!(b.cell(i).neighbor_mine_count, expected[i], "cell {}", i);
    }
}

#[test]
fn neighbor_counts_match_brute_force_on_random_boards() {
    for _ in 0..20 {
        let b = Board::new_game(5, 3).unwrap();
        for i in 0..b.cell_count() {
            let mut expected = 0;
            for j in 0..b.cell_count() {
                if mines::board::is_adjacent(5, i, j) && b.cell(j).is_mine {
                    expected += 1;
                }
            }
            assert_eq!(b.cell(i).neighbor_mine_count, expected, "cell {}", i);
        }
    }
}
