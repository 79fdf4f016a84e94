use fifteen_puzzle::anim::{ANIM_DURATION, FULL_PROGRESS};
use fifteen_puzzle::board::{Board, InvalidCoordinate};

fn grid(board: &Board) -> Vec<Vec<i32>> {
    let n = board.size();
    (0..n).map(|y| (0..n).map(|x| board.tile(x, y)).collect()).collect()
}

fn is_permutation(board: &Board) -> bool {
    let n = board.size();
    let mut seen = vec![0usize; n * n];
    for row in grid(board) {
        for value in row {
            if value < 0 || value as usize >= n * n {
                return false;
            }
            seen[value as usize] += 1;
        }
    }
    seen.iter().all(|&count| count == 1)
}

#[test]
fn new_board_of_three_is_solved() {
    let board = Board::new(3);
    assert_eq!(board.size(), 3);
    assert_eq!(grid(&board), vec![vec![1, 2, 3], vec![4, 5, 6], vec![7, 8, 0]]);
    assert_eq!(board.empty_pos(), (2, 2));
    assert!(!board.animation().is_running());
    assert_eq!(board.animation().progress(), 0);
    assert_eq!(board.animation().tiles().len(), 0);
    assert_eq!(board.animation().vector(), (0, 0));
}

#[test]
fn new_board_of_two_is_solved() {
    let board = Board::new(2);
    assert_eq!(grid(&board), vec![vec![1, 2], vec![3, 0]]);
    assert_eq!(board.empty_pos(), (1, 1));
}

#[test]
fn new_board_is_a_permutation_with_the_gap_last() {
    for n in 2..=10usize {
        let board = Board::new(n);
        assert!(is_permutation(&board));
        assert_eq!(board.empty_pos(), (n as i32 - 1, n as i32 - 1));
        assert_eq!(board.tile(n - 1, n - 1), 0);
        assert_eq!(board.tile(0, 0), 1);
        assert_eq!(board.tile(n - 1, 0), n as i32);
        assert_eq!(board.tile(0, n - 1), (n * (n - 1) + 1) as i32);
    }
}

#[test]
fn click_above_the_gap_moves_one_tile_down() {
    let mut board = Board::new(3);
    assert_eq!(board.move_slot((2, 1)), Ok(()));
    assert_eq!(grid(&board), vec![vec![1, 2, 3], vec![4, 5, 0], vec![7, 8, 6]]);
    assert_eq!(board.empty_pos(), (2, 1));
    assert_eq!(board.animation().tiles(), &vec![(2, 1, 6)]);
    assert_eq!(board.animation().vector(), (0, 1));
    assert!(board.animation().is_running());
}

#[test]
fn click_at_the_row_end_moves_two_tiles_right() {
    let mut board = Board::new(3);
    assert_eq!(board.move_slot((0, 2)), Ok(()));
    assert_eq!(grid(&board), vec![vec![1, 2, 3], vec![4, 5, 6], vec![0, 7, 8]]);
    assert_eq!(board.empty_pos(), (0, 2));
    assert_eq!(board.animation().tiles(), &vec![(0, 2, 7), (1, 2, 8)]);
    assert_eq!(board.animation().vector(), (1, 0));
}

#[test]
fn click_at_the_column_top_moves_the_whole_column() {
    let mut board = Board::new(4);
    assert_eq!(board.move_slot((3, 0)), Ok(()));
    assert_eq!(
        grid(&board),
        vec![vec![1, 2, 3, 0], vec![5, 6, 7, 4], vec![9, 10, 11, 8], vec![13, 14, 15, 12]]
    );
    assert_eq!(board.animation().tiles(), &vec![(3, 0, 4), (3, 1, 8), (3, 2, 12)]);
    assert_eq!(board.animation().vector(), (0, 1));
}

#[test]
fn tiles_slide_left_and_up_as_well() {
    let mut board = Board::new(3);
    assert_eq!(board.move_slot((0, 2)), Ok(()));
    board.update(ANIM_DURATION);
    assert_eq!(board.move_slot((0, 0)), Ok(()));
    assert_eq!(grid(&board), vec![vec![0, 2, 3], vec![1, 5, 6], vec![4, 7, 8]]);
    assert_eq!(board.animation().tiles(), &vec![(0, 0, 1), (0, 1, 4)]);
    assert_eq!(board.animation().vector(), (0, 1));
    board.update(ANIM_DURATION);
    assert_eq!(board.move_slot((2, 0)), Ok(()));
    assert_eq!(grid(&board), vec![vec![2, 3, 0], vec![1, 5, 6], vec![4, 7, 8]]);
    assert_eq!(board.animation().tiles(), &vec![(2, 0, 3), (1, 0, 2)]);
    assert_eq!(board.animation().vector(), (-1, 0));
    board.update(ANIM_DURATION);
    assert_eq!(board.move_slot((2, 2)), Ok(()));
    assert_eq!(grid(&board), vec![vec![2, 3, 6], vec![1, 5, 8], vec![4, 7, 0]]);
    assert_eq!(board.animation().tiles(), &vec![(2, 2, 8), (2, 1, 6)]);
    assert_eq!(board.animation().vector(), (0, -1));
}

#[test]
fn every_collected_tile_moves_one_cell_along_the_vector() {
    let mut board = Board::new(5);
    let before = grid(&board);
    assert_eq!(board.move_slot((1, 4)), Ok(()));
    assert_eq!(board.empty_pos(), (1, 4));
    let (dx, dy) = board.animation().vector();
    assert_eq!((dx, dy), (1, 0));
    let tiles = board.animation().tiles().clone();
    assert_eq!(tiles.len(), 3);
    for (x, y, value) in tiles {
        assert_eq!(before[y as usize][x as usize], value);
        assert_eq!(board.tile((x + dx) as usize, (y + dy) as usize), value);
    }
    for y in 0..4 {
        for x in 0..5 {
            assert_eq!(board.tile(x, y), before[y][x]);
        }
    }
    assert_eq!(board.tile(0, 4), before[4][0]);
    assert!(is_permutation(&board));
}

#[test]
fn diagonal_click_changes_nothing() {
    let mut board = Board::new(3);
    assert_eq!(board.move_slot((1, 1)), Ok(()));
    assert_eq!(board.move_slot((0, 0)), Ok(()));
    assert_eq!(grid(&board), vec![vec![1, 2, 3], vec![4, 5, 6], vec![7, 8, 0]]);
    assert_eq!(board.empty_pos(), (2, 2));
    assert!(!board.animation().is_running());
}

#[test]
fn click_on_the_gap_changes_nothing() {
    let mut board = Board::new(3);
    assert_eq!(board.move_slot((2, 2)), Ok(()));
    assert_eq!(grid(&board), vec![vec![1, 2, 3], vec![4, 5, 6], vec![7, 8, 0]]);
    assert_eq!(board.empty_pos(), (2, 2));
    assert!(!board.animation().is_running());
}

#[test]
fn click_during_a_slide_changes_nothing() {
    let mut board = Board::new(3);
    assert_eq!(board.move_slot((2, 1)), Ok(()));
    board.update(ANIM_DURATION / 2);
    let progress = board.animation().progress();
    assert_eq!(board.move_slot((2, 0)), Ok(()));
    assert_eq!(board.move_slot((0, 1)), Ok(()));
    assert_eq!(board.move_slot((2, 9)), Ok(()));
    assert_eq!(grid(&board), vec![vec![1, 2, 3], vec![4, 5, 0], vec![7, 8, 6]]);
    assert_eq!(board.empty_pos(), (2, 1));
    assert_eq!(board.animation().tiles(), &vec![(2, 1, 6)]);
    assert_eq!(board.animation().progress(), progress);
    assert!(board.animation().is_running());
}

#[test]
fn click_in_line_but_off_the_board_is_reported() {
    let mut board = Board::new(3);
    assert_eq!(board.move_slot((2, 3)), Err(InvalidCoordinate { x: 2, y: 3 }));
    assert_eq!(board.move_slot((2, -1)), Err(InvalidCoordinate { x: 2, y: -1 }));
    assert_eq!(board.move_slot((-4, 2)), Err(InvalidCoordinate { x: -4, y: 2 }));
    assert_eq!(board.move_slot((3, 2)), Err(InvalidCoordinate { x: 3, y: 2 }));
    assert_eq!(grid(&board), vec![vec![1, 2, 3], vec![4, 5, 6], vec![7, 8, 0]]);
    assert_eq!(board.empty_pos(), (2, 2));
    assert!(!board.animation().is_running());
}

#[test]
fn click_out_of_line_and_off_the_board_changes_nothing() {
    let mut board = Board::new(3);
    assert_eq!(board.move_slot((5, 7)), Ok(()));
    assert_eq!(board.move_slot((-1, -1)), Ok(()));
    assert_eq!(board.move_slot((i32::MAX, i32::MIN)), Ok(()));
    assert_eq!(grid(&board), vec![vec![1, 2, 3], vec![4, 5, 6], vec![7, 8, 0]]);
    assert!(!board.animation().is_running());
}

#[test]
fn move_and_reverse_move_restore_the_grid() {
    for n in 2..=5usize {
        for target in 0..n as i32 - 1 {
            for click in [(target, n as i32 - 1), (n as i32 - 1, target)] {
                let mut board = Board::new(n);
                let before = grid(&board);
                let gap = board.empty_pos();
                assert_eq!(board.move_slot(click), Ok(()));
                assert_ne!(grid(&board), before);
                board.update(ANIM_DURATION);
                assert_eq!(board.move_slot(gap), Ok(()));
                assert_eq!(grid(&board), before);
                assert_eq!(board.empty_pos(), gap);
            }
        }
    }
}

#[test]
fn reverse_move_waits_for_the_slide_to_end() {
    let mut board = Board::new(3);
    assert_eq!(board.move_slot((2, 1)), Ok(()));
    assert_eq!(board.move_slot((2, 2)), Ok(()));
    assert_eq!(grid(&board), vec![vec![1, 2, 3], vec![4, 5, 0], vec![7, 8, 6]]);
    board.update(ANIM_DURATION - 1);
    assert_eq!(board.move_slot((2, 2)), Ok(()));
    assert_eq!(grid(&board), vec![vec![1, 2, 3], vec![4, 5, 0], vec![7, 8, 6]]);
    board.update(1);
    assert_eq!(board.move_slot((2, 2)), Ok(()));
    assert_eq!(grid(&board), vec![vec![1, 2, 3], vec![4, 5, 6], vec![7, 8, 0]]);
}

#[test]
fn clicking_the_neighbour_after_a_long_move_moves_one_tile_back() {
    let mut board = Board::new(3);
    assert_eq!(board.move_slot((0, 2)), Ok(()));
    board.update(ANIM_DURATION);
    assert_eq!(board.move_slot((1, 2)), Ok(()));
    assert_eq!(grid(&board), vec![vec![1, 2, 3], vec![4, 5, 6], vec![7, 0, 8]]);
}

#[test]
fn update_moves_the_slide_on_and_ends_it() {
    let mut board = Board::new(3);
    board.update(1_000);
    assert!(!board.animation().is_running());
    assert_eq!(board.animation().progress(), 0);
    assert_eq!(board.move_slot((2, 1)), Ok(()));
    assert!(board.animation().is_running());
    assert_eq!(board.animation().progress(), 0);
    assert_eq!(board.animation().offset(6), (0, -FULL_PROGRESS));
    board.update(75_000);
    assert!(board.animation().is_running());
    assert_eq!(board.animation().progress(), 750_000);
    assert_eq!(board.animation().offset(6), (0, -250_000));
    board.update(75_000);
    assert!(!board.animation().is_running());
    assert_eq!(board.animation().progress(), FULL_PROGRESS);
    assert_eq!(board.animation().offset(6), (0, 0));
    assert_eq!(grid(&board), vec![vec![1, 2, 3], vec![4, 5, 0], vec![7, 8, 6]]);
}

#[test]
fn a_new_board_replaces_a_board_in_mid_slide() {
    let mut board = Board::new(4);
    assert_eq!(board.move_slot((0, 3)), Ok(()));
    assert!(board.animation().is_running());
    board = Board::new(board.size());
    assert!(!board.animation().is_running());
    assert_eq!(board.empty_pos(), (3, 3));
    assert_eq!(board.tile(0, 3), 13);
}
