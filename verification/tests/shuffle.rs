use fifteen_puzzle::anim::ANIM_DURATION;
use fifteen_puzzle::board::Board;
use fifteen_puzzle::direction::Direction;
use quad_rand::RandGenerator;

fn cells(board: &Board) -> Vec<Vec<i32>> {
    let n = board.size();
    (0..n).map(|y| (0..n).map(|x| board.tile(x, y)).collect()).collect()
}

fn holds_each_value_once(board: &Board) -> bool {
    let n = board.size();
    let mut flat: Vec<i32> = cells(board).into_iter().flatten().collect();
    flat.sort();
    flat == (0..(n * n) as i32).collect::<Vec<i32>>()
}

/// Each single slide swaps two cells and moves the gap by one cell, so the
/// number of inversions plus the gap's distance from its home stays even.
fn can_be_solved(board: &Board) -> bool {
    let n = board.size();
    let homes: Vec<usize> = cells(board)
        .into_iter()
        .flatten()
        .map(|v| if v == 0 { n * n - 1 } else { v as usize - 1 })
        .collect();
    let mut inversions = 0usize;
    for i in 0..homes.len() {
        for j in i + 1..homes.len() {
            if homes[i] > homes[j] {
                inversions += 1;
            }
        }
    }
    let (gx, gy) = board.empty_pos();
    let distance = (n - 1 - gx as usize) + (n - 1 - gy as usize);
    (inversions + distance) % 2 == 0
}

fn seeded(seed: u64) -> RandGenerator {
    let rng = RandGenerator::new();
    rng.srand(seed);
    rng
}

#[test]
fn swap_moves_the_neighbour_into_the_gap() {
    let mut board = Board::new(3);
    board.swap_empty_with(0, -1);
    assert_eq!(cells(&board), vec![vec![1, 2, 3], vec![4, 5, 0], vec![7, 8, 6]]);
    assert_eq!(board.empty_pos(), (2, 1));
    board.swap_empty_with(-1, 0);
    assert_eq!(cells(&board), vec![vec![1, 2, 3], vec![4, 0, 5], vec![7, 8, 6]]);
    assert_eq!(board.empty_pos(), (1, 1));
    board.swap_empty_with(0, 1);
    assert_eq!(cells(&board), vec![vec![1, 2, 3], vec![4, 8, 5], vec![7, 0, 6]]);
    assert_eq!(board.empty_pos(), (1, 2));
    board.swap_empty_with(1, 0);
    assert_eq!(cells(&board), vec![vec![1, 2, 3], vec![4, 8, 5], vec![7, 6, 0]]);
    assert_eq!(board.empty_pos(), (2, 2));
    assert!(!board.animation().is_running());
    assert_eq!(board.animation().tiles().len(), 0);
}

#[test]
fn swap_is_what_a_click_on_the_neighbour_does_to_the_grid() {
    let mut clicked = Board::new(4);
    let mut swapped = Board::new(4);
    assert_eq!(clicked.move_slot((2, 3)), Ok(()));
    swapped.swap_empty_with(-1, 0);
    assert_eq!(cells(&clicked), cells(&swapped));
    assert_eq!(clicked.empty_pos(), swapped.empty_pos());
    assert!(clicked.animation().is_running());
    assert!(!swapped.animation().is_running());
}

#[test]
fn can_swap_asks_for_a_neighbour_and_forbids_the_way_back() {
    let mut board = Board::new(3);
    assert!(board.can_swap(Direction::Up, None));
    assert!(board.can_swap(Direction::Left, None));
    assert!(!board.can_swap(Direction::Right, None));
    assert!(!board.can_swap(Direction::Down, None));
    assert!(!board.can_swap(Direction::Up, Some(Direction::Down)));
    assert!(board.can_swap(Direction::Up, Some(Direction::Up)));
    assert!(board.can_swap(Direction::Up, Some(Direction::Left)));
    assert!(!board.can_swap(Direction::Left, Some(Direction::Right)));
    board.swap_empty_with(-1, -1 + 1);
    board.swap_empty_with(0, -1);
    assert_eq!(board.empty_pos(), (1, 1));
    for dir in [Direction::Up, Direction::Right, Direction::Down, Direction::Left] {
        assert!(board.can_swap(dir, None));
        assert!(!board.can_swap(dir, Some(dir.reverse())));
    }
}

#[test]
fn a_draw_that_is_open_moves_the_gap() {
    let mut board = Board::new(3);
    assert_eq!(board.mixup_step(0, None), Some(Direction::Up));
    assert_eq!(cells(&board), vec![vec![1, 2, 3], vec![4, 5, 0], vec![7, 8, 6]]);
    assert_eq!(board.mixup_step(3, Some(Direction::Up)), Some(Direction::Left));
    assert_eq!(cells(&board), vec![vec![1, 2, 3], vec![4, 0, 5], vec![7, 8, 6]]);
    assert_eq!(board.mixup_step(2, Some(Direction::Left)), Some(Direction::Down));
    assert_eq!(cells(&board), vec![vec![1, 2, 3], vec![4, 8, 5], vec![7, 0, 6]]);
    assert_eq!(board.mixup_step(1, Some(Direction::Down)), Some(Direction::Right));
    assert_eq!(cells(&board), vec![vec![1, 2, 3], vec![4, 8, 5], vec![7, 6, 0]]);
    assert_eq!(board.empty_pos(), (2, 2));
}

#[test]
fn a_draw_that_is_not_open_changes_nothing() {
    let mut board = Board::new(3);
    let solved = cells(&board);
    assert_eq!(board.mixup_step(1, None), None);
    assert_eq!(board.mixup_step(2, None), None);
    assert_eq!(board.mixup_step(0, Some(Direction::Down)), None);
    assert_eq!(board.mixup_step(3, Some(Direction::Right)), None);
    assert_eq!(board.mixup_step(4, None), None);
    assert_eq!(board.mixup_step(-1, None), None);
    assert_eq!(board.mixup_step(i32::MAX, None), None);
    assert_eq!(cells(&board), solved);
    assert_eq!(board.empty_pos(), (2, 2));
}

#[test]
fn the_first_step_of_a_shuffle_may_go_any_open_way() {
    let mut board = Board::new(3);
    board.swap_empty_with(0, -1);
    assert_eq!(board.mixup_step(2, None), Some(Direction::Down));
    assert_eq!(board.empty_pos(), (2, 2));
}

#[test]
fn shuffle_keeps_the_grid_a_permutation() {
    for n in 2..=6usize {
        let mut board = Board::new(n);
        board.mixup(&seeded(n as u64));
        assert_eq!(board.size(), n);
        assert!(holds_each_value_once(&board));
        let (gx, gy) = board.empty_pos();
        assert_eq!(board.tile(gx as usize, gy as usize), 0);
    }
}

#[test]
fn shuffle_leaves_a_board_that_can_be_solved() {
    for seed in 0..20u64 {
        for n in 2..=5usize {
            let mut board = Board::new(n);
            board.mixup(&seeded(seed));
            assert!(can_be_solved(&board));
        }
    }
}

#[test]
fn shuffle_makes_an_even_number_of_steps() {
    for seed in [1u64, 99, 12345] {
        for n in 2..=5usize {
            let mut board = Board::new(n);
            board.mixup(&seeded(seed));
            let (gx, gy) = board.empty_pos();
            let distance = (n - 1 - gx as usize) + (n - 1 - gy as usize);
            assert_eq!(distance % 2, (20 * n * n) % 2);
        }
    }
}

#[test]
fn shuffle_mixes_the_board() {
    for seed in [7u64, 8, 9, 2024] {
        for n in 3..=5usize {
            let mut board = Board::new(n);
            board.mixup(&seeded(seed));
            assert_ne!(cells(&board), cells(&Board::new(n)));
        }
    }
}

#[test]
fn shuffle_moves_the_gap_along_rows_and_columns() {
    let mut board = Board::new(4);
    let solved = cells(&board);
    board.mixup(&seeded(42));
    let shuffled = cells(&board);
    let moved_in_top_row = (0..4).any(|x| shuffled[0][x] != solved[0][x]);
    let moved_in_left_column = (0..4).any(|y| shuffled[y][0] != solved[y][0]);
    assert!(moved_in_top_row || moved_in_left_column);
}

#[test]
fn shuffle_with_the_same_seed_gives_the_same_board() {
    let mut first = Board::new(4);
    let mut second = Board::new(4);
    first.mixup(&seeded(31337));
    second.mixup(&seeded(31337));
    assert_eq!(cells(&first), cells(&second));
    assert_eq!(first.empty_pos(), second.empty_pos());
    let mut third = Board::new(4);
    third.mixup(&seeded(31338));
    assert_ne!(cells(&first), cells(&third));
}

#[test]
fn shuffle_leaves_the_animation_alone() {
    let mut board = Board::new(3);
    assert_eq!(board.move_slot((2, 0)), Ok(()));
    board.update(ANIM_DURATION / 2);
    let progress = board.animation().progress();
    board.mixup(&seeded(5));
    assert!(board.animation().is_running());
    assert_eq!(board.animation().progress(), progress);
    assert_eq!(board.animation().tiles(), &vec![(2, 0, 3), (2, 1, 6)]);
    assert_eq!(board.animation().vector(), (0, 1));
    assert!(holds_each_value_once(&board));
}

#[test]
fn shuffle_of_a_shuffled_board_can_still_be_solved() {
    let rng = seeded(77);
    let mut board = Board::new(4);
    board.mixup(&rng);
    board.mixup(&rng);
    assert!(holds_each_value_once(&board));
    assert!(can_be_solved(&board));
}

#[test]
fn directions_stand_for_draws_steps_and_their_reverses() {
    assert_eq!(Direction::from_draw(0), Some(Direction::Up));
    assert_eq!(Direction::from_draw(1), Some(Direction::Right));
    assert_eq!(Direction::from_draw(2), Some(Direction::Down));
    assert_eq!(Direction::from_draw(3), Some(Direction::Left));
    assert_eq!(Direction::from_draw(4), None);
    assert_eq!(Direction::from_draw(-1), None);
    assert_eq!(Direction::Up.vector(), (0, -1));
    assert_eq!(Direction::Right.vector(), (1, 0));
    assert_eq!(Direction::Down.vector(), (0, 1));
    assert_eq!(Direction::Left.vector(), (-1, 0));
    assert_eq!(Direction::Up.reverse(), Direction::Down);
    assert_eq!(Direction::Down.reverse(), Direction::Up);
    assert_eq!(Direction::Left.reverse(), Direction::Right);
    assert_eq!(Direction::Right.reverse(), Direction::Left);
}
