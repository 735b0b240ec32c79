use std::collections::HashSet;

use invaders::bullet::Bullet;
use invaders::frame::{Drawable, Frame};
use invaders::player::Player;
use invaders::{BULLET_CELL, EMPTY_CELL, NUM_COLS, NUM_ROWS, PLAYER_CELL};

#[test]
fn frame_new() {
    let frame = Frame::new();
    assert_eq!(frame.num_cols(), NUM_COLS);
    for col in 0..frame.num_cols() {
        assert_eq!(frame.num_rows(), NUM_ROWS);
        for row in 0..frame.num_rows() {
            assert_eq!(frame.get(col, row), EMPTY_CELL)
        }
    }
}

#[test]
fn test_iterator() {
    let frame = Frame::new();
    let expected_cells = frame.size();
    let mut actual_cells = 0;
    let mut cells = frame.into_iter();
    while let Some(_) = cells.next() {
        actual_cells += 1;
    }

    assert_eq!(expected_cells, actual_cells)
}

#[test]
fn frame_dimensions() {
    let frame = Frame::new();
    assert_eq!(frame.num_cols(), 40);
    assert_eq!(frame.num_rows(), 20);
    assert_eq!(frame.size(), 800);
}

#[test]
fn iterator_goes_down_each_column_in_turn() {
    let mut frame = Frame::new();
    frame.set(0, 1, PLAYER_CELL);
    frame.set(1, 0, BULLET_CELL);
    let mut cells = frame.into_iter();
    assert_eq!(cells.next(), Some((0, 0, EMPTY_CELL)));
    assert_eq!(cells.next(), Some((0, 1, PLAYER_CELL)));
    for row in 2..NUM_ROWS {
        assert_eq!(cells.next(), Some((0, row, EMPTY_CELL)));
    }
    assert_eq!(cells.next(), Some((1, 0, BULLET_CELL)));
    assert_eq!(cells.next(), Some((1, 1, EMPTY_CELL)));
}

#[test]
fn iterator_yields_each_coordinate_once() {
    let frame = Frame::new();
    let mut seen = HashSet::new();
    let mut cells = frame.into_iter();
    while let Some((col, row, glyph)) = cells.next() {
        assert!(col < NUM_COLS);
        assert!(row < NUM_ROWS);
        assert_eq!(glyph, EMPTY_CELL);
        assert!(seen.insert((col, row)));
    }
    assert_eq!(seen.len(), NUM_COLS * NUM_ROWS);
}

#[test]
fn iterator_stays_finished_and_can_be_restarted() {
    let frame = Frame::new();
    let mut cells = frame.into_iter();
    let mut count = 0;
    while cells.next().is_some() {
        count += 1;
    }
    assert_eq!(count, 800);
    assert_eq!(cells.next(), None);
    assert_eq!(cells.next(), None);
    let mut again = frame.into_iter();
    assert_eq!(again.next(), Some((0, 0, EMPTY_CELL)));
}

#[test]
fn cells_lists_the_grid_in_iteration_order() {
    let mut frame = Frame::new();
    frame.set(39, 19, PLAYER_CELL);
    frame.set(2, 5, BULLET_CELL);
    let cells = frame.cells();
    assert_eq!(cells.len(), 800);
    assert_eq!(cells[0], (0, 0, EMPTY_CELL));
    assert_eq!(cells[2 * NUM_ROWS + 5], (2, 5, BULLET_CELL));
    assert_eq!(cells[799], (39, 19, PLAYER_CELL));
    for (k, cell) in cells.iter().enumerate() {
        assert_eq!((cell.0, cell.1), (k / NUM_ROWS, k % NUM_ROWS));
    }
}

#[test]
fn set_writes_one_cell_only() {
    let mut frame = Frame::new();
    frame.set(3, 4, PLAYER_CELL);
    for col in 0..NUM_COLS {
        for row in 0..NUM_ROWS {
            let expected = if (col, row) == (3, 4) { PLAYER_CELL } else { EMPTY_CELL };
            assert_eq!(frame.get(col, row), expected);
        }
    }
    frame.set(3, 4, BULLET_CELL);
    assert_eq!(frame.get(3, 4), BULLET_CELL);
    frame.set(0, 0, PLAYER_CELL);
    frame.set(39, 19, PLAYER_CELL);
    assert_eq!(frame.get(0, 0), PLAYER_CELL);
    assert_eq!(frame.get(39, 19), PLAYER_CELL);
}

#[test]
fn draw_writes_the_cells_of_the_player() {
    let mut frame = Frame::new();
    let player = Player::new(20, 19);
    frame.draw(&player);
    let mut drawn = 0;
    for col in 0..NUM_COLS {
        for row in 0..NUM_ROWS {
            if frame.get(col, row) == PLAYER_CELL {
                drawn += 1;
            } else {
                assert_eq!(frame.get(col, row), EMPTY_CELL);
            }
        }
    }
    assert_eq!(drawn, 3);
    assert_eq!(frame.get(19, 19), PLAYER_CELL);
    assert_eq!(frame.get(20, 18), PLAYER_CELL);
    assert_eq!(frame.get(21, 19), PLAYER_CELL);
    assert_eq!(frame.get(20, 19), EMPTY_CELL);
}

#[test]
fn draw_lets_the_later_entity_win() {
    let player = Player::new(20, 19);
    let bullet = Bullet::new(20, 18);
    let mut frame = Frame::new();
    frame.draw(&player);
    frame.draw(&bullet);
    assert_eq!(frame.get(20, 18), BULLET_CELL);
    assert_eq!(frame.get(19, 19), PLAYER_CELL);
    let mut frame = Frame::new();
    frame.draw(&bullet);
    frame.draw(&player);
    assert_eq!(frame.get(20, 18), PLAYER_CELL);
}

#[test]
fn values_do_not_depend_on_the_frame() {
    let bullet = Bullet::new(7, 3);
    let before = bullet.values();
    let mut frame = Frame::new();
    frame.draw(&bullet);
    assert_eq!(bullet.values(), before);
    assert_eq!(before, vec![(7, 3, BULLET_CELL)]);
}

#[test]
fn all_in_frame_accepts_the_cells_of_the_grid() {
    let frame = Frame::new();
    assert!(frame.all_in_frame(vec![]));
    assert!(frame.all_in_frame(vec![(0, 0)]));
    assert!(frame.all_in_frame(vec![(39, 19)]));
    assert!(frame.all_in_frame(vec![(0, 19), (39, 0), (20, 10)]));
}

#[test]
fn all_in_frame_rejects_what_lies_outside() {
    let frame = Frame::new();
    assert!(!frame.all_in_frame(vec![(40, 0)]));
    assert!(!frame.all_in_frame(vec![(0, 20)]));
    assert!(!frame.all_in_frame(vec![(-1, 0)]));
    assert!(!frame.all_in_frame(vec![(0, -1)]));
    assert!(!frame.all_in_frame(vec![(5, 5), (40, 5)]));
    assert!(!frame.all_in_frame(vec![(-1, 19), (5, 5)]));
    assert!(!frame.all_in_frame(vec![(i32::MIN, i32::MAX)]));
}
