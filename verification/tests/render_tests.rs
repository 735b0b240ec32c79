use invaders::frame::Frame;
use invaders::render::{changed_cells, same_glyph, Renderer};
use invaders::{BULLET_CELL, EMPTY_CELL, NUM_COLS, NUM_ROWS, PLAYER_CELL};

#[test]
fn same_glyph_compares_the_text() {
    assert!(same_glyph("X", "X"));
    assert!(same_glyph("", ""));
    assert!(same_glyph(EMPTY_CELL, " "));
    assert!(!same_glyph("X", "^"));
    assert!(!same_glyph("X", "XX"));
    assert!(!same_glyph("XX", "X"));
    assert!(!same_glyph("", " "));
    assert!(same_glyph("\u{e9}\u{20ac}", "\u{e9}\u{20ac}"));
    assert!(!same_glyph("\u{e9}", "e"));
}

#[test]
fn equal_frames_need_no_write() {
    let last = Frame::new();
    let curr = Frame::new();
    assert_eq!(changed_cells(&last, &curr, false), vec![]);
    let mut last = Frame::new();
    let mut curr = Frame::new();
    last.set(4, 4, PLAYER_CELL);
    curr.set(4, 4, PLAYER_CELL);
    assert_eq!(changed_cells(&last, &curr, false), vec![]);
}

#[test]
fn one_changed_cell_needs_one_write() {
    let last = Frame::new();
    let mut curr = Frame::new();
    curr.set(7, 3, BULLET_CELL);
    assert_eq!(changed_cells(&last, &curr, false), vec![(7, 3, BULLET_CELL)]);
}

#[test]
fn a_cell_that_was_cleared_is_written_as_empty() {
    let mut last = Frame::new();
    last.set(7, 3, BULLET_CELL);
    let curr = Frame::new();
    assert_eq!(changed_cells(&last, &curr, false), vec![(7, 3, EMPTY_CELL)]);
}

#[test]
fn changed_cells_come_in_iteration_order() {
    let mut last = Frame::new();
    last.set(0, 0, PLAYER_CELL);
    let mut curr = Frame::new();
    curr.set(39, 19, PLAYER_CELL);
    curr.set(5, 2, BULLET_CELL);
    curr.set(5, 1, BULLET_CELL);
    curr.set(4, 19, PLAYER_CELL);
    assert_eq!(
        changed_cells(&last, &curr, false),
        vec![
            (0, 0, EMPTY_CELL),
            (4, 19, PLAYER_CELL),
            (5, 1, BULLET_CELL),
            (5, 2, BULLET_CELL),
            (39, 19, PLAYER_CELL),
        ]
    );
}

#[test]
fn a_forced_redraw_writes_every_cell() {
    let last = Frame::new();
    let mut curr = Frame::new();
    curr.set(1, 1, PLAYER_CELL);
    let cells = changed_cells(&last, &curr, true);
    assert_eq!(cells.len(), NUM_COLS * NUM_ROWS);
    assert_eq!(cells, curr.cells());
    assert_eq!(cells[NUM_ROWS + 1], (1, 1, PLAYER_CELL));
    let same = changed_cells(&curr, &curr, true);
    assert_eq!(same.len(), 800);
}

#[test]
fn renderer_starts_from_the_blank_frame() {
    let renderer = Renderer::new();
    let cells = renderer.first_frame();
    assert_eq!(cells.len(), 800);
    for (k, cell) in cells.iter().enumerate() {
        assert_eq!(*cell, (k / NUM_ROWS, k % NUM_ROWS, EMPTY_CELL));
    }
}

#[test]
fn renderer_writes_what_changed_since_the_frame_before() {
    let mut renderer = Renderer::new();
    let mut first = Frame::new();
    first.set(20, 18, BULLET_CELL);
    assert_eq!(renderer.next_frame(first), vec![(20, 18, BULLET_CELL)]);
    let mut second = Frame::new();
    second.set(20, 17, BULLET_CELL);
    assert_eq!(
        renderer.next_frame(second),
        vec![(20, 17, BULLET_CELL), (20, 18, EMPTY_CELL)]
    );
}

#[test]
fn renderer_moves_its_baseline_with_every_frame() {
    let mut renderer = Renderer::new();
    let mut frame = Frame::new();
    frame.set(3, 3, PLAYER_CELL);
    let cells = renderer.next_frame(frame);
    assert_eq!(cells, vec![(3, 3, PLAYER_CELL)]);
    // The cells above were never written anywhere: the next frame is still
    // compared with the frame that was handed in last.
    let mut again = Frame::new();
    again.set(3, 3, PLAYER_CELL);
    assert_eq!(renderer.next_frame(again), vec![]);
    assert_eq!(renderer.next_frame(Frame::new()), vec![(3, 3, EMPTY_CELL)]);
}
