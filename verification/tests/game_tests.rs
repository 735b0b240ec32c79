use invaders::bullet::Bullet;
use invaders::frame::Frame;
use invaders::game::{compose, Game, Input, Phase};
use invaders::invader::Invader;
use invaders::player::Player;
use invaders::{BULLET_CELL, EMPTY_CELL, NUM_COLS, NUM_ROWS, PLAYER_CELL};

fn running(targets: Vec<Invader>) -> Game {
    let mut game = Game::new(targets);
    game.start();
    game
}

fn positions(bullets: &Vec<Bullet>) -> Vec<(i32, i32)> {
    bullets.iter().map(|bullet| bullet.position()).collect()
}

fn glyphs(frame: &Frame, glyph: &str) -> Vec<(usize, usize)> {
    let mut found = Vec::new();
    for col in 0..NUM_COLS {
        for row in 0..NUM_ROWS {
            if frame.get(col, row) == glyph {
                found.push((col, row));
            }
        }
    }
    found
}

#[test]
fn new_game_has_the_ship_in_the_middle_of_the_bottom_row() {
    let game = Game::new(vec![Invader::new(5, 10)]);
    assert_eq!(game.phase(), Phase::Starting);
    assert_eq!(game.player().positions(), [(19, 19), (20, 18), (21, 19)]);
    assert!(game.bullets().is_empty());
    assert_eq!(game.targets(), &vec![Invader::new(5, 10)]);
}

#[test]
fn phases_follow_one_another() {
    let mut game = Game::new(vec![]);
    assert_eq!(game.phase(), Phase::Starting);
    game.stop();
    assert_eq!(game.phase(), Phase::Starting);
    game.start();
    assert_eq!(game.phase(), Phase::Running);
    game.start();
    assert_eq!(game.phase(), Phase::Running);
    game.stop();
    assert_eq!(game.phase(), Phase::Running);
    assert!(game.step(vec![Input::Quit]).is_none());
    assert_eq!(game.phase(), Phase::Stopping);
    game.start();
    assert_eq!(game.phase(), Phase::Stopping);
    game.stop();
    assert_eq!(game.phase(), Phase::Stopped);
    game.stop();
    assert_eq!(game.phase(), Phase::Stopped);
    assert!(game.step(vec![Input::Fire]).is_none());
    assert_eq!(game.phase(), Phase::Stopped);
}

#[test]
fn a_game_that_does_not_run_takes_no_input() {
    let mut game = Game::new(vec![]);
    assert!(game.step(vec![Input::Fire, Input::Left]).is_none());
    assert_eq!(game.phase(), Phase::Starting);
    assert!(game.bullets().is_empty());
    assert_eq!(game.player().positions(), [(19, 19), (20, 18), (21, 19)]);
}

#[test]
fn an_idle_round_shows_the_ship_alone() {
    let mut game = running(vec![]);
    let frame = game.step(vec![]).unwrap();
    assert_eq!(glyphs(&frame, PLAYER_CELL), vec![(19, 19), (20, 18), (21, 19)]);
    assert_eq!(glyphs(&frame, BULLET_CELL), vec![]);
    assert_eq!(glyphs(&frame, EMPTY_CELL).len(), 797);
    let frame = game.step(vec![Input::Idle, Input::Idle]).unwrap();
    assert_eq!(glyphs(&frame, PLAYER_CELL), vec![(19, 19), (20, 18), (21, 19)]);
}

#[test]
fn moves_steer_the_ship() {
    let mut game = running(vec![]);
    game.step(vec![Input::Left]).unwrap();
    assert_eq!(game.player().positions(), [(18, 19), (19, 18), (20, 19)]);
    let frame = game.step(vec![Input::Right, Input::Right, Input::Right]).unwrap();
    assert_eq!(game.player().positions(), [(21, 19), (22, 18), (23, 19)]);
    assert_eq!(glyphs(&frame, PLAYER_CELL), vec![(21, 19), (22, 18), (23, 19)]);
}

#[test]
fn the_ship_stops_at_the_left_edge() {
    let mut game = running(vec![]);
    game.step(vec![Input::Left; 19]).unwrap();
    assert_eq!(game.player().positions(), [(0, 19), (1, 18), (2, 19)]);
    game.step(vec![Input::Left]).unwrap();
    assert_eq!(game.player().positions(), [(0, 19), (1, 18), (2, 19)]);
    game.step(vec![Input::Left, Input::Right]).unwrap();
    assert_eq!(game.player().positions(), [(1, 19), (2, 18), (3, 19)]);
}

#[test]
fn the_ship_stops_at_the_right_edge() {
    let mut game = running(vec![]);
    game.step(vec![Input::Right; 18]).unwrap();
    assert_eq!(game.player().positions(), [(37, 19), (38, 18), (39, 19)]);
    game.step(vec![Input::Right, Input::Right]).unwrap();
    assert_eq!(game.player().positions(), [(37, 19), (38, 18), (39, 19)]);
}

#[test]
fn quit_ends_the_round_at_once() {
    let mut game = running(vec![]);
    let shown = game.step(vec![Input::Left, Input::Quit, Input::Left, Input::Fire]);
    assert!(shown.is_none());
    assert_eq!(game.phase(), Phase::Stopping);
    assert_eq!(game.player().positions(), [(18, 19), (19, 18), (20, 19)]);
    assert!(game.bullets().is_empty());
}

#[test]
fn a_fired_bullet_is_first_seen_one_row_above_the_nose() {
    let mut game = running(vec![]);
    let frame = game.step(vec![Input::Fire]).unwrap();
    assert_eq!(positions(game.bullets()), vec![(20, 17)]);
    assert_eq!(glyphs(&frame, BULLET_CELL), vec![(20, 17)]);
    assert_eq!(glyphs(&frame, PLAYER_CELL), vec![(19, 19), (20, 18), (21, 19)]);
}

#[test]
fn a_bullet_climbs_one_row_each_tick_and_leaves_at_the_top() {
    let mut game = running(vec![]);
    game.handle_input(&Frame::new(), Input::Fire);
    assert_eq!(positions(game.bullets()), vec![(20, 18)]);
    for tick in 1..=5 {
        game.step(vec![]).unwrap();
        assert_eq!(positions(game.bullets()), vec![(20, 18 - tick)]);
    }
    assert_eq!(positions(game.bullets()), vec![(20, 13)]);
    for _ in 0..13 {
        game.step(vec![]).unwrap();
    }
    assert_eq!(positions(game.bullets()), vec![(20, 0)]);
    let frame = game.step(vec![]).unwrap();
    assert!(game.bullets().is_empty());
    assert_eq!(glyphs(&frame, BULLET_CELL), vec![]);
    game.step(vec![]).unwrap();
    assert!(game.bullets().is_empty());
}

#[test]
fn bullets_keep_their_order() {
    let mut game = running(vec![]);
    game.step(vec![Input::Fire]).unwrap();
    game.step(vec![Input::Left, Input::Fire]).unwrap();
    game.step(vec![Input::Right, Input::Right, Input::Fire, Input::Fire]).unwrap();
    assert_eq!(
        positions(game.bullets()),
        vec![(20, 15), (19, 16), (21, 17), (21, 17)]
    );
}

#[test]
fn a_bullet_and_an_invader_in_one_cell_are_both_removed() {
    let mut game = running(vec![Invader::new(20, 16), Invader::new(3, 3)]);
    game.step(vec![Input::Fire]).unwrap();
    assert_eq!(positions(game.bullets()), vec![(20, 17)]);
    assert_eq!(game.targets().len(), 2);
    let frame = game.step(vec![]).unwrap();
    assert!(game.bullets().is_empty());
    assert_eq!(game.targets(), &vec![Invader::new(3, 3)]);
    assert_eq!(frame.get(20, 16), EMPTY_CELL);
    assert_eq!(glyphs(&frame, BULLET_CELL), vec![]);
}

#[test]
fn one_hit_takes_every_bullet_and_every_invader_of_the_cell() {
    let mut game = running(vec![
        Invader::new(20, 17),
        Invader::new(20, 17),
        Invader::new(20, 16),
    ]);
    game.step(vec![Input::Fire, Input::Fire, Input::Left, Input::Fire]).unwrap();
    assert_eq!(positions(game.bullets()), vec![(19, 17)]);
    assert_eq!(game.targets(), &vec![Invader::new(20, 16)]);
}

#[test]
fn a_bullet_flies_past_an_invader_in_another_column() {
    let mut game = running(vec![Invader::new(21, 17), Invader::new(20, 18)]);
    game.step(vec![Input::Fire]).unwrap();
    game.step(vec![]).unwrap();
    assert_eq!(positions(game.bullets()), vec![(20, 16)]);
    assert_eq!(game.targets().len(), 2);
}

#[test]
fn tick_moves_bullets_whatever_the_phase() {
    let mut game = running(vec![Invader::new(20, 17)]);
    let field = Frame::new();
    game.handle_input(&field, Input::Fire);
    game.handle_input(&field, Input::Quit);
    game.handle_input(&field, Input::Fire);
    assert_eq!(positions(game.bullets()), vec![(20, 18)]);
    game.tick(&field);
    assert!(game.bullets().is_empty());
    assert!(game.targets().is_empty());
}

#[test]
fn stop_leaves_no_bullet_and_no_invader() {
    let mut game = running(vec![Invader::new(1, 1)]);
    game.step(vec![Input::Fire]).unwrap();
    assert!(game.step(vec![Input::Quit]).is_none());
    assert_eq!(game.bullets().len(), 1);
    game.stop();
    assert_eq!(game.phase(), Phase::Stopped);
    assert!(game.bullets().is_empty());
    assert!(game.targets().is_empty());
    assert_eq!(game.player().positions(), [(19, 19), (20, 18), (21, 19)]);
}

#[test]
fn compose_draws_the_ship_and_then_the_bullets() {
    let player = Player::new(20, 19);
    let bullets = vec![Bullet::new(5, 5), Bullet::new(20, 18), Bullet::new(0, 0)];
    let frame = compose(&player, &bullets);
    assert_eq!(frame.get(19, 19), PLAYER_CELL);
    assert_eq!(frame.get(21, 19), PLAYER_CELL);
    assert_eq!(frame.get(20, 18), BULLET_CELL);
    assert_eq!(glyphs(&frame, BULLET_CELL), vec![(0, 0), (5, 5), (20, 18)]);
    assert_eq!(glyphs(&frame, PLAYER_CELL), vec![(19, 19), (21, 19)]);
    assert_eq!(glyphs(&frame, EMPTY_CELL).len(), 795);
}

#[test]
fn compose_leaves_the_entities_as_they_are() {
    let player = Player::new(20, 19);
    let bullets = vec![Bullet::new(5, 5)];
    let first = compose(&player, &bullets);
    let second = compose(&player, &bullets);
    assert_eq!(first.cells(), second.cells());
    assert_eq!(player.positions(), [(19, 19), (20, 18), (21, 19)]);
    assert_eq!(bullets, vec![Bullet::new(5, 5)]);
}

#[test]
fn fire_and_five_ticks_take_the_bullet_five_rows_up() {
    let mut game = running(vec![]);
    let spawn_row = game.player().fire().position().1;
    assert_eq!(spawn_row, 18);
    game.step(vec![Input::Fire]).unwrap();
    for _ in 0..4 {
        game.step(vec![]).unwrap();
    }
    assert_eq!(positions(game.bullets()), vec![(20, spawn_row - 5)]);
    let mut ticks = 5;
    while !game.bullets().is_empty() {
        let row = game.bullets()[0].position().1;
        assert!(row >= 0);
        assert_eq!(row, spawn_row - ticks);
        game.step(vec![]).unwrap();
        ticks += 1;
    }
    assert_eq!(ticks, 19);
}

#[test]
fn a_shot_from_the_top_row_is_never_seen() {
    let player = Player::new(5, 1);
    assert_eq!(player.fire().position(), (5, 0));
    let mut game = running(vec![]);
    let field = Frame::new();
    game.handle_input(&field, Input::Fire);
    for _ in 0..18 {
        game.tick(&field);
    }
    assert_eq!(positions(game.bullets()), vec![(20, 0)]);
    game.tick(&field);
    assert!(game.bullets().is_empty());
}
