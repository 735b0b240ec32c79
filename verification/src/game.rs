use vstd::prelude::*;
use crate::bullet::{advanced, proposed, Bullet};
use crate::frame::{
    as_points, blank_grid, in_grid, is_grid, lemma_marked_on_field, lemma_paint_keeps_dimensions,
    lemma_paint_last_write_wins, lemma_paint_one_more, marked, names, on_field, paint, Frame, Grid,
};
use crate::invader::Invader;
use crate::player::{has_shape, lemma_shift_keeps_shape, shape, shifted, Player};
use crate::{BULLET_CELL, NUM_COLS, NUM_ROWS, PLAYER_CELL};

verus! {

/// Where the coordinator stands between start-up and shutdown.
#[derive(Clone, Copy, Debug, PartialEq, Eq, Structural)]
pub enum Phase {
    /// Terminal and renderer are being set up; no tick has run.
    Starting,
    /// Ticks run.
    Running,
    /// Quit was asked for; the renderer is being wound down.
    Stopping,
    /// Everything is wound down.
    Stopped,
}

/// A decoded key event.
#[derive(Clone, Copy, Debug, PartialEq, Eq, Structural)]
pub enum Input {
    /// Leave the game.
    Quit,
    /// Move the ship one column to the left.
    Left,
    /// Move the ship one column to the right.
    Right,
    /// Fire a bullet.
    Fire,
    /// A key that means nothing to the game.
    Idle,
}

/// The mathematical model of a game: its phase and where its entities are.
pub struct World {
    /// The coordinator's phase.
    pub phase: Phase,
    /// The ship's three cells: left, nose, right.
    pub player: Seq<(int, int)>,
    /// The bullets, oldest first.
    pub bullets: Seq<(int, int)>,
    /// The invaders, in the order in which they were set up.
    pub targets: Seq<(int, int)>,
}

/// The points at which `bullets` are.
pub open spec fn bullet_points(bullets: Seq<Bullet>) -> Seq<(int, int)> {
    Seq::new(bullets.len(), |i: int| bullets[i]@)
}

/// The points at which `invaders` are.
pub open spec fn invader_points(invaders: Seq<Invader>) -> Seq<(int, int)> {
    Seq::new(invaders.len(), |i: int| invaders[i]@)
}

/// The anchor from which the ship starts: the middle column of the bottom
/// row.
pub open spec fn start_anchor() -> (int, int) {
    (NUM_COLS as int / 2, NUM_ROWS as int - 1)
}

/// The world before the first tick, with the invaders at `targets`.
pub open spec fn initial_world(targets: Seq<(int, int)>) -> World {
    World {
        phase: Phase::Starting,
        player: shape(start_anchor()),
        bullets: Seq::empty(),
        targets,
    }
}

/// The ship after it was asked to move by `dir` columns: moved if all of its
/// cells then lie on the playing field, else where it was.
pub open spec fn steered(player: Seq<(int, int)>, dir: int) -> Seq<(int, int)> {
    if on_field(shifted(player, dir)) {
        shifted(player, dir)
    } else {
        player
    }
}

/// The world after one input. Inputs count only while the game runs.
pub open spec fn after_input(w: World, input: Input) -> World {
    if w.phase != Phase::Running {
        w
    } else {
        match input {
            Input::Quit => World { phase: Phase::Stopping, ..w },
            Input::Left => World { player: steered(w.player, -1), ..w },
            Input::Right => World { player: steered(w.player, 1), ..w },
            Input::Fire => World { bullets: w.bullets.push(w.player[1]), ..w },
            Input::Idle => w,
        }
    }
}

/// The world after the inputs `inputs`, taken one after the other.
pub open spec fn after_inputs(w: World, inputs: Seq<Input>) -> World
    decreases inputs.len(),
{
    if inputs.len() == 0 {
        w
    } else {
        after_input(after_inputs(w, inputs.drop_last()), inputs.last())
    }
}

/// The test for a bullet whose next position is on the playing field.
pub open spec fn in_flight() -> spec_fn((int, int)) -> bool {
    |bullet: (int, int)| in_grid(proposed(bullet).0, proposed(bullet).1)
}

/// The move of one bullet.
pub open spec fn fly() -> spec_fn((int, int)) -> (int, int) {
    |bullet: (int, int)| advanced(bullet)
}

/// The test for a point at which none of `points` is.
pub open spec fn clear_of(points: Seq<(int, int)>) -> spec_fn((int, int)) -> bool {
    |point: (int, int)| !points.contains(point)
}

/// The bullets after their move: those whose next position is on the playing
/// field, each one row up; the others are gone.
pub open spec fn flown(bullets: Seq<(int, int)>) -> Seq<(int, int)> {
    bullets.filter(in_flight()).map_values(fly())
}

/// The world after the entities' part of a tick: the bullets have moved, and
/// each bullet and each invader that then share a cell are gone.
pub open spec fn after_tick(w: World) -> World {
    World {
        bullets: flown(w.bullets).filter(clear_of(w.targets)),
        targets: w.targets.filter(clear_of(flown(w.bullets))),
        ..w
    }
}

/// The world after one round of a running game: the inputs, then, unless one
/// of them was a quit, the tick.
pub open spec fn after_step(w: World, inputs: Seq<Input>) -> World {
    let w = after_inputs(w, inputs);
    if w.phase == Phase::Running {
        after_tick(w)
    } else {
        w
    }
}

/// The frame that shows a ship at `player` and bullets at `bullets`: on a
/// blank grid the ship is drawn first, then the bullets from the oldest to
/// the youngest.
pub open spec fn scene(player: Seq<(int, int)>, bullets: Seq<(int, int)>) -> Grid {
    paint(paint(blank_grid(), marked(player, PLAYER_CELL)), marked(bullets, BULLET_CELL))
}

/// Composes the frame that shows `player` and `bullets`.
pub fn compose(player: &Player, bullets: &Vec<Bullet>) -> (frame: Frame)
    requires
        on_field(player@),
        on_field(bullet_points(bullets@)),
    ensures
        frame@ == scene(player@, bullet_points(bullets@)),
{
    let mut frame = Frame::new();
    proof {
        lemma_marked_on_field(player@, PLAYER_CELL);
    }
    frame.draw(player);
    let ghost base = frame@;
    let ghost points = bullet_points(bullets@);
    let mut i: usize = 0;
    assert(marked(points.take(0), BULLET_CELL) =~= Seq::empty());
    while i < bullets.len()
        invariant
            i <= bullets@.len(),
            points == bullet_points(bullets@),
            on_field(points),
            frame@ == paint(base, marked(points.take(i as int), BULLET_CELL)),
        decreases bullets@.len() - i,
    {
        proof {
            assert(points[i as int] == bullets@[i as int]@);
            assert(in_grid(points[i as int].0, points[i as int].1));
            lemma_marked_on_field(seq![bullets@[i as int]@], BULLET_CELL);
        }
        frame.draw(&bullets[i]);
        proof {
            let before = marked(points.take(i as int), BULLET_CELL);
            let one = marked(seq![bullets@[i as int]@], BULLET_CELL);
            assert(one =~= seq![one[0]]);
            assert(marked(points.take(i + 1), BULLET_CELL) =~= before.push(one[0]));
            lemma_paint_one_more(base, before, one[0]);
            lemma_paint_one_more(paint(base, before), before, one[0]);
        }
        i += 1;
    }
    assert(points.take(i as int) =~= points);
    frame
}

/// Whether `w` is a world that a game can be in: the ship has its shape, and
/// the ship and the bullets are on the playing field.
pub open spec fn valid(w: World) -> bool {
    has_shape(w.player) && on_field(w.player) && on_field(w.bullets)
}

/// The state of a game: the coordinator's phase and the live entities.
pub struct Game {
    phase: Phase,
    player: Player,
    bullets: Vec<Bullet>,
    targets: Vec<Invader>,
}

impl View for Game {
    type V = World;

    closed spec fn view(&self) -> World {
        World {
            phase: self.phase,
            player: self.player@,
            bullets: bullet_points(self.bullets@),
            targets: invader_points(self.targets@),
        }
    }
}

impl Game {
    /// A game is always in a valid world.
    #[verifier::type_invariant]
    pub open spec fn wf(&self) -> bool {
        valid(self@)
    }

    /// A game that is about to start, with the ship in the middle of the
    /// bottom row, no bullets, and the invaders `targets`.
    pub fn new(targets: Vec<Invader>) -> (game: Self)
        ensures
            game@ == initial_world(invader_points(targets@)),
    {
        let player = Player::new((NUM_COLS / 2) as i32, (NUM_ROWS - 1) as i32);
        let bullets: Vec<Bullet> = Vec::new();
        assert(bullet_points(bullets@) =~= Seq::empty());
        Game { phase: Phase::Starting, player, bullets, targets }
    }

    /// The coordinator's phase.
    pub fn phase(&self) -> (phase: Phase)
        ensures
            phase == self@.phase,
    {
        self.phase
    }

    /// The ship.
    pub fn player(&self) -> (player: &Player)
        ensures
            player@ == self@.player,
            on_field(player@),
    {
        proof {
            use_type_invariant(self);
        }
        &self.player
    }

    /// The live bullets, oldest first.
    pub fn bullets(&self) -> (bullets: &Vec<Bullet>)
        ensures
            bullet_points(bullets@) == self@.bullets,
            on_field(self@.bullets),
    {
        proof {
            use_type_invariant(self);
        }
        &self.bullets
    }

    /// The live invaders.
    pub fn targets(&self) -> (targets: &Vec<Invader>)
        ensures
            invader_points(targets@) == self@.targets,
    {
        &self.targets
    }

    /// Starts the ticks of a game that was about to start; any other game is
    /// left as it is.
    pub fn start(&mut self)
        ensures
            final(self)@ == (if old(self)@.phase == Phase::Starting {
                World { phase: Phase::Running, ..old(self)@ }
            } else {
                old(self)@
            }),
    {
        proof {
            use_type_invariant(&*self);
        }
        if self.phase == Phase::Starting {
            self.phase = Phase::Running;
        }
    }

    /// Winds down a game that was stopping: no bullet and no invader is left.
    /// Any other game is left as it is.
    pub fn stop(&mut self)
        ensures
            final(self)@ == (if old(self)@.phase == Phase::Stopping {
                World {
                    phase: Phase::Stopped,
                    bullets: Seq::empty(),
                    targets: Seq::empty(),
                    ..old(self)@
                }
            } else {
                old(self)@
            }),
    {
        proof {
            use_type_invariant(&*self);
        }
        if self.phase == Phase::Stopping {
            let bullets: Vec<Bullet> = Vec::new();
            let targets: Vec<Invader> = Vec::new();
            assert(bullet_points(bullets@) =~= Seq::empty());
            assert(invader_points(targets@) =~= Seq::empty());
            self.bullets = bullets;
            self.targets = targets;
            self.phase = Phase::Stopped;
        }
    }

    /// Takes one input: while the game runs, a quit stops it, a move steers
    /// the ship if the ship stays on the playing field, and a shot adds a
    /// bullet in the ship's nose cell.
    pub fn handle_input(&mut self, frame: &Frame, input: Input)
        ensures
            final(self)@ == after_input(old(self)@, input),
    {
        proof {
            use_type_invariant(&*self);
            use_type_invariant(&self.player);
        }
        if self.phase != Phase::Running {
            return ;
        }
        match input {
            Input::Quit => {
                self.phase = Phase::Stopping;
            },
            Input::Left => {
                if frame.all_in_frame(self.player.try_move(-1)) {
                    self.player.apply_move(-1)
                }
            },
            Input::Right => {
                if frame.all_in_frame(self.player.try_move(1)) {
                    self.player.apply_move(1)
                }
            },
            Input::Fire => {
                let bullet = self.player.fire();
                let mut bullets: Vec<Bullet> = Vec::new();
                assert(bullet_points(bullets@) =~= Seq::empty());
                core::mem::swap(&mut self.bullets, &mut bullets);
                assert(bullet_points(bullets@.push(bullet)) =~= bullet_points(bullets@).push(
                    bullet@,
                ));
                assert(in_grid(self.player@[1].0, self.player@[1].1));
                bullets.push(bullet);
                self.bullets = bullets;
            },
            Input::Idle => {},
        }
    }

    /// The entities' part of a tick: every bullet whose next position is on
    /// the playing field moves there and the others are dropped; then every
    /// bullet and every invader that share a cell are dropped.
    pub fn tick(&mut self, frame: &Frame)
        ensures
            final(self)@ == after_tick(old(self)@),
    {
        proof {
            use_type_invariant(&*self);
        }
        let ghost before = bullet_points(self.bullets@);
        let mut flying: Vec<Bullet> = Vec::new();
        let mut i: usize = 0;
        proof {
            assert(before.take(0) =~= Seq::empty());
            lemma_flown_empty();
            assert(bullet_points(flying@) =~= Seq::empty());
        }
        while i < self.bullets.len()
            invariant
                i <= self.bullets@.len(),
                before == bullet_points(self.bullets@),
                on_field(before),
                on_field(bullet_points(flying@)),
                bullet_points(flying@) == flown(before.take(i as int)),
            decreases self.bullets@.len() - i,
        {
            let mut bullet = self.bullets[i];
            proof {
                assert(before[i as int] == bullet@);
                assert(in_grid(bullet@.0, bullet@.1));
                lemma_flown_one_more(before.take(i as int), bullet@);
                before.lemma_take_succ_push(i as int);
            }
            let moves = bullet.try_move(1);
            assert(as_points(moves@)[0] == proposed(bullet@));
            if frame.all_in_frame(moves) {
                bullet.apply_move(1);
                assert(bullet_points(flying@.push(bullet)) =~= bullet_points(flying@).push(
                    bullet@,
                ));
                flying.push(bullet);
            }
            i += 1;
        }
        assert(before.take(i as int) =~= before);
        let ghost moved = bullet_points(flying@);
        let ghost targets = invader_points(self.targets@);

        let mut bullets: Vec<Bullet> = Vec::new();
        let mut i: usize = 0;
        proof {
            assert(moved.take(0) =~= Seq::empty());
            lemma_filter_empty(clear_of(targets));
            assert(bullet_points(bullets@) =~= Seq::empty());
        }
        while i < flying.len()
            invariant
                i <= flying@.len(),
                moved == bullet_points(flying@),
                targets == invader_points(self.targets@),
                on_field(moved),
                on_field(bullet_points(bullets@)),
                bullet_points(bullets@) == moved.take(i as int).filter(clear_of(targets)),
            decreases flying@.len() - i,
        {
            let bullet = flying[i];
            proof {
                assert(moved[i as int] == bullet@);
                assert(in_grid(bullet@.0, bullet@.1));
                moved.lemma_take_succ_push(i as int);
                moved.take(i as int).lemma_filter_push(bullet@, clear_of(targets));
            }
            if !hits_any(&self.targets, &bullet) {
                assert(bullet_points(bullets@.push(bullet)) =~= bullet_points(bullets@).push(
                    bullet@,
                ));
                bullets.push(bullet);
            }
            i += 1;
        }
        assert(moved.take(i as int) =~= moved);

        let mut invaders: Vec<Invader> = Vec::new();
        let mut i: usize = 0;
        proof {
            assert(targets.take(0) =~= Seq::empty());
            lemma_filter_empty(clear_of(moved));
            assert(invader_points(invaders@) =~= Seq::empty());
        }
        while i < self.targets.len()
            invariant
                i <= self.targets@.len(),
                moved == bullet_points(flying@),
                targets == invader_points(self.targets@),
                invader_points(invaders@) == targets.take(i as int).filter(clear_of(moved)),
            decreases self.targets@.len() - i,
        {
            let invader = self.targets[i];
            proof {
                assert(targets[i as int] == invader@);
                targets.lemma_take_succ_push(i as int);
                targets.take(i as int).lemma_filter_push(invader@, clear_of(moved));
            }
            if !hit_by_any(&invader, &flying) {
                assert(invader_points(invaders@.push(invader)) =~= invader_points(
                    invaders@,
                ).push(invader@));
                invaders.push(invader);
            }
            i += 1;
        }
        assert(targets.take(i as int) =~= targets);

        self.bullets = bullets;
        self.targets = invaders;
    }

    /// One round of the coordinator's loop: takes the inputs that are
    /// pending, in their order, and then, unless one of them was a quit or the
    /// game does not run, moves the entities and composes the frame to show.
    /// `None` says that there is no frame to show: the game does not run.
    pub fn step(&mut self, inputs: Vec<Input>) -> (shown: Option<Frame>)
        ensures
            final(self)@ == after_step(old(self)@, inputs@),
            match shown {
                Some(frame) => final(self)@.phase == Phase::Running && frame@ == scene(
                    final(self)@.player,
                    final(self)@.bullets,
                ),
                None => final(self)@.phase != Phase::Running,
            },
    {
        let frame = Frame::new();
        let mut i: usize = 0;
        while i < inputs.len()
            invariant
                i <= inputs@.len(),
                self@ == after_inputs(old(self)@, inputs@.take(i as int)),
            decreases inputs@.len() - i,
        {
            proof {
                inputs@.lemma_take_succ_push(i as int);
                assert(inputs@.take(i + 1).drop_last() =~= inputs@.take(i as int));
            }
            self.handle_input(&frame, inputs[i]);
            i += 1;
        }
        assert(inputs@.take(i as int) =~= inputs@);
        if self.phase != Phase::Running {
            return None;
        }
        self.tick(&frame);
        proof {
            use_type_invariant(&*self);
        }
        Some(compose(&self.player, &self.bullets))
    }
}

/// What a tick does to the bullets: each bullet that is left is on the
/// playing field, one row above a bullet from before the tick, and in no
/// invader's cell; each bullet whose next position is on the playing field
/// and in no invader's cell is left, one row up; and no bullet is added.
pub proof fn lemma_tick_moves_bullets_one_row_up(w: World)
    ensures
        after_tick(w).bullets.len() <= w.bullets.len(),
        forall|i: int|
            0 <= i < after_tick(w).bullets.len() ==> {
                let bullet = #[trigger] after_tick(w).bullets[i];
                &&& in_grid(bullet.0, bullet.1)
                &&& w.bullets.contains((bullet.0, bullet.1 + 1))
                &&& !w.targets.contains(bullet)
            },
        forall|i: int|
            0 <= i < w.bullets.len() && in_grid(proposed(w.bullets[i]).0, proposed(w.bullets[i]).1)
                && !w.targets.contains(proposed(w.bullets[i])) ==> after_tick(w).bullets.contains(
                proposed(#[trigger] w.bullets[i]),
            ),
{
    let flying = w.bullets.filter(in_flight());
    let moved = flown(w.bullets);
    let left = after_tick(w).bullets;
    w.bullets.lemma_filter_len(in_flight());
    moved.lemma_filter_len(clear_of(w.targets));
    assert forall|i: int| 0 <= i < left.len() implies {
        let bullet = #[trigger] left[i];
        &&& in_grid(bullet.0, bullet.1)
        &&& w.bullets.contains((bullet.0, bullet.1 + 1))
        &&& !w.targets.contains(bullet)
    } by {
        let bullet = left[i];
        moved.lemma_filter_pred(clear_of(w.targets), i);
        assert(left.contains(bullet));
        moved.lemma_filter_contains_rev(clear_of(w.targets), bullet);
        let k = choose|k: int| 0 <= k < moved.len() && moved[k] == bullet;
        w.bullets.lemma_filter_pred(in_flight(), k);
        assert(flying.contains(flying[k]));
        w.bullets.lemma_filter_contains_rev(in_flight(), flying[k]);
        assert(flying[k] == (bullet.0, bullet.1 + 1));
    }
    assert forall|i: int|
        0 <= i < w.bullets.len() && in_grid(proposed(w.bullets[i]).0, proposed(w.bullets[i]).1)
            && !w.targets.contains(proposed(w.bullets[i])) implies left.contains(
        proposed(#[trigger] w.bullets[i]),
    ) by {
        w.bullets.lemma_filter_contains(in_flight(), i);
        let k = choose|k: int| 0 <= k < flying.len() && flying[k] == w.bullets[i];
        assert(moved[k] == proposed(w.bullets[i]));
        moved.lemma_filter_contains(clear_of(w.targets), k);
    }
}

/// A bullet that is alone, with no invader in its way, is one row up after a
/// tick if that row is on the playing field, and gone if it is not: a bullet
/// in row 0 does not outlive the tick.
pub proof fn lemma_lone_bullet(w: World, bullet: (int, int))
    requires
        w.bullets == seq![bullet],
        !w.targets.contains(proposed(bullet)),
    ensures
        after_tick(w).bullets == if in_grid(proposed(bullet).0, proposed(bullet).1) {
            seq![proposed(bullet)]
        } else {
            Seq::empty()
        },
{
    lemma_flown_empty();
    lemma_flown_one_more(Seq::empty(), bullet);
    assert(Seq::<(int, int)>::empty().push(bullet) =~= seq![bullet]);
    lemma_filter_empty(clear_of(w.targets));
    Seq::<(int, int)>::empty().lemma_filter_push(proposed(bullet), clear_of(w.targets));
    if in_grid(proposed(bullet).0, proposed(bullet).1) {
        assert(Seq::<(int, int)>::empty().push(proposed(bullet)) =~= seq![proposed(bullet)]);
    }
}

/// A bullet that is fired from the nose cell at column `C`, row `R` is first
/// seen one row up: where (`C`, `R - 1`) is on the playing field and no
/// invader is there, the round that takes the shot ends with the new bullet
/// at (`C`, `R - 1`), as the youngest bullet, and the round's frame shows a
/// bullet in that cell.
pub proof fn lemma_fired_bullet_is_seen_one_row_up(w: World)
    requires
        valid(w),
        w.phase == Phase::Running,
        in_grid(proposed(w.player[1]).0, proposed(w.player[1]).1),
        !w.targets.contains(proposed(w.player[1])),
    ensures
        after_step(w, seq![Input::Fire]).bullets.len() > 0,
        after_step(w, seq![Input::Fire]).bullets.last() == proposed(w.player[1]),
        scene(after_step(w, seq![Input::Fire]).player, after_step(w, seq![Input::Fire]).bullets)[w.player[1].0][w.player[1].1
            - 1] == BULLET_CELL,
{
    let nose = w.player[1];
    assert(seq![Input::Fire].drop_last() =~= Seq::<Input>::empty());
    assert(after_inputs(w, Seq::<Input>::empty()) == w);
    let fired = after_inputs(w, seq![Input::Fire]);
    assert(fired == after_input(w, Input::Fire));
    assert(fired.bullets == w.bullets.push(nose));
    lemma_flown_one_more(w.bullets, nose);
    flown(w.bullets).lemma_filter_push(proposed(nose), clear_of(w.targets));
    let end = after_step(w, seq![Input::Fire]);
    assert(end.bullets == flown(w.bullets).filter(clear_of(w.targets)).push(proposed(nose)));
    lemma_tick_moves_bullets_one_row_up(fired);
    lemma_scene_shows_youngest_bullet(end.player, end.bullets);
}

/// A frame shows a bullet in the cell of the youngest bullet.
pub proof fn lemma_scene_shows_youngest_bullet(player: Seq<(int, int)>, bullets: Seq<(int, int)>)
    requires
        on_field(player),
        on_field(bullets),
        bullets.len() > 0,
    ensures
        scene(player, bullets)[bullets.last().0][bullets.last().1] == BULLET_CELL,
{
    let ship = paint(blank_grid(), marked(player, PLAYER_CELL));
    let cells = marked(bullets, BULLET_CELL);
    lemma_marked_on_field(player, PLAYER_CELL);
    lemma_marked_on_field(bullets, BULLET_CELL);
    assert(is_grid(blank_grid()));
    lemma_paint_keeps_dimensions(blank_grid(), marked(player, PLAYER_CELL));
    lemma_paint_last_write_wins(ship, cells, bullets.last().0, bullets.last().1);
    assert(in_grid(bullets[bullets.len() - 1].0, bullets[bullets.len() - 1].1));
    assert(names(cells[cells.len() - 1], bullets.last().0, bullets.last().1));
}

/// A hit removes both: where a bullet's move takes it into an invader's
/// cell, the tick leaves no bullet and no invader in that cell.
pub proof fn lemma_hit_removes_both(w: World, cell: (int, int))
    requires
        flown(w.bullets).contains(cell),
        w.targets.contains(cell),
    ensures
        !after_tick(w).bullets.contains(cell),
        !after_tick(w).targets.contains(cell),
{
    let left = after_tick(w).bullets;
    if left.contains(cell) {
        let i = choose|i: int| 0 <= i < left.len() && left[i] == cell;
        flown(w.bullets).lemma_filter_pred(clear_of(w.targets), i);
    }
    let invaders = after_tick(w).targets;
    if invaders.contains(cell) {
        let i = choose|i: int| 0 <= i < invaders.len() && invaders[i] == cell;
        w.targets.lemma_filter_pred(clear_of(flown(w.bullets)), i);
    }
}

/// An invader that no bullet moves into stays, and no invader is added.
pub proof fn lemma_tick_keeps_missed_invaders(w: World)
    ensures
        after_tick(w).targets.len() <= w.targets.len(),
        forall|i: int|
            0 <= i < after_tick(w).targets.len() ==> w.targets.contains(
                #[trigger] after_tick(w).targets[i],
            ),
        forall|i: int|
            0 <= i < w.targets.len() && !flown(w.bullets).contains(w.targets[i])
                ==> after_tick(w).targets.contains(#[trigger] w.targets[i]),
{
    let moved = flown(w.bullets);
    let left = after_tick(w).targets;
    w.targets.lemma_filter_len(clear_of(moved));
    assert forall|i: int| 0 <= i < left.len() implies w.targets.contains(#[trigger] left[i]) by {
        assert(left.contains(left[i]));
        w.targets.lemma_filter_contains_rev(clear_of(moved), left[i]);
    }
    assert forall|i: int|
        0 <= i < w.targets.len() && !moved.contains(w.targets[i]) implies left.contains(
        #[trigger] w.targets[i],
    ) by {
        w.targets.lemma_filter_contains(clear_of(moved), i);
    }
}

/// Whatever the inputs, a round takes a valid world to a valid world: the
/// ship keeps its shape and its row, and ship and bullets stay on the playing
/// field.
pub proof fn lemma_step_keeps_world_valid(w: World, inputs: Seq<Input>)
    requires
        valid(w),
    ensures
        valid(after_inputs(w, inputs)),
        valid(after_step(w, inputs)),
        after_step(w, inputs).player[1].1 == w.player[1].1,
    decreases inputs.len(),
{
    if inputs.len() > 0 {
        lemma_step_keeps_world_valid(w, inputs.drop_last());
        let mid = after_inputs(w, inputs.drop_last());
        lemma_shift_keeps_shape((mid.player[1].0, mid.player[1].1 + 1), -1);
        lemma_shift_keeps_shape((mid.player[1].0, mid.player[1].1 + 1), 1);
        let end = after_input(mid, inputs.last());
        assert(on_field(end.bullets)) by {
            assert(in_grid(mid.player[1].0, mid.player[1].1));
        }
    }
    lemma_tick_moves_bullets_one_row_up(after_inputs(w, inputs));
}

/// Whether `bullet` is in the cell of one of `invaders`.
fn hits_any(invaders: &Vec<Invader>, bullet: &Bullet) -> (hit: bool)
    ensures
        hit == invader_points(invaders@).contains(bullet@),
{
    let mut i: usize = 0;
    while i < invaders.len()
        invariant
            i <= invaders@.len(),
            forall|j: int| 0 <= j < i ==> invader_points(invaders@)[j] != bullet@,
        decreases invaders@.len() - i,
    {
        if invaders[i].hit(bullet) {
            assert(invader_points(invaders@)[i as int] == bullet@);
            return true;
        }
        i += 1;
    }
    false
}

/// Whether one of `bullets` is in the cell of `invader`.
fn hit_by_any(invader: &Invader, bullets: &Vec<Bullet>) -> (hit: bool)
    ensures
        hit == bullet_points(bullets@).contains(invader@),
{
    let mut i: usize = 0;
    while i < bullets.len()
        invariant
            i <= bullets@.len(),
            forall|j: int| 0 <= j < i ==> bullet_points(bullets@)[j] != invader@,
        decreases bullets@.len() - i,
    {
        if invader.hit(&bullets[i]) {
            assert(bullet_points(bullets@)[i as int] == invader@);
            return true;
        }
        i += 1;
    }
    false
}

proof fn lemma_filter_empty<A>(pred: spec_fn(A) -> bool)
    ensures
        Seq::<A>::empty().filter(pred) == Seq::<A>::empty(),
{
    reveal(Seq::filter);
}

proof fn lemma_flown_empty()
    ensures
        flown(Seq::empty()) == Seq::<(int, int)>::empty(),
{
    lemma_filter_empty(in_flight());
    assert(Seq::<(int, int)>::empty().map_values(fly()) =~= Seq::empty());
}

proof fn lemma_flown_one_more(bullets: Seq<(int, int)>, bullet: (int, int))
    ensures
        flown(bullets.push(bullet)) == if in_grid(proposed(bullet).0, proposed(bullet).1) {
            flown(bullets).push(advanced(bullet))
        } else {
            flown(bullets)
        },
{
    bullets.lemma_filter_push(bullet, in_flight());
    bullets.filter(in_flight()).lemma_push_map_commute(fly(), bullet);
}

} // verus!
