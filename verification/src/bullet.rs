use vstd::prelude::*;
use crate::frame::{as_points, in_grid, marked, Drawable};
use crate::BULLET_CELL;

verus! {

/// Where a bullet at `position` asks to go next: one row up.
pub open spec fn proposed(position: (int, int)) -> (int, int) {
    (position.0, position.1 - 1)
}

/// Where a bullet at `position` is after a move: one row up, but never
/// above row 0.
pub open spec fn advanced(position: (int, int)) -> (int, int) {
    if position.1 > 0 {
        (position.0, position.1 - 1)
    } else {
        position
    }
}

/// A move that was proposed from a position and found to lie on the playing
/// field is the move that is then applied.
pub proof fn lemma_proposed_on_field_is_advanced(position: (int, int))
    requires
        in_grid(proposed(position).0, proposed(position).1),
    ensures
        advanced(position) == proposed(position),
{
}

/// A projectile that occupies one cell and flies towards row 0.
#[derive(Clone, Copy, Debug, PartialEq, Eq)]
pub struct Bullet {
    position: (i32, i32),
}

impl View for Bullet {
    type V = (int, int);

    /// The bullet's position as (column, row).
    closed spec fn view(&self) -> (int, int) {
        (self.position.0 as int, self.position.1 as int)
    }
}

impl Bullet {
    /// A bullet at column `x`, row `y`.
    pub fn new(x: i32, y: i32) -> (bullet: Self)
        ensures
            bullet@ == (x as int, y as int),
    {
        Bullet { position: (x, y) }
    }

    /// The bullet's position as (column, row).
    pub fn position(&self) -> (position: (i32, i32))
        ensures
            (position.0 as int, position.1 as int) == self@,
    {
        self.position
    }

    /// The position that the bullet asks to move to. The bullet itself is
    /// left as it is.
    pub fn try_move(&self, _dir: i32) -> (moves: Vec<(i32, i32)>)
        requires
            self@.1 > i32::MIN,
        ensures
            as_points(moves@) == seq![proposed(self@)],
    {
        let moves = vec![(self.position.0, self.position.1 - 1)];
        assert(as_points(moves@) =~= seq![proposed(self@)]);
        moves
    }

    /// Moves the bullet one row up, unless it is in row 0 or above.
    pub fn apply_move(&mut self, _dir: i32)
        ensures
            final(self)@ == advanced(old(self)@),
        no_unwind
    {
        if self.position.1 > 0 {
            self.position.1 -= 1;
        }
    }
}

impl Drawable for Bullet {
    open spec fn cells(&self) -> Seq<(usize, usize, &'static str)> {
        marked(seq![self@], BULLET_CELL)
    }

    fn values(&self) -> (cells: Vec<(usize, usize, &'static str)>) {
        let cells = vec![(self.position.0 as usize, self.position.1 as usize, BULLET_CELL)];
        assert(cells@ =~= self.cells());
        cells
    }
}

} // verus!
