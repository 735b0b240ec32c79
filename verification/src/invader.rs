use vstd::prelude::*;
use crate::bullet::Bullet;
use crate::frame::{marked, Drawable};
use crate::INVADER_CELL;

verus! {

/// A target that occupies one cell.
#[derive(Clone, Copy, Debug, PartialEq, Eq)]
pub struct Invader {
    position: (i32, i32),
}

impl View for Invader {
    type V = (int, int);

    /// The invader's position as (column, row).
    closed spec fn view(&self) -> (int, int) {
        (self.position.0 as int, self.position.1 as int)
    }
}

impl Invader {
    /// An invader at column `x`, row `y`.
    pub fn new(x: i32, y: i32) -> (invader: Self)
        ensures
            invader@ == (x as int, y as int),
    {
        Invader { position: (x, y) }
    }

    /// The invader's position as (column, row).
    pub fn position(&self) -> (position: (i32, i32))
        ensures
            (position.0 as int, position.1 as int) == self@,
    {
        self.position
    }

    /// Whether `bullet` is in the invader's cell.
    pub fn hit(&self, bullet: &Bullet) -> (hit: bool)
        ensures
            hit == (self@ == bullet@),
    {
        let at = bullet.position();
        self.position.0 == at.0 && self.position.1 == at.1
    }
}

impl Drawable for Invader {
    open spec fn cells(&self) -> Seq<(usize, usize, &'static str)> {
        marked(seq![self@], INVADER_CELL)
    }

    fn values(&self) -> (cells: Vec<(usize, usize, &'static str)>) {
        let cells = vec![(self.position.0 as usize, self.position.1 as usize, INVADER_CELL)];
        assert(cells@ =~= self.cells());
        cells
    }
}

} // verus!
