use vstd::prelude::*;
use crate::bullet::Bullet;
use crate::frame::{as_points, marked, Drawable};
use crate::PLAYER_CELL;

verus! {

/// The three cells of a ship whose anchor is `anchor`: the cell to the left
/// of the anchor, the cell above it (the nose), and the cell to its right.
pub open spec fn shape(anchor: (int, int)) -> Seq<(int, int)> {
    seq![(anchor.0 - 1, anchor.1), (anchor.0, anchor.1 - 1), (anchor.0 + 1, anchor.1)]
}

/// Whether `cells` are the three cells of a ship.
pub open spec fn has_shape(cells: Seq<(int, int)>) -> bool {
    cells.len() == 3 && cells == shape((cells[1].0, cells[1].1 + 1))
}

/// `cells` moved by `dir` columns.
pub open spec fn shifted(cells: Seq<(int, int)>, dir: int) -> Seq<(int, int)> {
    Seq::new(cells.len(), |i: int| (cells[i].0 + dir, cells[i].1))
}

/// `cells` after the moves `dirs`, applied one after the other.
pub open spec fn moved(cells: Seq<(int, int)>, dirs: Seq<int>) -> Seq<(int, int)>
    decreases dirs.len(),
{
    if dirs.len() == 0 {
        cells
    } else {
        shifted(moved(cells, dirs.drop_last()), dirs.last())
    }
}

/// The sum of `dirs`.
pub open spec fn total(dirs: Seq<int>) -> int
    decreases dirs.len(),
{
    if dirs.len() == 0 {
        0
    } else {
        total(dirs.drop_last()) + dirs.last()
    }
}

/// A move keeps the ship's shape: the moved cells are the ship at the moved
/// anchor.
pub proof fn lemma_shift_keeps_shape(anchor: (int, int), dir: int)
    ensures
        shifted(shape(anchor), dir) == shape((anchor.0 + dir, anchor.1)),
        has_shape(shifted(shape(anchor), dir)),
{
    assert(shifted(shape(anchor), dir) =~= shape((anchor.0 + dir, anchor.1)));
}

/// Any sequence of moves keeps the ship's shape: its three cells stay
/// side by side and around the anchor as they were, and the anchor has moved
/// by the sum of the moves along its row.
pub proof fn lemma_moves_keep_shape(cells: Seq<(int, int)>, dirs: Seq<int>)
    requires
        has_shape(cells),
    ensures
        has_shape(moved(cells, dirs)),
        moved(cells, dirs) == shape((cells[1].0 + total(dirs), cells[1].1 + 1)),
    decreases dirs.len(),
{
    if dirs.len() > 0 {
        lemma_moves_keep_shape(cells, dirs.drop_last());
        lemma_shift_keeps_shape(
            (cells[1].0 + total(dirs.drop_last()), cells[1].1 + 1),
            dirs.last(),
        );
    }
}

spec fn as_cells(positions: [(i32, i32); 3]) -> Seq<(int, int)> {
    Seq::new(3, |i: int| (positions@[i].0 as int, positions@[i].1 as int))
}

/// The player's ship: three cells in a fixed shape.
#[derive(Clone, Copy, Debug, PartialEq, Eq)]
pub struct Player {
    /// The left cell, the nose and the right cell.
    positions: [(i32, i32); 3],
}

impl View for Player {
    type V = Seq<(int, int)>;

    /// The ship's cells as (column, row): left, nose, right.
    closed spec fn view(&self) -> Seq<(int, int)> {
        as_cells(self.positions)
    }
}

impl Player {
    /// The ship's cells always have the ship's shape.
    #[verifier::type_invariant]
    pub open spec fn wf(&self) -> bool {
        has_shape(self@)
    }

    /// Whether the ship can move by `dir` columns without leaving the range
    /// of its coordinates.
    pub open spec fn can_shift(&self, dir: int) -> bool {
        i32::MIN <= self@[0].0 + dir && self@[2].0 + dir <= i32::MAX
    }

    /// A ship whose anchor is at column `x`, row `y`.
    pub fn new(x: i32, y: i32) -> (player: Self)
        requires
            i32::MIN < x < i32::MAX,
            i32::MIN < y,
        ensures
            player@ == shape((x as int, y as int)),
    {
        let positions = [(x - 1, y), (x, y - 1), (x + 1, y)];
        assert(as_cells(positions) =~= shape((x as int, y as int)));
        Player { positions }
    }

    /// The ship's cells as (column, row): left, nose, right.
    pub fn positions(&self) -> (positions: [(i32, i32); 3])
        ensures
            as_points(positions@) == self@,
            has_shape(self@),
    {
        proof {
            use_type_invariant(self);
        }
        assert(as_points(self.positions@) =~= self@);
        self.positions
    }

    /// The cells that the ship asks to move to, `dir` columns from where it
    /// is. The ship itself is left as it is.
    pub fn try_move(&self, dir: i32) -> (moves: Vec<(i32, i32)>)
        requires
            self.can_shift(dir as int),
        ensures
            as_points(moves@) == shifted(self@, dir as int),
    {
        proof {
            use_type_invariant(self);
        }
        let a = self.positions[0];
        let b = self.positions[1];
        let c = self.positions[2];
        let moves = vec![(a.0 + dir, a.1), (b.0 + dir, b.1), (c.0 + dir, c.1)];
        assert(as_points(moves@) =~= shifted(self@, dir as int));
        moves
    }

    /// Moves the ship by `dir` columns.
    pub fn apply_move(&mut self, dir: i32)
        requires
            old(self).can_shift(dir as int),
        ensures
            final(self)@ == shifted(old(self)@, dir as int),
            has_shape(final(self)@),
        no_unwind
    {
        proof {
            use_type_invariant(&*self);
        }
        let a = self.positions[0];
        let b = self.positions[1];
        let c = self.positions[2];
        proof {
            lemma_shift_keeps_shape((b.0 as int, b.1 + 1), dir as int);
        }
        let positions = [(a.0 + dir, a.1), (b.0 + dir, b.1), (c.0 + dir, c.1)];
        assert(as_cells(positions) =~= shifted(old(self)@, dir as int));
        self.positions = positions;
    }

    /// A bullet in the ship's nose cell.
    pub fn fire(&self) -> (bullet: Bullet)
        ensures
            bullet@ == self@[1],
    {
        Bullet::new(self.positions[1].0, self.positions[1].1)
    }
}

impl Drawable for Player {
    open spec fn cells(&self) -> Seq<(usize, usize, &'static str)> {
        marked(self@, PLAYER_CELL)
    }

    fn values(&self) -> (cells: Vec<(usize, usize, &'static str)>) {
        let a = self.positions[0];
        let b = self.positions[1];
        let c = self.positions[2];
        let cells = vec![
            (a.0 as usize, a.1 as usize, PLAYER_CELL),
            (b.0 as usize, b.1 as usize, PLAYER_CELL),
            (c.0 as usize, c.1 as usize, PLAYER_CELL),
        ];
        proof {
            use_type_invariant(self);
        }
        assert(cells@ =~= self.cells());
        cells
    }
}

} // verus!
