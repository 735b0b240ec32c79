use vstd::prelude::*;
use crate::{EMPTY_CELL, NUM_COLS, NUM_ROWS};

verus! {

/// The mathematical model of a frame: a sequence of columns, each a sequence
/// of glyphs from the top row down.
pub type Grid = Seq<Seq<&'static str>>;

/// `col`, `row` name a cell of the playing field.
pub open spec fn in_grid(col: int, row: int) -> bool {
    0 <= col < NUM_COLS && 0 <= row < NUM_ROWS
}

/// `grid` has the dimensions of the playing field.
pub open spec fn is_grid(grid: Grid) -> bool {
    &&& grid.len() == NUM_COLS
    &&& forall|col: int| 0 <= col < NUM_COLS ==> (#[trigger] grid[col]).len() == NUM_ROWS
}

/// The grid in which every cell holds the empty glyph.
pub open spec fn blank_grid() -> Grid {
    Seq::new(NUM_COLS as nat, |col: int| Seq::new(NUM_ROWS as nat, |row: int| EMPTY_CELL))
}

/// `grid` with the cell at (`col`, `row`) replaced by `glyph`.
pub open spec fn put(grid: Grid, col: int, row: int, glyph: &'static str) -> Grid {
    grid.update(col, grid[col].update(row, glyph))
}

/// `cell` is the cell at (`col`, `row`).
pub open spec fn names(cell: (usize, usize, &'static str), col: int, row: int) -> bool {
    cell.0 == col && cell.1 == row
}

/// Whether every cell of `cells` lies on the playing field.
pub open spec fn all_in_grid(cells: Seq<(usize, usize, &'static str)>) -> bool {
    forall|i: int|
        0 <= i < cells.len() ==> in_grid((#[trigger] cells[i]).0 as int, cells[i].1 as int)
}

/// Whether every point of `points` names a cell of the playing field.
pub open spec fn on_field(points: Seq<(int, int)>) -> bool {
    forall|i: int| 0 <= i < points.len() ==> in_grid((#[trigger] points[i]).0, points[i].1)
}

/// The positions of `positions` as points of the plane.
pub open spec fn as_points(positions: Seq<(i32, i32)>) -> Seq<(int, int)> {
    Seq::new(positions.len(), |i: int| (positions[i].0 as int, positions[i].1 as int))
}

/// The cells at `points`, each showing `glyph`.
pub open spec fn marked(points: Seq<(int, int)>, glyph: &'static str) -> Seq<
    (usize, usize, &'static str),
> {
    Seq::new(points.len(), |i: int| (points[i].0 as usize, points[i].1 as usize, glyph))
}

/// Points on the playing field mark cells on the playing field.
pub proof fn lemma_marked_on_field(points: Seq<(int, int)>, glyph: &'static str)
    requires
        on_field(points),
    ensures
        all_in_grid(marked(points, glyph)),
{
    assert forall|i: int| 0 <= i < marked(points, glyph).len() implies in_grid(
        (#[trigger] marked(points, glyph)[i]).0 as int,
        marked(points, glyph)[i].1 as int,
    ) by {
        assert(in_grid(points[i].0, points[i].1));
    }
}

/// `grid` after the cells of `cells` were written into it one after the
/// other, from the first to the last.
pub open spec fn paint(grid: Grid, cells: Seq<(usize, usize, &'static str)>) -> Grid
    decreases cells.len(),
{
    if cells.len() == 0 {
        grid
    } else {
        let cell = cells.last();
        put(paint(grid, cells.drop_last()), cell.0 as int, cell.1 as int, cell.2)
    }
}

/// The `k`-th cell of `grid` in iteration order: all rows of column 0 from
/// the top down, then column 1, and so on.
pub open spec fn cell_at(grid: Grid, k: int) -> (usize, usize, &'static str) {
    let col = k / NUM_ROWS as int;
    let row = k % NUM_ROWS as int;
    (col as usize, row as usize, grid[col][row])
}

/// All cells of `grid` in iteration order.
pub open spec fn cells_of(grid: Grid) -> Seq<(usize, usize, &'static str)> {
    Seq::new((NUM_COLS * NUM_ROWS) as nat, |k: int| cell_at(grid, k))
}

/// Iteration yields `NUM_COLS * NUM_ROWS` cells, each with the glyph that the
/// grid holds there, and every cell of the playing field exactly once: each
/// yielded coordinate is a cell, two different steps yield two different
/// coordinates, and the cell at (`col`, `row`) is yielded at step
/// `col * NUM_ROWS + row`.
pub proof fn lemma_iteration_visits_each_cell_once(grid: Grid)
    ensures
        cells_of(grid).len() == NUM_COLS * NUM_ROWS,
        forall|k: int|
            0 <= k < NUM_COLS * NUM_ROWS ==> {
                let cell = #[trigger] cells_of(grid)[k];
                &&& in_grid(cell.0 as int, cell.1 as int)
                &&& cell.2 == grid[cell.0 as int][cell.1 as int]
                &&& k == cell.0 * NUM_ROWS + cell.1
            },
        forall|j: int, k: int|
            0 <= j < NUM_COLS * NUM_ROWS && 0 <= k < NUM_COLS * NUM_ROWS && j != k ==> {
                ||| (#[trigger] cells_of(grid)[j]).0 != (#[trigger] cells_of(grid)[k]).0
                ||| cells_of(grid)[j].1 != cells_of(grid)[k].1
            },
        forall|col: int, row: int|
            in_grid(col, row) ==> #[trigger] cell_at(grid, col * NUM_ROWS + row) == (
                col as usize,
                row as usize,
                grid[col][row],
            ),
{
}

/// A fresh grid has the dimensions of the playing field, and iteration over
/// it yields the empty glyph at every step.
pub proof fn lemma_fresh_grid_is_empty()
    ensures
        is_grid(blank_grid()),
        forall|col: int, row: int| in_grid(col, row) ==> #[trigger] blank_grid()[col][row] == EMPTY_CELL,
        forall|k: int|
            0 <= k < NUM_COLS * NUM_ROWS ==> (#[trigger] cells_of(blank_grid())[k]).2 == EMPTY_CELL,
{
}

/// Painting cells that lie on the playing field keeps the grid's dimensions.
pub proof fn lemma_paint_keeps_dimensions(grid: Grid, cells: Seq<(usize, usize, &'static str)>)
    requires
        is_grid(grid),
        all_in_grid(cells),
    ensures
        is_grid(paint(grid, cells)),
    decreases cells.len(),
{
    if cells.len() > 0 {
        lemma_paint_keeps_dimensions(grid, cells.drop_last());
    }
}

/// Painting one more cell is writing it into what was painted before.
pub proof fn lemma_paint_one_more(
    grid: Grid,
    cells: Seq<(usize, usize, &'static str)>,
    cell: (usize, usize, &'static str),
)
    ensures
        paint(grid, cells.push(cell)) == put(
            paint(grid, cells),
            cell.0 as int,
            cell.1 as int,
            cell.2,
        ),
        paint(grid, seq![cell]) == put(grid, cell.0 as int, cell.1 as int, cell.2),
{
    assert(cells.push(cell).drop_last() =~= cells);
    assert(seq![cell].drop_last() =~= Seq::empty());
    assert(paint(grid, Seq::empty()) == grid);
}

/// The last write wins: after painting, a cell that none of `cells` names
/// holds what it held before, and a cell that some of them name holds the
/// glyph of the last of them.
pub proof fn lemma_paint_last_write_wins(
    grid: Grid,
    cells: Seq<(usize, usize, &'static str)>,
    col: int,
    row: int,
)
    requires
        is_grid(grid),
        all_in_grid(cells),
        in_grid(col, row),
    ensures
        (forall|i: int| 0 <= i < cells.len() ==> !names(#[trigger] cells[i], col, row)) ==> paint(
            grid,
            cells,
        )[col][row] == grid[col][row],
        forall|i: int|
            0 <= i < cells.len() && names(#[trigger] cells[i], col, row) && (forall|j: int|
                i < j < cells.len() ==> !names(#[trigger] cells[j], col, row)) ==> paint(
                grid,
                cells,
            )[col][row] == cells[i].2,
    decreases cells.len(),
{
    if cells.len() > 0 {
        let rest = cells.drop_last();
        lemma_paint_last_write_wins(grid, rest, col, row);
        lemma_paint_keeps_dimensions(grid, rest);
        assert forall|i: int|
            0 <= i < cells.len() && names(#[trigger] cells[i], col, row) && (forall|j: int|
                i < j < cells.len() ==> !names(#[trigger] cells[j], col, row)) implies paint(
            grid,
            cells,
        )[col][row] == cells[i].2 by {
            if i < cells.len() - 1 {
                assert(!names(cells[cells.len() - 1], col, row));
                assert(rest[i] == cells[i]);
                assert forall|j: int| i < j < rest.len() implies !names(
                    #[trigger] rest[j],
                    col,
                    row,
                ) by {
                    assert(rest[j] == cells[j]);
                }
            }
        }
        if forall|i: int| 0 <= i < cells.len() ==> !names(#[trigger] cells[i], col, row) {
            assert(!names(cells[cells.len() - 1], col, row));
            assert forall|i: int| 0 <= i < rest.len() implies !names(
                #[trigger] rest[i],
                col,
                row,
            ) by {
                assert(rest[i] == cells[i]);
            }
        }
    }
}

/// What an entity must offer to be drawn: the cells that it occupies.
pub trait Drawable {
    /// The cells that the entity occupies, each with the glyph to show there.
    /// A function of the entity's own state.
    spec fn cells(&self) -> Seq<(usize, usize, &'static str)>;

    /// The occupied cells as (column, row, glyph).
    fn values(&self) -> (cells: Vec<(usize, usize, &'static str)>)
        ensures
            cells@ == self.cells(),
    ;
}

/// One rendered frame: a grid of `NUM_COLS` by `NUM_ROWS` glyphs, stored
/// column after column.
pub struct Frame(Vec<&'static str>);

impl View for Frame {
    type V = Grid;

    closed spec fn view(&self) -> Grid {
        Seq::new(
            NUM_COLS as nat,
            |col: int| Seq::new(NUM_ROWS as nat, |row: int| self.0@[col * NUM_ROWS + row]),
        )
    }
}

impl Frame {
    #[verifier::type_invariant]
    closed spec fn inv(&self) -> bool {
        self.0@.len() == NUM_COLS * NUM_ROWS
    }

    /// Whatever was written into a frame, its grid has the dimensions of the
    /// playing field.
    pub proof fn lemma_dimensions(&self)
        ensures
            is_grid(self@),
    {
    }

    /// A frame in which every cell is empty.
    pub fn new() -> (frame: Self)
        ensures
            frame@ == blank_grid(),
    {
        let mut cells: Vec<&'static str> = Vec::with_capacity(NUM_COLS * NUM_ROWS);
        let mut col: usize = 0;
        while col < NUM_COLS
            invariant
                col <= NUM_COLS,
                cells@.len() == col * NUM_ROWS,
                forall|i: int| 0 <= i < cells@.len() ==> cells@[i] == EMPTY_CELL,
            decreases NUM_COLS - col,
        {
            let mut row: usize = 0;
            while row < NUM_ROWS
                invariant
                    col < NUM_COLS,
                    row <= NUM_ROWS,
                    cells@.len() == col * NUM_ROWS + row,
                    forall|i: int| 0 <= i < cells@.len() ==> cells@[i] == EMPTY_CELL,
                decreases NUM_ROWS - row,
            {
                cells.push(EMPTY_CELL);
                row += 1;
            }
            col += 1;
        }
        let frame = Frame(cells);
        assert(frame@ =~~= blank_grid());
        frame
    }

    /// The number of cells.
    pub fn size(&self) -> (n: usize)
        ensures
            n == NUM_COLS * NUM_ROWS,
    {
        proof {
            use_type_invariant(self);
        }
        self.0.len()
    }

    /// The number of columns.
    pub fn num_cols(&self) -> (n: usize)
        ensures
            n == NUM_COLS,
    {
        NUM_COLS
    }

    /// The number of rows.
    pub fn num_rows(&self) -> (n: usize)
        ensures
            n == NUM_ROWS,
    {
        NUM_ROWS
    }

    /// The glyph of the cell at (`col`, `row`).
    pub fn get(&self, col: usize, row: usize) -> (glyph: &'static str)
        requires
            in_grid(col as int, row as int),
        ensures
            glyph == self@[col as int][row as int],
    {
        proof {
            use_type_invariant(self);
        }
        self.0[col * NUM_ROWS + row]
    }

    /// Writes `glyph` into the cell at (`col`, `row`) and leaves every other
    /// cell as it was.
    pub fn set(&mut self, col: usize, row: usize, glyph: &'static str)
        requires
            in_grid(col as int, row as int),
        ensures
            final(self)@ == put(old(self)@, col as int, row as int, glyph),
    {
        proof {
            use_type_invariant(&*self);
        }
        self.0[col * NUM_ROWS + row] = glyph;
        assert(self@ =~~= put(old(self)@, col as int, row as int, glyph));
    }

    /// Writes the cells of `drawable` into the frame, in the order in which
    /// it reports them: where two of them coincide, the later one stays.
    pub fn draw<T: Drawable>(&mut self, drawable: &T)
        requires
            all_in_grid(drawable.cells()),
        ensures
            final(self)@ == paint(old(self)@, drawable.cells()),
    {
        let cells = drawable.values();
        let mut i: usize = 0;
        while i < cells.len()
            invariant
                i <= cells@.len(),
                cells@ == drawable.cells(),
                all_in_grid(cells@),
                self@ == paint(old(self)@, cells@.take(i as int)),
            decreases cells@.len() - i,
        {
            let cell = cells[i];
            self.set(cell.0, cell.1, cell.2);
            proof {
                let done = cells@.take(i as int + 1);
                assert(done.drop_last() =~= cells@.take(i as int));
                assert(done.last() == cell);
            }
            i += 1;
        }
        assert(cells@.take(i as int) =~= cells@);
    }

    /// An iterator over all cells, placed before the first one.
    pub fn into_iter(&self) -> (iter: FrameIterator<'_>)
        ensures
            iter.grid() == self@,
            iter.position() == 0,
    {
        FrameIterator { frame: self, col_index: 0, row_index: 0 }
    }

    /// All cells with their coordinates, in iteration order.
    pub fn cells(&self) -> (cells: Vec<(usize, usize, &'static str)>)
        ensures
            cells@ == cells_of(self@),
    {
        let mut cells: Vec<(usize, usize, &'static str)> = Vec::new();
        let mut iter = self.into_iter();
        loop
            invariant
                iter.grid() == self@,
                0 <= iter.position() <= NUM_COLS * NUM_ROWS,
                cells@ == cells_of(self@).take(iter.position()),
            ensures
                cells@ == cells_of(self@),
            decreases NUM_COLS * NUM_ROWS - iter.position(),
        {
            let ghost k = iter.position();
            match iter.next() {
                Some(cell) => {
                    assert(cells@.push(cell) =~= cells_of(self@).take(k + 1));
                    cells.push(cell);
                },
                None => {
                    assert(cells_of(self@).take(k) =~= cells_of(self@));
                    break;
                },
            }
        }
        cells
    }

    /// Whether every position names a cell of the playing field.
    pub fn all_in_frame(&self, positions: Vec<(i32, i32)>) -> (all: bool)
        ensures
            all == on_field(as_points(positions@)),
    {
        let mut i: usize = 0;
        while i < positions.len()
            invariant
                i <= positions@.len(),
                on_field(as_points(positions@).take(i as int)),
            decreases positions@.len() - i,
        {
            let p = positions[i];
            if p.0 < 0 || p.0 >= NUM_COLS as i32 || p.1 < 0 || p.1 >= NUM_ROWS as i32 {
                assert(as_points(positions@)[i as int] == (p.0 as int, p.1 as int));
                return false;
            }
            assert forall|j: int| 0 <= j < i + 1 implies in_grid(
                (#[trigger] as_points(positions@).take(i + 1)[j]).0,
                as_points(positions@).take(i + 1)[j].1,
            ) by {
                if j < i {
                    assert(as_points(positions@).take(i as int)[j] == as_points(positions@)[j]);
                }
            }
            i += 1;
        }
        assert(as_points(positions@).take(i as int) =~= as_points(positions@));
        true
    }
}

/// A walk over the cells of a frame in iteration order.
pub struct FrameIterator<'a> {
    frame: &'a Frame,
    col_index: usize,
    row_index: usize,
}

impl<'a> FrameIterator<'a> {
    #[verifier::type_invariant]
    closed spec fn inv(&self) -> bool {
        ||| self.col_index < NUM_COLS && self.row_index < NUM_ROWS
        ||| self.col_index == NUM_COLS && self.row_index == 0
    }

    /// The grid that is walked.
    pub closed spec fn grid(&self) -> Grid {
        self.frame@
    }

    /// The number of cells that were already yielded.
    pub closed spec fn position(&self) -> int {
        self.col_index * NUM_ROWS + self.row_index
    }

    /// Yields the next cell with its coordinates, or `None` once every cell
    /// was yielded.
    pub fn next(&mut self) -> (cell: Option<(usize, usize, &'static str)>)
        ensures
            final(self).grid() == old(self).grid(),
            0 <= old(self).position() <= NUM_COLS * NUM_ROWS,
            old(self).position() < NUM_COLS * NUM_ROWS ==> {
                &&& cell == Some(cell_at(old(self).grid(), old(self).position()))
                &&& final(self).position() == old(self).position() + 1
            },
            old(self).position() == NUM_COLS * NUM_ROWS ==> {
                &&& cell is None
                &&& final(self).position() == old(self).position()
            },
    {
        proof {
            use_type_invariant(&*self);
        }
        if self.col_index >= self.frame.num_cols() {
            return None;
        }
        let value = (
            self.col_index,
            self.row_index,
            self.frame.get(self.col_index, self.row_index),
        );
        if self.row_index + 1 >= self.frame.num_rows() {
            self.row_index = 0;
            self.col_index += 1;
        } else {
            self.row_index += 1;
        }
        Some(value)
    }
}

} // verus!
