use vstd::prelude::*;
use vstd::string::StrSliceExecFns;
use crate::frame::{
    blank_grid, cell_at, cells_of, in_grid, is_grid, lemma_iteration_visits_each_cell_once, Frame,
    Grid,
};
use crate::{NUM_COLS, NUM_ROWS};

verus! {

/// Whether two glyphs show the same text.
pub fn same_glyph(a: &str, b: &str) -> (same: bool)
    ensures
        same == (a@ == b@),
{
    let len = a.unicode_len();
    if len != b.unicode_len() {
        return false;
    }
    let mut i: usize = 0;
    while i < len
        invariant
            i <= len,
            len == a@.len(),
            len == b@.len(),
            forall|j: int| 0 <= j < i ==> a@[j] == b@[j],
        decreases len - i,
    {
        if a.get_char(i) != b.get_char(i) {
            return false;
        }
        i += 1;
    }
    assert(a@ =~= b@);
    true
}

/// Whether `cell` shows another text than `last` shows in the same place.
pub open spec fn differs(last: Grid, cell: (usize, usize, &'static str)) -> bool {
    cell.2@ != last[cell.0 as int][cell.1 as int]@
}

/// The cells to write to the terminal so that it shows `curr` where it showed
/// `last`: in iteration order, every cell of `curr` if `force` is set, else
/// those whose text differs from that of `last`.
pub open spec fn changes(last: Grid, curr: Grid, force: bool) -> Seq<(usize, usize, &'static str)> {
    cells_of(curr).filter(to_write(last, force))
}

/// The test that picks the cells to write.
pub open spec fn to_write(last: Grid, force: bool) -> spec_fn((usize, usize, &'static str)) -> bool {
    |cell: (usize, usize, &'static str)| force || differs(last, cell)
}

/// A forced redraw writes every cell.
pub proof fn lemma_forced_changes_are_all_cells(last: Grid, curr: Grid)
    ensures
        changes(last, curr, true) == cells_of(curr),
        changes(last, curr, true).len() == NUM_COLS * NUM_ROWS,
{
    let pred = to_write(last, true);
    lemma_filter_all(cells_of(curr), pred);
}

proof fn lemma_filter_all<A>(s: Seq<A>, pred: spec_fn(A) -> bool)
    requires
        forall|i: int| 0 <= i < s.len() ==> pred(#[trigger] s[i]),
    ensures
        s.filter(pred) == s,
    decreases s.len(),
{
    reveal(Seq::filter);
    if s.len() > 0 {
        lemma_filter_all(s.drop_last(), pred);
        assert(s.drop_last().push(s.last()) =~= s);
    }
}

proof fn lemma_filter_none<A>(s: Seq<A>, pred: spec_fn(A) -> bool)
    requires
        forall|i: int| 0 <= i < s.len() ==> !pred(#[trigger] s[i]),
    ensures
        s.filter(pred) == Seq::<A>::empty(),
    decreases s.len(),
{
    reveal(Seq::filter);
    if s.len() > 0 {
        lemma_filter_none(s.drop_last(), pred);
    }
}

/// An unforced redraw writes exactly the cells whose text changed: each
/// written cell is a cell of `curr` that differs from `last`, and each cell
/// that differs is written.
pub proof fn lemma_changes_are_the_changed_cells(last: Grid, curr: Grid)
    ensures
        changes(last, curr, false).len() <= NUM_COLS * NUM_ROWS,
        forall|i: int|
            0 <= i < changes(last, curr, false).len() ==> {
                let cell = #[trigger] changes(last, curr, false)[i];
                &&& in_grid(cell.0 as int, cell.1 as int)
                &&& cell.2 == curr[cell.0 as int][cell.1 as int]
                &&& differs(last, cell)
            },
        forall|col: int, row: int|
            in_grid(col, row) && curr[col][row]@ != last[col][row]@ ==> changes(
                last,
                curr,
                false,
            ).contains(#[trigger] cell_at(curr, col * NUM_ROWS + row)),
{
    let pred = to_write(last, false);
    let all = cells_of(curr);
    lemma_iteration_visits_each_cell_once(curr);
    all.lemma_filter_len(pred);
    assert forall|i: int| 0 <= i < all.filter(pred).len() implies {
        let cell = #[trigger] all.filter(pred)[i];
        &&& in_grid(cell.0 as int, cell.1 as int)
        &&& cell.2 == curr[cell.0 as int][cell.1 as int]
        &&& differs(last, cell)
    } by {
        let cell = all.filter(pred)[i];
        all.lemma_filter_pred(pred, i);
        assert(all.filter(pred).contains(cell));
        all.lemma_filter_contains_rev(pred, cell);
        let k = choose|k: int| 0 <= k < all.len() && all[k] == cell;
        assert(all[k] == cell);
    }
    assert forall|col: int, row: int|
        in_grid(col, row) && curr[col][row]@ != last[col][row]@ implies all.filter(pred).contains(
        #[trigger] cell_at(curr, col * NUM_ROWS + row),
    ) by {
        let k = col * NUM_ROWS + row;
        assert(all[k] == cell_at(curr, k));
        all.lemma_filter_contains(pred, k);
    }
}

/// Where `curr` differs from `last` in the one cell at (`col`, `row`) and
/// nowhere else, an unforced redraw writes that cell and nothing more.
pub proof fn lemma_one_change_writes_one_cell(last: Grid, curr: Grid, col: int, row: int)
    requires
        in_grid(col, row),
        curr[col][row]@ != last[col][row]@,
        forall|c: int, r: int|
            in_grid(c, r) && !(c == col && r == row) ==> (#[trigger] curr[c][r])@ == last[c][r]@,
    ensures
        changes(last, curr, false) == seq![(col as usize, row as usize, curr[col][row])],
{
    let pred = to_write(last, false);
    let all = cells_of(curr);
    let k = col * NUM_ROWS + row;
    lemma_iteration_visits_each_cell_once(curr);
    let before = all.take(k);
    let after = all.skip(k + 1);
    assert(all =~= before.push(all[k]) + after);
    assert forall|i: int| 0 <= i < before.len() implies !pred(#[trigger] before[i]) by {
        assert(before[i] == all[i]);
        assert(curr[all[i].0 as int][all[i].1 as int]@ == last[all[i].0 as int][all[i].1 as int]@);
    }
    assert forall|i: int| 0 <= i < after.len() implies !pred(#[trigger] after[i]) by {
        assert(after[i] == all[i + k + 1]);
        let c = all[i + k + 1];
        assert(curr[c.0 as int][c.1 as int]@ == last[c.0 as int][c.1 as int]@);
    }
    lemma_filter_none(before, pred);
    lemma_filter_none(after, pred);
    before.lemma_filter_push(all[k], pred);
    Seq::filter_distributes_over_add(before.push(all[k]), after, pred);
    assert(all.filter(pred) =~= seq![all[k]]);
}

/// The cells to write to the terminal so that it shows `curr_frame` where it
/// showed `last_frame`, in the order in which to write them.
pub fn changed_cells(last_frame: &Frame, curr_frame: &Frame, force: bool) -> (changed: Vec<
    (usize, usize, &'static str),
>)
    ensures
        changed@ == changes(last_frame@, curr_frame@, force),
{
    let ghost pred = to_write(last_frame@, force);
    let mut changed: Vec<(usize, usize, &'static str)> = Vec::new();
    let mut iter = curr_frame.into_iter();
    proof {
        lemma_iteration_visits_each_cell_once(curr_frame@);
        assert(cells_of(curr_frame@).take(0) =~= Seq::empty());
        lemma_filter_none(cells_of(curr_frame@).take(0), pred);
    }
    loop
        invariant
            iter.grid() == curr_frame@,
            0 <= iter.position() <= NUM_COLS * NUM_ROWS,
            pred == to_write(last_frame@, force),
            changed@ == cells_of(curr_frame@).take(iter.position()).filter(pred),
        ensures
            changed@ == cells_of(curr_frame@).filter(pred),
        decreases NUM_COLS * NUM_ROWS - iter.position(),
    {
        let ghost k = iter.position();
        match iter.next() {
            Some((x, y, val)) => {
                proof {
                    lemma_iteration_visits_each_cell_once(curr_frame@);
                    cells_of(curr_frame@).lemma_take_succ_push(k);
                    cells_of(curr_frame@).take(k).lemma_filter_push((x, y, val), pred);
                }
                if force || !same_glyph(val, last_frame.get(x, y)) {
                    changed.push((x, y, val));
                }
            },
            None => {
                assert(cells_of(curr_frame@).take(k) =~= cells_of(curr_frame@));
                break ;
            },
        }
    }
    changed
}

/// What the renderer remembers between frames: the frame that the terminal
/// shows.
pub struct Renderer {
    last_frame: Frame,
}

impl Renderer {
    /// The grid that the terminal shows.
    pub closed spec fn shown(&self) -> Grid {
        self.last_frame@
    }

    /// A renderer for a terminal that is about to show the blank frame.
    pub fn new() -> (renderer: Self)
        ensures
            renderer.shown() == blank_grid(),
    {
        Renderer { last_frame: Frame::new() }
    }

    /// The cells of the first, forced redraw: every cell of the frame that
    /// the terminal is to show.
    pub fn first_frame(&self) -> (cells: Vec<(usize, usize, &'static str)>)
        ensures
            cells@ == cells_of(self.shown()),
    {
        proof {
            lemma_forced_changes_are_all_cells(self.shown(), self.shown());
        }
        changed_cells(&self.last_frame, &self.last_frame, true)
    }

    /// The cells to write so that the terminal shows `curr_frame`. The
    /// renderer takes `curr_frame` as shown from here on, whether or not the
    /// cells then reach the terminal.
    pub fn next_frame(&mut self, curr_frame: Frame) -> (cells: Vec<(usize, usize, &'static str)>)
        ensures
            cells@ == changes(old(self).shown(), curr_frame@, false),
            final(self).shown() == curr_frame@,
    {
        let cells = changed_cells(&self.last_frame, &curr_frame, false);
        self.last_frame = curr_frame;
        cells
    }
}

} // verus!
