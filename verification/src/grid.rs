//! The energy grid: a rectangular array of unsigned cells, with the sums and
//! counts that the diffusion rules are stated over.

use vstd::prelude::*;

verus! {

/// The largest number of cells a grid may hold. Eight bytes per cell then fit
/// the address space of a 32-bit machine as well as a 64-bit one.
pub const MAX_CELLS: usize = 268_435_455;

/// A two-dimensional `ndarray` array of `u64` cells. Verus sees nothing inside
/// it: what it holds is `array_rows`.
#[verifier::external_body]
pub struct CellArray {
    inner: ndarray::Array2<u64>,
}

/// The rows of an array, top to bottom; each row holds its cells left to right.
pub uninterp spec fn array_rows(a: CellArray) -> Seq<Seq<u64>>;

/// `height` rows of `width` cells, each holding `value`.
pub open spec fn uniform_rows(height: nat, width: nat, value: u64) -> Seq<Seq<u64>> {
    Seq::new(height, |r: int| Seq::new(width, |c: int| value))
}

/// `ndarray::Array2::zeros` on the shape `(height, width)`: the new array has
/// `height` rows of `width` cells and every cell is zero. The bounds keep the
/// element count within what the constructor accepts without panicking.
#[verifier::external_body]
fn array_zeros(height: usize, width: usize) -> (a: CellArray)
    requires
        height <= MAX_CELLS,
        width <= MAX_CELLS,
        height * width <= MAX_CELLS,
    ensures
        array_rows(a) == uniform_rows(height as nat, width as nat, 0),
{
    CellArray { inner: ndarray::Array2::zeros((height, width)) }
}

/// Indexing an `ndarray` array with `[[row, col]]`: the cell in that row and
/// column. The index must lie inside the array.
#[verifier::external_body]
fn array_get(a: &CellArray, row: usize, col: usize) -> (value: u64)
    requires
        row < array_rows(*a).len(),
        col < array_rows(*a)[row as int].len(),
    ensures
        value == array_rows(*a)[row as int][col as int],
{
    a.inner[[row, col]]
}

/// Assigning through `[[row, col]]` on an `ndarray` array: that one cell takes
/// `value`, every other cell and the shape stay as they were.
#[verifier::external_body]
fn array_set(a: &mut CellArray, row: usize, col: usize, value: u64)
    requires
        row < array_rows(*old(a)).len(),
        col < array_rows(*old(a))[row as int].len(),
    ensures
        array_rows(*final(a)) == array_rows(*old(a)).update(
            row as int,
            array_rows(*old(a))[row as int].update(col as int, value),
        ),
{
    a.inner[[row, col]] = value;
}

/// `ndarray::ArrayBase::fill`: every cell takes `value`; the shape stays.
#[verifier::external_body]
fn array_fill(a: &mut CellArray, value: u64)
    ensures
        array_rows(*final(a)).len() == array_rows(*old(a)).len(),
        forall|r: int|
            0 <= r < array_rows(*old(a)).len() ==> (#[trigger] array_rows(*final(a))[r]).len()
                == array_rows(*old(a))[r].len(),
        forall|r: int, c: int|
            0 <= r < array_rows(*final(a)).len() && 0 <= c < array_rows(*final(a))[r].len()
                ==> (#[trigger] array_rows(*final(a))[r][c]) == value,
{
    a.inner.fill(value);
}

/// `Clone::clone_from` on `ndarray` arrays: the receiver takes the shape and
/// the cells of `source`.
#[verifier::external_body]
fn array_clone_from(a: &mut CellArray, source: &CellArray)
    ensures
        array_rows(*final(a)) == array_rows(*source),
{
    a.inner.clone_from(&source.inner);
}

/// What is added up over the cells of a grid.
pub enum Tally {
    /// The energy held.
    Energy,
    /// One for each cell that holds any energy.
    Occupied,
    /// One for each cell that holds none.
    Vacant,
}

/// What one cell contributes to a tally.
pub open spec fn cell_weight(value: u64, tally: Tally) -> nat {
    match tally {
        Tally::Energy => value as nat,
        Tally::Occupied => if value != 0 { 1 } else { 0 },
        Tally::Vacant => if value == 0 { 1 } else { 0 },
    }
}

/// The tally over one row.
pub open spec fn row_tally(row: Seq<u64>, tally: Tally) -> nat
    decreases row.len(),
{
    if row.len() == 0 {
        0
    } else {
        row_tally(row.drop_last(), tally) + cell_weight(row.last(), tally)
    }
}

/// The tally over all rows.
pub open spec fn rows_tally(rows: Seq<Seq<u64>>, tally: Tally) -> nat
    decreases rows.len(),
{
    if rows.len() == 0 {
        0
    } else {
        rows_tally(rows.drop_last(), tally) + row_tally(rows.last(), tally)
    }
}

/// The energy held by all cells together.
pub open spec fn grid_total(rows: Seq<Seq<u64>>) -> nat {
    rows_tally(rows, Tally::Energy)
}

/// The number of cells that hold any energy.
pub open spec fn grid_nonzero(rows: Seq<Seq<u64>>) -> nat {
    rows_tally(rows, Tally::Occupied)
}

/// The number of cells that hold no energy.
pub open spec fn grid_vacant(rows: Seq<Seq<u64>>) -> nat {
    rows_tally(rows, Tally::Vacant)
}

/// Every row has `width` cells.
pub open spec fn rectangular(rows: Seq<Seq<u64>>, width: nat) -> bool {
    forall|r: int| 0 <= r < rows.len() ==> (#[trigger] rows[r]).len() == width
}

/// Every cell is zero.
pub open spec fn all_zero(rows: Seq<Seq<u64>>) -> bool {
    forall|r: int, c: int|
        0 <= r < rows.len() && 0 <= c < rows[r].len() ==> (#[trigger] rows[r][c]) == 0
}

/// The rows with the cell at (`row`, `col`) replaced by `value`.
pub open spec fn with_cell(rows: Seq<Seq<u64>>, row: int, col: int, value: u64) -> Seq<Seq<u64>> {
    rows.update(row, rows[row].update(col, value))
}

/// Reading one more cell of a row adds that cell's weight.
pub proof fn lemma_row_tally_step(row: Seq<u64>, c: int, tally: Tally)
    requires
        0 <= c < row.len(),
    ensures
        row_tally(row.take(c + 1), tally) == row_tally(row.take(c), tally) + cell_weight(
            row[c],
            tally,
        ),
{
    assert(row.take(c + 1).drop_last() =~= row.take(c));
}

/// Reading one more row adds that row's tally.
pub proof fn lemma_rows_tally_step(rows: Seq<Seq<u64>>, r: int, tally: Tally)
    requires
        0 <= r < rows.len(),
    ensures
        rows_tally(rows.take(r + 1), tally) == rows_tally(rows.take(r), tally) + row_tally(
            rows[r],
            tally,
        ),
{
    assert(rows.take(r + 1).drop_last() =~= rows.take(r));
}

/// Replacing one cell of a row changes the tally by the difference of the two weights.
proof fn lemma_row_tally_update(row: Seq<u64>, c: int, value: u64, tally: Tally)
    requires
        0 <= c < row.len(),
    ensures
        row_tally(row.update(c, value), tally) + cell_weight(row[c], tally) == row_tally(
            row,
            tally,
        ) + cell_weight(value, tally),
    decreases row.len(),
{
    let changed = row.update(c, value);
    if c == row.len() - 1 {
        assert(changed.drop_last() =~= row.drop_last());
    } else {
        lemma_row_tally_update(row.drop_last(), c, value, tally);
        assert(changed.drop_last() =~= row.drop_last().update(c, value));
    }
}

/// Replacing one row changes the tally by the difference of the two row tallies.
proof fn lemma_rows_tally_replace(rows: Seq<Seq<u64>>, r: int, row: Seq<u64>, tally: Tally)
    requires
        0 <= r < rows.len(),
    ensures
        rows_tally(rows.update(r, row), tally) + row_tally(rows[r], tally) == rows_tally(
            rows,
            tally,
        ) + row_tally(row, tally),
    decreases rows.len(),
{
    let changed = rows.update(r, row);
    if r == rows.len() - 1 {
        assert(changed.drop_last() =~= rows.drop_last());
    } else {
        lemma_rows_tally_replace(rows.drop_last(), r, row, tally);
        assert(changed.drop_last() =~= rows.drop_last().update(r, row));
    }
}

/// Replacing one cell of a grid changes the tally by the difference of the two weights.
pub proof fn lemma_tally_with_cell(rows: Seq<Seq<u64>>, r: int, c: int, value: u64, tally: Tally)
    requires
        0 <= r < rows.len(),
        0 <= c < rows[r].len(),
    ensures
        rows_tally(with_cell(rows, r, c, value), tally) + cell_weight(rows[r][c], tally)
            == rows_tally(rows, tally) + cell_weight(value, tally),
{
    lemma_row_tally_update(rows[r], c, value, tally);
    lemma_rows_tally_replace(rows, r, rows[r].update(c, value), tally);
}

/// No cell weighs more than its row.
pub proof fn lemma_row_tally_bounds_cell(row: Seq<u64>, c: int, tally: Tally)
    requires
        0 <= c < row.len(),
    ensures
        cell_weight(row[c], tally) <= row_tally(row, tally),
    decreases row.len(),
{
    if c < row.len() - 1 {
        lemma_row_tally_bounds_cell(row.drop_last(), c, tally);
    }
}

/// No row weighs more than the grid.
proof fn lemma_rows_tally_bounds_row(rows: Seq<Seq<u64>>, r: int, tally: Tally)
    requires
        0 <= r < rows.len(),
    ensures
        row_tally(rows[r], tally) <= rows_tally(rows, tally),
    decreases rows.len(),
{
    if r < rows.len() - 1 {
        lemma_rows_tally_bounds_row(rows.drop_last(), r, tally);
    }
}

/// No cell holds more than the grid's total.
pub proof fn lemma_total_bounds_cell(rows: Seq<Seq<u64>>, r: int, c: int)
    requires
        0 <= r < rows.len(),
        0 <= c < rows[r].len(),
    ensures
        rows[r][c] <= grid_total(rows),
{
    lemma_row_tally_bounds_cell(rows[r], c, Tally::Energy);
    lemma_rows_tally_bounds_row(rows, r, Tally::Energy);
}

/// A row of zeros holds no energy and no occupied cell.
proof fn lemma_row_tally_zero(row: Seq<u64>, tally: Tally)
    requires
        forall|c: int| 0 <= c < row.len() ==> row[c] == 0,
        !(tally is Vacant),
    ensures
        row_tally(row, tally) == 0,
    decreases row.len(),
{
    if row.len() > 0 {
        lemma_row_tally_zero(row.drop_last(), tally);
    }
}

/// A grid of zeros holds no energy and no occupied cell.
pub proof fn lemma_rows_tally_zero(rows: Seq<Seq<u64>>, tally: Tally)
    requires
        all_zero(rows),
        !(tally is Vacant),
    ensures
        rows_tally(rows, tally) == 0,
    decreases rows.len(),
{
    if rows.len() > 0 {
        let front = rows.drop_last();
        assert(all_zero(front)) by {
            assert forall|r: int, c: int|
                0 <= r < front.len() && 0 <= c < front[r].len() implies (#[trigger] front[r][c])
                == 0 by {
                assert(rows[r][c] == 0);
            }
        }
        lemma_rows_tally_zero(front, tally);
        let last = rows.last();
        assert forall|c: int| 0 <= c < last.len() implies last[c] == 0 by {
            assert(rows[rows.len() - 1][c] == 0);
        }
        lemma_row_tally_zero(last, tally);
    }
}

/// Each cell of a row is either occupied or vacant.
proof fn lemma_row_partition(row: Seq<u64>)
    ensures
        row_tally(row, Tally::Occupied) + row_tally(row, Tally::Vacant) == row.len(),
    decreases row.len(),
{
    if row.len() > 0 {
        lemma_row_partition(row.drop_last());
    }
}

/// Each cell of a rectangular grid is either occupied or vacant.
pub proof fn lemma_partition(rows: Seq<Seq<u64>>, width: nat)
    requires
        rectangular(rows, width),
    ensures
        grid_nonzero(rows) + grid_vacant(rows) == rows.len() * width,
    decreases rows.len(),
{
    if rows.len() > 0 {
        let front = rows.drop_last();
        assert(rectangular(front, width)) by {
            assert forall|r: int| 0 <= r < front.len() implies (#[trigger] front[r]).len()
                == width by {
                assert(rows[r].len() == width);
            }
        }
        lemma_partition(front, width);
        lemma_row_partition(rows.last());
        assert(rows.last().len() == width);
        assert(rows.len() * width == front.len() * width + width) by (nonlinear_arith)
            requires
                rows.len() == front.len() + 1,
        ;
    } else {
        assert(rows.len() * width == 0) by (nonlinear_arith)
            requires
                rows.len() == 0,
        ;
    }
}

/// The tally over the cells that come before (`row`, `col`) when the grid is
/// read row by row.
pub open spec fn tally_before(rows: Seq<Seq<u64>>, row: int, col: int, tally: Tally) -> nat {
    rows_tally(rows.take(row), tally) + row_tally(rows[row].take(col), tally)
}

/// Reading one more cell adds that cell's weight.
pub proof fn lemma_tally_before_step(rows: Seq<Seq<u64>>, row: int, col: int, tally: Tally)
    requires
        0 <= row < rows.len(),
        0 <= col < rows[row].len(),
    ensures
        tally_before(rows, row, col + 1, tally) == tally_before(rows, row, col, tally)
            + cell_weight(rows[row][col], tally),
{
    lemma_row_tally_step(rows[row], col, tally);
}

/// The end of one row is the start of the next.
pub proof fn lemma_tally_before_wrap(rows: Seq<Seq<u64>>, row: int, tally: Tally)
    requires
        0 <= row < rows.len(),
    ensures
        tally_before(rows, row + 1, 0, tally) == tally_before(
            rows,
            row,
            rows[row].len() as int,
            tally,
        ),
{
    lemma_rows_tally_step(rows, row, tally);
    assert(rows[row].take(rows[row].len() as int) =~= rows[row]);
    assert(rows[row + 1].take(0).len() == 0);
}

/// Nothing has been read at the start, everything at the end.
pub proof fn lemma_tally_before_ends(rows: Seq<Seq<u64>>, tally: Tally)
    ensures
        tally_before(rows, 0, 0, tally) == 0,
        tally_before(rows, rows.len() as int, 0, tally) == rows_tally(rows, tally),
{
    assert(rows.take(0).len() == 0);
    assert(rows[0].take(0).len() == 0);
    assert(rows.take(rows.len() as int) =~= rows);
    assert(rows[rows.len() as int].take(0).len() == 0);
}

/// The start of a row tallies to no more than the row.
pub proof fn lemma_row_prefix_bounded(row: Seq<u64>, upto: int, tally: Tally)
    requires
        0 <= upto <= row.len(),
    ensures
        row_tally(row.take(upto), tally) <= row_tally(row, tally),
    decreases row.len() - upto,
{
    if upto < row.len() {
        lemma_row_tally_step(row, upto, tally);
        lemma_row_prefix_bounded(row, upto + 1, tally);
    } else {
        assert(row.take(upto) =~= row);
    }
}

/// The first rows tally to no more than all rows.
proof fn lemma_rows_prefix_bounded(rows: Seq<Seq<u64>>, upto: int, tally: Tally)
    requires
        0 <= upto <= rows.len(),
    ensures
        rows_tally(rows.take(upto), tally) <= rows_tally(rows, tally),
    decreases rows.len() - upto,
{
    if upto < rows.len() {
        lemma_rows_tally_step(rows, upto, tally);
        lemma_rows_prefix_bounded(rows, upto + 1, tally);
    } else {
        assert(rows.take(upto) =~= rows);
    }
}

/// What has been read so far tallies to no more than the whole grid.
pub proof fn lemma_tally_before_bounded(rows: Seq<Seq<u64>>, row: int, col: int, tally: Tally)
    requires
        0 <= row < rows.len(),
        0 <= col <= rows[row].len(),
    ensures
        tally_before(rows, row, col, tally) <= rows_tally(rows, tally),
{
    lemma_row_prefix_bounded(rows[row], col, tally);
    lemma_rows_tally_step(rows, row, tally);
    lemma_rows_prefix_bounded(rows, row + 1, tally);
}

/// Whether a grid of `height` rows and `width` columns can be held: both are
/// positive and the cells number at most `MAX_CELLS`.
pub open spec fn shape_fits(height: nat, width: nat) -> bool {
    0 < height && 0 < width && height * width <= MAX_CELLS
}

/// Decides `shape_fits`.
pub fn check_shape(height: usize, width: usize) -> (fits: bool)
    ensures
        fits == shape_fits(height as nat, width as nat),
{
    if height == 0 || width == 0 {
        return false;
    }
    if height > MAX_CELLS || width > MAX_CELLS {
        proof {
            assert(height * width >= height && height * width >= width) by (nonlinear_arith)
                requires
                    height >= 1,
                    width >= 1,
            ;
        }
        return false;
    }
    let h: u64 = height as u64;
    let w: u64 = width as u64;
    assert(h * w <= MAX_CELLS * MAX_CELLS) by (nonlinear_arith)
        requires
            h <= MAX_CELLS,
            w <= MAX_CELLS,
    ;
    h * w <= MAX_CELLS as u64
}

/// A rectangular grid of energy cells.
pub struct Grid {
    cells: CellArray,
    height: usize,
    width: usize,
}

impl View for Grid {
    type V = Seq<Seq<u64>>;

    /// The rows of the grid, top to bottom.
    closed spec fn view(&self) -> Seq<Seq<u64>> {
        array_rows(self.cells)
    }
}

impl Grid {
    /// The number of rows.
    pub closed spec fn spec_height(&self) -> usize {
        self.height
    }

    /// The number of columns.
    pub closed spec fn spec_width(&self) -> usize {
        self.width
    }

    /// The grid has the shape it says it has, and that shape can be held.
    pub open spec fn wf(&self) -> bool {
        &&& shape_fits(self.spec_height() as nat, self.spec_width() as nat)
        &&& self@.len() == self.spec_height()
        &&& rectangular(self@, self.spec_width() as nat)
    }

    /// Whether (`row`, `col`) names a cell of this grid.
    pub open spec fn holds(&self, row: int, col: int) -> bool {
        0 <= row < self.spec_height() && 0 <= col < self.spec_width()
    }

    /// In a well-formed grid neither side exceeds `MAX_CELLS`.
    pub proof fn lemma_sides_bounded(&self)
        requires
            self.wf(),
        ensures
            self.spec_height() <= MAX_CELLS,
            self.spec_width() <= MAX_CELLS,
    {
        let h = self.spec_height();
        let w = self.spec_width();
        assert(h * w >= h && h * w >= w) by (nonlinear_arith)
            requires
                h >= 1,
                w >= 1,
        ;
    }

    /// A grid of zeros, or `None` where the shape cannot be held.
    pub fn zeros(height: usize, width: usize) -> (made: Option<Grid>)
        ensures
            made.is_some() == shape_fits(height as nat, width as nat),
            made matches Some(grid) ==> {
                &&& grid.wf()
                &&& grid.spec_height() == height
                &&& grid.spec_width() == width
                &&& grid@ == uniform_rows(height as nat, width as nat, 0)
                &&& all_zero(grid@)
                &&& grid_total(grid@) == 0
            },
    {
        if !check_shape(height, width) {
            return None;
        }
        proof {
            assert(height * width >= height && height * width >= width) by (nonlinear_arith)
                requires
                    height >= 1,
                    width >= 1,
            ;
        }
        let grid = Grid { cells: array_zeros(height, width), height, width };
        proof {
            assert(all_zero(grid@));
            lemma_rows_tally_zero(grid@, Tally::Energy);
        }
        Some(grid)
    }

    /// The number of rows.
    #[verifier::when_used_as_spec(spec_height)]
    pub fn height(&self) -> (h: usize)
        ensures
            h == self.spec_height(),
    {
        self.height
    }

    /// The number of columns.
    #[verifier::when_used_as_spec(spec_width)]
    pub fn width(&self) -> (w: usize)
        ensures
            w == self.spec_width(),
    {
        self.width
    }

    /// The energy in one cell.
    pub fn get(&self, row: usize, col: usize) -> (value: u64)
        requires
            self.wf(),
            self.holds(row as int, col as int),
        ensures
            value == self@[row as int][col as int],
    {
        array_get(&self.cells, row, col)
    }

    /// Puts `value` into one cell.
    pub fn set(&mut self, row: usize, col: usize, value: u64)
        requires
            old(self).wf(),
            old(self).holds(row as int, col as int),
        ensures
            final(self).wf(),
            final(self).spec_height() == old(self).spec_height(),
            final(self).spec_width() == old(self).spec_width(),
            final(self)@ == with_cell(old(self)@, row as int, col as int, value),
    {
        array_set(&mut self.cells, row, col, value);
    }

    /// Adds `amount` to one cell. The grid's total grows by exactly `amount`.
    pub fn credit(&mut self, row: usize, col: usize, amount: u64)
        requires
            old(self).wf(),
            old(self).holds(row as int, col as int),
            old(self)@[row as int][col as int] + amount <= u64::MAX,
        ensures
            final(self).wf(),
            final(self).spec_height() == old(self).spec_height(),
            final(self).spec_width() == old(self).spec_width(),
            final(self)@ == with_cell(
                old(self)@,
                row as int,
                col as int,
                (old(self)@[row as int][col as int] + amount) as u64,
            ),
            grid_total(final(self)@) == grid_total(old(self)@) + amount,
    {
        let held = self.get(row, col);
        proof {
            lemma_tally_with_cell(
                self@,
                row as int,
                col as int,
                (held + amount) as u64,
                Tally::Energy,
            );
        }
        self.set(row, col, held + amount);
    }

    /// Sets every cell to zero.
    pub fn clear(&mut self)
        requires
            old(self).wf(),
        ensures
            final(self).wf(),
            final(self).spec_height() == old(self).spec_height(),
            final(self).spec_width() == old(self).spec_width(),
            final(self)@ == uniform_rows(
                old(self).spec_height() as nat,
                old(self).spec_width() as nat,
                0,
            ),
            all_zero(final(self)@),
            grid_total(final(self)@) == 0,
    {
        array_fill(&mut self.cells, 0);
        proof {
            assert(self@ =~~= uniform_rows(
                old(self).spec_height() as nat,
                old(self).spec_width() as nat,
                0,
            ));
            lemma_rows_tally_zero(self@, Tally::Energy);
        }
    }

    /// Takes over the shape and the cells of `source`.
    pub fn copy_from(&mut self, source: &Grid)
        requires
            source.wf(),
        ensures
            final(self).wf(),
            final(self).spec_height() == source.spec_height(),
            final(self).spec_width() == source.spec_width(),
            final(self)@ == source@,
    {
        array_clone_from(&mut self.cells, &source.cells);
        self.height = source.height;
        self.width = source.width;
    }

    /// The energy held by all cells together.
    pub fn total(&self) -> (sum: u128)
        requires
            self.wf(),
        ensures
            sum == grid_total(self@),
    {
        proof {
            self.lemma_sides_bounded();
        }
        let mut sum: u128 = 0;
        let mut row: usize = 0;
        while row < self.height
            invariant
                self.wf(),
                self.spec_width() <= MAX_CELLS,
                self.spec_height() <= MAX_CELLS,
                row <= self.spec_height(),
                sum == grid_total(self@.take(row as int)),
                sum <= row * 0x1000_0000_0000_0000_0000_0000,
            decreases self.spec_height() - row,
        {
            let mut row_sum: u128 = 0;
            let mut col: usize = 0;
            while col < self.width
                invariant
                    self.wf(),
                    self.spec_width() <= MAX_CELLS,
                    row < self.spec_height(),
                    col <= self.spec_width(),
                    row_sum == row_tally(self@[row as int].take(col as int), Tally::Energy),
                    row_sum <= col * 0x1_0000_0000_0000_0000,
                decreases self.spec_width() - col,
            {
                let value = self.get(row, col);
                proof {
                    lemma_row_tally_step(self@[row as int], col as int, Tally::Energy);
                }
                row_sum = row_sum + value as u128;
                col = col + 1;
            }
            proof {
                assert(self@[row as int].take(col as int) =~= self@[row as int]);
                lemma_rows_tally_step(self@, row as int, Tally::Energy);
            }
            sum = sum + row_sum;
            row = row + 1;
        }
        assert(self@.take(row as int) =~= self@);
        sum
    }

    /// The number of cells that hold any energy.
    pub fn count_nonzero(&self) -> (count: usize)
        requires
            self.wf(),
        ensures
            count == grid_nonzero(self@),
    {
        proof {
            self.lemma_sides_bounded();
            lemma_partition(self@, self.spec_width() as nat);
        }
        let mut count: u64 = 0;
        let mut row: usize = 0;
        while row < self.height
            invariant
                self.wf(),
                self.spec_width() <= MAX_CELLS,
                self.spec_height() <= MAX_CELLS,
                row <= self.spec_height(),
                count == grid_nonzero(self@.take(row as int)),
                count <= row * 0x1000_0000,
            decreases self.spec_height() - row,
        {
            let mut row_count: u64 = 0;
            let mut col: usize = 0;
            while col < self.width
                invariant
                    self.wf(),
                    self.spec_width() <= MAX_CELLS,
                    row < self.spec_height(),
                    col <= self.spec_width(),
                    row_count == row_tally(self@[row as int].take(col as int), Tally::Occupied),
                    row_count <= col,
                decreases self.spec_width() - col,
            {
                let value = self.get(row, col);
                proof {
                    lemma_row_tally_step(self@[row as int], col as int, Tally::Occupied);
                }
                if value != 0 {
                    row_count = row_count + 1;
                }
                col = col + 1;
            }
            proof {
                assert(self@[row as int].take(col as int) =~= self@[row as int]);
                lemma_rows_tally_step(self@, row as int, Tally::Occupied);
            }
            count = count + row_count;
            row = row + 1;
        }
        assert(self@.take(row as int) =~= self@);
        count as usize
    }
}

} // verus!
