//! Which cells a cell's energy spreads into.
//!
//! A neighborhood is always a small rectangle of cells, a patch of at most
//! three rows and three columns. The two diffusion rules differ in how the
//! patch is placed at the rim of the grid: the integer rule clips the centered
//! three-by-three window to the grid, the real-valued rule keeps two cells
//! across the rim and anchors them there.

use vstd::prelude::*;

verus! {

/// A rectangle of cells: `rows` rows from row `top` down, `cols` columns from
/// column `left` rightwards. Its cells are numbered row by row; the number of a
/// cell is its slot.
#[derive(Clone, Copy, Debug, PartialEq, Eq, Structural)]
pub struct Patch {
    pub top: usize,
    pub left: usize,
    pub rows: usize,
    pub cols: usize,
}

impl Patch {
    /// Between one and three rows and columns.
    pub open spec fn wf(self) -> bool {
        1 <= self.rows <= 3 && 1 <= self.cols <= 3
    }

    /// The patch lies inside a grid of the given shape.
    pub open spec fn within(self, height: nat, width: nat) -> bool {
        self.top + self.rows <= height && self.left + self.cols <= width
    }

    /// The number of cells.
    pub open spec fn spec_count(&self) -> usize {
        (self.rows * self.cols) as usize
    }

    /// Whether (`row`, `col`) is a cell of the patch.
    pub open spec fn contains(self, row: int, col: int) -> bool {
        self.top <= row < self.top + self.rows && self.left <= col < self.left + self.cols
    }

    /// The slot of the cell (`row`, `col`).
    pub open spec fn slot_of(self, row: int, col: int) -> int {
        (row - self.top) * self.cols + (col - self.left)
    }

    /// The cell in a slot.
    pub open spec fn spec_cell(&self, slot: usize) -> (usize, usize) {
        ((self.top + slot / self.cols) as usize, (self.left + slot % self.cols) as usize)
    }

    /// The number of cells.
    #[verifier::when_used_as_spec(spec_count)]
    pub fn count(&self) -> (n: usize)
        requires
            self.wf(),
        ensures
            n == self.spec_count(),
            1 <= n <= 9,
    {
        assert(self.rows * self.cols <= 9) by (nonlinear_arith)
            requires
                self.rows <= 3,
                self.cols <= 3,
        ;
        assert(self.rows * self.cols >= 1) by (nonlinear_arith)
            requires
                self.rows >= 1,
                self.cols >= 1,
        ;
        self.rows * self.cols
    }

    /// The cell in a slot.
    #[verifier::when_used_as_spec(spec_cell)]
    pub fn cell(&self, slot: usize) -> (at: (usize, usize))
        requires
            self.wf(),
            slot < self.spec_count(),
            self.top + self.rows <= usize::MAX,
            self.left + self.cols <= usize::MAX,
        ensures
            at == self.spec_cell(slot),
            self.contains(at.0 as int, at.1 as int),
            self.slot_of(at.0 as int, at.1 as int) == slot,
    {
        proof {
            self.lemma_slots(slot);
        }
        (self.top + slot / self.cols, self.left + slot % self.cols)
    }

    /// A slot and its cell determine each other.
    pub proof fn lemma_slots(self, slot: usize)
        requires
            self.wf(),
            slot < self.spec_count(),
        ensures
            slot / self.cols < self.rows,
            slot % self.cols < self.cols,
            (slot / self.cols) * self.cols + slot % self.cols == slot,
    {
        let cols = self.cols;
        let rows = self.rows;
        assert(slot < rows * cols);
        assert(slot / cols < rows && slot % cols < cols && (slot / cols) * cols + slot % cols
            == slot) by (nonlinear_arith)
            requires
                1 <= cols <= 3,
                1 <= rows <= 3,
                0 <= slot < rows * cols,
        ;
    }

    /// Every cell of the patch has a slot, and that slot holds the cell.
    pub proof fn lemma_cell_of_slot(self, row: int, col: int)
        requires
            self.wf(),
            self.contains(row, col),
            self.top + self.rows <= usize::MAX,
            self.left + self.cols <= usize::MAX,
        ensures
            0 <= self.slot_of(row, col) < self.spec_count(),
            self.spec_cell(self.slot_of(row, col) as usize) == (row as usize, col as usize),
    {
        let cols = self.cols as int;
        let rows = self.rows as int;
        let dr = row - self.top;
        let dc = col - self.left;
        assert(0 <= dr * cols + dc < rows * cols && (dr * cols + dc) / cols == dr && (dr * cols
            + dc) % cols == dc) by (nonlinear_arith)
            requires
                1 <= cols <= 3,
                1 <= rows <= 3,
                0 <= dr < rows,
                0 <= dc < cols,
        ;
        assert(rows * cols <= 9) by (nonlinear_arith)
            requires
                1 <= cols <= 3,
                1 <= rows <= 3,
        ;
    }

    /// The cells of the patch in slot order.
    pub fn cells(&self) -> (list: Vec<(usize, usize)>)
        requires
            self.wf(),
            self.top + self.rows <= usize::MAX,
            self.left + self.cols <= usize::MAX,
        ensures
            list.len() == self.spec_count(),
            forall|k: int| 0 <= k < list.len() ==> list[k] == self.spec_cell(k as usize),
    {
        let n = self.count();
        let mut list: Vec<(usize, usize)> = Vec::new();
        let mut slot: usize = 0;
        while slot < n
            invariant
                self.wf(),
                self.top + self.rows <= usize::MAX,
                self.left + self.cols <= usize::MAX,
                n == self.spec_count(),
                slot <= n,
                list.len() == slot,
                forall|k: int| 0 <= k < list.len() ==> list[k] == self.spec_cell(k as usize),
            decreases n - slot,
        {
            list.push(self.cell(slot));
            slot = slot + 1;
        }
        list
    }
}

/// Where a cell lies in a grid with at least two rows and two columns.
#[derive(Clone, Copy, Debug, PartialEq, Eq, Structural)]
pub enum Region {
    /// One of the four corner cells.
    Corner,
    /// The top or the bottom row, corners apart.
    RowBorder,
    /// The leftmost or the rightmost column, corners apart.
    ColumnBorder,
    /// Every other cell.
    Interior,
}

/// The region of the cell (`row`, `col`): corners first, then the top and
/// bottom rows, then the left and right columns, then the rest.
pub open spec fn region_of(height: usize, width: usize, row: usize, col: usize) -> Region {
    let on_row_border = row == 0 || row == height - 1;
    let on_col_border = col == 0 || col == width - 1;
    if on_row_border && on_col_border {
        Region::Corner
    } else if on_row_border {
        Region::RowBorder
    } else if on_col_border {
        Region::ColumnBorder
    } else {
        Region::Interior
    }
}

/// Decides `region_of`.
pub fn classify(height: usize, width: usize, row: usize, col: usize) -> (region: Region)
    requires
        2 <= height,
        2 <= width,
        row < height,
        col < width,
    ensures
        region == region_of(height, width, row, col),
{
    let on_row_border = row == 0 || row == height - 1;
    let on_col_border = col == 0 || col == width - 1;
    if on_row_border && on_col_border {
        Region::Corner
    } else if on_row_border {
        Region::RowBorder
    } else if on_col_border {
        Region::ColumnBorder
    } else {
        Region::Interior
    }
}

/// Where a span of two cells starts that is anchored at the rim next to
/// `index`, which is the first or the last of `length` positions.
pub open spec fn rim_anchor(index: usize, length: usize) -> usize {
    if index == 0 {
        0
    } else {
        (length - 2) as usize
    }
}

/// The patch that the real-valued rule spreads the cell (`row`, `col`) into:
/// two by two in a corner, two rows by three columns on the top and bottom
/// rows, three rows by two columns on the left and right columns, three by
/// three around an interior cell. Across the rim the patch does not reach
/// beyond the grid; it is anchored at the rim instead.
pub open spec fn anchored_patch_of(height: usize, width: usize, row: usize, col: usize) -> Patch {
    match region_of(height, width, row, col) {
        Region::Corner => Patch {
            top: rim_anchor(row, height),
            left: rim_anchor(col, width),
            rows: 2,
            cols: 2,
        },
        Region::RowBorder => Patch {
            top: rim_anchor(row, height),
            left: (col - 1) as usize,
            rows: 2,
            cols: 3,
        },
        Region::ColumnBorder => Patch {
            top: (row - 1) as usize,
            left: rim_anchor(col, width),
            rows: 3,
            cols: 2,
        },
        Region::Interior => Patch {
            top: (row - 1) as usize,
            left: (col - 1) as usize,
            rows: 3,
            cols: 3,
        },
    }
}

/// Computes `anchored_patch_of`. The patch lies inside the grid and holds the
/// cell itself.
pub fn anchored_patch(height: usize, width: usize, row: usize, col: usize) -> (patch: Patch)
    requires
        2 <= height,
        2 <= width,
        row < height,
        col < width,
    ensures
        patch == anchored_patch_of(height, width, row, col),
        patch.wf(),
        patch.within(height as nat, width as nat),
        patch.contains(row as int, col as int),
{
    let row_anchor = if row == 0 { 0 } else { height - 2 };
    let col_anchor = if col == 0 { 0 } else { width - 2 };
    match classify(height, width, row, col) {
        Region::Corner => Patch { top: row_anchor, left: col_anchor, rows: 2, cols: 2 },
        Region::RowBorder => Patch { top: row_anchor, left: col - 1, rows: 2, cols: 3 },
        Region::ColumnBorder => Patch { top: row - 1, left: col_anchor, rows: 3, cols: 2 },
        Region::Interior => Patch { top: row - 1, left: col - 1, rows: 3, cols: 3 },
    }
}

/// The first position of the window around `index`, clipped at zero.
pub open spec fn clipped_start(index: usize) -> usize {
    if index == 0 {
        0
    } else {
        (index - 1) as usize
    }
}

/// The number of positions of the window around `index` that lie below
/// `length`.
pub open spec fn clipped_extent(index: usize, length: usize) -> usize {
    let end = if index + 1 < length {
        index + 2
    } else {
        length as int
    };
    (end - clipped_start(index)) as usize
}

/// The patch that the integer rule spreads the cell (`row`, `col`) into: the
/// three-by-three window centered on the cell, the cell itself included,
/// without what falls outside the grid.
pub open spec fn moore_patch_of(height: usize, width: usize, row: usize, col: usize) -> Patch {
    Patch {
        top: clipped_start(row),
        left: clipped_start(col),
        rows: clipped_extent(row, height),
        cols: clipped_extent(col, width),
    }
}

/// Computes `moore_patch_of`. The patch lies inside the grid and holds the
/// cell itself.
pub fn moore_patch(height: usize, width: usize, row: usize, col: usize) -> (patch: Patch)
    requires
        row < height,
        col < width,
    ensures
        patch == moore_patch_of(height, width, row, col),
        patch.wf(),
        patch.within(height as nat, width as nat),
        patch.contains(row as int, col as int),
{
    let top = if row == 0 { 0 } else { row - 1 };
    let left = if col == 0 { 0 } else { col - 1 };
    let bottom = if row + 1 < height { row + 2 } else { height };
    let right = if col + 1 < width { col + 2 } else { width };
    Patch { top, left, rows: bottom - top, cols: right - left }
}

/// On a grid with at least two rows and two columns the shape of the anchored
/// patch depends on the cell's region alone: two by two in a corner, two by
/// three on the top and bottom rows, three by two on the left and right
/// columns, three by three elsewhere.
pub proof fn lemma_anchored_shape(height: usize, width: usize, row: usize, col: usize)
    requires
        2 <= height,
        2 <= width,
        row < height,
        col < width,
    ensures
        ({
            let patch = anchored_patch_of(height, width, row, col);
            let corner_row = row == 0 || row == height - 1;
            let corner_col = col == 0 || col == width - 1;
            &&& corner_row && corner_col ==> patch.rows == 2 && patch.cols == 2
            &&& corner_row && !corner_col ==> patch.rows == 2 && patch.cols == 3
            &&& !corner_row && corner_col ==> patch.rows == 3 && patch.cols == 2
            &&& !corner_row && !corner_col ==> patch.rows == 3 && patch.cols == 3
            &&& patch.spec_count() == patch.rows * patch.cols
        }),
{
    let patch = anchored_patch_of(height, width, row, col);
    assert(patch.rows * patch.cols <= 9) by (nonlinear_arith)
        requires
            patch.rows <= 3,
            patch.cols <= 3,
    ;
}

/// On a grid with at least two rows and two columns the clipped window holds
/// four cells around a corner, six around any other cell of the rim, nine
/// around an interior cell.
pub proof fn lemma_moore_count(height: usize, width: usize, row: usize, col: usize)
    requires
        2 <= height,
        2 <= width,
        row < height,
        col < width,
    ensures
        moore_patch_of(height, width, row, col).spec_count() == match region_of(
            height,
            width,
            row,
            col,
        ) {
            Region::Corner => 4usize,
            Region::RowBorder => 6usize,
            Region::ColumnBorder => 6usize,
            Region::Interior => 9usize,
        },
{
    let patch = moore_patch_of(height, width, row, col);
    assert(patch.rows == 2 || patch.rows == 3);
    assert(patch.cols == 2 || patch.cols == 3);
    assert(2 * 2 == 4 && 2 * 3 == 6 && 3 * 2 == 6 && 3 * 3 == 9);
}

} // verus!
