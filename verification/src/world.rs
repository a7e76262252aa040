use crate::cell::Cell;
use vstd::prelude::*;
use vstd::string::StringExecFns;

verus! {

/// The contribution of one cell to an alive count: one if alive, zero if dead.
pub open spec fn cell_weight(c: Cell) -> int {
    if c is Alive {
        1
    } else {
        0
    }
}

/// How many cells of a sequence are alive.
pub open spec fn count_alive(cells: Seq<Cell>) -> int
    decreases cells.len(),
{
    if cells.len() == 0 {
        0
    } else {
        count_alive(cells.drop_last()) + cell_weight(cells.last())
    }
}

/// How many cells of a sequence are dead.
pub open spec fn count_dead(cells: Seq<Cell>) -> int
    decreases cells.len(),
{
    if cells.len() == 0 {
        0
    } else {
        count_dead(cells.drop_last()) + (1 - cell_weight(cells.last()))
    }
}

/// Counting a one-longer prefix adds exactly the weight of the next cell.
pub proof fn lemma_count_alive_take_step(cells: Seq<Cell>, k: int)
    requires
        0 <= k < cells.len(),
    ensures
        count_alive(cells.take(k + 1)) == count_alive(cells.take(k)) + cell_weight(cells[k]),
        count_dead(cells.take(k + 1)) == count_dead(cells.take(k)) + (1 - cell_weight(cells[k])),
{
    assert(cells.take(k + 1).drop_last() =~= cells.take(k));
    assert(cells.take(k + 1).last() == cells[k]);
}

/// Every cell is counted exactly once, either as alive or as dead: the two
/// counts always partition the whole sequence.
pub proof fn lemma_alive_dead_partition(cells: Seq<Cell>)
    ensures
        count_alive(cells) + count_dead(cells) == cells.len(),
    decreases cells.len(),
{
    if cells.len() > 0 {
        lemma_alive_dead_partition(cells.drop_last());
    }
}

/// Counts the alive cells held in a vector.
pub(crate) fn count_alive_in(cells: &Vec<Cell>) -> (n: usize)
    ensures
        n as int == count_alive(cells@),
{
    let mut n: usize = 0;
    let mut i: usize = 0;
    while i < cells.len()
        invariant
            i <= cells@.len(),
            n <= i,
            n as int == count_alive(cells@.take(i as int)),
        decreases cells@.len() - i,
    {
        if cells[i].is_alive() {
            n = n + 1;
        }
        proof {
            lemma_count_alive_take_step(cells@, i as int);
        }
        i = i + 1;
    }
    proof {
        assert(cells@.take(cells@.len() as int) =~= cells@);
    }
    n
}

/// The wrapped step towards the previous row or column: position zero is
/// adjacent to the last one.
pub open spec fn wrap_prev(v: int, last: int) -> int {
    if v == 0 {
        last
    } else {
        v - 1
    }
}

/// The wrapped step towards the next row or column: the last position is
/// adjacent to position zero.
pub open spec fn wrap_next(v: int, last: int) -> int {
    if v == last {
        0
    } else {
        v + 1
    }
}

/// The glyph a cell is rendered as.
pub open spec fn glyph(c: Cell) -> char {
    if c is Alive {
        '◼'
    } else {
        '◻'
    }
}

/// One rendered line: the glyphs of one row in column order, then a newline.
pub open spec fn row_text(cells: Seq<Cell>, width: int, row: int) -> Seq<char> {
    Seq::new(width as nat, |c: int| glyph(cells[row * width + c])).push('\n')
}

/// The rendered text of the first `rows` rows, top to bottom.
pub open spec fn render_text(cells: Seq<Cell>, width: int, rows: int) -> Seq<char>
    decreases rows,
{
    if rows <= 0 {
        Seq::empty()
    } else {
        render_text(cells, width, rows - 1) + row_text(cells, width, rows - 1)
    }
}

/// The container for the world.
/// The world is to be considered "a globe", so edges are communicating.
#[derive(Clone, Debug, PartialEq, Eq)]
pub struct World {
    pub width: u32,
    pub height: u32,
    pub cells: Vec<Cell>,
}

impl World {
    /// The world invariant: positive dimensions, a dense row-major cell
    /// buffer of exactly `width * height` slots, and a total size small
    /// enough that every index fits in a `u32`.
    pub open spec fn wf(self) -> bool {
        &&& self.width >= 1
        &&& self.height >= 1
        &&& self.width * self.height <= u32::MAX
        &&& self.cells@.len() == self.width * self.height
    }

    /// The row-major index of a position: `row * width + column`.
    pub open spec fn spec_index_of(self, row: int, col: int) -> int {
        row * self.width + col
    }

    /// The eight toroidally wrapped neighbour indices of a position, in the
    /// fixed order: up-left, up, up-right, left, right, down-left, down,
    /// down-right.
    pub open spec fn neighbour_indices(self, row: int, col: int) -> Seq<int> {
        let up = wrap_prev(row, self.height - 1);
        let down = wrap_next(row, self.height - 1);
        let left = wrap_prev(col, self.width - 1);
        let right = wrap_next(col, self.width - 1);
        seq![
            self.spec_index_of(up, left),
            self.spec_index_of(up, col),
            self.spec_index_of(up, right),
            self.spec_index_of(row, left),
            self.spec_index_of(row, right),
            self.spec_index_of(down, left),
            self.spec_index_of(down, col),
            self.spec_index_of(down, right),
        ]
    }

    /// The states of the eight neighbours of a position, in neighbour order.
    pub open spec fn neighbour_cells(self, row: int, col: int) -> Seq<Cell> {
        Seq::new(8, |k: int| self.cells@[self.neighbour_indices(row, col)[k]])
    }

    /// How many of the eight neighbour slots of a position hold an alive
    /// cell. On very narrow worlds one cell may fill several slots and is
    /// then counted once per slot.
    pub open spec fn alive_neighbours(self, row: int, col: int) -> int {
        count_alive(self.neighbour_cells(row, col))
    }

    /// The state a cell takes in the next generation, judged entirely
    /// against this (the current) world: an alive cell survives with two or
    /// three alive neighbours, a dead cell is born with exactly three.
    pub open spec fn next_cell(self, idx: int) -> Cell {
        let row = idx / (self.width as int);
        let col = idx % (self.width as int);
        let n = self.alive_neighbours(row, col);
        if self.cells@[idx] is Alive {
            if 2 <= n <= 3 {
                Cell::Alive
            } else {
                Cell::Dead
            }
        } else {
            if n == 3 {
                Cell::Alive
            } else {
                Cell::Dead
            }
        }
    }

    /// Instantiates a new `World` with every cell dead.
    pub fn new(width: u32, height: u32) -> (r: World)
        requires
            width >= 1,
            height >= 1,
            width * height <= u32::MAX,
        ensures
            r.wf(),
            r.width == width,
            r.height == height,
            forall|i: int| 0 <= i < r.cells@.len() ==> r.cells@[i] is Dead,
    {
        let n: u32 = width * height;
        let mut cells: Vec<Cell> = Vec::new();
        let mut i: u32 = 0;
        while i < n
            invariant
                i <= n,
                cells@.len() == i,
                forall|j: int| 0 <= j < i ==> cells@[j] is Dead,
            decreases n - i,
        {
            cells.push(Cell::Dead);
            i = i + 1;
        }
        World { width, height, cells }
    }

    /// Get index for cell in a matrix view.
    pub fn index(&self, row: u32, col: u32) -> (r: usize)
        requires
            self.wf(),
            row < self.height,
            col < self.width,
        ensures
            r == self.spec_index_of(row as int, col as int),
            r < self.cells@.len(),
    {
        proof {
            assert(row * self.width + col < self.height * self.width) by (nonlinear_arith)
                requires
                    row < self.height,
                    col < self.width,
                    self.width >= 1,
            ;
        }
        (row as usize) * (self.width as usize) + (col as usize)
    }

    /// Returns the row at the lowest bound.
    pub fn last_row(&self) -> (r: u32)
        requires
            self.wf(),
        ensures
            r == self.height - 1,
    {
        self.height - 1
    }

    /// Returns the column further to the right in the world.
    pub fn last_col(&self) -> (r: u32)
        requires
            self.wf(),
        ensures
            r == self.width - 1,
    {
        self.width - 1
    }

    /// Get cell at provided position; absent when the position is out of
    /// bounds.
    pub fn get_cell(&self, row: u32, col: u32) -> (r: Option<Cell>)
        requires
            self.wf(),
        ensures
            row < self.height && col < self.width ==> r == Some(
                self.cells@[self.spec_index_of(row as int, col as int)],
            ),
            !(row < self.height && col < self.width) ==> r is None,
    {
        if row < self.height && col < self.width {
            let idx = self.index(row, col);
            Some(self.cells[idx])
        } else {
            None
        }
    }

    /// Update value of a cell at provided position; a silent no-op when the
    /// position is out of bounds.
    pub fn write_cell(&mut self, cell: Cell, row: u32, col: u32)
        requires
            old(self).wf(),
        ensures
            final(self).wf(),
            final(self).width == old(self).width,
            final(self).height == old(self).height,
            row < old(self).height && col < old(self).width ==> final(self).cells@ == old(
                self,
            ).cells@.update(old(self).spec_index_of(row as int, col as int), cell),
            !(row < old(self).height && col < old(self).width) ==> final(self).cells@ == old(
                self,
            ).cells@,
    {
        if row < self.height && col < self.width {
            let idx = self.index(row, col);
            self.cells[idx] = cell;
        }
    }

    /// Given a position, returns the index of the cell's eight neighbours,
    /// wrapped around the edges of the world.
    pub fn neighbours(&self, row: u32, col: u32) -> (r: [usize; 8])
        requires
            self.wf(),
            row < self.height,
            col < self.width,
        ensures
            forall|k: int| 0 <= k < 8 ==> r@[k] == self.neighbour_indices(
                row as int,
                col as int,
            )[k],
            forall|k: int| 0 <= k < 8 ==> (r@[k] as int) < self.cells@.len(),
    {
        let upper_row = if row == 0 {
            self.last_row()
        } else {
            row - 1
        };
        let lower_row = if row == self.last_row() {
            0
        } else {
            row + 1
        };
        let column_at_left = if col == 0 {
            self.last_col()
        } else {
            col - 1
        };
        let column_at_right = if col == self.last_col() {
            0
        } else {
            col + 1
        };
        [
            self.index(upper_row, column_at_left),
            self.index(upper_row, col),
            self.index(upper_row, column_at_right),
            self.index(row, column_at_left),
            self.index(row, column_at_right),
            self.index(lower_row, column_at_left),
            self.index(lower_row, col),
            self.index(lower_row, column_at_right),
        ]
    }

    /// Calculate row and column from a given index.
    pub fn row_and_column(&self, index: usize) -> (r: (u32, u32))
        requires
            self.wf(),
            index < self.cells@.len(),
        ensures
            r.0 == index as int / self.width as int,
            r.1 == index as int % self.width as int,
            r.0 < self.height,
            r.1 < self.width,
            self.spec_index_of(r.0 as int, r.1 as int) == index,
    {
        proof {
            vstd::arithmetic::div_mod::lemma_fundamental_div_mod(
                index as int,
                self.width as int,
            );
            assert((index as int) / (self.width as int) < (self.height as int)) by (nonlinear_arith)
                requires
                    0 <= (index as int) < self.width * self.height,
                    self.width >= 1,
            ;
        }
        ((index as u32) / self.width, (index as u32) % self.width)
    }

    /// Returns the indexes of the alive cells, in ascending order.
    pub fn alive_cells(&self) -> (r: Vec<usize>)
        requires
            self.wf(),
        ensures
            r@.len() == count_alive(self.cells@),
            forall|k: int| 0 <= k < r@.len() ==> (r@[k] as int) < self.cells@.len()
                && self.cells@[r@[k] as int] is Alive,
            forall|k1: int, k2: int| 0 <= k1 < k2 < r@.len() ==> r@[k1] < r@[k2],
            forall|i: int|
                0 <= i < self.cells@.len() && self.cells@[i] is Alive ==> exists|k: int|
                    0 <= k < r@.len() && r@[k] == i,
    {
        let mut r: Vec<usize> = Vec::new();
        let n = self.cells.len();
        let mut i: usize = 0;
        while i < n
            invariant
                n == self.cells@.len(),
                i <= n,
                r@.len() == count_alive(self.cells@.take(i as int)),
                forall|k: int| 0 <= k < r@.len() ==> (r@[k] as int) < i
                    && self.cells@[r@[k] as int] is Alive,
                forall|k1: int, k2: int| 0 <= k1 < k2 < r@.len() ==> r@[k1] < r@[k2],
                forall|j: int|
                    0 <= j < i && self.cells@[j] is Alive ==> exists|k: int|
                        0 <= k < r@.len() && r@[k] == j,
            decreases n - i,
        {
            let ghost r0 = r@;
            if self.cells[i].is_alive() {
                r.push(i);
            }
            proof {
                assert forall|j: int| 0 <= j < i + 1 && self.cells@[j] is Alive implies exists|
                    k: int,
                | 0 <= k < r@.len() && r@[k] == j by {
                    if j < i {
                        let k = choose|k: int| 0 <= k < r0.len() && r0[k] == j;
                        assert(r@[k] == j);
                    } else {
                        assert(r@[r@.len() - 1] == i);
                    }
                }
                lemma_count_alive_take_step(self.cells@, i as int);
            }
            i = i + 1;
        }
        proof {
            assert(self.cells@.take(n as int) =~= self.cells@);
        }
        r
    }

    /// Returns the indexes of the dead cells, in ascending order.
    pub fn dead_cells(&self) -> (r: Vec<usize>)
        requires
            self.wf(),
        ensures
            r@.len() == count_dead(self.cells@),
            forall|k: int| 0 <= k < r@.len() ==> (r@[k] as int) < self.cells@.len()
                && self.cells@[r@[k] as int] is Dead,
            forall|k1: int, k2: int| 0 <= k1 < k2 < r@.len() ==> r@[k1] < r@[k2],
            forall|i: int|
                0 <= i < self.cells@.len() && self.cells@[i] is Dead ==> exists|k: int|
                    0 <= k < r@.len() && r@[k] == i,
    {
        let mut r: Vec<usize> = Vec::new();
        let n = self.cells.len();
        let mut i: usize = 0;
        while i < n
            invariant
                n == self.cells@.len(),
                i <= n,
                r@.len() == count_dead(self.cells@.take(i as int)),
                forall|k: int| 0 <= k < r@.len() ==> (r@[k] as int) < i
                    && self.cells@[r@[k] as int] is Dead,
                forall|k1: int, k2: int| 0 <= k1 < k2 < r@.len() ==> r@[k1] < r@[k2],
                forall|j: int|
                    0 <= j < i && self.cells@[j] is Dead ==> exists|k: int|
                        0 <= k < r@.len() && r@[k] == j,
            decreases n - i,
        {
            let ghost r0 = r@;
            if !self.cells[i].is_alive() {
                r.push(i);
            }
            proof {
                assert forall|j: int| 0 <= j < i + 1 && self.cells@[j] is Dead implies exists|
                    k: int,
                | 0 <= k < r@.len() && r@[k] == j by {
                    if j < i {
                        let k = choose|k: int| 0 <= k < r0.len() && r0[k] == j;
                        assert(r@[k] == j);
                    } else {
                        assert(r@[r@.len() - 1] == i);
                    }
                }
                lemma_count_alive_take_step(self.cells@, i as int);
            }
            i = i + 1;
        }
        proof {
            assert(self.cells@.take(n as int) =~= self.cells@);
        }
        r
    }

    /// Render the world: one line per row, top to bottom, one glyph per
    /// cell, every line newline-terminated.
    pub fn render(&self) -> (r: String)
        requires
            self.wf(),
        ensures
            r@ == render_text(self.cells@, self.width as int, self.height as int),
    {
        let mut out = String::new();
        let mut row: u32 = 0;
        while row < self.height
            invariant
                self.wf(),
                row <= self.height,
                out@ == render_text(self.cells@, self.width as int, row as int),
            decreases self.height - row,
        {
            let mut col: u32 = 0;
            while col < self.width
                invariant
                    self.wf(),
                    row < self.height,
                    col <= self.width,
                    out@ == render_text(self.cells@, self.width as int, row as int) + Seq::new(
                        col as nat,
                        |c: int| glyph(self.cells@[row as int * self.width as int + c]),
                    ),
                decreases self.width - col,
            {
                let idx = self.index(row, col);
                if self.cells[idx].is_alive() {
                    out.append("◼");
                } else {
                    out.append("◻");
                }
                proof {
                    reveal_strlit("◼");
                    reveal_strlit("◻");
                    assert(out@ =~= render_text(self.cells@, self.width as int, row as int)
                        + Seq::new(
                        (col + 1) as nat,
                        |c: int| glyph(self.cells@[row as int * self.width as int + c]),
                    ));
                }
                col = col + 1;
            }
            out.append("\n");
            proof {
                reveal_strlit("\n");
                assert(out@ =~= render_text(self.cells@, self.width as int, row as int + 1));
            }
            row = row + 1;
        }
        out
    }
}

/// The row-major index mapping is a bijection over valid positions: taking
/// the index of a position and reading the row and column back recovers the
/// position, and the index always lands inside the cell buffer.
pub proof fn lemma_index_roundtrip(w: World, row: int, col: int)
    requires
        w.wf(),
        0 <= row < w.height,
        0 <= col < w.width,
    ensures
        0 <= w.spec_index_of(row, col) < w.cells@.len(),
        w.spec_index_of(row, col) / (w.width as int) == row,
        w.spec_index_of(row, col) % (w.width as int) == col,
{
    assert(row * w.width + col < w.height * w.width) by (nonlinear_arith)
        requires
            row < w.height,
            col < w.width,
            w.width >= 1,
            0 <= row,
            0 <= col,
    ;
    vstd::arithmetic::div_mod::lemma_fundamental_div_mod_converse(
        w.spec_index_of(row, col),
        w.width as int,
        row,
        col,
    );
}

/// Underpopulation: an alive cell with no alive neighbours is dead in the
/// next generation, whatever the size of the world.
pub proof fn lemma_underpopulation(w: World, row: int, col: int)
    requires
        w.wf(),
        0 <= row < w.height,
        0 <= col < w.width,
        w.cells@[w.spec_index_of(row, col)] is Alive,
        w.alive_neighbours(row, col) == 0,
    ensures
        w.next_cell(w.spec_index_of(row, col)) is Dead,
{
    lemma_index_roundtrip(w, row, col);
}

/// Overcrowding: an alive cell with four or more alive neighbours is dead
/// in the next generation.
pub proof fn lemma_overcrowding(w: World, row: int, col: int)
    requires
        w.wf(),
        0 <= row < w.height,
        0 <= col < w.width,
        w.cells@[w.spec_index_of(row, col)] is Alive,
        w.alive_neighbours(row, col) >= 4,
    ensures
        w.next_cell(w.spec_index_of(row, col)) is Dead,
{
    lemma_index_roundtrip(w, row, col);
}

/// Birth: a dead cell with exactly three alive neighbours is alive in the
/// next generation; with two or four it stays dead.
pub proof fn lemma_birth(w: World, row: int, col: int)
    requires
        w.wf(),
        0 <= row < w.height,
        0 <= col < w.width,
        w.cells@[w.spec_index_of(row, col)] is Dead,
    ensures
        w.alive_neighbours(row, col) == 3 ==> w.next_cell(w.spec_index_of(row, col)) is Alive,
        w.alive_neighbours(row, col) == 2 ==> w.next_cell(w.spec_index_of(row, col)) is Dead,
        w.alive_neighbours(row, col) == 4 ==> w.next_cell(w.spec_index_of(row, col)) is Dead,
{
    lemma_index_roundtrip(w, row, col);
}

/// Rendering reads the world and nothing else: two renderings of one and
/// the same state are identical text.
pub proof fn lemma_render_deterministic(w: World, r1: Seq<char>, r2: Seq<char>)
    requires
        r1 == render_text(w.cells@, w.width as int, w.height as int),
        r2 == render_text(w.cells@, w.width as int, w.height as int),
    ensures
        r1 == r2,
{
}

} // verus!
