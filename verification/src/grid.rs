//! The grid engine: the universe value that owns the dimensions and the cell
//! buffer, with construction, resizing, seeding, generation advance and
//! rendering.

use vstd::prelude::*;

use crate::rules::{
    cell_at, cell_index, default_seed, flower_count, glyph, lemma_cell_index_bounds,
    lemma_listed_take_step, lemma_row_prefix_bound, lemma_wrap_dec, lemma_wrap_inc, listed,
    live_neighbors, next_cells, next_state, Flower,
};

verus! {

/// The two recoverable boundary faults of the engine.
#[derive(Clone, Copy, Debug, PartialEq, Eq, Structural)]
pub enum GridError {
    /// A dimension of zero was given at construction.
    InvalidDimensions,
    /// A seeding coordinate lies outside the current grid.
    InvalidCoordinate,
}

/// A toroidal grid of cells, stored row-major.
#[derive(Debug)]
pub struct Universe {
    width: u32,
    height: u32,
    flowers: Vec<Flower>,
}

impl Universe {
    /// The grid's width.
    pub closed spec fn spec_width(&self) -> u32 {
        self.width
    }

    /// The grid's height.
    pub closed spec fn spec_height(&self) -> u32 {
        self.height
    }

    /// The cell buffer, row-major.
    pub closed spec fn spec_flowers(&self) -> Seq<Flower> {
        self.flowers@
    }

    /// The dimension invariant: the buffer holds exactly width times height
    /// cells. Every constructor establishes it and every mutation keeps it.
    pub open spec fn wf(&self) -> bool {
        self.spec_flowers().len() == self.spec_width() * self.spec_height()
    }

    /// The linear index of an in-range coordinate pair in the row-major
    /// buffer.
    fn get_index(&self, row: u32, column: u32) -> (idx: usize)
        requires
            self.wf(),
            row < self.spec_height(),
            column < self.spec_width(),
        ensures
            idx == cell_index(self.spec_width() as int, row as int, column as int),
            idx < self.spec_flowers().len(),
    {
        let buf_len = self.flowers.len();
        proof {
            lemma_cell_index_bounds(
                self.spec_width() as int,
                self.spec_height() as int,
                row as int,
                column as int,
            );
            assert((row as int) * (self.spec_width() as int) + (column as int) < buf_len as int);
        }
        (row as usize) * (self.width as usize) + (column as usize)
    }

    /// The number of live cells among the eight toroidal neighbors of
    /// (`row`, `column`), each coordinate wrapped independently.
    #[verifier::rlimit(50)]
    fn count_live_neighbors(&self, row: u32, column: u32) -> (count: u8)
        requires
            self.wf(),
            row < self.spec_height(),
            column < self.spec_width(),
        ensures
            count as nat == live_neighbors(
                self.spec_flowers(),
                self.spec_width() as int,
                self.spec_height() as int,
                row as int,
                column as int,
            ),
    {
        let up = if row == 0 {
            self.height - 1
        } else {
            row - 1
        };
        let down = if row == self.height - 1 {
            0
        } else {
            row + 1
        };
        let left = if column == 0 {
            self.width - 1
        } else {
            column - 1
        };
        let right = if column == self.width - 1 {
            0
        } else {
            column + 1
        };
        let ghost w = self.spec_width() as int;
        let ghost h = self.spec_height() as int;
        let ghost cells = self.spec_flowers();
        proof {
            lemma_wrap_dec(row as int, h);
            lemma_wrap_inc(row as int, h);
            lemma_wrap_dec(column as int, w);
            lemma_wrap_inc(column as int, w);
            assert(up as int == (row as int + h - 1) % h);
            assert(down as int == (row as int + 1) % h);
            assert(left as int == (column as int + w - 1) % w);
            assert(right as int == (column as int + 1) % w);
        }
        let v1 = self.flowers[self.get_index(up, left)].count_value();
        let v2 = self.flowers[self.get_index(up, column)].count_value();
        let v3 = self.flowers[self.get_index(up, right)].count_value();
        let v4 = self.flowers[self.get_index(row, left)].count_value();
        let v5 = self.flowers[self.get_index(row, right)].count_value();
        let v6 = self.flowers[self.get_index(down, left)].count_value();
        let v7 = self.flowers[self.get_index(down, column)].count_value();
        let v8 = self.flowers[self.get_index(down, right)].count_value();
        proof {
            assert(v1 as nat == flower_count(cell_at(cells, w, up as int, left as int)));
            assert(v2 as nat == flower_count(cell_at(cells, w, up as int, column as int)));
            assert(v3 as nat == flower_count(cell_at(cells, w, up as int, right as int)));
            assert(v4 as nat == flower_count(cell_at(cells, w, row as int, left as int)));
            assert(v5 as nat == flower_count(cell_at(cells, w, row as int, right as int)));
            assert(v6 as nat == flower_count(cell_at(cells, w, down as int, left as int)));
            assert(v7 as nat == flower_count(cell_at(cells, w, down as int, column as int)));
            assert(v8 as nat == flower_count(cell_at(cells, w, down as int, right as int)));
        }
        v1 + v2 + v3 + v4 + v5 + v6 + v7 + v8
    }

    /// A buffer of `len` cells seeded by the default rule: alive where the
    /// linear index divides by two or by seven, dead elsewhere.
    fn seeded_flowers(len: usize) -> (v: Vec<Flower>)
        ensures
            v@.len() == len,
            forall|i: int| 0 <= i < len ==> v@[i] == default_seed(i),
    {
        let mut v: Vec<Flower> = Vec::with_capacity(len);
        let mut i: usize = 0;
        while i < len
            invariant
                i <= len,
                v@.len() == i,
                forall|j: int| 0 <= j < i ==> v@[j] == default_seed(j),
            decreases len - i,
        {
            if i % 2 == 0 || i % 7 == 0 {
                v.push(Flower::Alive);
            } else {
                v.push(Flower::Dead);
            }
            i += 1;
        }
        v
    }

    /// A buffer of `len` dead cells.
    fn dead_flowers(len: usize) -> (v: Vec<Flower>)
        ensures
            v@.len() == len,
            forall|i: int| 0 <= i < len ==> v@[i] == Flower::Dead,
    {
        let mut v: Vec<Flower> = Vec::with_capacity(len);
        let mut i: usize = 0;
        while i < len
            invariant
                i <= len,
                v@.len() == i,
                forall|j: int| 0 <= j < i ==> v@[j] == Flower::Dead,
            decreases len - i,
        {
            v.push(Flower::Dead);
            i += 1;
        }
        v
    }

    /// A 64-by-64 universe with the default seed pattern.
    pub fn new() -> (u: Universe)
        ensures
            u.wf(),
            u.spec_width() == 64,
            u.spec_height() == 64,
            forall|i: int|
                0 <= i < u.spec_flowers().len() ==> u.spec_flowers()[i] == default_seed(i),
    {
        let flowers = Self::seeded_flowers(64 * 64);
        Universe { width: 64, height: 64, flowers }
    }

    /// A universe with the given dimensions and the default seed pattern;
    /// a zero dimension is rejected as invalid.
    pub fn try_new(width: u32, height: u32) -> (r: Result<Universe, GridError>)
        requires
            width * height <= usize::MAX,
        ensures
            match r {
                Ok(u) => width > 0 && height > 0 && u.wf() && u.spec_width() == width
                    && u.spec_height() == height && forall|i: int|
                    0 <= i < u.spec_flowers().len() ==> u.spec_flowers()[i] == default_seed(i),
                Err(e) => e == GridError::InvalidDimensions && (width == 0 || height == 0),
            },
    {
        if width == 0 || height == 0 {
            return Err(GridError::InvalidDimensions);
        }
        let len = (width as usize) * (height as usize);
        let flowers = Self::seeded_flowers(len);
        Ok(Universe { width, height, flowers })
    }

    /// Sets the width and replaces the buffer with a freshly allocated one of
    /// the new size, every cell dead: prior content is discarded.
    pub fn set_width(&mut self, width: u32)
        requires
            old(self).wf(),
            width * old(self).spec_height() <= usize::MAX,
        ensures
            final(self).wf(),
            final(self).spec_width() == width,
            final(self).spec_height() == old(self).spec_height(),
            forall|i: int|
                0 <= i < final(self).spec_flowers().len() ==> final(self).spec_flowers()[i]
                    == Flower::Dead,
    {
        self.width = width;
        let len = (width as usize) * (self.height as usize);
        self.flowers = Self::dead_flowers(len);
    }

    /// Sets the height and replaces the buffer with a freshly allocated one
    /// of the new size, every cell dead: prior content is discarded.
    pub fn set_height(&mut self, height: u32)
        requires
            old(self).wf(),
            old(self).spec_width() * height <= usize::MAX,
        ensures
            final(self).wf(),
            final(self).spec_width() == old(self).spec_width(),
            final(self).spec_height() == height,
            forall|i: int|
                0 <= i < final(self).spec_flowers().len() ==> final(self).spec_flowers()[i]
                    == Flower::Dead,
    {
        self.height = height;
        let len = (self.width as usize) * (height as usize);
        self.flowers = Self::dead_flowers(len);
    }

    /// Advances the grid one generation. The rule is applied to every cell
    /// simultaneously: all neighbor counts are taken from the previous
    /// generation's buffer, and a freshly built buffer then replaces the old
    /// one whole.
    pub fn tick(&mut self)
        requires
            old(self).wf(),
        ensures
            final(self).wf(),
            final(self).spec_width() == old(self).spec_width(),
            final(self).spec_height() == old(self).spec_height(),
            final(self).spec_flowers() == next_cells(
                old(self).spec_flowers(),
                old(self).spec_width() as int,
                old(self).spec_height() as int,
            ),
    {
        let ghost w = self.spec_width() as int;
        let ghost h = self.spec_height() as int;
        let ghost cells = self.spec_flowers();
        let ghost target = next_cells(cells, w, h);
        let mut next: Vec<Flower> = Vec::with_capacity(self.flowers.len());
        let mut row: u32 = 0;
        while row < self.height
            invariant
                self.wf(),
                self.spec_width() as int == w,
                self.spec_height() as int == h,
                self.spec_flowers() == cells,
                row <= self.spec_height(),
                target == next_cells(cells, w, h),
                target.len() == w * h,
                next@.len() == row as int * w,
                forall|i: int| 0 <= i < next@.len() ==> next@[i] == target[i],
            decreases self.spec_height() - row,
        {
            let mut col: u32 = 0;
            while col < self.width
                invariant
                    self.wf(),
                    self.spec_width() as int == w,
                    self.spec_height() as int == h,
                    self.spec_flowers() == cells,
                    row < self.spec_height(),
                    col <= self.spec_width(),
                    target == next_cells(cells, w, h),
                    target.len() == w * h,
                    next@.len() == row as int * w + col as int,
                    forall|i: int| 0 <= i < next@.len() ==> next@[i] == target[i],
                decreases self.spec_width() - col,
            {
                let idx = self.get_index(row, col);
                let flower = self.flowers[idx];
                let n = self.count_live_neighbors(row, col);
                let next_flower = match flower {
                    Flower::Alive => if 2 <= n && n <= 3 {
                        Flower::Alive
                    } else {
                        Flower::Dead
                    },
                    Flower::Dead => if n == 3 {
                        Flower::Alive
                    } else {
                        Flower::Dead
                    },
                };
                proof {
                    lemma_cell_index_bounds(w, h, row as int, col as int);
                    assert(target[idx as int] == next_state(
                        cells[idx as int],
                        live_neighbors(cells, w, h, row as int, col as int),
                    ));
                    assert(next_flower == target[idx as int]);
                }
                next.push(next_flower);
                col += 1;
            }
            proof {
                assert((row as int + 1) * w == row as int * w + w) by (nonlinear_arith);
            }
            row += 1;
        }
        proof {
            assert(row as int == h);
            assert(next@.len() == row as int * w);
            assert(target.len() == w * h);
            assert(h * w == w * h);
            assert(next@.len() == target.len());
            assert(next@ =~= target);
        }
        self.flowers = next;
    }

    /// Sets every cell named by the coordinate list (row, column) to alive,
    /// leaving all other cells untouched. Every coordinate must lie within
    /// the current grid.
    pub fn set_flowers(&mut self, flowers: &[(u32, u32)])
        requires
            old(self).wf(),
            forall|k: int|
                0 <= k < flowers@.len() ==> (#[trigger] flowers@[k]).0 < old(self).spec_height()
                    && flowers@[k].1 < old(self).spec_width(),
        ensures
            final(self).wf(),
            final(self).spec_width() == old(self).spec_width(),
            final(self).spec_height() == old(self).spec_height(),
            final(self).spec_flowers().len() == old(self).spec_flowers().len(),
            forall|i: int|
                0 <= i < final(self).spec_flowers().len() ==> final(self).spec_flowers()[i] == (
                if listed(flowers@, old(self).spec_width() as int, i) {
                    Flower::Alive
                } else {
                    old(self).spec_flowers()[i]
                }),
    {
        let ghost w = self.spec_width() as int;
        let ghost orig = self.spec_flowers();
        let mut k: usize = 0;
        while k < flowers.len()
            invariant
                self.wf(),
                self.spec_width() == old(self).spec_width(),
                self.spec_height() == old(self).spec_height(),
                w == self.spec_width() as int,
                orig == old(self).spec_flowers(),
                self.spec_flowers().len() == orig.len(),
                k <= flowers@.len(),
                forall|j: int|
                    0 <= j < flowers@.len() ==> (#[trigger] flowers@[j]).0 < self.spec_height()
                        && flowers@[j].1 < self.spec_width(),
                forall|i: int|
                    0 <= i < self.spec_flowers().len() ==> self.spec_flowers()[i] == (if listed(
                        flowers@.take(k as int),
                        w,
                        i,
                    ) {
                        Flower::Alive
                    } else {
                        orig[i]
                    }),
            decreases flowers@.len() - k,
        {
            let (row, col) = flowers[k];
            let idx = self.get_index(row, col);
            self.flowers.set(idx, Flower::Alive);
            proof {
                assert forall|i: int| 0 <= i < self.spec_flowers().len() implies self.spec_flowers()[i]
                    == (if listed(flowers@.take(k as int + 1), w, i) {
                    Flower::Alive
                } else {
                    orig[i]
                }) by {
                    lemma_listed_take_step(flowers@, w, k as int, i);
                }
            }
            k += 1;
        }
        proof {
            assert(flowers@.take(flowers@.len() as int) == flowers@);
        }
    }

    /// Sets every cell named by the coordinate list to alive after checking
    /// the whole list: a coordinate outside the current grid is rejected and
    /// the grid is left unchanged.
    pub fn try_set_flowers(&mut self, flowers: &[(u32, u32)]) -> (r: Result<(), GridError>)
        requires
            old(self).wf(),
        ensures
            final(self).wf(),
            final(self).spec_width() == old(self).spec_width(),
            final(self).spec_height() == old(self).spec_height(),
            match r {
                Ok(()) => (forall|k: int|
                    0 <= k < flowers@.len() ==> (#[trigger] flowers@[k]).0 < old(
                        self,
                    ).spec_height() && flowers@[k].1 < old(self).spec_width())
                    && final(self).spec_flowers().len() == old(self).spec_flowers().len() && (
                forall|i: int|
                    0 <= i < final(self).spec_flowers().len() ==> final(self).spec_flowers()[i]
                        == (if listed(flowers@, old(self).spec_width() as int, i) {
                        Flower::Alive
                    } else {
                        old(self).spec_flowers()[i]
                    })),
                Err(e) => e == GridError::InvalidCoordinate && (exists|k: int|
                    0 <= k < flowers@.len() && ((#[trigger] flowers@[k]).0 >= old(
                        self,
                    ).spec_height() || flowers@[k].1 >= old(self).spec_width())) && *final(self)
                    == *old(self),
            },
    {
        let mut k: usize = 0;
        while k < flowers.len()
            invariant
                *self == *old(self),
                self.wf(),
                k <= flowers@.len(),
                forall|j: int|
                    0 <= j < k ==> (#[trigger] flowers@[j]).0 < self.spec_height()
                        && flowers@[j].1 < self.spec_width(),
            decreases flowers@.len() - k,
        {
            let (row, col) = flowers[k];
            if row >= self.height || col >= self.width {
                return Err(GridError::InvalidCoordinate);
            }
            k += 1;
        }
        self.set_flowers(flowers);
        Ok(())
    }

    /// A read-only view of the cell buffer, row-major.
    pub fn get_flowers(&self) -> (r: &[Flower])
        ensures
            r@ == self.spec_flowers(),
    {
        self.flowers.as_slice()
    }

    /// The grid as text: one line per row, each cell rendered as one glyph, a
    /// hollow square when dead and a filled square when alive, every row
    /// ended by one newline. A pure projection of the current state.
    pub fn render(&self) -> (r: String)
        requires
            self.wf(),
        ensures
            r@.len() == self.spec_height() * (self.spec_width() + 1),
            forall|row: int, col: int|
                0 <= row < self.spec_height() && 0 <= col < self.spec_width()
                    ==> r@[row * (self.spec_width() + 1) + col] == glyph(
                    cell_at(self.spec_flowers(), self.spec_width() as int, row, col),
                ),
            forall|row: int|
                0 <= row < self.spec_height() ==> #[trigger] r@[row * (self.spec_width() + 1)
                    + self.spec_width()] == '\n',
    {
        let ghost w = self.spec_width() as int;
        let ghost h = self.spec_height() as int;
        let ghost cells = self.spec_flowers();
        let mut out = String::new();
        let mut row: u32 = 0;
        while row < self.height
            invariant
                self.wf(),
                w == self.spec_width() as int,
                h == self.spec_height() as int,
                cells == self.spec_flowers(),
                row <= h,
                out@.len() == row as int * (w + 1),
                forall|r2: int, c2: int|
                    0 <= r2 < row && 0 <= c2 < w ==> out@[r2 * (w + 1) + c2] == glyph(
                        cell_at(cells, w, r2, c2),
                    ),
                forall|r2: int| 0 <= r2 < row ==> #[trigger] out@[r2 * (w + 1) + w] == '\n',
            decreases h - row,
        {
            let mut col: u32 = 0;
            while col < self.width
                invariant
                    self.wf(),
                    w == self.spec_width() as int,
                    h == self.spec_height() as int,
                    cells == self.spec_flowers(),
                    row < h,
                    col <= w,
                    out@.len() == row as int * (w + 1) + col as int,
                    forall|r2: int, c2: int|
                        0 <= r2 < row && 0 <= c2 < w ==> out@[r2 * (w + 1) + c2] == glyph(
                            cell_at(cells, w, r2, c2),
                        ),
                    forall|r2: int| 0 <= r2 < row ==> #[trigger] out@[r2 * (w + 1) + w] == '\n',
                    forall|c2: int|
                        0 <= c2 < col ==> out@[row as int * (w + 1) + c2] == glyph(
                            cell_at(cells, w, row as int, c2),
                        ),
                decreases w - col,
            {
                let idx = self.get_index(row, col);
                let f = self.flowers[idx];
                proof {
                    reveal_strlit("◻");
                    reveal_strlit("◼");
                }
                if f == Flower::Dead {
                    out.append("◻");
                } else {
                    out.append("◼");
                }
                proof {
                    assert forall|r2: int, c2: int| 0 <= r2 < row && 0 <= c2 < w implies out@[r2
                        * (w + 1) + c2] == glyph(cell_at(cells, w, r2, c2)) by {
                        lemma_row_prefix_bound(w + 1, r2, row as int, c2);
                    }
                    assert forall|r2: int| 0 <= r2 < row implies #[trigger] out@[r2 * (w + 1) + w]
                        == '\n' by {
                        lemma_row_prefix_bound(w + 1, r2, row as int, w);
                    }
                }
                col += 1;
            }
            proof {
                reveal_strlit("\n");
            }
            out.append("\n");
            proof {
                assert((row as int + 1) * (w + 1) == row as int * (w + 1) + w + 1)
                    by (nonlinear_arith);
                assert forall|r2: int, c2: int| 0 <= r2 < row + 1 && 0 <= c2 < w implies out@[r2
                    * (w + 1) + c2] == glyph(cell_at(cells, w, r2, c2)) by {
                    if r2 < row {
                        lemma_row_prefix_bound(w + 1, r2, row as int, c2);
                    }
                }
                assert forall|r2: int| 0 <= r2 < row + 1 implies #[trigger] out@[r2 * (w + 1) + w]
                    == '\n' by {
                    if r2 < row {
                        lemma_row_prefix_bound(w + 1, r2, row as int, w);
                    }
                }
            }
            row += 1;
        }
        out
    }

    /// The width of the grid.
    pub fn width(&self) -> (w: u32)
        ensures
            w == self.spec_width(),
    {
        self.width
    }

    /// The height of the grid.
    pub fn height(&self) -> (h: u32)
        ensures
            h == self.spec_height(),
    {
        self.height
    }
}

} // verus!
