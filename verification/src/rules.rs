//! The mathematical model of the automaton: cell states, toroidal neighbor
//! counting, the transition rule, and the synchronous-update function, with
//! the lemmas that the rule obeys.

use vstd::prelude::*;

use vstd::arithmetic::div_mod::{
    lemma_fundamental_div_mod, lemma_fundamental_div_mod_converse, lemma_mod_multiples_vanish,
    lemma_small_mod,
};

verus! {

/// One cell of the grid: either dead or alive.
#[derive(Clone, Copy, Debug, PartialEq, Eq, Structural)]
pub enum Flower {
    Dead,
    Alive,
}

impl Flower {
    /// The numeric value of a cell for neighbor counting: alive is one,
    /// dead is zero.
    pub fn count_value(self) -> (v: u8)
        ensures
            v as nat == flower_count(self),
    {
        match self {
            Flower::Dead => 0,
            Flower::Alive => 1,
        }
    }
}

/// Alive counts as one live neighbor, dead as zero.
pub open spec fn flower_count(f: Flower) -> nat {
    match f {
        Flower::Dead => 0,
        Flower::Alive => 1,
    }
}

/// The linear index of row `row`, column `col` in a row-major buffer of the
/// given width.
pub open spec fn cell_index(width: int, row: int, col: int) -> int {
    row * width + col
}

/// The cell at row `row`, column `col` of a row-major buffer.
pub open spec fn cell_at(cells: Seq<Flower>, width: int, row: int, col: int) -> Flower {
    cells[cell_index(width, row, col)]
}

/// The number of live cells among the eight toroidal neighbors of
/// (`row`, `col`): each coordinate is wrapped independently, so the grid has
/// no true edge.
pub open spec fn live_neighbors(
    cells: Seq<Flower>,
    width: int,
    height: int,
    row: int,
    col: int,
) -> nat {
    let up = (row + height - 1) % height;
    let down = (row + 1) % height;
    let left = (col + width - 1) % width;
    let right = (col + 1) % width;
    flower_count(cell_at(cells, width, up, left)) + flower_count(cell_at(cells, width, up, col))
        + flower_count(cell_at(cells, width, up, right)) + flower_count(
        cell_at(cells, width, row, left),
    ) + flower_count(cell_at(cells, width, row, right)) + flower_count(
        cell_at(cells, width, down, left),
    ) + flower_count(cell_at(cells, width, down, col)) + flower_count(
        cell_at(cells, width, down, right),
    )
}

/// The transition rule: a live cell survives with two or three live
/// neighbors and dies otherwise; a dead cell comes alive with exactly three
/// live neighbors and stays dead otherwise.
pub open spec fn next_state(f: Flower, n: nat) -> Flower {
    match f {
        Flower::Alive => if 2 <= n && n <= 3 {
            Flower::Alive
        } else {
            Flower::Dead
        },
        Flower::Dead => if n == 3 {
            Flower::Alive
        } else {
            Flower::Dead
        },
    }
}

/// One synchronous generation step: every cell of the new buffer is the rule
/// applied to the old cell and its neighbor count in the old buffer alone.
pub open spec fn next_cells(cells: Seq<Flower>, width: int, height: int) -> Seq<Flower> {
    Seq::new(
        cells.len(),
        |i: int| next_state(cells[i], live_neighbors(cells, width, height, i / width, i % width)),
    )
}

/// The default seed pattern: a cell is alive when its linear index is
/// divisible by two or by seven.
pub open spec fn default_seed(i: int) -> Flower {
    if i % 2 == 0 || i % 7 == 0 {
        Flower::Alive
    } else {
        Flower::Dead
    }
}

/// Whether a coordinate list names the cell at linear index `i` of a grid of
/// the given width.
pub open spec fn listed(coords: Seq<(u32, u32)>, width: int, i: int) -> bool {
    exists|k: int|
        0 <= k < coords.len() && cell_index(width, coords[k].0 as int, coords[k].1 as int) == i
}

/// Extending a coordinate prefix by one entry names exactly the cells the
/// prefix names plus the cell of the new entry.
pub proof fn lemma_listed_take_step(coords: Seq<(u32, u32)>, width: int, k: int, i: int)
    requires
        0 <= k < coords.len(),
    ensures
        listed(coords.take(k + 1), width, i) <==> (listed(coords.take(k), width, i) || cell_index(
            width,
            coords[k].0 as int,
            coords[k].1 as int,
        ) == i),
{
    let pre = coords.take(k);
    let cur = coords.take(k + 1);
    if listed(cur, width, i) {
        let j = choose|j: int|
            0 <= j < cur.len() && cell_index(width, cur[j].0 as int, cur[j].1 as int) == i;
        if j < k {
            assert(pre[j] == coords[j]);
            assert(cell_index(width, pre[j].0 as int, pre[j].1 as int) == i);
            assert(listed(pre, width, i));
        } else {
            assert(cur[j] == coords[k]);
        }
    }
    if listed(pre, width, i) {
        let j = choose|j: int|
            0 <= j < pre.len() && cell_index(width, pre[j].0 as int, pre[j].1 as int) == i;
        assert(cur[j] == pre[j]);
        assert(cell_index(width, cur[j].0 as int, cur[j].1 as int) == i);
        assert(listed(cur, width, i));
    }
    if cell_index(width, coords[k].0 as int, coords[k].1 as int) == i {
        assert(cur[k] == coords[k]);
        assert(cell_index(width, cur[k].0 as int, cur[k].1 as int) == i);
        assert(listed(cur, width, i));
    }
}

/// Wrapping one step towards smaller coordinates: for `0 <= x < m`,
/// `(x + m - 1) % m` is `m - 1` when `x` is zero and `x - 1` otherwise.
pub proof fn lemma_wrap_dec(x: int, m: int)
    requires
        0 <= x < m,
    ensures
        (x + m - 1) % m == if x == 0 {
            m - 1
        } else {
            x - 1
        },
{
    if x == 0 {
        lemma_small_mod((m - 1) as nat, m as nat);
    } else {
        lemma_mod_multiples_vanish(1, x - 1, m);
        lemma_small_mod((x - 1) as nat, m as nat);
    }
}

/// Wrapping one step towards larger coordinates: for `0 <= x < m`,
/// `(x + 1) % m` is `0` when `x` is `m - 1` and `x + 1` otherwise.
pub proof fn lemma_wrap_inc(x: int, m: int)
    requires
        0 <= x < m,
    ensures
        (x + 1) % m == if x == m - 1 {
            0
        } else {
            x + 1
        },
{
    if x == m - 1 {
        lemma_mod_multiples_vanish(1, 0, m);
        lemma_small_mod(0, m as nat);
    } else {
        lemma_small_mod((x + 1) as nat, m as nat);
    }
}

/// A row-major index built from in-range coordinates lies inside the buffer
/// and decodes back to the same coordinates.
pub proof fn lemma_cell_index_bounds(width: int, height: int, row: int, col: int)
    requires
        0 <= row < height,
        0 <= col < width,
    ensures
        0 <= cell_index(width, row, col) < width * height,
        cell_index(width, row, col) / width == row,
        cell_index(width, row, col) % width == col,
{
    assert(0 <= row * width + col < width * height) by (nonlinear_arith)
        requires
            0 <= row < height,
            0 <= col < width,
    ;
    lemma_fundamental_div_mod_converse(row * width + col, width, row, col);
}

/// An offset into an earlier row lies below the current row's base index.
pub proof fn lemma_row_prefix_bound(stride: int, r2: int, row: int, off: int)
    requires
        0 <= r2 < row,
        0 <= off < stride,
    ensures
        0 <= r2 * stride + off < row * stride,
{
    assert(0 <= r2 * stride + off < row * stride) by (nonlinear_arith)
        requires
            0 <= r2 < row,
            0 <= off < stride,
    ;
}

/// The glyph a cell is rendered as: a hollow square when dead, a filled
/// square when alive.
pub open spec fn glyph(f: Flower) -> char {
    match f {
        Flower::Dead => '◻',
        Flower::Alive => '◼',
    }
}

/// Any index into a width-by-height buffer decodes to in-range coordinates
/// that encode back to the same index.
pub proof fn lemma_index_decode(width: int, height: int, i: int)
    requires
        0 < width,
        0 <= i < width * height,
    ensures
        0 <= i / width < height,
        0 <= i % width < width,
        cell_index(width, i / width, i % width) == i,
{
    lemma_fundamental_div_mod(i, width);
    assert(0 <= i % width < width) by (nonlinear_arith)
        requires
            0 < width,
            0 <= i,
    ;
    assert(0 <= i / width < height) by (nonlinear_arith)
        requires
            0 < width,
            0 <= i < width * height,
            i == width * (i / width) + i % width,
            0 <= i % width < width,
    ;
    assert((i / width) * width + i % width == i) by (nonlinear_arith)
        requires
            i == width * (i / width) + i % width,
    ;
}

/// Edges wrap: the neighbor count of the corner cell (0, 0) sums exactly the
/// cells (h-1, w-1), (h-1, 0), (h-1, 1), (0, w-1), (0, 1), (1, w-1), (1, 0)
/// and (1, 1).
pub proof fn lemma_wraparound_origin(cells: Seq<Flower>, width: int, height: int)
    requires
        2 <= width,
        2 <= height,
    ensures
        live_neighbors(cells, width, height, 0, 0) == flower_count(
            cell_at(cells, width, height - 1, width - 1),
        ) + flower_count(cell_at(cells, width, height - 1, 0)) + flower_count(
            cell_at(cells, width, height - 1, 1),
        ) + flower_count(cell_at(cells, width, 0, width - 1)) + flower_count(
            cell_at(cells, width, 0, 1),
        ) + flower_count(cell_at(cells, width, 1, width - 1)) + flower_count(
            cell_at(cells, width, 1, 0),
        ) + flower_count(cell_at(cells, width, 1, 1)),
{
    lemma_wrap_dec(0, height);
    lemma_wrap_inc(0, height);
    lemma_wrap_dec(0, width);
    lemma_wrap_inc(0, width);
}

/// Underpopulation: a live cell with fewer than two live neighbors is dead
/// after one synchronous step.
pub proof fn lemma_underpopulation(cells: Seq<Flower>, width: int, height: int, row: int, col: int)
    requires
        cells.len() == width * height,
        0 <= row < height,
        0 <= col < width,
        cell_at(cells, width, row, col) == Flower::Alive,
        live_neighbors(cells, width, height, row, col) <= 1,
    ensures
        cell_at(next_cells(cells, width, height), width, row, col) == Flower::Dead,
{
    lemma_cell_index_bounds(width, height, row, col);
}

/// Survival: a live cell with two or three live neighbors is alive after one
/// synchronous step.
pub proof fn lemma_survival(cells: Seq<Flower>, width: int, height: int, row: int, col: int)
    requires
        cells.len() == width * height,
        0 <= row < height,
        0 <= col < width,
        cell_at(cells, width, row, col) == Flower::Alive,
        2 <= live_neighbors(cells, width, height, row, col) <= 3,
    ensures
        cell_at(next_cells(cells, width, height), width, row, col) == Flower::Alive,
{
    lemma_cell_index_bounds(width, height, row, col);
}

/// Overpopulation: a live cell with four or more live neighbors is dead
/// after one synchronous step.
pub proof fn lemma_overpopulation(cells: Seq<Flower>, width: int, height: int, row: int, col: int)
    requires
        cells.len() == width * height,
        0 <= row < height,
        0 <= col < width,
        cell_at(cells, width, row, col) == Flower::Alive,
        live_neighbors(cells, width, height, row, col) >= 4,
    ensures
        cell_at(next_cells(cells, width, height), width, row, col) == Flower::Dead,
{
    lemma_cell_index_bounds(width, height, row, col);
}

/// Rebirth: a dead cell with exactly three live neighbors is alive after one
/// synchronous step.
pub proof fn lemma_rebirth(cells: Seq<Flower>, width: int, height: int, row: int, col: int)
    requires
        cells.len() == width * height,
        0 <= row < height,
        0 <= col < width,
        cell_at(cells, width, row, col) == Flower::Dead,
        live_neighbors(cells, width, height, row, col) == 3,
    ensures
        cell_at(next_cells(cells, width, height), width, row, col) == Flower::Alive,
{
    lemma_cell_index_bounds(width, height, row, col);
}

/// Whether (row, col) lies inside the two-by-two block anchored at (1, 1).
pub open spec fn in_block(row: int, col: int) -> bool {
    1 <= row <= 2 && 1 <= col <= 2
}

/// The grid that holds exactly a two-by-two block of live cells anchored at
/// (1, 1), every other cell dead.
pub open spec fn block_cells(width: int, height: int) -> Seq<Flower> {
    Seq::new(
        (width * height) as nat,
        |i: int|
            if in_block(i / width, i % width) {
                Flower::Alive
            } else {
                Flower::Dead
            },
    )
}

/// The counting value of a block-grid cell: one inside the block, zero
/// outside.
proof fn lemma_block_cell(width: int, height: int, r: int, c: int)
    requires
        0 <= r < height,
        0 <= c < width,
    ensures
        flower_count(cell_at(block_cells(width, height), width, r, c)) == if in_block(r, c) {
            1nat
        } else {
            0nat
        },
{
    lemma_cell_index_bounds(width, height, r, c);
}

/// The neighbor counts of the block grid: a block cell sees exactly the
/// other three block cells, and any other cell sees at most two of them.
proof fn lemma_block_neighbors(width: int, height: int, row: int, col: int)
    requires
        4 <= width,
        4 <= height,
        0 <= row < height,
        0 <= col < width,
    ensures
        in_block(row, col) ==> live_neighbors(block_cells(width, height), width, height, row, col)
            == 3,
        !in_block(row, col) ==> live_neighbors(block_cells(width, height), width, height, row, col)
            <= 2,
{
    lemma_wrap_dec(row, height);
    lemma_wrap_inc(row, height);
    lemma_wrap_dec(col, width);
    lemma_wrap_inc(col, width);
    let up = (row + height - 1) % height;
    let down = (row + 1) % height;
    let left = (col + width - 1) % width;
    let right = (col + 1) % width;
    lemma_block_cell(width, height, up, left);
    lemma_block_cell(width, height, up, col);
    lemma_block_cell(width, height, up, right);
    lemma_block_cell(width, height, row, left);
    lemma_block_cell(width, height, row, right);
    lemma_block_cell(width, height, down, left);
    lemma_block_cell(width, height, down, col);
    lemma_block_cell(width, height, down, right);
}

/// One synchronous step leaves the block grid unchanged: every block cell
/// survives with three live neighbors and no dead cell sees three.
pub proof fn lemma_block_step(width: int, height: int)
    requires
        4 <= width,
        4 <= height,
    ensures
        next_cells(block_cells(width, height), width, height) == block_cells(width, height),
{
    let b = block_cells(width, height);
    let n = next_cells(b, width, height);
    assert forall|i: int| 0 <= i < b.len() implies n[i] == b[i] by {
        lemma_index_decode(width, height, i);
        lemma_block_neighbors(width, height, i / width, i % width);
        lemma_block_cell(width, height, i / width, i % width);
    }
    assert(n =~= b);
}

/// The grid after `n` synchronous steps.
pub open spec fn iter_cells(cells: Seq<Flower>, width: int, height: int, n: nat) -> Seq<Flower>
    decreases n,
{
    if n == 0 {
        cells
    } else {
        next_cells(iter_cells(cells, width, height, (n - 1) as nat), width, height)
    }
}

/// Stasis of a still life: on a grid at least four cells wide and four tall
/// that holds exactly the two-by-two block of live cells, any number of
/// synchronous steps leaves the grid unchanged.
pub proof fn lemma_block_still_life(width: int, height: int, n: nat)
    requires
        4 <= width,
        4 <= height,
    ensures
        iter_cells(block_cells(width, height), width, height, n) == block_cells(width, height),
    decreases n,
{
    if n > 0 {
        lemma_block_still_life(width, height, (n - 1) as nat);
        lemma_block_step(width, height);
    }
}

} // verus!
