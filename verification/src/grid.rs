//! Geometry of the rectangular board: which cells touch which, and how many
//! mines lie around a cell.
//!
//! Cells are numbered row by row: the cell in row `r` and column `c` of a
//! board `w` cells wide has index `r * w + c`.

use vstd::prelude::*;
use vstd::arithmetic::div_mod::{
    lemma_fundamental_div_mod,
    lemma_fundamental_div_mod_converse,
    lemma_mod_bound,
};
use vstd::seq_lib::lemma_seq_concat_contains_all_elements;
use crate::tile::Tile;

verus! {

/// The cell at (`row`, `col`) as a sequence of one index, or nothing when the
/// position lies off a `w` by `h` board.
pub open spec fn cell(w: int, h: int, row: int, col: int) -> Seq<int> {
    if 0 <= row < h && 0 <= col < w {
        seq![row * w + col]
    } else {
        Seq::empty()
    }
}

/// The cells that touch cell `i` on a `w` by `h` board, by side or by corner,
/// in increasing order of index.
pub open spec fn neighbors(w: int, h: int, i: int) -> Seq<int> {
    let r = i / w;
    let c = i % w;
    cell(w, h, r - 1, c - 1) + cell(w, h, r - 1, c) + cell(w, h, r - 1, c + 1)
        + cell(w, h, r, c - 1) + cell(w, h, r, c + 1)
        + cell(w, h, r + 1, c - 1) + cell(w, h, r + 1, c) + cell(w, h, r + 1, c + 1)
}

/// `i` and `j` are two different cells of the board whose rows differ by at
/// most one and whose columns differ by at most one.
pub open spec fn adjacent(w: int, h: int, i: int, j: int) -> bool {
    &&& 0 <= i < w * h
    &&& 0 <= j < w * h
    &&& i != j
    &&& -1 <= j / w - i / w <= 1
    &&& -1 <= j % w - i % w <= 1
}

/// Whether cell `i` exists in `tiles` and has a mine under it.
pub open spec fn mine_at(tiles: Seq<Tile>, i: int) -> bool {
    0 <= i < tiles.len() && tiles[i].mined()
}

/// How many of `cells` have a mine under them in `tiles`.
pub open spec fn count_mines(tiles: Seq<Tile>, cells: Seq<int>) -> nat
    decreases cells.len(),
{
    if cells.len() == 0 {
        0
    } else {
        count_mines(tiles, cells.drop_last()) + if mine_at(tiles, cells.last()) {
            1nat
        } else {
            0nat
        }
    }
}

/// The hint of cell `i`: the number of its neighbors that have a mine,
/// whether those neighbors are hidden or revealed.
pub open spec fn hint(tiles: Seq<Tile>, w: int, h: int, i: int) -> nat {
    count_mines(tiles, neighbors(w, h, i))
}

/// The number of tiles that have a mine.
pub open spec fn mine_total(tiles: Seq<Tile>) -> nat
    decreases tiles.len(),
{
    if tiles.len() == 0 {
        0
    } else {
        mine_total(tiles.drop_last()) + if tiles.last().mined() {
            1nat
        } else {
            0nat
        }
    }
}

/// Two boards have their mines in the same places.
pub open spec fn same_mines(a: Seq<Tile>, b: Seq<Tile>) -> bool {
    &&& a.len() == b.len()
    &&& forall|k: int| 0 <= k < a.len() ==> a[k].mined() == b[k].mined()
}

/// Row and column of a cell determine its index, and the other way round.
pub proof fn lemma_row_col(w: int, h: int, row: int, col: int)
    requires
        0 <= row < h,
        0 <= col < w,
    ensures
        0 <= row * w + col < w * h,
        (row * w + col) / w == row,
        (row * w + col) % w == col,
{
    lemma_fundamental_div_mod_converse(row * w + col, w, row, col);
    assert(row * w + col < w * h) by (nonlinear_arith)
        requires
            0 <= row < h,
            0 <= col < w,
    ;
    assert(0 <= row * w) by (nonlinear_arith)
        requires
            0 <= row,
            0 <= w,
    ;
}

/// A cell of the board lies in a row and a column of the board.
pub proof fn lemma_index_row_col(w: int, h: int, i: int)
    requires
        0 <= i < w * h,
        0 < w,
    ensures
        0 <= i / w < h,
        0 <= i % w < w,
        i == (i / w) * w + i % w,
{
    lemma_fundamental_div_mod(i, w);
    lemma_mod_bound(i, w);
    let q = i / w;
    assert(q * w == w * q) by (nonlinear_arith);
    assert(0 <= q < h) by (nonlinear_arith)
        requires
            0 <= w * q + i % w < w * h,
            0 <= i % w < w,
            0 < w,
    ;
}

proof fn lemma_cell_contains(w: int, h: int, row: int, col: int, j: int)
    ensures
        cell(w, h, row, col).contains(j) <==> (0 <= row < h && 0 <= col < w && j == row * w + col),
        cell(w, h, row, col).contains(j) ==> 0 <= j < w * h && j / w == row && j % w == col,
{
    if 0 <= row < h && 0 <= col < w {
        assert(cell(w, h, row, col)[0] == row * w + col);
        lemma_row_col(w, h, row, col);
    }
}

/// A cell touches exactly the cells that differ from it by at most one row
/// and one column: no neighbor is the cell itself or lies off the board, and
/// none of the surrounding cells is left out.
pub proof fn lemma_neighbors_adjacent(w: int, h: int, i: int, j: int)
    requires
        0 < w,
        0 <= i < w * h,
    ensures
        neighbors(w, h, i).contains(j) <==> adjacent(w, h, i, j),
{
    let r = i / w;
    let c = i % w;
    lemma_index_row_col(w, h, i);
    let p0 = cell(w, h, r - 1, c - 1);
    let p1 = cell(w, h, r - 1, c);
    let p2 = cell(w, h, r - 1, c + 1);
    let p3 = cell(w, h, r, c - 1);
    let p4 = cell(w, h, r, c + 1);
    let p5 = cell(w, h, r + 1, c - 1);
    let p6 = cell(w, h, r + 1, c);
    let p7 = cell(w, h, r + 1, c + 1);
    lemma_seq_concat_contains_all_elements(p0, p1, j);
    lemma_seq_concat_contains_all_elements(p0 + p1, p2, j);
    lemma_seq_concat_contains_all_elements(p0 + p1 + p2, p3, j);
    lemma_seq_concat_contains_all_elements(p0 + p1 + p2 + p3, p4, j);
    lemma_seq_concat_contains_all_elements(p0 + p1 + p2 + p3 + p4, p5, j);
    lemma_seq_concat_contains_all_elements(p0 + p1 + p2 + p3 + p4 + p5, p6, j);
    lemma_seq_concat_contains_all_elements(p0 + p1 + p2 + p3 + p4 + p5 + p6, p7, j);
    lemma_cell_contains(w, h, r - 1, c - 1, j);
    lemma_cell_contains(w, h, r - 1, c, j);
    lemma_cell_contains(w, h, r - 1, c + 1, j);
    lemma_cell_contains(w, h, r, c - 1, j);
    lemma_cell_contains(w, h, r, c + 1, j);
    lemma_cell_contains(w, h, r + 1, c - 1, j);
    lemma_cell_contains(w, h, r + 1, c, j);
    lemma_cell_contains(w, h, r + 1, c + 1, j);
    if adjacent(w, h, i, j) {
        lemma_index_row_col(w, h, j);
    }
}

/// Every neighbor is a cell of the board, and there are at most eight.
pub proof fn lemma_neighbors_on_board(w: int, h: int, i: int)
    requires
        0 < w,
        0 <= i < w * h,
    ensures
        neighbors(w, h, i).len() <= 8,
        forall|k: int|
            0 <= k < neighbors(w, h, i).len() ==> 0 <= #[trigger] neighbors(w, h, i)[k] < w * h,
{
    let s = neighbors(w, h, i);
    assert forall|k: int| 0 <= k < s.len() implies 0 <= #[trigger] s[k] < w * h by {
        assert(s.contains(s[k]));
        lemma_neighbors_adjacent(w, h, i, s[k]);
    }
}

/// The neighbors of a cell come in increasing order, so none comes twice:
/// the hint counts each cell around at most once.
pub proof fn lemma_neighbors_increasing(w: int, h: int, i: int, a: int, b: int)
    requires
        0 < w,
        0 <= i < w * h,
        0 <= a < b < neighbors(w, h, i).len(),
    ensures
        neighbors(w, h, i)[a] < neighbors(w, h, i)[b],
{
    let r = i / w;
    let c = i % w;
    lemma_index_row_col(w, h, i);
    assert((r - 1) * w == r * w - w) by (nonlinear_arith);
    assert((r + 1) * w == r * w + w) by (nonlinear_arith);
}

/// On a board at least two cells wide and two cells high, a corner cell has
/// three neighbors, any other cell on the border has five, and a cell inside
/// has eight.
pub proof fn lemma_neighbor_count(w: int, h: int, i: int)
    requires
        2 <= w,
        2 <= h,
        0 <= i < w * h,
    ensures
        neighbors(w, h, i).len() == 3 || neighbors(w, h, i).len() == 5 || neighbors(w, h, i).len()
            == 8,
        neighbors(w, h, i).len() == 3 <==> (i / w == 0 || i / w == h - 1) && (i % w == 0 || i % w
            == w - 1),
        neighbors(w, h, i).len() == 8 <==> 0 < i / w < h - 1 && 0 < i % w < w - 1,
{
    lemma_index_row_col(w, h, i);
}

/// The hint of a cell depends on where the mines are and on nothing else:
/// revealing or flagging tiles does not change it.
pub proof fn lemma_hint_depends_on_mines_only(a: Seq<Tile>, b: Seq<Tile>, w: int, h: int, i: int)
    requires
        same_mines(a, b),
    ensures
        hint(a, w, h, i) == hint(b, w, h, i),
{
    lemma_count_mines_same(a, b, neighbors(w, h, i));
}

pub proof fn lemma_count_mines_same(a: Seq<Tile>, b: Seq<Tile>, cells: Seq<int>)
    requires
        same_mines(a, b),
    ensures
        count_mines(a, cells) == count_mines(b, cells),
    decreases cells.len(),
{
    if cells.len() > 0 {
        lemma_count_mines_same(a, b, cells.drop_last());
    }
}

/// No more mines are counted than there are cells to look at.
pub proof fn lemma_count_mines_bound(tiles: Seq<Tile>, cells: Seq<int>)
    ensures
        count_mines(tiles, cells) <= cells.len(),
    decreases cells.len(),
{
    if cells.len() > 0 {
        lemma_count_mines_bound(tiles, cells.drop_last());
    }
}

} // verus!
