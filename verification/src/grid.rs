//! Arithmetic of a grid of cells that is stored row by row.

use vstd::arithmetic::div_mod::lemma_fundamental_div_mod_converse;
use vstd::prelude::*;

verus! {

/// A cell of a grid with `width` columns and `height` rows has its place among
/// the cells of the grid, counted row by row.
pub proof fn lemma_cell_in_grid(width: int, height: int, row: int, col: int)
    requires
        0 <= row < height,
        0 <= col < width,
    ensures
        0 <= row * width + col < width * height,
        row * width + width == (row + 1) * width,
        (row + 1) * width <= width * height,
{
    assert(0 <= row * width) by (nonlinear_arith)
        requires
            0 <= row,
            0 <= width,
    ;
    assert(row * width + width == (row + 1) * width) by (nonlinear_arith);
    assert((row + 1) * width <= width * height) by (nonlinear_arith)
        requires
            row + 1 <= height,
            0 <= width,
    ;
}

/// The rows of a grid before the row `row` hold no more cells than the grid.
pub proof fn lemma_rows_in_grid(width: int, height: int, row: int)
    requires
        0 <= row <= height,
        0 <= width,
    ensures
        0 <= row * width <= width * height,
{
    assert(0 <= row * width <= width * height) by (nonlinear_arith)
        requires
            0 <= row <= height,
            0 <= width,
    ;
}

/// Where every row is `length` long, the entry `col` of the row `row` stands at
/// `row * length + col`, and row and entry are found again from that place by
/// division.
pub proof fn lemma_place_in_rows(length: int, row: int, col: int)
    requires
        0 <= row,
        0 <= col < length,
    ensures
        0 <= row * length + col,
        (row * length + col) / length == row,
        (row * length + col) % length == col,
{
    assert(0 <= row * length) by (nonlinear_arith)
        requires
            0 <= row,
            0 <= length,
    ;
    lemma_fundamental_div_mod_converse(row * length + col, length, row, col);
}

/// A place before the end of `rows` rows of `length` entries lies in one of the
/// rows.
pub proof fn lemma_row_of_place(length: int, rows: int, place: int)
    requires
        0 < length,
        0 <= place < length * rows,
    ensures
        0 <= place / length < rows,
        0 <= place % length < length,
        place == (place / length) * length + place % length,
{
    vstd::arithmetic::div_mod::lemma_fundamental_div_mod(place, length);
    vstd::arithmetic::div_mod::lemma_mod_pos_bound(place, length);
    let q = place / length;
    assert(length * q == q * length) by (nonlinear_arith);
    assert(q < rows) by (nonlinear_arith)
        requires
            q * length <= place,
            place < length * rows,
            0 < length,
    ;
    assert(0 <= q) by (nonlinear_arith)
        requires
            q * length + place % length == place,
            place % length < length,
            0 <= place,
            0 < length,
    ;
}

} // verus!
