//! Geometry of a square board whose edges wrap around.
//!
//! A board `width` cells wide holds `width * width` cells, numbered row by
//! row. Moving off one edge enters the board again at the opposite edge, in
//! the same row (left and right) or the same column (up and down).
use vstd::prelude::*;
use vstd::arithmetic::div_mod::lemma_fundamental_div_mod;
use vstd::arithmetic::div_mod::lemma_fundamental_div_mod_converse;

verus! {

/// A heading of the snake.
#[derive(PartialEq, Eq, Structural, Clone, Copy, Debug)]
pub enum Direction {
    Up,
    Down,
    Right,
    Left,
}

/// The heading that undoes a move in `d`.
pub open spec fn opposite(d: Direction) -> Direction {
    match d {
        Direction::Up => Direction::Down,
        Direction::Down => Direction::Up,
        Direction::Right => Direction::Left,
        Direction::Left => Direction::Right,
    }
}

/// Row of cell `index`.
pub open spec fn row_of(width: int, index: int) -> int {
    index / width
}

/// Column of cell `index`.
pub open spec fn col_of(width: int, index: int) -> int {
    index % width
}

/// Index of the cell in row `row` and column `col`.
pub open spec fn index_of(width: int, row: int, col: int) -> int {
    row * width + col
}

/// Row and column one move away from `(row, col)` in `d`, wrapping at the edges.
pub open spec fn moved_row_col(width: int, row: int, col: int, d: Direction) -> (int, int) {
    match d {
        Direction::Right => (row, (col + 1) % width),
        Direction::Left => (row, (col + width - 1) % width),
        Direction::Up => ((row + width - 1) % width, col),
        Direction::Down => ((row + 1) % width, col),
    }
}

/// Index of the cell one move away from cell `index` in `d`.
pub open spec fn next_index(width: int, index: int, d: Direction) -> int {
    let (row, col) = moved_row_col(width, row_of(width, index), col_of(width, index), d);
    index_of(width, row, col)
}

/// A cell index names a row and a column on the board, and back.
pub proof fn lemma_index_cell_round_trip(width: int, index: int)
    requires
        0 < width,
        0 <= index < width * width,
    ensures
        0 <= row_of(width, index) < width,
        0 <= col_of(width, index) < width,
        index_of(width, row_of(width, index), col_of(width, index)) == index,
{
    lemma_fundamental_div_mod(index, width);
    let r = index / width;
    let c = index % width;
    assert(0 <= c < width);
    assert(0 <= r < width) by (nonlinear_arith)
        requires
            index == width * r + c,
            0 <= c < width,
            0 <= index < width * width,
            0 < width,
    ;
    assert(r * width == width * r) by (nonlinear_arith);
}

/// `x % width` for `x` below `width`.
proof fn lemma_mod_below(x: int, width: int)
    requires
        0 <= x < width,
    ensures
        x % width == x,
{
    assert(0 * width == 0) by (nonlinear_arith);
    lemma_fundamental_div_mod_converse(x, width, 0, x);
}

/// `x % width` for `x` in `[width, 2 * width)`.
proof fn lemma_mod_wrapped(x: int, width: int)
    requires
        width <= x < 2 * width,
    ensures
        x % width == x - width,
{
    assert(1 * width == width) by (nonlinear_arith);
    lemma_fundamental_div_mod_converse(x, width, 1, x - width);
}

/// A row and a column on the board name a cell index, and back.
pub proof fn lemma_cell_index_round_trip(width: int, row: int, col: int)
    requires
        0 <= row < width,
        0 <= col < width,
    ensures
        0 <= index_of(width, row, col) < width * width,
        row_of(width, index_of(width, row, col)) == row,
        col_of(width, index_of(width, row, col)) == col,
{
    lemma_fundamental_div_mod_converse(row * width + col, width, row, col);
    assert(0 <= row * width + col < width * width) by (nonlinear_arith)
        requires
            0 <= row < width,
            0 <= col < width,
    ;
}

/// The move in `d` stays on the board and, written on the index itself,
/// steps by one (left, right) or by a row (up, down), or wraps round at the edge.
pub proof fn lemma_next_index_cases(width: int, index: int, d: Direction)
    requires
        0 < width,
        0 <= index < width * width,
    ensures
        0 <= next_index(width, index, d) < width * width,
        d == Direction::Right ==> next_index(width, index, d) == if col_of(width, index) + 1
            == width {
            index - col_of(width, index)
        } else {
            index + 1
        },
        d == Direction::Left ==> next_index(width, index, d) == if col_of(width, index) == 0 {
            index + width - 1
        } else {
            index - 1
        },
        d == Direction::Up ==> next_index(width, index, d) == if index < width {
            index + width * width - width
        } else {
            index - width
        },
        d == Direction::Down ==> next_index(width, index, d) == if index >= width * width
            - width {
            index - (width * width - width)
        } else {
            index + width
        },
{
    lemma_index_cell_round_trip(width, index);
    let r = row_of(width, index);
    let c = col_of(width, index);
    assert(index == r * width + c);
    assert(0 * width == 0) by (nonlinear_arith);
    match d {
        Direction::Right => {
            if c + 1 == width {
                lemma_mod_wrapped(c + 1, width);
            } else {
                lemma_mod_below(c + 1, width);
            }
            lemma_cell_index_round_trip(width, r, (c + 1) % width);
        },
        Direction::Left => {
            if c == 0 {
                lemma_mod_below(c + width - 1, width);
            } else {
                lemma_mod_wrapped(c + width - 1, width);
            }
            lemma_cell_index_round_trip(width, r, (c + width - 1) % width);
        },
        Direction::Up => {
            assert(index < width <==> r == 0) by (nonlinear_arith)
                requires
                    index == r * width + c,
                    0 <= c < width,
                    0 <= r,
            ;
            if r == 0 {
                lemma_mod_below(r + width - 1, width);
                assert((width - 1) * width == width * width - width) by (nonlinear_arith);
            } else {
                lemma_mod_wrapped(r + width - 1, width);
                assert((r - 1) * width == r * width - width) by (nonlinear_arith);
            }
            lemma_cell_index_round_trip(width, (r + width - 1) % width, c);
        },
        Direction::Down => {
            assert(index >= width * width - width <==> r == width - 1) by (nonlinear_arith)
                requires
                    index == r * width + c,
                    0 <= c < width,
                    0 <= r < width,
            ;
            if r + 1 == width {
                lemma_mod_wrapped(r + 1, width);
                assert((width - 1) * width == width * width - width) by (nonlinear_arith);
            } else {
                lemma_mod_below(r + 1, width);
                assert((r + 1) * width == r * width + width) by (nonlinear_arith);
            }
            lemma_cell_index_round_trip(width, (r + 1) % width, c);
        },
    }
}

/// A move followed by a move in the opposite direction comes back to the
/// cell it started from, at the edges too.
pub proof fn lemma_next_index_round_trip(width: int, index: int, d: Direction)
    requires
        0 < width,
        0 <= index < width * width,
    ensures
        next_index(width, next_index(width, index, d), opposite(d)) == index,
{
    lemma_index_cell_round_trip(width, index);
    let r = row_of(width, index);
    let c = col_of(width, index);
    let (r1, c1) = moved_row_col(width, r, c, d);
    match d {
        Direction::Right => {
            if c + 1 == width {
                lemma_mod_wrapped(c + 1, width);
                lemma_mod_below(width - 1, width);
            } else {
                lemma_mod_below(c + 1, width);
                lemma_mod_wrapped(c + width, width);
            }
        },
        Direction::Left => {
            if c == 0 {
                lemma_mod_below(width - 1, width);
                lemma_mod_wrapped(width, width);
            } else {
                lemma_mod_wrapped(c + width - 1, width);
                lemma_mod_below(c, width);
            }
        },
        Direction::Up => {
            if r == 0 {
                lemma_mod_below(width - 1, width);
                lemma_mod_wrapped(width, width);
            } else {
                lemma_mod_wrapped(r + width - 1, width);
                lemma_mod_below(r, width);
            }
        },
        Direction::Down => {
            if r + 1 == width {
                lemma_mod_wrapped(r + 1, width);
                lemma_mod_below(width - 1, width);
            } else {
                lemma_mod_below(r + 1, width);
                lemma_mod_wrapped(r + width, width);
            }
        },
    }
    assert(0 <= r1 < width && 0 <= c1 < width);
    lemma_cell_index_round_trip(width, r1, c1);
}

} // verus!
