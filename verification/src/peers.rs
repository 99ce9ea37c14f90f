//! Neighbor extraction: the 8 cells that share a row, column, or 3x3 box
//! constraint group with a target cell, over any 9x9 matrix of copyable
//! elements.

use vstd::prelude::*;

verus! {

/// A position lies inside the 9x9 matrix.
pub open spec fn in_grid(p: (int, int)) -> bool {
    &&& 0 <= p.0 < 9
    &&& 0 <= p.1 < 9
}

/// Position of the `k`-th row peer of `(row, col)`: the cells of the row in
/// increasing column order, skipping column `col`.
pub open spec fn row_peer_pos(row: int, col: int, k: int) -> (int, int) {
    (row, if k < col {
        k
    } else {
        k + 1
    })
}

/// Position of the `k`-th column peer of `(row, col)`: the cells of the
/// column in increasing row order, skipping row `row`.
pub open spec fn col_peer_pos(row: int, col: int, k: int) -> (int, int) {
    ((if k < row {
        k
    } else {
        k + 1
    }), col)
}

/// Position of the `k`-th box peer of `(row, col)`: the cells of the 3x3 box
/// with origin `(row - row % 3, col - col % 3)` in row-major order, skipping
/// the target cell itself.
pub open spec fn box_peer_pos(row: int, col: int, k: int) -> (int, int) {
    let t = 3 * (row % 3) + col % 3;
    let q = if k < t {
        k
    } else {
        k + 1
    };
    (row - row % 3 + q / 3, col - col % 3 + q % 3)
}

/// The element of a 9x9 matrix at position `p`.
pub open spec fn cell_at<T>(g: [[T; 9]; 9], p: (int, int)) -> T {
    g@[p.0]@[p.1]
}

/// The 8 cells of the target's row, in increasing column order, the target
/// column excluded.
#[verifier::loop_isolation(false)]
pub fn get_row<T: Copy + Default>(arr: &[[T; 9]; 9], row: usize, col: usize) -> (out: [T; 8])
    requires
        row < 9,
        col < 9,
    ensures
        forall|k: int| 0 <= k < 8 ==> out@[k] == cell_at(*arr, row_peer_pos(row as int, col as int, k)),
{
    let mut output: [T; 8] = [T::default(); 8];
    let mut ctr: usize = 0;
    for i in 0..9usize
        invariant
            ctr == if i <= col {
                i as int
            } else {
                i - 1
            },
            forall|k: int|
                0 <= k < ctr ==> output@[k] == cell_at(
                    *arr,
                    row_peer_pos(row as int, col as int, k),
                ),
    {
        if col != i {
            output[ctr] = arr[row][i];
            ctr += 1;
        }
    }
    output
}

/// The 8 cells of the target's column, in increasing row order, the target
/// row excluded.
#[verifier::loop_isolation(false)]
pub fn get_col<T: Copy + Default>(arr: &[[T; 9]; 9], row: usize, col: usize) -> (out: [T; 8])
    requires
        row < 9,
        col < 9,
    ensures
        forall|k: int| 0 <= k < 8 ==> out@[k] == cell_at(*arr, col_peer_pos(row as int, col as int, k)),
{
    let mut output: [T; 8] = [T::default(); 8];
    let mut ctr: usize = 0;
    for i in 0..9usize
        invariant
            ctr == if i <= row {
                i as int
            } else {
                i - 1
            },
            forall|k: int|
                0 <= k < ctr ==> output@[k] == cell_at(
                    *arr,
                    col_peer_pos(row as int, col as int, k),
                ),
    {
        if row != i {
            output[ctr] = arr[i][col];
            ctr += 1;
        }
    }
    output
}

/// The 8 cells of the target's 3x3 box in row-major order, the target cell
/// excluded. The exclusion compares matched offsets within the box — the
/// row offset of the visited cell against the row offset of the target, and
/// likewise for columns — so exactly the target cell is skipped, whatever
/// its position within the box.
#[verifier::loop_isolation(false)]
pub fn get_square<T: Copy + Default>(arr: &[[T; 9]; 9], row: usize, col: usize) -> (out: [T; 8])
    requires
        row < 9,
        col < 9,
    ensures
        forall|k: int| 0 <= k < 8 ==> out@[k] == cell_at(*arr, box_peer_pos(row as int, col as int, k)),
{
    let start_row = row - row % 3;
    let start_col = col - col % 3;
    let mut output: [T; 8] = [T::default(); 8];
    let mut ctr: usize = 0;
    for i in 0..3usize
        invariant
            ctr == (if 3 * i <= 3 * (row % 3) + col % 3 {
                3 * i
            } else {
                3 * i - 1
            }),
            forall|k: int|
                0 <= k < ctr ==> output@[k] == cell_at(
                    *arr,
                    box_peer_pos(row as int, col as int, k),
                ),
    {
        for j in 0..3usize
            invariant
                ctr == (if 3 * i + j <= 3 * (row % 3) + col % 3 {
                    3 * i + j
                } else {
                    3 * i + j - 1
                }),
                forall|k: int|
                    0 <= k < ctr ==> output@[k] == cell_at(
                        *arr,
                        box_peer_pos(row as int, col as int, k),
                    ),
        {
            if start_row + i != row || start_col + j != col {
                output[ctr] = arr[start_row + i][start_col + j];
                ctr += 1;
            }
        }
    }
    output
}

/// Row-peer extraction draws on 8 pairwise distinct positions of the matrix,
/// all in the target's row, never the target cell itself.
pub proof fn lemma_row_peer_positions(row: int, col: int)
    requires
        0 <= row < 9,
        0 <= col < 9,
    ensures
        forall|k: int|
            0 <= k < 8 ==> #[trigger] in_grid(row_peer_pos(row, col, k)) && row_peer_pos(
                row,
                col,
                k,
            ).0 == row && row_peer_pos(row, col, k) != (row, col),
        forall|k1: int, k2: int|
            0 <= k1 < k2 < 8 ==> row_peer_pos(row, col, k1) != row_peer_pos(row, col, k2),
{
}

/// Column-peer extraction draws on 8 pairwise distinct positions of the
/// matrix, all in the target's column, never the target cell itself.
pub proof fn lemma_col_peer_positions(row: int, col: int)
    requires
        0 <= row < 9,
        0 <= col < 9,
    ensures
        forall|k: int|
            0 <= k < 8 ==> #[trigger] in_grid(col_peer_pos(row, col, k)) && col_peer_pos(
                row,
                col,
                k,
            ).1 == col && col_peer_pos(row, col, k) != (row, col),
        forall|k1: int, k2: int|
            0 <= k1 < k2 < 8 ==> col_peer_pos(row, col, k1) != col_peer_pos(row, col, k2),
{
}

/// Box-peer extraction draws on 8 pairwise distinct positions of the matrix,
/// all in the target's 3x3 box, never the target cell itself.
pub proof fn lemma_box_peer_positions(row: int, col: int)
    requires
        0 <= row < 9,
        0 <= col < 9,
    ensures
        forall|k: int|
            0 <= k < 8 ==> #[trigger] in_grid(box_peer_pos(row, col, k)) && box_peer_pos(
                row,
                col,
                k,
            ).0 - box_peer_pos(row, col, k).0 % 3 == row - row % 3 && box_peer_pos(row, col, k).1
                - box_peer_pos(row, col, k).1 % 3 == col - col % 3 && box_peer_pos(row, col, k) != (
            row,
            col,
            ),
        forall|k1: int, k2: int|
            0 <= k1 < k2 < 8 ==> box_peer_pos(row, col, k1) != box_peer_pos(row, col, k2),
{
}

} // verus!
