//! The candidate grid and its elimination algorithm: construction from a
//! digit grid, one elimination round over a snapshot, and the fixed-round
//! driver.

use vstd::prelude::*;

use crate::candidate::{full_states, is_singleton_of, singleton_states, Sp};
use crate::peers::{
    box_peer_pos, cell_at, col_peer_pos, get_col, get_row, get_square, lemma_box_peer_positions,
    row_peer_pos,
};

verus! {

/// A 9x9 matrix of resolved digits; 0 stands for an empty cell. Immutable
/// input to the algorithm.
pub type Grid = [[u8; 9]; 9];

/// A 9x9 matrix of candidate sets, built once from a `Grid` and then rewritten
/// wholesale, one full copy per elimination round.
pub type GridSp = [[Sp; 9]; 9];

/// The mathematical shape of a candidate grid: for each row, for each column,
/// the cell's nine flags.
pub type CandidateModel = Seq<Seq<Seq<bool>>>;

/// The model is a full 9x9 grid of nine-flag cells.
pub open spec fn model_wf(m: CandidateModel) -> bool {
    &&& m.len() == 9
    &&& forall|i: int| 0 <= i < 9 ==> #[trigger] m[i].len() == 9
    &&& forall|i: int, j: int| 0 <= i < 9 && 0 <= j < 9 ==> #[trigger] m[i][j].len() == 9
}

/// The flags of the model's cell at position `p`.
pub open spec fn model_at(m: CandidateModel, p: (int, int)) -> Seq<bool> {
    m[p.0][p.1]
}

/// The flags of every cell of a candidate grid.
pub open spec fn grid_model(g: GridSp) -> CandidateModel {
    Seq::new(9, |i: int| Seq::new(9, |j: int| g@[i]@[j].states@))
}

/// The digits of a digit grid, as nested sequences.
pub open spec fn digit_model(g: Grid) -> Seq<Seq<u8>> {
    Seq::new(9, |i: int| Seq::new(9, |j: int| g@[i]@[j]))
}

/// The candidate flags one digit gives rise to: all nine for an empty cell,
/// the digit's own flag for a fixed one.
pub open spec fn built_cell(digit: u8) -> Seq<bool> {
    if digit == 0 {
        full_states()
    } else {
        singleton_states(digit as int)
    }
}

/// The candidate grid a digit grid gives rise to, cell by cell.
pub open spec fn build_model(g: Seq<Seq<u8>>) -> CandidateModel {
    Seq::new(9, |i: int| Seq::new(9, |j: int| built_cell(g[i][j])))
}

/// Among the first `n` row peers of `(i, j)`, some cell has collapsed to the
/// digit of flag index `d`.
pub open spec fn row_cleared_upto(m: CandidateModel, i: int, j: int, d: int, n: int) -> bool {
    exists|k: int| 0 <= k < n && is_singleton_of(model_at(m, row_peer_pos(i, j, k)), d)
}

/// Among the first `n` column peers of `(i, j)`, some cell has collapsed to
/// the digit of flag index `d`.
pub open spec fn col_cleared_upto(m: CandidateModel, i: int, j: int, d: int, n: int) -> bool {
    exists|k: int| 0 <= k < n && is_singleton_of(model_at(m, col_peer_pos(i, j, k)), d)
}

/// Among the first `n` box peers of `(i, j)`, some cell has collapsed to the
/// digit of flag index `d`.
pub open spec fn box_cleared_upto(m: CandidateModel, i: int, j: int, d: int, n: int) -> bool {
    exists|k: int| 0 <= k < n && is_singleton_of(model_at(m, box_peer_pos(i, j, k)), d)
}

/// Some peer of `(i, j)` — row, column, or box — has collapsed to the digit
/// of flag index `d`, so one elimination round clears that flag in the cell.
pub open spec fn peer_clears_flag(m: CandidateModel, i: int, j: int, d: int) -> bool {
    ||| row_cleared_upto(m, i, j, d, 8)
    ||| col_cleared_upto(m, i, j, d, 8)
    ||| box_cleared_upto(m, i, j, d, 8)
}

/// One elimination round over the model: a flag survives exactly when it was
/// set and no peer of its cell has collapsed to its digit. Every cell is read
/// from the incoming model only, so the cells of a round are independent of
/// one another.
pub open spec fn reduce_model(m: CandidateModel) -> CandidateModel {
    Seq::new(
        9,
        |i: int|
            Seq::new(
                9,
                |j: int| Seq::new(9, |d: int| m[i][j][d] && !peer_clears_flag(m, i, j, d)),
            ),
    )
}

/// `n` elimination rounds in sequence.
pub open spec fn iterate_reduce(m: CandidateModel, n: nat) -> CandidateModel
    decreases n,
{
    if n == 0 {
        m
    } else {
        reduce_model(iterate_reduce(m, (n - 1) as nat))
    }
}

proof fn lemma_row_cleared_step(m: CandidateModel, i: int, j: int, d: int, k: int)
    requires
        0 <= k,
    ensures
        row_cleared_upto(m, i, j, d, k + 1) <==> (row_cleared_upto(m, i, j, d, k)
            || is_singleton_of(model_at(m, row_peer_pos(i, j, k)), d)),
{
    if row_cleared_upto(m, i, j, d, k + 1) {
        let k2 = choose|k2: int|
            0 <= k2 < k + 1 && is_singleton_of(model_at(m, row_peer_pos(i, j, k2)), d);
        if k2 < k {
            assert(row_cleared_upto(m, i, j, d, k));
        }
    }
    if row_cleared_upto(m, i, j, d, k) {
        let k2 = choose|k2: int|
            0 <= k2 < k && is_singleton_of(model_at(m, row_peer_pos(i, j, k2)), d);
        assert(row_cleared_upto(m, i, j, d, k + 1));
    }
    if is_singleton_of(model_at(m, row_peer_pos(i, j, k)), d) {
        assert(row_cleared_upto(m, i, j, d, k + 1));
    }
}

proof fn lemma_col_cleared_step(m: CandidateModel, i: int, j: int, d: int, k: int)
    requires
        0 <= k,
    ensures
        col_cleared_upto(m, i, j, d, k + 1) <==> (col_cleared_upto(m, i, j, d, k)
            || is_singleton_of(model_at(m, col_peer_pos(i, j, k)), d)),
{
    if col_cleared_upto(m, i, j, d, k + 1) {
        let k2 = choose|k2: int|
            0 <= k2 < k + 1 && is_singleton_of(model_at(m, col_peer_pos(i, j, k2)), d);
        if k2 < k {
            assert(col_cleared_upto(m, i, j, d, k));
        }
    }
    if col_cleared_upto(m, i, j, d, k) {
        let k2 = choose|k2: int|
            0 <= k2 < k && is_singleton_of(model_at(m, col_peer_pos(i, j, k2)), d);
        assert(col_cleared_upto(m, i, j, d, k + 1));
    }
    if is_singleton_of(model_at(m, col_peer_pos(i, j, k)), d) {
        assert(col_cleared_upto(m, i, j, d, k + 1));
    }
}

proof fn lemma_box_cleared_step(m: CandidateModel, i: int, j: int, d: int, k: int)
    requires
        0 <= k,
    ensures
        box_cleared_upto(m, i, j, d, k + 1) <==> (box_cleared_upto(m, i, j, d, k)
            || is_singleton_of(model_at(m, box_peer_pos(i, j, k)), d)),
{
    if box_cleared_upto(m, i, j, d, k + 1) {
        let k2 = choose|k2: int|
            0 <= k2 < k + 1 && is_singleton_of(model_at(m, box_peer_pos(i, j, k2)), d);
        if k2 < k {
            assert(box_cleared_upto(m, i, j, d, k));
        }
    }
    if box_cleared_upto(m, i, j, d, k) {
        let k2 = choose|k2: int|
            0 <= k2 < k && is_singleton_of(model_at(m, box_peer_pos(i, j, k2)), d);
        assert(box_cleared_upto(m, i, j, d, k + 1));
    }
    if is_singleton_of(model_at(m, box_peer_pos(i, j, k)), d) {
        assert(box_cleared_upto(m, i, j, d, k + 1));
    }
}

/// Builds the candidate grid of a digit grid: a full set for every empty
/// cell, a singleton for every fixed one.
#[verifier::loop_isolation(false)]
pub fn build_sp(grid: &Grid) -> (out: GridSp)
    requires
        forall|i: int, j: int| 0 <= i < 9 && 0 <= j < 9 ==> grid@[i]@[j] <= 9,
    ensures
        grid_model(out) == build_model(digit_model(*grid)),
{
    let blank = Sp::full();
    let mut out: GridSp = [[blank; 9]; 9];
    for i in 0..9usize
        invariant
            forall|i2: int, j2: int|
                0 <= i2 < i && 0 <= j2 < 9 ==> out@[i2]@[j2].states@ == built_cell(
                    grid@[i2]@[j2],
                ),
    {
        let mut row: [Sp; 9] = [blank; 9];
        for j in 0..9usize
            invariant
                forall|j2: int| 0 <= j2 < j ==> row@[j2].states@ == built_cell(grid@[i as int]@[j2]),
                forall|i2: int, j2: int|
                    0 <= i2 < i && 0 <= j2 < 9 ==> out@[i2]@[j2].states@ == built_cell(
                        grid@[i2]@[j2],
                    ),
        {
            let d = grid[i][j];
            let cell = if d == 0 {
                Sp::full()
            } else {
                Sp::singleton(d)
            };
            row[j] = cell;
        }
        out[i] = row;
    }
    proof {
        assert(grid_model(out) =~~= build_model(digit_model(*grid)));
    }
    out
}

/// One elimination round. Every cell of the result holds the flags of the
/// matching cell of `sp`, minus the flag of each digit that some peer of the
/// cell — in `sp` — has collapsed to. Peers are read from the incoming grid
/// only, never from the grid under construction, so the cells of a round
/// never observe one another's clearing.
#[verifier::loop_isolation(false)]
pub fn reduce_sp(sp: &GridSp) -> (out: GridSp)
    ensures
        grid_model(out) == reduce_model(grid_model(*sp)),
{
    let ghost m = grid_model(*sp);
    let mut out: GridSp = *sp;
    for i in 0..9usize
        invariant
            forall|i2: int, j2: int|
                0 <= i2 < i && 0 <= j2 < 9 ==> out@[i2]@[j2].states@ == reduce_model(m)[i2][j2],
    {
        let mut row_out: [Sp; 9] = sp[i];
        for j in 0..9usize
            invariant
                forall|j2: int|
                    0 <= j2 < j ==> row_out@[j2].states@ == reduce_model(m)[i as int][j2],
        {
            let mut cell: Sp = sp[i][j];
            let rowp = get_row(sp, i, j);
            for k in 0..8usize
                invariant
                    forall|d: int|
                        0 <= d < 9 ==> cell.states@[d] == (m[i as int][j as int][d]
                            && !row_cleared_upto(m, i as int, j as int, d, k as int)),
            {
                let ghost pos = row_peer_pos(i as int, j as int, k as int);
                proof {
                    assert(rowp@[k as int] == cell_at(*sp, pos));
                    assert(model_at(m, pos) == rowp@[k as int].states@);
                }
                match rowp[k].try_collapse() {
                    Some(x) => cell.clear(x),
                    None => (),
                }
                proof {
                    assert forall|d: int|
                        0 <= d < 9 implies cell.states@[d] == (m[i as int][j as int][d]
                        && !row_cleared_upto(m, i as int, j as int, d, k + 1)) by {
                        lemma_row_cleared_step(m, i as int, j as int, d, k as int);
                    }
                }
            }
            let colp = get_col(sp, i, j);
            for k in 0..8usize
                invariant
                    forall|d: int|
                        0 <= d < 9 ==> cell.states@[d] == (m[i as int][j as int][d]
                            && !row_cleared_upto(m, i as int, j as int, d, 8)
                            && !col_cleared_upto(m, i as int, j as int, d, k as int)),
            {
                let ghost pos = col_peer_pos(i as int, j as int, k as int);
                proof {
                    assert(colp@[k as int] == cell_at(*sp, pos));
                    assert(model_at(m, pos) == colp@[k as int].states@);
                }
                match colp[k].try_collapse() {
                    Some(x) => cell.clear(x),
                    None => (),
                }
                proof {
                    assert forall|d: int|
                        0 <= d < 9 implies cell.states@[d] == (m[i as int][j as int][d]
                        && !row_cleared_upto(m, i as int, j as int, d, 8)
                        && !col_cleared_upto(m, i as int, j as int, d, k + 1)) by {
                        lemma_col_cleared_step(m, i as int, j as int, d, k as int);
                    }
                }
            }
            let sqp = get_square(sp, i, j);
            for k in 0..8usize
                invariant
                    forall|d: int|
                        0 <= d < 9 ==> cell.states@[d] == (m[i as int][j as int][d]
                            && !row_cleared_upto(m, i as int, j as int, d, 8)
                            && !col_cleared_upto(m, i as int, j as int, d, 8)
                            && !box_cleared_upto(m, i as int, j as int, d, k as int)),
            {
                let ghost pos = box_peer_pos(i as int, j as int, k as int);
                proof {
                    lemma_box_peer_positions(i as int, j as int);
                    assert(sqp@[k as int] == cell_at(*sp, pos));
                    assert(model_at(m, pos) == sqp@[k as int].states@);
                }
                match sqp[k].try_collapse() {
                    Some(x) => cell.clear(x),
                    None => (),
                }
                proof {
                    assert forall|d: int|
                        0 <= d < 9 implies cell.states@[d] == (m[i as int][j as int][d]
                        && !row_cleared_upto(m, i as int, j as int, d, 8)
                        && !col_cleared_upto(m, i as int, j as int, d, 8)
                        && !box_cleared_upto(m, i as int, j as int, d, k + 1)) by {
                        lemma_box_cleared_step(m, i as int, j as int, d, k as int);
                    }
                }
            }
            proof {
                assert(cell.states@ =~= reduce_model(m)[i as int][j as int]);
            }
            row_out[j] = cell;
        }
        out[i] = row_out;
    }
    proof {
        assert(grid_model(out) =~~= reduce_model(m));
    }
    out
}

/// The iteration driver: builds the candidate grid of the puzzle and runs
/// the elimination pass exactly 10 times in sequence, each round reading the
/// previous round's output. No early stop when the grid stabilizes, and no
/// extra rounds when it has not; the caller interprets the final state. The
/// puzzle itself is left untouched.
pub fn solve(initial_grid: &mut Grid) -> (out: GridSp)
    requires
        forall|i: int, j: int| 0 <= i < 9 && 0 <= j < 9 ==> old(initial_grid)@[i]@[j] <= 9,
    ensures
        *final(initial_grid) == *old(initial_grid),
        grid_model(out) == iterate_reduce(build_model(digit_model(*old(initial_grid))), 10),
{
    let sp = build_sp(initial_grid);
    let mut new_sp = sp;
    for r in 0..10usize
        invariant
            *initial_grid == *old(initial_grid),
            grid_model(new_sp) == iterate_reduce(
                build_model(digit_model(*initial_grid)),
                r as nat,
            ),
    {
        new_sp = reduce_sp(&new_sp);
    }
    new_sp
}

/// Elimination only ever clears flags: over any number of rounds, every flag
/// still set at the end was set at the start, so each cell's candidate set
/// only shrinks — in particular it stays a subset of the full nine-digit set.
pub proof fn lemma_rounds_only_clear(m: CandidateModel, n: nat)
    ensures
        forall|i: int, j: int, d: int|
            0 <= i < 9 && 0 <= j < 9 && 0 <= d < 9 && #[trigger] iterate_reduce(
                m,
                n,
            )[i][j][d] ==> m[i][j][d],
    decreases n,
{
    if n > 0 {
        lemma_rounds_only_clear(m, (n - 1) as nat);
        let prev = iterate_reduce(m, (n - 1) as nat);
        assert forall|i: int, j: int, d: int|
            0 <= i < 9 && 0 <= j < 9 && 0 <= d < 9 && #[trigger] iterate_reduce(
                m,
                n,
            )[i][j][d] implies m[i][j][d] by {
            assert(iterate_reduce(m, n) == reduce_model(prev));
            assert(prev[i][j][d]);
        }
    }
}

/// A cell that has collapsed is a fixed point of the elimination pass, as
/// long as no peer of the cell has collapsed to the same digit — as holds on
/// every puzzle whose fixed digits do not already contradict one another.
pub proof fn lemma_singleton_cell_fixed(m: CandidateModel, i: int, j: int, d: int)
    requires
        model_wf(m),
        0 <= i < 9,
        0 <= j < 9,
        is_singleton_of(m[i][j], d),
        !peer_clears_flag(m, i, j, d),
    ensures
        reduce_model(m)[i][j] == m[i][j],
{
    assert(reduce_model(m)[i][j] =~= m[i][j]);
}

} // verus!
