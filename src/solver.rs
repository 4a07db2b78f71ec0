//! The propagation rounds and the final check, on a board held in a `Vec<u8>`.

use vstd::prelude::*;

use vstd::arithmetic::div_mod::lemma_fundamental_div_mod_converse;
use vstd::slice::slice_to_vec;

use crate::board::{
    clue_holds, count_value, is_fixed, iterate, lemma_iterate_stays_fixed,
    lemma_neighbors_in_bounds, lemma_no_clue_fixed, lemma_refines_changed, lemma_refines_count,
    lemma_refines_trans, lemma_round_refines, lemma_step_refines, lemma_unknown_count_bound, mark,
    neighbors, neighbors_of, neighbors_upto, refines, round, settle, solution, solved, step_cell,
    sweep_upto, unknown_count, MINE, SAFE, UNKNOWN,
};

verus! {

/// The flat index `y * w + x` of a cell on the board names that cell back.
proof fn lemma_flat_index(w: int, h: int, x: int, y: int)
    requires
        0 <= x < w,
        0 <= y < h,
    ensures
        0 <= y * w + x < w * h,
        (y * w + x) % w == x,
        (y * w + x) / w == y,
        neighbors_of(w, h, y * w + x) == neighbors(w, h, x, y),
{
    lemma_fundamental_div_mod_converse(y * w + x, w, y, x);
    assert(0 <= y * w + x < w * h) by (nonlinear_arith)
        requires
            0 <= x < w,
            0 <= y < h,
    ;
}

/// The flat indices of the neighbours of `(x, y)`, in row-major order.
fn neighbor_indices(x: usize, y: usize, width: usize, height: usize) -> (r: Vec<usize>)
    requires
        x < width,
        y < height,
        width * height <= usize::MAX,
    ensures
        r@.len() == neighbors(width as int, height as int, x as int, y as int).len(),
        forall|j: int|
            0 <= j < r@.len() ==> r@[j] as int == #[trigger] neighbors(
                width as int,
                height as int,
                x as int,
                y as int,
            )[j],
        forall|j: int| 0 <= j < r@.len() ==> r@[j] < width * height,
{
    let ghost (w, h) = (width as int, height as int);
    let mut r: Vec<usize> = Vec::new();
    let mut k: usize = 0;
    while k < 9
        invariant
            x < width,
            y < height,
            k <= 9,
            width * height <= usize::MAX,
            w == width as int,
            h == height as int,
            r@.len() == neighbors_upto(w, h, x as int, y as int, k as nat).len(),
            forall|j: int|
                0 <= j < r@.len() ==> r@[j] as int == #[trigger] neighbors_upto(
                    w,
                    h,
                    x as int,
                    y as int,
                    k as nat,
                )[j],
        decreases 9 - k,
    {
        let dx: usize = k % 3;
        let dy: usize = k / 3;
        let col_ok = (dx == 0 && x > 0) || dx == 1 || (dx == 2 && x + 1 < width);
        let row_ok = (dy == 0 && y > 0) || dy == 1 || (dy == 2 && y + 1 < height);
        proof {
            lemma_neighbors_in_bounds(w, h, x as int, y as int, (k + 1) as nat);
        }
        if k != 4 && col_ok && row_ok {
            let nx: usize = x + dx - 1;
            let ny: usize = y + dy - 1;
            assert(ny * width + nx < width * height) by (nonlinear_arith)
                requires
                    nx < width,
                    ny < height,
            ;
            r.push(ny * width + nx);
        }
        assert(neighbors_upto(w, h, x as int, y as int, (k + 1) as nat) == neighbors_upto(
            w,
            h,
            x as int,
            y as int,
            k as nat,
        ) + crate::board::probe(w, h, x as int, y as int, k as int));
        k = k + 1;
    }
    proof {
        lemma_neighbors_in_bounds(w, h, x as int, y as int, 9);
        assert forall|j: int| 0 <= j < r@.len() implies r@[j] < width * height by {
            assert(r@[j] as int == neighbors(w, h, x as int, y as int)[j]);
        }
    }
    r
}

/// A list of flat indices, as integers.
pub open spec fn as_ints(s: Seq<usize>) -> Seq<int> {
    s.map_values(|j: usize| j as int)
}

/// How many of the cells listed in `cells` hold `v`.
fn count_cells(grid: &Vec<u8>, cells: &Vec<usize>, v: u8) -> (n: usize)
    requires
        forall|j: int| 0 <= j < cells@.len() ==> cells@[j] < grid@.len(),
    ensures
        n == count_value(grid@, as_ints(cells@), v),
{
    let ghost nb = as_ints(cells@);
    let mut n: usize = 0;
    let mut i: usize = 0;
    while i < cells.len()
        invariant
            nb == as_ints(cells@),
            i <= cells@.len(),
            forall|j: int| 0 <= j < cells@.len() ==> cells@[j] < grid@.len(),
            n == count_value(grid@, nb.take(i as int), v),
            n <= i,
        decreases cells@.len() - i,
    {
        assert(nb.take(i + 1).drop_last() =~= nb.take(i as int));
        if grid[cells[i]] == v {
            n = n + 1;
        }
        i = i + 1;
    }
    assert(nb.take(i as int) =~= nb);
    n
}

/// Sets every hidden cell listed in `cells` to `v`; says whether any was.
fn mark_cells(grid: &mut Vec<u8>, cells: &Vec<usize>, v: u8) -> (changed: bool)
    requires
        v != UNKNOWN,
        forall|j: int| 0 <= j < cells@.len() ==> cells@[j] < old(grid)@.len(),
    ensures
        final(grid)@ == mark(old(grid)@, as_ints(cells@), v),
        changed == (final(grid)@ != old(grid)@),
{
    let ghost g = grid@;
    let ghost nb = as_ints(cells@);
    let mut changed = false;
    let mut i: usize = 0;
    assert(grid@ =~= mark(g, nb.take(0), v));
    while i < cells.len()
        invariant
            v != UNKNOWN,
            nb == as_ints(cells@),
            i <= cells@.len(),
            g.len() == grid@.len(),
            forall|j: int| 0 <= j < cells@.len() ==> cells@[j] < g.len(),
            grid@ == mark(g, nb.take(i as int), v),
            changed == (grid@ != g),
        decreases cells@.len() - i,
    {
        let a = cells[i];
        let ghost before = grid@;
        assert(nb.take(i + 1) =~= nb.take(i as int).push(a as int));
        if grid[a] == UNKNOWN {
            grid.set(a, v);
            changed = true;
            assert(grid@[a as int] != g[a as int]);
        }
        assert(grid@ =~= mark(g, nb.take(i + 1), v)) by {
            assert forall|j: int| 0 <= j < g.len() implies grid@[j] == mark(
                g,
                nb.take(i + 1),
                v,
            )[j] by {
                if j == a as int {
                    assert(nb.take(i + 1)[i as int] == j);
                } else {
                    if nb.take(i + 1).contains(j) {
                        let t = choose|t: int| 0 <= t < i + 1 && #[trigger] nb.take(i + 1)[t] == j;
                        assert(nb.take(i as int)[t] == j);
                    }
                    if nb.take(i as int).contains(j) {
                        let t = choose|t: int| 0 <= t < i && #[trigger] nb.take(i as int)[t] == j;
                        assert(nb.take(i + 1)[t] == j);
                    }
                }
            }
        }
        i = i + 1;
    }
    assert(nb.take(i as int) =~= nb);
    changed
}

/// Applies the deduction of the cell `(x, y)` to the board.
fn apply_clue(grid: &mut Vec<u8>, x: usize, y: usize, width: usize, height: usize) -> (changed:
    bool)
    requires
        old(grid)@.len() == width * height,
        width * height <= usize::MAX,
        x < width,
        y < height,
    ensures
        final(grid)@ == step_cell(old(grid)@, width as int, height as int, y * width + x),
        changed == (final(grid)@ != old(grid)@),
{
    proof {
        lemma_flat_index(width as int, height as int, x as int, y as int);
    }
    let ghost g = grid@;
    let ghost nb = neighbors(width as int, height as int, x as int, y as int);
    let idx = y * width + x;
    let cell = grid[idx];
    if cell >= UNKNOWN {
        return false;
    }
    let adjacent = neighbor_indices(x, y, width, height);
    assert(as_ints(adjacent@) =~= nb);
    let mine_count = count_cells(grid, &adjacent, MINE);
    let hidden_count = count_cells(grid, &adjacent, UNKNOWN);
    if mine_count == cell as usize {
        mark_cells(grid, &adjacent, SAFE)
    } else if hidden_count > 0 && cell as usize >= mine_count && cell as usize - mine_count
        == hidden_count {
        mark_cells(grid, &adjacent, MINE)
    } else {
        false
    }
}

/// One propagation round: the deduction of every cell, row by row; says whether
/// the board changed.
fn sweep(grid: &mut Vec<u8>, width: usize, height: usize) -> (changed: bool)
    requires
        old(grid)@.len() == width * height,
        width * height <= usize::MAX,
    ensures
        final(grid)@ == round(old(grid)@, width as int, height as int),
        changed == (final(grid)@ != old(grid)@),
{
    let ghost (w, h) = (width as int, height as int);
    let ghost g = grid@;
    let mut changed = false;
    let mut y: usize = 0;
    while y < height
        invariant
            w == width as int,
            h == height as int,
            y <= height,
            g.len() == w * h,
            grid@.len() == w * h,
            w * h <= usize::MAX,
            grid@ == sweep_upto(g, w, h, (y * w) as nat),
            refines(g, grid@),
            changed == (grid@ != g),
        decreases height - y,
    {
        let mut x: usize = 0;
        while x < width
            invariant
                w == width as int,
                h == height as int,
                x <= width,
                y < height,
                g.len() == w * h,
                grid@.len() == w * h,
                w * h <= usize::MAX,
                grid@ == sweep_upto(g, w, h, (y * w + x) as nat),
                refines(g, grid@),
                changed == (grid@ != g),
            decreases width - x,
        {
            let ghost before = grid@;
            let c = apply_clue(grid, x, y, width, height);
            proof {
                lemma_step_refines(before, w, h, y * w + x);
                lemma_refines_trans(g, before, grid@);
                lemma_refines_changed(g, before, grid@);
                assert(grid@ == sweep_upto(g, w, h, (y * w + x + 1) as nat));
            }
            changed = changed || c;
            x = x + 1;
        }
        assert(y * w + w == (y + 1) * w) by (nonlinear_arith);
        y = y + 1;
    }
    assert(y * w == w * h) by (nonlinear_arith)
        requires
            y == h,
    ;
    changed
}

/// Runs propagation rounds on the board until one changes nothing, and returns
/// how many rounds were run, that last one included. On a non-empty board that
/// is at most the number of cells.
pub fn propagate(grid: &mut Vec<u8>, width: usize, height: usize) -> (rounds: usize)
    requires
        old(grid)@.len() == width * height,
    ensures
        final(grid)@.len() == old(grid)@.len(),
        1 <= rounds,
        final(grid)@ == iterate(old(grid)@, width as int, height as int, (rounds - 1) as nat),
        is_fixed(final(grid)@, width as int, height as int),
        forall|k: nat|
            k < rounds - 1 ==> !is_fixed(
                #[trigger] iterate(old(grid)@, width as int, height as int, k),
                width as int,
                height as int,
            ),
        width * height > 0 ==> rounds <= width * height,
        final(grid)@ == settle(old(grid)@, width as int, height as int),
{
    let ghost (w, h) = (width as int, height as int);
    let ghost g = grid@;
    proof {
        lemma_unknown_count_bound(g);
    }
    let len = grid.len();
    assert(len == w * h);
    let mut rounds: usize = 0;
    loop
        invariant
            w == width as int,
            h == height as int,
            g == old(grid)@,
            g.len() == w * h,
            grid@.len() == w * h,
            w * h <= usize::MAX,
            grid@ == iterate(g, w, h, rounds as nat),
            forall|k: nat| k < rounds ==> !is_fixed(#[trigger] iterate(g, w, h, k), w, h),
            rounds + unknown_count(grid@) <= unknown_count(g),
            unknown_count(g) <= g.len(),
            rounds > 0 ==> unknown_count(g) < g.len(),
        decreases unknown_count(grid@),
    {
        let ghost before = grid@;
        let changed = sweep(grid, width, height);
        proof {
            lemma_round_refines(before, w, h);
            lemma_refines_count(before, grid@);
        }
        if !changed {
            proof {
                assert(grid@ == before);
                assert(is_fixed(iterate(g, w, h, rounds as nat), w, h));
                assert(rounds <= g.len());
                lemma_iterate_stays_fixed(g, w, h, rounds as nat, g.len());
                assert(((rounds + 1) - 1) as nat == rounds as nat);
            }
            return rounds + 1;
        }
        proof {
            if rounds == 0 {
                assert(!is_fixed(g, w, h));
                if forall|j: int| 0 <= j < g.len() ==> g[j] >= UNKNOWN {
                    lemma_no_clue_fixed(g, w, h);
                }
                assert(exists|j: int| 0 <= j < g.len() && !(g[j] >= UNKNOWN));
                let j = choose|j: int| 0 <= j < g.len() && !(g[j] >= UNKNOWN);
                assert(g[j] != UNKNOWN);
                lemma_unknown_count_bound(g);
            }
        }
        rounds = rounds + 1;
    }
}

/// Whether no cell is hidden and every clue counts exactly the mines around it.
fn check_solved(grid: &Vec<u8>, width: usize, height: usize) -> (ok: bool)
    requires
        grid@.len() == width * height,
        width * height <= usize::MAX,
    ensures
        ok == solved(grid@, width as int, height as int),
{
    let ghost (w, h) = (width as int, height as int);
    let ghost g = grid@;
    let mut y: usize = 0;
    while y < height
        invariant
            w == width as int,
            h == height as int,
            g == grid@,
            y <= height,
            g.len() == w * h,
            w * h <= usize::MAX,
            forall|i: int|
                0 <= i < y * w ==> #[trigger] g[i] != UNKNOWN && clue_holds(g, w, h, i),
        decreases height - y,
    {
        let mut x: usize = 0;
        while x < width
            invariant
                w == width as int,
                h == height as int,
                g == grid@,
                x <= width,
                y < height,
                g.len() == w * h,
                w * h <= usize::MAX,
                forall|i: int|
                    0 <= i < y * w + x ==> #[trigger] g[i] != UNKNOWN && clue_holds(g, w, h, i),
            decreases width - x,
        {
            proof {
                lemma_flat_index(w, h, x as int, y as int);
            }
            let ghost i = y * w + x;
            let idx = y * width + x;
            let cell = grid[idx];
            if cell == UNKNOWN {
                assert(!(g[i] != UNKNOWN && clue_holds(g, w, h, i)));
                return false;
            }
            if cell < UNKNOWN {
                let adjacent = neighbor_indices(x, y, width, height);
                assert(as_ints(adjacent@) =~= neighbors(w, h, x as int, y as int));
                let mine_count = count_cells(grid, &adjacent, MINE);
                if mine_count != cell as usize {
                    assert(!(g[i] != UNKNOWN && clue_holds(g, w, h, i)));
                    return false;
                }
            }
            assert(g[i] != UNKNOWN && clue_holds(g, w, h, i));
            x = x + 1;
        }
        assert(y * w + w == (y + 1) * w) by (nonlinear_arith);
        y = y + 1;
    }
    assert(y * w == w * h) by (nonlinear_arith)
        requires
            y == h,
    ;
    true
}

/// Solves the board `grid` of `width` columns and `height` rows: propagates
/// deductions until a round changes nothing, and returns the resulting board
/// if every cell is resolved and every clue holds. Returns `None` when the
/// length of `grid` is not `width * height`, when a cell stays hidden, or when
/// a clue is contradicted.
pub fn try_to_solve(grid: &[u8], width: usize, height: usize) -> (r: Option<Vec<u8>>)
    ensures
        match r {
            Some(s) => solution(grid@, width as int, height as int) == Some(s@),
            None => solution(grid@, width as int, height as int) is None,
        },
        grid@.len() != width * height ==> r is None,
        r is Some ==> r->0@.len() == grid@.len() && solved(
            r->0@,
            width as int,
            height as int,
        ),
{
    let n = grid.len();
    match width.checked_mul(height) {
        Some(p) => {
            if p != n {
                return None;
            }
        },
        None => {
            return None;
        },
    }
    let mut solution = slice_to_vec(grid);
    propagate(&mut solution, width, height);
    if check_solved(&solution, width, height) {
        Some(solution)
    } else {
        None
    }
}

} // verus!
