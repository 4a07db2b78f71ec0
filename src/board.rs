//! The mathematical model of a board and of the propagation rounds.

use vstd::prelude::*;

verus! {

/// Value of a hidden cell.
pub const UNKNOWN: u8 = 9;

/// Value of a cell that holds a mine.
pub const MINE: u8 = 10;

/// Value given to a cell once it is known to be safe.
pub const SAFE: u8 = 0;

/// The cell at offset `k` of the 3x3 block centred on `(x, y)`, offsets taken
/// row-major (`k` in `0..9`, `k == 4` being the centre): the flat index of that
/// cell, or nothing when it is the centre itself or lies off the board.
pub open spec fn probe(w: int, h: int, x: int, y: int, k: int) -> Seq<int> {
    let nx = x + k % 3 - 1;
    let ny = y + k / 3 - 1;
    if k != 4 && 0 <= nx < w && 0 <= ny < h {
        seq![ny * w + nx]
    } else {
        Seq::empty()
    }
}

/// The neighbours found at the first `k` offsets of the block around `(x, y)`.
pub open spec fn neighbors_upto(w: int, h: int, x: int, y: int, k: nat) -> Seq<int>
    decreases k,
{
    if k == 0 {
        Seq::empty()
    } else {
        neighbors_upto(w, h, x, y, (k - 1) as nat) + probe(w, h, x, y, k - 1)
    }
}

/// The Moore neighbourhood of `(x, y)`, clipped at the edges, in row-major order.
pub open spec fn neighbors(w: int, h: int, x: int, y: int) -> Seq<int> {
    neighbors_upto(w, h, x, y, 9)
}

/// The neighbourhood of the cell whose flat index is `i`.
pub open spec fn neighbors_of(w: int, h: int, i: int) -> Seq<int> {
    neighbors(w, h, i % w, i / w)
}

/// How many of the cells listed in `nb` hold `v`.
pub open spec fn count_value(g: Seq<u8>, nb: Seq<int>, v: u8) -> nat
    decreases nb.len(),
{
    if nb.len() == 0 {
        0
    } else {
        count_value(g, nb.drop_last(), v) + (if g[nb.last()] == v { 1nat } else { 0nat })
    }
}

/// `g` with every hidden cell listed in `nb` set to `v`.
pub open spec fn mark(g: Seq<u8>, nb: Seq<int>, v: u8) -> Seq<u8> {
    Seq::new(g.len(), |j: int| if nb.contains(j) && g[j] == UNKNOWN { v } else { g[j] })
}

/// The deduction made from the cell with flat index `i`: a clue whose mines are
/// all found clears its hidden neighbours, and a clue that needs every hidden
/// neighbour to be a mine marks them all.
pub open spec fn step_cell(g: Seq<u8>, w: int, h: int, i: int) -> Seq<u8> {
    let c = g[i];
    let nb = neighbors_of(w, h, i);
    let mines = count_value(g, nb, MINE);
    let hidden = count_value(g, nb, UNKNOWN);
    if c >= UNKNOWN {
        g
    } else if mines == c {
        mark(g, nb, SAFE)
    } else if hidden > 0 && c >= mines && c - mines == hidden {
        mark(g, nb, MINE)
    } else {
        g
    }
}

/// The board after the deductions of the first `k` cells of a round, row-major.
pub open spec fn sweep_upto(g: Seq<u8>, w: int, h: int, k: nat) -> Seq<u8>
    decreases k,
{
    if k == 0 {
        g
    } else {
        step_cell(sweep_upto(g, w, h, (k - 1) as nat), w, h, k - 1)
    }
}

/// One full propagation round over every cell of the board.
pub open spec fn round(g: Seq<u8>, w: int, h: int) -> Seq<u8> {
    sweep_upto(g, w, h, g.len())
}

/// The board after `n` rounds.
pub open spec fn iterate(g: Seq<u8>, w: int, h: int, n: nat) -> Seq<u8>
    decreases n,
{
    if n == 0 {
        g
    } else {
        round(iterate(g, w, h, (n - 1) as nat), w, h)
    }
}

/// A round leaves the board as it is.
pub open spec fn is_fixed(g: Seq<u8>, w: int, h: int) -> bool {
    round(g, w, h) == g
}

/// The board once rounds have been repeated until one changes nothing. Each
/// round that changes something resolves a hidden cell, so `g.len()` rounds
/// always reach that point (see `lemma_iterate_stays_fixed` and `propagate`).
pub open spec fn settle(g: Seq<u8>, w: int, h: int) -> Seq<u8> {
    iterate(g, w, h, g.len())
}

/// The number of hidden cells.
pub open spec fn unknown_count(g: Seq<u8>) -> nat
    decreases g.len(),
{
    if g.len() == 0 {
        0
    } else {
        unknown_count(g.drop_last()) + (if g.last() == UNKNOWN { 1nat } else { 0nat })
    }
}

/// The clue at `i`, if it is one, counts exactly the mines around it.
pub open spec fn clue_holds(g: Seq<u8>, w: int, h: int, i: int) -> bool {
    g[i] < UNKNOWN ==> count_value(g, neighbors_of(w, h, i), MINE) == g[i]
}

/// No cell is hidden and every clue counts exactly the mines around it.
pub open spec fn solved(g: Seq<u8>, w: int, h: int) -> bool {
    forall|i: int| 0 <= i < g.len() ==> #[trigger] g[i] != UNKNOWN && clue_holds(g, w, h, i)
}

/// What solving `g` gives: nothing when its length is not `w * h`, else the
/// settled board if it is solved, else nothing.
pub open spec fn solution(g: Seq<u8>, w: int, h: int) -> Option<Seq<u8>> {
    if g.len() != w * h {
        None
    } else if solved(settle(g, w, h), w, h) {
        Some(settle(g, w, h))
    } else {
        None
    }
}

/// `b` is `a` with some hidden cells resolved, and nothing else changed.
pub open spec fn refines(a: Seq<u8>, b: Seq<u8>) -> bool {
    &&& a.len() == b.len()
    &&& forall|j: int|
        0 <= j < a.len() ==> #[trigger] b[j] == a[j] || (a[j] == UNKNOWN && b[j] != UNKNOWN)
}

/// Every neighbour of a cell on the board is on the board, and a cell has at
/// most one neighbour per offset.
pub proof fn lemma_neighbors_in_bounds(w: int, h: int, x: int, y: int, k: nat)
    requires
        0 <= x < w,
        0 <= y < h,
        k <= 9,
    ensures
        neighbors_upto(w, h, x, y, k).len() <= k,
        forall|j: int|
            0 <= j < neighbors_upto(w, h, x, y, k).len() ==> 0 <= #[trigger] neighbors_upto(
                w,
                h,
                x,
                y,
                k,
            )[j] < w * h,
    decreases k,
{
    if k > 0 {
        lemma_neighbors_in_bounds(w, h, x, y, (k - 1) as nat);
        let kk = k - 1;
        let nx = x + kk % 3 - 1;
        let ny = y + kk / 3 - 1;
        if kk != 4 && 0 <= nx < w && 0 <= ny < h {
            assert(0 <= ny * w + nx < w * h) by (nonlinear_arith)
                requires
                    0 <= nx < w,
                    0 <= ny < h,
            ;
        }
    }
}

/// Refinement is transitive.
pub proof fn lemma_refines_trans(a: Seq<u8>, b: Seq<u8>, c: Seq<u8>)
    requires
        refines(a, b),
        refines(b, c),
    ensures
        refines(a, c),
{
    assert forall|j: int| 0 <= j < a.len() implies #[trigger] c[j] == a[j] || (a[j] == UNKNOWN
        && c[j] != UNKNOWN) by {
        assert(b[j] == a[j] || (a[j] == UNKNOWN && b[j] != UNKNOWN));
        assert(c[j] == b[j] || (b[j] == UNKNOWN && c[j] != UNKNOWN));
    }
}

/// The deduction at one cell only resolves hidden cells.
pub proof fn lemma_step_refines(g: Seq<u8>, w: int, h: int, i: int)
    ensures
        refines(g, step_cell(g, w, h, i)),
{
}

/// Part of a round only resolves hidden cells.
pub proof fn lemma_sweep_refines(g: Seq<u8>, w: int, h: int, k: nat)
    ensures
        refines(g, sweep_upto(g, w, h, k)),
    decreases k,
{
    if k > 0 {
        let prev = sweep_upto(g, w, h, (k - 1) as nat);
        lemma_sweep_refines(g, w, h, (k - 1) as nat);
        lemma_step_refines(prev, w, h, k - 1);
        lemma_refines_trans(g, prev, sweep_upto(g, w, h, k));
    }
}

/// A round only resolves hidden cells.
pub proof fn lemma_round_refines(g: Seq<u8>, w: int, h: int)
    ensures
        refines(g, round(g, w, h)),
{
    lemma_sweep_refines(g, w, h, g.len());
}

/// Resolving hidden cells lowers their number, strictly when anything changed.
pub proof fn lemma_refines_count(a: Seq<u8>, b: Seq<u8>)
    requires
        refines(a, b),
    ensures
        unknown_count(b) <= unknown_count(a),
        a != b ==> unknown_count(b) < unknown_count(a),
    decreases a.len(),
{
    if a.len() > 0 {
        let a0 = a.drop_last();
        let b0 = b.drop_last();
        assert forall|j: int| 0 <= j < a0.len() implies #[trigger] b0[j] == a0[j] || (a0[j]
            == UNKNOWN && b0[j] != UNKNOWN) by {
            assert(b[j] == a[j] || (a[j] == UNKNOWN && b[j] != UNKNOWN));
        }
        lemma_refines_count(a0, b0);
        assert(b[a.len() - 1] == a[a.len() - 1] || (a[a.len() - 1] == UNKNOWN && b[a.len() - 1]
            != UNKNOWN));
        if a0 == b0 && a.last() == b.last() {
            assert(a =~= b) by {
                assert forall|j: int| 0 <= j < a.len() implies a[j] == b[j] by {
                    if j < a0.len() {
                        assert(a0[j] == b0[j]);
                    }
                }
            }
        }
    } else {
        assert(a =~= b);
    }
}

/// There are at most as many hidden cells as cells, and fewer when some cell is
/// not hidden.
pub proof fn lemma_unknown_count_bound(g: Seq<u8>)
    ensures
        unknown_count(g) <= g.len(),
        (exists|j: int| 0 <= j < g.len() && g[j] != UNKNOWN) ==> unknown_count(g) < g.len(),
    decreases g.len(),
{
    if g.len() > 0 {
        let g0 = g.drop_last();
        lemma_unknown_count_bound(g0);
        if exists|j: int| 0 <= j < g.len() && g[j] != UNKNOWN {
            let j = choose|j: int| 0 <= j < g.len() && g[j] != UNKNOWN;
            if j < g0.len() {
                assert(g0[j] != UNKNOWN);
            }
        }
    }
}

/// Along two refinement steps, the board ends different from where it started
/// exactly when one of the steps changed it.
pub proof fn lemma_refines_changed(a: Seq<u8>, b: Seq<u8>, c: Seq<u8>)
    requires
        refines(a, b),
        refines(b, c),
    ensures
        (c != a) == (b != a || c != b),
{
    if b != a {
        assert(!(b =~= a));
        let j = choose|j: int| 0 <= j < a.len() && b[j] != a[j];
        assert(c[j] == b[j] || (b[j] == UNKNOWN && c[j] != UNKNOWN));
        assert(c[j] != a[j]);
    } else if c != b {
        assert(c != a);
    }
}

/// A board without clues is never changed by a round.
pub proof fn lemma_no_clue_fixed(g: Seq<u8>, w: int, h: int)
    requires
        forall|j: int| 0 <= j < g.len() ==> g[j] >= UNKNOWN,
    ensures
        is_fixed(g, w, h),
{
    lemma_no_clue_sweep(g, w, h, g.len());
}

proof fn lemma_no_clue_sweep(g: Seq<u8>, w: int, h: int, k: nat)
    requires
        forall|j: int| 0 <= j < g.len() ==> g[j] >= UNKNOWN,
        k <= g.len(),
    ensures
        sweep_upto(g, w, h, k) == g,
    decreases k,
{
    if k > 0 {
        lemma_no_clue_sweep(g, w, h, (k - 1) as nat);
    }
}

/// Once a round changes nothing, further rounds change nothing either.
pub proof fn lemma_iterate_stays_fixed(g: Seq<u8>, w: int, h: int, k: nat, m: nat)
    requires
        is_fixed(iterate(g, w, h, k), w, h),
        k <= m,
    ensures
        iterate(g, w, h, m) == iterate(g, w, h, k),
    decreases m - k,
{
    if k < m {
        lemma_iterate_stays_fixed(g, w, h, k, (m - 1) as nat);
    }
}

/// A board with no hidden cell is never changed by a round.
pub proof fn lemma_no_hidden_fixed(g: Seq<u8>, w: int, h: int)
    requires
        forall|j: int| 0 <= j < g.len() ==> g[j] != UNKNOWN,
    ensures
        is_fixed(g, w, h),
{
    lemma_no_hidden_sweep(g, w, h, g.len());
}

proof fn lemma_no_hidden_sweep(g: Seq<u8>, w: int, h: int, k: nat)
    requires
        forall|j: int| 0 <= j < g.len() ==> g[j] != UNKNOWN,
    ensures
        sweep_upto(g, w, h, k) == g,
    decreases k,
{
    if k > 0 {
        lemma_no_hidden_sweep(g, w, h, (k - 1) as nat);
        let nb = neighbors_of(w, h, k - 1);
        assert(mark(g, nb, SAFE) =~= g);
        assert(mark(g, nb, MINE) =~= g);
    }
}

/// Solving a board that is already solved gives that same board back.
pub proof fn lemma_solved_board_unchanged(g: Seq<u8>, w: int, h: int)
    requires
        g.len() == w * h,
        solved(g, w, h),
    ensures
        solution(g, w, h) == Some(g),
{
    assert forall|j: int| 0 <= j < g.len() implies g[j] != UNKNOWN by {
        assert(g[j] != UNKNOWN && clue_holds(g, w, h, j));
    }
    lemma_no_hidden_fixed(g, w, h);
    lemma_iterate_stays_fixed(g, w, h, 0, g.len());
}

/// Solving depends on the board and its dimensions alone: equal inputs give
/// equal outcomes, the same board or the same absence.
pub proof fn lemma_solution_deterministic(g1: Seq<u8>, g2: Seq<u8>, w: int, h: int)
    requires
        g1 == g2,
    ensures
        solution(g1, w, h) == solution(g2, w, h),
{
}

} // verus!
