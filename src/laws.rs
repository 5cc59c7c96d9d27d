//! Properties that relate the operations of the library to each other,
//! stated over the views that their contracts use.
use vstd::prelude::*;
use vstd::arithmetic::div_mod::{lemma_add_mod_noop_right, lemma_mod_self_0, lemma_small_mod};

use crate::cell::Cell;
use crate::engine::{advance_spec, neighbor_count_spec, toggle_spec};
use crate::grid::{cell_at, dead_grid, in_bounds, is_grid, wrap, Grid};

verus! {

/// Every cell of a freshly made grid is dead.
pub proof fn lemma_new_grid_is_dead(n: nat, x: int, y: int)
    requires
        n >= 1,
        0 <= x < n,
        0 <= y < n,
    ensures
        cell_at(dead_grid(n), x, y) == Cell::Dead,
{
    lemma_small_mod(x as nat, n);
    lemma_small_mod(y as nat, n);
}

/// Reading one step before the first row or column reads the last one.
pub proof fn lemma_wrap_around(m: Seq<Seq<Cell>>, x: int, y: int)
    requires
        is_grid(m),
    ensures
        cell_at(m, x, -1) == cell_at(m, x, m.len() - 1),
        cell_at(m, -1, y) == cell_at(m, m.len() - 1, y),
{
    let n = m.len() as int;
    assert(wrap(-1, n) == n - 1) by (nonlinear_arith)
        requires
            n >= 1,
    ;
    lemma_small_mod((n - 1) as nat, n as nat);
}

/// Toggling the same cell twice gives the grid back.
pub proof fn lemma_toggle_twice(m: Seq<Seq<Cell>>, x: int, y: int)
    requires
        is_grid(m),
        in_bounds(m, x, y),
    ensures
        is_grid(toggle_spec(m, x, y)),
        in_bounds(toggle_spec(m, x, y), x, y),
        toggle_spec(toggle_spec(m, x, y), x, y) == m,
{
    let t = toggle_spec(m, x, y);
    assert forall|i: int| 0 <= i < t.len() implies (#[trigger] t[i]).len() == t.len() by {}
    assert(toggle_spec(t, x, y) =~~= m);
}

/// Two grids computed as the next generation of equal grids are equal.
pub proof fn lemma_advance_deterministic(g: Grid, h: Grid, r1: Grid, r2: Grid)
    requires
        g@ == h@,
        r1@ == advance_spec(g@),
        r2@ == advance_spec(h@),
    ensures
        r1@ == r2@,
{
}

/// A live cell with fewer than two or more than three live neighbours is
/// dead in the next generation.
pub proof fn lemma_lonely_or_crowded_cell_dies(m: Seq<Seq<Cell>>, x: int, y: int)
    requires
        is_grid(m),
        in_bounds(m, x, y),
        m[x][y] == Cell::Alive,
        neighbor_count_spec(m, x, y) < 2 || neighbor_count_spec(m, x, y) > 3,
    ensures
        advance_spec(m)[x][y] == Cell::Dead,
{
}

/// A dead cell with exactly three live neighbours is alive in the next
/// generation.
pub proof fn lemma_birth(m: Seq<Seq<Cell>>, x: int, y: int)
    requires
        is_grid(m),
        in_bounds(m, x, y),
        m[x][y] == Cell::Dead,
        neighbor_count_spec(m, x, y) == 3,
    ensures
        advance_spec(m)[x][y] == Cell::Alive,
{
}

/// On a grid of side one every neighbour is the single cell itself: the
/// count is eight times its weight, so it is 0 or 8, and the cell is dead
/// in the next generation whatever its state.
pub proof fn lemma_single_cell_grid(m: Seq<Seq<Cell>>, x: int, y: int)
    requires
        is_grid(m),
        m.len() == 1,
    ensures
        neighbor_count_spec(m, x, y) == 8 * m[0][0].weight(),
        neighbor_count_spec(m, x, y) == 0 || neighbor_count_spec(m, x, y) == 8,
        advance_spec(m)[0][0] == Cell::Dead,
{
    assert forall|i: int| #[trigger] wrap(i, 1) == 0 by {
        assert(i % 1 == 0) by (nonlinear_arith);
    }
}

/// The coordinates one past the last row and one before the first lie
/// outside the grid, so `toggle` refuses them.
pub proof fn lemma_edges_out_of_bounds(m: Seq<Seq<Cell>>)
    requires
        is_grid(m),
    ensures
        !in_bounds(m, m.len() as int, 0),
        !in_bounds(m, -1, 0),
{
}

/// The grid of side `n` whose only live cells form the 2x2 block with its
/// corner at `(x0, y0)`, the block itself wrapping across the edges.
pub open spec fn block_grid(n: nat, x0: int, y0: int) -> Seq<Seq<Cell>> {
    Seq::new(
        n,
        |x: int|
            Seq::new(
                n,
                |y: int|
                    if near(x - x0, n as int) == 1 && near(y - y0, n as int) == 1 {
                        Cell::Alive
                    } else {
                        Cell::Dead
                    },
            ),
    )
}

/// One when `t` lies, modulo `n`, in the first two places of the block.
pub open spec fn near(t: int, n: int) -> int {
    if t % n < 2 {
        1
    } else {
        0
    }
}

/// Along one axis, a coordinate inside the block sees two block places
/// among itself and its two neighbours; one outside sees at most one.
proof fn lemma_block_axis(a: int, n: int)
    requires
        n >= 4,
    ensures
        (a % n == 0 || a % n == 1) ==> near(a, n) == 1 && near(a - 1, n) + near(a, n) + near(
            a + 1,
            n,
        ) == 2,
        !(a % n == 0 || a % n == 1) ==> near(a, n) == 0 && near(a - 1, n) + near(a, n) + near(
            a + 1,
            n,
        ) <= 1,
{
    let u = a % n;
    lemma_add_mod_noop_right(-1, a, n);
    lemma_add_mod_noop_right(1, a, n);
    assert(0 <= u < n);
    if u == 0 {
        assert((-1) % n == n - 1) by (nonlinear_arith)
            requires
                n >= 1,
        ;
        lemma_small_mod(1, n as nat);
    } else if u == n - 1 {
        lemma_small_mod((n - 2) as nat, n as nat);
        lemma_mod_self_0(n);
    } else {
        lemma_small_mod((u - 1) as nat, n as nat);
        lemma_small_mod((u + 1) as nat, n as nat);
    }
}

/// A wrapping read of the block grid finds a live cell exactly where both
/// coordinates fall in the block.
proof fn lemma_block_cell(n: nat, x0: int, y0: int, p: int, q: int)
    requires
        n >= 4,
    ensures
        (cell_at(block_grid(n, x0, y0), p, q) == Cell::Alive) == (near(p - x0, n as int) == 1
            && near(q - y0, n as int) == 1),
{
    let ni = n as int;
    lemma_add_mod_noop_right(-x0, p, ni);
    lemma_add_mod_noop_right(-y0, q, ni);
    assert(p % ni - x0 == -x0 + p % ni);
    assert(q % ni - y0 == -y0 + q % ni);
}

/// Each cell of the block grid keeps its state for one generation.
#[verifier::rlimit(30)]
proof fn lemma_block_cell_is_still(n: nat, x0: int, y0: int, x: int, y: int)
    requires
        n >= 4,
        0 <= x < n,
        0 <= y < n,
    ensures
        advance_spec(block_grid(n, x0, y0))[x][y] == block_grid(n, x0, y0)[x][y],
{
    let b = block_grid(n, x0, y0);
    let ni = n as int;
    let a = x - x0;
    let c = y - y0;
    lemma_block_axis(a, ni);
    lemma_block_axis(c, ni);
    lemma_block_cell(n, x0, y0, x - 1, y - 1);
    lemma_block_cell(n, x0, y0, x - 1, y);
    lemma_block_cell(n, x0, y0, x - 1, y + 1);
    lemma_block_cell(n, x0, y0, x, y - 1);
    lemma_block_cell(n, x0, y0, x, y + 1);
    lemma_block_cell(n, x0, y0, x + 1, y - 1);
    lemma_block_cell(n, x0, y0, x + 1, y);
    lemma_block_cell(n, x0, y0, x + 1, y + 1);
    assert(x - 1 - x0 == a - 1);
    assert(x + 1 - x0 == a + 1);
    assert(y - 1 - y0 == c - 1);
    assert(y + 1 - y0 == c + 1);
    let count = neighbor_count_spec(b, x, y);
    if near(a, ni) == 1 && near(c, ni) == 1 {
        assert(count == 3);
    } else {
        assert(count != 3);
    }
}

/// On a grid of side four or more a 2x2 block of live cells, wherever it
/// stands, is left unchanged by a generation.
pub proof fn lemma_block_is_still_life(n: nat, x0: int, y0: int)
    requires
        n >= 4,
    ensures
        is_grid(block_grid(n, x0, y0)),
        advance_spec(block_grid(n, x0, y0)) == block_grid(n, x0, y0),
{
    let b = block_grid(n, x0, y0);
    let r = advance_spec(b);
    assert forall|x: int| 0 <= x < n implies #[trigger] r[x] == b[x] by {
        assert forall|y: int| 0 <= y < n implies r[x][y] == b[x][y] by {
            lemma_block_cell_is_still(n, x0, y0, x, y);
        }
        assert(r[x] =~= b[x]);
    }
    assert(r =~= b);
}

} // verus!
