//! One generation of the automaton, and toggling a single cell.
//!
//! Both operations are pure: they read the current grid and return a new
//! one, so every next state is computed from the current generation alone.
use vstd::prelude::*;
use vstd::arithmetic::div_mod::lemma_add_mod_noop_right;

use crate::cell::{next_state, next_state_spec, Cell};
use crate::grid::{
    cell_at, in_bounds, is_grid, lemma_index_div, lemma_index_split, lemma_side_fits, with_cell,
    wrap, wrap_coord, Grid, GridError,
};

verus! {

/// The number of live cells among the eight cells around `(x, y)`, each read
/// with wrap-around. On a grid of side one all eight are the cell itself.
pub open spec fn neighbor_count_spec(m: Seq<Seq<Cell>>, x: int, y: int) -> int {
    cell_at(m, x - 1, y - 1).weight()
        + cell_at(m, x - 1, y).weight()
        + cell_at(m, x - 1, y + 1).weight()
        + cell_at(m, x, y - 1).weight()
        + cell_at(m, x, y + 1).weight()
        + cell_at(m, x + 1, y - 1).weight()
        + cell_at(m, x + 1, y).weight()
        + cell_at(m, x + 1, y + 1).weight()
}

/// The next generation of `m`: every cell follows the rule applied to its
/// own state and its neighbour count in `m`.
pub open spec fn advance_spec(m: Seq<Seq<Cell>>) -> Seq<Seq<Cell>> {
    Seq::new(
        m.len(),
        |x: int|
            Seq::new(m.len(), |y: int| next_state_spec(m[x][y], neighbor_count_spec(m, x, y))),
    )
}

/// `m` with the cell at `(x, y)` flipped.
pub open spec fn toggle_spec(m: Seq<Seq<Cell>>, x: int, y: int) -> Seq<Seq<Cell>> {
    with_cell(m, x, y, m[x][y].flipped())
}

fn weight(c: Cell) -> (r: u8)
    ensures
        r as int == c.weight(),
{
    match c {
        Cell::Alive => 1,
        Cell::Dead => 0,
    }
}

/// Shifting a coordinate before or after wrapping reads the same cell.
proof fn lemma_wrap_shift(i: int, d: int, n: int)
    requires
        n >= 1,
    ensures
        wrap(wrap(i, n) + d, n) == wrap(i + d, n),
{
    lemma_add_mod_noop_right(d, i, n);
}

/// The number of live cells among the eight wrapped neighbours of `(x, y)`.
pub fn neighbor_count(grid: &Grid, x: i64, y: i64) -> (r: u8)
    ensures
        r as int == neighbor_count_spec(grid@, x as int, y as int),
        r <= 8,
{
    let n = grid.size();
    proof {
        lemma_side_fits(n as int);
    }
    let xw = wrap_coord(x, n) as i64;
    let yw = wrap_coord(y, n) as i64;
    proof {
        let ni = n as int;
        lemma_wrap_shift(x as int, -1, ni);
        lemma_wrap_shift(x as int, 0, ni);
        lemma_wrap_shift(x as int, 1, ni);
        lemma_wrap_shift(y as int, -1, ni);
        lemma_wrap_shift(y as int, 0, ni);
        lemma_wrap_shift(y as int, 1, ni);
    }
    weight(grid.get(xw - 1, yw - 1))
        + weight(grid.get(xw - 1, yw))
        + weight(grid.get(xw - 1, yw + 1))
        + weight(grid.get(xw, yw - 1))
        + weight(grid.get(xw, yw + 1))
        + weight(grid.get(xw + 1, yw - 1))
        + weight(grid.get(xw + 1, yw))
        + weight(grid.get(xw + 1, yw + 1))
}

/// The next generation of `grid`, as a new grid of the same side; `grid`
/// itself is left as it was.
pub fn advance(grid: &Grid) -> (r: Grid)
    ensures
        r@ == advance_spec(grid@),
        is_grid(r@),
{
    let n = grid.size();
    let total: usize = n * n;
    let mut cells: Vec<Cell> = Vec::new();
    let mut k: usize = 0;
    while k < total
        invariant
            n == grid@.len(),
            is_grid(grid@),
            total == n * n,
            k <= total,
            cells.len() == k,
            forall|i: int|
                0 <= i < k ==> #[trigger] cells@[i] == next_state_spec(
                    grid@[i / n as int][i % n as int],
                    neighbor_count_spec(grid@, i / n as int, i % n as int),
                ),
        decreases total - k,
    {
        proof {
            lemma_index_split(k as int, n as int);
            lemma_side_fits(n as int);
        }
        let x = k / n;
        let y = k % n;
        let c = grid.get(x as i64, y as i64);
        let count = neighbor_count(grid, x as i64, y as i64);
        cells.push(next_state(c, count));
        k = k + 1;
    }
    let r = Grid::from_cells(n, cells);
    proof {
        let m = grid@;
        assert forall|x: int, y: int| 0 <= x < n && 0 <= y < n implies r@[x][y] == advance_spec(
            m,
        )[x][y] by {
            lemma_index_div(x, y, n as int);
        }
        assert(r@ =~~= advance_spec(m));
    }
    r
}

/// `grid` with the cell at `(x, y)` flipped between alive and dead.
/// Coordinates are not wrapped: outside `[0, size)` the request is refused.
pub fn toggle(grid: &Grid, x: i64, y: i64) -> (r: Result<Grid, GridError>)
    ensures
        in_bounds(grid@, x as int, y as int) ==> (r matches Ok(g) && g@
            == toggle_spec(grid@, x as int, y as int)),
        !in_bounds(grid@, x as int, y as int) ==> r == Err::<Grid, GridError>(
            GridError::CoordinateOutOfBounds,
        ),
{
    let c = grid.get(x, y);
    grid.set(x, y, c.flip())
}

} // verus!
