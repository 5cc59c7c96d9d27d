//! The square toroidal grid of cells.
//!
//! Cells are stored in one flat vector in row-major order: the cell at
//! `(x, y)` sits at index `x * size + y`. The mathematical view of a grid is a
//! square `Seq<Seq<Cell>>` indexed first by `x`, then by `y`.
use vstd::prelude::*;
use vstd::arithmetic::div_mod::{lemma_fundamental_div_mod, lemma_remainder, lemma_small_mod};

use crate::cell::Cell;

verus! {

/// Why a grid operation was refused.
#[derive(Clone, Copy, Debug, PartialEq, Eq, Structural)]
pub enum GridError {
    /// A grid of side length zero was asked for.
    InvalidSize,
    /// A coordinate lies outside `[0, size)`.
    CoordinateOutOfBounds,
}

/// A well-formed grid view: square, with at least one cell.
pub open spec fn is_grid(m: Seq<Seq<Cell>>) -> bool {
    &&& m.len() >= 1
    &&& forall|x: int| 0 <= x < m.len() ==> (#[trigger] m[x]).len() == m.len()
}

/// A coordinate reduced onto `[0, n)`; `%` on `int` is Euclidean, so
/// negative coordinates wrap to the far edge.
pub open spec fn wrap(i: int, n: int) -> int {
    i % n
}

/// The cell that a wrapping read at `(x, y)` finds.
pub open spec fn cell_at(m: Seq<Seq<Cell>>, x: int, y: int) -> Cell {
    m[wrap(x, m.len() as int)][wrap(y, m.len() as int)]
}

/// Whether `(x, y)` addresses a cell directly, without wrapping.
pub open spec fn in_bounds(m: Seq<Seq<Cell>>, x: int, y: int) -> bool {
    0 <= x < m.len() && 0 <= y < m.len()
}

/// The grid of side `n` whose cells are all dead.
pub open spec fn dead_grid(n: nat) -> Seq<Seq<Cell>> {
    Seq::new(n, |x: int| Seq::new(n, |y: int| Cell::Dead))
}

/// The grid `m` with the cell at `(x, y)` replaced by `c`.
pub open spec fn with_cell(m: Seq<Seq<Cell>>, x: int, y: int, c: Cell) -> Seq<Seq<Cell>> {
    m.update(x, m[x].update(y, c))
}

/// A square grid of cells whose edges wrap around on both axes.
#[derive(Debug)]
pub struct Grid {
    size: usize,
    cells: Vec<Cell>,
}

impl View for Grid {
    type V = Seq<Seq<Cell>>;

    closed spec fn view(&self) -> Seq<Seq<Cell>> {
        Seq::new(
            self.size as nat,
            |x: int| Seq::new(self.size as nat, |y: int| self.cells@[x * self.size + y]),
        )
    }
}

proof fn lemma_index_bounds(x: int, y: int, n: int)
    requires
        0 <= x < n,
        0 <= y < n,
    ensures
        0 <= x * n + y < n * n,
{
    assert(0 <= x * n + y < n * n) by (nonlinear_arith)
        requires
            0 <= x < n,
            0 <= y < n,
    ;
}

proof fn lemma_index_injective(a: int, b: int, x: int, y: int, n: int)
    requires
        0 <= a < n,
        0 <= b < n,
        0 <= x < n,
        0 <= y < n,
        a * n + b == x * n + y,
    ensures
        a == x,
        b == y,
{
    assert(a == x) by (nonlinear_arith)
        requires
            0 <= a < n,
            0 <= b < n,
            0 <= x < n,
            0 <= y < n,
            a * n + b == x * n + y,
    ;
}

/// The flat index of `(x, y)` gives `x` and `y` back by division.
pub(crate) proof fn lemma_index_div(x: int, y: int, n: int)
    requires
        0 <= x < n,
        0 <= y < n,
    ensures
        0 <= x * n + y < n * n,
        (x * n + y) / n == x,
        (x * n + y) % n == y,
{
    let k = x * n + y;
    lemma_index_bounds(x, y, n);
    lemma_index_split(k, n);
    lemma_index_injective(k / n, k % n, x, y, n);
}

pub(crate) proof fn lemma_index_split(k: int, n: int)
    requires
        n >= 1,
        0 <= k < n * n,
    ensures
        0 <= k / n < n,
        0 <= k % n < n,
        (k / n) * n + k % n == k,
{
    lemma_fundamental_div_mod(k, n);
    lemma_remainder(k, n);
    assert((k / n) * n == n * (k / n)) by (nonlinear_arith);
    assert(k / n >= 0) by (nonlinear_arith)
        requires
            n >= 1,
            k >= 0,
            k == n * (k / n) + k % n,
            0 <= k % n < n,
    ;
    assert(k / n < n) by (nonlinear_arith)
        requires
            n >= 1,
            k < n * n,
            k == n * (k / n) + k % n,
            0 <= k % n < n,
    ;
}

/// A side whose square fits in `usize` is far below `i64::MAX`.
pub(crate) proof fn lemma_side_fits(n: int)
    requires
        1 <= n,
        n * n <= usize::MAX,
    ensures
        n < 0x1_0000_0000,
{
    assert(n < 0x1_0000_0000) by (nonlinear_arith)
        requires
            1 <= n,
            n * n <= 0xffff_ffff_ffff_ffff,
    ;
}

/// Reduces `i` onto `[0, n)`.
pub(crate) fn wrap_coord(i: i64, n: usize) -> (r: usize)
    requires
        1 <= n < 0x1_0000_0000,
    ensures
        r as int == wrap(i as int, n as int),
        r < n,
{
    match i.checked_rem_euclid(n as i64) {
        Some(v) => v as usize,
        // Not reached: the divisor is positive.
        None => 0,
    }
}

impl Grid {
    #[verifier::type_invariant]
    closed spec fn inv(self) -> bool {
        &&& self.size >= 1
        &&& self.cells.len() == self.size * self.size
    }

    proof fn lemma_view_is_grid(&self)
        requires
            self.inv(),
        ensures
            is_grid(self@),
            self@.len() == self.size,
            self.size < 0x1_0000_0000,
            self.size * self.size <= usize::MAX,
    {
        lemma_side_fits(self.size as int);
    }

    /// A grid of side `size` with every cell dead; side zero is refused.
    /// The cell count `size * size` must fit in `usize`.
    pub fn new(size: usize) -> (r: Result<Grid, GridError>)
        requires
            size * size <= usize::MAX,
        ensures
            size == 0 <==> r is Err,
            r matches Err(e) ==> e == GridError::InvalidSize,
            r matches Ok(g) ==> g@ == dead_grid(size as nat) && is_grid(g@),
    {
        if size == 0 {
            return Err(GridError::InvalidSize);
        }
        let total: usize = size * size;
        let mut cells: Vec<Cell> = Vec::new();
        let mut k: usize = 0;
        while k < total
            invariant
                k <= total,
                cells.len() == k,
                forall|i: int| 0 <= i < k ==> cells@[i] == Cell::Dead,
            decreases total - k,
        {
            cells.push(Cell::Dead);
            k = k + 1;
        }
        let g = Grid { size, cells };
        proof {
            g.lemma_view_is_grid();
            let n = size as int;
            assert forall|x: int, y: int| 0 <= x < n && 0 <= y < n implies g@[x][y] == Cell::Dead by {
                lemma_index_bounds(x, y, n);
            }
            assert(g@ =~~= dead_grid(size as nat));
        }
        Ok(g)
    }

    /// The side length of the grid.
    pub fn size(&self) -> (r: usize)
        ensures
            r == self@.len(),
            r * r <= usize::MAX,
            is_grid(self@),
    {
        proof {
            use_type_invariant(self);
            self.lemma_view_is_grid();
        }
        self.size
    }

    /// The cell at `(x, y)`, each coordinate reduced modulo the side length,
    /// so that reads past an edge land on the opposite edge.
    pub fn get(&self, x: i64, y: i64) -> (r: Cell)
        ensures
            r == cell_at(self@, x as int, y as int),
            in_bounds(self@, x as int, y as int) ==> r == self@[x as int][y as int],
            is_grid(self@),
    {
        proof {
            use_type_invariant(self);
            self.lemma_view_is_grid();
            if in_bounds(self@, x as int, y as int) {
                lemma_small_mod(x as nat, self.size as nat);
                lemma_small_mod(y as nat, self.size as nat);
            }
        }
        let n = self.size;
        let xw = wrap_coord(x, n);
        let yw = wrap_coord(y, n);
        proof {
            lemma_index_bounds(xw as int, yw as int, n as int);
        }
        self.cells[xw * n + yw]
    }

    /// The cells in storage order, copied.
    fn copy_cells(&self) -> (r: Vec<Cell>)
        ensures
            r@ == self.cells@,
    {
        let mut r: Vec<Cell> = Vec::new();
        let mut k: usize = 0;
        while k < self.cells.len()
            invariant
                k <= self.cells.len(),
                r@ == self.cells@.subrange(0, k as int),
            decreases self.cells.len() - k,
        {
            r.push(self.cells[k]);
            k = k + 1;
            assert(r@ =~= self.cells@.subrange(0, k as int));
        }
        assert(r@ =~= self.cells@);
        r
    }

    /// The grid whose cell `(x, y)` is `cells[x * size + y]`.
    pub(crate) fn from_cells(size: usize, cells: Vec<Cell>) -> (r: Grid)
        requires
            size >= 1,
            cells.len() == size * size,
        ensures
            is_grid(r@),
            r@.len() == size,
            forall|x: int, y: int|
                0 <= x < size && 0 <= y < size ==> #[trigger] r@[x][y] == cells@[x * size + y],
    {
        let g = Grid { size, cells };
        proof {
            g.lemma_view_is_grid();
        }
        g
    }

    /// The grid with the cell at `(x, y)` replaced by `state`. Coordinates
    /// are not wrapped: outside `[0, size)` the request is refused.
    pub fn set(&self, x: i64, y: i64, state: Cell) -> (r: Result<Grid, GridError>)
        ensures
            is_grid(self@),
            in_bounds(self@, x as int, y as int) ==> (r matches Ok(g) && g@
                == with_cell(self@, x as int, y as int, state)),
            !in_bounds(self@, x as int, y as int) ==> r == Err::<Grid, GridError>(
                GridError::CoordinateOutOfBounds,
            ),
    {
        proof {
            use_type_invariant(self);
            self.lemma_view_is_grid();
        }
        let n = self.size;
        if x < 0 || y < 0 || x >= n as i64 || y >= n as i64 {
            return Err(GridError::CoordinateOutOfBounds);
        }
        let xu = x as usize;
        let yu = y as usize;
        proof {
            lemma_index_bounds(xu as int, yu as int, n as int);
        }
        let k = xu * n + yu;
        let mut cells = self.copy_cells();
        cells.set(k, state);
        let g = Grid { size: n, cells };
        proof {
            g.lemma_view_is_grid();
            let m = self@;
            assert forall|a: int, b: int| 0 <= a < n && 0 <= b < n implies g@[a][b] == with_cell(
                m,
                x as int,
                y as int,
                state,
            )[a][b] by {
                lemma_index_bounds(a, b, n as int);
                if a * n + b == k {
                    lemma_index_injective(a, b, xu as int, yu as int, n as int);
                }
            }
            assert(g@ =~~= with_cell(m, x as int, y as int, state));
        }
        Ok(g)
    }
}

impl PartialEq for Grid {
    fn eq(&self, other: &Grid) -> (r: bool) {
        proof {
            use_type_invariant(self);
            use_type_invariant(other);
            self.lemma_view_is_grid();
            other.lemma_view_is_grid();
        }
        if self.size != other.size {
            return false;
        }
        let n = self.size;
        let mut k: usize = 0;
        while k < self.cells.len()
            invariant
                n >= 1,
                self.size == n,
                other.size == n,
                self.cells.len() == n * n,
                other.cells.len() == n * n,
                k <= self.cells.len(),
                forall|i: int| 0 <= i < k ==> self.cells@[i] == other.cells@[i],
            decreases self.cells.len() - k,
        {
            if self.cells[k] != other.cells[k] {
                proof {
                    lemma_index_split(k as int, n as int);
                    let x = k as int / n as int;
                    let y = k as int % n as int;
                    assert(self@[x][y] != other@[x][y]);
                }
                return false;
            }
            k = k + 1;
        }
        proof {
            assert(self.cells@ =~= other.cells@);
        }
        true
    }
}

impl vstd::std_specs::cmp::PartialEqSpecImpl for Grid {
    open spec fn obeys_eq_spec() -> bool {
        true
    }

    open spec fn eq_spec(&self, other: &Grid) -> bool {
        self@ == other@
    }
}

} // verus!
