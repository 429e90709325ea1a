//! The periodic grid: row-major cells, each with the indices of the nine
//! cells of its 3x3 neighbourhood, resolved once when the grid is built.

use vstd::prelude::*;
use vstd::arithmetic::div_mod::*;
use vstd::arithmetic::mul::*;

verus! {

/// Coordinate `c` moved by `d` on an axis of length `n` that closes on itself.
pub open spec fn wrap(c: int, d: int, n: int) -> int {
    (c + d) % n
}

/// Row-major position of the cell in column `x` of row `y`.
pub open spec fn cell_index(width: int, x: int, y: int) -> int {
    y * width + x
}

/// Column offset of stencil position `k`: -1, 0 or 1.
pub open spec fn stencil_dx(k: int) -> int {
    k % 3 - 1
}

/// Row offset of stencil position `k`: -1, 0 or 1.
pub open spec fn stencil_dy(k: int) -> int {
    k / 3 - 1
}

/// Index of the cell at stencil position `k` of cell `i`. Positions run row
/// by row over the 3x3 block around the cell: 0 up-left, 1 up, 2 up-right,
/// 3 left, 4 the cell itself, 5 right, 6 down-left, 7 down, 8 down-right.
pub open spec fn neighbor_index(width: int, height: int, i: int, k: int) -> int {
    cell_index(
        width,
        wrap(i % width, stencil_dx(k), width),
        wrap(i / width, stencil_dy(k), height),
    )
}

/// A wrapped coordinate stays on its axis.
pub proof fn lemma_wrap_in_range(c: int, d: int, n: int)
    requires
        n >= 1,
    ensures
        0 <= wrap(c, d, n) < n,
{
    lemma_mod_bound(c + d, n);
}

/// One step on a closed axis: the far end is next to the near end.
pub proof fn lemma_wrap_step(c: int, n: int)
    requires
        n >= 1,
        0 <= c < n,
    ensures
        wrap(c, 0, n) == c,
        wrap(c, -1, n) == (if c == 0 { n - 1 } else { c - 1 }),
        wrap(c, 1, n) == (if c == n - 1 { 0 } else { c + 1 }),
{
    lemma_small_mod(c as nat, n as nat);
    if c == 0 {
        lemma_mod_add_multiples_vanish(-1, n);
        lemma_small_mod((n - 1) as nat, n as nat);
    } else {
        lemma_small_mod((c - 1) as nat, n as nat);
    }
    if c == n - 1 {
        lemma_mod_self_0(n);
    } else {
        lemma_small_mod((c + 1) as nat, n as nat);
    }
}

/// A cell position inside the grid is a valid index, and its column and row
/// are read back from the index by remainder and quotient.
pub proof fn lemma_cell_index(width: int, height: int, x: int, y: int)
    requires
        0 <= x < width,
        0 <= y < height,
    ensures
        0 <= cell_index(width, x, y) < width * height,
        cell_index(width, x, y) % width == x,
        cell_index(width, x, y) / width == y,
{
    lemma_fundamental_div_mod_converse(y * width + x, width, y, x);
    assert(y * width == width * y) by (nonlinear_arith);
    assert(y * width + x < width * height) by (nonlinear_arith)
        requires
            0 <= x < width,
            0 <= y < height,
    ;
    assert(0 <= y * width) by (nonlinear_arith)
        requires
            0 <= y,
            0 < width,
    ;
}

/// An index inside the grid names a column and a row inside the grid.
pub proof fn lemma_index_coordinates(width: int, height: int, i: int)
    requires
        width >= 1,
        height >= 1,
        0 <= i < width * height,
    ensures
        0 <= i % width < width,
        0 <= i / width < height,
        cell_index(width, i % width, i / width) == i,
{
    lemma_mod_bound(i, width);
    lemma_fundamental_div_mod(i, width);
    lemma_div_pos_is_pos(i, width);
    assert(width * (i / width) == (i / width) * width) by (nonlinear_arith);
    if i / width >= height {
        assert((i / width) * width >= height * width) by (nonlinear_arith)
            requires
                i / width >= height,
                width >= 1,
        ;
        assert(height * width == width * height) by (nonlinear_arith);
    }
}

/// Every stencil position of every cell resolves to a cell of the grid.
pub proof fn lemma_neighbor_in_range(width: int, height: int, i: int, k: int)
    requires
        width >= 1,
        height >= 1,
    ensures
        0 <= neighbor_index(width, height, i, k) < width * height,
{
    lemma_wrap_in_range(i % width, stencil_dx(k), width);
    lemma_wrap_in_range(i / width, stencil_dy(k), height);
    lemma_cell_index(
        width,
        height,
        wrap(i % width, stencil_dx(k), width),
        wrap(i / width, stencil_dy(k), height),
    );
}

/// The neighbour at stencil position `k` of the cell in column `x` of row
/// `y` is the cell whose column and row are those of the cell, each moved by
/// the position's offset and wrapped.
pub proof fn lemma_neighbor_of_position(width: int, height: int, x: int, y: int, k: int)
    requires
        0 <= x < width,
        0 <= y < height,
    ensures
        neighbor_index(width, height, cell_index(width, x, y), k) == cell_index(
            width,
            wrap(x, stencil_dx(k), width),
            wrap(y, stencil_dy(k), height),
        ),
{
    lemma_cell_index(width, height, x, y);
}

/// The grid has no border. In every row the left neighbour of the first
/// column is the last column and the right neighbour of the last column is
/// the first; in every column the upper neighbour of the first row is the
/// last row and the lower neighbour of the last row is the first.
pub proof fn lemma_periodic_edges(width: int, height: int, x: int, y: int)
    requires
        0 <= x < width,
        0 <= y < height,
    ensures
        neighbor_index(width, height, cell_index(width, 0, y), 3) == cell_index(
            width,
            width - 1,
            y,
        ),
        neighbor_index(width, height, cell_index(width, width - 1, y), 5) == cell_index(
            width,
            0,
            y,
        ),
        neighbor_index(width, height, cell_index(width, x, 0), 1) == cell_index(
            width,
            x,
            height - 1,
        ),
        neighbor_index(width, height, cell_index(width, x, height - 1), 7) == cell_index(
            width,
            x,
            0,
        ),
{
    lemma_neighbor_of_position(width, height, 0, y, 3);
    lemma_neighbor_of_position(width, height, width - 1, y, 5);
    lemma_neighbor_of_position(width, height, x, 0, 1);
    lemma_neighbor_of_position(width, height, x, height - 1, 7);
    lemma_wrap_step(0, width);
    lemma_wrap_step(width - 1, width);
    lemma_wrap_step(0, height);
    lemma_wrap_step(height - 1, height);
    lemma_wrap_step(x, width);
    lemma_wrap_step(y, height);
}

/// The two concentrations of one cell.
#[derive(Debug)]
pub struct Pair<S> {
    pub a: S,
    pub b: S,
}

impl<S: Copy> Clone for Pair<S> {
    fn clone(&self) -> (copy: Self)
        ensures
            copy == *self,
    {
        *self
    }
}

impl<S: Copy> Copy for Pair<S> {

}

/// One cell: its two concentrations and the indices of the nine cells of
/// its neighbourhood, in stencil order.
#[derive(Debug)]
pub struct Cell<S> {
    pub neighbors: [usize; 9],
    pub a: S,
    pub b: S,
}

impl<S: Copy> Clone for Cell<S> {
    fn clone(&self) -> (copy: Self)
        ensures
            copy == *self,
    {
        *self
    }
}

impl<S: Copy> Copy for Cell<S> {

}

impl<S> Cell<S> {
    /// The cell's concentrations as a pair.
    pub open spec fn pair(&self) -> Pair<S> {
        Pair { a: self.a, b: self.b }
    }
}

/// Moves coordinate `c` by `step - 1` on a closed axis of length `n`.
fn shift(c: usize, step: usize, n: usize) -> (r: usize)
    requires
        c < n,
        step < 3,
    ensures
        r == wrap(c as int, step as int - 1, n as int),
        r < n,
{
    proof {
        lemma_wrap_step(c as int, n as int);
    }
    if step == 0 {
        if c == 0 {
            n - 1
        } else {
            c - 1
        }
    } else if step == 1 {
        c
    } else {
        if c == n - 1 {
            0
        } else {
            c + 1
        }
    }
}

/// Resolves the nine stencil positions of cell `i`.
fn resolve(width: usize, height: usize, i: usize) -> (links: [usize; 9])
    requires
        width >= 1,
        height >= 1,
        width * height <= usize::MAX,
        i < width * height,
    ensures
        forall|k: int|
            0 <= k < 9 ==> #[trigger] links@[k] == neighbor_index(
                width as int,
                height as int,
                i as int,
                k,
            ),
{
    let cx: usize = i % width;
    let cy: usize = i / width;
    proof {
        lemma_index_coordinates(width as int, height as int, i as int);
    }
    let mut links: [usize; 9] = [0usize;9];
    let mut k: usize = 0;
    while k < 9
        invariant
            k <= 9,
            width >= 1,
            height >= 1,
            width * height <= usize::MAX,
            i < width * height,
            cx == i % width,
            cy == i / width,
            cx < width,
            cy < height,
            forall|j: int|
                0 <= j < k ==> #[trigger] links@[j] == neighbor_index(
                    width as int,
                    height as int,
                    i as int,
                    j,
                ),
        decreases 9 - k,
    {
        let nx: usize = shift(cx, k % 3, width);
        let ny: usize = shift(cy, k / 3, height);
        proof {
            lemma_cell_index(width as int, height as int, nx as int, ny as int);
            assert(ny * width + nx == cell_index(width as int, nx as int, ny as int));
            assert(ny * width <= ny * width + nx);
        }
        links[k] = ny * width + nx;
        k += 1;
    }
    links
}

/// The concentrations that one cell's update reads: those of the cell and
/// of its eight neighbours, by position.
#[derive(Debug)]
pub struct Stencil<S> {
    pub up_left: Pair<S>,
    pub up: Pair<S>,
    pub up_right: Pair<S>,
    pub left: Pair<S>,
    pub center: Pair<S>,
    pub right: Pair<S>,
    pub down_left: Pair<S>,
    pub down: Pair<S>,
    pub down_right: Pair<S>,
}

impl<S: Copy> Clone for Stencil<S> {
    fn clone(&self) -> (copy: Self)
        ensures
            copy == *self,
    {
        *self
    }
}

impl<S: Copy> Copy for Stencil<S> {

}

/// The stencil of cell `i` over the field `values` of a `width` by `height`
/// periodic grid.
pub open spec fn stencil_of<S>(values: Seq<Pair<S>>, width: int, height: int, i: int) -> Stencil<
    S,
> {
    Stencil {
        up_left: values[neighbor_index(width, height, i, 0)],
        up: values[neighbor_index(width, height, i, 1)],
        up_right: values[neighbor_index(width, height, i, 2)],
        left: values[neighbor_index(width, height, i, 3)],
        center: values[neighbor_index(width, height, i, 4)],
        right: values[neighbor_index(width, height, i, 5)],
        down_left: values[neighbor_index(width, height, i, 6)],
        down: values[neighbor_index(width, height, i, 7)],
        down_right: values[neighbor_index(width, height, i, 8)],
    }
}

/// A periodic grid of `width * height` cells in row-major order.
#[derive(Debug)]
pub struct Grid<S> {
    width: usize,
    height: usize,
    cells: Vec<Cell<S>>,
}

impl<S: Copy> Grid<S> {
    /// Number of columns.
    pub closed spec fn spec_width(&self) -> nat {
        self.width as nat
    }

    /// Number of rows.
    pub closed spec fn spec_height(&self) -> nat {
        self.height as nat
    }

    /// The field: the concentrations of every cell, in row-major order.
    pub closed spec fn values(&self) -> Seq<Pair<S>> {
        Seq::new(self.cells@.len(), |i: int| self.cells@[i].pair())
    }

    /// The stored neighbourhood indices of cell `i`.
    pub closed spec fn links(&self, i: int) -> Seq<usize> {
        self.cells@[i].neighbors@
    }

    /// The grid is not empty, holds one cell per position, and every stored
    /// neighbourhood index is the periodic neighbour it stands for.
    pub open spec fn wf(&self) -> bool {
        &&& self.spec_width() >= 1
        &&& self.spec_height() >= 1
        &&& self.spec_width() * self.spec_height() <= usize::MAX
        &&& self.values().len() == self.spec_width() * self.spec_height()
        &&& forall|i: int, k: int|
            0 <= i < self.values().len() && 0 <= k < 9 ==> (#[trigger] self.links(i)[k])
                == neighbor_index(self.spec_width() as int, self.spec_height() as int, i, k)
    }

    /// The stencil of cell `i`.
    pub open spec fn stencil_at(&self, i: int) -> Stencil<S> {
        stencil_of(self.values(), self.spec_width() as int, self.spec_height() as int, i)
    }

    /// Builds a grid whose every cell holds the concentrations `a` and `b`.
    /// All cells are allocated first; then each cell's neighbourhood is
    /// resolved against the complete array.
    pub fn new(width: usize, height: usize, a: S, b: S) -> (grid: Self)
        requires
            width >= 1,
            height >= 1,
            width * height <= usize::MAX,
        ensures
            grid.wf(),
            grid.spec_width() == width,
            grid.spec_height() == height,
            grid.values() == Seq::new((width * height) as nat, |i: int| Pair { a, b }),
    {
        let count: usize = width * height;
        let mut cells: Vec<Cell<S>> = Vec::new();
        let mut i: usize = 0;
        while i < count
            invariant
                i <= count,
                cells@.len() == i,
                forall|j: int| 0 <= j < i ==> (#[trigger] cells@[j]).pair() == (Pair { a, b }),
            decreases count - i,
        {
            cells.push(Cell { neighbors: [0usize;9], a, b });
            i += 1;
        }
        let mut i: usize = 0;
        while i < count
            invariant
                i <= count,
                width >= 1,
                height >= 1,
                count == width * height,
                cells@.len() == count,
                forall|j: int| 0 <= j < count ==> (#[trigger] cells@[j]).pair() == (Pair { a, b }),
                forall|j: int, k: int|
                    0 <= j < i && 0 <= k < 9 ==> (#[trigger] cells@[j].neighbors@[k])
                        == neighbor_index(width as int, height as int, j, k),
            decreases count - i,
        {
            let links: [usize; 9] = resolve(width, height, i);
            let cell: Cell<S> = cells[i];
            cells.set(i, Cell { neighbors: links, a: cell.a, b: cell.b });
            i += 1;
        }
        let grid = Grid { width, height, cells };
        assert(grid.values() =~= Seq::new((width * height) as nat, |i: int| Pair { a, b }));
        grid
    }

    /// Number of columns.
    pub fn width(&self) -> (width: usize)
        ensures
            width == self.spec_width(),
    {
        self.width
    }

    /// Number of rows.
    pub fn height(&self) -> (height: usize)
        ensures
            height == self.spec_height(),
    {
        self.height
    }

    /// Number of cells.
    pub fn len(&self) -> (count: usize)
        requires
            self.wf(),
        ensures
            count == self.values().len(),
            count == self.spec_width() * self.spec_height(),
    {
        self.cells.len()
    }

    /// Cell `i`, with its concentrations and its resolved neighbourhood.
    pub fn cell(&self, i: usize) -> (cell: &Cell<S>)
        requires
            self.wf(),
            i < self.values().len(),
        ensures
            cell.pair() == self.values()[i as int],
            forall|k: int|
                0 <= k < 9 ==> (#[trigger] cell.neighbors@[k]) == neighbor_index(
                    self.spec_width() as int,
                    self.spec_height() as int,
                    i as int,
                    k,
                ),
    {
        proof {
            assert forall|k: int| 0 <= k < 9 implies (#[trigger] self.cells@[i as int].neighbors@[k])
                == neighbor_index(
                self.spec_width() as int,
                self.spec_height() as int,
                i as int,
                k,
            ) by {
                assert(self.links(i as int)[k] == neighbor_index(
                    self.spec_width() as int,
                    self.spec_height() as int,
                    i as int,
                    k,
                ));
            }
        }
        &self.cells[i]
    }

    /// The concentrations of cell `i`.
    pub fn get(&self, i: usize) -> (pair: Pair<S>)
        requires
            self.wf(),
            i < self.values().len(),
        ensures
            pair == self.values()[i as int],
    {
        let cell: &Cell<S> = &self.cells[i];
        Pair { a: cell.a, b: cell.b }
    }

    /// The index of the cell at stencil position `k` of cell `i`.
    pub fn neighbor(&self, i: usize, k: usize) -> (j: usize)
        requires
            self.wf(),
            i < self.values().len(),
            k < 9,
        ensures
            j == neighbor_index(self.spec_width() as int, self.spec_height() as int, i as int, k as int),
            j < self.values().len(),
    {
        proof {
            lemma_neighbor_in_range(
                self.spec_width() as int,
                self.spec_height() as int,
                i as int,
                k as int,
            );
            assert(self.links(i as int)[k as int] == neighbor_index(
                self.spec_width() as int,
                self.spec_height() as int,
                i as int,
                k as int,
            ));
        }
        self.cells[i].neighbors[k]
    }

    /// Gathers the concentrations that the update of cell `i` reads.
    pub fn stencil(&self, i: usize) -> (stencil: Stencil<S>)
        requires
            self.wf(),
            i < self.values().len(),
        ensures
            stencil == self.stencil_at(i as int),
    {
        Stencil {
            up_left: self.get(self.neighbor(i, 0)),
            up: self.get(self.neighbor(i, 1)),
            up_right: self.get(self.neighbor(i, 2)),
            left: self.get(self.neighbor(i, 3)),
            center: self.get(self.neighbor(i, 4)),
            right: self.get(self.neighbor(i, 5)),
            down_left: self.get(self.neighbor(i, 6)),
            down: self.get(self.neighbor(i, 7)),
            down_right: self.get(self.neighbor(i, 8)),
        }
    }

    /// Overwrites the concentrations of cell `i`; the topology stays.
    pub fn set(&mut self, i: usize, pair: Pair<S>)
        requires
            old(self).wf(),
            i < old(self).values().len(),
        ensures
            final(self).wf(),
            final(self).spec_width() == old(self).spec_width(),
            final(self).spec_height() == old(self).spec_height(),
            final(self).values() == old(self).values().update(i as int, pair),
    {
        let cell: Cell<S> = self.cells[i];
        self.cells.set(i, Cell { neighbors: cell.neighbors, a: pair.a, b: pair.b });
        proof {
            assert(self.values() =~= old(self).values().update(i as int, pair));
            assert forall|j: int, k: int|
                0 <= j < self.values().len() && 0 <= k < 9 implies (
            #[trigger] self.links(j)[k]) == neighbor_index(
                self.spec_width() as int,
                self.spec_height() as int,
                j,
                k,
            ) by {
                assert(self.links(j) == old(self).links(j));
                assert(old(self).links(j)[k] == neighbor_index(
                    old(self).spec_width() as int,
                    old(self).spec_height() as int,
                    j,
                    k,
                ));
            }
        }
    }
}

} // verus!
