//! Matrices of any size.
use crate::arithmetic;
use crate::arithmetic::Arithmetic;
use crate::constants;
use crate::float::F64;
use crate::numbers;
use vstd::prelude::*;

verus! {

/// A matrix as numbers.
pub struct Grid {
    pub nrows: nat,
    pub ncols: nat,
    pub cells: Seq<Seq<F64>>,
}

/// The matrix whose entry in row `i` and column `j` is `f(i, j)`.
pub open spec fn grid(nrows: nat, ncols: nat, f: spec_fn(int, int) -> F64) -> Grid {
    Grid { nrows, ncols, cells: Seq::new(nrows, |i: int| Seq::new(ncols, |j: int| f(i, j))) }
}

impl Grid {
    /// Are there as many numbers as the size tells.
    pub open spec fn well_formed(self) -> bool {
        numbers::shaped(self.cells, self.nrows, self.ncols)
    }

    /// The entry in row `i` and column `j`.
    pub open spec fn at(self, i: int, j: int) -> F64 {
        self.cells[i][j]
    }

    /// Zeros everywhere.
    pub open spec fn zeros(nrows: nat, ncols: nat) -> Grid {
        grid(nrows, ncols, |i: int, j: int| F64 { bits: constants::ZERO })
    }

    /// These numbers on the diagonal and zeros elsewhere.
    pub open spec fn diagonal(values: Seq<F64>) -> Grid {
        grid(
            values.len(),
            values.len(),
            |i: int, j: int|
                if i == j {
                    values[i]
                } else {
                    F64 { bits: constants::ZERO }
                },
        )
    }

    /// Rows and columns exchanged.
    pub open spec fn transposed(self) -> Grid {
        grid(self.ncols, self.nrows, |i: int, j: int| self.at(j, i))
    }

    /// `self` times `other`.
    pub open spec fn multiplied<A: Arithmetic>(self, ops: &A, other: Grid) -> Grid {
        grid(
            self.nrows,
            other.ncols,
            |i: int, j: int|
                numbers::dot(ops, self.cells[i], numbers::column(other.cells, j), self.ncols),
        )
    }

    /// `self` times the column `v`.
    pub open spec fn applied<A: Arithmetic>(self, ops: &A, v: Seq<F64>) -> Seq<F64> {
        Seq::new(self.nrows, |i: int| numbers::dot(ops, self.cells[i], v, self.ncols))
    }

    /// `self + other`.
    pub open spec fn sum<A: Arithmetic>(self, ops: &A, other: Grid) -> Grid {
        grid(
            self.nrows,
            self.ncols,
            |i: int, j: int| arithmetic::sum(ops, self.at(i, j), other.at(i, j)),
        )
    }

    /// `self - other`.
    pub open spec fn difference<A: Arithmetic>(self, ops: &A, other: Grid) -> Grid {
        grid(
            self.nrows,
            self.ncols,
            |i: int, j: int| arithmetic::difference(ops, self.at(i, j), other.at(i, j)),
        )
    }

    /// `self` times the number `k`.
    pub open spec fn scaled<A: Arithmetic>(self, ops: &A, k: F64) -> Grid {
        grid(
            self.nrows,
            self.ncols,
            |i: int, j: int| arithmetic::product(ops, self.at(i, j), k),
        )
    }

    /// The column `v` times the row `w`.
    pub open spec fn outer<A: Arithmetic>(ops: &A, v: Seq<F64>, w: Seq<F64>) -> Grid {
        grid(v.len(), w.len(), |i: int, j: int| arithmetic::product(ops, v[i], w[j]))
    }

    /// The part with `m` rows from row `i0` and `n` columns from column `j0`.
    pub open spec fn block(self, i0: int, j0: int, m: nat, n: nat) -> Grid {
        grid(m, n, |i: int, j: int| self.at(i0 + i, j0 + j))
    }

    /// The matrix with each column multiplied by the number of the same index.
    pub open spec fn weighted<A: Arithmetic>(self, ops: &A, weights: Seq<F64>) -> Grid {
        grid(
            self.nrows,
            self.ncols,
            |i: int, j: int| arithmetic::product(ops, self.at(i, j), weights[j]),
        )
    }
}

/// Rows and columns exchanged twice are where they were.
pub proof fn law_transposed_twice(g: Grid)
    requires
        g.well_formed(),
    ensures
        g.transposed().transposed() == g,
{
    let twice = g.transposed().transposed();
    assert forall|i: int| 0 <= i < g.nrows implies #[trigger] twice.cells[i] == g.cells[i] by {
        assert(twice.cells[i] =~= g.cells[i]);
    }
    assert(twice.cells =~= g.cells);
}

/// A matrix.
#[derive(Debug)]
pub struct Table {
    /// How many rows there are.
    pub nrows: usize,
    /// How many columns there are.
    pub ncols: usize,
    /// The rows.
    pub cells: Vec<Vec<F64>>,
}

impl View for Table {
    type V = Grid;

    open spec fn view(&self) -> Grid {
        Grid {
            nrows: self.nrows as nat,
            ncols: self.ncols as nat,
            cells: numbers::rows(self.cells@),
        }
    }
}

impl Clone for Table {
    fn clone(&self) -> (t: Table)
        ensures
            t@ == self@,
    {
        let mut cells: Vec<Vec<F64>> = Vec::new();
        let mut i: usize = 0;
        while i < self.cells.len()
            invariant
                i <= self.cells@.len(),
                cells@.len() == i,
                numbers::rows(cells@) == numbers::rows(self.cells@).take(i as int),
            decreases self.cells@.len() - i,
        {
            let row = numbers::copied(&self.cells[i]);
            proof {
                numbers::lemma_rows_push(cells@, row);
            }
            cells.push(row);
            i = i + 1;
            assert(numbers::rows(cells@) =~= numbers::rows(self.cells@).take(i as int));
        }
        assert(numbers::rows(cells@) =~= numbers::rows(self.cells@));
        Table { nrows: self.nrows, ncols: self.ncols, cells }
    }
}

/// Is there a row `i` and a column `j`.
pub open spec fn inside(i: usize, j: usize, nrows: usize, ncols: usize) -> bool {
    i < nrows && j < ncols
}

/// Make a matrix from its entries.
pub(crate) fn build<F: Fn(usize, usize) -> F64>(
    nrows: usize,
    ncols: usize,
    f: F,
    Ghost(g): Ghost<spec_fn(int, int) -> F64>,
) -> (t: Table)
    requires
        forall|i: usize, j: usize| inside(i, j, nrows, ncols) ==> #[trigger] call_requires(f, (i,
            j)),
        forall|i: usize, j: usize, r: F64|
            inside(i, j, nrows, ncols) && #[trigger] call_ensures(f, (i, j), r) ==> r == g(
                i as int,
                j as int,
            ),
    ensures
        t@ == grid(nrows as nat, ncols as nat, g),
        t@.well_formed(),
{
    let mut cells: Vec<Vec<F64>> = Vec::new();
    let mut i: usize = 0;
    while i < nrows
        invariant
            i <= nrows,
            forall|i: usize, j: usize|
                inside(i, j, nrows, ncols) ==> #[trigger] call_requires(f, (i, j)),
            forall|i: usize, j: usize, r: F64|
                inside(i, j, nrows, ncols) && #[trigger] call_ensures(f, (i, j), r) ==> r == g(
                    i as int,
                    j as int,
                ),
            numbers::rows(cells@) == grid(i as nat, ncols as nat, g).cells,
        decreases nrows - i,
    {
        let mut row: Vec<F64> = Vec::new();
        let mut j: usize = 0;
        while j < ncols
            invariant
                i < nrows,
                j <= ncols,
                forall|i: usize, j: usize|
                    inside(i, j, nrows, ncols) ==> #[trigger] call_requires(f, (i, j)),
                forall|i: usize, j: usize, r: F64|
                    inside(i, j, nrows, ncols) && #[trigger] call_ensures(f, (i, j), r) ==> r == g(
                        i as int,
                        j as int,
                    ),
                row@ == Seq::new(j as nat, |j: int| g(i as int, j)),
            decreases ncols - j,
        {
            let x = f(i, j);
            row.push(x);
            j = j + 1;
            assert(row@ =~= Seq::new(j as nat, |j: int| g(i as int, j)));
        }
        proof {
            numbers::lemma_rows_push(cells@, row);
        }
        cells.push(row);
        i = i + 1;
        assert(numbers::rows(cells@) =~= grid(i as nat, ncols as nat, g).cells);
    }
    Table { nrows, ncols, cells }
}

impl Table {
    /// The matrix with the given rows, unless they are not as many or as long as told.
    pub fn new(nrows: usize, ncols: usize, cells: Vec<Vec<F64>>) -> (r: Option<Table>)
        ensures
            r == (if numbers::shaped(numbers::rows(cells@), nrows as nat, ncols as nat) {
                Some(Table { nrows, ncols, cells })
            } else {
                None
            }),
            r matches Some(t) ==> t@.well_formed(),
    {
        if cells.len() != nrows {
            return None;
        }
        let mut i: usize = 0;
        while i < nrows
            invariant
                cells@.len() == nrows,
                i <= nrows,
                forall|k: int| 0 <= k < i ==> (#[trigger] numbers::rows(cells@)[k]).len() == ncols,
            decreases nrows - i,
        {
            if cells[i].len() != ncols {
                assert(numbers::rows(cells@)[i as int].len() != ncols);
                return None;
            }
            i = i + 1;
        }
        Some(Table { nrows, ncols, cells })
    }

    /// The entry in row `i` and column `j`.
    pub fn get(&self, i: usize, j: usize) -> (x: F64)
        requires
            self@.well_formed(),
            i < self.nrows,
            j < self.ncols,
        ensures
            x == self@.at(i as int, j as int),
    {
        assert(self@.cells[i as int] == self.cells@[i as int]@);
        assert(self@.cells[i as int].len() == self.ncols);
        self.cells[i][j]
    }

    /// Zeros everywhere.
    pub fn zeros(nrows: usize, ncols: usize) -> (t: Table)
        ensures
            t@ == Grid::zeros(nrows as nat, ncols as nat),
            t@.well_formed(),
    {
        let f = |i: usize, j: usize| -> (r: F64)
            requires
                inside(i, j, nrows, ncols),
            ensures
                r == (F64 { bits: constants::ZERO }),
        {
            F64::from_bits(constants::ZERO)
        };
        build(nrows, ncols, f, Ghost(|i: int, j: int| (F64 { bits: constants::ZERO })))
    }

    /// These numbers on the diagonal and zeros elsewhere.
    pub fn from_diagonal(values: &Vec<F64>) -> (t: Table)
        ensures
            t@ == Grid::diagonal(values@),
            t@.well_formed(),
    {
        let f = |i: usize, j: usize| -> (r: F64)
            requires
                inside(i, j, values.len(), values.len()),
            ensures
                r == (if i as int == j as int {
                    values@[i as int]
                } else {
                    F64 { bits: constants::ZERO }
                }),
        {
            if i == j {
                    values[i]
                } else {
                    F64::from_bits(constants::ZERO)
                }
        };
        build(values.len(), values.len(), f, Ghost(|i: int, j: int| (if i == j {
                    values@[i]
                } else {
                    F64 { bits: constants::ZERO }
                })))
    }

    /// Rows and columns exchanged.
    pub fn transpose(&self) -> (t: Table)
        requires
            self@.well_formed(),
        ensures
            t@ == self@.transposed(),
            t@.well_formed(),
    {
        let f = |i: usize, j: usize| -> (r: F64)
            requires
                inside(i, j, self.ncols, self.nrows),
                self@.well_formed(),
            ensures
                r == self@.at(j as int, i as int),
        {
            self.get(j, i)
        };
        build(self.ncols, self.nrows, f, Ghost(|i: int, j: int| self@.at(j, i)))
    }

    /// `self + other`.
    pub fn plus<A: Arithmetic>(&self, ops: &A, other: &Table) -> (t: Table)
        requires
            ops.lawful(),
            self@.well_formed(),
            other@.well_formed(),
            self.nrows == other.nrows,
            self.ncols == other.ncols,
        ensures
            t@ == self@.sum(ops, other@),
            t@.well_formed(),
    {
        let f = |i: usize, j: usize| -> (r: F64)
            requires
                inside(i, j, self.nrows, self.ncols),
                ops.lawful(),
                self@.well_formed(),
                other@.well_formed(),
                self.nrows == other.nrows,
                self.ncols == other.ncols,
            ensures
                r == arithmetic::sum(ops, self@.at(i as int, j as int), other@.at(i as int,
                    j as int)),
        {
            arithmetic::plus(ops, self.get(i, j), other.get(i, j))
        };
        build(self.nrows, self.ncols, f, Ghost(|i: int, j: int| arithmetic::sum(ops, self@.at(i, j),
            other@.at(i, j))))
    }

    /// `self - other`.
    pub fn minus<A: Arithmetic>(&self, ops: &A, other: &Table) -> (t: Table)
        requires
            ops.lawful(),
            self@.well_formed(),
            other@.well_formed(),
            self.nrows == other.nrows,
            self.ncols == other.ncols,
        ensures
            t@ == self@.difference(ops, other@),
            t@.well_formed(),
    {
        let f = |i: usize, j: usize| -> (r: F64)
            requires
                inside(i, j, self.nrows, self.ncols),
                ops.lawful(),
                self@.well_formed(),
                other@.well_formed(),
                self.nrows == other.nrows,
                self.ncols == other.ncols,
            ensures
                r == arithmetic::difference(ops, self@.at(i as int, j as int), other@.at(i as int,
                    j as int)),
        {
            arithmetic::minus(ops, self.get(i, j), other.get(i, j))
        };
        build(self.nrows, self.ncols, f, Ghost(|i: int, j: int| arithmetic::difference(ops,
            self@.at(i, j), other@.at(i, j))))
    }

    /// `self` times the number `k`.
    pub fn scale<A: Arithmetic>(&self, ops: &A, k: F64) -> (t: Table)
        requires
            ops.lawful(),
            self@.well_formed(),
        ensures
            t@ == self@.scaled(ops, k),
            t@.well_formed(),
    {
        let f = |i: usize, j: usize| -> (r: F64)
            requires
                inside(i, j, self.nrows, self.ncols),
                ops.lawful(),
                self@.well_formed(),
            ensures
                r == arithmetic::product(ops, self@.at(i as int, j as int), k),
        {
            arithmetic::times(ops, self.get(i, j), k)
        };
        build(self.nrows, self.ncols, f, Ghost(|i: int, j: int| arithmetic::product(ops, self@.at(i,
            j), k)))
    }

    /// The column `v` times the row `w`.
    pub fn outer_product<A: Arithmetic>(ops: &A, v: &Vec<F64>, w: &Vec<F64>) -> (t: Table)
        requires
            ops.lawful(),
        ensures
            t@ == Grid::outer(ops, v@, w@),
            t@.well_formed(),
    {
        let f = |i: usize, j: usize| -> (r: F64)
            requires
                inside(i, j, v.len(), w.len()),
                ops.lawful(),
            ensures
                r == arithmetic::product(ops, v@[i as int], w@[j as int]),
        {
            arithmetic::times(ops, v[i], w[j])
        };
        build(v.len(), w.len(), f, Ghost(|i: int, j: int| arithmetic::product(ops, v@[i], w@[j])))
    }

    /// The part with `m` rows from row `i0` and `n` columns from column `j0`.
    pub fn view_block(&self, i0: usize, j0: usize, m: usize, n: usize) -> (t: Table)
        requires
            self@.well_formed(),
            i0 + m <= self.nrows,
            j0 + n <= self.ncols,
        ensures
            t@ == self@.block(i0 as int, j0 as int, m as nat, n as nat),
            t@.well_formed(),
    {
        let f = |i: usize, j: usize| -> (r: F64)
            requires
                inside(i, j, m, n),
                self@.well_formed(),
                i0 + m <= self.nrows,
                j0 + n <= self.ncols,
            ensures
                r == self@.at(i0 + i as int, j0 + j as int),
        {
            self.get(i0 + i, j0 + j)
        };
        build(m, n, f, Ghost(|i: int, j: int| self@.at(i0 + i, j0 + j)))
    }

    /// The matrix with each column multiplied by the number of the same index.
    pub fn weigh<A: Arithmetic>(&self, ops: &A, weights: &Vec<F64>) -> (t: Table)
        requires
            ops.lawful(),
            self@.well_formed(),
            weights@.len() == self.ncols,
        ensures
            t@ == self@.weighted(ops, weights@),
            t@.well_formed(),
    {
        let f = |i: usize, j: usize| -> (r: F64)
            requires
                inside(i, j, self.nrows, self.ncols),
                ops.lawful(),
                self@.well_formed(),
                weights@.len() == self.ncols,
            ensures
                r == arithmetic::product(ops, self@.at(i as int, j as int), weights@[j as int]),
        {
            arithmetic::times(ops, self.get(i, j), weights[j])
        };
        build(self.nrows, self.ncols, f, Ghost(|i: int, j: int| arithmetic::product(ops, self@.at(i,
            j), weights@[j])))
    }

    /// Row `i` times the column `v`.
    fn row_times<A: Arithmetic>(&self, ops: &A, i: usize, v: &Vec<F64>) -> (x: F64)
        requires
            ops.lawful(),
            self@.well_formed(),
            i < self.nrows,
            v@.len() == self.ncols,
        ensures
            x == numbers::dot(ops, self@.cells[i as int], v@, self.ncols as nat),
    {
        assert(self@.cells[i as int] == self.cells@[i as int]@);
        assert(self@.cells[i as int].len() == self.ncols);
        numbers::inner(ops, &self.cells[i], v)
    }

    /// Row `i` times column `j` of another matrix.
    fn cell_of_product<A: Arithmetic>(&self, ops: &A, other: &Table, i: usize, j: usize) -> (x: F64)
        requires
            ops.lawful(),
            self@.well_formed(),
            other@.well_formed(),
            self.ncols == other.nrows,
            i < self.nrows,
            j < other.ncols,
        ensures
            x == numbers::dot(
                ops,
                self@.cells[i as int],
                numbers::column(other@.cells, j as int),
                self.ncols as nat,
            ),
    {
        assert forall|k: int| 0 <= k < other.cells@.len() implies j < (
        #[trigger] other.cells@[k])@.len() by {
            assert(other@.cells[k].len() == other.ncols);
        }
        let column = numbers::column_of(&other.cells, j);
        self.row_times(ops, i, &column)
    }

    /// `self` times the column `v`.
    pub fn apply<A: Arithmetic>(&self, ops: &A, v: &Vec<F64>) -> (r: Vec<F64>)
        requires
            ops.lawful(),
            self@.well_formed(),
            v@.len() == self.ncols,
        ensures
            r@ == self@.applied(ops, v@),
    {
        let mut r: Vec<F64> = Vec::new();
        let mut i: usize = 0;
        while i < self.nrows
            invariant
                ops.lawful(),
                self@.well_formed(),
                v@.len() == self.ncols,
                i <= self.nrows,
                r@ == self@.applied(ops, v@).take(i as int),
            decreases self.nrows - i,
        {
            let x = self.row_times(ops, i, v);
            r.push(x);
            i = i + 1;
            assert(r@ =~= self@.applied(ops, v@).take(i as int));
        }
        assert(r@ =~= self@.applied(ops, v@));
        r
    }

    /// `self` times `other`.
    pub fn multiply<A: Arithmetic>(&self, ops: &A, other: &Table) -> (t: Table)
        requires
            ops.lawful(),
            self@.well_formed(),
            other@.well_formed(),
            self.ncols == other.nrows,
        ensures
            t@ == self@.multiplied(ops, other@),
            t@.well_formed(),
    {
        let f = |i: usize, j: usize| -> (r: F64)
            requires
                inside(i, j, self.nrows, other.ncols),
                ops.lawful(),
                self@.well_formed(),
                other@.well_formed(),
                self.ncols == other.nrows,
            ensures
                r == numbers::dot(
                        ops,
                        self@.cells[i as int],
                        numbers::column(other@.cells, j as int),
                        self@.ncols,
                    ),
        {
            self.cell_of_product(ops, other, i, j)
        };
        build(self.nrows, other.ncols, f, Ghost(|i: int, j: int| numbers::dot(
                        ops,
                        self@.cells[i],
                        numbers::column(other@.cells, j),
                        self@.ncols,
                    )))
    }
}

} // verus!
