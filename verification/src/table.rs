//! Tables of text cells, and the exchange of their rows and columns.

use crate::error::Error;
use vstd::prelude::*;

verus! {

/// The number of columns of a grid: the length of its first row, and zero
/// where it has no row.
pub open spec fn column_count<T>(grid: Seq<Seq<T>>) -> nat {
    if grid.len() == 0 {
        0
    } else {
        grid[0].len()
    }
}

/// Every row of the grid has as many cells as the first.
pub open spec fn is_rectangular<T>(grid: Seq<Seq<T>>) -> bool {
    forall|j: int| 0 <= j < grid.len() ==> (#[trigger] grid[j]).len() == column_count(grid)
}

/// The grid with rows and columns exchanged: its row `i` holds the cells
/// that the rows of `grid` have at position `i`, in the order of those rows.
pub open spec fn transposed<T>(grid: Seq<Seq<T>>) -> Seq<Seq<T>> {
    Seq::new(column_count(grid), |i: int| Seq::new(grid.len(), |j: int| grid[j][i]))
}

/// The transpose of a grid of `R` rows and `C` columns has `C` rows of `R`
/// cells each, and its cell `(i, j)` is the grid's cell `(j, i)`.
pub proof fn lemma_transposed_shape<T>(grid: Seq<Seq<T>>)
    ensures
        transposed(grid).len() == column_count(grid),
        forall|i: int|
            0 <= i < column_count(grid) ==> (#[trigger] transposed(grid)[i]).len() == grid.len(),
        forall|i: int, j: int|
            0 <= i < column_count(grid) && 0 <= j < grid.len() ==> #[trigger] transposed(
                grid,
            )[i][j] == grid[j][i],
        is_rectangular(transposed(grid)),
        column_count(grid) > 0 ==> column_count(transposed(grid)) == grid.len(),
{
}

/// Transposing twice gives the grid back, for every rectangular grid whose
/// rows are not empty.
pub proof fn lemma_transposed_twice<T>(grid: Seq<Seq<T>>)
    requires
        is_rectangular(grid),
        grid.len() > 0 ==> column_count(grid) > 0,
    ensures
        transposed(transposed(grid)) == grid,
{
    lemma_transposed_shape(grid);
    let back = transposed(transposed(grid));
    if grid.len() > 0 {
        assert(back.len() == grid.len());
        assert forall|j: int| 0 <= j < grid.len() implies #[trigger] back[j] =~= grid[j] by {
            assert(back[j].len() == column_count(grid));
        }
    }
    assert(back =~= grid);
}

/// A table as it was read: rows of text cells, of whatever lengths.
#[derive(Debug, Clone, PartialEq, Eq)]
pub struct Table {
    pub rows: Vec<Vec<String>>,
}

impl View for Table {
    type V = Seq<Seq<Seq<char>>>;

    /// The rows, each as the sequence of the texts of its cells.
    open spec fn view(&self) -> Seq<Seq<Seq<char>>> {
        self.rows.deep_view()
    }
}

impl Table {
    /// The table with these rows.
    pub fn new(rows: Vec<Vec<String>>) -> (table: Table)
        ensures
            table.rows == rows,
            table@ == rows.deep_view(),
    {
        Table { rows }
    }

    /// The number of rows.
    pub fn row_count(&self) -> (n: usize)
        ensures
            n == self@.len(),
    {
        self.rows.len()
    }

    /// The number of columns: the length of the first row, and zero where
    /// the table has no row.
    pub fn column_count(&self) -> (n: usize)
        ensures
            n == column_count(self@),
    {
        if self.rows.len() == 0 {
            0
        } else {
            self.rows[0].len()
        }
    }

    /// Checks that all rows have the same number of cells.
    pub fn validate(&self) -> (r: Result<(), Error>)
        ensures
            r is Ok <==> is_rectangular(self@),
            r is Err ==> r == Err::<(), Error>(Error::UnequalRows),
    {
        let columns = self.column_count();
        let mut j: usize = 0;
        while j < self.rows.len()
            invariant
                j <= self.rows.len(),
                columns == column_count(self@),
                forall|k: int| 0 <= k < j ==> (#[trigger] self@[k]).len() == columns,
            decreases self.rows.len() - j,
        {
            if self.rows[j].len() != columns {
                assert(self@[j as int].len() != column_count(self@));
                return Err(Error::UnequalRows);
            }
            j += 1;
        }
        Ok(())
    }

    /// Exchanges rows and columns. A table whose rows differ in length has
    /// no transpose and is refused.
    pub fn transpose(&self) -> (r: Result<Table, Error>)
        ensures
            match r {
                Ok(table) => is_rectangular(self@) && table@ == transposed(self@),
                Err(e) => !is_rectangular(self@) && e == Error::UnequalRows,
            },
    {
        if self.validate().is_err() {
            return Err(Error::UnequalRows);
        }
        let columns = self.column_count();
        let height = self.rows.len();
        let mut rows: Vec<Vec<String>> = Vec::new();
        let mut i: usize = 0;
        while i < columns
            invariant
                i <= columns,
                columns == column_count(self@),
                height == self.rows.len(),
                is_rectangular(self@),
                rows.len() == i,
                forall|a: int| 0 <= a < i ==> #[trigger] rows.deep_view()[a] == transposed(self@)[a],
            decreases columns - i,
        {
            let mut row: Vec<String> = Vec::new();
            let mut j: usize = 0;
            while j < height
                invariant
                    j <= height,
                    i < columns,
                    columns == column_count(self@),
                    height == self.rows.len(),
                    is_rectangular(self@),
                    row.len() == j,
                    forall|b: int| 0 <= b < j ==> (#[trigger] row[b])@ == self@[b][i as int],
                decreases height - j,
            {
                assert(self@[j as int].len() == columns);
                row.push(self.rows[j][i].clone());
                j += 1;
            }
            assert(row.deep_view() =~= transposed(self@)[i as int]);
            let ghost before = rows.deep_view();
            rows.push(row);
            assert forall|a: int| 0 <= a <= i implies #[trigger] rows.deep_view()[a] == transposed(
                self@,
            )[a] by {
                if a < i {
                    assert(rows.deep_view()[a] == before[a]);
                }
            }
            i += 1;
        }
        assert(rows.deep_view() =~= transposed(self@));
        Ok(Table { rows })
    }
}

} // verus!
