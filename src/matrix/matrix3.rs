//! The 3 x 3 matrix.
use crate::matrix::matrix2::Matrix2;
use crate::matrix::{
    entry,
    lemma_submatrix_by_entries,
    lemma_transposed_by_entries,
    skip,
    submatrix_of,
    Matrix,
};
use vstd::prelude::*;

verus! {

/// A 3 x 3 matrix, entries in row-major order.
#[derive(Clone, Copy, Debug)]
pub struct Matrix3<T> {
    pub matrix: [T; 9],
}

impl<T> View for Matrix3<T> {
    type V = Seq<T>;

    open spec fn view(&self) -> Seq<T> {
        self.matrix@
    }
}

impl<T: Copy> Matrix3<T> {
    /// The matrix with the given entries, row by row.
    pub fn new(matrix: [T; 9]) -> (r: Self)
        ensures
            r@ == matrix@,
    {
        Matrix3 { matrix }
    }

    /// The 2 x 2 matrix left after deleting `row` and `col`, the remaining
    /// rows and columns kept in order.
    pub fn submatrix(&self, row: usize, col: usize) -> (r: Matrix2<T>)
        requires
            row < 3,
            col < 3,
        ensures
            r@ == submatrix_of(self@, 3, row as int, col as int),
    {
        let mut sub = Matrix2::new([self.matrix[0]; 4]);
        let mut i: usize = 0;
        while i < 3
            invariant
                row < 3,
                col < 3,
                i <= 3,
                sub@.len() == 4,
                forall|r: int, c: int|
                    0 <= r < 2 && 0 <= c < 2 && skip(r, row as int) < i ==> #[trigger] entry(
                        sub@,
                        2,
                        r,
                        c,
                    ) == entry(self@, 3, skip(r, row as int), skip(c, col as int)),
            decreases 3 - i,
        {
            let mut j: usize = 0;
            while j < 3
                invariant
                    row < 3,
                    col < 3,
                    i < 3,
                    j <= 3,
                    sub@.len() == 4,
                    forall|r: int, c: int|
                        0 <= r < 2 && 0 <= c < 2 && (skip(r, row as int) < i || (skip(
                            r,
                            row as int,
                        ) == i && skip(c, col as int) < j)) ==> #[trigger] entry(sub@, 2, r, c)
                            == entry(self@, 3, skip(r, row as int), skip(c, col as int)),
                decreases 3 - j,
            {
                if i != row && j != col {
                    let ghost before = sub@;
                    let to_row: usize = if i < row {
                        i
                    } else {
                        i - 1
                    };
                    let to_col: usize = if j < col {
                        j
                    } else {
                        j - 1
                    };
                    sub.write(to_row, to_col, self.element(i, j));
                    assert forall|r: int, c: int|
                        0 <= r < 2 && 0 <= c < 2 && (skip(r, row as int) < i || (skip(
                            r,
                            row as int,
                        ) == i && skip(c, col as int) <= j)) implies #[trigger] entry(sub@, 2, r, c)
                        == entry(self@, 3, skip(r, row as int), skip(c, col as int)) by {
                        if r == to_row && c == to_col {
                            assert(skip(r, row as int) == i && skip(c, col as int) == j);
                        } else {
                            assert(entry(before, 2, r, c) == entry(
                                self@,
                                3,
                                skip(r, row as int),
                                skip(c, col as int),
                            ));
                        }
                    }
                }
                j += 1;
            }
            i += 1;
        }
        proof {
            lemma_submatrix_by_entries(sub@, self@, 3, row as int, col as int);
        }
        sub
    }
}

impl<T: Copy> Matrix<T> for Matrix3<T> {
    open spec fn dim() -> int {
        3
    }

    open spec fn entries(&self) -> Seq<T> {
        self@
    }

    fn element(&self, row: usize, column: usize) -> (r: T) {
        self.matrix[Self::get_index(row, column)]
    }

    fn write(&mut self, row: usize, column: usize, new_val: T) {
        let i = Self::get_index(row, column);
        self.matrix[i] = new_val;
    }

    fn get_index(row: usize, column: usize) -> (r: usize) {
        3 * row + column
    }

    fn transpose(&self) -> (r: Self) {
        let mut transposed = Matrix3::new([self.matrix[0]; 9]);
        let mut row: usize = 0;
        while row < 3
            invariant
                row <= 3,
                transposed@.len() == 9,
                forall|r: int, c: int|
                    0 <= r < row && 0 <= c < 3 ==> #[trigger] entry(transposed@, 3, r, c)
                        == entry(self@, 3, c, r),
            decreases 3 - row,
        {
            let mut col: usize = 0;
            while col < 3
                invariant
                    row < 3,
                    col <= 3,
                    transposed@.len() == 9,
                    forall|r: int, c: int|
                        (0 <= r < row && 0 <= c < 3) || (r == row && 0 <= c < col)
                            ==> #[trigger] entry(transposed@, 3, r, c) == entry(self@, 3, c, r),
                decreases 3 - col,
            {
                let ghost before = transposed@;
                transposed.write(row, col, self.element(col, row));
                assert forall|r: int, c: int|
                    (0 <= r < row && 0 <= c < 3) || (r == row && 0 <= c <= col) implies #[trigger] entry(
                    transposed@,
                    3,
                    r,
                    c,
                ) == entry(self@, 3, c, r) by {
                    if r != row || c != col {
                        assert(entry(before, 3, r, c) == entry(self@, 3, c, r));
                    }
                }
                col += 1;
            }
            row += 1;
        }
        proof {
            lemma_transposed_by_entries(transposed@, self@, 3);
        }
        transposed
    }
}

} // verus!
