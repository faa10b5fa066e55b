//! The 4 x 4 matrix.
use crate::matrix::matrix3::Matrix3;
use crate::matrix::{
    entry,
    identity_of,
    lemma_slot_split,
    lemma_submatrix_by_entries,
    lemma_transposed_by_entries,
    skip,
    submatrix_of,
    Matrix,
};
use vstd::prelude::*;

verus! {

/// A 4 x 4 matrix, entries in row-major order.
#[derive(Clone, Copy, Debug)]
pub struct Matrix4<T> {
    pub matrix: [T; 16],
}

impl<T> View for Matrix4<T> {
    type V = Seq<T>;

    open spec fn view(&self) -> Seq<T> {
        self.matrix@
    }
}

impl<T: Copy> Matrix4<T> {
    /// The matrix with the given entries, row by row.
    pub fn new(matrix: [T; 16]) -> (r: Self)
        ensures
            r@ == matrix@,
    {
        Matrix4 { matrix }
    }

    /// The identity matrix: `one` on the diagonal, `zero` everywhere else.
    pub fn identity(zero: T, one: T) -> (r: Self)
        ensures
            r@ == identity_of(4, zero, one),
    {
        let r = Matrix4::new(
            [
                one, zero, zero, zero,
                zero, one, zero, zero,
                zero, zero, one, zero,
                zero, zero, zero, one,
            ],
        );
        proof {
            assert forall|k: int| 0 <= k < 16 implies #[trigger] r@[k] == identity_of(4, zero, one)[k] by {
                lemma_slot_split(k, 4);
            }
            assert(r@ =~= identity_of(4, zero, one));
        }
        r
    }

    /// The 3 x 3 matrix left after deleting `row` and `col`, the remaining
    /// rows and columns kept in order.
    pub fn submatrix(&self, row: usize, col: usize) -> (r: Matrix3<T>)
        requires
            row < 4,
            col < 4,
        ensures
            r@ == submatrix_of(self@, 4, row as int, col as int),
    {
        let mut sub = Matrix3::new([self.matrix[0]; 9]);
        let mut i: usize = 0;
        while i < 4
            invariant
                row < 4,
                col < 4,
                i <= 4,
                sub@.len() == 9,
                forall|r: int, c: int|
                    0 <= r < 3 && 0 <= c < 3 && skip(r, row as int) < i ==> #[trigger] entry(
                        sub@,
                        3,
                        r,
                        c,
                    ) == entry(self@, 4, skip(r, row as int), skip(c, col as int)),
            decreases 4 - i,
        {
            let mut j: usize = 0;
            while j < 4
                invariant
                    row < 4,
                    col < 4,
                    i < 4,
                    j <= 4,
                    sub@.len() == 9,
                    forall|r: int, c: int|
                        0 <= r < 3 && 0 <= c < 3 && (skip(r, row as int) < i || (skip(
                            r,
                            row as int,
                        ) == i && skip(c, col as int) < j)) ==> #[trigger] entry(sub@, 3, r, c)
                            == entry(self@, 4, skip(r, row as int), skip(c, col as int)),
                decreases 4 - j,
            {
                if i != row && j != col {
                    let ghost before = sub@;
                    let to_row: usize = if i < row {
                        i
                    } else {
                        i - 1
                    };
                    let to_col: usize = if j < col {
                        j
                    } else {
                        j - 1
                    };
                    sub.write(to_row, to_col, self.element(i, j));
                    assert forall|r: int, c: int|
                        0 <= r < 3 && 0 <= c < 3 && (skip(r, row as int) < i || (skip(
                            r,
                            row as int,
                        ) == i && skip(c, col as int) <= j)) implies #[trigger] entry(sub@, 3, r, c)
                        == entry(self@, 4, skip(r, row as int), skip(c, col as int)) by {
                        if r == to_row && c == to_col {
                            assert(skip(r, row as int) == i && skip(c, col as int) == j);
                        } else {
                            assert(entry(before, 3, r, c) == entry(
                                self@,
                                4,
                                skip(r, row as int),
                                skip(c, col as int),
                            ));
                        }
                    }
                }
                j += 1;
            }
            i += 1;
        }
        proof {
            lemma_submatrix_by_entries(sub@, self@, 4, row as int, col as int);
        }
        sub
    }
}

impl<T: Copy> Matrix<T> for Matrix4<T> {
    open spec fn dim() -> int {
        4
    }

    open spec fn entries(&self) -> Seq<T> {
        self@
    }

    fn element(&self, row: usize, column: usize) -> (r: T) {
        self.matrix[Self::get_index(row, column)]
    }

    fn write(&mut self, row: usize, column: usize, new_val: T) {
        let i = Self::get_index(row, column);
        self.matrix[i] = new_val;
    }

    fn get_index(row: usize, column: usize) -> (r: usize) {
        4 * row + column
    }

    fn transpose(&self) -> (r: Self) {
        let mut transposed = Matrix4::new([self.matrix[0]; 16]);
        let mut row: usize = 0;
        while row < 4
            invariant
                row <= 4,
                transposed@.len() == 16,
                forall|r: int, c: int|
                    0 <= r < row && 0 <= c < 4 ==> #[trigger] entry(transposed@, 4, r, c)
                        == entry(self@, 4, c, r),
            decreases 4 - row,
        {
            let mut col: usize = 0;
            while col < 4
                invariant
                    row < 4,
                    col <= 4,
                    transposed@.len() == 16,
                    forall|r: int, c: int|
                        (0 <= r < row && 0 <= c < 4) || (r == row && 0 <= c < col)
                            ==> #[trigger] entry(transposed@, 4, r, c) == entry(self@, 4, c, r),
                decreases 4 - col,
            {
                let ghost before = transposed@;
                transposed.write(row, col, self.element(col, row));
                assert forall|r: int, c: int|
                    (0 <= r < row && 0 <= c < 4) || (r == row && 0 <= c <= col) implies #[trigger] entry(
                    transposed@,
                    4,
                    r,
                    c,
                ) == entry(self@, 4, c, r) by {
                    if r != row || c != col {
                        assert(entry(before, 4, r, c) == entry(self@, 4, c, r));
                    }
                }
                col += 1;
            }
            row += 1;
        }
        proof {
            lemma_transposed_by_entries(transposed@, self@, 4);
        }
        transposed
    }
}

} // verus!
