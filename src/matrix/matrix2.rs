//! The 2 x 2 matrix.
use crate::matrix::{entry, lemma_transposed_by_entries, Matrix};
use vstd::prelude::*;

verus! {

/// A 2 x 2 matrix, entries in row-major order.
#[derive(Clone, Copy, Debug)]
pub struct Matrix2<T> {
    pub matrix: [T; 4],
}

impl<T> View for Matrix2<T> {
    type V = Seq<T>;

    open spec fn view(&self) -> Seq<T> {
        self.matrix@
    }
}

impl<T: Copy> Matrix2<T> {
    /// The matrix with the given entries, row by row.
    pub fn new(matrix: [T; 4]) -> (r: Self)
        ensures
            r@ == matrix@,
    {
        Matrix2 { matrix }
    }
}

impl<T: Copy> Matrix<T> for Matrix2<T> {
    open spec fn dim() -> int {
        2
    }

    open spec fn entries(&self) -> Seq<T> {
        self@
    }

    fn element(&self, row: usize, column: usize) -> (r: T) {
        self.matrix[Self::get_index(row, column)]
    }

    fn write(&mut self, row: usize, column: usize, new_val: T) {
        let i = Self::get_index(row, column);
        self.matrix[i] = new_val;
    }

    fn get_index(row: usize, column: usize) -> (r: usize) {
        2 * row + column
    }

    fn transpose(&self) -> (r: Self) {
        let mut transposed = Matrix2::new([self.matrix[0]; 4]);
        let mut row: usize = 0;
        while row < 2
            invariant
                row <= 2,
                transposed@.len() == 4,
                forall|r: int, c: int|
                    0 <= r < row && 0 <= c < 2 ==> #[trigger] entry(transposed@, 2, r, c)
                        == entry(self@, 2, c, r),
            decreases 2 - row,
        {
            let mut col: usize = 0;
            while col < 2
                invariant
                    row < 2,
                    col <= 2,
                    transposed@.len() == 4,
                    forall|r: int, c: int|
                        (0 <= r < row && 0 <= c < 2) || (r == row && 0 <= c < col)
                            ==> #[trigger] entry(transposed@, 2, r, c) == entry(self@, 2, c, r),
                decreases 2 - col,
            {
                let ghost before = transposed@;
                transposed.write(row, col, self.element(col, row));
                assert forall|r: int, c: int|
                    (0 <= r < row && 0 <= c < 2) || (r == row && 0 <= c <= col) implies #[trigger] entry(
                    transposed@,
                    2,
                    r,
                    c,
                ) == entry(self@, 2, c, r) by {
                    if r != row || c != col {
                        assert(entry(before, 2, r, c) == entry(self@, 2, c, r));
                    }
                }
                col += 1;
            }
            row += 1;
        }
        proof {
            lemma_transposed_by_entries(transposed@, self@, 2);
        }
        transposed
    }
}

} // verus!
