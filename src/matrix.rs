//! Shared model of an N x N matrix stored row-major in a sequence of N * N
//! entries, and the operations common to every size.
use vstd::arithmetic::div_mod::{lemma_fundamental_div_mod, lemma_fundamental_div_mod_converse};
use vstd::prelude::*;

pub mod matrix2;
pub mod matrix3;
pub mod matrix4;

verus! {

/// Operations shared by the square matrix types: element access by row and
/// column, in-place writes, the row-major index mapping, and transposition.
pub trait Matrix<T: Copy>: Sized {
    /// Number of rows, equal to the number of columns.
    spec fn dim() -> int;

    /// The entries in row-major order.
    spec fn entries(&self) -> Seq<T>;

    /// The value stored at (`row`, `column`).
    fn element(&self, row: usize, column: usize) -> (r: T)
        requires
            row < Self::dim(),
            column < Self::dim(),
        ensures
            r == entry(self.entries(), Self::dim(), row as int, column as int),
    ;

    /// Overwrites the value at (`row`, `column`), leaving every other entry.
    fn write(&mut self, row: usize, column: usize, new_val: T)
        requires
            row < Self::dim(),
            column < Self::dim(),
        ensures
            final(self).entries() == old(self).entries().update(
                slot(Self::dim(), row as int, column as int),
                new_val,
            ),
    ;

    /// The storage slot of (`row`, `column`).
    fn get_index(row: usize, column: usize) -> (r: usize)
        requires
            row < Self::dim(),
            column < Self::dim(),
        ensures
            r == slot(Self::dim(), row as int, column as int),
    ;

    /// A new matrix whose entry at (r, c) is this one's entry at (c, r).
    fn transpose(&self) -> (r: Self)
        ensures
            r.entries() == transposed(self.entries(), Self::dim()),
    ;
}

/// The entry at (`row`, `column`) of a row-major `n` x `n` matrix.
pub open spec fn entry<T>(s: Seq<T>, n: int, row: int, column: int) -> T {
    s[row * n + column]
}

/// Storage slot of (`row`, `column`) in a row-major `n` x `n` matrix.
pub open spec fn slot(n: int, row: int, column: int) -> int {
    row * n + column
}

/// The transpose of the row-major `n` x `n` matrix `s`: slot `k` holds the
/// entry at (`k % n`, `k / n`) of `s`.
pub open spec fn transposed<T>(s: Seq<T>, n: int) -> Seq<T> {
    Seq::new((n * n) as nat, |k: int| entry(s, n, k % n, k / n))
}

/// Index of the source line that lands on line `i` once line `deleted` is
/// removed.
pub open spec fn skip(i: int, deleted: int) -> int {
    if i < deleted {
        i
    } else {
        i + 1
    }
}

/// The `(n - 1)` x `(n - 1)` matrix left after deleting `row` and `col` from
/// the row-major `n` x `n` matrix `s`, relative order kept.
pub open spec fn submatrix_of<T>(s: Seq<T>, n: int, row: int, col: int) -> Seq<T> {
    Seq::new(
        ((n - 1) * (n - 1)) as nat,
        |k: int| entry(s, n, skip(k / (n - 1), row), skip(k % (n - 1), col)),
    )
}

/// The `n` x `n` matrix with `one` on the diagonal and `zero` elsewhere.
pub open spec fn identity_of<T>(n: int, zero: T, one: T) -> Seq<T> {
    Seq::new(
        (n * n) as nat,
        |k: int|
            if k / n == k % n {
                one
            } else {
                zero
            },
    )
}

/// A slot of an `n` x `n` matrix splits into its row and column.
pub proof fn lemma_slot_split(k: int, n: int)
    requires
        n > 0,
        0 <= k < n * n,
    ensures
        0 <= k / n < n,
        0 <= k % n < n,
        k == slot(n, k / n, k % n),
{
    lemma_fundamental_div_mod(k, n);
    assert(0 <= k % n < n) by (nonlinear_arith)
        requires
            n > 0,
    ;
    assert(0 <= k / n < n) by (nonlinear_arith)
        requires
            n > 0,
            0 <= k < n * n,
            k == n * (k / n) + (k % n),
            0 <= k % n < n,
    ;
    assert(k == (k / n) * n + k % n) by (nonlinear_arith)
        requires
            k == n * (k / n) + (k % n),
    ;
}

/// Row and column of an `n` x `n` matrix give back a single slot.
pub proof fn lemma_slot_parts(n: int, row: int, column: int)
    requires
        0 <= row < n,
        0 <= column < n,
    ensures
        0 <= slot(n, row, column) < n * n,
        slot(n, row, column) / n == row,
        slot(n, row, column) % n == column,
{
    lemma_fundamental_div_mod_converse(row * n + column, n, row, column);
    assert(0 <= row * n + column < n * n) by (nonlinear_arith)
        requires
            0 <= row < n,
            0 <= column < n,
    ;
}

/// A sequence whose entries are those of `s` mirrored across the diagonal is
/// the transpose of `s`.
pub proof fn lemma_transposed_by_entries<T>(t: Seq<T>, s: Seq<T>, n: int)
    requires
        n > 0,
        t.len() == n * n,
        forall|r: int, c: int|
            0 <= r < n && 0 <= c < n ==> #[trigger] entry(t, n, r, c) == entry(s, n, c, r),
    ensures
        t == transposed(s, n),
{
    assert forall|k: int| 0 <= k < n * n implies t[k] == transposed(s, n)[k] by {
        lemma_slot_split(k, n);
        assert(entry(t, n, k / n, k % n) == entry(s, n, k % n, k / n));
    }
    assert(t =~= transposed(s, n));
}

/// A sequence whose entries are those of `s` with `row` and `col` deleted is
/// the submatrix of `s` at (`row`, `col`).
pub proof fn lemma_submatrix_by_entries<T>(t: Seq<T>, s: Seq<T>, n: int, row: int, col: int)
    requires
        n > 1,
        t.len() == (n - 1) * (n - 1),
        forall|r: int, c: int|
            0 <= r < n - 1 && 0 <= c < n - 1 ==> #[trigger] entry(t, n - 1, r, c) == entry(
                s,
                n,
                skip(r, row),
                skip(c, col),
            ),
    ensures
        t == submatrix_of(s, n, row, col),
{
    assert forall|k: int| 0 <= k < (n - 1) * (n - 1) implies t[k] == submatrix_of(
        s,
        n,
        row,
        col,
    )[k] by {
        lemma_slot_split(k, n - 1);
        assert(entry(t, n - 1, k / (n - 1), k % (n - 1)) == entry(
            s,
            n,
            skip(k / (n - 1), row),
            skip(k % (n - 1), col),
        ));
    }
    assert(t =~= submatrix_of(s, n, row, col));
}

/// Transposing twice gives back the matrix: for every row-major `n` x `n`
/// matrix `s`, the transpose of its transpose is `s`.
pub proof fn lemma_transpose_twice<T>(s: Seq<T>, n: int)
    requires
        n > 0,
        s.len() == n * n,
    ensures
        transposed(transposed(s, n), n) == s,
{
    let t = transposed(s, n);
    assert forall|k: int| 0 <= k < n * n implies #[trigger] transposed(t, n)[k] == s[k] by {
        lemma_slot_split(k, n);
        lemma_slot_parts(n, k % n, k / n);
    }
    assert(transposed(t, n) =~= s);
}

/// The identity matrix is its own transpose, whatever values stand for zero
/// and one.
pub proof fn lemma_identity_symmetric<T>(n: int, zero: T, one: T)
    requires
        n > 0,
    ensures
        transposed(identity_of(n, zero, one), n) == identity_of(n, zero, one),
{
    let id = identity_of(n, zero, one);
    assert forall|k: int| 0 <= k < n * n implies #[trigger] transposed(id, n)[k] == id[k] by {
        lemma_slot_split(k, n);
        lemma_slot_parts(n, k % n, k / n);
    }
    assert(transposed(id, n) =~= id);
}

} // verus!
