//! The fraction of exact zeros in a vector or a matrix.

use vstd::prelude::*;
use crate::error::KernelError;
use crate::model::flatten;
use crate::sparse::{
    ascending, entry_count, expand_row, expand_rows, lemma_row_cell_absent, valid_row,
    SparseMatrix,
};

verus! {

/// An exact fraction between zero and one: `numerator / denominator` with
/// `numerator <= denominator` and a denominator that is not zero.
#[derive(Debug, Clone, Copy, PartialEq, Eq)]
pub struct Ratio {
    numerator: u128,
    denominator: u128,
}

impl Ratio {
    /// The part.
    pub closed spec fn part(&self) -> nat {
        self.numerator as nat
    }

    /// The whole.
    pub closed spec fn whole(&self) -> nat {
        self.denominator as nat
    }

    /// The fraction is a number in `[0, 1]`.
    #[verifier::type_invariant]
    pub closed spec fn in_unit_interval(&self) -> bool {
        self.numerator <= self.denominator && self.denominator > 0
    }

    /// The fraction `numerator / denominator`, where that is a number in `[0, 1]`.
    pub fn new(numerator: u128, denominator: u128) -> (result: Result<Ratio, KernelError>)
        ensures
            result is Ok <==> numerator <= denominator && denominator > 0,
            result matches Ok(ratio) ==> ratio.part() == numerator && ratio.whole() == denominator,
            result matches Err(e) ==> e == KernelError::ConfigurationError,
    {
        if numerator <= denominator && denominator > 0 {
            Ok(Ratio { numerator, denominator })
        } else {
            Err(KernelError::ConfigurationError)
        }
    }

    /// The part.
    pub fn numerator(&self) -> (n: u128)
        ensures
            n == self.part(),
            n <= self.whole(),
    {
        proof {
            use_type_invariant(self);
        }
        self.numerator
    }

    /// The whole, never zero.
    pub fn denominator(&self) -> (d: u128)
        ensures
            d == self.whole(),
            d > 0,
    {
        proof {
            use_type_invariant(self);
        }
        self.denominator
    }

    /// Whether the fraction is exactly zero.
    pub fn is_zero(&self) -> (b: bool)
        ensures
            b <==> self.part() == 0,
    {
        self.numerator == 0
    }

    /// Whether the fraction is exactly one.
    pub fn is_one(&self) -> (b: bool)
        ensures
            b <==> self.part() == self.whole(),
    {
        self.numerator == self.denominator
    }
}

/// The number of elements of `v` that are exactly zero.
pub open spec fn zero_count(v: Seq<i32>) -> nat
    decreases v.len(),
{
    if v.len() == 0 {
        0
    } else {
        zero_count(v.drop_last()) + if v.last() == 0 {
            1nat
        } else {
            0nat
        }
    }
}

/// The zeros are at most all elements; they are all elements exactly when every element
/// is zero, and none exactly when no element is.
pub proof fn lemma_zero_count(v: Seq<i32>)
    ensures
        zero_count(v) <= v.len(),
        zero_count(v) == v.len() <==> forall|i: int| 0 <= i < v.len() ==> v[i] == 0,
        zero_count(v) == 0 <==> forall|i: int| 0 <= i < v.len() ==> v[i] != 0,
    decreases v.len(),
{
    if v.len() > 0 {
        let init = v.drop_last();
        lemma_zero_count(init);
        assert(v.last() == v[v.len() - 1]);
        assert forall|i: int| 0 <= i < init.len() implies init[i] == v[i] by {}
        if forall|i: int| 0 <= i < v.len() ==> v[i] == 0 {
            assert forall|i: int| 0 <= i < init.len() implies init[i] == 0 by {
                assert(init[i] == v[i]);
            }
        }
        if forall|i: int| 0 <= i < v.len() ==> v[i] != 0 {
            assert forall|i: int| 0 <= i < init.len() implies init[i] != 0 by {
                assert(init[i] == v[i]);
            }
        }
        if zero_count(v) == v.len() {
            assert forall|i: int| 0 <= i < v.len() implies v[i] == 0 by {
                if i < init.len() {
                    assert(init[i] == v[i]);
                }
            }
        }
        if zero_count(v) == 0 {
            assert forall|i: int| 0 <= i < v.len() implies v[i] != 0 by {
                if i < init.len() {
                    assert(init[i] == v[i]);
                }
            }
        }
    }
}

/// The sparsity of a vector: its zeros over its length. An empty vector has none.
pub fn calculate_sparsity_vector(vector: &Vec<i32>) -> (result: Option<Ratio>)
    ensures
        result is Some <==> vector@.len() > 0,
        result matches Some(ratio) ==> {
            &&& ratio.part() == zero_count(vector@)
            &&& ratio.whole() == vector@.len()
            &&& ratio.part() <= ratio.whole()
        },
{
    let len: usize = vector.len();
    if len == 0 {
        return None;
    }
    let mut zeros: usize = 0;
    let mut i: usize = 0;
    assert(vector@.take(0) =~= Seq::<i32>::empty());
    proof {
        lemma_zero_count(vector@);
    }
    while i < len
        invariant
            i <= len,
            len == vector@.len(),
            zeros == zero_count(vector@.take(i as int)),
            zeros <= i,
        decreases len - i,
    {
        proof {
            let next = vector@.take(i + 1);
            assert(next.drop_last() =~= vector@.take(i as int));
            assert(next.last() == vector@[i as int]);
        }
        if vector[i] == 0 {
            zeros += 1;
        }
        i += 1;
    }
    assert(vector@.take(len as int) =~= vector@);
    Some(Ratio { numerator: zeros as u128, denominator: len as u128 })
}

/// In a valid row the column at index `k` is at least `k`.
proof fn lemma_ascending_grows(row: Seq<(int, int)>, cols: int, k: int)
    requires
        valid_row(row, cols),
        0 <= k < row.len(),
    ensures
        row[k].0 >= k,
    decreases k,
{
    if k > 0 {
        lemma_ascending_grows(row, cols, k - 1);
        assert(row[k - 1].0 < row[k].0);
    }
}

/// Valid rows of `cols` columns store at most `cols` entries each.
pub proof fn lemma_stored_at_most_cells(rows: Seq<Seq<(int, int)>>, cols: int)
    requires
        0 <= cols,
        forall|i: int| 0 <= i < rows.len() ==> valid_row(#[trigger] rows[i], cols),
    ensures
        0 <= entry_count(rows) <= rows.len() * cols,
    decreases rows.len(),
{
    if rows.len() == 0 {
        assert(0 * cols == 0) by (nonlinear_arith);
    } else {
        let init = rows.drop_last();
        assert forall|i: int| 0 <= i < init.len() implies valid_row(#[trigger] init[i], cols) by {
            assert(init[i] == rows[i]);
        }
        lemma_stored_at_most_cells(init, cols);
        let last = rows.last();
        assert(last == rows[rows.len() - 1]);
        if last.len() > 0 {
            lemma_ascending_grows(last, cols, last.len() - 1);
        }
        assert((rows.len() - 1) * cols + cols == rows.len() * cols) by (nonlinear_arith);
    }
}

/// The zeros of two sequences joined are the zeros of both.
pub proof fn lemma_zero_count_concat(s: Seq<i32>, t: Seq<i32>)
    ensures
        zero_count(s + t) == zero_count(s) + zero_count(t),
    decreases t.len(),
{
    if t.len() == 0 {
        assert(s + t =~= s);
    } else {
        lemma_zero_count_concat(s, t.drop_last());
        assert((s + t).drop_last() =~= s + t.drop_last());
        assert((s + t).last() == t.last());
    }
}

/// A valid row of `cols` columns has a zero cell for each column that it does not store.
pub proof fn lemma_row_zeros(row: Seq<(int, int)>, cols: int)
    requires
        0 <= cols,
        valid_row(row, cols),
    ensures
        zero_count(expand_row(row, cols)) == cols - row.len(),
    decreases cols,
{
    let dense = expand_row(row, cols);
    if cols == 0 {
        if row.len() > 0 {
            assert(0 <= row[0].0 < cols);
        }
        assert(dense =~= Seq::<i32>::empty());
    } else {
        let last_col = cols - 1;
        if row.len() > 0 && row.last().0 == last_col {
            let init = row.drop_last();
            assert forall|k: int| 0 <= k < init.len() implies 0 <= (#[trigger] init[k]).0 < last_col
                && init[k].1 != 0 && i32::MIN <= init[k].1 <= i32::MAX by {
                assert(init[k] == row[k]);
                assert(row[k].0 < row[row.len() - 1].0);
            }
            assert(ascending(init)) by {
                assert forall|p: int, q: int|
                    #![trigger init[p], init[q]]
                    0 <= p < q < init.len() implies init[p].0 < init[q].0 by {
                    assert(init[p] == row[p] && init[q] == row[q]);
                }
            }
            lemma_row_zeros(init, last_col);
            assert(dense.drop_last() =~= expand_row(init, last_col));
            assert(row.last() == row[row.len() - 1]);
            assert(dense.last() == row.last().1 as i32);
        } else {
            assert forall|k: int| 0 <= k < row.len() implies 0 <= (#[trigger] row[k]).0 < last_col by {
                if k < row.len() - 1 {
                    assert(row[k].0 < row[row.len() - 1].0);
                } else {
                    assert(row[k] == row.last());
                }
            }
            lemma_row_zeros(row, last_col);
            assert(dense.drop_last() =~= expand_row(row, last_col));
            assert forall|k: int| 0 <= k < row.len() implies (#[trigger] row[k]).0 != last_col by {}
            lemma_row_cell_absent(row, last_col);
            assert(dense.last() == 0);
        }
    }
}

/// The cells that valid rows do not store are exactly the zero cells of the matrix that
/// they stand for.
pub proof fn lemma_unstored_cells_are_zeros(rows: Seq<Seq<(int, int)>>, cols: int)
    requires
        0 <= cols,
        forall|i: int| 0 <= i < rows.len() ==> valid_row(#[trigger] rows[i], cols),
    ensures
        zero_count(flatten(expand_rows(rows, cols))) == rows.len() * cols - entry_count(rows),
    decreases rows.len(),
{
    let dense = expand_rows(rows, cols);
    if rows.len() == 0 {
        assert(0 * cols == 0) by (nonlinear_arith);
        assert(flatten(dense) =~= Seq::<i32>::empty());
    } else {
        let init = rows.drop_last();
        assert forall|i: int| 0 <= i < init.len() implies valid_row(#[trigger] init[i], cols) by {
            assert(init[i] == rows[i]);
        }
        lemma_unstored_cells_are_zeros(init, cols);
        assert(dense.drop_last() =~= expand_rows(init, cols));
        assert(rows.last() == rows[rows.len() - 1]);
        assert(dense.last() == expand_row(rows.last(), cols));
        lemma_row_zeros(rows.last(), cols);
        lemma_zero_count_concat(flatten(dense.drop_last()), dense.last());
        assert((rows.len() - 1) * cols + cols == rows.len() * cols) by (nonlinear_arith);
    }
}

/// The sparsity of a matrix in compressed form: one minus the stored entries over the
/// number of cells, which is the cells that are not stored over all cells. A matrix
/// without cells has none.
pub fn calculate_sparsity_matrix(matrix: &SparseMatrix) -> (result: Option<Ratio>)
    ensures
        result is Some <==> matrix.row_count() * matrix.col_count() > 0,
        result matches Some(ratio) ==> {
            &&& ratio.whole() == matrix.row_count() * matrix.col_count()
            &&& ratio.part() == matrix.row_count() * matrix.col_count() - matrix.stored()
            &&& ratio.part() == zero_count(flatten(matrix.expand()))
            &&& ratio.part() <= ratio.whole()
        },
{
    let rows: usize = matrix.rows();
    let cols: usize = matrix.cols();
    let stored: usize = matrix.nnz();
    proof {
        use_type_invariant(matrix);
        lemma_stored_at_most_cells(matrix.entries(), matrix.col_count());
        lemma_unstored_cells_are_zeros(matrix.entries(), matrix.col_count());
        assert(0 <= rows * cols <= 0xffff_ffff_ffff_ffff * 0xffff_ffff_ffff_ffff) by (nonlinear_arith)
            requires
                0 <= rows <= 0xffff_ffff_ffff_ffff,
                0 <= cols <= 0xffff_ffff_ffff_ffff,
        ;
    }
    let cells: u128 = (rows as u128) * (cols as u128);
    if cells == 0 {
        return None;
    }
    Some(Ratio { numerator: cells - (stored as u128), denominator: cells })
}

} // verus!
