//! The mathematical model that every kernel is specified against.

use vstd::prelude::*;

verus! {

/// The rows of a dense matrix, each as a sequence.
pub open spec fn rows_of(matrix: &Vec<Vec<i32>>) -> Seq<Seq<i32>> {
    Seq::new(matrix@.len(), |i: int| matrix@[i]@)
}

/// `w` has `n` rows of `n` cells each.
pub open spec fn is_square(w: Seq<Seq<i32>>, n: nat) -> bool {
    &&& w.len() == n
    &&& forall|i: int| 0 <= i < n ==> (#[trigger] w[i]).len() == n
}

/// The number of columns: the length of the first row, and zero where there is no row.
pub open spec fn column_count(w: Seq<Seq<i32>>) -> nat {
    if w.len() == 0 {
        0
    } else {
        w[0].len()
    }
}

/// All rows of `w` have the same length.
pub open spec fn is_rectangular(w: Seq<Seq<i32>>) -> bool {
    forall|i: int| 0 <= i < w.len() ==> (#[trigger] w[i]).len() == column_count(w)
}

/// The rows of `w` one after the other.
pub open spec fn flatten(w: Seq<Seq<i32>>) -> Seq<i32>
    decreases w.len(),
{
    if w.len() == 0 {
        Seq::empty()
    } else {
        flatten(w.drop_last()) + w.last()
    }
}

/// The matrix of `rows` rows and `cols` columns whose cell `(i, j)` is `flat[i * cols + j]`.
pub open spec fn unflatten(flat: Seq<i32>, rows: nat, cols: nat) -> Seq<Seq<i32>> {
    Seq::new(rows, |i: int| Seq::new(cols, |j: int| flat[i * cols + j]))
}

/// What input `i` contributes to output `j`.
pub open spec fn term(a: Seq<i32>, w: Seq<Seq<i32>>, i: int, j: int) -> int {
    a[i] * w[i][j]
}

/// The contributions of the inputs `0 .. upto` to output `j`, summed.
pub open spec fn column_sum(a: Seq<i32>, w: Seq<Seq<i32>>, j: int, upto: int) -> int
    decreases upto,
{
    if upto <= 0 {
        0
    } else {
        column_sum(a, w, j, upto - 1) + term(a, w, upto - 1, j)
    }
}

/// The layer's output: `output[j]` is the sum over all inputs `i` of `a[i] * w[i][j]`.
pub open spec fn layer_output(a: Seq<i32>, w: Seq<Seq<i32>>) -> Seq<int> {
    Seq::new(a.len(), |j: int| column_sum(a, w, j, a.len() as int))
}

/// What input `i` contributes to output `j` when terms with a non-positive weight are
/// left out.
pub open spec fn guarded_term(a: Seq<i32>, w: Seq<Seq<i32>>, i: int, j: int) -> int {
    if w[i][j] > 0 {
        a[i] * w[i][j]
    } else {
        0
    }
}

/// The sum for output `j` over the inputs `0 .. upto` whose weight is positive.
pub open spec fn guarded_column_sum(a: Seq<i32>, w: Seq<Seq<i32>>, j: int, upto: int) -> int
    decreases upto,
{
    if upto <= 0 {
        0
    } else {
        guarded_column_sum(a, w, j, upto - 1) + guarded_term(a, w, upto - 1, j)
    }
}

/// The sum for output `j` over the inputs `0 .. upto` whose weight is not positive: what
/// the guarded sum leaves out.
pub open spec fn dropped_column_sum(a: Seq<i32>, w: Seq<Seq<i32>>, j: int, upto: int) -> int
    decreases upto,
{
    if upto <= 0 {
        0
    } else {
        dropped_column_sum(a, w, j, upto - 1) + term(a, w, upto - 1, j) - guarded_term(
            a,
            w,
            upto - 1,
            j,
        )
    }
}

/// The output with every term of a non-positive weight left out.
pub open spec fn guarded_output(a: Seq<i32>, w: Seq<Seq<i32>>) -> Seq<int> {
    Seq::new(a.len(), |j: int| guarded_column_sum(a, w, j, a.len() as int))
}

/// The elements of an output vector as mathematical integers.
pub open spec fn ints(out: Seq<i128>) -> Seq<int> {
    Seq::new(out.len(), |j: int| out[j] as int)
}

/// The largest magnitude of a product of two samples, `2^62`.
pub open spec fn term_bound() -> int {
    0x4000_0000_0000_0000
}

/// A product of two samples is at most `2^62` in magnitude.
pub proof fn lemma_product_bound(x: i32, y: i32)
    ensures
        -term_bound() <= x * y <= term_bound(),
{
    assert(-0x4000_0000_0000_0000 <= x * y <= 0x4000_0000_0000_0000) by (nonlinear_arith)
        requires
            -0x8000_0000 <= x <= 0x7fff_ffff,
            -0x8000_0000 <= y <= 0x7fff_ffff,
    ;
}

/// A sum of `upto` terms is at most `upto * 2^62` in magnitude, so it fits in an `i128`
/// for every `upto` that fits in a `usize`.
pub proof fn lemma_column_sum_bound(a: Seq<i32>, w: Seq<Seq<i32>>, j: int, upto: int)
    requires
        0 <= upto,
    ensures
        -upto * term_bound() <= column_sum(a, w, j, upto) <= upto * term_bound(),
    decreases upto,
{
    if upto > 0 {
        lemma_column_sum_bound(a, w, j, upto - 1);
        lemma_product_bound(a[upto - 1], w[upto - 1][j]);
        assert((upto - 1) * term_bound() + term_bound() == upto * term_bound())
            by (nonlinear_arith);
    }
}

/// The guarded sum obeys the same bound as the full sum.
pub proof fn lemma_guarded_column_sum_bound(a: Seq<i32>, w: Seq<Seq<i32>>, j: int, upto: int)
    requires
        0 <= upto,
    ensures
        -upto * term_bound() <= guarded_column_sum(a, w, j, upto) <= upto * term_bound(),
    decreases upto,
{
    if upto > 0 {
        lemma_guarded_column_sum_bound(a, w, j, upto - 1);
        lemma_product_bound(a[upto - 1], w[upto - 1][j]);
        assert((upto - 1) * term_bound() + term_bound() == upto * term_bound())
            by (nonlinear_arith);
    }
}

/// Any number of terms that a `usize` can count sums to a value of an `i128`.
pub proof fn lemma_sums_fit(upto: int)
    requires
        0 <= upto <= 0x1_0000_0000_0000_0000,
    ensures
        i128::MIN < -upto * term_bound(),
        upto * term_bound() < i128::MAX,
{
    assert(upto * term_bound() <= 0x1_0000_0000_0000_0000 * 0x4000_0000_0000_0000)
        by (nonlinear_arith)
        requires
            0 <= upto <= 0x1_0000_0000_0000_0000,
            term_bound() == 0x4000_0000_0000_0000,
    ;
}

/// One more input: the sum grows by that input's term, and both sums and the term fit
/// in an `i128`.
pub proof fn lemma_add_term(a: Seq<i32>, w: Seq<Seq<i32>>, j: int, i: int)
    requires
        0 <= i < 0x1_0000_0000_0000_0000,
    ensures
        column_sum(a, w, j, i + 1) == column_sum(a, w, j, i) + a[i] * w[i][j],
        i128::MIN < column_sum(a, w, j, i) < i128::MAX,
        i128::MIN < column_sum(a, w, j, i + 1) < i128::MAX,
        -term_bound() <= a[i] * w[i][j] <= term_bound(),
{
    lemma_column_sum_bound(a, w, j, i);
    lemma_column_sum_bound(a, w, j, i + 1);
    lemma_product_bound(a[i], w[i][j]);
    lemma_sums_fit(i);
    lemma_sums_fit(i + 1);
}

/// The same for the guarded sum.
pub proof fn lemma_add_guarded_term(a: Seq<i32>, w: Seq<Seq<i32>>, j: int, i: int)
    requires
        0 <= i < 0x1_0000_0000_0000_0000,
    ensures
        guarded_column_sum(a, w, j, i + 1) == guarded_column_sum(a, w, j, i) + guarded_term(
            a,
            w,
            i,
            j,
        ),
        i128::MIN < guarded_column_sum(a, w, j, i) < i128::MAX,
        i128::MIN < guarded_column_sum(a, w, j, i + 1) < i128::MAX,
        -term_bound() <= a[i] * w[i][j] <= term_bound(),
{
    lemma_guarded_column_sum_bound(a, w, j, i);
    lemma_guarded_column_sum_bound(a, w, j, i + 1);
    lemma_product_bound(a[i], w[i][j]);
    lemma_sums_fit(i);
    lemma_sums_fit(i + 1);
}

/// A zero input contributes nothing, and neither does a zero weight.
pub proof fn lemma_zero_term(a: Seq<i32>, w: Seq<Seq<i32>>, i: int, j: int)
    requires
        a[i] == 0 || w[i][j] == 0,
    ensures
        term(a, w, i, j) == 0,
{
    assert(a[i] * w[i][j] == 0) by (nonlinear_arith)
        requires
            a[i] == 0 || w[i][j] == 0,
    ;
}

} // verus!
