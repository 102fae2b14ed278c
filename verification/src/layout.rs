//! Conversions between the dense and the flattened layout of a matrix.

use vstd::prelude::*;
use crate::error::KernelError;
use crate::model::{column_count, flatten, is_rectangular, rows_of, unflatten};

verus! {

/// A rectangular matrix flattens to `rows * cols` cells.
pub proof fn lemma_flatten_len(w: Seq<Seq<i32>>)
    requires
        is_rectangular(w),
    ensures
        flatten(w).len() == w.len() * column_count(w),
    decreases w.len(),
{
    let c = column_count(w) as int;
    let r = w.len() as int;
    if r == 0 {
        assert(0 * c == 0) by (nonlinear_arith);
    } else {
        lemma_drop_last_rectangular(w);
        lemma_flatten_len(w.drop_last());
        assert(w.last().len() == c);
        if r == 1 {
            assert(0 * c + c == 1 * c) by (nonlinear_arith);
        } else {
            assert(w.drop_last()[0] == w[0]);
            assert((r - 1) * c + c == r * c) by (nonlinear_arith);
        }
    }
}

proof fn lemma_drop_last_rectangular(w: Seq<Seq<i32>>)
    requires
        is_rectangular(w),
        w.len() > 0,
    ensures
        is_rectangular(w.drop_last()),
        w.len() > 1 ==> column_count(w.drop_last()) == column_count(w),
{
    let init = w.drop_last();
    if w.len() > 1 {
        assert(init[0] == w[0]);
    }
    assert forall|i: int| 0 <= i < init.len() implies (#[trigger] init[i]).len() == column_count(
        init,
    ) by {
        assert(init[i] == w[i]);
    }
}

/// In the flattened form of a rectangular matrix the cell `(i, j)` stands at index
/// `i * cols + j`.
pub proof fn lemma_flatten_index(w: Seq<Seq<i32>>, i: int, j: int)
    requires
        is_rectangular(w),
        0 <= i < w.len(),
        0 <= j < column_count(w),
    ensures
        0 <= i * column_count(w) + j < flatten(w).len(),
        flatten(w)[i * column_count(w) + j] == w[i][j],
    decreases w.len(),
{
    let c = column_count(w) as int;
    let r = w.len() as int;
    let init = w.drop_last();
    lemma_flatten_len(w);
    lemma_drop_last_rectangular(w);
    lemma_flatten_len(init);
    assert(w.last().len() == c);
    if i < r - 1 {
        assert(init[i] == w[i]);
        lemma_flatten_index(init, i, j);
    } else {
        if r == 1 {
            assert(0 * c == 0) by (nonlinear_arith);
        } else {
            assert(init[0] == w[0]);
        }
        assert(flatten(init).len() == i * c);
        assert(i * c + c == r * c) by (nonlinear_arith)
            requires i + 1 == r;
        assert(flatten(w)[i * c + j] == w.last()[j]);
    }
}

/// Flattening a rectangular matrix and cutting the result into rows of the same width
/// gives the matrix back.
pub proof fn lemma_unflatten_flatten(w: Seq<Seq<i32>>)
    requires
        is_rectangular(w),
    ensures
        unflatten(flatten(w), w.len(), column_count(w)) == w,
{
    let c = column_count(w);
    let back = unflatten(flatten(w), w.len(), c);
    assert forall|i: int| 0 <= i < w.len() implies back[i] == w[i] by {
        assert forall|j: int| 0 <= j < c implies back[i][j] == w[i][j] by {
            lemma_flatten_index(w, i, j);
        }
        assert(back[i] =~= w[i]);
    }
    assert(back =~= w);
}

/// Cutting `rows * cols` cells into rows and flattening those gives the cells back.
pub proof fn lemma_flatten_unflatten(flat: Seq<i32>, rows: nat, cols: nat)
    requires
        flat.len() == rows * cols,
    ensures
        flatten(unflatten(flat, rows, cols)) == flat,
{
    lemma_flatten_prefix(flat, rows, cols);
    assert(flat.take((rows * cols) as int) =~= flat);
}

proof fn lemma_flatten_prefix(flat: Seq<i32>, rows: nat, cols: nat)
    requires
        rows * cols <= flat.len(),
    ensures
        flatten(unflatten(flat, rows, cols)) == flat.take((rows * cols) as int),
    decreases rows,
{
    let w = unflatten(flat, rows, cols);
    if rows == 0 {
        assert(0 * cols == 0) by (nonlinear_arith);
        assert(flatten(w) =~= flat.take(0));
    } else {
        let r1 = (rows - 1) as nat;
        assert(r1 * cols + cols == rows * cols) by (nonlinear_arith)
            requires r1 + 1 == rows;
        assert(0 <= r1 * cols) by (nonlinear_arith);
        assert(w.drop_last() =~= unflatten(flat, r1, cols));
        lemma_flatten_prefix(flat, r1, cols);
        assert(w.last() =~= flat.subrange((r1 * cols) as int, (rows * cols) as int));
        assert(flat.take((r1 * cols) as int) + flat.subrange((r1 * cols) as int, (rows * cols) as int)
            =~= flat.take((rows * cols) as int));
    }
}

/// Whether all rows of `matrix` have the same length.
pub fn is_uniform(matrix: &Vec<Vec<i32>>) -> (b: bool)
    ensures
        b == is_rectangular(rows_of(matrix)),
{
    if matrix.len() == 0 {
        return true;
    }
    let cols: usize = matrix[0].len();
    assert(column_count(rows_of(matrix)) == cols);
    let mut i: usize = 0;
    while i < matrix.len()
        invariant
            i <= matrix.len(),
            column_count(rows_of(matrix)) == cols,
            forall|k: int| 0 <= k < i ==> (#[trigger] rows_of(matrix)[k]).len() == cols,
        decreases matrix.len() - i,
    {
        if matrix[i].len() != cols {
            assert(rows_of(matrix)[i as int].len() != cols);
            return false;
        }
        i += 1;
    }
    true
}

/// Cuts a flat sequence into `n` rows of `n` cells. The sequence must hold exactly
/// `n * n` cells.
pub fn flat_vector_to_matrix(n: usize, flat_vector: &Vec<i32>) -> (result: Result<Vec<Vec<i32>>, KernelError>)
    ensures
        result is Ok <==> flat_vector@.len() == n * n,
        result matches Ok(matrix) ==> rows_of(&matrix) == unflatten(flat_vector@, n as nat, n as nat),
        result matches Err(e) ==> e == KernelError::DimensionMismatch,
{
    let len: usize = flat_vector.len();
    match n.checked_mul(n) {
        None => {
            return Err(KernelError::DimensionMismatch);
        },
        Some(cells) => {
            if len != cells {
                return Err(KernelError::DimensionMismatch);
            }
        },
    }
    let mut matrix: Vec<Vec<i32>> = Vec::new();
    let mut i: usize = 0;
    while i < n
        invariant
            i <= n,
            flat_vector@.len() == n * n,
            n * n <= usize::MAX,
            matrix@.len() == i,
            forall|k: int| 0 <= k < i ==> (#[trigger] matrix@[k])@ == unflatten(flat_vector@, n as nat, n as nat)[k],
        decreases n - i,
    {
        let mut row: Vec<i32> = Vec::new();
        let mut j: usize = 0;
        while j < n
            invariant
                i < n,
                j <= n,
                flat_vector@.len() == n * n,
                n * n <= usize::MAX,
                row@.len() == j,
                forall|k: int| 0 <= k < j ==> row@[k] == flat_vector@[i * n + k],
            decreases n - j,
        {
            assert(0 <= i * n && i * n + j < n * n) by (nonlinear_arith)
                requires 0 <= i < n, 0 <= j < n;
            row.push(flat_vector[i * n + j]);
            j += 1;
        }
        assert(row@ =~= unflatten(flat_vector@, n as nat, n as nat)[i as int]);
        matrix.push(row);
        i += 1;
    }
    assert(rows_of(&matrix) =~= unflatten(flat_vector@, n as nat, n as nat));
    Ok(matrix)
}

/// The rows of a dense matrix one after the other. Rows of unequal length are refused.
pub fn to_flattened(matrix: &Vec<Vec<i32>>) -> (result: Result<Vec<i32>, KernelError>)
    ensures
        result is Ok <==> is_rectangular(rows_of(matrix)),
        result matches Ok(flat) ==> flat@ == flatten(rows_of(matrix)),
        result matches Err(e) ==> e == KernelError::ConversionError,
{
    if !is_uniform(matrix) {
        return Err(KernelError::ConversionError);
    }
    let ghost w = rows_of(matrix);
    let mut flat: Vec<i32> = Vec::new();
    let mut i: usize = 0;
    assert(w.take(0) =~= Seq::<Seq<i32>>::empty());
    while i < matrix.len()
        invariant
            i <= matrix.len(),
            w == rows_of(matrix),
            flat@ == flatten(w.take(i as int)),
        decreases matrix.len() - i,
    {
        let row: &Vec<i32> = &matrix[i];
        let ghost before = flat@;
        let mut j: usize = 0;
        while j < row.len()
            invariant
                j <= row.len(),
                flat@ == before + row@.take(j as int),
            decreases row.len() - j,
        {
            flat.push(row[j]);
            assert(row@.take(j + 1) =~= row@.take(j as int).push(row@[j as int]));
            j += 1;
        }
        proof {
            assert(row@.take(row@.len() as int) =~= row@);
            let next = w.take(i + 1);
            assert(next.drop_last() =~= w.take(i as int));
            assert(next.last() == row@);
        }
        i += 1;
    }
    assert(w.take(matrix@.len() as int) =~= w);
    Ok(flat)
}

} // verus!
