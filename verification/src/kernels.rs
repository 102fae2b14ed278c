//! The kernels: interchangeable ways of computing the layer's output.

use vstd::prelude::*;
use crate::error::KernelError;
use crate::lanes::{lane_count, lane_outputs_in_parallel, lane_sum, lemma_lanes_cover_column};
use crate::model::{
    column_sum, guarded_column_sum, guarded_output, ints, is_square, layer_output, lemma_add_guarded_term,
    lemma_add_term, lemma_guarded_column_sum_bound, lemma_product_bound, lemma_sums_fit,
    lemma_zero_term, rows_of, term, term_bound, unflatten,
};

verus! {

/// Whether `matrix` has `n` rows of `n` cells.
pub fn has_rank(matrix: &Vec<Vec<i32>>, n: usize) -> (b: bool)
    ensures
        b == is_square(rows_of(matrix), n as nat),
{
    if matrix.len() != n {
        return false;
    }
    let mut i: usize = 0;
    while i < n
        invariant
            i <= n,
            matrix@.len() == n,
            forall|k: int| 0 <= k < i ==> (#[trigger] rows_of(matrix)[k]).len() == n,
        decreases n - i,
    {
        if matrix[i].len() != n {
            assert(rows_of(matrix)[i as int].len() != n);
            return false;
        }
        i += 1;
    }
    true
}

/// One step of the row-wise sum: each running sum with its cell of the row, scaled.
fn add_scaled_row(sums: &Vec<i128>, scale: i32, row: &Vec<i32>) -> (out: Vec<i128>)
    requires
        sums@.len() == row@.len(),
        forall|j: int|
            0 <= j < row@.len() ==> i128::MIN <= #[trigger] sums@[j] + scale * row@[j] <= i128::MAX,
    ensures
        out@.len() == row@.len(),
        forall|j: int| 0 <= j < row@.len() ==> #[trigger] out@[j] == sums@[j] + scale * row@[j],
{
    let mut out: Vec<i128> = Vec::new();
    let mut j: usize = 0;
    while j < row.len()
        invariant
            j <= row@.len(),
            sums@.len() == row@.len(),
            out@.len() == j,
            forall|k: int|
                0 <= k < row@.len() ==> i128::MIN <= #[trigger] sums@[k] + scale * row@[k]
                    <= i128::MAX,
            forall|k: int| 0 <= k < j ==> #[trigger] out@[k] == sums@[k] + scale * row@[k],
        decreases row.len() - j,
    {
        proof {
            lemma_product_bound(scale, row@[j as int]);
            assert(i128::MIN <= sums@[j as int] + scale * row@[j as int] <= i128::MAX);
        }
        out.push(sums[j] + (scale as i128) * (row[j] as i128));
        j += 1;
    }
    out
}

/// The same step with the guard: a cell that is not positive leaves its sum as it was.
fn add_scaled_row_where_positive(sums: &Vec<i128>, scale: i32, row: &Vec<i32>) -> (out: Vec<i128>)
    requires
        sums@.len() == row@.len(),
        forall|j: int|
            0 <= j < row@.len() ==> i128::MIN <= #[trigger] sums@[j] + scale * row@[j] <= i128::MAX,
    ensures
        out@.len() == row@.len(),
        forall|j: int|
            0 <= j < row@.len() ==> #[trigger] out@[j] == if row@[j] > 0 {
                sums@[j] + scale * row@[j]
            } else {
                sums@[j] as int
            },
{
    let mut out: Vec<i128> = Vec::new();
    let mut j: usize = 0;
    while j < row.len()
        invariant
            j <= row@.len(),
            sums@.len() == row@.len(),
            out@.len() == j,
            forall|k: int|
                0 <= k < row@.len() ==> i128::MIN <= #[trigger] sums@[k] + scale * row@[k]
                    <= i128::MAX,
            forall|k: int|
                0 <= k < j ==> #[trigger] out@[k] == if row@[k] > 0 {
                    sums@[k] + scale * row@[k]
                } else {
                    sums@[k] as int
                },
        decreases row.len() - j,
    {
        if row[j] > 0 {
            proof {
                lemma_product_bound(scale, row@[j as int]);
                assert(i128::MIN <= sums@[j as int] + scale * row@[j as int] <= i128::MAX);
            }
            out.push(sums[j] + (scale as i128) * (row[j] as i128));
        } else {
            out.push(sums[j]);
        }
        j += 1;
    }
    out
}

/// Basic map: the rows, each scaled by its input, are summed cell by cell into the
/// output. No term is skipped.
pub fn dot_product(vec: &Vec<i32>, matrix: &Vec<Vec<i32>>) -> (result: Result<Vec<i128>, KernelError>)
    ensures
        result is Ok <==> is_square(rows_of(matrix), vec@.len()),
        result matches Ok(out) ==> ints(out@) == layer_output(vec@, rows_of(matrix)),
        result matches Err(e) ==> e == KernelError::DimensionMismatch,
{
    let n: usize = vec.len();
    if !has_rank(matrix, n) {
        return Err(KernelError::DimensionMismatch);
    }
    let ghost a = vec@;
    let ghost w = rows_of(matrix);
    let mut sums: Vec<i128> = vec![0i128; n];
    let mut i: usize = 0;
    while i < n
        invariant
            i <= n,
            a == vec@,
            w == rows_of(matrix),
            a.len() == n,
            is_square(w, n as nat),
            sums@.len() == n,
            forall|j: int| 0 <= j < n ==> sums@[j] == column_sum(a, w, j, i as int),
        decreases n - i,
    {
        let row: &Vec<i32> = &matrix[i];
        proof {
            assert(row@ == w[i as int]);
            assert forall|j: int| 0 <= j < row@.len() implies i128::MIN <= #[trigger] sums@[j]
                + vec@[i as int] * row@[j] <= i128::MAX by {
                lemma_add_term(a, w, j, i as int);
            }
        }
        let next: Vec<i128> = add_scaled_row(&sums, vec[i], row);
        proof {
            assert forall|j: int| 0 <= j < n implies next@[j] == column_sum(a, w, j, i + 1) by {
                lemma_add_term(a, w, j, i as int);
            }
        }
        sums = next;
        i += 1;
    }
    assert(ints(sums@) =~= layer_output(a, w));
    Ok(sums)
}

/// Map with check: the row-wise sum of [`dot_product`], but a term is added only where
/// its weight is positive.
///
/// This is not the layer's output. A term with a negative weight and a non-zero input is
/// dropped although it is not zero, so the result is [`guarded_output`], which equals
/// [`layer_output`] only where all dropped terms cancel. It is kept for comparison.
pub fn optimized_dot_product(vec: &Vec<i32>, matrix: &Vec<Vec<i32>>) -> (result: Result<Vec<i128>, KernelError>)
    ensures
        result is Ok <==> is_square(rows_of(matrix), vec@.len()),
        result matches Ok(out) ==> ints(out@) == guarded_output(vec@, rows_of(matrix)),
        result matches Err(e) ==> e == KernelError::DimensionMismatch,
{
    let n: usize = vec.len();
    if !has_rank(matrix, n) {
        return Err(KernelError::DimensionMismatch);
    }
    let ghost a = vec@;
    let ghost w = rows_of(matrix);
    let mut sums: Vec<i128> = vec![0i128; n];
    let mut i: usize = 0;
    while i < n
        invariant
            i <= n,
            a == vec@,
            w == rows_of(matrix),
            a.len() == n,
            is_square(w, n as nat),
            sums@.len() == n,
            forall|j: int| 0 <= j < n ==> sums@[j] == guarded_column_sum(a, w, j, i as int),
        decreases n - i,
    {
        let row: &Vec<i32> = &matrix[i];
        proof {
            assert(row@ == w[i as int]);
            assert forall|j: int| 0 <= j < row@.len() implies i128::MIN <= #[trigger] sums@[j]
                + vec@[i as int] * row@[j] <= i128::MAX by {
                lemma_add_guarded_term(a, w, j, i as int);
                lemma_sums_fit(i + 1);
                lemma_guarded_column_sum_bound(a, w, j, i as int);
                assert((i + 1) * term_bound() == i * term_bound() + term_bound())
                    by (nonlinear_arith);
            }
        }
        let next: Vec<i128> = add_scaled_row_where_positive(&sums, vec[i], row);
        proof {
            assert forall|j: int| 0 <= j < n implies next@[j] == guarded_column_sum(
                a,
                w,
                j,
                i + 1,
            ) by {
                lemma_add_guarded_term(a, w, j, i as int);
            }
        }
        sums = next;
        i += 1;
    }
    assert(ints(sums@) =~= guarded_output(a, w));
    Ok(sums)
}

/// Basic loop: nested iteration over the dense matrix, every term added.
pub fn dot_product_loop(activation_in: &Vec<i32>, weights_matrix: &Vec<Vec<i32>>, n: usize) -> (result: Result<Vec<i128>, KernelError>)
    ensures
        result is Ok <==> activation_in@.len() == n && is_square(rows_of(weights_matrix), n as nat),
        result matches Ok(out) ==> ints(out@) == layer_output(activation_in@, rows_of(weights_matrix)),
        result matches Err(e) ==> e == KernelError::DimensionMismatch,
{
    if activation_in.len() != n || !has_rank(weights_matrix, n) {
        return Err(KernelError::DimensionMismatch);
    }
    let ghost a = activation_in@;
    let ghost w = rows_of(weights_matrix);
    let mut activation_out: Vec<i128> = vec![0i128; n];
    let mut i: usize = 0;
    while i < n
        invariant
            i <= n,
            a == activation_in@,
            w == rows_of(weights_matrix),
            a.len() == n,
            is_square(w, n as nat),
            activation_out@.len() == n,
            forall|j: int| 0 <= j < n ==> activation_out@[j] == column_sum(a, w, j, i as int),
        decreases n - i,
    {
        let mut j: usize = 0;
        while j < n
            invariant
                i < n,
                j <= n,
                a == activation_in@,
                w == rows_of(weights_matrix),
                a.len() == n,
                is_square(w, n as nat),
                activation_out@.len() == n,
                forall|k: int| 0 <= k < j ==> activation_out@[k] == column_sum(a, w, k, i + 1),
                forall|k: int| j <= k < n ==> activation_out@[k] == column_sum(a, w, k, i as int),
            decreases n - j,
        {
            proof {
                lemma_add_term(a, w, j as int, i as int);
                assert(w[i as int].len() == n);
            }
            let t: i128 = (activation_in[i] as i128) * (weights_matrix[i][j] as i128);
            activation_out.set(j, activation_out[j] + t);
            j += 1;
        }
        i += 1;
    }
    assert(ints(activation_out@) =~= layer_output(a, w));
    Ok(activation_out)
}

/// Loop with check: the nested iteration of [`dot_product_loop`], but the whole inner loop
/// is skipped for an input that is exactly zero.
pub fn checked_dot_product_loop(activation_in: &Vec<i32>, weights: &Vec<Vec<i32>>, n: usize) -> (result: Result<Vec<i128>, KernelError>)
    ensures
        result is Ok <==> activation_in@.len() == n && is_square(rows_of(weights), n as nat),
        result matches Ok(out) ==> ints(out@) == layer_output(activation_in@, rows_of(weights)),
        result matches Err(e) ==> e == KernelError::DimensionMismatch,
{
    if activation_in.len() != n || !has_rank(weights, n) {
        return Err(KernelError::DimensionMismatch);
    }
    let ghost a = activation_in@;
    let ghost w = rows_of(weights);
    let mut activation_out: Vec<i128> = vec![0i128; n];
    let mut i: usize = 0;
    while i < n
        invariant
            i <= n,
            a == activation_in@,
            w == rows_of(weights),
            a.len() == n,
            is_square(w, n as nat),
            activation_out@.len() == n,
            forall|j: int| 0 <= j < n ==> activation_out@[j] == column_sum(a, w, j, i as int),
        decreases n - i,
    {
        if activation_in[i] != 0 {
            let mut j: usize = 0;
            while j < n
                invariant
                    i < n,
                    j <= n,
                    a == activation_in@,
                    w == rows_of(weights),
                    a.len() == n,
                    is_square(w, n as nat),
                    activation_out@.len() == n,
                    forall|k: int| 0 <= k < j ==> activation_out@[k] == column_sum(a, w, k, i + 1),
                    forall|k: int|
                        j <= k < n ==> activation_out@[k] == column_sum(a, w, k, i as int),
                decreases n - j,
            {
                proof {
                    lemma_add_term(a, w, j as int, i as int);
                    assert(w[i as int].len() == n);
                }
                let t: i128 = (activation_in[i] as i128) * (weights[i][j] as i128);
                activation_out.set(j, activation_out[j] + t);
                j += 1;
            }
        } else {
            proof {
                assert forall|j: int| 0 <= j < n implies activation_out@[j] == column_sum(
                    a,
                    w,
                    j,
                    i + 1,
                ) by {
                    lemma_zero_term(a, w, i as int, j);
                }
            }
        }
        i += 1;
    }
    assert(ints(activation_out@) =~= layer_output(a, w));
    Ok(activation_out)
}

/// Flattened loop with check: the skip of [`checked_dot_product_loop`], with the weight
/// of input `i` and output `j` read from index `i * n + j` of one flat sequence.
pub fn generous_checked_dot_product_loop(activation_in: &Vec<i32>, flattened_weights: &Vec<i32>, n: usize) -> (result: Result<Vec<i128>, KernelError>)
    ensures
        result is Ok <==> activation_in@.len() == n && flattened_weights@.len() == n * n,
        result matches Ok(out) ==> ints(out@) == layer_output(
            activation_in@,
            unflatten(flattened_weights@, n as nat, n as nat),
        ),
        result matches Err(e) ==> e == KernelError::DimensionMismatch,
{
    let cells: usize = flattened_weights.len();
    match n.checked_mul(n) {
        None => {
            return Err(KernelError::DimensionMismatch);
        },
        Some(square) => {
            if activation_in.len() != n || cells != square {
                return Err(KernelError::DimensionMismatch);
            }
        },
    }
    let ghost a = activation_in@;
    let ghost w = unflatten(flattened_weights@, n as nat, n as nat);
    let mut activation_out: Vec<i128> = vec![0i128; n];
    let mut i: usize = 0;
    while i < n
        invariant
            i <= n,
            a == activation_in@,
            w == unflatten(flattened_weights@, n as nat, n as nat),
            a.len() == n,
            flattened_weights@.len() == n * n,
            n * n <= usize::MAX,
            activation_out@.len() == n,
            forall|j: int| 0 <= j < n ==> activation_out@[j] == column_sum(a, w, j, i as int),
        decreases n - i,
    {
        if activation_in[i] != 0 {
            let mut j: usize = 0;
            while j < n
                invariant
                    i < n,
                    j <= n,
                    a == activation_in@,
                    w == unflatten(flattened_weights@, n as nat, n as nat),
                    a.len() == n,
                    flattened_weights@.len() == n * n,
                    n * n <= usize::MAX,
                    activation_out@.len() == n,
                    forall|k: int| 0 <= k < j ==> activation_out@[k] == column_sum(a, w, k, i + 1),
                    forall|k: int|
                        j <= k < n ==> activation_out@[k] == column_sum(a, w, k, i as int),
                decreases n - j,
            {
                proof {
                    lemma_add_term(a, w, j as int, i as int);
                    assert(0 <= i * n && i * n + j < n * n) by (nonlinear_arith)
                        requires
                            0 <= i < n,
                            0 <= j < n,
                    ;
                    assert(w[i as int][j as int] == flattened_weights@[i * n + j]);
                }
                let index: usize = i * n + j;
                let t: i128 = (activation_in[i] as i128) * (flattened_weights[index] as i128);
                activation_out.set(j, activation_out[j] + t);
                j += 1;
            }
        } else {
            proof {
                assert forall|j: int| 0 <= j < n implies activation_out@[j] == column_sum(
                    a,
                    w,
                    j,
                    i + 1,
                ) by {
                    lemma_zero_term(a, w, i as int, j);
                }
            }
        }
        i += 1;
    }
    assert(ints(activation_out@) =~= layer_output(a, w));
    Ok(activation_out)
}

/// Double-checked loop: skips an input that is exactly zero, and within the inner loop
/// also every weight that is exactly zero.
pub fn double_checked_dot_product_loop(activation_in: &Vec<i32>, weights: &Vec<Vec<i32>>, n: usize) -> (result: Result<Vec<i128>, KernelError>)
    ensures
        result is Ok <==> activation_in@.len() == n && is_square(rows_of(weights), n as nat),
        result matches Ok(out) ==> ints(out@) == layer_output(activation_in@, rows_of(weights)),
        result matches Err(e) ==> e == KernelError::DimensionMismatch,
{
    if activation_in.len() != n || !has_rank(weights, n) {
        return Err(KernelError::DimensionMismatch);
    }
    let ghost a = activation_in@;
    let ghost w = rows_of(weights);
    let mut activation_out: Vec<i128> = vec![0i128; n];
    let mut i: usize = 0;
    while i < n
        invariant
            i <= n,
            a == activation_in@,
            w == rows_of(weights),
            a.len() == n,
            is_square(w, n as nat),
            activation_out@.len() == n,
            forall|j: int| 0 <= j < n ==> activation_out@[j] == column_sum(a, w, j, i as int),
        decreases n - i,
    {
        if activation_in[i] != 0 {
            let mut j: usize = 0;
            while j < n
                invariant
                    i < n,
                    j <= n,
                    a == activation_in@,
                    w == rows_of(weights),
                    a.len() == n,
                    is_square(w, n as nat),
                    activation_out@.len() == n,
                    forall|k: int| 0 <= k < j ==> activation_out@[k] == column_sum(a, w, k, i + 1),
                    forall|k: int|
                        j <= k < n ==> activation_out@[k] == column_sum(a, w, k, i as int),
                decreases n - j,
            {
                proof {
                    lemma_add_term(a, w, j as int, i as int);
                    assert(w[i as int].len() == n);
                }
                if weights[i][j] != 0 {
                    let t: i128 = (activation_in[i] as i128) * (weights[i][j] as i128);
                    activation_out.set(j, activation_out[j] + t);
                } else {
                    proof {
                        lemma_zero_term(a, w, i as int, j as int);
                    }
                }
                j += 1;
            }
        } else {
            proof {
                assert forall|j: int| 0 <= j < n implies activation_out@[j] == column_sum(
                    a,
                    w,
                    j,
                    i + 1,
                ) by {
                    lemma_zero_term(a, w, i as int, j);
                }
            }
        }
        i += 1;
    }
    assert(ints(activation_out@) =~= layer_output(a, w));
    Ok(activation_out)
}

/// Lane kernel: every output is computed from lanes of eight elements, the last lane
/// padded with zeros, and the outputs are computed in parallel, each into its own slot.
pub fn dot_product_simd(vec: &Vec<i32>, matrix: &Vec<Vec<i32>>) -> (result: Result<Vec<i128>, KernelError>)
    ensures
        result is Ok <==> is_square(rows_of(matrix), vec@.len()),
        result matches Ok(out) ==> ints(out@) == layer_output(vec@, rows_of(matrix)),
        result matches Err(e) ==> e == KernelError::DimensionMismatch,
{
    if !has_rank(matrix, vec.len()) {
        return Err(KernelError::DimensionMismatch);
    }
    let out: Vec<i128> = lane_outputs_in_parallel(vec, matrix);
    proof {
        let a = vec@;
        let w = rows_of(matrix);
        assert forall|j: int| 0 <= j < a.len() implies out@[j] == column_sum(
            a,
            w,
            j,
            a.len() as int,
        ) by {
            assert(out@[j] == lane_sum(a, w, j, lane_count(a.len())));
            lemma_lanes_cover_column(a, w, j);
        }
        assert(ints(out@) =~= layer_output(a, w));
    }
    Ok(out)
}

} // verus!
