//! Fixed-width lanes: the input and one column of weights cut into groups of eight,
//! the last group padded with zeros.

use vstd::prelude::*;
use rayon::iter::{IntoParallelIterator, ParallelIterator};
use crate::model::{
    column_sum, is_square, lemma_column_sum_bound, lemma_product_bound, lemma_sums_fit, rows_of,
    term, term_bound,
};

verus! {

/// The number of elements in one lane.
pub const LANE_WIDTH: usize = 8;

/// The number of lanes that `n` elements need: `n / 8`, rounded up.
pub open spec fn lane_count(n: nat) -> int {
    (n as int + 7) / 8
}

/// Lane `k` of the input: the elements `8k .. 8k + 8`, with zero where the input has
/// ended.
pub open spec fn activation_lane(a: Seq<i32>, k: int) -> Seq<i32> {
    Seq::new(
        8,
        |t: int|
            if 8 * k + t < a.len() {
                a[8 * k + t]
            } else {
                0i32
            },
    )
}

/// Lane `k` of column `j` of the weights: the cells of the rows `8k .. 8k + 8`, with zero
/// where the rows have ended.
pub open spec fn weight_lane(w: Seq<Seq<i32>>, j: int, k: int) -> Seq<i32> {
    Seq::new(
        8,
        |t: int|
            if 8 * k + t < w.len() {
                w[8 * k + t][j]
            } else {
                0i32
            },
    )
}

/// The lane-wise products of two lanes, summed across the lane.
pub open spec fn lane_dot(x: Seq<i32>, y: Seq<i32>) -> int {
    x[0] * y[0] + x[1] * y[1] + x[2] * y[2] + x[3] * y[3] + x[4] * y[4] + x[5] * y[5] + x[6] * y[6]
        + x[7] * y[7]
}

/// Output `j` as the first `lanes` lanes give it.
pub open spec fn lane_sum(a: Seq<i32>, w: Seq<Seq<i32>>, j: int, lanes: int) -> int
    decreases lanes,
{
    if lanes <= 0 {
        0
    } else {
        lane_sum(a, w, j, lanes - 1) + lane_dot(
            activation_lane(a, lanes - 1),
            weight_lane(w, j, lanes - 1),
        )
    }
}

/// The sum of the first `upto` terms of output `j`, where a term past the last input
/// counts as zero.
spec fn padded_sum(a: Seq<i32>, w: Seq<Seq<i32>>, j: int, upto: int) -> int
    decreases upto,
{
    if upto <= 0 {
        0
    } else {
        padded_sum(a, w, j, upto - 1) + if upto - 1 < a.len() {
            term(a, w, upto - 1, j)
        } else {
            0
        }
    }
}

proof fn lemma_padded_sum(a: Seq<i32>, w: Seq<Seq<i32>>, j: int, upto: int)
    requires
        0 <= upto,
    ensures
        padded_sum(a, w, j, upto) == column_sum(
            a,
            w,
            j,
            if upto <= a.len() {
                upto
            } else {
                a.len() as int
            },
        ),
    decreases upto,
{
    if upto > 0 {
        lemma_padded_sum(a, w, j, upto - 1);
    }
}

proof fn lemma_lane_is_eight_terms(a: Seq<i32>, w: Seq<Seq<i32>>, j: int, k: int)
    requires
        0 <= k,
        a.len() == w.len(),
    ensures
        padded_sum(a, w, j, 8 * k + 8) == padded_sum(a, w, j, 8 * k) + lane_dot(
            activation_lane(a, k),
            weight_lane(w, j, k),
        ),
{
    let x = activation_lane(a, k);
    let y = weight_lane(w, j, k);
    let b = 8 * k;
    assert forall|t: int| 0 <= t < 8 implies #[trigger] x[t] * y[t] == if b + t < a.len() {
        term(a, w, b + t, j)
    } else {
        0
    } by {
        if b + t >= a.len() {
            assert(x[t] == 0 && y[t] == 0);
        }
    }
    assert(padded_sum(a, w, j, b + 1) == padded_sum(a, w, j, b) + x[0] * y[0]);
    assert(padded_sum(a, w, j, b + 2) == padded_sum(a, w, j, b + 1) + x[1] * y[1]);
    assert(padded_sum(a, w, j, b + 3) == padded_sum(a, w, j, b + 2) + x[2] * y[2]);
    assert(padded_sum(a, w, j, b + 4) == padded_sum(a, w, j, b + 3) + x[3] * y[3]);
    assert(padded_sum(a, w, j, b + 5) == padded_sum(a, w, j, b + 4) + x[4] * y[4]);
    assert(padded_sum(a, w, j, b + 6) == padded_sum(a, w, j, b + 5) + x[5] * y[5]);
    assert(padded_sum(a, w, j, b + 7) == padded_sum(a, w, j, b + 6) + x[6] * y[6]);
    assert(padded_sum(a, w, j, b + 8) == padded_sum(a, w, j, b + 7) + x[7] * y[7]);
}

/// The first `lanes` lanes give the sum of the terms that they cover: the padding of the
/// last lane adds nothing.
pub proof fn lemma_lane_sum_prefix(a: Seq<i32>, w: Seq<Seq<i32>>, j: int, lanes: int)
    requires
        0 <= lanes,
        a.len() == w.len(),
    ensures
        lane_sum(a, w, j, lanes) == column_sum(
            a,
            w,
            j,
            if 8 * lanes <= a.len() {
                8 * lanes
            } else {
                a.len() as int
            },
        ),
    decreases lanes,
{
    lemma_lane_sum_padded(a, w, j, lanes);
    lemma_padded_sum(a, w, j, 8 * lanes);
}

proof fn lemma_lane_sum_padded(a: Seq<i32>, w: Seq<Seq<i32>>, j: int, lanes: int)
    requires
        0 <= lanes,
        a.len() == w.len(),
    ensures
        lane_sum(a, w, j, lanes) == padded_sum(a, w, j, 8 * lanes),
    decreases lanes,
{
    if lanes > 0 {
        lemma_lane_sum_padded(a, w, j, lanes - 1);
        lemma_lane_is_eight_terms(a, w, j, lanes - 1);
    }
}

/// For every length, a multiple of the lane width or not, all lanes together give
/// exactly the sum over all inputs.
pub proof fn lemma_lanes_cover_column(a: Seq<i32>, w: Seq<Seq<i32>>, j: int)
    requires
        a.len() == w.len(),
    ensures
        lane_sum(a, w, j, lane_count(a.len())) == column_sum(a, w, j, a.len() as int),
{
    lemma_lane_sum_prefix(a, w, j, lane_count(a.len()));
}

/// Packs lane `k` of the input into a full-width lane, zero where the input has ended.
pub fn pack_activation_lane(activation: &Vec<i32>, k: usize) -> (lane: [i32; 8])
    ensures
        lane@ == activation_lane(activation@, k as int),
{
    let n: usize = activation.len();
    let mut lane: [i32; 8] = [0i32; 8];
    let base: usize = match k.checked_mul(LANE_WIDTH) {
        Some(base) => base,
        None => n,
    };
    if base < n {
        let remaining: usize = n - base;
        let mut t: usize = 0;
        while t < LANE_WIDTH
            invariant
                t <= 8,
                base == 8 * k,
                base + remaining == activation@.len(),
                forall|u: int| 0 <= u < t ==> lane@[u] == activation_lane(activation@, k as int)[u],
                forall|u: int| t <= u < 8 ==> lane@[u] == 0,
            decreases 8 - t,
        {
            if t < remaining {
                lane[t] = activation[base + t];
            }
            t += 1;
        }
    }
    assert(lane@ =~= activation_lane(activation@, k as int));
    lane
}

/// Packs lane `k` of column `j` of the weights into a full-width lane, zero where the
/// rows have ended.
pub(crate) fn pack_weight_lane(weights: &Vec<Vec<i32>>, j: usize, k: usize) -> (lane: [i32; 8])
    requires
        8 * k <= weights@.len(),
        forall|i: int| 0 <= i < weights@.len() ==> j < (#[trigger] weights@[i])@.len(),
    ensures
        lane@ == weight_lane(rows_of(weights), j as int, k as int),
{
    let n: usize = weights.len();
    let base: usize = k * LANE_WIDTH;
    let remaining: usize = n - base;
    let mut lane: [i32; 8] = [0i32; 8];
    let mut t: usize = 0;
    while t < LANE_WIDTH
        invariant
            t <= 8,
            base == 8 * k,
            base + remaining == weights@.len(),
            forall|i: int| 0 <= i < weights@.len() ==> j < (#[trigger] weights@[i])@.len(),
            forall|u: int|
                0 <= u < t ==> lane@[u] == weight_lane(rows_of(weights), j as int, k as int)[u],
            forall|u: int| t <= u < 8 ==> lane@[u] == 0,
        decreases 8 - t,
    {
        if t < remaining {
            lane[t] = weights[base + t][j];
        }
        t += 1;
    }
    assert(lane@ =~= weight_lane(rows_of(weights), j as int, k as int));
    lane
}

/// Multiplies two lanes element by element.
pub fn multiply_lanes(x: &[i32; 8], y: &[i32; 8]) -> (products: [i64; 8])
    ensures
        forall|t: int| 0 <= t < 8 ==> #[trigger] products@[t] == x@[t] * y@[t],
{
    let mut products: [i64; 8] = [0i64; 8];
    let mut t: usize = 0;
    while t < LANE_WIDTH
        invariant
            t <= 8,
            forall|u: int| 0 <= u < t ==> #[trigger] products@[u] == x@[u] * y@[u],
        decreases 8 - t,
    {
        proof {
            lemma_product_bound(x@[t as int], y@[t as int]);
        }
        products[t] = (x[t] as i64) * (y[t] as i64);
        t += 1;
    }
    products
}

/// Adds up the elements of a lane.
pub fn sum_lane(products: &[i64; 8]) -> (sum: i128)
    ensures
        sum == products@[0] + products@[1] + products@[2] + products@[3] + products@[4]
            + products@[5] + products@[6] + products@[7],
{
    (products[0] as i128) + (products[1] as i128) + (products[2] as i128) + (products[3] as i128)
        + (products[4] as i128) + (products[5] as i128) + (products[6] as i128) + (
    products[7] as i128)
}

/// One output computed lane by lane: each lane of the input is multiplied with the lane
/// of column `j`, summed across, and added to the running sum.
pub(crate) fn lane_dot_product(activation: &Vec<i32>, weights: &Vec<Vec<i32>>, j: usize) -> (sum: i128)
    requires
        is_square(rows_of(weights), activation@.len()),
        j < activation@.len(),
    ensures
        sum == lane_sum(activation@, rows_of(weights), j as int, lane_count(activation@.len())),
{
    let n: usize = activation.len();
    let lanes: usize = n / LANE_WIDTH + if n % LANE_WIDTH != 0 {
        1
    } else {
        0
    };
    let ghost a = activation@;
    let ghost w = rows_of(weights);
    assert forall|i: int| 0 <= i < weights@.len() implies j < (#[trigger] weights@[i])@.len() by {
        assert(w[i].len() == n);
    }
    let mut sum: i128 = 0;
    let mut k: usize = 0;
    while k < lanes
        invariant
            k <= lanes,
            lanes == lane_count(n as nat),
            a == activation@,
            w == rows_of(weights),
            a.len() == n,
            w.len() == n,
            weights@.len() == n,
            forall|i: int| 0 <= i < weights@.len() ==> j < (#[trigger] weights@[i])@.len(),
            sum == lane_sum(a, w, j as int, k as int),
        decreases lanes - k,
    {
        let x: [i32; 8] = pack_activation_lane(activation, k);
        let y: [i32; 8] = pack_weight_lane(weights, j, k);
        let products: [i64; 8] = multiply_lanes(&x, &y);
        let across: i128 = sum_lane(&products);
        proof {
            assert(across == lane_dot(x@, y@));
            lemma_lane_sum_prefix(a, w, j as int, k as int);
            lemma_lane_sum_prefix(a, w, j as int, k + 1);
            lemma_column_sum_bound(a, w, j as int, 8 * k);
            lemma_column_sum_bound(
                a,
                w,
                j as int,
                if 8 * (k + 1) <= n {
                    8 * (k + 1)
                } else {
                    n as int
                },
            );
            lemma_sums_fit(n as int);
            lemma_bound_grows(8 * k, n as int);
            lemma_bound_grows(
                if 8 * (k + 1) <= n {
                    8 * (k + 1)
                } else {
                    n as int
                },
                n as int,
            );
        }
        sum = sum + across;
        k += 1;
    }
    sum
}

proof fn lemma_bound_grows(few: int, many: int)
    requires
        0 <= few <= many,
    ensures
        few * term_bound() <= many * term_bound(),
{
    assert(few * 0x4000_0000_0000_0000 <= many * 0x4000_0000_0000_0000) by (nonlinear_arith)
        requires
            0 <= few <= many,
    ;
}

/// What the lanes give for every output.
pub open spec fn lane_output(a: Seq<i32>, w: Seq<Seq<i32>>) -> Seq<int> {
    Seq::new(a.len(), |j: int| lane_sum(a, w, j, lane_count(a.len())))
}

/// Runs [`lane_dot_product`] for every output on the worker pool of `rayon`
/// (`into_par_iter`, `map`, `collect`): the result holds, at each index, what the call
/// for that index returned.
#[verifier::external_body]
pub(crate) fn lane_outputs_in_parallel(activation: &Vec<i32>, weights: &Vec<Vec<i32>>) -> (out: Vec<i128>)
    requires
        is_square(rows_of(weights), activation@.len()),
    ensures
        out@.len() == activation@.len(),
        forall|j: int|
            0 <= j < out@.len() ==> #[trigger] out@[j] == lane_sum(
                activation@,
                rows_of(weights),
                j,
                lane_count(activation@.len()),
            ),
{
    (0..activation.len()).into_par_iter().map(|j| lane_dot_product(activation, weights, j)).collect()
}

} // verus!
