//! What holds across the kernels and the layouts.

use vstd::prelude::*;
use crate::activation::relu_of;
use crate::harness::{kernel_output, Kernel};
use crate::lanes::{lane_output, lemma_lanes_cover_column};
use crate::layout::lemma_unflatten_flatten;
use crate::sparse::{compress, expand_rows, lemma_expand_compress};
use crate::model::{
    column_count, column_sum, dropped_column_sum, flatten, guarded_column_sum, guarded_output,
    is_rectangular, is_square, layer_output, lemma_zero_term, term, unflatten,
};

verus! {

/// The sum for output `j` over the inputs `0 .. upto` as a skipping kernel adds it: a
/// term is left out where its input is exactly zero, and, where `skip_zero_weights` is
/// set, also where its weight is exactly zero.
pub open spec fn skipping_column_sum(
    a: Seq<i32>,
    w: Seq<Seq<i32>>,
    j: int,
    upto: int,
    skip_zero_weights: bool,
) -> int
    decreases upto,
{
    if upto <= 0 {
        0
    } else {
        skipping_column_sum(a, w, j, upto - 1, skip_zero_weights) + if a[upto - 1] == 0 || (
        skip_zero_weights && w[upto - 1][j] == 0) {
            0
        } else {
            term(a, w, upto - 1, j)
        }
    }
}

/// Skipping changes no sum: a term whose input or weight is exactly zero is zero.
pub proof fn lemma_skipping_is_exact(
    a: Seq<i32>,
    w: Seq<Seq<i32>>,
    j: int,
    upto: int,
    skip_zero_weights: bool,
)
    ensures
        skipping_column_sum(a, w, j, upto, skip_zero_weights) == column_sum(a, w, j, upto),
    decreases upto,
{
    if upto > 0 {
        lemma_skipping_is_exact(a, w, j, upto - 1, skip_zero_weights);
        if a[upto - 1] == 0 || w[upto - 1][j] == 0 {
            lemma_zero_term(a, w, upto - 1, j);
        }
    }
}

/// The full sum is the guarded sum and what the guard drops.
pub proof fn lemma_guard_drops(a: Seq<i32>, w: Seq<Seq<i32>>, j: int, upto: int)
    ensures
        column_sum(a, w, j, upto) == guarded_column_sum(a, w, j, upto) + dropped_column_sum(
            a,
            w,
            j,
            upto,
        ),
    decreases upto,
{
    if upto > 0 {
        lemma_guard_drops(a, w, j, upto - 1);
    }
}

/// The map with check gives the layer's output exactly where, for every output, the
/// terms that it drops sum to zero.
pub proof fn lemma_map_with_check_is_exact_iff(a: Seq<i32>, w: Seq<Seq<i32>>)
    ensures
        guarded_output(a, w) == layer_output(a, w) <==> forall|j: int|
            0 <= j < a.len() ==> #[trigger] dropped_column_sum(a, w, j, a.len() as int) == 0,
{
    let n = a.len() as int;
    assert forall|j: int| 0 <= j < n implies column_sum(a, w, j, n) == guarded_column_sum(a, w, j, n)
        + #[trigger] dropped_column_sum(a, w, j, n) by {
        lemma_guard_drops(a, w, j, n);
    }
    if forall|j: int| 0 <= j < n ==> #[trigger] dropped_column_sum(a, w, j, n) == 0 {
        assert forall|j: int| 0 <= j < n implies guarded_output(a, w)[j] == layer_output(a, w)[j] by {
            assert(dropped_column_sum(a, w, j, n) == 0);
        }
        assert(guarded_output(a, w) =~= layer_output(a, w));
    }
    if guarded_output(a, w) == layer_output(a, w) {
        assert forall|j: int| 0 <= j < n implies #[trigger] dropped_column_sum(a, w, j, n) == 0 by {
            assert(guarded_output(a, w)[j] == layer_output(a, w)[j]);
            lemma_guard_drops(a, w, j, n);
        }
    }
}

/// Whatever strategy reads the weights and from whatever layout, the sums are those of
/// the basic loop: the lanes with their padding, the skipping loops, the flattened layout
/// and the compressed one all give the layer's output.
pub proof fn lemma_strategies_agree(a: Seq<i32>, w: Seq<Seq<i32>>)
    requires
        is_square(w, a.len()),
    ensures
        lane_output(a, w) == layer_output(a, w),
        layer_output(a, unflatten(flatten(w), a.len(), a.len())) == layer_output(a, w),
        layer_output(a, expand_rows(compress(w), a.len() as int)) == layer_output(a, w),
        forall|j: int, skip_zero_weights: bool|
            0 <= j < a.len() ==> #[trigger] skipping_column_sum(
                a,
                w,
                j,
                a.len() as int,
                skip_zero_weights,
            ) == layer_output(a, w)[j],
{
    let n = a.len();
    assert forall|j: int| 0 <= j < n implies lane_output(a, w)[j] == layer_output(a, w)[j] by {
        lemma_lanes_cover_column(a, w, j);
    }
    assert(lane_output(a, w) =~= layer_output(a, w));
    assert(is_rectangular(w) && (n > 0 ==> column_count(w) == n)) by {
        if n > 0 {
            assert(w[0].len() == n);
        }
    }
    lemma_unflatten_flatten(w);
    assert(unflatten(flatten(w), n, n) =~= w);
    lemma_expand_compress(w);
    assert(expand_rows(compress(w), n as int) =~= w);
    assert forall|j: int, skip_zero_weights: bool| 0 <= j < n implies #[trigger] skipping_column_sum(
        a,
        w,
        j,
        n as int,
        skip_zero_weights,
    ) == layer_output(a, w)[j] by {
        lemma_skipping_is_exact(a, w, j, n as int, skip_zero_weights);
    }
}

/// Any two kernels that compute the layer's output return equal vectors for equal
/// inputs, and so does every one of them and the basic loop.
pub proof fn lemma_kernels_agree(first: Kernel, second: Kernel, a: Seq<i32>, w: Seq<Seq<i32>>)
    requires
        first.is_exact(),
        second.is_exact(),
    ensures
        kernel_output(first, a, w) == kernel_output(second, a, w),
        kernel_output(first, a, w) == kernel_output(Kernel::BasicLoop, a, w),
        kernel_output(first, a, w) == layer_output(relu_of(a), w),
{
}

/// With rank zero every kernel returns the empty vector.
pub proof fn lemma_rank_zero(kernel: Kernel, a: Seq<i32>, w: Seq<Seq<i32>>)
    requires
        a.len() == 0,
    ensures
        kernel_output(kernel, a, w) == Seq::<int>::empty(),
{
    assert(kernel_output(kernel, a, w) =~= Seq::<int>::empty());
}

} // verus!
