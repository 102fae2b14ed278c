//! The benchmark harness: one set of inputs, every kernel run on it in a fixed order and
//! timed on its own.

use std::time::{Duration, Instant};
use vstd::prelude::*;
use crate::activation::{relu, relu_of};
use crate::dense_array::{array_fits, convert_to_array2, dot_product_array, extent, DenseArray};
use crate::error::KernelError;
use crate::kernels::{
    checked_dot_product_loop, dot_product, dot_product_loop, dot_product_simd,
    double_checked_dot_product_loop, generous_checked_dot_product_loop, optimized_dot_product,
};
use crate::layout::{
    flat_vector_to_matrix, lemma_flatten_len, lemma_flatten_unflatten, lemma_unflatten_flatten,
    to_flattened,
};
use crate::model::{
    column_count, flatten, guarded_output, ints, is_rectangular, is_square, layer_output, rows_of,
    unflatten,
};
use crate::sampler::{initialize_sparse_vector, initialize_vector_from_distribution};
use crate::sparse::{convert_to_sparse_matrix, sparse_dot_product, SparseMatrix};
use crate::sparsity::{
    calculate_sparsity_matrix, calculate_sparsity_vector, lemma_zero_count, zero_count, Ratio,
};

verus! {

/// A reading of the monotonic clock, opaque to the verifier.
#[verifier::external_type_specification]
#[verifier::external_body]
pub struct ExInstant(Instant);

/// `std::time::Instant::now`: the current reading of the monotonic clock.
#[verifier::external_body]
pub(crate) fn clock_now() -> Instant {
    Instant::now()
}

/// `std::time::Instant::elapsed`: the time since the reading was taken.
#[verifier::external_body]
pub(crate) fn clock_elapsed(start: &Instant) -> Duration {
    start.elapsed()
}

/// Runs `func` once and returns what it returned, with the wall-clock time that the call
/// took.
pub fn time_algorithm<R, F: FnOnce() -> R>(func: F) -> (timed: (R, Duration))
    requires
        func.requires(()),
    ensures
        func.ensures((), timed.0),
{
    let start = clock_now();
    let result = func();
    let duration = clock_elapsed(&start);
    (result, duration)
}

/// The kernels, in the order in which they are run and reported.
#[derive(Debug, Clone, Copy, PartialEq, Eq, Structural)]
pub enum Kernel {
    /// The rows, scaled by their inputs, summed cell by cell.
    BasicMap,
    /// The basic map with terms of non-positive weights left out; not the layer's output.
    MapWithCheck,
    /// Nested iteration over the dense matrix.
    BasicLoop,
    /// Nested iteration that skips the row of an input that is zero.
    LoopWithCheck,
    /// The loop with check on the flattened layout.
    FlattenedLoopWithCheck,
    /// The loop with check that also skips each weight that is zero.
    DoubleCheckedLoop,
    /// One multiply-accumulate of the array library.
    DenseArray,
    /// Lanes of eight elements, the outputs computed in parallel.
    SimdLanes,
    /// Iteration over the stored entries of the compressed layout.
    SparseCsr,
}

/// The fixed order of the kernels.
pub open spec fn kernel_order() -> Seq<Kernel> {
    seq![
        Kernel::BasicMap,
        Kernel::MapWithCheck,
        Kernel::BasicLoop,
        Kernel::LoopWithCheck,
        Kernel::FlattenedLoopWithCheck,
        Kernel::DoubleCheckedLoop,
        Kernel::DenseArray,
        Kernel::SimdLanes,
        Kernel::SparseCsr,
    ]
}

impl Kernel {
    /// All kernels in their fixed order.
    pub fn all() -> (kernels: Vec<Kernel>)
        ensures
            kernels@ == kernel_order(),
    {
        let kernels: Vec<Kernel> = vec![
            Kernel::BasicMap,
            Kernel::MapWithCheck,
            Kernel::BasicLoop,
            Kernel::LoopWithCheck,
            Kernel::FlattenedLoopWithCheck,
            Kernel::DoubleCheckedLoop,
            Kernel::DenseArray,
            Kernel::SimdLanes,
            Kernel::SparseCsr,
        ];
        assert(kernels@ =~= kernel_order());
        kernels
    }

    /// The name under which the kernel's time is reported.
    pub fn label(&self) -> (text: String)
        ensures
            text@ == match *self {
                Kernel::BasicMap => "Basic map"@,
                Kernel::MapWithCheck => "Map with check"@,
                Kernel::BasicLoop => "Basic loop"@,
                Kernel::LoopWithCheck => "Loop with check"@,
                Kernel::FlattenedLoopWithCheck => "Flattened loop with check"@,
                Kernel::DoubleCheckedLoop => "Double-checked loop"@,
                Kernel::DenseArray => "Dense-array vectorized"@,
                Kernel::SimdLanes => "SIMD-lane kernel"@,
                Kernel::SparseCsr => "Sparse CSR kernel"@,
            },
    {
        match self {
            Kernel::BasicMap => "Basic map".to_string(),
            Kernel::MapWithCheck => "Map with check".to_string(),
            Kernel::BasicLoop => "Basic loop".to_string(),
            Kernel::LoopWithCheck => "Loop with check".to_string(),
            Kernel::FlattenedLoopWithCheck => "Flattened loop with check".to_string(),
            Kernel::DoubleCheckedLoop => "Double-checked loop".to_string(),
            Kernel::DenseArray => "Dense-array vectorized".to_string(),
            Kernel::SimdLanes => "SIMD-lane kernel".to_string(),
            Kernel::SparseCsr => "Sparse CSR kernel".to_string(),
        }
    }

    /// Whether the kernel computes the layer's output. Only the map with check does not.
    pub open spec fn is_exact(&self) -> bool {
        *self != Kernel::MapWithCheck
    }
}

/// What a kernel returns for the raw input `a` and the weights `w`: it rectifies the
/// input, and then computes the layer's output, or the guarded output where the kernel
/// is the map with check.
pub open spec fn kernel_output(kernel: Kernel, a: Seq<i32>, w: Seq<Seq<i32>>) -> Seq<int> {
    if kernel.is_exact() {
        layer_output(relu_of(a), w)
    } else {
        guarded_output(relu_of(a), w)
    }
}

/// One input vector and one weight matrix, the matrix in every layout that a kernel
/// reads. The layouts are built once and agree cell by cell.
pub struct Workload {
    n: usize,
    activation_in: Vec<i32>,
    weights: Vec<Vec<i32>>,
    flattened_weights: Vec<i32>,
    csr_weights: SparseMatrix,
    array_weights: DenseArray,
}

impl Workload {
    /// The rank: the length of the input and of each side of the matrix.
    pub closed spec fn rank(&self) -> nat {
        self.n as nat
    }

    /// The input before rectification.
    pub closed spec fn activation(&self) -> Seq<i32> {
        self.activation_in@
    }

    /// The weights, row by row.
    pub closed spec fn weight_rows(&self) -> Seq<Seq<i32>> {
        rows_of(&self.weights)
    }

    /// The number of weights that the sparse layout stores.
    pub closed spec fn stored_weights(&self) -> int {
        self.csr_weights.stored()
    }

    /// All layouts hold the same `n × n` weights, and the input has `n` elements.
    #[verifier::type_invariant]
    pub closed spec fn consistent(&self) -> bool {
        &&& self.activation_in@.len() == self.n
        &&& is_square(rows_of(&self.weights), self.n as nat)
        &&& self.flattened_weights@ == flatten(rows_of(&self.weights))
        &&& self.csr_weights.row_count() == self.n
        &&& self.csr_weights.col_count() == self.n
        &&& self.csr_weights.expand() == rows_of(&self.weights)
        &&& self.array_weights.row_count() == self.n
        &&& self.array_weights.col_count() == self.n
        &&& self.array_weights.cells() == rows_of(&self.weights)
    }

    /// Takes an input and a dense matrix of rank `n`, and derives the other layouts.
    ///
    /// Rows of unequal length are a conversion error, and so is a rank whose square the
    /// array layout cannot hold; lengths that are not `n` are a dimension mismatch.
    pub fn prepare(n: usize, activation_in: Vec<i32>, weights: Vec<Vec<i32>>) -> (result: Result<Workload, KernelError>)
        ensures
            result is Ok <==> activation_in@.len() == n && is_square(rows_of(&weights), n as nat)
                && array_fits(n * n, n as int, n as int),
            result matches Ok(workload) ==> {
                &&& workload.rank() == n
                &&& workload.activation() == activation_in@
                &&& workload.weight_rows() == rows_of(&weights)
            },
            result matches Err(e) ==> e == if activation_in@.len() == n && is_square(
                rows_of(&weights),
                n as nat,
            ) || !is_rectangular(rows_of(&weights)) {
                KernelError::ConversionError
            } else {
                KernelError::DimensionMismatch
            },
    {
        let flattened_weights: Vec<i32> = match to_flattened(&weights) {
            Ok(flat) => flat,
            Err(e) => {
                return Err(e);
            },
        };
        if activation_in.len() != n {
            return Err(KernelError::DimensionMismatch);
        }
        let csr_weights: SparseMatrix = match convert_to_sparse_matrix(&weights, n) {
            Ok(sparse) => sparse,
            Err(e) => {
                return Err(e);
            },
        };
        proof {
            let w = rows_of(&weights);
            assert(n > 0 ==> column_count(w) == w[0].len());
            assert(n * n == n as int * column_count(w)) by (nonlinear_arith)
                requires
                    n == 0 || column_count(w) == n,
            ;
        }
        let array_weights: DenseArray = match convert_to_array2(&weights) {
            Ok(array) => array,
            Err(e) => {
                return Err(e);
            },
        };
        Ok(Workload { n, activation_in, weights, flattened_weights, csr_weights, array_weights })
    }

    /// Runs one kernel on a freshly rectified copy of the input.
    pub fn run(&self, kernel: Kernel) -> (out: Vec<i128>)
        ensures
            ints(out@) == kernel_output(kernel, self.activation(), self.weight_rows()),
    {
        proof {
            use_type_invariant(self);
            lemma_unflatten_flatten(rows_of(&self.weights));
            lemma_flatten_len(rows_of(&self.weights));
            let w = rows_of(&self.weights);
            assert(self.n > 0 ==> column_count(w) == w[0].len());
            assert(self.n * self.n == self.n as int * column_count(w)) by (nonlinear_arith)
                requires
                    self.n == 0 || column_count(w) == self.n,
            ;
            assert(unflatten(self.flattened_weights@, self.n as nat, self.n as nat) =~= w);
        }
        let rectified: Vec<i32> = relu(&self.activation_in);
        let result: Result<Vec<i128>, KernelError> = match kernel {
            Kernel::BasicMap => dot_product(&rectified, &self.weights),
            Kernel::MapWithCheck => optimized_dot_product(&rectified, &self.weights),
            Kernel::BasicLoop => dot_product_loop(&rectified, &self.weights, self.n),
            Kernel::LoopWithCheck => checked_dot_product_loop(&rectified, &self.weights, self.n),
            Kernel::FlattenedLoopWithCheck => generous_checked_dot_product_loop(
                &rectified,
                &self.flattened_weights,
                self.n,
            ),
            Kernel::DoubleCheckedLoop => double_checked_dot_product_loop(
                &rectified,
                &self.weights,
                self.n,
            ),
            Kernel::DenseArray => dot_product_array(&rectified, &self.array_weights),
            Kernel::SimdLanes => dot_product_simd(&rectified, &self.weights),
            Kernel::SparseCsr => sparse_dot_product(&rectified, &self.csr_weights),
        };
        match result {
            Ok(out) => out,
            Err(_) => vstd::pervasive::unreached(),
        }
    }

    /// The share of exact zeros among the weights, from the sparse layout.
    pub fn weights_sparsity(&self) -> (result: Option<Ratio>)
        ensures
            result is Some <==> self.rank() > 0,
            result matches Some(ratio) ==> {
                &&& ratio.whole() == self.rank() * self.rank()
                &&& ratio.part() == self.rank() * self.rank() - self.stored_weights()
                &&& ratio.part() == zero_count(flatten(self.weight_rows()))
            },
    {
        proof {
            use_type_invariant(self);
            assert(self.n * self.n > 0 <==> self.n > 0) by (nonlinear_arith);
        }
        calculate_sparsity_matrix(&self.csr_weights)
    }

    /// The share of exact zeros in the input once it is rectified.
    pub fn activations_sparsity(&self) -> (result: Option<Ratio>)
        ensures
            result is Some <==> self.rank() > 0,
            result matches Some(ratio) ==> ratio.whole() == self.rank() && ratio.part() == zero_count(
                relu_of(self.activation()),
            ),
    {
        proof {
            use_type_invariant(self);
        }
        calculate_sparsity_vector(&relu(&self.activation_in))
    }
}

/// The time that one kernel took.
pub struct Timing {
    pub kernel: Kernel,
    pub elapsed: Duration,
}

/// What one configuration reports: the time of the setup, the rank, the two sparsity
/// ratios, and one time per kernel in the fixed order.
pub struct Report {
    pub setup: Duration,
    pub rank: usize,
    pub weights_sparsity: Option<Ratio>,
    pub activations_sparsity: Option<Ratio>,
    pub timings: Vec<Timing>,
}

impl Workload {
    /// Runs one kernel and measures that call alone.
    pub fn time(&self, kernel: Kernel) -> (timed: (Vec<i128>, Duration))
        ensures
            ints(timed.0@) == kernel_output(kernel, self.activation(), self.weight_rows()),
    {
        let run = || -> (out: Vec<i128>)
            ensures
                ints(out@) == kernel_output(kernel, self.activation(), self.weight_rows()),
            { self.run(kernel) };
        time_algorithm(run)
    }

    /// Runs every kernel once, in the fixed order, each timed on its own.
    pub fn time_all(&self) -> (timings: Vec<Timing>)
        ensures
            timings@.len() == kernel_order().len(),
            forall|k: int| 0 <= k < timings@.len() ==> (#[trigger] timings@[k]).kernel == kernel_order()[k],
    {
        let kernels: Vec<Kernel> = Kernel::all();
        let mut timings: Vec<Timing> = Vec::new();
        let mut k: usize = 0;
        while k < kernels.len()
            invariant
                k <= kernels@.len(),
                kernels@ == kernel_order(),
                timings@.len() == k,
                forall|p: int| 0 <= p < k ==> (#[trigger] timings@[p]).kernel == kernel_order()[p],
            decreases kernels@.len() - k,
        {
            let kernel: Kernel = kernels[k];
            let timed: (Vec<i128>, Duration) = self.time(kernel);
            timings.push(Timing { kernel, elapsed: timed.1 });
            k += 1;
        }
        timings
    }
}

/// Runs one configuration: draws the weights, each an exact zero with probability
/// `weights_sparsity`, and the input; builds every layout once; then times every kernel
/// in the fixed order.
///
/// It fails only for a rank whose square the layouts cannot hold, and then before
/// anything is drawn. What the report says of sparsity follows the draws: weights that
/// are zeroed with certainty give the ratio one, weights that are never zeroed and never
/// drawn as zero give the ratio zero, and inputs that are all positive, or all not
/// positive, give the input's ratio zero, or one.
pub fn run_with_config<A: Fn() -> i32, W: Fn() -> i32>(n: usize, activations_dist_func: A, weights_dist_func: W, weights_sparsity: Ratio) -> (result: Result<Report, KernelError>)
    requires
        activations_dist_func.requires(()),
        weights_dist_func.requires(()),
    ensures
        result is Ok <==> array_fits(n * n, n as int, n as int),
        result matches Err(e) ==> e == KernelError::ConversionError,
        result matches Ok(report) ==> {
            &&& report.rank == n
            &&& report.timings@.len() == kernel_order().len()
            &&& forall|k: int|
                0 <= k < report.timings@.len() ==> (#[trigger] report.timings@[k]).kernel
                    == kernel_order()[k]
            &&& report.weights_sparsity is Some <==> n > 0
            &&& report.weights_sparsity matches Some(ratio) ==> {
                &&& ratio.whole() == n * n
                &&& ratio.part() <= ratio.whole()
                &&& weights_sparsity.part() == weights_sparsity.whole() ==> ratio.part() == ratio.whole()
                &&& weights_sparsity.part() == 0 && (forall|x: i32|
                    weights_dist_func.ensures((), x) ==> x != 0) ==> ratio.part() == 0
            }
            &&& report.activations_sparsity is Some <==> n > 0
            &&& report.activations_sparsity matches Some(ratio) ==> {
                &&& ratio.whole() == n
                &&& ratio.part() <= ratio.whole()
                &&& (forall|x: i32| activations_dist_func.ensures((), x) ==> x > 0) ==> ratio.part()
                    == 0
                &&& (forall|x: i32| activations_dist_func.ensures((), x) ==> x <= 0) ==> ratio.part()
                    == ratio.whole()
            }
        },
{
    let cells: usize = match n.checked_mul(n) {
        Some(cells) => cells,
        None => {
            proof {
                lemma_extent_square(n as int);
            }
            return Err(KernelError::ConversionError);
        },
    };
    if cells > isize::MAX as usize {
        return Err(KernelError::ConversionError);
    }
    let start = clock_now();
    let flat: Vec<i32> = initialize_sparse_vector(cells, weights_sparsity, weights_dist_func);
    let weights: Vec<Vec<i32>> = match flat_vector_to_matrix(n, &flat) {
        Ok(weights) => weights,
        Err(_) => vstd::pervasive::unreached(),
    };
    let activation_in: Vec<i32> = initialize_vector_from_distribution(n, activations_dist_func);
    let setup: Duration = clock_elapsed(&start);
    proof {
        let w = rows_of(&weights);
        assert(is_square(w, n as nat));
        lemma_flatten_unflatten(flat@, n as nat, n as nat);
        lemma_zero_count(flat@);
        lemma_zero_count(relu_of(activation_in@));
        assert forall|k: int| 0 <= k < n implies (#[trigger] relu_of(activation_in@)[k] == 0
            <==> activation_in@[k] <= 0) by {}
    }
    let workload: Workload = match Workload::prepare(n, activation_in, weights) {
        Ok(workload) => workload,
        Err(_) => vstd::pervasive::unreached(),
    };
    let weights_ratio: Option<Ratio> = workload.weights_sparsity();
    let activations_ratio: Option<Ratio> = workload.activations_sparsity();
    let timings: Vec<Timing> = workload.time_all();
    Ok(
        Report {
            setup,
            rank: n,
            weights_sparsity: weights_ratio,
            activations_sparsity: activations_ratio,
            timings,
        },
    )
}

/// A rank whose square does not fit in a `usize` is more than the array layout holds.
proof fn lemma_extent_square(n: int)
    requires
        n * n > usize::MAX,
        0 <= n,
    ensures
        extent(n) * extent(n) > isize::MAX,
{
    assert(n != 0) by (nonlinear_arith)
        requires
            n * n > 0,
    ;
}

} // verus!
