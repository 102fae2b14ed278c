//! Sampling of input and weight vectors, with a chosen share of exact zeros.

use vstd::prelude::*;
use rand::distributions::Distribution as Sample;
use crate::error::KernelError;
use crate::sparsity::Ratio;

verus! {

/// The parameters of a distribution that samples are drawn from.
#[derive(Debug, Clone, Copy, PartialEq, Eq, Structural)]
pub enum Distribution {
    /// Every value from `low` up to, but not including, `high` is equally likely.
    Uniform { low: i32, high: i32 },
    /// A bell curve around `mean` with the standard deviation `std_dev`.
    Normal { mean: i32, std_dev: i32 },
}

impl Distribution {
    /// There is something to draw from: the range is not empty, the standard deviation is
    /// positive.
    pub open spec fn valid(&self) -> bool {
        match *self {
            Distribution::Uniform { low, high } => low < high,
            Distribution::Normal { mean, std_dev } => std_dev > 0,
        }
    }

    /// Refuses parameters that describe no distribution, before anything is drawn.
    pub fn validate(&self) -> (result: Result<(), KernelError>)
        ensures
            result is Ok <==> self.valid(),
            result matches Err(e) ==> e == KernelError::ConfigurationError,
    {
        let valid: bool = match *self {
            Distribution::Uniform { low, high } => low < high,
            Distribution::Normal { mean, std_dev } => std_dev > 0,
        };
        if valid {
            Ok(())
        } else {
            Err(KernelError::ConfigurationError)
        }
    }
}

/// `rand`: one sample of `Uniform::new(0, bound)` from the thread's generator, a number
/// below `bound`. `Uniform::new` panics on an empty range, which the precondition leaves
/// out.
#[verifier::external_body]
pub(crate) fn draw_below(bound: u128) -> (draw: u128)
    requires
        bound > 0,
    ensures
        draw < bound,
{
    rand::distributions::Uniform::new(0u128, bound).sample(&mut rand::thread_rng())
}

/// Whether an element becomes an exact zero, given its draw from `0 .. whole`: it does
/// for the first `part` of the draws, which is the share `part / whole` of them.
pub fn is_zeroed(draw: u128, zero_prob: &Ratio) -> (zeroed: bool)
    ensures
        zeroed <==> draw < zero_prob.part(),
{
    draw < zero_prob.numerator()
}

/// Draws `n` samples, one call of `dist_fn` each.
pub fn initialize_vector_from_distribution<F: Fn() -> i32>(n: usize, dist_fn: F) -> (out: Vec<i32>)
    requires
        dist_fn.requires(()),
    ensures
        out@.len() == n,
        forall|k: int| 0 <= k < n ==> dist_fn.ensures((), #[trigger] out@[k]),
{
    let mut out: Vec<i32> = Vec::new();
    let mut i: usize = 0;
    while i < n
        invariant
            i <= n,
            dist_fn.requires(()),
            out@.len() == i,
            forall|k: int| 0 <= k < i ==> dist_fn.ensures((), #[trigger] out@[k]),
        decreases n - i,
    {
        let x: i32 = dist_fn();
        out.push(x);
        i += 1;
    }
    out
}

/// Draws `size` elements. Each is, independently of the others, an exact zero with
/// probability `zero_prob`, and a sample of `dist_fn` otherwise.
///
/// Whatever is drawn, every element is zero or a sample; with probability one all are
/// zero, and with probability zero all are samples.
pub fn initialize_sparse_vector<F: Fn() -> i32>(size: usize, zero_prob: Ratio, dist_fn: F) -> (out: Vec<i32>)
    requires
        dist_fn.requires(()),
    ensures
        out@.len() == size,
        forall|k: int| 0 <= k < size ==> (#[trigger] out@[k]) == 0 || dist_fn.ensures((), out@[k]),
        zero_prob.part() == zero_prob.whole() ==> forall|k: int| 0 <= k < size ==> (#[trigger] out@[k]) == 0,
        zero_prob.part() == 0 ==> forall|k: int| 0 <= k < size ==> dist_fn.ensures((), #[trigger] out@[k]),
{
    let whole: u128 = zero_prob.denominator();
    let mut out: Vec<i32> = Vec::new();
    let mut i: usize = 0;
    while i < size
        invariant
            i <= size,
            dist_fn.requires(()),
            whole == zero_prob.whole(),
            whole > 0,
            out@.len() == i,
            forall|k: int| 0 <= k < i ==> (#[trigger] out@[k]) == 0 || dist_fn.ensures((), out@[k]),
            zero_prob.part() == zero_prob.whole() ==> forall|k: int| 0 <= k < i ==> (#[trigger] out@[k]) == 0,
            zero_prob.part() == 0 ==> forall|k: int| 0 <= k < i ==> dist_fn.ensures((), #[trigger] out@[k]),
        decreases size - i,
    {
        let draw: u128 = draw_below(whole);
        if is_zeroed(draw, &zero_prob) {
            out.push(0);
        } else {
            let x: i32 = dist_fn();
            out.push(x);
        }
        i += 1;
    }
    out
}

} // verus!
