//! The activation function.

use vstd::prelude::*;

verus! {

/// One sample after rectification: a negative sample becomes zero, any other is kept.
pub open spec fn rectified(x: i32) -> i32 {
    if x < 0 {
        0
    } else {
        x
    }
}

/// A vector after rectification, element by element.
pub open spec fn relu_of(v: Seq<i32>) -> Seq<i32> {
    Seq::new(v.len(), |i: int| rectified(v[i]))
}

/// Rectifies a vector: same length, same order, negatives replaced by zero.
pub fn relu(vec: &Vec<i32>) -> (out: Vec<i32>)
    ensures
        out@ == relu_of(vec@),
{
    let mut out: Vec<i32> = Vec::new();
    let mut i: usize = 0;
    while i < vec.len()
        invariant
            i <= vec.len(),
            out@.len() == i,
            forall|k: int| 0 <= k < i ==> out@[k] == rectified(vec@[k]),
        decreases vec.len() - i,
    {
        let x: i32 = vec[i];
        out.push(if x < 0 { 0 } else { x });
        i += 1;
    }
    assert(out@ =~= relu_of(vec@));
    out
}

/// Rectifying twice gives what rectifying once gives.
pub proof fn lemma_relu_idempotent(v: Seq<i32>)
    ensures
        relu_of(relu_of(v)) == relu_of(v),
{
    assert(relu_of(relu_of(v)) =~= relu_of(v));
}

/// A rectified vector has no negative element, and its zeros are the input's
/// non-positive elements.
pub proof fn lemma_relu_nonnegative(v: Seq<i32>)
    ensures
        forall|i: int| 0 <= i < v.len() ==> (#[trigger] relu_of(v)[i]) >= 0,
        forall|i: int| 0 <= i < v.len() ==> ((#[trigger] relu_of(v)[i]) == 0 <==> v[i] <= 0),
{
}

} // verus!
