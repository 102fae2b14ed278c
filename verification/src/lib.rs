//! Kernels for the forward pass of one neural-network layer, `output = input × weights`,
//! on fixed-point samples.
//!
//! Samples and weights are `i32` values on a scale of the caller's choosing; sums of
//! products are `i128`, wide enough for any rank that fits in memory, so no kernel
//! rounds or wraps and all of them can be compared for exact equality.
//!
//! [`model`] defines the output that the kernels are specified against, [`kernels`],
//! [`sparse`] and [`dense_array`] hold the kernels with the layouts they read,
//! [`layout`] converts between layouts, [`sparsity`] and [`sampler`] measure and
//! produce zeros, [`harness`] runs and times every kernel on one set of inputs, and
//! [`laws`] states what holds across them.

pub mod error;
pub mod model;
pub mod activation;
pub mod layout;
pub mod lanes;
pub mod kernels;
pub mod sparse;
pub mod dense_array;
pub mod sparsity;
pub mod sampler;
pub mod harness;
pub mod laws;
