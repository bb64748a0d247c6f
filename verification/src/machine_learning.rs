//! Shape bookkeeping for the dense-layer operations.
//!
//! A dense layer multiplies a weight matrix with an input matrix and adds
//! a bias; these helpers give the output shapes of the forward pass and of
//! the gradient passes, which the batching layer needs when it declares a
//! sample's output.

use vstd::prelude::*;

use crate::tensor::slice_to_vec_copy;

verus! {

/// Output shape of the forward pass: weight rows by input columns.
pub fn forward_shape(weight_shapes: &[u32], input_shapes: &[u32]) -> (r: Vec<u32>)
    requires
        weight_shapes@.len() >= 1,
        input_shapes@.len() >= 2,
    ensures
        r@ == seq![weight_shapes@[0], input_shapes@[1]],
{
    let mut r: Vec<u32> = Vec::with_capacity(2);
    r.push(weight_shapes[0]);
    r.push(input_shapes[1]);
    proof {
        assert(r@ =~= seq![weight_shapes@[0], input_shapes@[1]]);
    }
    r
}

/// Output shape of the weight-gradient pass: the weight shape itself.
pub fn backward_weights_shape(weight_shapes: &[u32]) -> (r: Vec<u32>)
    ensures
        r@ == weight_shapes@,
{
    slice_to_vec_copy(weight_shapes)
}

/// Output shape of the bias-gradient pass: the bias shape itself.
pub fn backward_bias_shape(bias_shapes: &[u32]) -> (r: Vec<u32>)
    ensures
        r@ == bias_shapes@,
{
    slice_to_vec_copy(bias_shapes)
}

/// Output shape of the input-gradient pass: the cached input shape itself.
pub fn backward_grad_shape(cache_shape: &[u32]) -> (r: Vec<u32>)
    ensures
        r@ == cache_shape@,
{
    slice_to_vec_copy(cache_shape)
}

} // verus!
