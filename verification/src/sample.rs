//! One batched operation instance.
//!
//! A sample packages the input tensors of one operation, its scalar
//! parameters and its declared output shape into flat arrays, ready to be
//! appended to a batch.  The element data of all input tensors is
//! concatenated in argument order, and so are their shapes; the order is
//! meaningful, since it must match the binding order the compute program
//! expects.

use vstd::prelude::*;

use crate::tensor::shape_product;
use crate::tensor::Tensor;

verus! {

/// The element data of a row of tensors, concatenated in order.
pub open spec fn flattened_inputs<T>(ts: Seq<Tensor<T>>) -> Seq<T>
    decreases ts.len(),
{
    if ts.len() == 0 {
        Seq::empty()
    } else {
        flattened_inputs(ts.drop_last()) + ts.last().data_seq()
    }
}

/// The shapes of a row of tensors, concatenated in order.
pub open spec fn flattened_shapes<T>(ts: Seq<Tensor<T>>) -> Seq<u32>
    decreases ts.len(),
{
    if ts.len() == 0 {
        Seq::empty()
    } else {
        flattened_shapes(ts.drop_last()) + ts.last().shape_seq()
    }
}

/// A sample for one batched operation.
pub struct Sample<T> {
    inputs: Vec<T>,
    shapes: Vec<u32>,
    params: Vec<T>,
    output_len: u32,
    output_shape: Vec<u32>,
    input_len: usize,
}

impl<T> Sample<T> {
    /// The flattened element data of the sample's input tensors.
    pub closed spec fn inputs_seq(&self) -> Seq<T> {
        self.inputs@
    }

    /// The concatenated shapes of the sample's input tensors.
    pub closed spec fn shapes_seq(&self) -> Seq<u32> {
        self.shapes@
    }

    /// The scalar parameters of the sample.
    pub closed spec fn params_seq(&self) -> Seq<T> {
        self.params@
    }

    /// The declared output shape.
    pub closed spec fn output_shape_seq(&self) -> Seq<u32> {
        self.output_shape@
    }

    /// The element count of the declared output.
    pub closed spec fn spec_output_len(&self) -> u32 {
        self.output_len
    }

    /// This sample's contribution to a batch's flattened inputs.
    pub closed spec fn spec_input_len(&self) -> usize {
        self.input_len
    }

    /// Well-formedness: the output length is the element count of the
    /// output shape, and the recorded input length is the real one.
    pub open spec fn wf(&self) -> bool {
        &&& self.spec_output_len() == shape_product(self.output_shape_seq())
        &&& self.spec_input_len() == self.inputs_seq().len()
    }

    /// Returns a reference to the flattened input data.
    pub fn get_inputs(&self) -> (r: &Vec<T>)
        ensures
            r@ == self.inputs_seq(),
    {
        &self.inputs
    }

    /// Returns a reference to the concatenated input shapes.
    pub fn get_shapes(&self) -> (r: &Vec<u32>)
        ensures
            r@ == self.shapes_seq(),
    {
        &self.shapes
    }

    /// Returns a reference to the scalar parameters.
    pub fn get_params(&self) -> (r: &Vec<T>)
        ensures
            r@ == self.params_seq(),
    {
        &self.params
    }

    /// The element count of the declared output.
    pub fn get_output_len(&self) -> (r: u32)
        ensures
            r == self.spec_output_len(),
    {
        self.output_len
    }

    /// Returns a reference to the declared output shape.
    pub fn get_output_shape(&self) -> (r: &Vec<u32>)
        ensures
            r@ == self.output_shape_seq(),
    {
        &self.output_shape
    }

    /// This sample's contribution to a batch's flattened inputs.
    pub fn get_input_len(&self) -> (r: usize)
        ensures
            r == self.spec_input_len(),
    {
        self.input_len
    }
}

impl<T: Copy> Sample<T> {
    /// Creates a sample from input tensors, scalar parameters and an
    /// output shape.  The tensors' data and shapes are concatenated in
    /// argument order; the output length is the element count of the
    /// output shape.
    pub fn from_data(input_tensors: Vec<Tensor<T>>, params: Vec<T>, output_shape: &[u32]) -> (r:
        Sample<T>)
        requires
            shape_product(output_shape@) <= u32::MAX,
        ensures
            r.wf(),
            r.inputs_seq() == flattened_inputs(input_tensors@),
            r.shapes_seq() == flattened_shapes(input_tensors@),
            r.params_seq() == params@,
            r.output_shape_seq() == output_shape@,
            r.spec_output_len() == shape_product(output_shape@),
            r.spec_input_len() == flattened_inputs(input_tensors@).len(),
    {
        let ghost ts = input_tensors@;
        let mut inputs: Vec<T> = Vec::new();
        let mut shapes: Vec<u32> = Vec::new();

        proof {
            assert(ts.take(0) =~= Seq::<Tensor<T>>::empty());
            assert(flattened_inputs(ts.take(0)) =~= Seq::<T>::empty());
            assert(flattened_shapes(ts.take(0)) =~= Seq::<u32>::empty());
        }
        let mut i: usize = 0;
        while i < input_tensors.len()
            invariant
                0 <= i <= ts.len(),
                input_tensors@ == ts,
                inputs@ == flattened_inputs(ts.take(i as int)),
                shapes@ == flattened_shapes(ts.take(i as int)),
            decreases ts.len() - i,
        {
            extend_copy(&mut inputs, input_tensors[i].get_data().as_slice());
            extend_copy(&mut shapes, input_tensors[i].get_shape().as_slice());
            proof {
                assert(ts.take(i + 1).drop_last() =~= ts.take(i as int));
                assert(ts.take(i + 1).last() == ts[i as int]);
            }
            i += 1;
        }
        proof {
            assert(ts.take(ts.len() as int) =~= ts);
        }

        let output_len: u32 = crate::tensor::checked_shape_product(output_shape).unwrap();
        let input_len = inputs.len();

        Sample {
            inputs,
            shapes,
            params,
            output_len,
            output_shape: crate::tensor::slice_to_vec_copy(output_shape),
            input_len,
        }
    }
}

/// Appends a copy of every element of a slice to a vector.
pub(crate) fn extend_copy<T: Copy>(dst: &mut Vec<T>, src: &[T])
    ensures
        final(dst)@ == old(dst)@ + src@,
{
    proof {
        assert(old(dst)@ + src@.take(0) =~= old(dst)@);
    }
    let mut i: usize = 0;
    while i < src.len()
        invariant
            0 <= i <= src@.len(),
            dst@ == old(dst)@ + src@.take(i as int),
        decreases src@.len() - i,
    {
        dst.push(src[i]);
        proof {
            assert(old(dst)@ + src@.take(i + 1) =~= (old(dst)@ + src@.take(i as int)).push(
                src@[i as int],
            ));
        }
        i += 1;
    }
    proof {
        assert(src@.take(src@.len() as int) =~= src@);
        assert(old(dst)@ + src@.take(src@.len() as int) =~= old(dst)@ + src@);
    }
}

} // verus!
