//! Batch-runner decisions: budget-aligned sizing and the single-output
//! fix-up.
//!
//! A reduction-style operation run over several chunks produces one
//! partial result per chunk.  Those partials cannot simply be
//! concatenated; they must be combined by a second, smaller reduction
//! pass.  [`build_overflow_batch`] builds the batch for that corrective
//! pass: the partial results stacked along the leading axis, as a single
//! single-output sample, ready for a column-sum dispatch.

use vstd::prelude::*;

use crate::gpu_data::GpuData;
use crate::sample::flattened_inputs;
use crate::sample::flattened_shapes;
use crate::sample::Sample;
use crate::tensor::shape_product;
use crate::tensor::Tensor;

verus! {

/// How partial results of a multi-chunk reduction are combined.
#[derive(Debug, PartialEq, Eq, Structural, Clone, Copy)]
pub enum OverflowOperation {
    Add,
    Prod,
}

/// The largest element count that fits a byte budget as whole samples:
/// data that already fits is returned unchanged, oversized data is cut to
/// the budget rounded down to a whole number of sample byte blocks.
pub fn split_to_correct_size(buffer_size: u64, data_len: usize, sample_len: usize) -> (r: usize)
    requires
        sample_len >= 1,
        data_len * 4 <= usize::MAX,
        sample_len * 4 <= usize::MAX,
        buffer_size <= usize::MAX,
    ensures
        data_len * 4 > buffer_size ==> r == buffer_size - (buffer_size as int) % ((
        sample_len * 4) as int),
        data_len * 4 <= buffer_size ==> r == data_len,
{
    if data_len * 4 > buffer_size as usize {
        let sample_bytes = (sample_len * 4) as u64;
        proof {
            vstd::arithmetic::div_mod::lemma_mod_bound(
                buffer_size as int,
                sample_bytes as int,
            );
            vstd::arithmetic::div_mod::lemma_mod_decreases(
                buffer_size as nat,
                sample_bytes as nat,
            );
        }
        return (buffer_size - buffer_size % sample_bytes) as usize;
    }

    data_len
}

/// All tensors in the row are well-formed, have the same shape as the
/// first, and that shape has at least one axis.
pub open spec fn uniform_partials<T>(ts: Seq<Tensor<T>>) -> bool {
    &&& ts.len() >= 1
    &&& forall|i: int| 0 <= i < ts.len() ==> (#[trigger] ts[i]).wf()
    &&& forall|i: int| 0 <= i < ts.len() ==> (#[trigger] ts[i]).shape_seq() == ts[0].shape_seq()
    &&& ts[0].shape_seq().len() >= 1
}

/// Builds the corrective batch for a multi-chunk reduction: the partial
/// results are stacked along the leading axis into one tensor, which
/// becomes the single sample of a fresh single-output batch without
/// parameters.  Running a column-sum pass over that batch collapses the
/// partials into the true aggregate.
pub fn build_overflow_batch<T: Copy + Default + PartialEq>(partials: &Vec<Tensor<T>>) -> (r:
    GpuData<T>)
    requires
        uniform_partials(partials@),
        partials@.len() * (partials@[0].shape_seq()[0] as int) <= u32::MAX,
        flattened_inputs(partials@).len() <= u32::MAX,
    ensures
        r.wf(),
        r.flat_inputs_seq() == flattened_inputs(partials@),
        r.output_shape_seq() == partials@[0].shape_seq(),
        r.flat_shapes_seq() == partials@[0].shape_seq().update(
            0,
            ((partials@.len() * partials@[0].shape_seq()[0]) as u32),
        ),
        r.spec_single_output(),
        !r.spec_use_params(),
        r.spec_use_shapes(),
        r.spec_samples_count() == 1,
        r.spec_output_len() == shape_product(partials@[0].shape_seq()),
        r.spec_chunks() == 0,
{
    let ghost ts = partials@;
    let ghost shape0 = partials@[0].shape_seq();
    let s0 = partials[0].get_shape()[0];

    let mut return_tensor: Tensor<T> = Tensor::from_data(
        partials[0].get_data().as_slice(),
        partials[0].get_shape().as_slice(),
    ).unwrap();
    proof {
        assert(ts.take(1) =~= seq![ts[0]]);
        assert(seq![ts[0]].drop_last() =~= Seq::<Tensor<T>>::empty());
        assert(flattened_inputs(Seq::<Tensor<T>>::empty()) =~= Seq::<T>::empty());
        assert(Seq::<T>::empty() + ts[0].data_seq() =~= ts[0].data_seq());
        assert(shape0.update(0, shape0[0]) =~= shape0);
        lemma_flattened_inputs_len(ts, 1);
    }

    let mut i: usize = 1;
    while i < partials.len()
        invariant
            partials@ == ts,
            uniform_partials(ts),
            shape0 == ts[0].shape_seq(),
            s0 == shape0[0],
            ts.len() * (shape0[0] as int) <= u32::MAX,
            flattened_inputs(ts).len() <= u32::MAX,
            1 <= i <= ts.len(),
            return_tensor.wf(),
            return_tensor.data_seq() == flattened_inputs(ts.take(i as int)),
            return_tensor.shape_seq() == shape0.update(0, ((i * shape0[0]) as u32)),
            return_tensor.data_seq().len() == flattened_inputs(ts.take(i as int)).len(),
        decreases ts.len() - i,
    {
        proof {
            assert(ts.take(i + 1).drop_last() =~= ts.take(i as int));
            assert(ts.take(i + 1).last() == ts[i as int]);
            lemma_flattened_inputs_len(ts, i as int);
            lemma_flattened_inputs_len(ts, i + 1);
            lemma_flattened_prefix_le(ts, i + 1);
            let ii = i as int;
            let s0i = shape0[0] as int;
            assert((ii + 1) * s0i == ii * s0i + s0i) by (nonlinear_arith);
            assert(ii * s0i <= ts.len() * s0i && (ii + 1) * s0i <= ts.len() * s0i)
                by (nonlinear_arith)
                requires
                    1 <= ii,
                    ii + 1 <= ts.len(),
                    s0i >= 0,
            ;
            assert(return_tensor.shape_seq().drop_first() =~= ts[ii].shape_seq().drop_first());
        }
        let appended = return_tensor.append(&partials[i]);
        return_tensor = appended.unwrap();
        proof {
            let ii = i as int;
            assert(return_tensor.shape_seq() =~= shape0.update(0, (((ii + 1) * shape0[0]) as u32)));
        }
        i += 1;
    }
    proof {
        assert(ts.take(ts.len() as int) =~= ts);
    }

    let mut overflow_data: GpuData<T> = GpuData::with_capacity(return_tensor.get_data().len());
    overflow_data.disable_params();
    overflow_data.enable_single_output();

    let ghost rt = return_tensor;
    let mut row: Vec<Tensor<T>> = Vec::new();
    row.push(return_tensor);
    let ghost rowseq = row@;
    proof {
        assert(rowseq =~= seq![rt]);
        assert(seq![rt].drop_last() =~= Seq::<Tensor<T>>::empty());
        assert(flattened_inputs(Seq::<Tensor<T>>::empty()) =~= Seq::<T>::empty());
        assert(flattened_shapes(Seq::<Tensor<T>>::empty()) =~= Seq::<u32>::empty());
        assert(flattened_inputs(rowseq) =~= rt.data_seq());
        assert(flattened_shapes(rowseq) =~= rt.shape_seq());
    }

    let empty_params: Vec<T> = Vec::new();
    let sample: Sample<T> = Sample::from_data(row, empty_params, partials[0].get_shape().as_slice());

    let ok = overflow_data.append(sample);
    proof {
        assert(ok);
    }
    overflow_data
}

/// The flattened data of a prefix of uniform partials has one whole
/// tensor's element count per entry.
proof fn lemma_flattened_inputs_len<T>(ts: Seq<Tensor<T>>, k: int)
    requires
        0 <= k <= ts.len(),
        forall|i: int| 0 <= i < ts.len() ==> (#[trigger] ts[i]).wf(),
        forall|i: int| 0 <= i < ts.len() ==> (#[trigger] ts[i]).shape_seq() == ts[0].shape_seq(),
    ensures
        flattened_inputs(ts.take(k)).len() == k * (shape_product(ts[0].shape_seq()) as int),
    decreases k,
{
    if k == 0 {
        assert(ts.take(0) =~= Seq::<Tensor<T>>::empty());
    } else {
        lemma_flattened_inputs_len(ts, k - 1);
        assert(ts.take(k).drop_last() =~= ts.take(k - 1));
        assert(ts.take(k).last() == ts[k - 1]);
        let c = shape_product(ts[0].shape_seq()) as int;
        assert(k * c == (k - 1) * c + c) by (nonlinear_arith);
    }
}

/// A prefix never flattens to more elements than the whole row.
proof fn lemma_flattened_prefix_le<T>(ts: Seq<Tensor<T>>, k: int)
    requires
        0 <= k <= ts.len(),
        forall|i: int| 0 <= i < ts.len() ==> (#[trigger] ts[i]).wf(),
        forall|i: int| 0 <= i < ts.len() ==> (#[trigger] ts[i]).shape_seq() == ts[0].shape_seq(),
    ensures
        flattened_inputs(ts.take(k)).len() <= flattened_inputs(ts).len(),
{
    lemma_flattened_inputs_len(ts, k);
    lemma_flattened_inputs_len(ts, ts.len() as int);
    assert(ts.take(ts.len() as int) =~= ts);
    let c = shape_product(ts[0].shape_seq()) as int;
    assert(k * c <= ts.len() * c) by (nonlinear_arith)
        requires
            k <= ts.len(),
            c >= 0,
    ;
}

} // verus!
