//! Device-side planning: byte budgets, buffer layout and dispatch grids.
//!
//! The accelerator executes a chunk through a fixed binding convention:
//! binding 0 is the flattened input buffer, binding 1 the shape metadata
//! (present only when the batch uses it), binding 2 the scalar parameters
//! (present only when the batch uses them), and binding 3 the output
//! buffer.  All numeric data crosses the device boundary as 32-bit values.
//! This module computes, as plain data, everything the execution layer
//! needs to create those buffers and dispatch work over them.

use vstd::prelude::*;

use crate::tensor::shape_product;
use crate::tensor::Tensor;

verus! {

/// Bytes of one transferred element: all numeric data is 32 bits wide.
pub const ELEM_BYTES: u64 = 4;

/// Unit in which a byte budget is given.
#[derive(Debug, PartialEq, Eq, Structural, Clone, Copy)]
pub enum MemoryMetric {
    B,
    MB,
    GB,
}

/// Bytes per unit of a memory metric.
pub open spec fn metric_bytes(metric: MemoryMetric) -> nat {
    match metric {
        MemoryMetric::B => 1,
        MemoryMetric::MB => 0x10_0000,
        MemoryMetric::GB => 0x4000_0000,
    }
}

/// Changes a byte budget given as `(value, unit)` into raw bytes.
pub fn get_size_using_metric(max_buffer_size: u64, metric: &MemoryMetric) -> (r: u64)
    requires
        max_buffer_size * metric_bytes(*metric) <= u64::MAX,
    ensures
        r == max_buffer_size * metric_bytes(*metric),
{
    match metric {
        MemoryMetric::B => max_buffer_size,
        MemoryMetric::MB => max_buffer_size * 1024 * 1024,
        MemoryMetric::GB => max_buffer_size * 1024 * 1024 * 1024,
    }
}

/// Per-axis limit of a dispatch grid: the device accepts at most this many
/// workgroups along one axis.
pub const MAX_AXIS_GROUPS: u32 = 65535;

/// Workgroup size along the dispatch's first axis.
pub const WORKGROUP_SIZE: u32 = 64;

/// The two-dimensional workgroup grid that covers `output_len` invocations
/// with workgroups of 64: the workgroup count capped at the per-axis
/// limit, and the excess wrapped into a second axis.
pub fn workgroup_grid(output_len: u32) -> (r: (u32, u32, u32))
    requires
        output_len <= 0xFFFF_FFBF,
    ensures
        ({
            let total = (output_len + WORKGROUP_SIZE - 1) as int / (WORKGROUP_SIZE as int);
            &&& r.0 == if total < MAX_AXIS_GROUPS as int {
                total
            } else {
                MAX_AXIS_GROUPS as int
            }
            &&& r.1 >= 1
            &&& r.1 == if total / (MAX_AXIS_GROUPS as int) + 1 < MAX_AXIS_GROUPS as int {
                total / (MAX_AXIS_GROUPS as int) + 1
            } else {
                MAX_AXIS_GROUPS as int
            }
            &&& r.2 == 1
        }),
        output_len > 0 ==> (r.0 as int) * (r.1 as int) * (WORKGROUP_SIZE as int) >= output_len,
{
    let workgroup_size: u32 = WORKGROUP_SIZE;
    let total_invocations: u32 = output_len;
    let total_workgroups = (total_invocations + workgroup_size - 1) / workgroup_size;

    let x = if total_workgroups < MAX_AXIS_GROUPS {
        total_workgroups
    } else {
        MAX_AXIS_GROUPS
    };
    let wrapped = total_workgroups / MAX_AXIS_GROUPS + 1;
    let y = if wrapped < MAX_AXIS_GROUPS {
        wrapped
    } else {
        MAX_AXIS_GROUPS
    };
    let z: u32 = 1;

    proof {
        let len = output_len as int;
        let total = total_workgroups as int;
        if output_len > 0 {
            vstd::arithmetic::div_mod::lemma_fundamental_div_mod(len + 63, 64);
            assert(total * 64 >= len);
            if total < 65535 {
                assert((x as int) * (y as int) >= total) by (nonlinear_arith)
                    requires
                        x as int == total,
                        y as int >= 1,
                        total >= 0,
                ;
            } else {
                let q = total / 65535;
                vstd::arithmetic::div_mod::lemma_fundamental_div_mod(total, 65535);
                if q + 1 < 65535 {
                    assert(65535 * (q + 1) >= total);
                    assert((x as int) * (y as int) == 65535 * (q + 1));
                } else {
                    assert((x as int) * (y as int) == 65535 * 65535) by (nonlinear_arith)
                        requires
                            x as int == 65535,
                            y as int == 65535,
                    ;
                    assert(total <= 0x4000_0000);
                    assert(65535 * 65535 >= total);
                }
            }
            assert((x as int) * (y as int) * 64 >= total * 64) by (nonlinear_arith)
                requires
                    (x as int) * (y as int) >= total,
                    total >= 0,
            ;
        }
    }
    (x, y, z)
}

/// The binding slots a buffer plan occupies, in the order the binding
/// objects are built: inputs, output, then shapes and parameters when
/// present.
pub open spec fn spec_bindings(has_shapes: bool, has_params: bool) -> Seq<u32> {
    seq![0u32, 3u32] + (if has_shapes {
        seq![1u32]
    } else {
        Seq::<u32>::empty()
    }) + (if has_params {
        seq![2u32]
    } else {
        Seq::<u32>::empty()
    })
}

/// The capability descriptor of one chunk's device buffers: which optional
/// buffers exist and how large every buffer is, in elements.  The
/// execution layer creates one set of device buffers per plan; two plans
/// with the same sizes can share buffers through an in-place update, while
/// differing sizes force the buffers to be rewritten.
pub struct BufferPlan {
    /// Elements in the chunk's input buffer.
    pub input_len: usize,
    /// Elements in the shape-metadata buffer; meaningful only when
    /// present.
    pub shapes_len: usize,
    /// Elements in the parameter buffer; meaningful only when present.
    pub params_len: usize,
    /// Whether the shape-metadata buffer exists (binding 1).
    pub has_shapes: bool,
    /// Whether the parameter buffer exists (binding 2).
    pub has_params: bool,
    /// Elements in the output buffer.
    pub output_len: usize,
    /// Output shape of each sample in the chunk.
    pub output_shape: Vec<u32>,
    /// Whole samples the chunk holds.
    pub samples_count: usize,
}

impl BufferPlan {
    /// Computes the plan of one chunk of a batch: the optional buffers
    /// exist exactly when the batch ships them and they are nonempty, and
    /// every buffer size mirrors the chunk.
    pub fn from_chunk<T: Copy>(data: &crate::gpu_data::GpuData<T>, chunk_id: usize) -> (r:
        BufferPlan)
        requires
            data.wf(),
        ensures
            r.has_shapes == (data.spec_use_shapes() && data.flat_shapes_seq().len() != 0),
            r.has_params == (data.spec_use_params() && data.params_seq().len() != 0),
            r.shapes_len == data.flat_shapes_seq().len(),
            r.params_len == data.params_seq().len(),
            r.output_shape@ == data.output_shape_seq(),
            chunk_id >= data.spec_chunks() ==> r.input_len == data.flat_inputs_seq().len()
                && r.samples_count == data.spec_samples_count() && r.output_len
                == data.spec_output_len(),
            chunk_id < data.spec_chunks() ==> {
                let start = data.chunk_start(chunk_id as int);
                let end = data.chunk_end(chunk_id as int);
                &&& r.input_len == end - start
                &&& (r.samples_count as int) * (data.spec_input_per_sample() as int) == end - start
                &&& r.samples_count <= data.spec_samples_count()
                &&& r.output_len == if data.spec_single_output() {
                    data.spec_output_len() as int
                } else {
                    (r.samples_count as int) * (data.spec_output_per_sample() as int)
                }
            },
    {
        let chunk = data.get_chunk(chunk_id).unwrap();
        let (chunk_inputs, samples_in_chunk, output_in_chunk) = chunk;

        BufferPlan {
            input_len: chunk_inputs.len(),
            shapes_len: data.get_flat_shapes().len(),
            params_len: data.get_params().len(),
            has_shapes: data.get_use_shapes() && data.get_flat_shapes().len() != 0,
            has_params: data.get_use_params() && data.get_params().len() != 0,
            output_len: output_in_chunk,
            output_shape: crate::tensor::slice_to_vec_copy(data.get_output_shape().as_slice()),
            samples_count: samples_in_chunk,
        }
    }

    /// The binding slots this plan occupies, in the order the binding
    /// objects are built.
    pub fn bindings(&self) -> (r: Vec<u32>)
        ensures
            r@ == spec_bindings(self.has_shapes, self.has_params),
    {
        let mut r: Vec<u32> = Vec::new();
        r.push(0);
        r.push(3);
        if self.has_shapes {
            r.push(1);
        }
        if self.has_params {
            r.push(2);
        }
        proof {
            assert(r@ =~= spec_bindings(self.has_shapes, self.has_params));
        }
        r
    }

    /// Whether device buffers created for this plan can be updated in
    /// place to hold the other plan's chunk: every buffer must exist on
    /// the same side and have the same size.
    pub fn update_compatible(&self, other: &BufferPlan) -> (r: bool)
        ensures
            r <==> (self.input_len == other.input_len && self.has_shapes == other.has_shapes
                && self.has_params == other.has_params && (self.has_shapes ==> self.shapes_len
                == other.shapes_len) && (self.has_params ==> self.params_len == other.params_len)
                && self.output_len == other.output_len),
    {
        self.input_len == other.input_len && self.has_shapes == other.has_shapes
            && self.has_params == other.has_params && (!self.has_shapes || self.shapes_len
            == other.shapes_len) && (!self.has_params || self.params_len == other.params_len)
            && self.output_len == other.output_len
    }
}

/// Splits a flat device readback into per-sample tensors: one tensor of
/// the given output shape per complete sample slice, never more than the
/// chunk's sample count.
pub fn output_to_tensors<T: Default + Copy>(
    output_data: &[T],
    output_shape: &[u32],
    samples_count: u32,
) -> (r: Vec<Tensor<T>>)
    requires
        1 <= shape_product(output_shape@) <= u32::MAX,
    ensures
        ({
            let ss = shape_product(output_shape@) as int;
            let n = if (output_data@.len() as int) / ss < samples_count as int {
                (output_data@.len() as int) / ss
            } else {
                samples_count as int
            };
            &&& r@.len() == n
            &&& forall|i: int|
                0 <= i < n ==> {
                    &&& (#[trigger] r@[i]).wf()
                    &&& r@[i].shape_seq() == output_shape@
                    &&& r@[i].data_seq() == output_data@.subrange(i * ss, (i + 1) * ss)
                }
        }),
{
    let ghost ss = shape_product(output_shape@) as int;
    let sample_size: u32 = crate::tensor::checked_shape_product(output_shape).unwrap();

    let bound_a = output_data.len() / sample_size as usize;
    let bound = if bound_a < samples_count as usize {
        bound_a
    } else {
        samples_count as usize
    };

    proof {
        let dlen = output_data@.len() as int;
        vstd::arithmetic::div_mod::lemma_fundamental_div_mod(dlen, ss);
        vstd::arithmetic::div_mod::lemma_mod_bound(dlen, ss);
        let q = dlen / ss;
        assert(q * ss <= dlen);
        assert((bound as int) * ss <= dlen) by (nonlinear_arith)
            requires
                bound as int <= q,
                ss >= 0,
                q * ss <= dlen,
                bound >= 0,
        ;
    }
    let mut output_vec: Vec<Tensor<T>> = Vec::with_capacity(bound);
    let mut i: usize = 0;
    while i < bound
        invariant
            ss == shape_product(output_shape@),
            1 <= ss <= u32::MAX,
            sample_size == ss,
            bound == if (output_data@.len() as int) / ss < samples_count as int {
                (output_data@.len() as int) / ss
            } else {
                samples_count as int
            },
            bound * ss <= output_data@.len(),
            output_data@.len() <= usize::MAX,
            0 <= i <= bound,
            output_vec@.len() == i,
            forall|j: int|
                0 <= j < i ==> {
                    &&& (#[trigger] output_vec@[j]).wf()
                    &&& output_vec@[j].shape_seq() == output_shape@
                    &&& output_vec@[j].data_seq() == output_data@.subrange(j * ss, (j + 1) * ss)
                },
        decreases bound - i,
    {
        proof {
            let ii = i as int;
            assert((ii + 1) * ss <= bound * ss) by (nonlinear_arith)
                requires
                    ii + 1 <= bound,
                    ss >= 0,
            ;
            assert(ii * ss + ss == (ii + 1) * ss) by (nonlinear_arith);
            assert(ii * ss >= 0) by (nonlinear_arith)
                requires
                    ii >= 0,
                    ss >= 0,
            ;
            assert((ii + 1) * ss <= output_data@.len());
            assert(ii * ss + ss <= output_data@.len());
            assert(output_data@.len() <= usize::MAX);
        }
        let start = i * sample_size as usize;
        let end = start + sample_size as usize;
        let piece = vstd::slice::slice_subrange(output_data, start, end);
        let t = Tensor::from_data(piece, output_shape);
        output_vec.push(t.unwrap());
        i += 1;
    }
    output_vec
}

} // verus!
