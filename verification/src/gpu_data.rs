//! The batch accumulator: all operations that will run in one pass.
//!
//! A `GpuData` collects samples, validates that they are batch-compatible
//! (same input shapes, same parameters, same output shape, same size), and
//! maintains the flattened input array together with the chunking state
//! that splits an oversized batch into device-buffer-sized chunks.  A
//! chunk boundary is always a multiple of one sample's input length, so a
//! chunk never contains a partial sample.

use vstd::prelude::*;
use vstd::std_specs::cmp::PartialEqSpec;

use crate::device::metric_bytes;
use crate::device::MemoryMetric;
use crate::device::ELEM_BYTES;
use crate::sample::extend_copy;
use crate::sample::Sample;
use crate::tensor::shape_product;
use crate::tensor::slice_to_vec_copy;

verus! {

/// Elementwise equality of two parameter rows, as the element type's `==`
/// specifies it.
pub open spec fn params_match<T: PartialEq>(a: Seq<T>, b: Seq<T>) -> bool {
    &&& a.len() == b.len()
    &&& forall|i: int| 0 <= i < a.len() ==> a[i].eq_spec(&b[i])
}

/// The number of chunks a batch of `len` elements needs with at most
/// `mcl` elements per chunk: the ceiling of `len / mcl`.
pub open spec fn chunk_count(len: int, mcl: int) -> int
    recommends
        mcl > 0,
{
    len / mcl + if len % mcl != 0 {
        1int
    } else {
        0int
    }
}

/// Data for all accelerator operations that will happen in one pass.
pub struct GpuData<T> {
    flat_inputs: Vec<T>,
    flat_shapes: Vec<u32>,
    params: Vec<T>,
    output_len: usize,
    output_shape: Vec<u32>,
    use_params: bool,
    use_shapes: bool,
    single_output: bool,
    samples_count: u32,
    output_per_sample: usize,
    input_per_sample: usize,
    max_chunk_len: usize,
    chunks: usize,
}

impl<T> GpuData<T> {
    /// The flattened input data of every appended sample, in order.
    pub closed spec fn flat_inputs_seq(&self) -> Seq<T> {
        self.flat_inputs@
    }

    /// The concatenated input shapes, captured from the first sample.
    pub closed spec fn flat_shapes_seq(&self) -> Seq<u32> {
        self.flat_shapes@
    }

    /// The scalar parameters, captured from the first sample.
    pub closed spec fn params_seq(&self) -> Seq<T> {
        self.params@
    }

    /// The declared output shape, captured from the first sample.
    pub closed spec fn output_shape_seq(&self) -> Seq<u32> {
        self.output_shape@
    }

    /// Total output element count of the batch.
    pub closed spec fn spec_output_len(&self) -> usize {
        self.output_len
    }

    /// Whether the batch ships scalar parameters to the device.
    pub closed spec fn spec_use_params(&self) -> bool {
        self.use_params
    }

    /// Whether the batch ships shape metadata to the device.
    pub closed spec fn spec_use_shapes(&self) -> bool {
        self.use_shapes
    }

    /// Whether every sample's result shares one output region.
    pub closed spec fn spec_single_output(&self) -> bool {
        self.single_output
    }

    /// How many samples the batch holds.
    pub closed spec fn spec_samples_count(&self) -> u32 {
        self.samples_count
    }

    /// Output element count of one sample.
    pub closed spec fn spec_output_per_sample(&self) -> usize {
        self.output_per_sample
    }

    /// Input element count of one sample.
    pub closed spec fn spec_input_per_sample(&self) -> usize {
        self.input_per_sample
    }

    /// Elements per chunk, rounded down to a multiple of the sample input
    /// length; 0 while chunking is not prepared.
    pub closed spec fn spec_max_chunk_len(&self) -> usize {
        self.max_chunk_len
    }

    /// Number of chunks the batch splits into; 0 while chunking is not
    /// prepared.
    pub closed spec fn spec_chunks(&self) -> usize {
        self.chunks
    }

    /// Well-formedness of the accumulator.
    ///
    /// The flattened input holds exactly one sample-sized block per
    /// sample; the per-sample output length agrees with the output shape;
    /// the total output length is one per-sample output in single-output
    /// mode and the per-sample output times the sample count otherwise;
    /// and prepared chunking always cuts at multiples of the sample input
    /// length.
    pub open spec fn wf(&self) -> bool {
        &&& self.flat_inputs_seq().len() == (self.spec_samples_count() as nat) * (
        self.spec_input_per_sample() as nat)
        &&& self.spec_samples_count() == 0 ==> (self.spec_input_per_sample() == 0
            && self.spec_output_per_sample() == 0 && self.output_shape_seq().len() == 0
            && self.flat_shapes_seq().len() == 0 && self.spec_chunks() == 0)
        &&& self.spec_samples_count() > 0 ==> (self.spec_output_per_sample() == shape_product(
            self.output_shape_seq(),
        ) && shape_product(self.output_shape_seq()) <= u32::MAX)
        &&& self.spec_output_len() == if self.spec_single_output() {
            if self.spec_samples_count() > 0 {
                self.spec_output_per_sample() as int
            } else {
                0
            }
        } else {
            (self.spec_samples_count() as int) * (self.spec_output_per_sample() as int)
        }
        &&& self.spec_chunks() > 0 ==> (self.spec_input_per_sample() > 0
            && self.spec_max_chunk_len() >= self.spec_input_per_sample()
            && self.spec_max_chunk_len() % self.spec_input_per_sample() == 0
            && self.spec_chunks() == chunk_count(
            self.flat_inputs_seq().len() as int,
            self.spec_max_chunk_len() as int,
        ))
    }

    /// Creates a new, empty batch.  Shapes and parameters are shipped by
    /// default; single-output mode is off.
    pub fn new() -> (r: GpuData<T>)
        ensures
            r.wf(),
            r.flat_inputs_seq().len() == 0,
            r.flat_shapes_seq().len() == 0,
            r.params_seq().len() == 0,
            r.output_shape_seq().len() == 0,
            r.spec_output_len() == 0,
            r.spec_use_params(),
            r.spec_use_shapes(),
            !r.spec_single_output(),
            r.spec_samples_count() == 0,
            r.spec_chunks() == 0,
    {
        GpuData {
            flat_inputs: Vec::new(),
            flat_shapes: Vec::new(),
            params: Vec::new(),
            output_len: 0,
            output_shape: Vec::new(),
            use_shapes: true,
            use_params: true,
            single_output: false,
            samples_count: 0,
            output_per_sample: 0,
            input_per_sample: 0,
            max_chunk_len: 0,
            chunks: 0,
        }
    }

    /// Creates a new, empty batch whose input array starts with the given
    /// capacity.
    pub fn with_capacity(capacity: usize) -> (r: GpuData<T>)
        ensures
            r.wf(),
            r.flat_inputs_seq().len() == 0,
            r.flat_shapes_seq().len() == 0,
            r.params_seq().len() == 0,
            r.output_shape_seq().len() == 0,
            r.spec_output_len() == 0,
            r.spec_use_params(),
            r.spec_use_shapes(),
            !r.spec_single_output(),
            r.spec_samples_count() == 0,
            r.spec_chunks() == 0,
    {
        GpuData {
            flat_inputs: Vec::with_capacity(capacity),
            flat_shapes: Vec::new(),
            params: Vec::new(),
            output_len: 0,
            output_shape: Vec::new(),
            use_params: true,
            use_shapes: true,
            single_output: false,
            samples_count: 0,
            output_per_sample: 0,
            input_per_sample: 0,
            max_chunk_len: 0,
            chunks: 0,
        }
    }

    /// Stops shipping scalar parameters.  Parameters are shipped by
    /// default.
    pub fn disable_params(&mut self)
        ensures
            final(self).spec_use_params() == false,
            final(self).spec_use_shapes() == old(self).spec_use_shapes(),
            final(self).params_seq() == old(self).params_seq(),
            final(self).flat_inputs_seq() == old(self).flat_inputs_seq(),
            final(self).flat_shapes_seq() == old(self).flat_shapes_seq(),
            final(self).output_shape_seq() == old(self).output_shape_seq(),
            final(self).spec_output_len() == old(self).spec_output_len(),
            final(self).spec_single_output() == old(self).spec_single_output(),
            final(self).spec_samples_count() == old(self).spec_samples_count(),
            final(self).spec_output_per_sample() == old(self).spec_output_per_sample(),
            final(self).spec_input_per_sample() == old(self).spec_input_per_sample(),
            final(self).spec_max_chunk_len() == old(self).spec_max_chunk_len(),
            final(self).spec_chunks() == old(self).spec_chunks(),
            old(self).wf() ==> final(self).wf(),
    {
        self.use_params = false;
    }

    /// Ships scalar parameters.  Parameters are shipped by default.
    pub fn enable_params(&mut self)
        ensures
            final(self).spec_use_params() == true,
            final(self).spec_use_shapes() == old(self).spec_use_shapes(),
            final(self).params_seq() == old(self).params_seq(),
            final(self).flat_inputs_seq() == old(self).flat_inputs_seq(),
            final(self).flat_shapes_seq() == old(self).flat_shapes_seq(),
            final(self).output_shape_seq() == old(self).output_shape_seq(),
            final(self).spec_output_len() == old(self).spec_output_len(),
            final(self).spec_single_output() == old(self).spec_single_output(),
            final(self).spec_samples_count() == old(self).spec_samples_count(),
            final(self).spec_output_per_sample() == old(self).spec_output_per_sample(),
            final(self).spec_input_per_sample() == old(self).spec_input_per_sample(),
            final(self).spec_max_chunk_len() == old(self).spec_max_chunk_len(),
            final(self).spec_chunks() == old(self).spec_chunks(),
            old(self).wf() ==> final(self).wf(),
    {
        self.use_params = true;
    }

    /// Stops shipping shape metadata.  Shapes are shipped by default.
    pub fn disable_shapes(&mut self)
        ensures
            final(self).spec_use_shapes() == false,
            final(self).spec_use_params() == old(self).spec_use_params(),
            final(self).params_seq() == old(self).params_seq(),
            final(self).flat_inputs_seq() == old(self).flat_inputs_seq(),
            final(self).flat_shapes_seq() == old(self).flat_shapes_seq(),
            final(self).output_shape_seq() == old(self).output_shape_seq(),
            final(self).spec_output_len() == old(self).spec_output_len(),
            final(self).spec_single_output() == old(self).spec_single_output(),
            final(self).spec_samples_count() == old(self).spec_samples_count(),
            final(self).spec_output_per_sample() == old(self).spec_output_per_sample(),
            final(self).spec_input_per_sample() == old(self).spec_input_per_sample(),
            final(self).spec_max_chunk_len() == old(self).spec_max_chunk_len(),
            final(self).spec_chunks() == old(self).spec_chunks(),
            old(self).wf() ==> final(self).wf(),
    {
        self.use_shapes = false;
    }

    /// Ships shape metadata.  Shapes are shipped by default.
    pub fn enable_shapes(&mut self)
        ensures
            final(self).spec_use_shapes() == true,
            final(self).spec_use_params() == old(self).spec_use_params(),
            final(self).params_seq() == old(self).params_seq(),
            final(self).flat_inputs_seq() == old(self).flat_inputs_seq(),
            final(self).flat_shapes_seq() == old(self).flat_shapes_seq(),
            final(self).output_shape_seq() == old(self).output_shape_seq(),
            final(self).spec_output_len() == old(self).spec_output_len(),
            final(self).spec_single_output() == old(self).spec_single_output(),
            final(self).spec_samples_count() == old(self).spec_samples_count(),
            final(self).spec_output_per_sample() == old(self).spec_output_per_sample(),
            final(self).spec_input_per_sample() == old(self).spec_input_per_sample(),
            final(self).spec_max_chunk_len() == old(self).spec_max_chunk_len(),
            final(self).spec_chunks() == old(self).spec_chunks(),
            old(self).wf() ==> final(self).wf(),
    {
        self.use_shapes = true;
    }

    /// Switches to single-output mode, in which every sample's result is
    /// reduced into one shared output region; the total output length
    /// becomes one per-sample output.  Useful for reduction-style
    /// operations.
    pub fn enable_single_output(&mut self)
        requires
            old(self).wf(),
        ensures
            final(self).wf(),
            final(self).spec_single_output(),
            final(self).spec_output_len() == if old(self).spec_samples_count() > 0 {
                old(self).spec_output_per_sample() as int
            } else {
                0
            },
            final(self).flat_inputs_seq() == old(self).flat_inputs_seq(),
            final(self).flat_shapes_seq() == old(self).flat_shapes_seq(),
            final(self).params_seq() == old(self).params_seq(),
            final(self).output_shape_seq() == old(self).output_shape_seq(),
            final(self).spec_use_params() == old(self).spec_use_params(),
            final(self).spec_use_shapes() == old(self).spec_use_shapes(),
            final(self).spec_samples_count() == old(self).spec_samples_count(),
            final(self).spec_output_per_sample() == old(self).spec_output_per_sample(),
            final(self).spec_input_per_sample() == old(self).spec_input_per_sample(),
            final(self).spec_max_chunk_len() == old(self).spec_max_chunk_len(),
            final(self).spec_chunks() == old(self).spec_chunks(),
    {
        self.single_output = true;
        if self.samples_count > 0 {
            self.output_len = self.output_per_sample;
        } else {
            self.output_len = 0;
        }
    }

    /// Switches back to concatenated outputs: the total output length
    /// becomes the per-sample output times the sample count.  Single
    /// output is off by default.
    pub fn disable_single_output(&mut self)
        requires
            old(self).wf(),
            (old(self).spec_samples_count() as int) * (old(self).spec_output_per_sample() as int)
                <= usize::MAX,
        ensures
            final(self).wf(),
            !final(self).spec_single_output(),
            final(self).spec_output_len() == (old(self).spec_samples_count() as int) * (old(
                self,
            ).spec_output_per_sample() as int),
            final(self).flat_inputs_seq() == old(self).flat_inputs_seq(),
            final(self).flat_shapes_seq() == old(self).flat_shapes_seq(),
            final(self).params_seq() == old(self).params_seq(),
            final(self).output_shape_seq() == old(self).output_shape_seq(),
            final(self).spec_use_params() == old(self).spec_use_params(),
            final(self).spec_use_shapes() == old(self).spec_use_shapes(),
            final(self).spec_samples_count() == old(self).spec_samples_count(),
            final(self).spec_output_per_sample() == old(self).spec_output_per_sample(),
            final(self).spec_input_per_sample() == old(self).spec_input_per_sample(),
            final(self).spec_max_chunk_len() == old(self).spec_max_chunk_len(),
            final(self).spec_chunks() == old(self).spec_chunks(),
    {
        self.single_output = false;
        let n = self.samples_count as usize;
        self.output_len = n * self.output_per_sample;
    }

    /// Manually sets the parameters of the batch.  Most of the time there
    /// is no need: appending captures them from the first sample.
    pub fn set_params(&mut self, params: Vec<T>)
        ensures
            final(self).params_seq() == params@,
            final(self).spec_use_params() == old(self).spec_use_params(),
            final(self).spec_use_shapes() == old(self).spec_use_shapes(),
            final(self).flat_inputs_seq() == old(self).flat_inputs_seq(),
            final(self).flat_shapes_seq() == old(self).flat_shapes_seq(),
            final(self).output_shape_seq() == old(self).output_shape_seq(),
            final(self).spec_output_len() == old(self).spec_output_len(),
            final(self).spec_single_output() == old(self).spec_single_output(),
            final(self).spec_samples_count() == old(self).spec_samples_count(),
            final(self).spec_output_per_sample() == old(self).spec_output_per_sample(),
            final(self).spec_input_per_sample() == old(self).spec_input_per_sample(),
            final(self).spec_max_chunk_len() == old(self).spec_max_chunk_len(),
            final(self).spec_chunks() == old(self).spec_chunks(),
            old(self).wf() ==> final(self).wf(),
    {
        self.params = params;
    }

    /// Returns a reference to the flattened input data of the batch.
    pub fn get_flat_inputs(&self) -> (r: &Vec<T>)
        ensures
            r@ == self.flat_inputs_seq(),
    {
        &self.flat_inputs
    }

    /// Returns a reference to the captured input shapes.
    pub fn get_flat_shapes(&self) -> (r: &Vec<u32>)
        ensures
            r@ == self.flat_shapes_seq(),
    {
        &self.flat_shapes
    }

    /// Returns a reference to the captured parameters.
    pub fn get_params(&self) -> (r: &Vec<T>)
        ensures
            r@ == self.params_seq(),
    {
        &self.params
    }

    /// Returns a reference to the captured output shape.
    pub fn get_output_shape(&self) -> (r: &Vec<u32>)
        ensures
            r@ == self.output_shape_seq(),
    {
        &self.output_shape
    }

    /// Total output element count of the batch.
    pub fn get_output_len(&self) -> (r: usize)
        ensures
            r == self.spec_output_len(),
    {
        self.output_len
    }

    /// Whether the batch ships scalar parameters to the device.
    pub fn get_use_params(&self) -> (r: bool)
        ensures
            r == self.spec_use_params(),
    {
        self.use_params
    }

    /// Whether the batch ships shape metadata to the device.
    pub fn get_use_shapes(&self) -> (r: bool)
        ensures
            r == self.spec_use_shapes(),
    {
        self.use_shapes
    }

    /// Whether every sample's result shares one output region.
    pub fn get_single_output(&self) -> (r: bool)
        ensures
            r == self.spec_single_output(),
    {
        self.single_output
    }

    /// How many samples the batch holds.
    pub fn get_samples_count(&self) -> (r: u32)
        ensures
            r == self.spec_samples_count(),
    {
        self.samples_count
    }

    /// Output element count of one sample.
    pub fn get_output_per_sample(&self) -> (r: usize)
        ensures
            r == self.spec_output_per_sample(),
    {
        self.output_per_sample
    }

    /// Input element count of one sample.
    pub fn get_input_per_sample(&self) -> (r: usize)
        ensures
            r == self.spec_input_per_sample(),
    {
        self.input_per_sample
    }

    /// Elements per chunk; 0 while chunking is not prepared.
    pub fn get_max_chunk_len(&self) -> (r: usize)
        ensures
            r == self.spec_max_chunk_len(),
    {
        self.max_chunk_len
    }

    /// Number of chunks; 0 while chunking is not prepared.
    pub fn get_chunks(&self) -> (r: usize)
        ensures
            r == self.spec_chunks(),
    {
        self.chunks
    }

    /// Overrides the declared output shape of the batch, recomputing the
    /// per-sample output length and the total output length accordingly.
    /// Needed by operations whose output shape is derived from the input
    /// shapes rather than declared on the samples.
    pub fn set_output_shape(&mut self, shape: Vec<u32>)
        requires
            old(self).wf(),
            old(self).spec_samples_count() > 0,
            shape_product(shape@) <= u32::MAX,
            (old(self).spec_samples_count() as int) * (shape_product(shape@) as int) <= usize::MAX,
        ensures
            final(self).wf(),
            final(self).output_shape_seq() == shape@,
            final(self).spec_output_per_sample() == shape_product(shape@),
            final(self).spec_output_len() == if old(self).spec_single_output() {
                shape_product(shape@) as int
            } else {
                (old(self).spec_samples_count() as int) * (shape_product(shape@) as int)
            },
            final(self).flat_inputs_seq() == old(self).flat_inputs_seq(),
            final(self).flat_shapes_seq() == old(self).flat_shapes_seq(),
            final(self).params_seq() == old(self).params_seq(),
            final(self).spec_use_params() == old(self).spec_use_params(),
            final(self).spec_use_shapes() == old(self).spec_use_shapes(),
            final(self).spec_single_output() == old(self).spec_single_output(),
            final(self).spec_samples_count() == old(self).spec_samples_count(),
            final(self).spec_input_per_sample() == old(self).spec_input_per_sample(),
            final(self).spec_max_chunk_len() == old(self).spec_max_chunk_len(),
            final(self).spec_chunks() == old(self).spec_chunks(),
    {
        let per_sample: u32 = crate::tensor::checked_shape_product(shape.as_slice()).unwrap();
        self.output_per_sample = per_sample as usize;
        if self.single_output {
            self.output_len = per_sample as usize;
        } else {
            self.output_len = (self.samples_count as usize) * (per_sample as usize);
        }
        self.output_shape = shape;
    }

    /// Element count described by the captured input shapes.
    pub fn get_input_size(&self) -> (r: u32)
        requires
            shape_product(self.flat_shapes_seq()) <= u32::MAX,
        ensures
            r == shape_product(self.flat_shapes_seq()),
    {
        crate::tensor::checked_shape_product(self.flat_shapes.as_slice()).unwrap()
    }
}

impl<T> GpuData<T> {
    /// Rounds a raw chunk capacity down to a whole number of samples and
    /// derives the chunk count.  A batch without input data per sample is
    /// left unchanged.
    fn apply_chunking(&mut self, raw_chunk_len: usize)
        requires
            old(self).wf(),
            old(self).spec_input_per_sample() > 0 ==> raw_chunk_len >= old(
                self,
            ).spec_input_per_sample(),
        ensures
            final(self).wf(),
            old(self).spec_input_per_sample() == 0 ==> *final(self) == *old(self),
            old(self).spec_input_per_sample() > 0 ==> {
                &&& final(self).spec_max_chunk_len() == raw_chunk_len - (raw_chunk_len as int) % (
                old(self).spec_input_per_sample() as int)
                &&& final(self).spec_chunks() == chunk_count(
                    old(self).flat_inputs_seq().len() as int,
                    final(self).spec_max_chunk_len() as int,
                )
                &&& final(self).spec_max_chunk_len() >= old(self).spec_input_per_sample()
                &&& (final(self).spec_max_chunk_len() as int) % (old(
                self).spec_input_per_sample() as int) == 0
                &&& final(self).flat_inputs_seq() == old(self).flat_inputs_seq()
                &&& final(self).flat_shapes_seq() == old(self).flat_shapes_seq()
                &&& final(self).params_seq() == old(self).params_seq()
                &&& final(self).output_shape_seq() == old(self).output_shape_seq()
                &&& final(self).spec_output_len() == old(self).spec_output_len()
                &&& final(self).spec_use_params() == old(self).spec_use_params()
                &&& final(self).spec_use_shapes() == old(self).spec_use_shapes()
                &&& final(self).spec_single_output() == old(self).spec_single_output()
                &&& final(self).spec_samples_count() == old(self).spec_samples_count()
                &&& final(self).spec_output_per_sample() == old(self).spec_output_per_sample()
                &&& final(self).spec_input_per_sample() == old(self).spec_input_per_sample()
            },
    {
        if self.input_per_sample == 0 {
            return ;
        }

        let ips = self.input_per_sample;
        proof {
            vstd::arithmetic::div_mod::lemma_fundamental_div_mod(
                raw_chunk_len as int,
                ips as int,
            );
            vstd::arithmetic::div_mod::lemma_mod_bound(raw_chunk_len as int, ips as int);
            let q = (raw_chunk_len as int) / (ips as int);
            assert(q >= 1) by (nonlinear_arith)
                requires
                    raw_chunk_len as int == (ips as int) * q + (raw_chunk_len as int) % (
                    ips as int),
                    0 <= (raw_chunk_len as int) % (ips as int) < ips as int,
                    raw_chunk_len >= ips,
                    ips as int > 0,
            ;
            assert((ips as int) * q >= ips as int) by (nonlinear_arith)
                requires
                    q >= 1,
                    ips as int > 0,
            ;
            vstd::arithmetic::div_mod::lemma_mod_multiples_basic(q, ips as int);
        }
        let mcl = raw_chunk_len - raw_chunk_len % ips;
        self.max_chunk_len = mcl;
        let len = self.flat_inputs.len();
        proof {
            vstd::arithmetic::div_mod::lemma_fundamental_div_mod(len as int, mcl as int);
            vstd::arithmetic::div_mod::lemma_mod_bound(len as int, mcl as int);
            let lq = (len as int) / (mcl as int);
            let lr = (len as int) % (mcl as int);
            if lr != 0 {
                assert(lq < usize::MAX) by (nonlinear_arith)
                    requires
                        len as int == (mcl as int) * lq + lr,
                        lr > 0,
                        mcl as int >= 1,
                        lq >= 0,
                        len <= usize::MAX,
                ;
            }
        }
        self.chunks = len / mcl + if len % mcl != 0 {
            1
        } else {
            0
        };
    }

    /// Prepares chunking against a byte budget given as `(value, unit)`:
    /// the chunk capacity is the number of 32-bit elements the budget
    /// holds, rounded down to a whole number of samples.
    pub fn prepare_chunking(&mut self, max_buffer_size: u64, metric: &MemoryMetric)
        requires
            old(self).wf(),
            max_buffer_size * metric_bytes(*metric) <= u64::MAX,
            (max_buffer_size * metric_bytes(*metric)) as int / (ELEM_BYTES as int) <= usize::MAX,
            old(self).spec_input_per_sample() > 0 ==> max_buffer_size * metric_bytes(*metric) / (
            ELEM_BYTES as int) >= old(self).spec_input_per_sample(),
        ensures
            final(self).wf(),
            old(self).spec_input_per_sample() == 0 ==> *final(self) == *old(self),
            old(self).spec_input_per_sample() > 0 ==> {
                let raw = (max_buffer_size * metric_bytes(*metric)) as int / (ELEM_BYTES as int);
                &&& final(self).spec_max_chunk_len() == raw - raw % (old(
                self).spec_input_per_sample() as int)
                &&& final(self).spec_chunks() == chunk_count(
                    old(self).flat_inputs_seq().len() as int,
                    final(self).spec_max_chunk_len() as int,
                )
                &&& final(self).spec_max_chunk_len() >= old(self).spec_input_per_sample()
                &&& (final(self).spec_max_chunk_len() as int) % (old(
                self).spec_input_per_sample() as int) == 0
                &&& final(self).flat_inputs_seq() == old(self).flat_inputs_seq()
                &&& final(self).spec_samples_count() == old(self).spec_samples_count()
                &&& final(self).spec_input_per_sample() == old(self).spec_input_per_sample()
                &&& final(self).spec_output_per_sample() == old(self).spec_output_per_sample()
                &&& final(self).spec_output_len() == old(self).spec_output_len()
                &&& final(self).spec_single_output() == old(self).spec_single_output()
                &&& final(self).output_shape_seq() == old(self).output_shape_seq()
                &&& final(self).flat_shapes_seq() == old(self).flat_shapes_seq()
                &&& final(self).params_seq() == old(self).params_seq()
                &&& final(self).spec_use_params() == old(self).spec_use_params()
                &&& final(self).spec_use_shapes() == old(self).spec_use_shapes()
            },
    {
        let bytes = crate::device::get_size_using_metric(max_buffer_size, metric);
        let raw_chunk_len = (bytes / ELEM_BYTES) as usize;
        self.apply_chunking(raw_chunk_len);
    }

    /// Prepares chunking against a raw byte budget: the chunk capacity is
    /// the number of 32-bit elements the budget holds, rounded down to a
    /// whole number of samples.
    pub fn prepare_chunking_alt(&mut self, max_buffer_size: u64)
        requires
            old(self).wf(),
            max_buffer_size <= usize::MAX,
            old(self).spec_input_per_sample() > 0 ==> (max_buffer_size as int) / (ELEM_BYTES as int) >= old(
                self,
            ).spec_input_per_sample(),
        ensures
            final(self).wf(),
            old(self).spec_input_per_sample() == 0 ==> *final(self) == *old(self),
            old(self).spec_input_per_sample() > 0 ==> {
                let raw = (max_buffer_size as int) / (ELEM_BYTES as int);
                &&& final(self).spec_max_chunk_len() == raw - raw % (old(
                self).spec_input_per_sample() as int)
                &&& final(self).spec_chunks() == chunk_count(
                    old(self).flat_inputs_seq().len() as int,
                    final(self).spec_max_chunk_len() as int,
                )
                &&& final(self).spec_max_chunk_len() >= old(self).spec_input_per_sample()
                &&& (final(self).spec_max_chunk_len() as int) % (old(
                self).spec_input_per_sample() as int) == 0
                &&& final(self).flat_inputs_seq() == old(self).flat_inputs_seq()
                &&& final(self).spec_samples_count() == old(self).spec_samples_count()
                &&& final(self).spec_input_per_sample() == old(self).spec_input_per_sample()
                &&& final(self).spec_output_per_sample() == old(self).spec_output_per_sample()
                &&& final(self).spec_output_len() == old(self).spec_output_len()
                &&& final(self).spec_single_output() == old(self).spec_single_output()
                &&& final(self).output_shape_seq() == old(self).output_shape_seq()
                &&& final(self).flat_shapes_seq() == old(self).flat_shapes_seq()
                &&& final(self).params_seq() == old(self).params_seq()
                &&& final(self).spec_use_params() == old(self).spec_use_params()
                &&& final(self).spec_use_shapes() == old(self).spec_use_shapes()
            },
    {
        let raw_chunk_len = (max_buffer_size as usize) / (ELEM_BYTES as usize);
        self.apply_chunking(raw_chunk_len);
    }

    /// Start of the given chunk in the flattened input array.
    pub open spec fn chunk_start(&self, chunk_id: int) -> int {
        chunk_id * (self.spec_max_chunk_len() as int)
    }

    /// End of the given chunk in the flattened input array.
    pub open spec fn chunk_end(&self, chunk_id: int) -> int {
        if (chunk_id + 1) * (self.spec_max_chunk_len() as int) < self.flat_inputs_seq().len() {
            (chunk_id + 1) * (self.spec_max_chunk_len() as int)
        } else {
            self.flat_inputs_seq().len() as int
        }
    }

    /// Returns one chunk: its slice of the flattened inputs, the number of
    /// whole samples that slice holds, and the chunk's output element
    /// count.  A chunk id at or past the chunk count returns the entire
    /// batch as one chunk.
    pub fn get_chunk(&self, chunk_id: usize) -> (r: Option<(&[T], usize, usize)>)
        requires
            self.wf(),
        ensures
            r is Some,
            chunk_id >= self.spec_chunks() ==> {
                let (slice, cnt, out) = r.unwrap();
                &&& slice@ == self.flat_inputs_seq()
                &&& cnt == self.spec_samples_count()
                &&& out == self.spec_output_len()
            },
            chunk_id < self.spec_chunks() ==> {
                let (slice, cnt, out) = r.unwrap();
                let start = self.chunk_start(chunk_id as int);
                let end = self.chunk_end(chunk_id as int);
                &&& slice@ == self.flat_inputs_seq().subrange(start, end)
                &&& (cnt as int) * (self.spec_input_per_sample() as int) == end - start
                &&& cnt <= self.spec_samples_count()
                &&& out == if self.spec_single_output() {
                    self.spec_output_len() as int
                } else {
                    (cnt as int) * (self.spec_output_per_sample() as int)
                }
            },
    {
        if chunk_id >= self.chunks {
            return Some(
                (self.flat_inputs.as_slice(), self.samples_count as usize, self.output_len),
            );
        }

        let mcl = self.max_chunk_len;
        let ips = self.input_per_sample;
        let len = self.flat_inputs.len();
        proof {
            lemma_chunk_bounds(len as int, mcl as int, chunk_id as int, self.spec_chunks() as int);
        }
        let start = chunk_id * mcl;
        let end = if len - start > mcl {
            start + mcl
        } else {
            len
        };

        let slice = vstd::slice::slice_subrange(self.flat_inputs.as_slice(), start, end);

        proof {
            let idi = chunk_id as int;
            let mcli = mcl as int;
            assert((idi + 1) * mcli == idi * mcli + mcli) by (nonlinear_arith);
            assert(self.chunk_start(idi) == start as int);
            assert(self.chunk_end(idi) == end as int);
            lemma_chunk_sample_multiple(
                len as int,
                mcl as int,
                ips as int,
                chunk_id as int,
                self.spec_samples_count() as int,
            );
        }
        let samples_in_chunk = (end - start) / ips;
        proof {
            assert((samples_in_chunk as int) * (ips as int) == end - start);
            assert(samples_in_chunk <= self.spec_samples_count());
        }

        let output_in_chunk = if self.single_output {
            self.output_len
        } else {
            proof {
                let cnt = samples_in_chunk as int;
                assert(cnt * (self.spec_output_per_sample() as int) <= (
                self.spec_samples_count() as int) * (self.spec_output_per_sample() as int))
                    by (nonlinear_arith)
                    requires
                        cnt <= self.spec_samples_count() as int,
                        self.spec_output_per_sample() as int >= 0,
                        cnt >= 0,
                ;
            }
            samples_in_chunk * self.output_per_sample
        };

        Some((slice, samples_in_chunk, output_in_chunk))
    }
}

/// For a chunk id below the chunk count, the chunk's start lies inside the
/// data and its end does not pass the data's end.
pub(crate) proof fn lemma_chunk_bounds(len: int, mcl: int, id: int, chunks: int)
    requires
        mcl > 0,
        len >= 0,
        chunks == chunk_count(len, mcl),
        0 <= id < chunks,
    ensures
        id * mcl < len,
        id * mcl + mcl <= len || len - id * mcl <= mcl,
{
    vstd::arithmetic::div_mod::lemma_fundamental_div_mod(len, mcl);
    vstd::arithmetic::div_mod::lemma_mod_bound(len, mcl);
    let q = len / mcl;
    let r = len % mcl;
    if r != 0 {
        assert(id <= q);
        assert(id * mcl <= q * mcl) by (nonlinear_arith)
            requires
                id <= q,
                mcl >= 0,
        ;
        assert(id * mcl < len);
    } else {
        assert(id <= q - 1);
        assert(id * mcl <= (q - 1) * mcl) by (nonlinear_arith)
            requires
                id <= q - 1,
                mcl >= 0,
        ;
        assert((q - 1) * mcl == q * mcl - mcl) by (nonlinear_arith);
        assert(id * mcl < len);
    }
}

/// A chunk's length is a whole number of samples, and no more samples than
/// the batch holds.
pub(crate) proof fn lemma_chunk_sample_multiple(
    len: int,
    mcl: int,
    ips: int,
    id: int,
    samples: int,
)
    requires
        ips > 0,
        mcl >= ips,
        mcl % ips == 0,
        len == samples * ips,
        samples >= 0,
        0 <= id,
        id * mcl < len,
    ensures
        ({
            let start = id * mcl;
            let end = if start + mcl < len {
                start + mcl
            } else {
                len
            };
            &&& (end - start) % ips == 0
            &&& ((end - start) / ips) * ips == end - start
            &&& (end - start) / ips <= samples
        }),
{
    vstd::arithmetic::div_mod::lemma_fundamental_div_mod(mcl, ips);
    vstd::arithmetic::div_mod::lemma_mod_bound(mcl, ips);
    let q = mcl / ips;
    assert(mcl == ips * q);
    assert(q >= 1) by (nonlinear_arith)
        requires
            mcl == ips * q,
            mcl >= ips,
            ips > 0,
    ;
    let start = id * mcl;
    assert(start == (id * q) * ips) by (nonlinear_arith)
        requires
            mcl == ips * q,
            start == id * mcl,
    ;
    assert(start >= 0) by (nonlinear_arith)
        requires
            id >= 0,
            mcl >= 0,
            start == id * mcl,
    ;
    let end = if start + mcl < len {
        start + mcl
    } else {
        len
    };
    let span = end - start;
    if start + mcl < len {
        assert(span == mcl);
        assert(span == q * ips) by (nonlinear_arith)
            requires
                mcl == ips * q,
                span == mcl,
        ;
        lemma_multiple_div_mod(q, ips);
        assert(mcl < len);
        assert(q <= samples) by (nonlinear_arith)
            requires
                q * ips < samples * ips,
                ips > 0,
        ;
        assert(q * ips < samples * ips) by (nonlinear_arith)
            requires
                q * ips == mcl,
                mcl < len,
                len == samples * ips,
        ;
    } else {
        assert(span == len - start);
        assert(span == (samples - id * q) * ips) by (nonlinear_arith)
            requires
                len == samples * ips,
                start == (id * q) * ips,
                span == len - start,
        ;
        assert(id * q >= 0) by (nonlinear_arith)
            requires
                id >= 0,
                q >= 1,
        ;
        assert((id * q) * ips < samples * ips) by (nonlinear_arith)
            requires
                start == (id * q) * ips,
                start < len,
                len == samples * ips,
        ;
        assert(id * q < samples) by (nonlinear_arith)
            requires
                (id * q) * ips < samples * ips,
                ips > 0,
        ;
        lemma_multiple_div_mod(samples - id * q, ips);
    }
}

/// The flattened input block of the `k`-th sample of a batch.
pub open spec fn sample_block<T>(d: GpuData<T>, k: int) -> Seq<T> {
    d.flat_inputs_seq().subrange(
        k * (d.spec_input_per_sample() as int),
        (k + 1) * (d.spec_input_per_sample() as int),
    )
}

/// The first `c` chunk slices of a batch, concatenated in order.
pub open spec fn concat_chunks<T>(d: GpuData<T>, c: int) -> Seq<T>
    decreases c,
{
    if c <= 0 {
        Seq::empty()
    } else {
        concat_chunks(d, c - 1) + d.flat_inputs_seq().subrange(
            d.chunk_start(c - 1),
            d.chunk_end(c - 1),
        )
    }
}

/// The number of whole samples held by the first `c` chunks together.
pub open spec fn chunk_samples_up_to<T>(d: GpuData<T>, c: int) -> int
    decreases c,
{
    if c <= 0 {
        0
    } else {
        chunk_samples_up_to(d, c - 1) + (d.chunk_end(c - 1) - d.chunk_start(c - 1)) / (
        d.spec_input_per_sample() as int)
    }
}

/// Sample-boundary integrity: every chunk starts at a multiple of one
/// sample's input length and spans a whole number of samples, so no chunk
/// ever holds a partial sample — whatever byte budget produced the
/// chunking.
pub proof fn lemma_chunk_boundaries_aligned<T>(d: GpuData<T>, chunk_id: int)
    requires
        d.wf(),
        0 <= chunk_id < d.spec_chunks(),
    ensures
        d.chunk_start(chunk_id) % (d.spec_input_per_sample() as int) == 0,
        (d.chunk_end(chunk_id) - d.chunk_start(chunk_id)) % (d.spec_input_per_sample() as int)
            == 0,
        d.chunk_end(chunk_id) % (d.spec_input_per_sample() as int) == 0,
{
    let mcl = d.spec_max_chunk_len() as int;
    let ips = d.spec_input_per_sample() as int;
    let len = d.flat_inputs_seq().len() as int;
    lemma_chunk_bounds(len, mcl, chunk_id, d.spec_chunks() as int);
    assert((chunk_id + 1) * mcl == chunk_id * mcl + mcl) by (nonlinear_arith);
    lemma_chunk_sample_multiple(len, mcl, ips, chunk_id, d.spec_samples_count() as int);
    vstd::arithmetic::div_mod::lemma_fundamental_div_mod(mcl, ips);
    let q = mcl / ips;
    let start = d.chunk_start(chunk_id);
    let end = d.chunk_end(chunk_id);
    assert(start == (chunk_id * q) * ips) by (nonlinear_arith)
        requires
            mcl == ips * q,
            start == chunk_id * mcl,
    ;
    assert(chunk_id * q >= 0) by (nonlinear_arith)
        requires
            chunk_id >= 0,
            q >= 0,
            ips > 0,
            mcl == ips * q,
            mcl >= 0,
    ;
    lemma_multiple_div_mod(chunk_id * q, ips);
    let span = end - start;
    let cnt = span / ips;
    assert(cnt * ips == span);
    assert(cnt >= 0) by (nonlinear_arith)
        requires
            cnt * ips == span,
            span >= 0,
            ips > 0,
    ;
    lemma_multiple_div_mod(cnt, ips);
    assert(span % ips == 0);
    assert(end == (chunk_id * q + cnt) * ips) by (nonlinear_arith)
        requires
            start == (chunk_id * q) * ips,
            cnt * ips == span,
            end == start + span,
    ;
    lemma_multiple_div_mod(chunk_id * q + cnt, ips);
}

/// Chunk-size invariance, seen from the batch: however the byte budget
/// chunked a batch, the chunk slices concatenate back to exactly the
/// flattened input array, and the per-chunk sample counts add up to
/// exactly the batch's sample count.  Running chunk after chunk therefore
/// processes the same data, in the same order, as one big run would.
pub proof fn lemma_chunks_cover_batch<T>(d: GpuData<T>)
    requires
        d.wf(),
        d.spec_chunks() > 0,
    ensures
        concat_chunks(d, d.spec_chunks() as int) == d.flat_inputs_seq(),
        chunk_samples_up_to(d, d.spec_chunks() as int) == d.spec_samples_count(),
{
    let chunks = d.spec_chunks() as int;
    lemma_chunks_cover_prefix(d, chunks);
    let len = d.flat_inputs_seq().len() as int;
    let mcl = d.spec_max_chunk_len() as int;
    let ips = d.spec_input_per_sample() as int;
    let samples = d.spec_samples_count() as int;
    assert(d.chunk_end(chunks - 1) == len) by {
        vstd::arithmetic::div_mod::lemma_fundamental_div_mod(len, mcl);
        vstd::arithmetic::div_mod::lemma_mod_bound(len, mcl);
        let q = len / mcl;
        let r = len % mcl;
        assert(q * mcl == mcl * q) by (nonlinear_arith);
        if r != 0 {
            assert(chunks == q + 1);
            assert(chunks * mcl == q * mcl + mcl) by (nonlinear_arith)
                requires
                    chunks == q + 1,
            ;
            assert(chunks * mcl >= len);
        } else {
            assert(chunks == q);
            assert(chunks * mcl == q * mcl);
            assert(chunks * mcl >= len);
        }
        assert((chunks - 1 + 1) * mcl == chunks * mcl);
    }
    assert(concat_chunks(d, chunks) =~= d.flat_inputs_seq());
    assert(samples * ips == len);
    assert(chunk_samples_up_to(d, chunks) * ips == d.chunk_end(chunks - 1)) by {
    }
    assert(chunk_samples_up_to(d, chunks) == samples) by (nonlinear_arith)
        requires
            chunk_samples_up_to(d, chunks) * ips == len,
            samples * ips == len,
            ips > 0,
    ;
}

/// The first `c` chunks of a batch cover exactly the input prefix that
/// ends where chunk `c - 1` ends, with one whole sample per sample-sized
/// block.
proof fn lemma_chunks_cover_prefix<T>(d: GpuData<T>, c: int)
    requires
        d.wf(),
        d.spec_chunks() > 0,
        0 <= c <= d.spec_chunks(),
    ensures
        c == 0 ==> concat_chunks(d, c) == Seq::<T>::empty() && chunk_samples_up_to(d, c) == 0,
        c > 0 ==> concat_chunks(d, c) == d.flat_inputs_seq().take(d.chunk_end(c - 1))
            && chunk_samples_up_to(d, c) * (d.spec_input_per_sample() as int) == d.chunk_end(c - 1)
            && chunk_samples_up_to(d, c) >= 0,
    decreases c,
{
    let len = d.flat_inputs_seq().len() as int;
    let mcl = d.spec_max_chunk_len() as int;
    let ips = d.spec_input_per_sample() as int;
    if c == 0 {
    } else {
        lemma_chunks_cover_prefix(d, c - 1);
        lemma_chunk_bounds(len, mcl, c - 1, d.spec_chunks() as int);
        assert(c * mcl == (c - 1) * mcl + mcl) by (nonlinear_arith);
        lemma_chunk_sample_multiple(len, mcl, ips, c - 1, d.spec_samples_count() as int);
        let start = d.chunk_start(c - 1);
        let end = d.chunk_end(c - 1);
        let span = end - start;
        let cnt = span / ips;
        assert(cnt * ips == span);
        if c - 1 == 0 {
            assert(start == 0) by (nonlinear_arith)
                requires
                    start == 0 * mcl,
            ;
            assert(concat_chunks(d, c - 1) =~= Seq::<T>::empty());
            assert(concat_chunks(d, c) =~= d.flat_inputs_seq().take(end));
            assert(chunk_samples_up_to(d, c) * ips == end) by (nonlinear_arith)
                requires
                    chunk_samples_up_to(d, c) == 0 + cnt,
                    cnt * ips == span,
                    span == end - start,
                    start == 0,
            ;
        } else {
            assert(d.chunk_end(c - 2) == start) by {
                lemma_chunk_bounds(len, mcl, c - 2, d.spec_chunks() as int);
                assert((c - 2 + 1) * mcl == (c - 1) * mcl);
            }
            assert(concat_chunks(d, c) =~= d.flat_inputs_seq().take(end)) by {
                assert(concat_chunks(d, c - 1) == d.flat_inputs_seq().take(start));
                assert(d.flat_inputs_seq().take(start) + d.flat_inputs_seq().subrange(start, end)
                    =~= d.flat_inputs_seq().take(end));
            }
            let prev = chunk_samples_up_to(d, c - 1);
            assert(prev * ips == start);
            assert((prev + cnt) * ips == end) by (nonlinear_arith)
                requires
                    prev * ips == start,
                    cnt * ips == span,
                    span == end - start,
            ;
            assert(cnt >= 0) by (nonlinear_arith)
                requires
                    cnt * ips == span,
                    span >= 0,
                    ips > 0,
            ;
        }
    }
}

/// Batch/sample integrity: inside any chunk, the `j`-th whole sample
/// block is exactly the input block of sample `first + j` of the batch,
/// where `first` is the number of samples held by the chunks before it.
/// Batched execution therefore hands the device, for every sample index,
/// precisely that sample's data, and the chunk's results line up
/// positionally with the batch's samples.
pub proof fn lemma_chunk_presents_samples<T>(d: GpuData<T>, chunk_id: int, j: int)
    requires
        d.wf(),
        0 <= chunk_id < d.spec_chunks(),
        0 <= j < (d.chunk_end(chunk_id) - d.chunk_start(chunk_id)) / (
        d.spec_input_per_sample() as int),
    ensures
        d.flat_inputs_seq().subrange(d.chunk_start(chunk_id), d.chunk_end(chunk_id)).subrange(
            j * (d.spec_input_per_sample() as int),
            (j + 1) * (d.spec_input_per_sample() as int),
        ) == sample_block(d, chunk_samples_up_to(d, chunk_id) + j),
{
    let len = d.flat_inputs_seq().len() as int;
    let mcl = d.spec_max_chunk_len() as int;
    let ips = d.spec_input_per_sample() as int;
    lemma_chunk_bounds(len, mcl, chunk_id, d.spec_chunks() as int);
    assert((chunk_id + 1) * mcl == chunk_id * mcl + mcl) by (nonlinear_arith);
    lemma_chunk_sample_multiple(len, mcl, ips, chunk_id, d.spec_samples_count() as int);
    let start = d.chunk_start(chunk_id);
    let end = d.chunk_end(chunk_id);
    let cnt = (end - start) / ips;
    assert(cnt * ips == end - start);
    let first = chunk_samples_up_to(d, chunk_id);
    if chunk_id == 0 {
        assert(first == 0);
        assert(start == 0) by (nonlinear_arith)
            requires
                start == 0 * mcl,
        ;
    } else {
        lemma_chunks_cover_prefix(d, chunk_id);
        assert(d.chunk_end(chunk_id - 1) == start) by {
            lemma_chunk_bounds(len, mcl, chunk_id - 1, d.spec_chunks() as int);
            assert((chunk_id - 1 + 1) * mcl == chunk_id * mcl);
        }
        assert(first * ips == start);
    }
    assert(first * ips == start);
    assert((first + j) * ips == start + j * ips) by (nonlinear_arith)
        requires
            first * ips == start,
    ;
    assert((first + j + 1) * ips == start + (j + 1) * ips) by (nonlinear_arith)
        requires
            first * ips == start,
    ;
    assert(j * ips + ips == (j + 1) * ips) by (nonlinear_arith);
    assert(j * ips >= 0) by (nonlinear_arith)
        requires
            j >= 0,
            ips > 0,
    ;
    assert((j + 1) * ips <= cnt * ips) by (nonlinear_arith)
        requires
            j + 1 <= cnt,
            ips > 0,
    ;
    assert(d.flat_inputs_seq().subrange(start, end).subrange(j * ips, (j + 1) * ips)
        =~= d.flat_inputs_seq().subrange(start + j * ips, start + (j + 1) * ips));
    assert(sample_block(d, first + j) =~= d.flat_inputs_seq().subrange(
        start + j * ips,
        start + (j + 1) * ips,
    ));
}

/// Division and remainder of an exact multiple.
pub(crate) proof fn lemma_multiple_div_mod(k: int, m: int)
    requires
        m > 0,
        k >= 0,
    ensures
        (k * m) % m == 0,
        (k * m) / m == k,
{
    vstd::arithmetic::div_mod::lemma_mod_multiples_basic(k, m);
    vstd::arithmetic::div_mod::lemma_div_multiples_vanish(k, m);
    assert(k * m == m * k) by (nonlinear_arith);
}

impl<T: PartialEq> GpuData<T> {
    /// A sample is batch-compatible when each of the batch's captured
    /// rows is still unset or agrees with the sample's: the output shape,
    /// the input shapes, the parameters (as the element type's `==` sees
    /// them), and the per-sample input and output sizes.
    pub open spec fn accepts(&self, sample: &Sample<T>) -> bool {
        &&& self.output_shape_seq().len() == 0 || self.output_shape_seq()
            == sample.output_shape_seq()
        &&& self.flat_shapes_seq().len() == 0 || self.flat_shapes_seq() == sample.shapes_seq()
        &&& self.params_seq().len() == 0 || params_match(self.params_seq(), sample.params_seq())
        &&& self.spec_samples_count() == 0 || sample.spec_input_len()
            == self.spec_input_per_sample()
        &&& self.spec_samples_count() == 0 || sample.spec_output_len()
            == self.spec_output_per_sample()
    }
}

impl<T: Copy + PartialEq> GpuData<T> {
    /// Appends a sample to the batch.
    ///
    /// A sample that is not batch-compatible is rejected: the call returns
    /// `false` and the batch is unchanged.  On success the sample's inputs
    /// are appended to the flattened input array; the shapes, parameters
    /// and output shape are captured from the first sample (shapes and
    /// parameters only while they are shipped); in single-output mode the
    /// total output length stays one per-sample output, otherwise it grows
    /// by the sample's output length.  Appending invalidates any prepared
    /// chunking.
    pub fn append(&mut self, sample: Sample<T>) -> (r: bool)
        requires
            old(self).wf(),
            sample.wf(),
            old(self).spec_samples_count() < u32::MAX,
            old(self).spec_output_len() + sample.spec_output_len() <= usize::MAX,
        ensures
            final(self).wf(),
            T::obeys_eq_spec() ==> (r <==> old(self).accepts(&sample)),
            old(self).params_seq().len() == 0 ==> (r <==> old(self).accepts(&sample)),
            r ==> (old(self).output_shape_seq().len() == 0 || old(self).output_shape_seq()
                == sample.output_shape_seq()),
            r ==> (old(self).flat_shapes_seq().len() == 0 || old(self).flat_shapes_seq()
                == sample.shapes_seq()),
            r ==> (old(self).spec_samples_count() == 0 || (sample.spec_input_len() == old(
                self,
            ).spec_input_per_sample() && sample.spec_output_len() == old(
                self,
            ).spec_output_per_sample())),
            !r ==> *final(self) == *old(self),
            r ==> {
                &&& final(self).flat_inputs_seq() == old(self).flat_inputs_seq()
                    + sample.inputs_seq()
                &&& final(self).flat_shapes_seq() == if old(self).spec_use_shapes() && old(
                    self,
                ).flat_shapes_seq().len() == 0 {
                    sample.shapes_seq()
                } else {
                    old(self).flat_shapes_seq()
                }
                &&& final(self).params_seq() == if old(self).spec_use_params() && old(
                    self,
                ).params_seq().len() == 0 {
                    sample.params_seq()
                } else {
                    old(self).params_seq()
                }
                &&& final(self).output_shape_seq() == if old(self).output_shape_seq().len() == 0 {
                    sample.output_shape_seq()
                } else {
                    old(self).output_shape_seq()
                }
                &&& final(self).spec_samples_count() == old(self).spec_samples_count() + 1
                &&& final(self).spec_input_per_sample() == sample.spec_input_len()
                &&& final(self).spec_output_per_sample() == sample.spec_output_len()
                &&& final(self).spec_output_len() == if old(self).spec_single_output() {
                    sample.spec_output_len() as int
                } else {
                    old(self).spec_output_len() + sample.spec_output_len()
                }
                &&& final(self).spec_use_params() == old(self).spec_use_params()
                &&& final(self).spec_use_shapes() == old(self).spec_use_shapes()
                &&& final(self).spec_single_output() == old(self).spec_single_output()
                &&& final(self).spec_max_chunk_len() == 0
                &&& final(self).spec_chunks() == 0
            },
    {
        if self.output_shape.len() != 0 && !(self.output_shape == *sample.get_output_shape()) {
            proof {
                assert(!(self.output_shape_seq() =~= sample.output_shape_seq()));
            }
            return false;
        }
        if self.flat_shapes.len() != 0 && !(self.flat_shapes == *sample.get_shapes()) {
            proof {
                assert(!(self.flat_shapes_seq() =~= sample.shapes_seq()));
            }
            return false;
        }
        if self.params.len() != 0 && !(self.params == *sample.get_params()) {
            return false;
        }
        if self.samples_count > 0 && sample.get_input_len() != self.input_per_sample {
            return false;
        }
        if self.samples_count > 0 && sample.get_output_len() as usize != self.output_per_sample {
            return false;
        }

        proof {
            if self.output_shape_seq().len() != 0 {
                assert(self.output_shape_seq() =~= sample.output_shape_seq());
            }
            if self.flat_shapes_seq().len() != 0 {
                assert(self.flat_shapes_seq() =~= sample.shapes_seq());
            }
        }

        if self.use_shapes && self.flat_shapes.len() == 0 {
            self.flat_shapes = slice_to_vec_copy(sample.get_shapes().as_slice());
        }
        if self.use_params && self.params.len() == 0 {
            self.params = slice_to_vec_copy(sample.get_params().as_slice());
        }
        if self.output_shape.len() == 0 {
            self.output_shape = slice_to_vec_copy(sample.get_output_shape().as_slice());
        }

        extend_copy(&mut self.flat_inputs, sample.get_inputs().as_slice());
        if self.single_output {
            self.output_len = sample.get_output_len() as usize;
        } else {
            self.output_len = self.output_len + sample.get_output_len() as usize;
        }

        self.input_per_sample = sample.get_input_len();
        self.samples_count = self.samples_count + 1;
        self.output_per_sample = sample.get_output_len() as usize;
        self.max_chunk_len = 0;
        self.chunks = 0;

        proof {
            let n = old(self).spec_samples_count() as int;
            let ips = sample.spec_input_len() as int;
            let ops = sample.spec_output_len() as int;
            assert((n + 1) * ips == n * ips + ips) by (nonlinear_arith);
            assert((n + 1) * ops == n * ops + ops) by (nonlinear_arith);
            let ops_old = old(self).spec_output_per_sample() as int;
            let ips_old = old(self).spec_input_per_sample() as int;
            if n == 0 {
                assert(n * ops_old == 0 && n * ips_old == 0) by (nonlinear_arith)
                    requires
                        n == 0,
                ;
            }
        }
        true
    }
}

} // verus!
