use flashlight_tensor::device::output_to_tensors;
use flashlight_tensor::device::MemoryMetric;
use flashlight_tensor::device::BufferPlan;
use flashlight_tensor::gpu_data::GpuData;
use flashlight_tensor::runner::build_overflow_batch;
use flashlight_tensor::sample::Sample;
use flashlight_tensor::tensor::Tensor;

/// Stands in for the accelerator on one chunk: applies `op` to every
/// whole sample slice and concatenates the per-sample outputs.
fn run_chunk_per_sample(
    chunk: &[f32],
    input_per_sample: usize,
    op: &dyn Fn(&[f32]) -> Vec<f32>,
) -> Vec<f32> {
    let mut out: Vec<f32> = Vec::new();
    let mut i = 0;
    while i + input_per_sample <= chunk.len() {
        out.extend_from_slice(&op(&chunk[i..i + input_per_sample]));
        i += input_per_sample;
    }
    out
}

/// Runs a whole batch chunk by chunk through the simulated device and
/// reassembles the per-sample result tensors in order.
fn run_batch(data: &GpuData<f32>, op: &dyn Fn(&[f32]) -> Vec<f32>) -> Vec<Tensor<f32>> {
    let mut results: Vec<Tensor<f32>> = Vec::new();
    let chunks = if data.get_chunks() == 0 { 1 } else { data.get_chunks() };
    for c in 0..chunks {
        let (slice, samples_in_chunk, _out_len) = data.get_chunk(c).unwrap();
        let flat_out = run_chunk_per_sample(slice, data.get_input_per_sample(), op);
        let mut tensors = output_to_tensors(
            &flat_out,
            data.get_output_shape().as_slice(),
            samples_in_chunk as u32,
        );
        results.append(&mut tensors);
    }
    results
}

#[test]
fn batch_matches_per_sample_reference() {
    let mut data: GpuData<f32> = GpuData::new();
    data.disable_shapes();

    let mut inputs: Vec<Tensor<f32>> = Vec::new();
    for i in 0..3 {
        let t = Tensor::from_data(
            &[i as f32, 1.0 + i as f32, 2.0 + i as f32, 3.0 + i as f32],
            &[2, 2],
        )
        .unwrap();
        inputs.push(t.clone());
        let sample = Sample::from_data(vec![t], vec![1.0], &[2, 2]);
        assert!(data.append(sample));
    }
    data.prepare_chunking_alt(1024 * 1024);

    let add_one = |s: &[f32]| -> Vec<f32> { s.iter().map(|x| x + 1.0).collect() };
    let results = run_batch(&data, &add_one);

    assert_eq!(results.len(), 3);
    for i in 0..3 {
        let reference = inputs[i].add(1.0);
        assert_eq!(results[i].get_data(), reference.get_data());
        assert_eq!(results[i].get_shape(), reference.get_shape());
    }
}

#[test]
fn chunk_size_invariance() {
    let add_one = |s: &[f32]| -> Vec<f32> { s.iter().map(|x| x + 1.0).collect() };

    let mut all_at_once: GpuData<f32> = GpuData::new();
    all_at_once.disable_shapes();
    let mut one_at_a_time: GpuData<f32> = GpuData::new();
    one_at_a_time.disable_shapes();

    for i in 0..10 {
        let t: Tensor<f32> = Tensor::fill(i as f32, &[2, 2]);
        let s1 = Sample::from_data(vec![t.clone()], vec![1.0], &[2, 2]);
        let s2 = Sample::from_data(vec![t], vec![1.0], &[2, 2]);
        assert!(all_at_once.append(s1));
        assert!(one_at_a_time.append(s2));
    }

    all_at_once.prepare_chunking_alt(10 * 4 * 4);
    one_at_a_time.prepare_chunking_alt(4 * 4);
    assert_eq!(all_at_once.get_chunks(), 1);
    assert_eq!(one_at_a_time.get_chunks(), 10);

    let big = run_batch(&all_at_once, &add_one);
    let small = run_batch(&one_at_a_time, &add_one);

    assert_eq!(big.len(), 10);
    assert_eq!(small.len(), 10);
    for i in 0..10 {
        assert_eq!(big[i].get_data(), small[i].get_data());
        assert_eq!(big[i].get_data(), &vec![1.0 + i as f32; 4]);
    }
}

#[test]
fn chunk_boundaries_are_sample_multiples() {
    let mut data: GpuData<f32> = GpuData::new();
    data.disable_shapes();
    data.disable_params();
    for _ in 0..7 {
        let t: Tensor<f32> = Tensor::fill(1.0, &[3]);
        let sample = Sample::from_data(vec![t], vec![], &[3]);
        assert!(data.append(sample));
    }
    // An awkward budget: 25 bytes hold 6 elements, which rounds down to
    // one whole 3-element sample per chunk boundary step.
    data.prepare_chunking_alt(25);
    assert_eq!(data.get_max_chunk_len() % data.get_input_per_sample(), 0);
    for c in 0..data.get_chunks() {
        let (slice, cnt, _) = data.get_chunk(c).unwrap();
        assert_eq!(slice.len() % data.get_input_per_sample(), 0);
        assert_eq!(slice.len() / data.get_input_per_sample(), cnt);
    }
}

#[test]
fn single_output_aggregation() {
    // A reduction-style pass: every sample in a chunk is summed into one
    // shared output region.
    let reduce_chunk = |slice: &[f32], per_sample: usize| -> Vec<f32> {
        let mut acc = vec![0.0f32; per_sample];
        let mut i = 0;
        while i + per_sample <= slice.len() {
            for k in 0..per_sample {
                acc[k] += slice[i + k];
            }
            i += per_sample;
        }
        acc
    };

    let m1 = Tensor::from_data(&[1.0, 2.0, 3.0, 4.0], &[2, 2]).unwrap();
    let m2 = Tensor::from_data(&[10.0, 20.0, 30.0, 40.0], &[2, 2]).unwrap();

    let mut data: GpuData<f32> = GpuData::new();
    data.disable_shapes();
    data.disable_params();
    data.enable_single_output();
    assert!(data.append(Sample::from_data(vec![m1.clone()], vec![], &[2, 2])));
    assert!(data.append(Sample::from_data(vec![m2.clone()], vec![], &[2, 2])));

    // A budget of one sample forces two chunks with one partial each.
    data.prepare_chunking_alt(4 * 4);
    assert_eq!(data.get_chunks(), 2);

    let mut partials: Vec<Tensor<f32>> = Vec::new();
    for c in 0..data.get_chunks() {
        let (slice, _cnt, out_len) = data.get_chunk(c).unwrap();
        let flat_out = reduce_chunk(slice, out_len);
        partials.push(
            Tensor::from_data(&flat_out, data.get_output_shape().as_slice()).unwrap(),
        );
    }

    // Naive concatenation of the partials is not the answer.
    assert_ne!(partials[0].get_data(), m1.tens_add(&m2).unwrap().get_data());

    // The corrective pass collapses the stacked partials.
    let overflow = build_overflow_batch(&partials);
    assert!(overflow.get_single_output());
    assert!(!overflow.get_use_params());
    assert_eq!(overflow.get_samples_count(), 1);
    let (slice, _cnt, out_len) = overflow.get_chunk(0).unwrap();
    let combined = reduce_chunk(slice, out_len);
    let fixed = Tensor::from_data(&combined, overflow.get_output_shape().as_slice()).unwrap();

    let reference = m1.tens_add(&m2).unwrap();
    assert_eq!(fixed.get_data(), reference.get_data());
    assert_eq!(fixed.get_shape(), reference.get_shape());
}

#[test]
fn append_rejects_output_shape_mismatch() {
    let mut data: GpuData<f32> = GpuData::new();
    let t: Tensor<f32> = Tensor::fill(1.0, &[2, 2]);
    assert!(data.append(Sample::from_data(vec![t.clone()], vec![1.0], &[2, 2])));

    let rejected = data.append(Sample::from_data(vec![t.clone()], vec![1.0], &[4]));
    assert!(!rejected);
    assert_eq!(data.get_samples_count(), 1);
    assert_eq!(data.get_flat_inputs().len(), 4);
}

#[test]
fn append_rejects_shape_mismatch() {
    let mut data: GpuData<f32> = GpuData::new();
    let t: Tensor<f32> = Tensor::fill(1.0, &[2, 2]);
    assert!(data.append(Sample::from_data(vec![t], vec![1.0], &[2, 2])));

    let other: Tensor<f32> = Tensor::fill(1.0, &[4]);
    let rejected = data.append(Sample::from_data(vec![other], vec![1.0], &[2, 2]));
    assert!(!rejected);
    assert_eq!(data.get_samples_count(), 1);
}

#[test]
fn append_rejects_params_mismatch() {
    let mut data: GpuData<f32> = GpuData::new();
    data.disable_shapes();
    let t: Tensor<f32> = Tensor::fill(1.0, &[2, 2]);
    assert!(data.append(Sample::from_data(vec![t.clone()], vec![1.0], &[2, 2])));

    let rejected = data.append(Sample::from_data(vec![t], vec![2.0], &[2, 2]));
    assert!(!rejected);
    assert_eq!(data.get_samples_count(), 1);
}

#[test]
fn append_rejects_sample_size_mismatch() {
    let mut data: GpuData<f32> = GpuData::new();
    data.disable_shapes();
    data.disable_params();
    let t: Tensor<f32> = Tensor::fill(1.0, &[2, 2]);
    assert!(data.append(Sample::from_data(vec![t.clone()], vec![], &[2, 2])));

    // Same output shape but twice the input data.
    let rejected = data.append(Sample::from_data(vec![t.clone(), t], vec![], &[2, 2]));
    assert!(!rejected);
    assert_eq!(data.get_samples_count(), 1);
    assert_eq!(data.get_flat_inputs().len(), 4);
}

#[test]
fn append_captures_first_sample() {
    let mut data: GpuData<f32> = GpuData::new();
    let t = Tensor::from_data(&[1.0, 2.0], &[2, 1]).unwrap();
    assert!(data.append(Sample::from_data(vec![t], vec![0.5], &[2, 1])));

    assert_eq!(data.get_flat_inputs(), &vec![1.0, 2.0]);
    assert_eq!(data.get_flat_shapes(), &vec![2, 1]);
    assert_eq!(data.get_params(), &vec![0.5]);
    assert_eq!(data.get_output_shape(), &vec![2, 1]);
    assert_eq!(data.get_output_len(), 2);
    assert_eq!(data.get_input_per_sample(), 2);
    assert_eq!(data.get_output_per_sample(), 2);
    assert_eq!(data.get_input_size(), 2);
}

#[test]
fn get_chunk_past_the_end_returns_everything() {
    let mut data: GpuData<f32> = GpuData::new();
    data.disable_shapes();
    data.disable_params();
    let t: Tensor<f32> = Tensor::fill(2.0, &[3]);
    assert!(data.append(Sample::from_data(vec![t], vec![], &[3])));

    let (slice, cnt, out) = data.get_chunk(5).unwrap();
    assert_eq!(slice, &[2.0, 2.0, 2.0][..]);
    assert_eq!(cnt, 1);
    assert_eq!(out, 3);
}

#[test]
fn buffer_plan_reflects_the_batch() {
    let mut data: GpuData<f32> = GpuData::new();
    let t: Tensor<f32> = Tensor::fill(1.0, &[2, 3]);
    assert!(data.append(Sample::from_data(vec![t], vec![0.1], &[2, 3])));

    let plan = BufferPlan::from_chunk(&data, 0);
    assert!(plan.has_shapes);
    assert!(plan.has_params);
    assert_eq!(plan.input_len, 6);
    assert_eq!(plan.output_len, 6);
    assert_eq!(plan.samples_count, 1);
    assert_eq!(plan.bindings(), vec![0, 3, 1, 2]);

    let mut bare: GpuData<f32> = GpuData::new();
    bare.disable_shapes();
    bare.disable_params();
    let t2: Tensor<f32> = Tensor::fill(1.0, &[2, 3]);
    assert!(bare.append(Sample::from_data(vec![t2], vec![], &[2, 3])));
    let bare_plan = BufferPlan::from_chunk(&bare, 0);
    assert!(!bare_plan.has_shapes);
    assert!(!bare_plan.has_params);
    assert_eq!(bare_plan.bindings(), vec![0, 3]);

    assert!(!plan.update_compatible(&bare_plan));
    let plan_again = BufferPlan::from_chunk(&data, 0);
    assert!(plan.update_compatible(&plan_again));
}

#[test]
fn output_to_tensors_caps_at_sample_count() {
    let flat: Vec<f32> = vec![1.0, 2.0, 3.0, 4.0, 5.0, 6.0];
    let tensors = output_to_tensors(&flat, &[2], 2);
    assert_eq!(tensors.len(), 2);
    assert_eq!(tensors[0].get_data(), &vec![1.0, 2.0]);
    assert_eq!(tensors[1].get_data(), &vec![3.0, 4.0]);

    let all = output_to_tensors(&flat, &[2], 9);
    assert_eq!(all.len(), 3);
    assert_eq!(all[2].get_data(), &vec![5.0, 6.0]);
}

#[test]
fn sample_flattens_inputs_in_argument_order() {
    let a = Tensor::from_data(&[1.0, 2.0], &[2]).unwrap();
    let b = Tensor::from_data(&[3.0, 4.0, 5.0], &[3, 1]).unwrap();
    let sample = Sample::from_data(vec![a, b], vec![0.25], &[2, 3]);

    assert_eq!(sample.get_inputs(), &vec![1.0, 2.0, 3.0, 4.0, 5.0]);
    assert_eq!(sample.get_shapes(), &vec![2, 3, 1]);
    assert_eq!(sample.get_params(), &vec![0.25]);
    assert_eq!(sample.get_output_len(), 6);
    assert_eq!(sample.get_output_shape(), &vec![2, 3]);
    assert_eq!(sample.get_input_len(), 5);
}

#[test]
fn single_output_mode_tracks_one_sample_output() {
    let mut data: GpuData<f32> = GpuData::new();
    data.disable_shapes();
    data.disable_params();
    let t: Tensor<f32> = Tensor::fill(1.0, &[2, 2]);
    assert!(data.append(Sample::from_data(vec![t.clone()], vec![], &[2, 2])));
    assert!(data.append(Sample::from_data(vec![t], vec![], &[2, 2])));
    assert_eq!(data.get_output_len(), 8);

    data.enable_single_output();
    assert_eq!(data.get_output_len(), 4);

    data.disable_single_output();
    assert_eq!(data.get_output_len(), 8);
}

#[test]
fn output_shape_override_recomputes_lengths() {
    let mut data: GpuData<f32> = GpuData::new();
    let t: Tensor<f32> = Tensor::fill(1.0, &[3, 2]);
    assert!(data.append(Sample::from_data(vec![t.clone()], vec![0.1], &[])));
    assert!(data.append(Sample::from_data(vec![t], vec![0.1], &[])));
    assert_eq!(data.get_output_per_sample(), 1);

    data.set_output_shape(vec![3, 2]);
    assert_eq!(data.get_output_shape(), &vec![3, 2]);
    assert_eq!(data.get_output_per_sample(), 6);
    assert_eq!(data.get_output_len(), 12);
}

#[test]
fn chunking_with_metric_budget() {
    let mut data: GpuData<f32> = GpuData::new();
    data.disable_shapes();
    data.disable_params();
    for _ in 0..4 {
        let t: Tensor<f32> = Tensor::fill(0.5, &[2]);
        assert!(data.append(Sample::from_data(vec![t], vec![], &[2])));
    }
    data.prepare_chunking(16, &MemoryMetric::B);
    assert_eq!(data.get_max_chunk_len(), 4);
    assert_eq!(data.get_chunks(), 2);
}

#[test]
fn scalar_tensor_has_one_element() {
    let t = Tensor::from_data(&[7.0f32], &[]).unwrap();
    assert_eq!(t.get_data().len(), 1);
    assert_eq!(*t.value(&[]).unwrap(), 7.0);
    assert!(Tensor::from_data(&[1.0f32, 2.0], &[]).is_none());
}

#[test]
fn single_element_folds() {
    let t = Tensor::from_data(&[5.0f32], &[1]).unwrap();
    assert_eq!(t.sum(), 5.0);
    assert_eq!(t.product(), 5.0);
}
