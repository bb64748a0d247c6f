use flashlight_tensor::broadcasting::get_broadcast_shape;
use flashlight_tensor::device::get_size_using_metric;
use flashlight_tensor::device::workgroup_grid;
use flashlight_tensor::device::MemoryMetric;
use flashlight_tensor::machine_learning::backward_bias_shape;
use flashlight_tensor::machine_learning::backward_grad_shape;
use flashlight_tensor::machine_learning::backward_weights_shape;
use flashlight_tensor::machine_learning::forward_shape;
use flashlight_tensor::runner::split_to_correct_size;
use flashlight_tensor::subtypes::transpose_shapes;
use flashlight_tensor::tensor::idx_to_global;
use flashlight_tensor::tensor::Tensor;

#[test]
fn broadcast_shape_takes_axiswise_maximum() {
    let shape_a = vec![2, 1, 2];
    let shape_b = vec![2, 2, 1];

    let broadcast = get_broadcast_shape(&shape_a, &shape_b).unwrap();

    assert_eq!(broadcast, vec![2, 2, 2]);
}

#[test]
fn broadcast_shape_rejects_rank_mismatch() {
    assert!(get_broadcast_shape(&[2, 2], &[2, 2, 1]).is_none());
}

#[test]
fn broadcast_shape_rejects_unequal_axes() {
    assert!(get_broadcast_shape(&[2, 3], &[2, 2]).is_none());
}

#[test]
fn broadcast_add_concrete_example() {
    let a = Tensor::from_data(&[1.0, 2.0, 3.0], &[3, 1]).unwrap();
    let b = Tensor::from_data(&[4.0, 5.0, 6.0, 7.0, 8.0], &[1, 5]).unwrap();

    let out = a.tens_broadcast_add(&b).unwrap();

    assert_eq!(out.get_shape(), &vec![3, 5]);
    assert_eq!(*out.value(&[0, 0]).unwrap(), 5.0);
    assert_eq!(*out.value(&[2, 4]).unwrap(), 11.0);
    assert_eq!(
        out.get_data(),
        &vec![5.0, 6.0, 7.0, 8.0, 9.0, 6.0, 7.0, 8.0, 9.0, 10.0, 7.0, 8.0, 9.0, 10.0, 11.0]
    );
}

#[test]
fn broadcast_ops_elementwise() {
    let a: Tensor<f32> = Tensor::fill(4.0, &[2, 1, 2]);
    let b: Tensor<f32> = Tensor::fill(2.0, &[2, 2, 1]);

    let sum = a.tens_broadcast_add(&b).unwrap();
    assert_eq!(sum.get_shape(), &vec![2, 2, 2]);
    assert_eq!(sum.get_data(), &vec![6.0; 8]);

    let diff = a.tens_broadcast_sub(&b).unwrap();
    assert_eq!(diff.get_data(), &vec![2.0; 8]);

    let prod = a.tens_broadcast_mul(&b).unwrap();
    assert_eq!(prod.get_data(), &vec![8.0; 8]);

    let quot = a.tens_broadcast_div(&b).unwrap();
    assert_eq!(quot.get_data(), &vec![2.0; 8]);
}

#[test]
fn broadcast_rejects_incompatible_tensors() {
    let a: Tensor<f32> = Tensor::fill(1.0, &[2, 3]);
    let b: Tensor<f32> = Tensor::fill(1.0, &[2, 2]);
    assert!(a.tens_broadcast_add(&b).is_none());
}

#[test]
fn broadcast_add_mut_stores_broadcast_result() {
    let mut a: Tensor<f32> = Tensor::fill(1.0, &[2, 1, 2]);
    let b: Tensor<f32> = Tensor::fill(2.0, &[2, 2, 1]);

    a.tens_broadcast_add_mut(&b);

    assert_eq!(a.get_data(), &vec![3.0; 8]);
    assert_eq!(a.get_shape(), &vec![2, 2, 2]);
}

#[test]
fn in_place_elementwise_ops() {
    let mut a: Tensor<f32> = Tensor::fill(1.0, &[2, 2]);
    let b: Tensor<f32> = Tensor::fill(1.0, &[2, 2]);
    a.tens_add_mut(&b);
    assert_eq!(a.get_data(), &vec![2.0; 4]);

    a.tens_sub_mut(&b);
    assert_eq!(a.get_data(), &vec![1.0; 4]);

    a.mul_mut(6.0);
    assert_eq!(a.get_data(), &vec![6.0; 4]);

    a.div_mut(2.0);
    assert_eq!(a.get_data(), &vec![3.0; 4]);

    a.add_mut(1.0);
    assert_eq!(a.get_data(), &vec![4.0; 4]);

    a.sub_mut(2.0);
    assert_eq!(a.get_data(), &vec![2.0; 4]);

    let c: Tensor<f32> = Tensor::fill(2.0, &[2, 2]);
    a.tens_mul_mut(&c);
    assert_eq!(a.get_data(), &vec![4.0; 4]);

    a.tens_div_mut(&c);
    assert_eq!(a.get_data(), &vec![2.0; 4]);
}

#[test]
fn mismatched_in_place_op_leaves_tensor_unchanged() {
    let mut a: Tensor<f32> = Tensor::fill(1.0, &[2, 2]);
    let b: Tensor<f32> = Tensor::fill(1.0, &[4]);
    a.tens_add_mut(&b);
    assert_eq!(a.get_data(), &vec![1.0; 4]);
}

#[test]
fn sum_and_product_fold_all_elements() {
    let a: Tensor<f32> = Tensor::fill(1.0, &[3, 3]);
    assert_eq!(a.sum(), 9.0);

    let b: Tensor<f32> = Tensor::fill(2.0, &[3]);
    assert_eq!(b.product(), 8.0);
}

#[test]
fn dot_product_of_vectors() {
    let tensor1 = Tensor::from_data(&[1.0, 2.0, 3.0], &[3]).unwrap();
    let tensor2 = Tensor::from_data(&[3.0, 2.0, 1.0], &[3]).unwrap();

    assert_eq!(tensor1.dot_product(&tensor2).unwrap(), 10.0);
    let matrix: Tensor<f32> = Tensor::fill(1.0, &[3, 1]);
    assert!(matrix.dot_product(&matrix).is_none());
}

#[test]
fn value_and_set_check_their_coordinates() {
    let mut a: Tensor<f32> = Tensor::fill(1.0, &[2, 2]);
    assert_eq!(*a.value(&[1, 1]).unwrap(), 1.0);
    assert!(a.value(&[2, 0]).is_none());
    assert!(a.value(&[0]).is_none());

    a.set(9.0, &[5, 5]);
    assert_eq!(a.get_data(), &vec![1.0; 4]);
}

#[test]
fn set_shape_and_set_data_check_lengths() {
    let mut a: Tensor<f32> = Tensor::fill(1.0, &[4]);

    a.set_shape(&[1, 4]);
    assert_eq!(a.get_shape(), &vec![1, 4]);

    a.set_shape(&[3]);
    assert_eq!(a.get_shape(), &vec![1, 4]);

    a.set_data(&[2.0, 3.0, 4.0, 5.0]);
    assert_eq!(a.get_data(), &vec![2.0, 3.0, 4.0, 5.0]);

    a.set_data(&[2.0]);
    assert_eq!(a.get_data(), &vec![2.0, 3.0, 4.0, 5.0]);
}

#[test]
fn index_to_coordinates() {
    let a: Tensor<f32> = Tensor::new(&[5, 1, 2]);

    let global_id = a.idx_to_global(3);
    assert_eq!(global_id, vec![1, 0, 1]);

    assert_eq!(idx_to_global(3, &[5, 1, 2]), vec![1, 0, 1]);
    assert_eq!(idx_to_global(11, &[5, 1, 2]), Vec::<u32>::new());
}

#[test]
fn vector_and_matrix_reject_bad_positions() {
    let t: Tensor<f32> = Tensor::fill(1.0, &[2, 3]);
    assert!(t.vector(&[2]).is_none());
    assert!(t.vector(&[0, 0]).is_none());
    assert!(t.matrix(&[0]).is_none());

    let cube: Tensor<f32> = Tensor::fill(1.0, &[2, 2, 2]);
    assert!(cube.matrix(&[2]).is_none());
    assert!(cube.matrix_row(0).is_none());
    assert!(cube.matrix_transpose().is_none());
    assert!(cube.matrix_to_string().is_none());
}

#[test]
fn shape_helpers() {
    assert_eq!(transpose_shapes(&[2, 3]), vec![3, 2]);
    assert_eq!(transpose_shapes(&[2, 3, 4]), Vec::<u32>::new());

    assert_eq!(forward_shape(&[4, 2], &[2, 3]), vec![4, 3]);
    assert_eq!(backward_weights_shape(&[4, 2]), vec![4, 2]);
    assert_eq!(backward_bias_shape(&[4, 1]), vec![4, 1]);
    assert_eq!(backward_grad_shape(&[2, 3]), vec![2, 3]);
}

#[test]
fn byte_budget_units() {
    assert_eq!(get_size_using_metric(3, &MemoryMetric::B), 3);
    assert_eq!(get_size_using_metric(3, &MemoryMetric::MB), 3 * 1024 * 1024);
    assert_eq!(get_size_using_metric(3, &MemoryMetric::GB), 3 * 1024 * 1024 * 1024);
}

#[test]
fn dispatch_grid_covers_the_output() {
    assert_eq!(workgroup_grid(64), (1, 1, 1));
    assert_eq!(workgroup_grid(65), (2, 1, 1));
    assert_eq!(workgroup_grid(64 * 65535), (65535, 2, 1));

    let (x, y, z) = workgroup_grid(10_000_000);
    assert!(x as u64 * y as u64 * 64 >= 10_000_000);
    assert_eq!(z, 1);
}

#[test]
fn oversized_data_is_cut_to_whole_sample_bytes() {
    // 100 elements of 4 bytes exceed a 55-byte budget; a sample is 3
    // elements, 12 bytes, so the cut lands at 48.
    assert_eq!(split_to_correct_size(55, 100, 3), 48);
    assert_eq!(split_to_correct_size(4000, 100, 3), 100);
}

#[test]
fn matrix_to_string_single_cell() {
    let t = Tensor::from_data(&[7.5f32], &[1, 1]).unwrap();
    assert_eq!(t.matrix_to_string().unwrap(), "|7.5|");

    let col = Tensor::from_data(&[1.0f32, 2.0], &[2, 1]).unwrap();
    assert_eq!(col.matrix_to_string().unwrap(), "|1|\n|2|");
}

#[test]
fn remaining_broadcast_in_place_ops() {
    let mut a: Tensor<f32> = Tensor::fill(4.0, &[2, 1, 2]);
    let b: Tensor<f32> = Tensor::fill(2.0, &[2, 2, 1]);

    a.tens_broadcast_div_mut(&b);
    assert_eq!(a.get_data(), &vec![2.0; 8]);
    assert_eq!(a.get_shape(), &vec![2, 2, 2]);

    let mut c: Tensor<f32> = Tensor::fill(4.0, &[2, 1]);
    let d: Tensor<f32> = Tensor::fill(2.0, &[1, 3]);
    c.tens_broadcast_sub_mut(&d);
    assert_eq!(c.get_data(), &vec![2.0; 6]);

    let mut e: Tensor<f32> = Tensor::fill(4.0, &[2, 1]);
    e.tens_broadcast_mul_mut(&d);
    assert_eq!(e.get_data(), &vec![8.0; 6]);
}
