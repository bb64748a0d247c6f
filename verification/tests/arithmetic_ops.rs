use flashlight_tensor::tensor::Tensor;

#[test]
fn iterative_tensor_addition() {
    let data: Vec<f32> = vec![1.0, 2.0, 3.0];
    let sizes: Vec<u32> = vec![3];

    let expected: Vec<f32> = vec![2.0, 4.0, 6.0];

    let tensor = Tensor::from_data(&data, &sizes).unwrap();

    let result_tensor = tensor.tens_add(&tensor).unwrap();

    assert_eq!(result_tensor.get_data(), &expected);
}

#[test]
fn iterative_tensor_subtraction() {
    let data: Vec<f32> = vec![1.0, 2.0, 3.0];
    let sizes: Vec<u32> = vec![3];

    let expected: Vec<f32> = vec![0.0, 0.0, 0.0];

    let tensor = Tensor::from_data(&data, &sizes).unwrap();

    let result_tensor = tensor.tens_sub(&tensor).unwrap();

    assert_eq!(result_tensor.get_data(), &expected);
}

#[test]
fn iterative_tensor_multiplication() {
    let data: Vec<f32> = vec![1.0, 2.0, 3.0];
    let sizes: Vec<u32> = vec![3];

    let expected: Vec<f32> = vec![1.0, 4.0, 9.0];

    let tensor = Tensor::from_data(&data, &sizes).unwrap();

    let result_tensor = tensor.tens_mul(&tensor).unwrap();

    assert_eq!(result_tensor.get_data(), &expected);
}

#[test]
fn lib_iterative_tensor_division() {
    let data: Vec<f32> = vec![1.0, 2.0, 3.0];
    let sizes: Vec<u32> = vec![3];

    let expected: Vec<f32> = vec![1.0, 1.0, 1.0];

    let tensor = Tensor::from_data(&data, &sizes).unwrap();

    let result_tensor = tensor.tens_div(&tensor).unwrap();

    assert_eq!(result_tensor.get_data(), &expected);
}

#[test]
fn iterative_addition() {
    let data: Vec<f32> = vec![1.0, 2.0, 3.0];
    let sizes: Vec<u32> = vec![3];

    let expected: Vec<f32> = vec![2.0, 3.0, 4.0];

    let tensor = Tensor::from_data(&data, &sizes).unwrap();

    let result_tensor = tensor.add(1.0);

    assert_eq!(result_tensor.get_data(), &expected);
}

#[test]
fn iterative_subtraction() {
    let data: Vec<f32> = vec![1.0, 2.0, 3.0];
    let sizes: Vec<u32> = vec![3];

    let expected: Vec<f32> = vec![0.0, 1.0, 2.0];

    let tensor = Tensor::from_data(&data, &sizes).unwrap();

    let result_tensor = tensor.sub(1.0);

    assert_eq!(result_tensor.get_data(), &expected);
}

#[test]
fn iterative_multiplication() {
    let data: Vec<f32> = vec![1.0, 2.0, 3.0];
    let sizes: Vec<u32> = vec![3];

    let expected: Vec<f32> = vec![2.0, 4.0, 6.0];

    let tensor = Tensor::from_data(&data, &sizes).unwrap();

    let result_tensor = tensor.mul(2.0);

    assert_eq!(result_tensor.get_data(), &expected);
}

#[test]
fn lib_iterative_division() {
    let data: Vec<f32> = vec![1.0, 2.0, 3.0];
    let sizes: Vec<u32> = vec![3];

    let expected: Vec<f32> = vec![0.5, 1.0, 1.5];

    let tensor = Tensor::from_data(&data, &sizes).unwrap();

    let result_tensor = tensor.div(2.0);

    assert_eq!(result_tensor.get_data(), &expected);
}

#[test]
fn tensor_addition() {
    let data: Vec<f32> = vec![1.0, 2.0, 3.0];
    let sizes: Vec<u32> = vec![3];

    let expected: Vec<f32> = vec![2.0, 4.0, 6.0];

    let tensor = Tensor::from_data(&data, &sizes).unwrap();

    let result_tensor = tensor.tens_add(&tensor).unwrap();

    assert_eq!(result_tensor.get_data(), &expected);
}

#[test]
fn basic_addition() {
    let data: Vec<f32> = vec![1.0, 2.0, 3.0];
    let sizes: Vec<u32> = vec![3];

    let expected: Vec<f32> = vec![2.0, 3.0, 4.0];

    let tensor = Tensor::from_data(&data, &sizes).unwrap();

    let result_tensor = tensor.add(1.0);

    assert_eq!(result_tensor.get_data(), &expected);
}

#[test]
fn tensor_subtraction() {
    let data: Vec<f32> = vec![1.0, 2.0, 3.0];
    let sizes: Vec<u32> = vec![3];

    let expected: Vec<f32> = vec![0.0, 0.0, 0.0];

    let tensor = Tensor::from_data(&data, &sizes).unwrap();

    let result_tensor = tensor.tens_sub(&tensor).unwrap();

    assert_eq!(result_tensor.get_data(), &expected);
}

#[test]
fn basic_subtraction() {
    let data: Vec<f32> = vec![1.0, 2.0, 3.0];
    let sizes: Vec<u32> = vec![3];

    let expected: Vec<f32> = vec![0.0, 1.0, 2.0];

    let tensor = Tensor::from_data(&data, &sizes).unwrap();

    let result_tensor = tensor.sub(1.0);

    assert_eq!(result_tensor.get_data(), &expected);
}

#[test]
fn tensor_multiplication() {
    let data: Vec<f32> = vec![1.0, 2.0, 3.0];
    let sizes: Vec<u32> = vec![3];

    let expected: Vec<f32> = vec![1.0, 4.0, 9.0];

    let tensor = Tensor::from_data(&data, &sizes).unwrap();

    let result_tensor = tensor.tens_mul(&tensor).unwrap();

    assert_eq!(result_tensor.get_data(), &expected);
}

#[test]
fn basic_multiplication() {
    let data: Vec<f32> = vec![1.0, 2.0, 3.0];
    let sizes: Vec<u32> = vec![3];

    let expected: Vec<f32> = vec![2.0, 4.0, 6.0];

    let tensor = Tensor::from_data(&data, &sizes).unwrap();

    let result_tensor = tensor.mul(2.0);

    assert_eq!(result_tensor.get_data(), &expected);
}

#[test]
fn division_iterative_tensor_division() {
    let data: Vec<f32> = vec![1.0, 2.0, 3.0];
    let sizes: Vec<u32> = vec![3];

    let expected: Vec<f32> = vec![1.0, 1.0, 1.0];

    let tensor = Tensor::from_data(&data, &sizes).unwrap();

    let result_tensor = tensor.tens_div(&tensor).unwrap();

    assert_eq!(result_tensor.get_data(), &expected);
}

#[test]
fn division_iterative_division() {
    let data: Vec<f32> = vec![1.0, 2.0, 3.0];
    let sizes: Vec<u32> = vec![3];

    let expected: Vec<f32> = vec![0.5, 1.0, 1.5];

    let tensor = Tensor::from_data(&data, &sizes).unwrap();

    let result_tensor = tensor.div(2.0);

    assert_eq!(result_tensor.get_data(), &expected);
}
