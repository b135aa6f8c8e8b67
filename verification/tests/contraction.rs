use tensor_logic::arithmetic::Arithmetic;
use tensor_logic::contraction::{einstein_summation, plan_contraction, position};
use tensor_logic::error::TensorError;
use tensor_logic::tensor::Tensor;

/// Double-precision arithmetic. A difference that lies within a few units in
/// the last place of a number with twelve decimals is that number, so that
/// the complement of a decimal degree of truth is the decimal one.
struct Real;

impl Arithmetic<f64> for Real {
    fn from_count(&self, n: usize) -> f64 {
        n as f64
    }

    fn from_ratio(&self, numerator: u64, denominator: u64) -> f64 {
        numerator as f64 / denominator as f64
    }

    fn plus(&self, x: &f64, y: &f64) -> f64 {
        x + y
    }

    fn minus(&self, x: &f64, y: &f64) -> f64 {
        let raw = x - y;
        let snapped = (raw * 1e12).round() / 1e12;
        let scale = x.abs().max(y.abs());
        if (snapped - raw).abs() <= 4.0 * f64::EPSILON * scale {
            snapped
        } else {
            raw
        }
    }

    fn times(&self, x: &f64, y: &f64) -> f64 {
        x * y
    }

    fn divide(&self, x: &f64, y: &f64) -> f64 {
        x / y
    }

    fn maximum(&self, x: &f64, y: &f64) -> f64 {
        x.max(*y)
    }

    fn negate(&self, x: &f64) -> f64 {
        -x
    }

    fn square_root(&self, x: &f64) -> f64 {
        x.sqrt()
    }

    fn exponential(&self, x: &f64) -> f64 {
        x.exp()
    }

    fn power(&self, x: &f64, y: &f64) -> f64 {
        x.powf(*y)
    }

    fn less_than(&self, x: &f64, y: &f64) -> bool {
        x < y
    }
}

#[test]
fn matrix_product_two_by_three_times_three_by_four() {
    let a = Tensor::new(vec![2, 3], vec![1.0, 2.0, 3.0, 4.0, 5.0, 6.0]);
    let b = Tensor::new(
        vec![3, 4],
        vec![1.0, 0.0, 0.0, 1.0, 0.0, 0.0, 1.0, 0.0, 1.0, 0.0, 0.0, 1.0],
    );
    let c = einstein_summation(&a, &b, &[0, 1], &[1, 2], &[0, 2], &Real).unwrap();
    assert_eq!(c.shape, vec![2, 4]);
    assert_eq!(c.rank, 2);
    assert_eq!(c.data, vec![4.0, 0.0, 2.0, 4.0, 10.0, 0.0, 5.0, 10.0]);
}

#[test]
fn matrix_product_with_transposed_output() {
    let a = Tensor::new(vec![2, 3], vec![1.0, 2.0, 3.0, 4.0, 5.0, 6.0]);
    let b = Tensor::new(
        vec![3, 4],
        vec![1.0, 0.0, 0.0, 1.0, 0.0, 0.0, 1.0, 0.0, 1.0, 0.0, 0.0, 1.0],
    );
    let c = einstein_summation(&a, &b, &[0, 1], &[1, 2], &[2, 0], &Real).unwrap();
    assert_eq!(c.shape, vec![4, 2]);
    assert_eq!(c.data, vec![4.0, 10.0, 0.0, 0.0, 2.0, 5.0, 4.0, 10.0]);
}

#[test]
fn matrix_product_with_first_axes_contracted() {
    let a = Tensor::new(vec![3, 2], vec![1.0, 4.0, 2.0, 5.0, 3.0, 6.0]);
    let b = Tensor::new(vec![3, 2], vec![1.0, 0.0, 0.0, 1.0, 1.0, 1.0]);
    let c = einstein_summation(&a, &b, &[7, 0], &[7, 1], &[0, 1], &Real).unwrap();
    assert_eq!(c.shape, vec![2, 2]);
    assert_eq!(c.data, vec![4.0, 5.0, 10.0, 11.0]);
}

#[test]
fn matrix_times_vector() {
    let a = Tensor::new(vec![2, 3], vec![1.0, 2.0, 3.0, 4.0, 5.0, 6.0]);
    let v = Tensor::new(vec![3], vec![1.0, 10.0, 100.0]);
    let c = einstein_summation(&a, &v, &[0, 1], &[1], &[0], &Real).unwrap();
    assert_eq!(c.shape, vec![2]);
    assert_eq!(c.data, vec![321.0, 654.0]);
}

#[test]
fn outer_product_has_no_contracted_index() {
    let a = Tensor::new(vec![2], vec![1.0, 2.0]);
    let b = Tensor::new(vec![3], vec![3.0, 4.0, 5.0]);
    let c = einstein_summation(&a, &b, &[0], &[1], &[0, 1], &Real).unwrap();
    assert_eq!(c.shape, vec![2, 3]);
    assert_eq!(c.data, vec![3.0, 4.0, 5.0, 6.0, 8.0, 10.0]);
}

#[test]
fn two_indices_contracted_at_once() {
    let a = Tensor::new(vec![2, 2, 2], vec![1.0, 2.0, 3.0, 4.0, 5.0, 6.0, 7.0, 8.0]);
    let b = Tensor::new(vec![2, 2], vec![1.0, 10.0, 100.0, 1000.0]);
    let c = einstein_summation(&a, &b, &[0, 1, 2], &[1, 2], &[0], &Real).unwrap();
    assert_eq!(c.shape, vec![2]);
    assert_eq!(c.data, vec![4321.0, 8765.0]);
}

#[test]
fn full_contraction_gives_a_scalar() {
    let a = Tensor::new(vec![2, 2], vec![1.0, 2.0, 3.0, 4.0]);
    let b = Tensor::new(vec![2, 2], vec![5.0, 6.0, 7.0, 8.0]);
    let c = einstein_summation(&a, &b, &[0, 1], &[0, 1], &[], &Real).unwrap();
    assert_eq!(c.shape, Vec::<usize>::new());
    assert_eq!(c.rank, 0);
    assert_eq!(c.data, vec![70.0]);
}

#[test]
fn shared_label_kept_in_output_is_elementwise_product() {
    let a = Tensor::new(vec![3], vec![1.0, 2.0, 3.0]);
    let b = Tensor::new(vec![3], vec![4.0, 5.0, 6.0]);
    let c = einstein_summation(&a, &b, &[0], &[0], &[0], &Real).unwrap();
    assert_eq!(c.shape, vec![3]);
    assert_eq!(c.data, vec![4.0, 10.0, 18.0]);
}

#[test]
fn batched_matrix_product() {
    let a = Tensor::new(vec![2, 1, 2], vec![1.0, 2.0, 3.0, 4.0]);
    let b = Tensor::new(vec![2, 2, 1], vec![5.0, 6.0, 7.0, 8.0]);
    let c = einstein_summation(&a, &b, &[9, 0, 1], &[9, 1, 2], &[9, 0, 2], &Real).unwrap();
    assert_eq!(c.shape, vec![2, 1, 1]);
    assert_eq!(c.data, vec![17.0, 53.0]);
}

#[test]
fn unlisted_free_label_is_summed() {
    let a = Tensor::new(vec![2, 2], vec![1.0, 2.0, 3.0, 4.0]);
    let b = Tensor::new(vec![2], vec![1.0, 10.0]);
    let c = einstein_summation(&a, &b, &[0, 1], &[2], &[0], &Real).unwrap();
    assert_eq!(c.shape, vec![2]);
    assert_eq!(c.data, vec![33.0, 77.0]);
}

#[test]
fn zero_extent_gives_empty_or_zero_results() {
    let a = Tensor::new(vec![2, 0], Vec::<f64>::new());
    let b = Tensor::new(vec![0, 3], Vec::<f64>::new());
    let c = einstein_summation(&a, &b, &[0, 1], &[1, 2], &[0, 2], &Real).unwrap();
    assert_eq!(c.shape, vec![2, 3]);
    assert_eq!(c.data, vec![0.0; 6]);
    let d = einstein_summation(&a, &b, &[0, 1], &[1, 2], &[1], &Real).unwrap();
    assert_eq!(d.shape, vec![0]);
    assert_eq!(d.data, Vec::<f64>::new());
}

#[test]
fn scalars_contract_to_their_product() {
    let a = Tensor::new(vec![], vec![3.0]);
    let b = Tensor::new(vec![], vec![4.0]);
    let c = einstein_summation(&a, &b, &[], &[], &[], &Real).unwrap();
    assert_eq!(c.data, vec![12.0]);
}

#[test]
fn index_count_must_match_rank() {
    let a = Tensor::new(vec![2, 3], vec![0.0; 6]);
    let b = Tensor::new(vec![3, 4], vec![0.0; 12]);
    assert!(matches!(
        einstein_summation(&a, &b, &[0], &[1, 2], &[0, 2], &Real),
        Err(TensorError::IndexArityMismatch)
    ));
    assert!(matches!(
        einstein_summation(&a, &b, &[0, 1], &[1, 2, 3], &[0, 2], &Real),
        Err(TensorError::IndexArityMismatch)
    ));
}

#[test]
fn contracted_extents_must_agree() {
    let a = Tensor::new(vec![2, 3], vec![0.0; 6]);
    let b = Tensor::new(vec![4, 5], vec![0.0; 20]);
    match einstein_summation(&a, &b, &[0, 1], &[1, 2], &[0, 2], &Real) {
        Err(TensorError::DimensionMismatch { label, dim_a, dim_b }) => {
            assert_eq!(label, 1);
            assert_eq!(dim_a, 3);
            assert_eq!(dim_b, 4);
        }
        _ => panic!("a dimension mismatch was expected"),
    }
}

#[test]
fn repeated_label_within_one_tensor_must_agree_too() {
    let a = Tensor::new(vec![2, 3], vec![0.0; 6]);
    let b = Tensor::new(vec![4], vec![0.0; 4]);
    match einstein_summation(&a, &b, &[5, 5], &[6], &[6], &Real) {
        Err(TensorError::DimensionMismatch { label, dim_a, dim_b }) => {
            assert_eq!(label, 5);
            assert_eq!(dim_a, 2);
            assert_eq!(dim_b, 3);
        }
        _ => panic!("a dimension mismatch was expected"),
    }
}

#[test]
fn diagonal_of_a_matrix() {
    let a = Tensor::new(vec![2, 2], vec![1.0, 2.0, 3.0, 4.0]);
    let one = Tensor::new(vec![], vec![1.0]);
    let d = einstein_summation(&a, &one, &[0, 0], &[], &[0], &Real).unwrap();
    assert_eq!(d.data, vec![1.0, 4.0]);
    let trace = einstein_summation(&a, &one, &[0, 0], &[], &[], &Real).unwrap();
    assert_eq!(trace.data, vec![5.0]);
}

#[test]
fn output_label_must_name_an_input_axis() {
    let a = Tensor::new(vec![2, 3], vec![0.0; 6]);
    let b = Tensor::new(vec![3, 4], vec![0.0; 12]);
    match einstein_summation(&a, &b, &[0, 1], &[1, 2], &[0, 8, 9], &Real) {
        Err(TensorError::UnknownOutputIndex { label }) => assert_eq!(label, 8),
        _ => panic!("an unknown output index was expected"),
    }
}

#[test]
fn arity_is_checked_before_extents_and_extents_before_output() {
    let a = Tensor::new(vec![2, 3], vec![0.0; 6]);
    let b = Tensor::new(vec![4, 5], vec![0.0; 20]);
    assert!(matches!(
        einstein_summation(&a, &b, &[0], &[1, 2], &[9], &Real),
        Err(TensorError::IndexArityMismatch)
    ));
    assert!(matches!(
        einstein_summation(&a, &b, &[0, 1], &[1, 2], &[9], &Real),
        Err(TensorError::DimensionMismatch { .. })
    ));
}

#[test]
fn uncountable_result_is_refused() {
    let big = 1usize << (usize::BITS / 2);
    let a = Tensor::new(vec![big, 0], Vec::<f64>::new());
    let b = Tensor::new(vec![big, 0], Vec::<f64>::new());
    assert!(matches!(
        einstein_summation(&a, &b, &[0, 1], &[2, 1], &[0, 2], &Real),
        Err(TensorError::CapacityOverflow)
    ));
}

#[test]
fn plan_lays_out_loops() {
    let plan = plan_contraction(&[2, 3], &[3, 4], &[0, 1], &[1, 2], &[2, 0]).unwrap();
    assert_eq!(plan.output_shape, vec![4, 2]);
    assert_eq!(plan.summed_shape, vec![3]);
    assert_eq!(plan.axes_a, vec![1, 2]);
    assert_eq!(plan.axes_b, vec![2, 0]);
}

#[test]
fn plan_uses_first_axis_for_repeated_output_label() {
    let plan = plan_contraction(&[2, 3], &[3], &[0, 1], &[1], &[0, 0]).unwrap();
    assert_eq!(plan.output_shape, vec![2, 2]);
    assert_eq!(plan.summed_shape, vec![3]);
    assert_eq!(plan.axes_a, vec![0, 2]);
    assert_eq!(plan.axes_b, vec![2]);
}

#[test]
fn position_finds_first_occurrence() {
    assert_eq!(position(&[4, 7, 4, 9], 4), Some(0));
    assert_eq!(position(&[4, 7, 4, 9], 9), Some(3));
    assert_eq!(position(&[4, 7, 4, 9], 5), None);
    assert_eq!(position(&[], 5), None);
}
