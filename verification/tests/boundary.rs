use tensor_logic::arithmetic::Arithmetic;
use tensor_logic::boundary::{
    status_of, tensor_and_ffi, tensor_apply_kernel_ffi, tensor_create, tensor_free,
    tensor_implies_ffi, tensor_not_ffi, tensor_or_ffi, tensor_similarity_ffi, CTensor,
};
use tensor_logic::error::TensorError;
use tensor_logic::ffi::FFIError;
use tensor_logic::tensor::Tensor;

/// Double-precision arithmetic. A difference that lies within a few units in
/// the last place of a number with twelve decimals is that number, so that
/// the complement of a decimal degree of truth is the decimal one.
struct Real;

impl Arithmetic<f64> for Real {
    fn from_count(&self, n: usize) -> f64 {
        n as f64
    }

    fn from_ratio(&self, numerator: u64, denominator: u64) -> f64 {
        numerator as f64 / denominator as f64
    }

    fn plus(&self, x: &f64, y: &f64) -> f64 {
        x + y
    }

    fn minus(&self, x: &f64, y: &f64) -> f64 {
        let raw = x - y;
        let snapped = (raw * 1e12).round() / 1e12;
        let scale = x.abs().max(y.abs());
        if (snapped - raw).abs() <= 4.0 * f64::EPSILON * scale {
            snapped
        } else {
            raw
        }
    }

    fn times(&self, x: &f64, y: &f64) -> f64 {
        x * y
    }

    fn divide(&self, x: &f64, y: &f64) -> f64 {
        x / y
    }

    fn maximum(&self, x: &f64, y: &f64) -> f64 {
        x.max(*y)
    }

    fn negate(&self, x: &f64) -> f64 {
        -x
    }

    fn square_root(&self, x: &f64) -> f64 {
        x.sqrt()
    }

    fn exponential(&self, x: &f64) -> f64 {
        x.exp()
    }

    fn power(&self, x: &f64, y: &f64) -> f64 {
        x.powf(*y)
    }

    fn less_than(&self, x: &f64, y: &f64) -> bool {
        x < y
    }
}

fn handle(shape: Vec<usize>, data: Vec<f64>) -> Option<CTensor<f64>> {
    Some(CTensor::from_tensor(Tensor::new(shape, data)))
}

#[test]
fn boundary_round_trip_keeps_shape_and_data() {
    let tensor = Tensor::new(vec![2, 2], vec![1.0, 2.0, 3.0, 4.0]);
    let handed = CTensor::from_tensor(tensor);
    assert_eq!(handed.shape, Some(vec![2, 2]));
    assert_eq!(handed.data, Some(vec![1.0, 2.0, 3.0, 4.0]));
    assert_eq!(handed.rank, 2);
    let back = handed.to_tensor().unwrap();
    assert_eq!(back.shape, vec![2, 2]);
    assert_eq!(back.data, vec![1.0, 2.0, 3.0, 4.0]);
    assert_eq!(back.rank, 2);
}

#[test]
fn release_of_handle_and_of_nothing() {
    let handed = CTensor::from_tensor(Tensor::new(vec![2, 2], vec![1.0, 2.0, 3.0, 4.0]));
    tensor_free(Some(handed));
    tensor_free::<f64>(None);
}

#[test]
fn create_checks_buffers() {
    let made = tensor_create(Some(vec![2, 2]), Some(vec![1.0, 2.0, 3.0, 4.0])).unwrap();
    assert_eq!(made.shape, Some(vec![2, 2]));
    assert_eq!(made.data, Some(vec![1.0, 2.0, 3.0, 4.0]));
    assert_eq!(made.rank, 2);
    assert!(matches!(
        tensor_create::<f64>(None, Some(vec![1.0])),
        Err(TensorError::NullArgument)
    ));
    assert!(matches!(tensor_create::<f64>(Some(vec![1]), None), Err(TensorError::NullArgument)));
    assert!(matches!(tensor_create::<f64>(None, None), Err(TensorError::NullArgument)));
    match tensor_create(Some(vec![2, 2]), Some(vec![1.0, 2.0, 3.0])) {
        Err(TensorError::LengthMismatch { left_len, right_len }) => {
            assert_eq!(left_len, 3);
            assert_eq!(right_len, 4);
        }
        _ => panic!("a length mismatch was expected"),
    }
    assert!(matches!(
        tensor_create(Some(vec![usize::MAX, 2]), Some(vec![1.0])),
        Err(TensorError::CapacityOverflow)
    ));
}

#[test]
fn adoption_checks_rank() {
    let claimed = CTensor { shape: Some(vec![2, 2]), data: Some(vec![1.0, 2.0, 3.0, 4.0]), rank: 3 };
    match claimed.to_tensor() {
        Err(TensorError::LengthMismatch { left_len, right_len }) => {
            assert_eq!(left_len, 3);
            assert_eq!(right_len, 2);
        }
        _ => panic!("a length mismatch was expected"),
    }
    let headless = CTensor::<f64> { shape: None, data: None, rank: 0 };
    assert!(matches!(headless.to_tensor(), Err(TensorError::NullArgument)));
}

#[test]
fn and_across_boundary() {
    let (status, out) = tensor_and_ffi(
        handle(vec![3], vec![1.0, 2.0, 3.0]),
        handle(vec![3], vec![2.0, 3.0, 4.0]),
        true,
        &Real,
    );
    assert_eq!(status, 0);
    let out = out.unwrap();
    assert_eq!(out.shape, Some(vec![3]));
    assert_eq!(out.data, Some(vec![2.0, 6.0, 12.0]));
    assert_eq!(out.rank, 1);
}

#[test]
fn or_implies_and_not_across_boundary() {
    let (status, out) = tensor_or_ffi(
        handle(vec![2], vec![3.0, 1.0]),
        handle(vec![2], vec![2.0, 4.0]),
        true,
        &Real,
    );
    assert_eq!(status, 0);
    assert_eq!(out.unwrap().data, Some(vec![3.0 / 5.0, 4.0 / 5.0]));
    let (status, out) = tensor_implies_ffi(
        handle(vec![2], vec![0.2, 1.0]),
        handle(vec![2], vec![0.5, 0.0]),
        true,
        &Real,
    );
    assert_eq!(status, 0);
    assert_eq!(out.unwrap().data, Some(vec![0.8, 0.0]));
    let (status, out) = tensor_not_ffi(handle(vec![2], vec![0.25, 1.0]), true, &Real);
    assert_eq!(status, 0);
    assert_eq!(out.unwrap().data, Some(vec![0.75, 0.0]));
}

#[test]
fn absent_arguments_give_null_status_and_no_output() {
    let null = FFIError::NullPointer.code();
    let (status, out) = tensor_and_ffi(None, handle(vec![1], vec![1.0]), true, &Real);
    assert_eq!(status, null);
    assert!(out.is_none());
    let (status, out) = tensor_or_ffi(handle(vec![1], vec![1.0]), None, true, &Real);
    assert_eq!(status, null);
    assert!(out.is_none());
    let (status, out) =
        tensor_implies_ffi(handle(vec![1], vec![1.0]), handle(vec![1], vec![1.0]), false, &Real);
    assert_eq!(status, null);
    assert!(out.is_none());
    let (status, out) = tensor_not_ffi::<f64, Real>(None, true, &Real);
    assert_eq!(status, null);
    assert!(out.is_none());
    let (status, out) = tensor_not_ffi(handle(vec![1], vec![1.0]), false, &Real);
    assert_eq!(status, null);
    assert!(out.is_none());
    let bufferless = CTensor::<f64> { shape: Some(vec![1]), data: None, rank: 1 };
    let (status, out) = tensor_and_ffi(Some(bufferless), handle(vec![1], vec![1.0]), true, &Real);
    assert_eq!(status, null);
    assert!(out.is_none());
}

#[test]
fn shape_mismatch_gives_its_own_status_and_no_output() {
    let (status, out) = tensor_and_ffi(
        handle(vec![2], vec![1.0, 2.0]),
        handle(vec![1, 2], vec![1.0, 2.0]),
        true,
        &Real,
    );
    assert_eq!(status, FFIError::InvalidArgument.code());
    assert!(status < 0);
    assert_ne!(status, FFIError::NullPointer.code());
    assert!(out.is_none());
}

#[test]
fn statuses_tell_the_classes_apart() {
    assert_eq!(status_of(&TensorError::NullArgument), FFIError::NullPointer);
    assert_eq!(status_of(&TensorError::CapacityOverflow), FFIError::MemoryAllocation);
    assert_eq!(status_of(&TensorError::EmptyInput), FFIError::InvalidArgument);
    assert_eq!(status_of(&TensorError::IndexArityMismatch), FFIError::InvalidArgument);
    assert_eq!(
        status_of(&TensorError::ShapeMismatch { left: vec![1], right: vec![2] }),
        FFIError::InvalidArgument
    );
    assert_eq!(
        status_of(&TensorError::UnknownKernel { name: String::from("x") }),
        FFIError::InvalidArgument
    );
}

#[test]
fn similarity_across_boundary() {
    let s = tensor_similarity_ffi(
        handle(vec![2], vec![1.0, 0.0]),
        handle(vec![2], vec![3.0, 4.0]),
        &Real,
    );
    assert_eq!(s, 3.0 / 5.0);
    let mismatched = tensor_similarity_ffi(
        handle(vec![2], vec![1.0, 0.0]),
        handle(vec![3], vec![3.0, 4.0, 5.0]),
        &Real,
    );
    assert_eq!(mismatched, 0.0);
    assert_eq!(tensor_similarity_ffi(None, handle(vec![1], vec![1.0]), &Real), 0.0);
    assert_eq!(tensor_similarity_ffi(handle(vec![1], vec![1.0]), None, &Real), 0.0);
}

#[test]
fn kernel_across_boundary() {
    let v = tensor_apply_kernel_ffi(
        Some("linear"),
        handle(vec![3], vec![1.0, 2.0, 3.0]),
        handle(vec![3], vec![4.0, 5.0, 6.0]),
        &Real,
    );
    assert_eq!(v, 32.0);
    let same = tensor_apply_kernel_ffi(
        Some("rbf"),
        handle(vec![2], vec![0.5, 9.0]),
        handle(vec![2], vec![0.5, 9.0]),
        &Real,
    );
    assert_eq!(same, 1.0);
}

#[test]
fn unknown_kernel_across_boundary_is_zero() {
    let v = tensor_apply_kernel_ffi(
        Some("unknown"),
        handle(vec![3], vec![1.0, 2.0, 3.0]),
        handle(vec![3], vec![4.0, 5.0, 6.0]),
        &Real,
    );
    assert_eq!(v, 0.0);
}

#[test]
fn kernel_with_absent_or_mismatched_arguments_is_zero() {
    assert_eq!(
        tensor_apply_kernel_ffi(None, handle(vec![1], vec![1.0]), handle(vec![1], vec![1.0]), &Real),
        0.0
    );
    assert_eq!(
        tensor_apply_kernel_ffi(Some("linear"), None, handle(vec![1], vec![1.0]), &Real),
        0.0
    );
    assert_eq!(
        tensor_apply_kernel_ffi(Some("linear"), handle(vec![1], vec![1.0]), None, &Real),
        0.0
    );
    assert_eq!(
        tensor_apply_kernel_ffi(
            Some("linear"),
            handle(vec![1], vec![1.0]),
            handle(vec![2], vec![1.0, 2.0]),
            &Real
        ),
        0.0
    );
}
