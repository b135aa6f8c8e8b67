use tensor_logic::consciousness::{classify, determine_emotional_state, EmotionalState};
use tensor_logic::ffi::{FFIError, FFIResult};
use tensor_logic::memory_manager::MemoryManager;
use tensor_logic::neural_engine::calculate_total_parameters;
use tensor_logic::shape::{checked_size, copy_shape, same_shape, unflatten_index};
use tensor_logic::wasm::AGIWasm;

#[test]
fn size_is_the_product_of_extents() {
    assert_eq!(checked_size(&[]), Some(1));
    assert_eq!(checked_size(&[7]), Some(7));
    assert_eq!(checked_size(&[2, 3, 4]), Some(24));
    assert_eq!(checked_size(&[2, 0, 4]), Some(0));
}

#[test]
fn size_that_cannot_be_counted_is_none() {
    assert_eq!(checked_size(&[usize::MAX, 2]), None);
    assert_eq!(checked_size(&[usize::MAX, 1]), Some(usize::MAX));
    assert_eq!(checked_size(&[usize::MAX, usize::MAX, 0]), Some(0));
    assert_eq!(checked_size(&[0, usize::MAX, usize::MAX]), Some(0));
}

#[test]
fn shapes_compare_by_extents() {
    assert!(same_shape(&[2, 3], &[2, 3]));
    assert!(!same_shape(&[2, 3], &[3, 2]));
    assert!(!same_shape(&[2, 3], &[2, 3, 1]));
    assert!(same_shape(&[], &[]));
    assert_eq!(copy_shape(&[4, 5, 6]), vec![4, 5, 6]);
}

#[test]
fn flat_index_unflattens_row_major() {
    assert_eq!(unflatten_index(0, &[2, 3, 4]), vec![0, 0, 0]);
    assert_eq!(unflatten_index(5, &[2, 3, 4]), vec![0, 1, 1]);
    assert_eq!(unflatten_index(23, &[2, 3, 4]), vec![1, 2, 3]);
    assert_eq!(unflatten_index(12, &[2, 3, 4]), vec![1, 0, 0]);
    assert_eq!(unflatten_index(0, &[]), Vec::<usize>::new());
}

#[test]
fn status_codes() {
    assert_eq!(FFIError::Success.code(), 0);
    assert_eq!(FFIError::NullPointer.code(), -1);
    assert_eq!(FFIError::InvalidArgument.code(), -2);
    assert_eq!(FFIError::MemoryAllocation.code(), -3);
    assert_eq!(FFIError::InvalidOperation.code(), -4);
}

#[test]
fn results_carry_status_and_data() {
    let ok = FFIResult::success(41);
    assert_eq!(ok.error_code, FFIError::Success);
    assert_eq!(ok.data, 41);
    let failed = FFIResult::error(FFIError::InvalidOperation, "nothing");
    assert_eq!(failed.error_code, FFIError::InvalidOperation);
    assert_eq!(failed.data, "nothing");
}

#[test]
fn tracker_starts_empty() {
    let m = MemoryManager::new().unwrap();
    assert_eq!(m.total_allocated(), 0);
    assert_eq!(m.peak_usage(), 0);
    assert_eq!(m.allocation_count(), 0);
    assert_eq!(m.deallocation_count(), 0);
    assert_eq!(m.fragmentation(), (0, 0));
}

#[test]
fn tracker_follows_allocations() {
    let mut m = MemoryManager::new().unwrap();
    assert!(m.can_allocate(100));
    m.allocate(100, true);
    m.allocate(50, true);
    m.allocate(1000, false);
    assert_eq!(m.total_allocated(), 150);
    assert_eq!(m.peak_usage(), 150);
    assert_eq!(m.allocation_count(), 2);
    m.deallocate(100, true);
    m.deallocate(7, false);
    assert_eq!(m.total_allocated(), 50);
    assert_eq!(m.peak_usage(), 150);
    assert_eq!(m.deallocation_count(), 1);
    assert_eq!(m.fragmentation(), (100, 150));
    m.deallocate(80, true);
    assert_eq!(m.total_allocated(), 0);
    assert_eq!(m.deallocation_count(), 2);
    assert_eq!(m.fragmentation(), (0, 0));
    assert!(!m.can_allocate(usize::MAX) || m.total_allocated() == 0);
    m.allocate(1, true);
    assert!(!m.can_allocate(usize::MAX));
}

#[test]
fn default_mood_is_neutral() {
    assert_eq!(EmotionalState::default(), EmotionalState::Neutral);
}

#[test]
fn mood_follows_first_keyword_group() {
    assert_eq!(classify("please imagine a creative analysis"), EmotionalState::Creative);
    assert_eq!(classify("explain why this is amazing"), EmotionalState::Analytical);
    assert_eq!(classify("i wonder what you think"), EmotionalState::Curious);
    assert_eq!(classify("how exciting to consider"), EmotionalState::Excited);
    assert_eq!(classify("consider this"), EmotionalState::Contemplative);
    assert_eq!(classify("nothing to see"), EmotionalState::Neutral);
    assert_eq!(classify(""), EmotionalState::Neutral);
    assert_eq!(classify("IMAGINE"), EmotionalState::Neutral);
}

#[test]
fn mood_ignores_case_of_input() {
    assert_eq!(determine_emotional_state("IMAGINE that"), EmotionalState::Creative);
    assert_eq!(determine_emotional_state("Please Analyze"), EmotionalState::Analytical);
    assert_eq!(determine_emotional_state("Curious?"), EmotionalState::Curious);
    assert_eq!(determine_emotional_state("AMAZING"), EmotionalState::Excited);
    assert_eq!(determine_emotional_state("I Think so"), EmotionalState::Contemplative);
    assert_eq!(determine_emotional_state("Test input for AGI processing"), EmotionalState::Neutral);
}

#[test]
fn parameters_of_the_default_architecture() {
    assert_eq!(calculate_total_parameters(1024, &[512, 256, 128], 256, 1), Some(722048));
    assert_eq!(calculate_total_parameters(1024, &[512, 256, 128], 256, 4), Some(2888192));
}

#[test]
fn parameters_of_small_networks() {
    assert_eq!(calculate_total_parameters(3, &[], 2, 1), Some(8));
    assert_eq!(calculate_total_parameters(3, &[4], 2, 2), Some(52));
    assert_eq!(calculate_total_parameters(3, &[4], 2, 0), Some(0));
    assert_eq!(calculate_total_parameters(0, &[], 0, 5), Some(0));
}

#[test]
fn parameters_that_cannot_be_counted() {
    assert_eq!(calculate_total_parameters(usize::MAX, &[], 2, 1), None);
    assert_eq!(calculate_total_parameters(2, &[usize::MAX], 1, 1), None);
    assert_eq!(calculate_total_parameters(1, &[], usize::MAX / 2, 2), None);
    assert_eq!(calculate_total_parameters(usize::MAX, &[], 2, 0), Some(0));
}

#[test]
fn scripting_engine_must_be_initialised() {
    let mut engine = AGIWasm::new();
    assert_eq!(engine.get_version(), "1.0.0");
    assert!(!engine.is_ready());
    assert_eq!(engine.process_input("hello"), Err(String::from("AGI not initialized")));
    assert!(engine.initialize().is_ok());
    assert!(engine.is_ready());
    assert_eq!(engine.process_input("hello"), Ok(String::from("WASM Processed: hello")));
    assert_eq!(engine.process_input(""), Ok(String::from("WASM Processed: ")));
    assert_eq!(engine.get_version(), "1.0.0");
}
