use madhava::config::{is_valid_magnitude, Configuration, MAX_MAGNITUDE};
use madhava::error::EngineError;

#[test]
fn largest_magnitude_is_ten() {
    assert_eq!(MAX_MAGNITUDE, 10);
}

#[test]
fn magnitudes_in_range_are_valid() {
    for magnitude in 1..=MAX_MAGNITUDE {
        assert_eq!(is_valid_magnitude(magnitude), Ok(()));
    }
}

#[test]
fn magnitude_zero_is_rejected() {
    assert_eq!(
        is_valid_magnitude(0),
        Err(String::from("magnitude must be within range (0-10]."))
    );
}

#[test]
fn magnitude_above_the_maximum_is_rejected() {
    assert_eq!(
        is_valid_magnitude(MAX_MAGNITUDE + 1),
        Err(String::from("magnitude must be within range (0-10]."))
    );
    assert!(is_valid_magnitude(u8::MAX).is_err());
}

#[test]
fn configuration_rejects_what_validation_rejects() {
    assert_eq!(Configuration::new(0), Err(EngineError::InvalidMagnitude));
    assert_eq!(Configuration::new(MAX_MAGNITUDE + 1), Err(EngineError::InvalidMagnitude));
    assert_eq!(Configuration::new(255), Err(EngineError::InvalidMagnitude));
}

#[test]
fn configuration_keeps_the_magnitude() {
    for magnitude in 1..=MAX_MAGNITUDE {
        assert_eq!(Configuration::new(magnitude).unwrap().magnitude(), magnitude);
    }
}

#[test]
fn total_terms_is_a_power_of_ten() {
    assert_eq!(Configuration::new(1).unwrap().total_terms(), 1);
    assert_eq!(Configuration::new(2).unwrap().total_terms(), 10);
    assert_eq!(Configuration::new(7).unwrap().total_terms(), 1_000_000);
    assert_eq!(Configuration::new(10).unwrap().total_terms(), 1_000_000_000);
}

#[test]
fn total_terms_rises_with_the_magnitude() {
    for magnitude in 1..MAX_MAGNITUDE {
        let smaller = Configuration::new(magnitude).unwrap().total_terms();
        let larger = Configuration::new(magnitude + 1).unwrap().total_terms();
        assert!(smaller < larger);
        assert_eq!(larger, 10 * smaller);
    }
}

#[test]
fn every_error_has_its_own_message() {
    let magnitude = EngineError::InvalidMagnitude.message();
    let partition = EngineError::InvalidPartition.message();
    let worker = EngineError::WorkerFailure { worker: 2 }.message();
    assert_eq!(magnitude, "magnitude must be within range (0-10].");
    assert_eq!(partition, "at least one worker is required.");
    assert_eq!(worker, "a worker ended without a result.");
}
