use pinga::{first_address, Pong, ProbeError};
use std::time::Duration;

#[test]
fn a_reply_is_a_success() {
    let pong = Pong::Success(Duration::from_millis(12));
    assert!(pong.is_success());
    assert_eq!(pong.latency(), Some(Duration::from_millis(12)));
}

#[test]
fn a_failure_has_no_latency() {
    assert!(!Pong::Failure.is_success());
    assert_eq!(Pong::Failure.latency(), None);
}

#[test]
fn a_reply_folds_into_a_success_with_its_latency() {
    let pong = Pong::from_result(Ok(Duration::from_micros(1500)));
    assert!(matches!(pong, Pong::Success(latency) if latency == Duration::from_micros(1500)));
}

#[test]
fn both_errors_fold_into_the_one_failure() {
    assert!(matches!(Pong::from_result(Err(ProbeError::ResolutionFailure)), Pong::Failure));
    assert!(matches!(Pong::from_result(Err(ProbeError::ProbeFailure)), Pong::Failure));
}

#[test]
fn the_first_address_of_a_lookup_is_chosen() {
    assert_eq!(first_address(Some(vec![7, 8, 9])), Ok(7));
    assert_eq!(first_address(Some(vec!["::1"])), Ok("::1"));
}

#[test]
fn a_lookup_without_addresses_is_a_resolution_failure() {
    let nothing: Vec<u8> = Vec::new();
    assert_eq!(first_address(Some(nothing)), Err(ProbeError::ResolutionFailure));
}

#[test]
fn a_failed_lookup_is_a_resolution_failure() {
    assert_eq!(first_address::<u8>(None), Err(ProbeError::ResolutionFailure));
}
