use bob::error::Error;
use bob::grpc::{error_of_status, status_of_error, CODE_UNKNOWN};
use tonic::{Code, Status};

#[test]
fn an_error_travels_as_an_unknown_status_with_its_message() {
    let missing = status_of_error(&Error::KeyNotFound);
    assert_eq!(missing.code(), Code::Unknown);
    assert_eq!(missing.message(), "KeyNotFound");
    let duplicate = status_of_error(&Error::DuplicateKey);
    assert_eq!(duplicate.code(), Code::Unknown);
    assert_eq!(duplicate.message(), "DuplicateKey");
    let other = status_of_error(&Error::StorageError("io".to_string()));
    assert_eq!(other.code(), Code::Unknown);
    assert_eq!(other.message(), "Other errors");
    assert_eq!(i32::from(Code::Unknown), CODE_UNKNOWN);
}

#[test]
fn a_status_is_read_back_as_the_error_it_stands_for() {
    assert_eq!(error_of_status(&Status::new(Code::Unknown, "KeyNotFound")), Error::KeyNotFound);
    assert_eq!(error_of_status(&Status::new(Code::Unknown, "DuplicateKey")), Error::DuplicateKey);
    assert_eq!(error_of_status(&Status::new(Code::Unknown, "Other errors")), Error::Internal);
    assert_eq!(error_of_status(&Status::new(Code::Unknown, "")), Error::Internal);
    let cancelled = Status::new(Code::Cancelled, "KeyNotFound");
    assert_eq!(
        error_of_status(&cancelled),
        Error::Failed(format!("grpc error: {}", cancelled))
    );
}

#[test]
fn errors_that_travel_and_come_back_keep_what_the_caller_tells_apart() {
    assert_eq!(error_of_status(&status_of_error(&Error::KeyNotFound)), Error::KeyNotFound);
    assert_eq!(error_of_status(&status_of_error(&Error::DuplicateKey)), Error::DuplicateKey);
    assert_eq!(error_of_status(&status_of_error(&Error::Timeout)), Error::Internal);
    assert_eq!(
        error_of_status(&status_of_error(&Error::Failed("x".to_string()))),
        Error::Internal
    );
}
