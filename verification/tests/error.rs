use bob::error::{Error, ErrorKind};

fn all_errors() -> Vec<Error> {
    vec![
        Error::Timeout,
        Error::VDiskNoFound(3),
        Error::StorageError("disk".to_string()),
        Error::DuplicateKey,
        Error::KeyNotFound,
        Error::VDiskIsNotReady,
        Error::Failed("why".to_string()),
        Error::Internal,
    ]
}

#[test]
fn only_timeout_and_failed_are_service_errors() {
    let expected = [true, false, false, false, false, false, true, false];
    for (error, want) in all_errors().iter().zip(expected.iter()) {
        assert_eq!(error.is_service(), *want);
    }
}

#[test]
fn a_write_restarts_on_all_but_duplicate_and_not_ready() {
    let expected = [true, true, true, false, true, false, true, true];
    for (error, want) in all_errors().iter().zip(expected.iter()) {
        assert_eq!(Error::is_put_error_need_restart(Some(error)), *want);
    }
    assert!(!Error::is_put_error_need_restart(None));
}

#[test]
fn a_write_goes_alien_on_all_but_duplicate() {
    let expected = [true, true, true, false, true, true, true, true];
    for (error, want) in all_errors().iter().zip(expected.iter()) {
        assert_eq!(error.is_put_error_need_alien(), *want);
    }
}

#[test]
fn a_read_restarts_on_all_but_missing_and_not_ready() {
    let expected = [true, true, true, true, false, false, true, true];
    for (error, want) in all_errors().iter().zip(expected.iter()) {
        assert_eq!(Error::is_get_error_need_restart(Some(error)), *want);
    }
    assert!(!Error::is_get_error_need_restart(None));
}

#[test]
fn backend_errors_are_hidden_but_duplicate_and_missing() {
    assert_eq!(Error::DuplicateKey.convert_backend(), Error::DuplicateKey);
    assert_eq!(Error::KeyNotFound.convert_backend(), Error::KeyNotFound);
    assert_eq!(Error::Timeout.convert_backend(), Error::Internal);
    assert_eq!(Error::VDiskNoFound(1).convert_backend(), Error::Internal);
    assert_eq!(Error::StorageError("x".to_string()).convert_backend(), Error::Internal);
    assert_eq!(Error::VDiskIsNotReady.convert_backend(), Error::Internal);
    assert_eq!(Error::Failed("x".to_string()).convert_backend(), Error::Internal);
    assert_eq!(Error::Internal.convert_backend(), Error::Internal);
}

#[test]
fn every_error_has_its_kind() {
    let expected = [
        ErrorKind::Timeout,
        ErrorKind::VDiskNoFound,
        ErrorKind::StorageError,
        ErrorKind::DuplicateKey,
        ErrorKind::KeyNotFound,
        ErrorKind::VDiskIsNotReady,
        ErrorKind::Failed,
        ErrorKind::Internal,
    ];
    for (error, want) in all_errors().iter().zip(expected.iter()) {
        assert_eq!(error.kind(), *want);
    }
}

#[test]
fn errors_travel_under_three_messages() {
    assert_eq!(Error::KeyNotFound.status_message(), "KeyNotFound");
    assert_eq!(Error::DuplicateKey.status_message(), "DuplicateKey");
    assert_eq!(Error::Internal.status_message(), "Other errors");
    assert_eq!(Error::Timeout.status_message(), "Other errors");
}

#[test]
fn a_status_is_read_back_as_an_error() {
    assert_eq!(Error::from_status(true, "KeyNotFound", "s"), Error::KeyNotFound);
    assert_eq!(Error::from_status(true, "DuplicateKey", "s"), Error::DuplicateKey);
    assert_eq!(Error::from_status(true, "Other errors", "s"), Error::Internal);
    assert_eq!(
        Error::from_status(false, "KeyNotFound", "status: Cancelled"),
        Error::Failed("grpc error: status: Cancelled".to_string())
    );
}

#[test]
fn a_failed_ping_is_a_timeout_or_a_failure() {
    assert_eq!(Error::from_ping_failure(true, "late"), Error::Timeout);
    assert_eq!(
        Error::from_ping_failure(false, "refused"),
        Error::Failed("Ping operation failed: refused".to_string())
    );
}

#[test]
fn errors_describe_themselves() {
    assert_eq!(Error::VDiskNoFound(12).description(), "vdisk: 12 not found");
    assert_eq!(Error::StorageError("io".to_string()).description(), "backend error: io");
    assert_eq!(Error::Failed("x".to_string()).description(), "Failed: x");
    assert_eq!(Error::Timeout.description(), "Timeout");
    assert_eq!(Error::DuplicateKey.description(), "DuplicateKey");
    assert_eq!(Error::KeyNotFound.description(), "KeyNotFound");
    assert_eq!(Error::VDiskIsNotReady.description(), "VDiskIsNotReady");
    assert_eq!(Error::Internal.description(), "Internal");
}
