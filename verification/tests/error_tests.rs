use quar_engine::error::{ErrorCode, QuarError, QuarResult};

#[test]
fn test_error_creation() {
    let err = QuarError::init_failed("test error");
    assert_eq!(err.code, ErrorCode::InitializationFailed);
    assert!(!err.recoverable);
}

#[test]
fn test_recoverable_error() {
    let err = QuarError::tracking_lost("tracking lost");
    assert_eq!(err.code, ErrorCode::TrackingLost);
    assert!(err.recoverable);
}

#[test]
fn test_error_display() {
    let err = QuarError::internal("something went wrong");
    let display = err.display_string();
    assert!(display.contains("INTERNAL_ERROR"));
    assert!(display.contains("something went wrong"));
}

#[test]
fn display_string_exact_form() {
    let err = QuarError::tracking_lost("lost it");
    assert_eq!(err.display_string(), "[TRACKING_LOST] lost it");
}

#[test]
fn error_constructors_keep_message() {
    let err = QuarError::internal("something went wrong");
    assert_eq!(err.code, ErrorCode::InternalError);
    assert_eq!(err.message, "something went wrong");
    assert!(!err.recoverable);

    let err = QuarError::invalid_frame("bad frame");
    assert_eq!(err.code, ErrorCode::InvalidFrameData);
    assert_eq!(err.message, "bad frame");
    assert!(err.recoverable);
}

#[test]
fn error_code_names() {
    assert_eq!(ErrorCode::InternalError.name(), "INTERNAL_ERROR");
    assert_eq!(ErrorCode::TrackingLost.name(), "TRACKING_LOST");
    assert_eq!(ErrorCode::InitializationFailed.name(), "INITIALIZATION_FAILED");
}

#[test]
fn new_error_recoverability_follows_code() {
    assert!(QuarError::new(ErrorCode::TrackingLost, "x").recoverable);
    assert!(!QuarError::new(ErrorCode::InternalError, "x").recoverable);
    let r: QuarResult<u32> = Err(QuarError::internal("boom"));
    assert!(r.is_err());
}
