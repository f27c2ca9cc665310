//! Error types for the engine.
use vstd::prelude::*;

verus! {

/// Error codes for the engine.
#[derive(Debug, Clone, Copy, PartialEq, Eq, Structural)]
pub enum ErrorCode {
    /// Failed to initialize the engine
    InitializationFailed,
    /// Invalid frame data provided
    InvalidFrameData,
    /// Feature detection failed
    FeatureDetectionFailed,
    /// Tracking was lost
    TrackingLost,
    /// Invalid configuration parameter
    InvalidConfig,
    /// Memory allocation failed
    MemoryError,
    /// General internal error
    InternalError,
}

/// Whether errors with this code can be recovered from.
pub open spec fn code_is_recoverable(code: ErrorCode) -> bool {
    code == ErrorCode::TrackingLost || code == ErrorCode::InvalidFrameData
}

impl ErrorCode {
    /// The upper-case name under which the code is displayed.
    pub fn name(&self) -> (s: &'static str)
        ensures
            s@ == code_name(*self)@,
    {
        match self {
            ErrorCode::InitializationFailed => "INITIALIZATION_FAILED",
            ErrorCode::InvalidFrameData => "INVALID_FRAME_DATA",
            ErrorCode::FeatureDetectionFailed => "FEATURE_DETECTION_FAILED",
            ErrorCode::TrackingLost => "TRACKING_LOST",
            ErrorCode::InvalidConfig => "INVALID_CONFIG",
            ErrorCode::MemoryError => "MEMORY_ERROR",
            ErrorCode::InternalError => "INTERNAL_ERROR",
        }
    }
}

/// The display name of each error code.
pub open spec fn code_name(code: ErrorCode) -> &'static str {
    match code {
        ErrorCode::InitializationFailed => "INITIALIZATION_FAILED",
        ErrorCode::InvalidFrameData => "INVALID_FRAME_DATA",
        ErrorCode::FeatureDetectionFailed => "FEATURE_DETECTION_FAILED",
        ErrorCode::TrackingLost => "TRACKING_LOST",
        ErrorCode::InvalidConfig => "INVALID_CONFIG",
        ErrorCode::MemoryError => "MEMORY_ERROR",
        ErrorCode::InternalError => "INTERNAL_ERROR",
    }
}

/// Main error type for the engine.
#[derive(Debug, Clone)]
pub struct QuarError {
    /// Error code identifying the type of error
    pub code: ErrorCode,
    /// Human-readable error message
    pub message: String,
    /// Whether this error is recoverable
    pub recoverable: bool,
}

impl QuarError {
    /// Create a new error with the given code and message; the error is
    /// recoverable exactly for lost tracking and invalid frame data.
    pub fn new(code: ErrorCode, message: &str) -> (e: Self)
        ensures
            e.code == code,
            e.message@ == message@,
            e.recoverable == code_is_recoverable(code),
    {
        let recoverable = match code {
            ErrorCode::TrackingLost | ErrorCode::InvalidFrameData => true,
            _ => false,
        };
        QuarError { code, message: message.to_owned(), recoverable }
    }

    /// The error as displayed: the code's name in square brackets, a space,
    /// then the message.
    pub fn display_string(&self) -> (s: String)
        ensures
            s@ == "["@ + code_name(self.code)@ + "] "@ + self.message@,
    {
        let mut s = String::from_str("[");
        s.append(self.code.name());
        s.append("] ");
        s.append(self.message.as_str());
        s
    }

    /// Create an initialization error.
    pub fn init_failed(message: &str) -> (e: Self)
        ensures
            e.code == ErrorCode::InitializationFailed,
            e.message@ == message@,
            !e.recoverable,
    {
        Self::new(ErrorCode::InitializationFailed, message)
    }

    /// Create an invalid frame data error.
    pub fn invalid_frame(message: &str) -> (e: Self)
        ensures
            e.code == ErrorCode::InvalidFrameData,
            e.message@ == message@,
            e.recoverable,
    {
        Self::new(ErrorCode::InvalidFrameData, message)
    }

    /// Create a tracking lost error.
    pub fn tracking_lost(message: &str) -> (e: Self)
        ensures
            e.code == ErrorCode::TrackingLost,
            e.message@ == message@,
            e.recoverable,
    {
        Self::new(ErrorCode::TrackingLost, message)
    }

    /// Create an internal error.
    pub fn internal(message: &str) -> (e: Self)
        ensures
            e.code == ErrorCode::InternalError,
            e.message@ == message@,
            !e.recoverable,
    {
        Self::new(ErrorCode::InternalError, message)
    }
}

/// Result type for engine operations.
pub type QuarResult<T> = Result<T, QuarError>;

} // verus!
