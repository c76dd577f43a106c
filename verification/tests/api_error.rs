use protocol::error::ApiError;

#[test]
fn test_roundtrip() {
    for code in -1..=133 {
        if code == 0 {
            assert!(ApiError::from_code(code).is_none());
        } else {
            let err = ApiError::from_code(code).unwrap();
            assert_eq!(err.code(), code, "mismatch for code {code}");
        }
    }
}

#[test]
fn test_unknown_code_falls_back() {
    assert_eq!(ApiError::from_code(999).unwrap().code(), -1);
}

#[test]
fn test_success() {
    assert!(ApiError::from_code(0).is_none());
}

#[test]
fn test_retriable() {
    assert!(ApiError::CorruptMessage.is_retriable());
    assert!(!ApiError::UnknownServerError.is_retriable());
}

#[test]
fn code_and_back_for_every_known_error() {
    for code in -1..=133 {
        if code == 0 {
            continue;
        }
        let err = ApiError::from_code(code).unwrap();
        assert_eq!(ApiError::from_code(err.code()), Some(err));
    }
}

#[test]
fn negative_and_large_codes_fall_back() {
    assert_eq!(ApiError::from_code(-2), Some(ApiError::UnknownServerError));
    assert_eq!(ApiError::from_code(134), Some(ApiError::UnknownServerError));
    assert_eq!(ApiError::from_code(i16::MAX), Some(ApiError::UnknownServerError));
    assert_eq!(ApiError::from_code(i16::MIN), Some(ApiError::UnknownServerError));
}

#[test]
fn display_is_name_and_code() {
    assert_eq!(ApiError::CorruptMessage.to_display_string(), "CORRUPT_MESSAGE(2)");
    assert_eq!(ApiError::UnknownServerError.to_display_string(), "UNKNOWN_SERVER_ERROR(-1)");
}

#[test]
fn retriable_errors() {
    assert!(ApiError::NotLeaderOrFollower.is_retriable());
    assert!(ApiError::RequestTimedOut.is_retriable());
    assert!(!ApiError::InvalidTopicException.is_retriable());
}
