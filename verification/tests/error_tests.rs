use rustquote::errors::AppError;
use rustquote::service::QuoteServiceError;

#[test]
fn test_from_io_error_for_app_error() {
    let io_error = std::io::Error::new(std::io::ErrorKind::NotFound, "file not found");
    let app_error = AppError::from_io_message(&io_error.to_string());
    match app_error {
        AppError::QuoteSourcingError(msg) => {
            assert_eq!(msg, "IO error: file not found");
        }
        _ => panic!("Incorrect AppError variant"),
    }
}

#[test]
fn test_from_quote_service_error_file_not_found() {
    let q_error = QuoteServiceError::FileNotFound("quotes.json".to_string());
    let app_error = AppError::from(q_error);
    match app_error {
        AppError::QuoteSourcingError(msg) => {
            assert_eq!(msg, "Quote data file not found: quotes.json");
        }
        _ => panic!("Incorrect AppError variant"),
    }
}

#[test]
fn test_from_quote_service_error_file_read_error() {
    let q_error = QuoteServiceError::FileReadError("cannot read".to_string());
    let app_error = AppError::from(q_error);
    match app_error {
        AppError::QuoteSourcingError(msg) => {
            assert_eq!(msg, "Error reading quote data file: cannot read");
        }
        _ => panic!("Incorrect AppError variant"),
    }
}

#[test]
fn test_from_quote_service_error_parse_error() {
    let q_error = QuoteServiceError::ParseError("invalid json".to_string());
    let app_error = AppError::from(q_error);
    match app_error {
        AppError::QuoteSourcingError(msg) => {
            assert!(msg.starts_with("Error parsing quote data:"));
        }
        _ => panic!("Incorrect AppError variant"),
    }
}

#[test]
fn test_app_error_display() {
    assert_eq!(
        AppError::InternalServerError("db down".to_string()).display_string(),
        "Internal Server Error: db down"
    );
    assert_eq!(
        AppError::NotFound("item 123".to_string()).display_string(),
        "Not Found: item 123"
    );
    assert_eq!(
        AppError::BadRequest("missing field".to_string()).display_string(),
        "Bad Request: missing field"
    );
    assert_eq!(
        AppError::QuoteSourcingError("file access".to_string()).display_string(),
        "Quote Sourcing Error: file access"
    );
}

#[test]
fn test_app_error_internal_server_error_into_response() {
    let error = AppError::InternalServerError("Test internal error".to_string());
    let (status, body) = error.into_response_parts();
    assert_eq!(status, 500);
    assert_eq!(
        body.to_json(),
        r#"{"error_code":"INTERNAL_SERVER_ERROR","message":"Test internal error"}"#
    );
}

#[test]
fn test_app_error_not_found_into_response() {
    let error = AppError::NotFound("Resource not here".to_string());
    let (status, body) = error.into_response_parts();
    assert_eq!(status, 404);
    assert_eq!(
        body.to_json(),
        r#"{"error_code":"NOT_FOUND","message":"Resource not here"}"#
    );
}

#[test]
fn test_app_error_bad_request_into_response() {
    let error = AppError::BadRequest("Bad input".to_string());
    let (status, body) = error.into_response_parts();
    assert_eq!(status, 400);
    assert_eq!(
        body.to_json(),
        r#"{"error_code":"BAD_REQUEST","message":"Bad input"}"#
    );
}

#[test]
fn test_app_error_quote_sourcing_error_into_response() {
    let error = AppError::QuoteSourcingError("Could not get quotes".to_string());
    let (status, body) = error.into_response_parts();
    assert_eq!(status, 500);
    assert_eq!(
        body.to_json(),
        r#"{"error_code":"QUOTE_SOURCING_ERROR","message":"Could not get quotes"}"#
    );
}
