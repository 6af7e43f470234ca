use rustquote::api::{health_status, parse_id, quote_by_id_response, random_quote_response};
use rustquote::errors::AppError;
use rustquote::service::{get_random_quote, load_quotes_from_content, QuoteServiceError};
use rustquote::models::Quote;

#[test]
fn test_health_body() {
    assert_eq!(health_status().to_json(), r#"{"status":"healthy"}"#);
}

#[test]
fn test_single_quote_by_id_success() {
    let load = load_quotes_from_content(r#"[{"id":1,"quote":"A","author":"X","source":null}]"#);
    let resp = quote_by_id_response(load, 1).unwrap();
    assert_eq!(resp.to_json(), r#"{"quote":"A","author":"X"}"#);
}

#[test]
fn test_random_quote_on_empty_collection_is_not_found() {
    let load = load_quotes_from_content("[]");
    let err = random_quote_response(load).unwrap_err();
    let (status, body) = err.into_response_parts();
    assert_eq!(status, 404);
    assert_eq!(body.error_code, "NOT_FOUND");
    assert_eq!(body.message, "No quotes available in the data file.");
}

#[test]
fn test_random_quote_on_missing_source_is_sourcing_error() {
    let load: Result<Vec<Quote>, QuoteServiceError> =
        Err(QuoteServiceError::FileNotFound("/no/such/quotes.json".to_string()));
    let err = random_quote_response(load).unwrap_err();
    let (status, body) = err.into_response_parts();
    assert_eq!(status, 500);
    assert_eq!(body.error_code, "QUOTE_SOURCING_ERROR");
    assert_eq!(body.message, "Quote data file not found: /no/such/quotes.json");
}

#[test]
fn test_empty_and_missing_source_map_to_distinct_codes() {
    let empty = random_quote_response(load_quotes_from_content("[]")).unwrap_err();
    let missing = random_quote_response(Err(QuoteServiceError::FileNotFound(
        "quotes.json".to_string(),
    )))
    .unwrap_err();
    let (empty_status, empty_body) = empty.into_response_parts();
    let (missing_status, missing_body) = missing.into_response_parts();
    assert_eq!(empty_status, 404);
    assert_eq!(missing_status, 500);
    assert_ne!(empty_body.error_code, missing_body.error_code);
}

#[test]
fn test_absent_id_message_names_the_id() {
    let load = load_quotes_from_content(
        r#"[{"id":1,"quote":"A","author":"X","source":null},
            {"id":2,"quote":"B","author":"Y","source":null}]"#,
    );
    let err = quote_by_id_response(load, 99).unwrap_err();
    let (status, body) = err.into_response_parts();
    assert_eq!(status, 404);
    assert_eq!(body.error_code, "NOT_FOUND");
    assert_eq!(body.message, "Quote with ID: 99 not found.");
}

#[test]
fn test_by_id_on_empty_collection_names_the_id() {
    let load = load_quotes_from_content("[]");
    let err = quote_by_id_response(load, 3).unwrap_err();
    let (status, body) = err.into_response_parts();
    assert_eq!(status, 404);
    assert_eq!(
        body.message,
        "No quotes available in the data file. Cannot find quote with ID: 3."
    );
}

#[test]
fn test_parse_error_reaches_wire_as_sourcing_error() {
    let load = load_quotes_from_content(r#"[{"id":1, "quote":"bad json"}]"#);
    let err = random_quote_response(load).unwrap_err();
    let (status, body) = err.into_response_parts();
    assert_eq!(status, 500);
    assert_eq!(body.error_code, "QUOTE_SOURCING_ERROR");
    assert!(body.message.starts_with("Error parsing quote data:"));
}

#[test]
fn test_parse_id_accepts_digits() {
    assert_eq!(parse_id("42").unwrap(), 42);
    assert_eq!(parse_id("0").unwrap(), 0);
    assert_eq!(parse_id("4294967295").unwrap(), u32::MAX);
}

#[test]
fn test_parse_id_rejects_malformed_input() {
    for raw in ["", "abc", "12a", "-3", "4294967296"] {
        match parse_id(raw) {
            Err(AppError::BadRequest(msg)) => {
                assert_eq!(msg, format!("Invalid quote id: {}", raw));
            }
            _ => panic!("expected a BadRequest for {:?}", raw),
        }
    }
}

#[test]
fn test_random_pick_is_roughly_uniform() {
    let quotes = vec![
        Quote { id: 1, text: "Quote 1".to_string(), author: "Author 1".to_string(), source: None },
        Quote { id: 2, text: "Quote 2".to_string(), author: "Author 2".to_string(), source: None },
        Quote { id: 3, text: "Quote 3".to_string(), author: "Author 3".to_string(), source: None },
    ];
    let mut counts = [0usize; 3];
    for _ in 0..1000 {
        let picked = get_random_quote(&quotes).expect("non-empty collection");
        counts[(picked.id - 1) as usize] += 1;
    }
    for &count in counts.iter() {
        assert!(
            (200..=470).contains(&count),
            "observed frequency {} outside the tolerance band",
            count
        );
    }
}
