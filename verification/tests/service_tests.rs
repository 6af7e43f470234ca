use rustquote::models::Quote;
use rustquote::render::quotes_to_json;
use rustquote::service::{
    get_quote_by_id, get_random_quote, load_quotes_from_content, QuoteServiceError,
};

#[test]
fn test_load_quotes_successfully() {
    let sample_json = r#"[
        { "id": 1, "quote": "Test quote 1", "author": "Author 1", "source": "Source 1" },
        { "id": 2, "quote": "Test quote 2", "author": "Author 2", "source": null }
    ]"#;
    let quotes = load_quotes_from_content(sample_json).unwrap();
    assert_eq!(quotes.len(), 2);
    assert_eq!(quotes[0].id, 1);
    assert_eq!(quotes[0].text, "Test quote 1");
    assert_eq!(quotes[1].author, "Author 2");
    assert_eq!(quotes[1].source, None);
}

#[test]
fn test_load_quotes_invalid_json() {
    let invalid_json = r#"[
        { "id": 1, "text": "Test quote 1", "author": "Author 1", "source": "Source 1" },
        { "id": 2, "text": "Test quote 2", "author": "Author 2", "source": null },, // extra comma
    ]"#;
    let result = load_quotes_from_content(invalid_json);
    assert!(matches!(result, Err(QuoteServiceError::ParseError(_))));
}

#[test]
fn test_load_quotes_empty_file() {
    let empty_json = "";
    let result = load_quotes_from_content(empty_json);
    assert!(matches!(result, Err(QuoteServiceError::ParseError(_))));
}

#[test]
fn test_load_quotes_empty_array() {
    let empty_array_json = "[]";
    let quotes = load_quotes_from_content(empty_array_json).unwrap();
    assert_eq!(quotes.len(), 0);
}

#[test]
fn test_load_quotes_missing_required_field() {
    let missing_quote_field = r#"[ { "id": 1, "author": "Author 1", "source": null } ]"#;
    let result = load_quotes_from_content(missing_quote_field);
    assert!(matches!(result, Err(QuoteServiceError::ParseError(_))));
}

#[test]
fn test_load_quotes_unknown_field_ignored() {
    let extra_field = r#"[ { "id": 1, "quote": "A", "author": "X", "source": null, "year": 1999 } ]"#;
    let quotes = load_quotes_from_content(extra_field).unwrap();
    assert_eq!(quotes.len(), 1);
    assert_eq!(quotes[0].id, 1);
    assert_eq!(quotes[0].text, "A");
    assert_eq!(quotes[0].author, "X");
    assert_eq!(quotes[0].source, None);
}

#[test]
fn test_load_quotes_unknown_nested_field_ignored() {
    let extra_field = r#"[ {
        "meta": { "tags": ["a", "b"], "counts": [1, -2e10, 0], "flag": true, "none": null },
        "id": 7, "quote": "Kept", "author": "Author", "source": "Here"
    } ]"#;
    let quotes = load_quotes_from_content(extra_field).unwrap();
    assert_eq!(quotes.len(), 1);
    assert_eq!(quotes[0].id, 7);
    assert_eq!(quotes[0].text, "Kept");
    assert_eq!(quotes[0].source, Some("Here".to_string()));
}

#[test]
fn test_load_quotes_mismatched_bracket_in_unknown_field_rejected() {
    let broken = r#"[ { "meta": [1, 2}, "id": 1, "quote": "A", "author": "X" } ]"#;
    let result = load_quotes_from_content(broken);
    assert!(matches!(result, Err(QuoteServiceError::ParseError(_))));
}

#[test]
fn test_load_quotes_unicode_escapes() {
    let escaped =
        r#"[ { "id": 1, "quote": "caf\u00e9 \ud83d\ude00", "author": "Ann", "source": null } ]"#;
    let quotes = load_quotes_from_content(escaped).unwrap();
    assert_eq!(quotes[0].text, "caf\u{e9} \u{1F600}");
    assert_eq!(quotes[0].author, "Ann");
}

#[test]
fn test_load_quotes_lone_surrogate_rejected() {
    let lone_leading = r#"[ { "id": 1, "quote": "bad \uD83D", "author": "X", "source": null } ]"#;
    assert!(matches!(
        load_quotes_from_content(lone_leading),
        Err(QuoteServiceError::ParseError(_))
    ));
    let lone_trailing = r#"[ { "id": 1, "quote": "bad \uDE00", "author": "X", "source": null } ]"#;
    assert!(matches!(
        load_quotes_from_content(lone_trailing),
        Err(QuoteServiceError::ParseError(_))
    ));
}

#[test]
fn test_parse_error_names_the_offset() {
    let result = load_quotes_from_content("[oops");
    match result {
        Err(QuoteServiceError::ParseError(msg)) => {
            assert_eq!(msg, "the quote document is malformed at character offset 1");
        }
        _ => panic!("expected a parse failure"),
    }
}

#[test]
fn test_collection_serialize_then_load_round_trip() {
    let quotes = vec![
        Quote {
            id: 1,
            text: "A \"quoted\" line".to_string(),
            author: "X".to_string(),
            source: None,
        },
        Quote {
            id: 2,
            text: "B\nsecond line".to_string(),
            author: "Y".to_string(),
            source: Some("Z".to_string()),
        },
    ];
    let doc = quotes_to_json(&quotes);
    let loaded = load_quotes_from_content(&doc).unwrap();
    assert!(loaded == quotes);
}

#[test]
fn test_empty_collection_serializes_to_empty_array() {
    let quotes: Vec<Quote> = Vec::new();
    let doc = quotes_to_json(&quotes);
    assert_eq!(doc, "[]");
    assert_eq!(load_quotes_from_content(&doc).unwrap().len(), 0);
}

#[test]
fn test_load_is_idempotent() {
    let sample_json = r#"[ { "id": 1, "quote": "Same", "author": "Either time", "source": null } ]"#;
    let first = load_quotes_from_content(sample_json).unwrap();
    let second = load_quotes_from_content(sample_json).unwrap();
    assert!(first == second);
}

#[test]
fn test_load_quotes_duplicate_key_rejected() {
    let duplicate = r#"[ { "id": 1, "quote": "A", "id": 2, "author": "X" } ]"#;
    let result = load_quotes_from_content(duplicate);
    assert!(matches!(result, Err(QuoteServiceError::ParseError(_))));
}

#[test]
fn test_load_quotes_leading_zero_id_rejected() {
    let leading_zero = r#"[ { "id": 01, "quote": "A", "author": "X", "source": null } ]"#;
    let result = load_quotes_from_content(leading_zero);
    assert!(matches!(result, Err(QuoteServiceError::ParseError(_))));
}

#[test]
fn test_load_quotes_id_beyond_u32_rejected() {
    let too_big = r#"[ { "id": 4294967296, "quote": "A", "author": "X", "source": null } ]"#;
    let result = load_quotes_from_content(too_big);
    assert!(matches!(result, Err(QuoteServiceError::ParseError(_))));
}

#[test]
fn test_service_error_display_string() {
    let e = QuoteServiceError::FileNotFound("data/quotes.json".to_string());
    assert_eq!(
        e.display_string(),
        "Quote data file not found at path: data/quotes.json"
    );
    let e = QuoteServiceError::FileReadError("denied".to_string());
    assert_eq!(e.display_string(), "Error reading quote data file: denied");
    let e = QuoteServiceError::ParseError("bad token".to_string());
    assert_eq!(e.display_string(), "Error parsing quote data: bad token");
}

#[test]
fn test_get_random_quote_empty_list() {
    let quotes: Vec<Quote> = Vec::new();
    assert!(get_random_quote(&quotes).is_none());
}

#[test]
fn test_get_random_quote_single_item() {
    let quotes = vec![Quote {
        id: 1,
        text: "Only quote".to_string(),
        author: "Author".to_string(),
        source: None,
    }];
    let random_quote = get_random_quote(&quotes);
    assert!(random_quote.is_some());
    assert_eq!(random_quote.unwrap().id, 1);
}

#[test]
fn test_get_random_quote_multiple_items() {
    let quotes = vec![
        Quote { id: 1, text: "Quote 1".to_string(), author: "Author 1".to_string(), source: None },
        Quote { id: 2, text: "Quote 2".to_string(), author: "Author 2".to_string(), source: None },
        Quote { id: 3, text: "Quote 3".to_string(), author: "Author 3".to_string(), source: None },
    ];
    let mut found_ids = std::collections::HashSet::new();
    for _ in 0..100 {
        if let Some(quote) = get_random_quote(&quotes) {
            found_ids.insert(quote.id);
        } else {
            panic!("Expected a quote but got None");
        }
    }
    assert!(found_ids.len() > 1 && found_ids.len() <= quotes.len());
}

#[test]
fn test_get_quote_by_id_found() {
    let quotes = vec![
        Quote { id: 1, text: "Quote 1".to_string(), author: "Author 1".to_string(), source: None },
        Quote {
            id: 2,
            text: "Quote 2".to_string(),
            author: "Author 2".to_string(),
            source: Some("Source 2".to_string()),
        },
    ];
    let quote = get_quote_by_id(&quotes, 2);
    assert!(quote.is_some());
    assert_eq!(quote.unwrap().id, 2);
    assert_eq!(quote.unwrap().text, "Quote 2");
}

#[test]
fn test_get_quote_by_id_not_found() {
    let quotes = vec![Quote {
        id: 1,
        text: "Quote 1".to_string(),
        author: "Author 1".to_string(),
        source: None,
    }];
    let quote = get_quote_by_id(&quotes, 99);
    assert!(quote.is_none());
}

#[test]
fn test_get_quote_by_id_empty_list() {
    let quotes: Vec<Quote> = Vec::new();
    let quote = get_quote_by_id(&quotes, 1);
    assert!(quote.is_none());
}

#[test]
fn test_get_quote_by_id_first_match_wins() {
    let quotes = vec![
        Quote { id: 5, text: "first".to_string(), author: "A".to_string(), source: None },
        Quote { id: 5, text: "second".to_string(), author: "B".to_string(), source: None },
    ];
    let quote = get_quote_by_id(&quotes, 5).unwrap();
    assert_eq!(quote.text, "first");
}
