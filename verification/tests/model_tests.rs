use rustquote::models::Quote;
use rustquote::parse::parse_quote;

#[test]
fn test_quote_serialization() {
    let quote = Quote {
        id: 1,
        text: "This is a test quote.".to_string(),
        author: "Test Author".to_string(),
        source: Some("Test Source".to_string()),
    };
    let serialized = quote.to_json();
    let expected_json = r#"{"id":1,"quote":"This is a test quote.","author":"Test Author","source":"Test Source"}"#;
    assert_eq!(serialized, expected_json);
}

#[test]
fn quote_test_quote_serialization() {
    let quote = Quote {
        id: 1,
        text: "This is a test quote.".to_string(),
        author: "Test Author".to_string(),
        source: Some("Test Source".to_string()),
    };
    let serialized = quote.to_json();
    let expected_json = r#"{"id":1,"quote":"This is a test quote.","author":"Test Author","source":"Test Source"}"#;
    assert_eq!(serialized, expected_json);
}

#[test]
fn test_quote_deserialization() {
    let json_data = r#"{"id":2,"quote":"Another test.","author":"Another Author","source":null}"#;
    let deserialized: Quote = parse_quote(json_data).unwrap();
    let expected_quote = Quote {
        id: 2,
        text: "Another test.".to_string(),
        author: "Another Author".to_string(),
        source: None,
    };
    assert!(deserialized == expected_quote);
}

#[test]
fn quote_test_quote_deserialization() {
    let json_data = r#"{"id":2,"quote":"Another test.","author":"Another Author","source":null}"#;
    let deserialized: Quote = parse_quote(json_data).unwrap();
    let expected_quote = Quote {
        id: 2,
        text: "Another test.".to_string(),
        author: "Another Author".to_string(),
        source: None,
    };
    assert!(deserialized == expected_quote);
}

#[test]
fn test_quote_deserialization_with_source() {
    let json_data = r#"{"id":3,"quote":"With source.","author":"Source Author","source":"The Source"}"#;
    let deserialized: Quote = parse_quote(json_data).unwrap();
    let expected_quote = Quote {
        id: 3,
        text: "With source.".to_string(),
        author: "Source Author".to_string(),
        source: Some("The Source".to_string()),
    };
    assert!(deserialized == expected_quote);
}

#[test]
fn quote_test_quote_deserialization_with_source() {
    let json_data = r#"{"id":3,"quote":"With source.","author":"Source Author","source":"The Source"}"#;
    let deserialized: Quote = parse_quote(json_data).unwrap();
    let expected_quote = Quote {
        id: 3,
        text: "With source.".to_string(),
        author: "Source Author".to_string(),
        source: Some("The Source".to_string()),
    };
    assert!(deserialized == expected_quote);
}

#[test]
fn test_new_quote_constructor() {
    let quote = Quote::new(
        4,
        "Constructed quote".to_string(),
        "Constructor".to_string(),
        Some("Source of Construction".to_string()),
    );
    assert_eq!(quote.id, 4);
    assert_eq!(quote.text, "Constructed quote");
    assert_eq!(quote.author, "Constructor");
    assert_eq!(quote.source, Some("Source of Construction".to_string()));
}

#[test]
fn quote_test_new_quote_constructor() {
    let quote = Quote::new(
        4,
        "Constructed quote".to_string(),
        "Constructor".to_string(),
        Some("Source of Construction".to_string()),
    );
    assert_eq!(quote.id, 4);
    assert_eq!(quote.text, "Constructed quote");
    assert_eq!(quote.author, "Constructor");
    assert_eq!(quote.source, Some("Source of Construction".to_string()));
}

#[test]
fn test_serialize_then_parse_round_trip() {
    let quote = Quote {
        id: 4294967295,
        text: "He said \"hi\"\nand left.\ta\\b".to_string(),
        author: "Ann O'Nym".to_string(),
        source: None,
    };
    let parsed = parse_quote(&quote.to_json()).unwrap();
    assert!(parsed == quote);
}

#[test]
fn test_parse_quote_unicode_escape() {
    let parsed = parse_quote(r#"{"id":7,"quote":"bell\u0007","author":"A","source":null}"#).unwrap();
    assert_eq!(parsed.text, "bell\u{7}");
}
