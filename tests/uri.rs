use ai::utils::uri::{ensure_no_trailing_slash, ensure_trailing_slash};

#[test]
fn test_ensure_no_trailing_slash() {
    let test_cases = vec![
        ("http://example.com/", "http://example.com"),
        ("http://example.com", "http://example.com"),
        ("http://example.com//", "http://example.com"),
    ];

    for (input, expected) in test_cases {
        assert_eq!(ensure_no_trailing_slash(input), expected);
        assert_eq!(ensure_no_trailing_slash(input.to_string()), expected);
    }
}

#[test]
fn test_ensure_trailing_slash() {
    let test_cases = vec![
        ("http://example.com", "http://example.com/"),
        ("http://example.com/", "http://example.com/"),
        ("http://example.com//", "http://example.com/"),
    ];

    for (input, expected) in test_cases {
        assert_eq!(ensure_trailing_slash(input), expected);
        assert_eq!(ensure_trailing_slash(input.to_string()), expected);
    }
}

#[test]
fn test_performance_no_allocation_when_unchanged() {
    let input = String::from("http://example.com");
    let result = ensure_no_trailing_slash(input.clone());
    assert_eq!(result, input);
    let owned = String::from("http://example.com");
    let ptr = owned.as_ptr();
    let result = ensure_no_trailing_slash(owned);
    assert_eq!(result.as_ptr(), ptr);
}

#[test]
fn trailing_slash_edge_cases() {
    assert_eq!(ensure_no_trailing_slash(""), "");
    assert_eq!(ensure_no_trailing_slash("///"), "");
    assert_eq!(ensure_trailing_slash(""), "/");
    assert_eq!(ensure_trailing_slash("a/b/"), "a/b/");
    assert_eq!(ensure_no_trailing_slash("é/"), "é");
}
