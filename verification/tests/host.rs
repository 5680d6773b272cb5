use host_config::host::Host;

#[test]
fn test_create() {}

#[test]
fn test_text() {
    let host = Host::new("example.com").unwrap();
    assert!(host.is_match("example.com"));
    assert!(!host.is_match("-example.com"));
    assert!(!host.is_match("example.com.cn"));
}

#[test]
fn test_wildcard() {
    let host = Host::new("*.example.com").unwrap();
    assert!(host.is_match("test.example.com"));
    assert!(!host.is_match("test.example.test"));
    assert!(!host.is_match("test.test.com"));

    let host = Host::new("*.example.*").unwrap();
    assert!(host.is_match("test.example.test"));
    assert!(!host.is_match("example.com"));
    assert!(!host.is_match("test.test.test"));
}

#[test]
fn test_regex() {
    let host = Host::new("^example.com$").unwrap();
    assert!(host.is_match("example.com"));
    assert!(!host.is_match("test.example.com"));
}

#[test]
fn literal_as_str_returns_original_text() {
    let host = Host::new("example.com").unwrap();
    assert_eq!(host.as_str(), "example.com");
}

#[test]
fn wildcard_as_str_returns_compiled_pattern_text() {
    let host = Host::new("*.example.com").unwrap();
    assert_eq!(host.as_str(), "^[^.]+\\.example\\.com$");
}

#[test]
fn raw_pattern_as_str_returns_pattern_text() {
    let host = Host::new("^api\\.example\\.(com|org)$").unwrap();
    assert_eq!(host.as_str(), "^api\\.example\\.(com|org)$");
    assert!(host.is_match("api.example.com"));
    assert!(host.is_match("api.example.org"));
    assert!(!host.is_match("api.example.net"));
}

#[test]
fn raw_pattern_is_unanchored() {
    // the engine applies no anchoring of its own: a substring match suffices
    let host = Host::new("example\\.(com|org)").unwrap();
    assert!(host.is_match("test.example.com"));
    assert!(host.is_match("example.org.uk"));
}

#[test]
fn invalid_pattern_fails_to_compile() {
    assert!(Host::new("(").is_none());
}

#[test]
fn wildcard_needs_at_least_one_character() {
    // `*` stands for one or more non-dot characters, never zero
    let host = Host::new("*.example.com").unwrap();
    assert!(!host.is_match(".example.com"));
}
