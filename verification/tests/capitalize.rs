use milstian_http::capitalize_key;

#[test]
fn test_capitalize_key() {
    assert_eq!("Content-Type".to_string(), capitalize_key("content-type"));
    assert_eq!("Content-Type".to_string(), capitalize_key("CONTENT-TYPE"));
    assert_eq!("Accept".to_string(), capitalize_key("acCept"));
}

#[test]
fn test_capitalize_key_mixed_case() {
    assert_eq!("Content-Type".to_string(), capitalize_key("CoNtEnT-tYpE"));
}

#[test]
fn test_capitalize_key_idempotent() {
    let once = capitalize_key("x-custom-header");
    assert_eq!(once, "X-Custom-Header".to_string());
    assert_eq!(capitalize_key(&once), once);
    assert_eq!(capitalize_key("Content-Type"), "Content-Type".to_string());
}

#[test]
fn test_capitalize_key_empty_segments() {
    assert_eq!("".to_string(), capitalize_key(""));
    assert_eq!("-".to_string(), capitalize_key("-"));
    assert_eq!("A--B".to_string(), capitalize_key("a--b"));
}
