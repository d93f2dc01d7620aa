use matcha::util::is_file_system_safe;

#[test]
fn test_is_file_system_safe() {
    assert!(is_file_system_safe("foo"));
    assert!(is_file_system_safe("foo-bar"));
    assert!(is_file_system_safe("foo_bar"));
    assert!(is_file_system_safe("foo.bar"));

    assert!(!is_file_system_safe("foo/bar"));
    assert!(!is_file_system_safe("foo bar"));
    assert!(!is_file_system_safe(r"foo\bar"));
    assert!(!is_file_system_safe(r#"foo"bar"#));
}

#[test]
fn test_is_file_system_safe_edges() {
    assert!(is_file_system_safe(""));
    assert!(is_file_system_safe("AZaz09"));
    assert!(!is_file_system_safe("é"));
    assert!(!is_file_system_safe("~"));
}
