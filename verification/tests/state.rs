use matcha::manifest::Package;
use matcha::state::{check_known_packages_tied, check_schema_version, StateError, SCHEMA_VERSION};
use matcha::text::parse_i64;

#[test]
fn test_schema_version_check() {
    assert_eq!(SCHEMA_VERSION, 1);
    assert_eq!(check_schema_version("1"), Ok(1));
    assert_eq!(check_schema_version("0"), Ok(0));
    assert_eq!(check_schema_version("-3"), Ok(-3));
    assert_eq!(
        check_schema_version("2"),
        Err(StateError::UnsupportedSchemaVersion("2".to_string()))
    );
    assert_eq!(
        check_schema_version("2").unwrap_err().to_display_string(),
        "unsupported database schema version 2"
    );
    assert_eq!(check_schema_version("one"), Err(StateError::UnparsableSchemaVersion));
    assert_eq!(
        StateError::UnparsableSchemaVersion.to_display_string(),
        "failed to parse database schema version"
    );
}

#[test]
fn test_add_known_packages_refuses_untied_packages() {
    let tied = Package {
        name: "foo".into(),
        version: "1".into(),
        registry: "https://example.invalid/registry".into(),
        ..Default::default()
    };
    let untied = Package {
        name: "bar".into(),
        version: "1".into(),
        ..Default::default()
    };
    assert!(check_known_packages_tied(&[tied.clone()]).is_ok());
    assert_eq!(
        check_known_packages_tied(&[tied, untied]),
        Err(StateError::UntiedKnownPackage)
    );
}

#[test]
fn test_parse_i64_reads_as_std_does() {
    let cases = [
        "0", "1", "+5", "-3", "007", "-0", "", "-", "+", "12a", " 1", "1 ", "--1",
        "9223372036854775807", "9223372036854775808", "-9223372036854775808",
        "-9223372036854775809", "99999999999999999999999", "١",
    ];
    for s in cases {
        assert_eq!(parse_i64(s), s.parse::<i64>().ok(), "{:?}", s);
    }
    assert_eq!(parse_i64("-9223372036854775808"), Some(i64::MIN));
    assert_eq!(parse_i64("9223372036854775807"), Some(i64::MAX));
}
