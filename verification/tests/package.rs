use std::collections::HashSet;
use std::str::FromStr;

use matcha::package::{merge_dependency_requests, PackageChangeSet, PackageRequest, VersionSpec, WorkspacePackage};

#[test]
fn package_test_matches_any_version() {
    assert!(VersionSpec::Any.matches("1.0.0"));
    assert!(VersionSpec::Any.matches("0.0.0"));
    assert!(VersionSpec::Any.matches("0.1.0"));
    assert!(VersionSpec::Any.matches("0.0.1"));
    assert!(VersionSpec::Any.matches("0.1.1"));
    assert!(VersionSpec::Any.matches("1.1.1"));
}

#[test]
fn package_test_matches_exact_version() {
    assert!(VersionSpec::exact("1.0.0").matches("1.0.0"));
    assert!(!VersionSpec::exact("1.0.0").matches("1.0"));
    assert!(!VersionSpec::exact("1.0.0").matches("1.0.1"));
    assert!(!VersionSpec::exact("1.0.0").matches("1.0.0-beta"));
}

#[test]
fn package_test_matches_partial_version() {
    assert!(VersionSpec::partial("1").matches("1"));
    assert!(VersionSpec::partial("1").matches("1.0"));
    assert!(VersionSpec::partial("1").matches("1.0.0"));
    assert!(VersionSpec::partial("1").matches("1.1"));

    assert!(!VersionSpec::partial("1").matches("10"));
    assert!(VersionSpec::partial("1").matches("1-alpha2"));
}

#[test]
fn package_test_is_compatible_any() {
    assert!(VersionSpec::Any.is_compatible(&VersionSpec::Any));
    assert!(VersionSpec::Any.is_compatible(&VersionSpec::exact("1.0.0")));
    assert!(VersionSpec::Any.is_compatible(&VersionSpec::partial("1")));
    assert!(VersionSpec::exact("1.0.0").is_compatible(&VersionSpec::Any));
    assert!(VersionSpec::partial("1").is_compatible(&VersionSpec::Any));
}

#[test]
fn package_test_is_compatible_exact() {
    assert!(VersionSpec::exact("1.0.0").is_compatible(&VersionSpec::exact("1.0.0")));
    assert!(!VersionSpec::exact("1.0.0").is_compatible(&VersionSpec::exact("1.0.1")));
}

#[test]
fn package_test_is_compatible_partial_exact() {
    assert!(VersionSpec::partial("1").is_compatible(&VersionSpec::exact("1.0.0")));
    assert!(VersionSpec::exact("1.0.0").is_compatible(&VersionSpec::partial("1")));
    assert!(!VersionSpec::partial("1").is_compatible(&VersionSpec::exact("2.0.0")));
    assert!(!VersionSpec::exact("2.0.0").is_compatible(&VersionSpec::partial("1")));

    assert!(!VersionSpec::partial("1").is_compatible(&VersionSpec::exact("12.0.0")));
    assert!(!VersionSpec::exact("12.0.0").is_compatible(&VersionSpec::partial("1")));
}

#[test]
fn package_test_is_compatible_partial_partial() {
    assert!(VersionSpec::partial("1").is_compatible(&VersionSpec::partial("1")));
    assert!(VersionSpec::partial("1").is_compatible(&VersionSpec::partial("1.1")));
    assert!(VersionSpec::partial("1.1").is_compatible(&VersionSpec::partial("1")));

    assert!(!VersionSpec::partial("1.2").is_compatible(&VersionSpec::partial("1.1")));
}

#[test]
fn package_test_bit_add_version_specs() {
    assert_eq!(VersionSpec::Any & VersionSpec::Any, Some(VersionSpec::Any));
    assert_eq!(
        VersionSpec::Any & VersionSpec::exact("1.0.0"),
        Some(VersionSpec::exact("1.0.0"))
    );
    assert_eq!(
        VersionSpec::Any & VersionSpec::partial("1"),
        Some(VersionSpec::partial("1"))
    );
    assert_eq!(
        VersionSpec::exact("1.0.0") & VersionSpec::Any,
        Some(VersionSpec::exact("1.0.0"))
    );
    assert_eq!(
        VersionSpec::partial("1") & VersionSpec::Any,
        Some(VersionSpec::partial("1"))
    );

    assert_eq!(
        VersionSpec::exact("1.0.0") & VersionSpec::exact("1.0.0"),
        Some(VersionSpec::exact("1.0.0"))
    );
    assert_eq!(
        VersionSpec::exact("1.0.0") & VersionSpec::exact("1.0.1"),
        None
    );

    assert_eq!(
        VersionSpec::partial("1") & VersionSpec::exact("1.0.0"),
        Some(VersionSpec::exact("1.0.0"))
    );
    assert_eq!(
        VersionSpec::exact("1.0.0") & VersionSpec::partial("1"),
        Some(VersionSpec::exact("1.0.0"))
    );
    assert_eq!(
        VersionSpec::partial("1") & VersionSpec::partial("1.0"),
        Some(VersionSpec::partial("1.0"))
    );
    assert_eq!(
        VersionSpec::partial("1.0") & VersionSpec::partial("1"),
        Some(VersionSpec::partial("1.0"))
    );

    assert_eq!(VersionSpec::partial("1") & VersionSpec::partial("2"), None);
}

#[test]
fn package_test_parse_version_spec() {
    assert_eq!(VersionSpec::from_str("").unwrap(), VersionSpec::Any);
    assert_eq!(VersionSpec::from_str("*").unwrap(), VersionSpec::Any);
    assert_eq!(
        VersionSpec::from_str("1.0.0").unwrap(),
        VersionSpec::exact("1.0.0")
    );
    assert_eq!(
        VersionSpec::from_str("~1.0.0").unwrap(),
        VersionSpec::partial("1.0.0")
    );
}

#[test]
fn package_test_merge_dependency_requests_all_any() {
    assert_eq!(
        merge_dependency_requests(vec![
            PackageRequest {
                name: "foo".into(),
                version: VersionSpec::Any
            },
            PackageRequest {
                name: "foo".into(),
                version: VersionSpec::Any
            }
        ]).unwrap(),
        vec![PackageRequest {
            name: "foo".into(),
            version: VersionSpec::Any
        }]
    );
}

#[test]
fn package_test_merge_dependency_requests_any_exact() {
    assert_eq!(
        merge_dependency_requests(vec![
            PackageRequest {
                name: "foo".into(),
                version: VersionSpec::Any
            },
            PackageRequest {
                name: "foo".into(),
                version: VersionSpec::exact("1.0.0")
            }
        ]).unwrap(),
        vec![PackageRequest {
            name: "foo".into(),
            version: VersionSpec::exact("1.0.0")
        }]
    );
}

#[test]
fn package_test_merge_dependency_requests_any_partial() {
    assert_eq!(
        merge_dependency_requests(vec![
            PackageRequest {
                name: "foo".into(),
                version: VersionSpec::Any
            },
            PackageRequest {
                name: "foo".into(),
                version: VersionSpec::partial("1")
            }
        ]).unwrap(),
        vec![PackageRequest {
            name: "foo".into(),
            version: VersionSpec::partial("1")
        }]
    );
}

#[test]
fn package_test_merge_dependency_requests_matching_partials() {
    assert_eq!(
        merge_dependency_requests(vec![
            PackageRequest {
                name: "foo".into(),
                version: VersionSpec::partial("1")
            },
            PackageRequest {
                name: "foo".into(),
                version: VersionSpec::partial("1.0")
            }
        ]).unwrap(),
        vec![PackageRequest {
            name: "foo".into(),
            version: VersionSpec::partial("1.0")
        }]
    );
}

#[test]
fn package_test_merge_dependency_requests_mismatching_partials() {
    let conflicts = merge_dependency_requests(vec![
            PackageRequest {
                name: "foo".into(),
                version: VersionSpec::partial("1")
            },
            PackageRequest {
                name: "foo".into(),
                version: VersionSpec::partial("2")
            }
        ]).unwrap_err();
    let entries = &conflicts.inner;
    assert_eq!(entries.len(), 1);
    assert_eq!(entries[0].0, "foo");
    let specs: HashSet<VersionSpec> = entries[0].1.iter().cloned().collect();
    assert_eq!(specs.len(), entries[0].1.len());
    assert_eq!(
        specs,
        HashSet::from([VersionSpec::partial("1"), VersionSpec::partial("2")])
    );
}

#[test]
fn package_test_merge_dependency_requests_partial_exact() {
    assert_eq!(
        merge_dependency_requests(vec![
            PackageRequest {
                name: "foo".into(),
                version: VersionSpec::partial("1")
            },
            PackageRequest {
                name: "foo".into(),
                version: VersionSpec::exact("1.0.0")
            }
        ]).unwrap(),
        vec![PackageRequest {
            name: "foo".into(),
            version: VersionSpec::exact("1.0.0")
        }]
    );
}

#[test]
fn package_test_merge_dependency_requests_exact_mismatch() {
    let conflicts = merge_dependency_requests(vec![
            PackageRequest {
                name: "foo".into(),
                version: VersionSpec::Any
            },
            PackageRequest {
                name: "foo".into(),
                version: VersionSpec::exact("1.0.0")
            },
            PackageRequest {
                name: "foo".into(),
                version: VersionSpec::exact("1.0.1")
            }
        ]).unwrap_err();
    let entries = &conflicts.inner;
    assert_eq!(entries.len(), 1);
    assert_eq!(entries[0].0, "foo");
    let specs: HashSet<VersionSpec> = entries[0].1.iter().cloned().collect();
    assert_eq!(specs.len(), entries[0].1.len());
    assert_eq!(
        specs,
        HashSet::from([VersionSpec::exact("1.0.0"), VersionSpec::exact("1.0.1")])
    );
}

#[test]
fn package_test_merge_dependency_requests_matching_exact() {
    assert_eq!(
        merge_dependency_requests(vec![
            PackageRequest {
                name: "foo".into(),
                version: VersionSpec::exact("1.0.0")
            },
            PackageRequest {
                name: "foo".into(),
                version: VersionSpec::exact("1.0.0")
            }
        ]).unwrap(),
        vec![PackageRequest {
            name: "foo".into(),
            version: VersionSpec::exact("1.0.0")
        }]
    );
}

#[test]
fn package_test_merge_dependency_requests_different_names() {
    assert_eq!(
        merge_dependency_requests(vec![
            PackageRequest {
                name: "foo".into(),
                version: VersionSpec::exact("1.0.0")
            },
            PackageRequest {
                name: "bar".into(),
                version: VersionSpec::exact("2.0.0")
            }
        ]).unwrap(),
        vec![
            PackageRequest {
                name: "foo".into(),
                version: VersionSpec::exact("1.0.0")
            },
            PackageRequest {
                name: "bar".into(),
                version: VersionSpec::exact("2.0.0")
            }
        ]
    );
}

#[test]
fn package_test_merge_dependency_requests_triple_conflict() {
    let conflicts = merge_dependency_requests(vec![
            PackageRequest {
                name: "foo".into(),
                version: VersionSpec::exact("1.0.0")
            },
            PackageRequest {
                name: "foo".into(),
                version: VersionSpec::exact("1.0.1")
            },
            PackageRequest {
                name: "foo".into(),
                version: VersionSpec::exact("1.0.2")
            }
        ]).unwrap_err();
    let entries = &conflicts.inner;
    assert_eq!(entries.len(), 1);
    assert_eq!(entries[0].0, "foo");
    let specs: HashSet<VersionSpec> = entries[0].1.iter().cloned().collect();
    assert_eq!(specs.len(), entries[0].1.len());
    assert_eq!(
        specs,
        HashSet::from([
                    VersionSpec::exact("1.0.0"),
                    VersionSpec::exact("1.0.1"),
                    VersionSpec::exact("1.0.2")
                ])
    );
}
