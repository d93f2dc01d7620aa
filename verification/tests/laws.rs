use std::collections::HashSet;

use matcha::error::Conflicts;
use matcha::package::{merge_dependency_requests, PackageRequest, VersionSpec};

fn specs() -> Vec<VersionSpec> {
    vec![
        VersionSpec::Any,
        VersionSpec::exact("1.0.0"),
        VersionSpec::exact("1.2"),
        VersionSpec::partial("1"),
        VersionSpec::partial("1.2"),
        VersionSpec::partial("2"),
        VersionSpec::partial("12"),
    ]
}

const VERSIONS: [&str; 8] = ["1", "1.0.0", "1.2", "1.2.3", "12", "2.0", "1-beta", "10"];

#[test]
fn law_compatibility_is_symmetric_on_examples() {
    for a in specs() {
        for b in specs() {
            assert_eq!(a.is_compatible(&b), b.is_compatible(&a), "{:?} {:?}", a, b);
        }
    }
}

#[test]
fn law_intersection_is_commutative_and_idempotent_on_examples() {
    for a in specs() {
        assert_eq!(a.clone() & a.clone(), Some(a.clone()));
        for b in specs() {
            let ab = a.clone() & b.clone();
            let ba = b.clone() & a.clone();
            assert_eq!(ab, ba, "{:?} {:?}", a, b);
            assert_eq!(ab.is_none(), !a.is_compatible(&b));
        }
    }
}

#[test]
fn law_intersection_matches_both_on_examples() {
    for a in specs() {
        for b in specs() {
            if let Some(c) = a.clone() & b.clone() {
                for v in VERSIONS {
                    assert_eq!(c.matches(v), a.matches(v) && b.matches(v), "{:?} {:?} {}", a, b, v);
                }
            }
        }
    }
}

#[test]
fn law_every_spec_matches_some_version() {
    assert!(VersionSpec::partial("1.2").matches("1.2"));
    assert!(VersionSpec::exact("3").matches("3"));
    assert!(VersionSpec::Any.matches(""));
}

#[test]
fn law_version_spec_display_parse_round_trip() {
    for s in ["*", "1.0.0", "~1.0", "~"] {
        assert_eq!(VersionSpec::parse(s).to_display_string(), s);
    }
    for v in specs() {
        assert_eq!(VersionSpec::parse(&v.to_display_string()), v);
    }
    // An exact version that reads as something else does not come back.
    assert_eq!(VersionSpec::parse(&VersionSpec::exact("~1").to_display_string()), VersionSpec::partial("1"));
}

#[test]
fn law_request_display_parse_round_trip() {
    for s in ["foo", "foo@1.0", "foo@~1"] {
        let r = s.parse::<PackageRequest>().unwrap();
        assert_eq!(r.to_display_string(), s);
        assert_eq!(r.to_display_string().parse::<PackageRequest>().unwrap(), r);
    }
}

#[test]
fn law_merge_keeps_names_and_intersects() {
    let reqs = vec![
        "foo@~1".parse::<PackageRequest>().unwrap(),
        "bar".parse().unwrap(),
        "foo@~1.2".parse().unwrap(),
        "baz@2".parse().unwrap(),
        "bar@~3".parse().unwrap(),
    ];
    let merged = merge_dependency_requests(reqs).unwrap();
    let names: Vec<&str> = merged.iter().map(|r| r.name.as_str()).collect();
    assert_eq!(names, vec!["foo", "bar", "baz"]);
    assert_eq!(merged[0].version, VersionSpec::partial("1.2"));
    assert_eq!(merged[1].version, VersionSpec::partial("3"));
    assert_eq!(merged[2].version, VersionSpec::exact("2"));
}

#[test]
fn law_conflicts_keep_each_spec_once() {
    let mut c = Conflicts::new();
    assert!(c.is_empty());
    c.add_conflict("foo".into(), VersionSpec::exact("1"), VersionSpec::exact("2"));
    c.add_conflict("foo".into(), VersionSpec::exact("2"), VersionSpec::exact("3"));
    c.add_conflict("bar".into(), VersionSpec::Any, VersionSpec::Any);
    assert!(!c.is_empty());
    assert_eq!(c.inner.len(), 2);
    assert_eq!(c.inner[0].0, "foo");
    assert_eq!(
        c.inner[0].1,
        vec![VersionSpec::exact("1"), VersionSpec::exact("2"), VersionSpec::exact("3")]
    );
    assert_eq!(c.inner[1].1, vec![VersionSpec::Any]);
    let set: HashSet<VersionSpec> = c.inner[0].1.iter().cloned().collect();
    assert_eq!(set.len(), 3);
    assert_eq!(
        c.to_display_string(),
        "conflicting requests for dependency 'foo':\n  Exact(\"1\")\n  Exact(\"2\")\n  Exact(\"3\")\nconflicting requests for dependency 'bar':\n  Any\n"
    );
}

#[test]
fn law_conflict_report_quotes_specs() {
    assert_eq!(VersionSpec::partial("1\"x").to_debug_string(), "Partial(\"1\\\"x\")");
    assert_eq!(VersionSpec::Any.to_debug_string(), "Any");
}

#[test]
fn law_merged_spec_is_fold_of_intersections() {
    let specs = [VersionSpec::partial("1"), VersionSpec::partial("1.2"), VersionSpec::exact("1.2.3")];
    let reqs: Vec<PackageRequest> = specs
        .iter()
        .map(|s| PackageRequest { name: "foo".into(), version: s.clone() })
        .collect();
    let merged = merge_dependency_requests(reqs).unwrap();
    let fold = ((specs[0].clone() & specs[1].clone()).unwrap() & specs[2].clone()).unwrap();
    assert_eq!(merged[0].version, fold);
    assert_eq!(fold, VersionSpec::exact("1.2.3"));
}
