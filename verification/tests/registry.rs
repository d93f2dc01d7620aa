use matcha::manifest::{Manifest, Package};
use matcha::registry::{
    check_collisions, check_manifest_packages, check_new_registry, stale_known_packages,
    MockFetcher, Registry, RegistryError, Uri, MOCK_MANIFEST, UPDATE_AFTER_NANOS,
};

const CWD: &str = "/home/user/work";

fn now() -> i128 {
    time::OffsetDateTime::now_utc().unix_timestamp_nanos()
}

fn package(name: &str, version: &str) -> Package {
    Package {
        name: name.to_string(),
        version: version.to_string(),
        ..Default::default()
    }
}

fn manifest(name: &str, packages: Vec<Package>) -> Manifest {
    Manifest::from_parts(1, name.to_string(), String::new(), None, packages)
}

#[test]
fn test_uri_from_str() {
    assert_eq!(
        Uri::parse("http://example.invalid", CWD),
        Uri::Http("http://example.invalid".into())
    );
    assert_eq!(
        Uri::parse("https://example.invalid", CWD),
        Uri::Https("https://example.invalid".into())
    );
    // Local paths should be absolute.
    assert_eq!(
        Uri::parse("example", CWD),
        Uri::File("/home/user/work/example".into())
    );
}

#[test]
fn test_uri_absolute_path_and_display() {
    let uri = Uri::parse("/srv/registry.toml", CWD);
    assert_eq!(uri, Uri::File("/srv/registry.toml".into()));
    assert_eq!(uri.to_display_string(), "/srv/registry.toml");
    assert_eq!(Uri::parse("example", "/"), Uri::File("/example".into()));
    assert_eq!(
        Uri::parse("httpx://example.invalid", "/w"),
        Uri::File("/w/httpx://example.invalid".into())
    );
}

#[test]
fn test_is_initialized() {
    let mut registry = Registry::new("https://example.invalid/registry", CWD);
    assert!(!registry.is_initialized());
    registry.record_initialization(&manifest("test", vec![]));
    assert!(registry.is_initialized());
    assert_eq!(registry.name, Some("test".to_string()));
}

#[test]
fn test_should_update() {
    let mut registry = Registry::new("https://example.invalid/registry", CWD);
    assert!(registry.should_update());
    registry.last_fetched = Some(now());
    assert!(!registry.should_update());
}

#[test]
fn test_should_update_always_updates_local_files() {
    let mut registry = Registry::new("example", CWD);
    assert!(registry.should_update());
    registry.last_fetched = Some(now());
    assert!(registry.should_update());
}

#[test]
fn test_should_update_at_boundary() {
    let mut registry = Registry::new("https://example.invalid/registry", CWD);
    registry.last_fetched = Some(1_000);
    assert_eq!(UPDATE_AFTER_NANOS, 1_440_000_000_000);
    assert!(!registry.should_update_at(1_000 + UPDATE_AFTER_NANOS - 1));
    assert!(registry.should_update_at(1_000 + UPDATE_AFTER_NANOS));
    assert!(!registry.should_update_at(0));
    registry.last_fetched = Some(i128::MAX);
    assert!(!registry.should_update_at(i128::MAX));
    assert!(registry.needs_fetch(true));
}

#[test]
fn test_registry_update_records_name_and_time() {
    let mut registry = Registry::new("https://example.invalid/registry", CWD);
    registry.record_fetch(&manifest("test", vec![]), 42);
    assert_eq!(registry.name, Some("test".into()));
    assert_eq!(registry.last_fetched, Some(42));
}

#[test]
fn test_registry_display() {
    let mut registry = Registry::new("https://example.invalid/registry", CWD);
    assert_eq!(registry.to_display_string(), "https://example.invalid/registry");
    registry.name = Some("test".into());
    assert_eq!(registry.to_display_string(), "https://example.invalid/registry (test)");
}

#[test]
fn test_tie_manifest() {
    let registry = Registry::new("https://example.invalid/registry", CWD);
    let mut m = manifest("test", vec![package("a", "1")]);
    assert_eq!(m.packages[0].registry, "test");
    registry.tie_manifest(&mut m);
    assert_eq!(m.packages[0].registry, "https://example.invalid/registry");
}

#[test]
fn test_update_registry_refuses_unsafe_package_names() {
    let unsafe_package = package("test/package", "0.1.0");
    let err = check_manifest_packages(&[package("ok", "1"), unsafe_package]).unwrap_err();
    assert_eq!(
        err,
        RegistryError::InvalidPackage("test/package@0.1.0 < ".to_string())
    );
    assert_eq!(
        err.to_display_string(),
        "invalid package name or version: test/package@0.1.0 < "
    );
    assert!(check_manifest_packages(&[package("a", "1.0 beta")]).is_err());
    assert!(check_manifest_packages(&[package("test-package", "0.1.0")]).is_ok());
}

#[test]
fn test_update_package_refuses_overwriting_other_registrys_package() {
    let uri = "https://example.invalid/second-registry";
    let mut pkgs = vec![package("test-package", "0.1.0"), package("other", "1")];
    for p in pkgs.iter_mut() {
        p.registry = uri.to_string();
    }
    let existing = [Some("https://example.invalid/registry".to_string()), None];
    let res = check_collisions(&pkgs, &existing, uri);
    assert!(res.is_err());
    let msg = res.unwrap_err().to_display_string();
    assert!(msg.contains("collides with"));
    assert_eq!(
        msg,
        "https://example.invalid/second-registry's package test-package collides with https://example.invalid/registry's"
    );
    let same = [Some(uri.to_string()), None];
    assert!(check_collisions(&pkgs, &same, uri).is_ok());
}

#[test]
fn test_update_registry_removes_gone_packages() {
    let known = vec![package("a", "1"), package("b", "2"), package("c", "3")];
    let manifest = vec![package("b", "2")];
    let stale = stale_known_packages(&known, &manifest);
    let names: Vec<(String, String)> = stale.into_iter().map(|k| (k.name, k.version)).collect();
    assert_eq!(
        names,
        vec![("a".to_string(), "1".to_string()), ("c".to_string(), "3".to_string())]
    );
    assert!(stale_known_packages(&known, &known).is_empty());
}

#[test]
fn test_add_registry_checks() {
    let mut registry = Registry::new("https://example.invalid/registry", CWD);
    assert_eq!(
        check_new_registry(&registry, false).unwrap_err().to_display_string(),
        "registry https://example.invalid/registry is not initialized"
    );
    registry.name = Some("test".into());
    assert_eq!(
        check_new_registry(&registry, true).unwrap_err().to_display_string(),
        "registry https://example.invalid/registry already exists"
    );
    assert!(check_new_registry(&registry, false).is_ok());
    assert_eq!(
        RegistryError::DoesNotExist("unkonwn".into()).to_display_string(),
        "registry unkonwn does not exist"
    );
}

#[test]
fn test_mock_fetcher_default() {
    let fetcher = MockFetcher::default();
    assert_eq!(fetcher.manifest, MOCK_MANIFEST);
    assert!(fetcher.manifest.contains("name = \"failing-build\""));
}
