use matcha::manifest::{file_name_from_segments, Manifest, Package, SourceError};

fn source_package(source: Option<&str>) -> Package {
    Package {
        name: "test-package".to_string(),
        version: "0.1.0".to_string(),
        registry: "test".to_string(),
        source: source.map(|s| s.to_string()),
        ..Default::default()
    }
}

#[test]
fn test_download_file_name() {
    let p = source_package(Some("https://example.invalid/test-package/archive/0.1.0.tar.gz"));
    let name = p.download_file_name().unwrap();
    assert!(name.ends_with(".tar.gz"));
    assert_eq!(name, "0.1.0.tar.gz");
    let p = source_package(Some("https://example.invalid/test-source"));
    assert_eq!(p.download_file_name().unwrap(), "test-source");
    assert_eq!(source_package(None).download_file_name().unwrap(), "");
}

#[test]
fn test_download_file_name_errors() {
    let bad = source_package(Some("not a url"));
    assert_eq!(bad.download_file_name(), Err(SourceError::InvalidSourceUrl));
    assert_eq!(
        SourceError::InvalidSourceUrl.to_display_string(),
        "invalid source URL"
    );
    let no_path = source_package(Some("mailto:someone@example.invalid"));
    assert_eq!(
        no_path.download_file_name(),
        Err(SourceError::InvalidDownloadSource)
    );
    assert_eq!(
        SourceError::InvalidDownloadSource.to_display_string(),
        "invalid package download source"
    );
}

#[test]
fn test_file_name_from_segments() {
    assert_eq!(
        file_name_from_segments(Some(vec!["a".to_string(), "b.zip".to_string()])),
        Ok("b.zip".to_string())
    );
    assert_eq!(file_name_from_segments(Some(vec![])), Ok("matcha_download".to_string()));
    assert_eq!(
        file_name_from_segments(None),
        Err(SourceError::InvalidDownloadSource)
    );
}

#[test]
fn test_build_script() {
    let mut p = source_package(None);
    assert_eq!(p.build_script(), None);
    p.build = Some("false\ntrue".to_string());
    assert_eq!(p.build_script(), Some("set -e\nfalse\ntrue".to_string()));
}

#[test]
fn test_package_display() {
    let mut p = source_package(None);
    assert_eq!(p.to_display_string(), "test-package@0.1.0 < test");
    p.description = Some("A test package".into());
    p.homepage = Some("https://example.invalid/test-package".into());
    p.license = Some("MIT".into());
    assert_eq!(
        p.to_display_string(),
        "test-package@0.1.0 - A test package (https://example.invalid/test-package) [MIT] < test"
    );
}

#[test]
fn test_manifest_ties_packages_to_its_name() {
    let mut p = source_package(None);
    p.registry = "elsewhere".into();
    let m = Manifest::from_parts(
        1,
        "test".into(),
        "https://example.invalid/test".into(),
        Some("A test manifest".into()),
        vec![p.clone()],
    );
    assert_eq!(m.schema_version, 1);
    assert_eq!(m.packages[0].registry, "test");
    assert_eq!(m.packages[0].name, p.name);
    let mut m = m;
    m.set_registry_uri("https://example.invalid/registry");
    assert_eq!(m.packages[0].registry, "https://example.invalid/registry");
}

#[test]
fn test_package_equality_and_duplicate() {
    let p = source_package(Some("https://example.invalid/x"));
    assert_eq!(p.duplicate(), p);
    let mut q = p.clone();
    q.license = Some("MIT".into());
    assert_ne!(p, q);
}

fn text(t: &toml::Table, key: &str) -> Option<String> {
    t.get(key).and_then(|v| v.as_str()).map(|s| s.to_string())
}

/// Reads a manifest document with `toml`, as the command line does, and assembles it.
fn read_manifest(s: &str) -> Manifest {
    let doc: toml::Table = s.parse().unwrap();
    let packages = doc["packages"]
        .as_array()
        .unwrap()
        .iter()
        .map(|p| {
            let t = p.as_table().unwrap();
            Package {
                name: text(t, "name").unwrap(),
                version: text(t, "version").unwrap(),
                description: text(t, "description"),
                homepage: text(t, "homepage"),
                license: text(t, "license"),
                source: text(t, "source"),
                build: text(t, "build"),
                registry: String::new(),
            }
        })
        .collect();
    Manifest::from_parts(
        doc["schema_version"].as_integer().unwrap() as u32,
        text(&doc, "name").unwrap(),
        text(&doc, "uri").unwrap(),
        text(&doc, "description"),
        packages,
    )
}

#[test]
fn test_parse_manifest() {
    let manifest = r#"
        schema_version = 1
        name = "test"
        uri = "https://example.invalid/test"
        description = "A test manifest"

        [[packages]]
        name = "test-package"
        version = "0.1.0"
        description = "A test package"
        homepage = "https://example.invalid/test-package"
        license = "MIT"
        source = "https://example.invalid/test-package/archive/0.1.0.tar.gz"
        build = "cargo build --release"
        artifacts = ["target/release/test-package"]
    "#;

    let manifest: Manifest = read_manifest(manifest);
    assert_eq!(manifest.schema_version, 1);
    assert_eq!(manifest.name, "test");
    assert_eq!(manifest.uri, "https://example.invalid/test");
    assert_eq!(manifest.description, Some("A test manifest".to_string()));
    assert_eq!(manifest.packages.len(), 1);
    assert_eq!(manifest.packages[0].name, "test-package");
    assert_eq!(manifest.packages[0].version, "0.1.0");
    assert_eq!(
        manifest.packages[0].description,
        Some("A test package".to_string())
    );
    assert_eq!(
        manifest.packages[0].homepage,
        Some("https://example.invalid/test-package".to_string())
    );
    assert_eq!(manifest.packages[0].license, Some("MIT".to_string()));
    assert_eq!(manifest.packages[0].registry, "test");
    assert_eq!(
        manifest.packages[0].source,
        Some("https://example.invalid/test-package/archive/0.1.0.tar.gz".to_string())
    );
    assert_eq!(
        manifest.packages[0].build,
        Some("cargo build --release".to_string())
    );
}
