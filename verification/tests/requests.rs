use matcha::package::{
    KnownPackage, PackageChangeSet, PackageRequest, ResolveError, VersionSpec, WorkspacePackage,
};

fn req(s: &str) -> PackageRequest {
    s.parse::<PackageRequest>().unwrap()
}

#[test]
fn test_dependency_request_parse_round_trip() {
    let exact = "foo@1.0.0";
    assert_eq!(exact.parse::<PackageRequest>().unwrap().to_display_string(), exact);

    let partial = "foo@~1.0.0";
    assert_eq!(partial.parse::<PackageRequest>().unwrap().to_display_string(), partial);

    let any = "foo";
    assert_eq!(any.parse::<PackageRequest>().unwrap().to_display_string(), any);
}

#[test]
fn test_parse_request_splits_at_first_at() {
    let r = req("foo@~1@2");
    assert_eq!(r.name, "foo");
    assert_eq!(r.version, VersionSpec::partial("1@2"));
    let r = req("foo@");
    assert_eq!(r.name, "foo");
    assert_eq!(r.version, VersionSpec::Any);
    let r = req("foo@*");
    assert_eq!(r.version, VersionSpec::Any);
}

#[test]
fn test_resolve_known_version() {
    let pkg = req("foo");
    let spec = pkg.resolve_known_version(&["1.0.0".to_string()]).unwrap();
    assert_eq!(spec.version, "1.0.0");
    assert_eq!(spec.name, "foo");
}

#[test]
fn test_resolve_known_version_picks_first_match() {
    let pkg = req("foo@~1");
    let known = ["2.0.0".to_string(), "1.1.0".to_string(), "1.0.0".to_string()];
    let spec = pkg.resolve_known_version(&known).unwrap();
    assert_eq!(spec.version, "1.1.0");
}

#[test]
fn test_resolve_known_version_fails_if_not_known() {
    let pkg = req("foo");
    let err = pkg.resolve_known_version(&[]).unwrap_err();
    assert_eq!(err.to_display_string(), "package foo is not known");
}

#[test]
fn test_resolve_known_version_fails_if_this_version_is_not_known() {
    let pkg = req("foo@2.0.0");
    let known = ["1.0.0".to_string(), "0.9".to_string()];
    let err = pkg.resolve_known_version(&known).unwrap_err();
    assert!(matches!(err, ResolveError::VersionNotKnown(_, _)));
    assert_eq!(
        err.to_display_string(),
        "package foo@2.0.0 is not known, but these versions are: 1.0.0, 0.9"
    );
}

#[test]
fn test_resolve_workspace_version() {
    let installed = WorkspacePackage::from_request(&req("foo@1.0.0"), "1.0.0");
    let pkg = req("foo");
    let spec = pkg.resolve_workspace_version(Some(&installed)).unwrap();
    assert_eq!(spec.version, "1.0.0");
    assert_eq!(spec.requested_version, VersionSpec::Any);
}

#[test]
fn test_resolve_workspace_version_fails_if_not_installed() {
    let pkg = req("foo");
    let err = pkg.resolve_workspace_version(None).unwrap_err();
    assert_eq!(err.to_display_string(), "package foo is not installed");
}

#[test]
fn test_resolve_workspace_version_fails_if_this_version_is_not_installed() {
    let installed = WorkspacePackage::from_request(&req("foo@1"), "1.0.0");
    let pkg = req("foo@2");
    let err = pkg.resolve_workspace_version(Some(&installed)).unwrap_err();
    assert_eq!(
        err.to_display_string(),
        "package foo@2 is not in this workspace, but this versions is: 1.0.0"
    );
}

#[test]
fn test_available_update() {
    let installed = WorkspacePackage::from_request(&req("foo@~1"), "1.0.0");
    let known = ["2.0.0".to_string(), "1.2.0".to_string(), "1.0.0".to_string()];
    let update = installed.available_update(&known).unwrap();
    assert_eq!(update.name, "foo");
    assert_eq!(update.version, "1.2.0");

    let latest = WorkspacePackage::from_request(&req("foo@~1"), "1.2.0");
    assert!(latest.available_update(&known).is_none());
    assert!(installed.available_update(&["2.0.0".to_string()]).is_none());
}

#[test]
fn test_package_displays() {
    let w = WorkspacePackage::from_request(&req("test-package"), "0.1.1");
    assert_eq!(w.to_display_string(), "test-package@0.1.1 (resolved from *)");
    let k = KnownPackage::from_request(&req("foo@~1"), "1.2");
    assert_eq!(k.to_display_string(), "foo@1.2");
}

#[test]
fn test_changeset_resolve_add_new_in_vacuum() {
    let changeset = PackageChangeSet::add_packages(&[req("foo@1.0.0")], &[]).unwrap();

    let added = changeset.added_packages();
    assert_eq!(added.len(), 1);
    assert!(added.contains(&req("foo@1.0.0")));
}

#[test]
fn test_changeset_resolve_add_new_with_unrelated() {
    let changeset = PackageChangeSet::add_packages(
        &[req("foo@1.0.0")],
        &[WorkspacePackage::from_request(&req("bar"), "1.0.0")],
    )
    .unwrap();

    let added = changeset.added_packages();
    assert_eq!(added.len(), 1);
    assert!(added.contains(&req("foo@1.0.0")));
}

#[test]
fn test_changeset_resolve_add_new_preexisting_upgrades() {
    let changeset = PackageChangeSet::add_packages(
        &[req("foo")],
        &[WorkspacePackage::from_request(&req("foo@1"), "1.0.0")],
    )
    .unwrap();

    let changed = changeset.changed_packages();
    assert_eq!(changed.len(), 1);
    assert!(changed.contains(&req("foo@1")));
}

#[test]
fn test_changeset_resolve_add_new_preexisting_conflicts() {
    let changeset = PackageChangeSet::add_packages(
        &[req("foo@2")],
        &[WorkspacePackage::from_request(&req("foo@1"), "1")],
    );

    assert!(changeset.unwrap_err().to_display_string().contains("conflict"));
}

#[test]
fn test_changeset_resolve_add_new_preexisting_needs_change() {
    let changeset = PackageChangeSet::add_packages(
        &[req("foo@2")],
        &[WorkspacePackage::from_request(&req("foo"), "1")],
    )
    .unwrap();

    let changed = changeset.changed_packages();
    assert_eq!(changed.len(), 1);
    assert!(changed.contains(&req("foo@2")));
}

#[test]
fn test_changeset_resolve_add_new_preexisting_lax_needs_change() {
    let changeset = PackageChangeSet::add_packages(
        &[req("foo@1.1")],
        &[WorkspacePackage::from_request(&req("foo@~1"), "1.0")],
    )
    .unwrap();

    let changed = changeset.changed_packages();
    assert_eq!(changed.len(), 1);
    assert!(changed.contains(&req("foo@1.1")));
}

#[test]
fn test_changeset_install_again_changes_nothing() {
    let installed = [WorkspacePackage::from_request(&req("test-package@0.1.0"), "0.1.0")];
    let changeset = PackageChangeSet::add_packages(&[req("test-package@0.1.0")], &installed).unwrap();
    assert!(changeset.added_packages().is_empty());
    assert!(changeset.changed_packages().is_empty());
    assert!(changeset.removed_packages().is_empty());
}

#[test]
fn test_changeset_laxer_request_is_satisfied() {
    let installed = [WorkspacePackage::from_request(&req("test-package@0.1.0"), "0.1.0")];
    let changeset = PackageChangeSet::add_packages(&[req("test-package@~0.1")], &installed).unwrap();
    assert!(changeset.added_packages().is_empty());
    assert!(changeset.changed_packages().is_empty());
}

#[test]
fn test_changeset_two_different_versions_conflict() {
    let installed = [WorkspacePackage::from_request(&req("test-package@0.1.0"), "0.1.0")];
    let err = PackageChangeSet::add_packages(&[req("test-package@0.1.1")], &installed).unwrap_err();
    assert_eq!(
        err.to_display_string(),
        "conflicting requests for dependency 'test-package':\n  Exact(\"0.1.0\")\n  Exact(\"0.1.1\")\n"
    );
}

#[test]
fn test_changeset_update_and_remove_keep_their_lists() {
    let installed = [
        WorkspacePackage::from_request(&req("foo@~1"), "1.0"),
        WorkspacePackage::from_request(&req("bar"), "2.0"),
    ];
    let update = PackageChangeSet::update_packages(&[req("foo")], &installed).unwrap();
    assert_eq!(update.changed_packages(), vec![req("foo")]);
    assert!(update.added_packages().is_empty());

    let remove = PackageChangeSet::remove_packages(&[req("bar")], &installed).unwrap();
    assert_eq!(remove.removed_packages(), vec![req("bar")]);
    assert!(remove.added_packages().is_empty());
    assert!(remove.changed_packages().is_empty());
}

#[test]
fn test_changeset_adds_each_name_once() {
    let changeset =
        PackageChangeSet::add_packages(&[req("foo@~1"), req("bar"), req("foo@1.2")], &[]).unwrap();
    assert_eq!(changeset.added_packages(), vec![req("foo@1.2"), req("bar")]);
}

#[test]
fn test_changeset_install_any_keeps_pinned_version() {
    let installed = [WorkspacePackage::from_request(&req("test-package@0.1.0"), "0.1.0")];
    let changeset = PackageChangeSet::add_packages(&[req("test-package")], &installed).unwrap();
    assert!(changeset.added_packages().is_empty());
    assert!(changeset.changed_packages().is_empty());
}

#[test]
fn test_changeset_stricter_request_needs_change() {
    let installed = [WorkspacePackage::from_request(&req("test-package"), "0.1.1")];
    let changeset = PackageChangeSet::add_packages(&[req("test-package@0.1.0")], &installed).unwrap();
    assert!(changeset.added_packages().is_empty());
    assert_eq!(changeset.changed_packages(), vec![req("test-package@0.1.0")]);
}

#[test]
fn test_available_update_compares_versions_not_text() {
    let installed = WorkspacePackage::from_request(&req("foo"), "0.10.0");
    assert!(installed.available_update(&["0.9.0".to_string()]).is_none());
    let older = WorkspacePackage::from_request(&req("foo"), "0.9.0");
    let update = older.available_update(&["0.9.0".to_string(), "0.10.0".to_string()]).unwrap();
    assert_eq!(update.version, "0.10.0");
}

#[test]
fn test_resolve_known_version_picks_newest_in_any_order() {
    let known = ["0.9.0".to_string(), "0.10.0".to_string(), "0.2".to_string()];
    assert_eq!(req("foo").resolve_known_version(&known).unwrap().version, "0.10.0");
    assert_eq!(req("foo@~0.9").resolve_known_version(&known).unwrap().version, "0.9.0");
}
