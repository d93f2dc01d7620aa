use matcha::command::{
    check_new_workspace, check_workspace_removal, parse_requests, patched_path, path_contains,
    path_warning_for, uninstalled_message, update_targets, workspace_name_or_global, CommandError,
};
use matcha::package::{PackageRequest, VersionSpec, WorkspacePackage};

#[test]
fn test_get_create_workspace_defaults_to_global() {
    assert_eq!(workspace_name_or_global(""), "global");
    assert_eq!(workspace_name_or_global("test"), "test");
}

#[test]
fn test_cannot_use_invalid_workspace_name() {
    let err = check_new_workspace("test/workspace", false).unwrap_err();
    assert_eq!(err, CommandError::InvalidWorkspaceName);
    assert!(err.to_display_string().contains("workspace names can contain"));
}

#[test]
fn test_cannot_add_duplicate_workspace() {
    let err = check_new_workspace("test-workspace", true).unwrap_err();
    assert!(err.to_display_string().contains("workspace test-workspace already exists"));
    assert!(check_new_workspace("test-workspace", false).is_ok());
}

#[test]
fn test_cannot_remove_global_workspace() {
    let err = check_workspace_removal("global", true).unwrap_err();
    assert_eq!(err.to_display_string(), "cannot remove global workspace");
}

#[test]
fn test_cannot_remove_unknown_workspace() {
    let err = check_workspace_removal("unknown", false).unwrap_err();
    assert!(err.to_display_string().contains("workspace unknown does not exist"));
    assert!(check_workspace_removal("unknown", true).is_ok());
}

#[test]
fn test_path_contains() {
    assert!(path_contains("/usr/bin:/ws/global/bin", "/ws/global/bin"));
    assert!(path_contains("/ws/global/bin", "/ws/global/bin"));
    assert!(!path_contains("/usr/bin:/ws/global/bin2", "/ws/global/bin"));
    assert!(!path_contains("", "/ws/global/bin"));
    assert!(path_contains("/a::/b", ""));
    assert!(!path_contains("/a:/b", "/a:/b"));
}

#[test]
fn test_patched_path_and_warning() {
    assert_eq!(patched_path("/ws/bin", "/usr/bin"), "/ws/bin:/usr/bin");
    assert_eq!(path_warning_for("/usr/bin:/ws/bin", "/ws/bin"), None);
    assert_eq!(
        path_warning_for("/usr/bin", "/ws/bin").unwrap(),
        "Warning: the workspace bin directory is not in $PATH.\nAdd this to your shell's configuration file:\n\nexport PATH=/ws/bin:$PATH"
    );
}

#[test]
fn test_update_targets() {
    let installed = [
        WorkspacePackage::from_request(&"foo".parse::<PackageRequest>().unwrap(), "1"),
        WorkspacePackage::from_request(&"bar@2".parse::<PackageRequest>().unwrap(), "2"),
    ];
    assert_eq!(update_targets(&[], &installed), vec!["foo".to_string(), "bar".to_string()]);
    assert_eq!(update_targets(&["baz".to_string()], &installed), vec!["baz".to_string()]);
}

#[test]
fn test_parse_requests_and_messages() {
    let reqs = parse_requests(&["test-package@0.1.0".to_string(), "another-package".to_string()]);
    assert_eq!(reqs.len(), 2);
    assert_eq!(reqs[0].version, VersionSpec::exact("0.1.0"));
    assert_eq!(reqs[1].version, VersionSpec::Any);
    let w = WorkspacePackage::from_request(&reqs[0], "0.1.0");
    assert_eq!(
        uninstalled_message(&w),
        "Uninstalled test-package@0.1.0 (resolved from 0.1.0)"
    );
}
