//! The decisions that the command-line commands make: which workspace they act on, what
//! they refuse, and what they tell the user.
use vstd::prelude::*;

use crate::package::{PackageRequest, WorkspacePackage};
use crate::text::{concat, find_char, first_index_of, lemma_first_index_of, prefix_to, str_eq, suffix_from};
use crate::text::join_with;
use crate::util::{is_file_system_safe, is_safe_name};
use crate::version_order::{law_split_on, split_on};
use crate::version::{parse_request, RequestView};

verus! {

/// The workspace that commands use when none is named.
pub const GLOBAL_WORKSPACE: &'static str = "global";

/// Why a command refuses to run.
#[derive(Debug, Clone, PartialEq, Eq)]
pub enum CommandError {
    /// A workspace name holds chars that cannot be used in a path.
    InvalidWorkspaceName,
    /// A workspace of this name already exists.
    WorkspaceExists(String),
    /// No workspace has this name.
    WorkspaceDoesNotExist(String),
    /// The global workspace cannot be removed.
    CannotRemoveGlobalWorkspace,
}

impl CommandError {
    /// The error message.
    pub open spec fn message(self) -> Seq<char> {
        match self {
            CommandError::InvalidWorkspaceName => "workspace names can contain [a-zA-Z0-9._-] only"@,
            CommandError::WorkspaceExists(n) => "workspace "@ + n@ + " already exists"@,
            CommandError::WorkspaceDoesNotExist(n) => "workspace "@ + n@ + " does not exist"@,
            CommandError::CannotRemoveGlobalWorkspace => "cannot remove global workspace"@,
        }
    }

    /// The error message.
    pub fn to_display_string(&self) -> (r: String)
        ensures
            r@ == self.message(),
    {
        match self {
            CommandError::InvalidWorkspaceName => "workspace names can contain [a-zA-Z0-9._-] only".to_owned(),
            CommandError::WorkspaceExists(n) => {
                let mut s = concat("workspace ", n.as_str());
                s.append(" already exists");
                s
            },
            CommandError::WorkspaceDoesNotExist(n) => {
                let mut s = concat("workspace ", n.as_str());
                s.append(" does not exist");
                s
            },
            CommandError::CannotRemoveGlobalWorkspace => "cannot remove global workspace".to_owned(),
        }
    }
}

/// The workspace a command acts on: the one named, or the global one when the name is
/// empty.
pub fn workspace_name_or_global(name: &str) -> (r: String)
    ensures
        r@ == if name@.len() == 0 {
            GLOBAL_WORKSPACE@
        } else {
            name@
        },
{
    if name.unicode_len() == 0 {
        GLOBAL_WORKSPACE.to_owned()
    } else {
        name.to_owned()
    }
}

/// A workspace may be added when its name is safe in a path and no workspace has it
/// (`exists`).
pub fn check_new_workspace(name: &str, exists: bool) -> (r: Result<(), CommandError>)
    ensures
        !is_safe_name(name@) ==> r == Err::<(), CommandError>(CommandError::InvalidWorkspaceName),
        is_safe_name(name@) && exists ==> (r matches Err(CommandError::WorkspaceExists(n)) && n@
            == name@),
        is_safe_name(name@) && !exists ==> r is Ok,
{
    if !is_file_system_safe(name) {
        return Err(CommandError::InvalidWorkspaceName);
    }
    if exists {
        return Err(CommandError::WorkspaceExists(name.to_owned()));
    }
    Ok(())
}

/// A workspace may be removed when it is not the global one and it exists (`exists`).
pub fn check_workspace_removal(name: &str, exists: bool) -> (r: Result<(), CommandError>)
    ensures
        name@ == GLOBAL_WORKSPACE@ ==> r == Err::<(), CommandError>(
            CommandError::CannotRemoveGlobalWorkspace,
        ),
        name@ != GLOBAL_WORKSPACE@ && !exists ==> (r matches Err(
            CommandError::WorkspaceDoesNotExist(n),
        ) && n@ == name@),
        name@ != GLOBAL_WORKSPACE@ && exists ==> r is Ok,
{
    if str_eq(name, GLOBAL_WORKSPACE) {
        return Err(CommandError::CannotRemoveGlobalWorkspace);
    }
    if !exists {
        return Err(CommandError::WorkspaceDoesNotExist(name.to_owned()));
    }
    Ok(())
}

/// The entries of a `PATH`-like list: the text between the `:`s.
pub open spec fn path_entries(path: Seq<char>) -> Seq<Seq<char>>
    decreases path.len(),
{
    let k = first_index_of(path, ':');
    proof {
        lemma_first_index_of(path, ':');
    }
    if k >= path.len() {
        seq![path]
    } else {
        seq![path.subrange(0, k)] + path_entries(path.subrange(k + 1, path.len() as int))
    }
}

/// The entries of a `PATH`-like list are its pieces between the `:`s: no entry holds a
/// `:`, and joining them with `:` gives the list back.
pub proof fn law_path_entries_split_at_colons(path: Seq<char>)
    ensures
        path_entries(path) == split_on(path, ':'),
        forall|i: int|
            0 <= i < path_entries(path).len() ==> !(#[trigger] path_entries(path)[i]).contains(':'),
        join_with(path_entries(path), seq![':']) == path,
    decreases path.len(),
{
    let k = first_index_of(path, ':');
    lemma_first_index_of(path, ':');
    if k < path.len() {
        law_path_entries_split_at_colons(path.subrange(k + 1, path.len() as int));
    }
    law_split_on(path, ':');
}

/// Returns true when `dir` is one of the entries of `path`.
pub fn path_contains(path: &str, dir: &str) -> (r: bool)
    ensures
        r == path_entries(path@).contains(dir@),
{
    let mut rest = path.to_owned();
    loop
        invariant
            path_entries(path@).contains(dir@) == path_entries(rest@).contains(dir@),
        decreases rest@.len(),
    {
        let n = rest.unicode_len();
        let k = find_char(rest.as_str(), ':');
        proof {
            lemma_first_index_of(rest@, ':');
        }
        let entry = prefix_to(rest.as_str(), k);
        let ghost entries = path_entries(rest@);
        if str_eq(entry.as_str(), dir) {
            assert(entries[0] == entry@);
            return true;
        }
        if k == n {
            assert(entry@ =~= rest@);
            assert(entries =~= seq![rest@]);
            assert(!entries.contains(dir@)) by {
                if entries.contains(dir@) {
                    let j = choose|j: int| 0 <= j < entries.len() && entries[j] == dir@;
                    assert(j == 0);
                }
            };
            return false;
        }
        let next = suffix_from(rest.as_str(), k + 1);
        assert(entries =~= seq![entry@] + path_entries(next@));
        assert(entries.contains(dir@) == path_entries(next@).contains(dir@)) by {
            if entries.contains(dir@) {
                let j = choose|j: int| 0 <= j < entries.len() && entries[j] == dir@;
                assert(j > 0);
                assert(path_entries(next@)[j - 1] == dir@);
            }
            if path_entries(next@).contains(dir@) {
                let j = choose|j: int| 0 <= j < path_entries(next@).len() && path_entries(next@)[j] == dir@;
                assert(entries[j + 1] == dir@);
            }
        };
        rest = next;
    }
}

/// The `PATH` of a workspace shell: the bin directory of the workspace, then the
/// current `PATH`.
pub fn patched_path(bin_dir: &str, path: &str) -> (r: String)
    ensures
        r@ == bin_dir@ + ":"@ + path@,
{
    let mut s = concat(bin_dir, ":");
    s.append(path);
    s
}

/// The warning shown after an install when the bin directory of the workspace is not in
/// `PATH`.
pub open spec fn path_warning(bin_dir: Seq<char>) -> Seq<char> {
    "Warning: the workspace bin directory is not in $PATH.\nAdd this to your shell's configuration file:\n\nexport PATH="@
        + bin_dir + ":$PATH"@
}

/// The warning to show for `bin_dir` with the current `path`: none when `path` lists it.
pub fn path_warning_for(path: &str, bin_dir: &str) -> (r: Option<String>)
    ensures
        path_entries(path@).contains(bin_dir@) ==> r is None,
        !path_entries(path@).contains(bin_dir@) ==> (r matches Some(w) && w@ == path_warning(
            bin_dir@,
        )),
{
    if path_contains(path, bin_dir) {
        None
    } else {
        let mut s = concat(
            "Warning: the workspace bin directory is not in $PATH.\nAdd this to your shell's configuration file:\n\nexport PATH=",
            bin_dir,
        );
        s.append(":$PATH");
        Some(s)
    }
}

/// The names of the workspace packages.
pub open spec fn workspace_package_names(ws: Seq<WorkspacePackage>) -> Seq<Seq<char>> {
    ws.map_values(|p: WorkspacePackage| p.name@)
}

/// The packages an update acts on: the ones named, or every package of the workspace when
/// none is named.
pub fn update_targets(pkgs: &[String], installed: &[WorkspacePackage]) -> (r: Vec<String>)
    ensures
        pkgs@.len() > 0 ==> r.deep_view() == pkgs.deep_view(),
        pkgs@.len() == 0 ==> r.deep_view() == workspace_package_names(installed@),
{
    let mut out: Vec<String> = Vec::new();
    if pkgs.len() > 0 {
        for i in 0..pkgs.len()
            invariant
                out.deep_view() == pkgs.deep_view().take(i as int),
        {
            let ghost before = out.deep_view();
            out.push(pkgs[i].clone());
            assert(out.deep_view() =~= before.push(pkgs@[i as int]@));
            assert(out.deep_view() =~= pkgs.deep_view().take(i + 1));
        }
        assert(pkgs.deep_view().take(pkgs.len() as int) =~= pkgs.deep_view());
    } else {
        for i in 0..installed.len()
            invariant
                out.deep_view() == workspace_package_names(installed@).take(i as int),
        {
            let ghost before = out.deep_view();
            out.push(installed[i].name.clone());
            assert(out.deep_view() =~= before.push(installed@[i as int].name@));
            assert(out.deep_view() =~= workspace_package_names(installed@).take(i + 1));
        }
        assert(workspace_package_names(installed@).take(installed.len() as int)
            =~= workspace_package_names(installed@));
    }
    out
}

/// Reads every package request of a command line.
pub fn parse_requests(pkgs: &[String]) -> (r: Vec<PackageRequest>)
    ensures
        r.deep_view() == pkgs.deep_view().map_values(|s: Seq<char>| parse_request(s)),
{
    let ghost want = pkgs.deep_view().map_values(|s: Seq<char>| parse_request(s));
    let mut out: Vec<PackageRequest> = Vec::new();
    for i in 0..pkgs.len()
        invariant
            want == pkgs.deep_view().map_values(|s: Seq<char>| parse_request(s)),
            out.deep_view() == want.take(i as int),
    {
        let ghost before = out.deep_view();
        let req = PackageRequest::parse(pkgs[i].as_str());
        out.push(req);
        assert(out.deep_view() =~= before.push(req@));
        assert(out.deep_view() =~= want.take(i + 1));
    }
    assert(want.take(pkgs.len() as int) =~= want);
    out
}

/// What is shown once a package is removed from a workspace.
pub fn uninstalled_message(pkg: &WorkspacePackage) -> (r: String)
    ensures
        r@ == "Uninstalled "@ + pkg.name@ + "@"@ + pkg.version@ + " (resolved from "@
            + pkg.requested_version@.display() + ")"@,
{
    concat("Uninstalled ", pkg.to_display_string().as_str())
}

} // verus!
