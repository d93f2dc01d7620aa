//! Workspaces: places that can have packages installed.
use vstd::prelude::*;

use crate::adapters::{expand_tilde, joined_path, path_join, tilde_expansion_of};

verus! {

/// Why a workspace directory cannot be given.
#[derive(Debug, Clone, Copy, PartialEq, Eq)]
pub enum WorkspaceError {
    /// The directory that holds the workspaces is not set.
    RootUninitialized,
}

/// A place that can have packages installed.
#[derive(Debug, Clone)]
pub struct Workspace {
    /// The name of the workplace.
    pub name: String,
}

impl Default for Workspace {
    fn default() -> (r: Self)
        ensures
            r.name@ == "default"@,
    {
        Workspace { name: "default".to_owned() }
    }
}

impl Workspace {
    /// A workspace of the given name. The directories of a workspace are created by
    /// whoever installs into it.
    pub fn new(name: &str) -> (r: Self)
        ensures
            r.name@ == name@,
    {
        Workspace { name: name.to_owned() }
    }

    /// Returns the directory of the workspace: its name joined to the directory that holds
    /// the workspaces, with a leading `~` expanded. Fails if that directory is not set.
    pub fn directory(&self, workspace_root: Option<&str>) -> (r: Result<String, WorkspaceError>)
        ensures
            match workspace_root {
                None => r == Err::<String, WorkspaceError>(WorkspaceError::RootUninitialized),
                Some(root) => r matches Ok(d) && tilde_expansion_of(joined_path(root@, self.name@), d@),
            },
    {
        match workspace_root {
            None => Err(WorkspaceError::RootUninitialized),
            Some(root) => {
                let joined = path_join(root, self.name.as_str());
                Ok(expand_tilde(joined.as_str()))
            },
        }
    }

    /// Returns the bin directory of the workspace: `bin` joined to its directory.
    pub fn bin_directory(&self, workspace_root: Option<&str>) -> (r: Result<String, WorkspaceError>)
        ensures
            match workspace_root {
                None => r == Err::<String, WorkspaceError>(WorkspaceError::RootUninitialized),
                Some(root) => r matches Ok(b) && exists|d: Seq<char>|
                    tilde_expansion_of(joined_path(root@, self.name@), d) && b@ == joined_path(
                        d,
                        "bin"@,
                    ),
            },
    {
        let dir = self.directory(workspace_root)?;
        Ok(path_join(dir.as_str(), "bin"))
    }

    /// The name of the workspace, as it is shown.
    pub fn to_display_string(&self) -> (r: String)
        ensures
            r@ == self.name@,
    {
        self.name.clone()
    }
}

} // verus!
