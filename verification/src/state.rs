//! The checks that the state database makes on what it loads and stores.
use vstd::prelude::*;

use crate::manifest::Package;
use vstd::string::StrSliceExecFns;

use crate::text::{concat, decimal_i64, parse_i64};

verus! {

/// The newest schema of the state database that this library reads.
pub const SCHEMA_VERSION: i64 = 1;

/// Why the state database refuses what it loads or stores.
#[derive(Debug, Clone, PartialEq, Eq)]
pub enum StateError {
    /// The stored schema version is not an integer.
    UnparsableSchemaVersion,
    /// The stored schema version (given here) is newer than this library reads.
    UnsupportedSchemaVersion(String),
    /// A package to store as known is not tied to a registry.
    UntiedKnownPackage,
}

impl StateError {
    /// The error message.
    pub open spec fn message(self) -> Seq<char> {
        match self {
            StateError::UnparsableSchemaVersion => "failed to parse database schema version"@,
            StateError::UnsupportedSchemaVersion(v) => "unsupported database schema version "@ + v@,
            StateError::UntiedKnownPackage => "known packages must be tied to a registry; this is a bug"@,
        }
    }

    /// The error message.
    pub fn to_display_string(&self) -> (r: String)
        ensures
            r@ == self.message(),
    {
        match self {
            StateError::UnparsableSchemaVersion => "failed to parse database schema version".to_owned(),
            StateError::UnsupportedSchemaVersion(v) => concat("unsupported database schema version ", v.as_str()),
            StateError::UntiedKnownPackage => "known packages must be tied to a registry; this is a bug".to_owned(),
        }
    }
}

/// Checks the schema version that a database stores, once read as an integer
/// (`parsed`).
pub fn check_parsed_schema_version(parsed: Option<i64>, version: &str) -> (r: Result<i64, StateError>)
    ensures
        match r {
            Ok(n) => parsed == Some(n) && n <= SCHEMA_VERSION,
            Err(e) => match parsed {
                None => e == StateError::UnparsableSchemaVersion,
                Some(n) => n > SCHEMA_VERSION && (e matches StateError::UnsupportedSchemaVersion(v) && v@ == version@),
            },
        },
        parsed matches Some(n) && n <= SCHEMA_VERSION ==> r == Ok::<i64, StateError>(parsed->0),
{
    match parsed {
        None => Err(StateError::UnparsableSchemaVersion),
        Some(n) => if n > SCHEMA_VERSION {
            Err(StateError::UnsupportedSchemaVersion(version.to_owned()))
        } else {
            Ok(n)
        },
    }
}

/// Checks the schema version that a database stores: it is read as an integer, and must
/// not be newer than [`SCHEMA_VERSION`].
pub fn check_schema_version(version: &str) -> (r: Result<i64, StateError>)
    ensures
        match r {
            Ok(n) => decimal_i64(version@) == Some(n) && n <= SCHEMA_VERSION,
            Err(e) => match decimal_i64(version@) {
                None => e == StateError::UnparsableSchemaVersion,
                Some(n) => n > SCHEMA_VERSION && (e matches StateError::UnsupportedSchemaVersion(v) && v@ == version@),
            },
        },
{
    check_parsed_schema_version(parse_i64(version), version)
}

impl Package {
    /// The package names the registry it comes from.
    pub fn is_tied_to_registry(&self) -> (r: bool)
        ensures
            r == (self.registry@.len() > 0),
    {
        self.registry.as_str().unicode_len() > 0
    }
}

/// Packages may be stored as known only when every one is tied to a registry.
pub fn check_known_packages_tied(pkgs: &[Package]) -> (r: Result<(), StateError>)
    ensures
        r is Ok <==> forall|i: int| 0 <= i < pkgs.len() ==> (#[trigger] pkgs@[i]).registry@.len() > 0,
        r is Err ==> r == Err::<(), StateError>(StateError::UntiedKnownPackage),
{
    for i in 0..pkgs.len()
        invariant
            forall|j: int| 0 <= j < i ==> (#[trigger] pkgs@[j]).registry@.len() > 0,
    {
        if !pkgs[i].is_tied_to_registry() {
            return Err(StateError::UntiedKnownPackage);
        }
    }
    Ok(())
}

} // verus!
