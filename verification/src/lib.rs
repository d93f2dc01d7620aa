//! Matcha: a peaceful package manager, as a verified library.
use vstd::prelude::*;

pub mod text;
pub mod version;
pub mod error;
pub mod package;
pub mod manifest;
pub mod dependencies;
pub mod util;
pub mod adapters;
pub mod workspace;
pub mod registry;
pub mod download;
pub mod command;
pub mod state;
pub mod version_order;

verus! {

} // verus!
