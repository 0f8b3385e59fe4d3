//! Document metadata types.

use vstd::prelude::*;

verus! {

/// Metadata for the project.
#[derive(Debug, Clone, PartialEq, Eq)]
pub struct Project {
    pub id: String,
    pub name: String,
    pub author: Option<String>,
}

/// The kind of a page safe zone.
#[derive(Debug, Clone, Copy, PartialEq, Eq, Structural)]
pub enum SafeZoneType {
    /// Content must NOT overlap this zone (e.g. a platform UI dead zone).
    Exclusion,
    /// Content must overlap this zone (e.g. a guaranteed-visible region).
    Required,
}

} // verus!
