//! Typed records produced by the external vendor-index parser.

use vstd::prelude::*;

verus! {

/// An entry of a vendor index pointing at a pack descriptor. Transient:
/// these stream from the parser into the store and are never persisted.
pub struct PdscRef {
    /// Directory or file URL under which the descriptor is published.
    pub url: String,
    pub vendor: String,
    pub name: String,
    /// Free-form version text; the identity key uses it verbatim.
    pub version: String,
}

/// An entry of a vendor index referring to another vendor index. The current
/// design does not expand these recursively; they are only logged.
pub struct VidxRef {
    pub url: String,
    pub vendor: String,
    pub timestamp: Option<String>,
}

/// The part of a parsed pack descriptor that the install pipeline reads:
/// its identity, its publication URL, and its release versions, newest
/// first.
pub struct Package {
    pub vendor: String,
    pub name: String,
    pub url: String,
    /// Versions of the published releases, newest first. A descriptor
    /// without releases describes nothing installable.
    pub releases: Vec<String>,
}

impl Package {
    /// The version of the newest release.
    pub fn latest_release(&self) -> (r: &String)
        requires
            self.releases@.len() > 0,
        ensures
            r == self.releases@[0],
    {
        &self.releases[0]
    }
}

} // verus!
