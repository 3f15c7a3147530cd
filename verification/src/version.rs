//! Schema versioning for forward compatibility.

use vstd::prelude::*;
use crate::SCHEMA_VERSION;

verus! {

/// Schema version information embedded in snapshots.
///
/// Consumers use it to detect and handle format changes gracefully:
/// two versions are compatible exactly when their major numbers agree.
#[derive(Debug, Clone, Copy, PartialEq, Eq, Hash, Structural)]
pub struct SchemaVersion {
    /// Major version - breaking changes increment this.
    pub major: u32,
    /// Minor version - backwards-compatible additions increment this.
    pub minor: u32,
}

impl SchemaVersion {
    /// Create a new schema version.
    pub fn new(major: u32, minor: u32) -> (v: SchemaVersion)
        ensures
            v.major == major,
            v.minor == minor,
    {
        SchemaVersion { major, minor }
    }

    /// The current schema version used by this library.
    pub fn current() -> (v: SchemaVersion)
        ensures
            v.major == SCHEMA_VERSION,
            v.minor == 0,
    {
        SchemaVersion { major: SCHEMA_VERSION, minor: 0 }
    }

    /// Check if this version is compatible with the current library version:
    /// true if and only if the major version matches.
    pub fn is_compatible(&self) -> (r: bool)
        ensures
            r == (self.major == SCHEMA_VERSION),
    {
        self.major == SCHEMA_VERSION
    }
}

impl Default for SchemaVersion {
    /// The default version is the current one.
    fn default() -> (v: SchemaVersion)
        ensures
            v.major == SCHEMA_VERSION,
            v.minor == 0,
    {
        SchemaVersion::current()
    }
}

} // verus!
