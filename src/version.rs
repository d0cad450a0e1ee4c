use vstd::prelude::*;

verus! {

/// The value of the lowest version.
pub const MIN_VERSION: i64 = 0;

/// The value of the highest version.
pub const MAX_VERSION: i64 = i64::MAX;

/// Identifier of a migration step: a plain integer, totally ordered by value. Verified
/// code compares versions by their integers.
#[derive(Debug, Clone, Copy, PartialEq, Eq, Structural, PartialOrd, Ord, Hash)]
pub struct Version(pub i64);

impl Version {
    /// The lowest version; a walk over no step reports it.
    pub fn lowest() -> (r: Version)
        ensures
            r.0 == MIN_VERSION,
    {
        Version(MIN_VERSION)
    }

    /// The highest version; migrating up to it runs every registered step.
    pub fn highest() -> (r: Version)
        ensures
            r.0 == MAX_VERSION,
    {
        Version(MAX_VERSION)
    }

    /// The integer this version stands for.
    pub fn value(&self) -> (r: i64)
        ensures
            r == self.0,
    {
        self.0
    }
}

} // verus!
