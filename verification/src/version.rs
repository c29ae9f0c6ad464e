//! Semantic versions and the ordering the catalog uses to decide
//! whether an update is available.

use vstd::prelude::*;

verus! {

/// A semantic version triple. Ordering is lexicographic: major first,
/// then minor, then patch.
#[derive(Clone, Copy, Debug, PartialEq, Eq, Structural)]
pub struct Version {
    pub major: u64,
    pub minor: u64,
    pub patch: u64,
}

impl Version {
    /// `self` is strictly older than `other` in lexicographic order.
    pub open spec fn spec_lt(self, other: Version) -> bool {
        ||| self.major < other.major
        ||| (self.major == other.major && self.minor < other.minor)
        ||| (self.major == other.major && self.minor == other.minor && self.patch < other.patch)
    }

    /// Decides whether `self` is strictly older than `other`: the first
    /// component where the two differ wins.
    pub fn lt(&self, other: &Version) -> (r: bool)
        ensures
            r == self.spec_lt(*other),
    {
        if self.major < other.major {
            true
        } else if self.major == other.major && self.minor < other.minor {
            true
        } else if self.major == other.major && self.minor == other.minor
            && self.patch < other.patch {
            true
        } else {
            false
        }
    }
}

} // verus!
