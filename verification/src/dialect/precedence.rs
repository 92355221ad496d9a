//! The precedence of versions under Semantic Versioning 2.0.0.
//!
//! Versions are ordered by major, minor and patch number, as numbers. Of two
//! versions with the same numbers a prerelease comes before the release, and
//! two prereleases are ordered by their components from left to right. Build
//! metadata takes no part in it.

use crate::component::order::components_precede;
use crate::version::VersionView;
use std::cmp::Ordering;
use vstd::prelude::*;

verus! {

/// Whether the version `a` comes strictly before the version `b`.
pub open spec fn precedes(a: VersionView, b: VersionView) -> bool {
    if a.major != b.major {
        a.major < b.major
    } else if a.minor != b.minor {
        a.minor < b.minor
    } else if a.patch != b.patch {
        a.patch < b.patch
    } else {
        match (a.prerelease, b.prerelease) {
            (Some(x), Some(y)) => components_precede(x, y),
            (Some(_), None) => true,
            (None, _) => false,
        }
    }
}

/// Whether the versions `a` and `b` are the same but for their build
/// metadata and the dialect they were read under.
pub open spec fn same(a: VersionView, b: VersionView) -> bool {
    &&& a.major == b.major
    &&& a.minor == b.minor
    &&& a.patch == b.patch
    &&& a.prerelease == b.prerelease
}

/// How the version `a` stands to the version `b`.
pub open spec fn order(a: VersionView, b: VersionView) -> Ordering {
    if precedes(a, b) {
        Ordering::Less
    } else if same(a, b) {
        Ordering::Equal
    } else {
        Ordering::Greater
    }
}

} // verus!
