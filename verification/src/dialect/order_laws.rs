//! The precedence of versions is a strict total order on versions taken
//! without their build metadata, and agrees with their equality.

use crate::component::order::{component_order, lemma_component_order_is_strict_total};
use crate::dialect::precedence::{order, precedes, same};
use crate::lexicographic::{
    lemma_precedes_asymmetric, lemma_precedes_irreflexive, lemma_precedes_total,
    lemma_precedes_transitive,
};
use crate::version::VersionView;
use std::cmp::Ordering;
use vstd::prelude::*;

verus! {

/// No version comes before itself.
pub proof fn lemma_precedes_is_irreflexive(a: VersionView)
    ensures
        !precedes(a, a),
{
    if let Some(components) = a.prerelease {
        lemma_precedes_irreflexive(components, component_order());
    }
}

/// No two versions come before each other.
pub proof fn lemma_precedes_is_asymmetric(a: VersionView, b: VersionView)
    requires
        precedes(a, b),
    ensures
        !precedes(b, a),
{
    lemma_component_order_is_strict_total();
    if let (Some(x), Some(y)) = (a.prerelease, b.prerelease) {
        if a.major == b.major && a.minor == b.minor && a.patch == b.patch {
            lemma_precedes_asymmetric(x, y, component_order());
        }
    }
}

/// A version that comes before a second comes before all that the second
/// comes before.
pub proof fn lemma_precedes_is_transitive(a: VersionView, b: VersionView, c: VersionView)
    requires
        precedes(a, b),
        precedes(b, c),
    ensures
        precedes(a, c),
{
    lemma_component_order_is_strict_total();
    if let (Some(x), Some(y), Some(z)) = (a.prerelease, b.prerelease, c.prerelease) {
        if a.major == b.major && a.minor == b.minor && a.patch == b.patch && b.major == c.major
            && b.minor == c.minor && b.patch == c.patch {
            lemma_precedes_transitive(x, y, z, component_order());
        }
    }
}

/// Of two versions that are not the same, one comes before the other.
pub proof fn lemma_precedes_is_total(a: VersionView, b: VersionView)
    requires
        !same(a, b),
    ensures
        precedes(a, b) || precedes(b, a),
{
    lemma_component_order_is_strict_total();
    if let (Some(x), Some(y)) = (a.prerelease, b.prerelease) {
        if a.major == b.major && a.minor == b.minor && a.patch == b.patch {
            lemma_precedes_total(x, y, component_order());
        }
    }
}

/// The order of two versions is `Equal` where the two are the same and
/// nowhere else, and turning the two around turns `Less` and `Greater`
/// around.
pub proof fn lemma_order_agrees_with_same(a: VersionView, b: VersionView)
    ensures
        order(a, b) == Ordering::Equal <==> same(a, b),
        order(a, b) == Ordering::Less <==> precedes(a, b),
        order(a, b) == Ordering::Greater <==> precedes(b, a),
        order(a, b) == Ordering::Less <==> order(b, a) == Ordering::Greater,
        order(a, b) == Ordering::Equal <==> order(b, a) == Ordering::Equal,
{
    if same(a, b) {
        lemma_precedes_is_irreflexive(a);
        assert(!precedes(a, b) && !precedes(b, a)) by {
            if let Some(components) = a.prerelease {
                lemma_precedes_irreflexive(components, component_order());
            }
        }
    } else {
        lemma_precedes_is_total(a, b);
    }
    if precedes(a, b) {
        lemma_precedes_is_asymmetric(a, b);
    }
    if precedes(b, a) {
        lemma_precedes_is_asymmetric(b, a);
    }
}

/// The order of versions is transitive: through `Less`, and through `Equal`
/// on either side.
pub proof fn lemma_order_is_transitive(a: VersionView, b: VersionView, c: VersionView)
    ensures
        order(a, b) == Ordering::Less && order(b, c) == Ordering::Less ==> order(a, c)
            == Ordering::Less,
        order(a, b) == Ordering::Equal ==> order(a, c) == order(b, c),
        order(b, c) == Ordering::Equal ==> order(a, b) == order(a, c),
{
    if precedes(a, b) && precedes(b, c) {
        lemma_precedes_is_transitive(a, b, c);
    }
}

/// Build metadata takes no part in the equality or in the order of versions:
/// putting other build metadata into either version changes neither.
pub proof fn lemma_build_metadata_is_ignored(
    a: VersionView,
    b: VersionView,
    metadata_a: Option<Seq<char>>,
    metadata_b: Option<Seq<char>>,
)
    ensures
        ({
            let other_a = VersionView { build_metadata: metadata_a, ..a };
            let other_b = VersionView { build_metadata: metadata_b, ..b };
            &&& other_a.equals(other_b) == a.equals(b)
            &&& other_a.compare(other_b) == a.compare(b)
        }),
{
}

/// Versions that were read under different dialects are never equal and
/// never ordered; versions of one dialect are always ordered.
pub proof fn lemma_dialects_do_not_mix(a: VersionView, b: VersionView)
    ensures
        a.equals(b) ==> a.dialect == b.dialect,
        a.compare(b) is Some <==> a.dialect == b.dialect,
        a.dialect != b.dialect ==> !a.equals(b) && a.compare(b) is None,
{
}

/// Equal versions are those that are ordered as `Equal`.
pub proof fn lemma_equality_agrees_with_order(a: VersionView, b: VersionView)
    ensures
        a.equals(b) <==> a.compare(b) == Some(Ordering::Equal),
{
    lemma_order_agrees_with_same(a, b);
}

} // verus!
