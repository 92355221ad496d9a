//! The lexicographic order of sequences, over any order of their elements.

use vstd::prelude::*;

verus! {

/// Whether `a` comes strictly before `b` in the lexicographic order that
/// `less` gives rise to: at the first place where the two differ, `a` holds
/// the lesser element, or `a` ends there and `b` goes on.
pub open spec fn precedes<T>(a: Seq<T>, b: Seq<T>, less: spec_fn(T, T) -> bool) -> bool
    decreases a.len(),
{
    if b.len() == 0 {
        false
    } else if a.len() == 0 {
        true
    } else if a[0] == b[0] {
        precedes(a.drop_first(), b.drop_first(), less)
    } else {
        less(a[0], b[0])
    }
}

/// Whether no element comes before itself.
pub open spec fn is_irreflexive<T>(less: spec_fn(T, T) -> bool) -> bool {
    forall|x: T| !#[trigger] less(x, x)
}

/// Whether no two elements come before each other.
pub open spec fn is_asymmetric<T>(less: spec_fn(T, T) -> bool) -> bool {
    forall|x: T, y: T| #[trigger] less(x, y) ==> !less(y, x)
}

/// Whether an element that comes before a second comes before all that the
/// second comes before.
pub open spec fn is_transitive<T>(less: spec_fn(T, T) -> bool) -> bool {
    forall|x: T, y: T, z: T| #[trigger] less(x, y) && #[trigger] less(y, z) ==> less(x, z)
}

/// Whether of two different elements one comes before the other.
pub open spec fn is_total<T>(less: spec_fn(T, T) -> bool) -> bool {
    forall|x: T, y: T| x != y ==> #[trigger] less(x, y) || less(y, x)
}

/// Skipping a common beginning changes nothing.
pub proof fn lemma_precedes_skip<T>(a: Seq<T>, b: Seq<T>, less: spec_fn(T, T) -> bool, n: int)
    requires
        0 <= n <= a.len(),
        n <= b.len(),
        a.take(n) == b.take(n),
    ensures
        precedes(a, b, less) == precedes(a.skip(n), b.skip(n), less),
    decreases n,
{
    if n == 0 {
        assert(a.skip(0) =~= a);
        assert(b.skip(0) =~= b);
    } else {
        assert(a[0] == a.take(n)[0]);
        assert(b[0] == b.take(n)[0]);
        assert(a.drop_first().take(n - 1) =~= a.take(n).drop_first());
        assert(b.drop_first().take(n - 1) =~= b.take(n).drop_first());
        lemma_precedes_skip(a.drop_first(), b.drop_first(), less, n - 1);
        assert(a.drop_first().skip(n - 1) =~= a.skip(n));
        assert(b.drop_first().skip(n - 1) =~= b.skip(n));
    }
}

/// No sequence comes before itself.
pub proof fn lemma_precedes_irreflexive<T>(a: Seq<T>, less: spec_fn(T, T) -> bool)
    ensures
        !precedes(a, a, less),
    decreases a.len(),
{
    if a.len() > 0 {
        lemma_precedes_irreflexive(a.drop_first(), less);
    }
}

/// No two sequences come before each other.
pub proof fn lemma_precedes_asymmetric<T>(a: Seq<T>, b: Seq<T>, less: spec_fn(T, T) -> bool)
    requires
        is_asymmetric(less),
        precedes(a, b, less),
    ensures
        !precedes(b, a, less),
    decreases a.len(),
{
    if a.len() > 0 && b.len() > 0 && a[0] == b[0] {
        lemma_precedes_asymmetric(a.drop_first(), b.drop_first(), less);
    }
}

/// A sequence that comes before a second comes before all that the second
/// comes before.
pub proof fn lemma_precedes_transitive<T>(
    a: Seq<T>,
    b: Seq<T>,
    c: Seq<T>,
    less: spec_fn(T, T) -> bool,
)
    requires
        is_transitive(less),
        is_asymmetric(less),
        precedes(a, b, less),
        precedes(b, c, less),
    ensures
        precedes(a, c, less),
    decreases a.len(),
{
    if a.len() > 0 {
        if a[0] == b[0] && b[0] == c[0] {
            lemma_precedes_transitive(a.drop_first(), b.drop_first(), c.drop_first(), less);
        } else if a[0] != b[0] && b[0] != c[0] {
            assert(less(a[0], b[0]) && less(b[0], c[0]));
        }
    }
}

/// Of two different sequences one comes before the other.
pub proof fn lemma_precedes_total<T>(a: Seq<T>, b: Seq<T>, less: spec_fn(T, T) -> bool)
    requires
        is_total(less),
        a != b,
    ensures
        precedes(a, b, less) || precedes(b, a, less),
    decreases a.len(),
{
    if a.len() > 0 && b.len() > 0 {
        if a[0] == b[0] {
            assert(a.drop_first() != b.drop_first()) by {
                if a.drop_first() == b.drop_first() {
                    assert(a =~= seq![a[0]] + a.drop_first());
                    assert(b =~= seq![b[0]] + b.drop_first());
                }
            }
            lemma_precedes_total(a.drop_first(), b.drop_first(), less);
        }
    } else if a.len() == 0 && b.len() == 0 {
        assert(a =~= b);
    }
}

} // verus!
