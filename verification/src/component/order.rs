//! The order of prerelease components and of prerelease identifiers.
//!
//! Numbers are ordered as numbers, texts byte by byte, and a number comes
//! before any text. Identifiers are ordered by their components from left to
//! right; an identifier comes before the ones that it is the beginning of.

use crate::component::prerelease::{
    component_views, ComponentView, Prerelease, PrereleaseComponent,
};
use crate::lexicographic;
use crate::lexicographic::{
    is_asymmetric, is_irreflexive, is_total, is_transitive, lemma_precedes_asymmetric,
    lemma_precedes_irreflexive, lemma_precedes_total, lemma_precedes_transitive,
};
use vstd::prelude::*;
use vstd::utf8::*;

verus! {

/// The order of bytes by their value.
pub open spec fn byte_order() -> spec_fn(u8, u8) -> bool {
    |x: u8, y: u8| x < y
}

/// Whether `a` comes before `b` in the lexicographic order of bytes.
pub open spec fn bytes_precede(a: Seq<u8>, b: Seq<u8>) -> bool {
    lexicographic::precedes(a, b, byte_order())
}

/// Whether the text `a` comes before the text `b`: whether the bytes that
/// `a` is stored as come before those of `b`.
pub open spec fn text_precedes(a: Seq<char>, b: Seq<char>) -> bool {
    bytes_precede(encode_utf8(a), encode_utf8(b))
}

/// Whether the component `a` comes before the component `b`. Numbers are
/// ordered as numbers and texts as texts; a number comes before any text.
pub open spec fn component_precedes(a: ComponentView, b: ComponentView) -> bool {
    match (a, b) {
        (ComponentView::Number(x), ComponentView::Number(y)) => x < y,
        (ComponentView::Number(_), ComponentView::Text(_)) => true,
        (ComponentView::Text(_), ComponentView::Number(_)) => false,
        (ComponentView::Text(x), ComponentView::Text(y)) => text_precedes(x, y),
    }
}

/// The order of components, as a function.
pub open spec fn component_order() -> spec_fn(ComponentView, ComponentView) -> bool {
    |x: ComponentView, y: ComponentView| component_precedes(x, y)
}

/// Whether the identifier `a` comes before the identifier `b`: at the first
/// place where the two differ, `a` holds the lesser component, or `a` ends
/// there and `b` goes on.
pub open spec fn components_precede(a: Seq<ComponentView>, b: Seq<ComponentView>) -> bool {
    lexicographic::precedes(a, b, component_order())
}

/// Whether `a` comes before `b` in the lexicographic order of bytes.
pub fn bytes_less(a: &[u8], b: &[u8]) -> (r: bool)
    ensures
        r == bytes_precede(a@, b@),
{
    let mut i: usize = 0;
    while i < a.len() && i < b.len()
        invariant
            i <= a.len(),
            i <= b.len(),
            a@.take(i as int) == b@.take(i as int),
        decreases a.len() - i,
    {
        if a[i] != b[i] {
            proof {
                lexicographic::lemma_precedes_skip(a@, b@, byte_order(), i as int);
            }
            return a[i] < b[i];
        }
        assert(a@.take(i + 1) =~= a@.take(i as int).push(a@[i as int]));
        assert(b@.take(i + 1) =~= b@.take(i as int).push(b@[i as int]));
        i += 1;
    }
    proof {
        lexicographic::lemma_precedes_skip(a@, b@, byte_order(), i as int);
    }
    i < b.len()
}

/// Whether the component `a` comes before the component `b`.
pub fn component_less(a: &PrereleaseComponent, b: &PrereleaseComponent) -> (r: bool)
    ensures
        r == component_precedes(a@, b@),
{
    match a {
        PrereleaseComponent::Number(x) => match b {
            PrereleaseComponent::Number(y) => *x < *y,
            PrereleaseComponent::String(_) => true,
        },
        PrereleaseComponent::String(x) => match b {
            PrereleaseComponent::Number(_) => false,
            PrereleaseComponent::String(y) => bytes_less(
                x.as_str().as_bytes(),
                y.as_str().as_bytes(),
            ),
        },
    }
}

/// Whether the components `a` and `b` are the same.
pub fn component_equal(a: &PrereleaseComponent, b: &PrereleaseComponent) -> (r: bool)
    ensures
        r == (a@ == b@),
{
    match a {
        PrereleaseComponent::Number(x) => match b {
            PrereleaseComponent::Number(y) => *x == *y,
            PrereleaseComponent::String(_) => false,
        },
        PrereleaseComponent::String(x) => match b {
            PrereleaseComponent::Number(_) => false,
            PrereleaseComponent::String(y) => x.eq(y),
        },
    }
}

/// Whether the prerelease made of `a` comes before the one made of `b`.
pub fn components_less(a: &Vec<PrereleaseComponent>, b: &Vec<PrereleaseComponent>) -> (r: bool)
    ensures
        r == components_precede(component_views(a@), component_views(b@)),
{
    let ghost x = component_views(a@);
    let ghost y = component_views(b@);
    let mut i: usize = 0;
    while i < a.len() && i < b.len()
        invariant
            i <= a.len(),
            i <= b.len(),
            x == component_views(a@),
            y == component_views(b@),
            x.take(i as int) == y.take(i as int),
        decreases a.len() - i,
    {
        if !component_equal(&a[i], &b[i]) {
            proof {
                lexicographic::lemma_precedes_skip(x, y, component_order(), i as int);
            }
            return component_less(&a[i], &b[i]);
        }
        assert(x.take(i + 1) =~= x.take(i as int).push(x[i as int]));
        assert(y.take(i + 1) =~= y.take(i as int).push(y[i as int]));
        i += 1;
    }
    proof {
        lexicographic::lemma_precedes_skip(x, y, component_order(), i as int);
    }
    i < b.len()
}

/// Whether the prereleases made of `a` and of `b` are the same.
pub fn components_equal(a: &Vec<PrereleaseComponent>, b: &Vec<PrereleaseComponent>) -> (r: bool)
    ensures
        r == (component_views(a@) == component_views(b@)),
{
    let ghost x = component_views(a@);
    let ghost y = component_views(b@);
    if a.len() != b.len() {
        assert(x.len() != y.len());
        return false;
    }
    let mut i: usize = 0;
    while i < a.len()
        invariant
            i <= a.len(),
            a.len() == b.len(),
            x == component_views(a@),
            y == component_views(b@),
            x.take(i as int) == y.take(i as int),
        decreases a.len() - i,
    {
        if !component_equal(&a[i], &b[i]) {
            assert(x[i as int] != y[i as int]);
            return false;
        }
        assert(x.take(i + 1) =~= x.take(i as int).push(x[i as int]));
        assert(y.take(i + 1) =~= y.take(i as int).push(y[i as int]));
        i += 1;
    }
    assert(x.take(i as int) =~= x);
    assert(y.take(i as int) =~= y);
    true
}

/// Whether the prereleases `a` and `b` are the same: both absent, or both
/// made of the same components.
pub fn prerelease_equal(a: &Prerelease, b: &Prerelease) -> (r: bool)
    ensures
        r == (a@ == b@),
{
    match a {
        Prerelease::Empty => match b {
            Prerelease::Empty => true,
            Prerelease::Identifier(_) => false,
        },
        Prerelease::Identifier(x) => match b {
            Prerelease::Empty => false,
            Prerelease::Identifier(y) => components_equal(x, y),
        },
    }
}

/// The order of bytes is a strict total order.
pub proof fn lemma_byte_order_is_strict_total()
    ensures
        is_irreflexive(byte_order()),
        is_asymmetric(byte_order()),
        is_transitive(byte_order()),
        is_total(byte_order()),
{
}

/// Different texts are stored as different bytes.
pub proof fn lemma_encoding_tells_texts_apart(a: Seq<char>, b: Seq<char>)
    requires
        encode_utf8(a) == encode_utf8(b),
    ensures
        a == b,
{
    encode_utf8_decode_utf8(a);
    encode_utf8_decode_utf8(b);
}

/// The order of components is a strict total order.
pub proof fn lemma_component_order_is_strict_total()
    ensures
        is_irreflexive(component_order()),
        is_asymmetric(component_order()),
        is_transitive(component_order()),
        is_total(component_order()),
{
    lemma_byte_order_is_strict_total();
    let less = component_order();
    assert forall|x: ComponentView| !#[trigger] less(x, x) by {
        if let ComponentView::Text(text) = x {
            lemma_precedes_irreflexive(encode_utf8(text), byte_order());
        }
    }
    assert forall|x: ComponentView, y: ComponentView| #[trigger] less(x, y) implies !less(
        y,
        x,
    ) by {
        if let (ComponentView::Text(s), ComponentView::Text(t)) = (x, y) {
            lemma_precedes_asymmetric(encode_utf8(s), encode_utf8(t), byte_order());
        }
    }
    assert forall|x: ComponentView, y: ComponentView, z: ComponentView| #[trigger]
        less(x, y) && #[trigger] less(y, z) implies less(x, z) by {
        if let (ComponentView::Text(s), ComponentView::Text(t), ComponentView::Text(u)) = (
            x,
            y,
            z,
        ) {
            lemma_precedes_transitive(
                encode_utf8(s),
                encode_utf8(t),
                encode_utf8(u),
                byte_order(),
            );
        }
    }
    assert forall|x: ComponentView, y: ComponentView| x != y implies #[trigger] less(x, y)
        || less(y, x) by {
        if let (ComponentView::Text(s), ComponentView::Text(t)) = (x, y) {
            if encode_utf8(s) == encode_utf8(t) {
                lemma_encoding_tells_texts_apart(s, t);
            }
            lemma_precedes_total(encode_utf8(s), encode_utf8(t), byte_order());
        }
    }
}

} // verus!
