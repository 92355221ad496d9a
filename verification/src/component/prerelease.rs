use crate::component::order::{
    component_equal, component_less, component_precedes, components_equal, components_less,
    components_precede, prerelease_equal,
};
use crate::decimal::{decimal_digits, push_decimal};
use crate::text::ascii_text;
use std::cmp::Ordering;
use vstd::prelude::*;
use vstd::std_specs::cmp::{PartialEqSpecImpl, PartialOrdSpecImpl};
use vstd::string::*;

verus! {

/// One dot-separated piece of a prerelease identifier, as it was read.
///
/// Components are equal where they stand for the same number or text, and
/// ordered as [`component_precedes`] says.
#[derive(Debug, Eq)]
pub enum PrereleaseComponent {
    /// A piece made of digits only: the `1` of `0.1.0-alpha.1`.
    Number(usize),
    /// Any other piece, kept as written: the `alpha` of `0.1.0-alpha.1`.
    String(String),
}

/// The prerelease identifier of a version.
///
/// Identifiers are equal where their components are. They are ordered as the
/// type is written: `Empty` first, then the identifiers as
/// [`components_precede`] says. This is not the precedence of versions, in
/// which a release comes after its prereleases.
#[derive(Debug, Eq)]
pub enum Prerelease {
    /// The version is a release: it carries no prerelease identifier.
    Empty,
    /// The pieces of the identifier, in the order written.
    Identifier(Vec<PrereleaseComponent>),
}

impl Clone for PrereleaseComponent {
    fn clone(&self) -> (r: Self)
        ensures
            r == *self,
    {
        match self {
            PrereleaseComponent::Number(n) => PrereleaseComponent::Number(*n),
            PrereleaseComponent::String(text) => PrereleaseComponent::String(text.clone()),
        }
    }
}

/// What a [`PrereleaseComponent`] stands for: a natural number or a text.
pub enum ComponentView {
    Number(nat),
    Text(Seq<char>),
}

impl View for PrereleaseComponent {
    type V = ComponentView;

    open spec fn view(&self) -> ComponentView {
        match self {
            PrereleaseComponent::Number(n) => ComponentView::Number(*n as nat),
            PrereleaseComponent::String(text) => ComponentView::Text(text@),
        }
    }
}

impl ComponentView {
    /// The component as it is written: a number in decimal digits, a text as
    /// it is.
    pub open spec fn text(self) -> Seq<char> {
        match self {
            ComponentView::Number(n) => ascii_text(decimal_digits(n)),
            ComponentView::Text(text) => text,
        }
    }
}

impl PrereleaseComponent {
    /// Appends the component, as it is written, to `out`.
    pub fn write_to(&self, out: &mut String)
        ensures
            final(out)@ == old(out)@ + self@.text(),
    {
        match self {
            PrereleaseComponent::Number(n) => push_decimal(out, *n),
            PrereleaseComponent::String(text) => out.append(text.as_str()),
        }
    }

    /// The component as it is written.
    pub fn to_string(&self) -> (r: String)
        ensures
            r@ == self@.text(),
    {
        let mut out = String::new();
        self.write_to(&mut out);
        assert(out@ =~= self@.text());
        out
    }
}

/// The views of the components of `components`, in order.
pub open spec fn component_views(components: Seq<PrereleaseComponent>) -> Seq<ComponentView> {
    Seq::new(components.len(), |i: int| components[i]@)
}

impl View for Prerelease {
    type V = Option<Seq<ComponentView>>;

    open spec fn view(&self) -> Option<Seq<ComponentView>> {
        match self {
            Prerelease::Empty => None,
            Prerelease::Identifier(components) => Some(component_views(components@)),
        }
    }
}

impl PartialEq for PrereleaseComponent {
    fn eq(&self, other: &Self) -> (r: bool) {
        component_equal(self, other)
    }
}

impl PartialEqSpecImpl for PrereleaseComponent {
    open spec fn obeys_eq_spec() -> bool {
        true
    }

    open spec fn eq_spec(&self, other: &Self) -> bool {
        self@ == other@
    }
}

impl PartialOrd for PrereleaseComponent {
    fn partial_cmp(&self, other: &Self) -> (r: Option<Ordering>) {
        if component_less(self, other) {
            Some(Ordering::Less)
        } else if component_equal(self, other) {
            Some(Ordering::Equal)
        } else {
            Some(Ordering::Greater)
        }
    }
}

impl PartialOrdSpecImpl for PrereleaseComponent {
    open spec fn obeys_partial_cmp_spec() -> bool {
        true
    }

    open spec fn partial_cmp_spec(&self, other: &Self) -> Option<Ordering> {
        if component_precedes(self@, other@) {
            Some(Ordering::Less)
        } else if self@ == other@ {
            Some(Ordering::Equal)
        } else {
            Some(Ordering::Greater)
        }
    }
}

impl PartialEq for Prerelease {
    fn eq(&self, other: &Self) -> (r: bool) {
        prerelease_equal(self, other)
    }
}

impl PartialEqSpecImpl for Prerelease {
    open spec fn obeys_eq_spec() -> bool {
        true
    }

    open spec fn eq_spec(&self, other: &Self) -> bool {
        self@ == other@
    }
}

impl PartialOrd for Prerelease {
    fn partial_cmp(&self, other: &Self) -> (r: Option<Ordering>) {
        match self {
            Prerelease::Empty => match other {
                Prerelease::Empty => Some(Ordering::Equal),
                Prerelease::Identifier(_) => Some(Ordering::Less),
            },
            Prerelease::Identifier(a) => match other {
                Prerelease::Empty => Some(Ordering::Greater),
                Prerelease::Identifier(b) => {
                    if components_less(a, b) {
                        Some(Ordering::Less)
                    } else if components_equal(a, b) {
                        Some(Ordering::Equal)
                    } else {
                        Some(Ordering::Greater)
                    }
                },
            },
        }
    }
}

impl PartialOrdSpecImpl for Prerelease {
    open spec fn obeys_partial_cmp_spec() -> bool {
        true
    }

    open spec fn partial_cmp_spec(&self, other: &Self) -> Option<Ordering> {
        match (self@, other@) {
            (None, None) => Some(Ordering::Equal),
            (None, Some(_)) => Some(Ordering::Less),
            (Some(_), None) => Some(Ordering::Greater),
            (Some(a), Some(b)) => if components_precede(a, b) {
                Some(Ordering::Less)
            } else if a == b {
                Some(Ordering::Equal)
            } else {
                Some(Ordering::Greater)
            },
        }
    }
}

} // verus!
