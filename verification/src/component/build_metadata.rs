use vstd::prelude::*;
use vstd::std_specs::cmp::PartialEqSpecImpl;

verus! {

/// The build metadata of a version. Two are equal where both are absent or
/// both hold the same text.
#[derive(Debug, Eq)]
pub enum BuildMetadata {
    /// The version carries no build metadata.
    Empty,
    /// The build metadata as written: the `a14` of `0.1.0-alpha.1+a14`.
    Identifier(String),
}

impl View for BuildMetadata {
    type V = Option<Seq<char>>;

    open spec fn view(&self) -> Option<Seq<char>> {
        match self {
            BuildMetadata::Empty => None,
            BuildMetadata::Identifier(text) => Some(text@),
        }
    }
}

impl PartialEq for BuildMetadata {
    fn eq(&self, other: &Self) -> (r: bool) {
        match self {
            BuildMetadata::Empty => match other {
                BuildMetadata::Empty => true,
                BuildMetadata::Identifier(_) => false,
            },
            BuildMetadata::Identifier(a) => match other {
                BuildMetadata::Empty => false,
                BuildMetadata::Identifier(b) => a.eq(b),
            },
        }
    }
}

impl PartialEqSpecImpl for BuildMetadata {
    open spec fn obeys_eq_spec() -> bool {
        true
    }

    open spec fn eq_spec(&self, other: &Self) -> bool {
        self@ == other@
    }
}

} // verus!
