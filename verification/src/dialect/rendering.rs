//! The canonical text of a version under Semantic Versioning 2.0.0.

use crate::component::prerelease::component_views;
use crate::component::{ComponentView, PrereleaseComponent};
use crate::decimal::decimal_digits;
use crate::text::{ascii_text, join};
use crate::version::VersionView;
use vstd::prelude::*;
use vstd::string::*;

verus! {

/// The components of a prerelease as they are written, one text each.
pub open spec fn component_texts(components: Seq<ComponentView>) -> Seq<Seq<char>> {
    Seq::new(components.len(), |i: int| components[i].text())
}

/// The text of a version: `major.minor.patch`; then, where the version has a
/// prerelease, a hyphen and its components with dots between them; then,
/// where it has build metadata, a plus and the metadata.
pub open spec fn rendering(version: VersionView) -> Seq<char> {
    ascii_text(decimal_digits(version.major)).push('.') + ascii_text(
        decimal_digits(version.minor),
    ).push('.') + ascii_text(decimal_digits(version.patch)) + match version.prerelease {
        Some(components) => seq!['-'] + join(component_texts(components), '.'),
        None => Seq::empty(),
    } + match version.build_metadata {
        Some(text) => seq!['+'] + text,
        None => Seq::empty(),
    }
}

/// Appends the components, as they are written and with dots between them,
/// to `out`.
pub fn push_components(out: &mut String, components: &Vec<PrereleaseComponent>)
    ensures
        final(out)@ == old(out)@ + join(component_texts(component_views(components@)), '.'),
{
    let ghost texts = component_texts(component_views(components@));
    let ghost before = out@;
    let mut i: usize = 0;
    assert(out@ =~= before + join(texts.take(0), '.'));
    while i < components.len()
        invariant
            i <= components.len(),
            texts == component_texts(component_views(components@)),
            out@ == before + join(texts.take(i as int), '.'),
        decreases components.len() - i,
    {
        let ghost so_far = out@;
        if i > 0 {
            proof {
                reveal_strlit(".");
            }
            out.append(".");
        }
        components[i].write_to(out);
        proof {
            let longer = texts.take(i + 1);
            assert(longer.drop_last() =~= texts.take(i as int));
            assert(longer.last() == components@[i as int]@.text());
            if i > 0 {
                assert(out@ =~= so_far + seq!['.'] + longer.last());
                assert(out@ =~= before + join(longer, '.'));
            } else {
                assert(out@ =~= before + join(longer, '.'));
            }
        }
        i += 1;
    }
    assert(texts.take(i as int) =~= texts);
}

} // verus!
