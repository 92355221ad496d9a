//! The parsed version and the function that reads one from a string.

use crate::component::prerelease::component_views;
use crate::component::{BuildMetadata, ComponentView, PartType, Prerelease, PrereleaseComponent};
use crate::decimal::{number_of, read_number};
use crate::dialect::precedence::{order, same};
use crate::dialect::rendering::rendering;
use crate::dialect::{Dialect, DialectParser, Standard};
use crate::error::Error;
use crate::round_trip::lemma_parsed_version_is_well_formed;
use crate::reading::{
    lemma_content_bytes, lemma_delimiter_bytes, lemma_scan_part_shape, scan, scan_part,
    scan_part_from, Groups,
};
use crate::text::{
    all_ascii, all_digits, ascii_text, every_digit, lemma_ascii_text_encoding,
    lemma_text_of_ascii_encoding,
};
use std::cmp::Ordering;
use vstd::prelude::*;
use vstd::slice::slice_subrange;
use vstd::string::*;
use vstd::utf8::*;

verus! {

/// A parsed version string, conforming to a dialect.
#[derive(Debug)]
pub struct Version {
    /// The dialect that the version was read under.
    pub dialect: Dialect,
    /// The major version number.
    pub major: usize,
    /// The minor version number.
    pub minor: usize,
    /// The patch version number.
    pub patch: usize,
    /// The prerelease identifier, if there is one.
    pub prerelease: Prerelease,
    /// The build metadata, if there is any.
    pub build_metadata: BuildMetadata,
}

/// What a [`Version`] stands for.
pub struct VersionView {
    pub dialect: Dialect,
    pub major: nat,
    pub minor: nat,
    pub patch: nat,
    /// The components of the prerelease identifier; `None` for a release.
    pub prerelease: Option<Seq<ComponentView>>,
    pub build_metadata: Option<Seq<char>>,
}

impl View for Version {
    type V = VersionView;

    open spec fn view(&self) -> VersionView {
        VersionView {
            dialect: self.dialect,
            major: self.major as nat,
            minor: self.minor as nat,
            patch: self.patch as nat,
            prerelease: self.prerelease@,
            build_metadata: self.build_metadata@,
        }
    }
}

impl VersionView {
    /// Whether the two versions are equal: whether they were read under the
    /// same dialect and that dialect takes them for the same.
    pub open spec fn equals(self, other: VersionView) -> bool {
        self.dialect == other.dialect && match self.dialect {
            Dialect::Standard => same(self, other),
        }
    }

    /// How the version stands to `other`: as the dialect orders the two where
    /// both were read under it, and not at all where they were read under
    /// different dialects.
    pub open spec fn compare(self, other: VersionView) -> Option<Ordering> {
        if self.dialect != other.dialect {
            None
        } else {
            Some(
                match self.dialect {
                    Dialect::Standard => order(self, other),
                },
            )
        }
    }

    /// The text of the version, as its dialect writes it.
    pub open spec fn text(self) -> Seq<char> {
        match self.dialect {
            Dialect::Standard => rendering(self),
        }
    }
}

impl PartialEq for Version {
    /// Whether the two versions are equal: see [`VersionView::equals`].
    fn eq(&self, other: &Self) -> (r: bool) {
        if self.dialect != other.dialect {
            // Versions of different dialects are never taken for equal.
            return false;
        }
        match self.dialect {
            Dialect::Standard => Standard::eq(self, other),
        }
    }
}

impl vstd::std_specs::cmp::PartialEqSpecImpl for Version {
    open spec fn obeys_eq_spec() -> bool {
        true
    }

    open spec fn eq_spec(&self, other: &Self) -> bool {
        self@.equals(other@)
    }
}

impl PartialOrd for Version {
    /// How the version stands to `other`: see [`VersionView::compare`].
    fn partial_cmp(&self, other: &Self) -> (r: Option<Ordering>) {
        if self.dialect != other.dialect {
            // Versions of different dialects are not ordered.
            return None;
        }
        Some(
            match self.dialect {
                Dialect::Standard => Standard::cmp(self, other),
            },
        )
    }
}

impl vstd::std_specs::cmp::PartialOrdSpecImpl for Version {
    open spec fn obeys_partial_cmp_spec() -> bool {
        true
    }

    open spec fn partial_cmp_spec(&self, other: &Self) -> Option<Ordering> {
        self@.compare(other@)
    }
}

/// The component that a captured prerelease group is read as: a number where
/// every byte of it is a digit, and else the text as written.
pub open spec fn component_of(group: Seq<u8>) -> ComponentView {
    if all_digits(group) {
        ComponentView::Number(number_of(group))
    } else {
        ComponentView::Text(ascii_text(group))
    }
}

/// The version that the captured groups are read as under `dialect`.
///
/// A numeric part is the number that its digits spell, or zero where the part
/// was not reached. The version has a prerelease where a prerelease group was
/// captured, and build metadata where the captured group is not empty.
pub open spec fn assemble(groups: Groups, dialect: Dialect) -> VersionView {
    VersionView {
        dialect,
        major: number_of(groups.major),
        minor: number_of(groups.minor),
        patch: number_of(groups.patch),
        prerelease: if groups.prerelease.len() == 0 {
            None
        } else {
            Some(Seq::new(groups.prerelease.len(), |i: int| component_of(groups.prerelease[i])))
        },
        build_metadata: if groups.build_metadata.len() == 0 {
            None
        } else {
            Some(ascii_text(groups.build_metadata))
        },
    }
}

/// What reading the bytes of a version string under `dialect` gives: the
/// version, or the error of the first byte that is turned down.
pub open spec fn parse_spec(bytes: Seq<u8>, dialect: Dialect) -> Result<VersionView, Error> {
    match scan(bytes, dialect, PartType::Major, Groups::empty()) {
        Ok(groups) => Ok(assemble(groups, dialect)),
        Err(error) => Err(error),
    }
}

/// Whether `span` marks a stretch of `bytes`.
pub open spec fn is_span(span: (usize, usize), bytes: Seq<u8>) -> bool {
    span.0 <= span.1 <= bytes.len()
}

/// The stretch of `bytes` that `span` marks.
pub open spec fn stretch(span: (usize, usize), bytes: Seq<u8>) -> Seq<u8> {
    bytes.subrange(span.0 as int, span.1 as int)
}

/// The text of the ASCII string `version` between the byte offsets `start`
/// and `end`.
fn text_between(version: &str, start: usize, end: usize) -> (r: String)
    requires
        is_ascii(version),
        start <= end <= version.spec_bytes().len(),
    ensures
        r@ == ascii_text(version.spec_bytes().subrange(start as int, end as int)),
{
    proof {
        lemma_ascii_text_encoding(version@);
        assert(version@.subrange(start as int, end as int) =~= ascii_text(
            version.spec_bytes().subrange(start as int, end as int),
        ));
    }
    String::from_str(version.substring_ascii(start, end))
}

/// The prerelease component written in the ASCII string `version` between
/// the byte offsets of `span`.
fn component_between(version: &str, span: (usize, usize)) -> (r: PrereleaseComponent)
    requires
        is_ascii(version),
        is_span(span, version.spec_bytes()),
    ensures
        r@ == component_of(stretch(span, version.spec_bytes())),
{
    let group = slice_subrange(version.as_bytes(), span.0, span.1);
    if every_digit(group) {
        PrereleaseComponent::Number(read_number(group))
    } else {
        PrereleaseComponent::String(text_between(version, span.0, span.1))
    }
}

impl Version {
    /// Reads a version from a string, by the rules of `dialect`: see
    /// [`parse_spec`].
    ///
    /// The string is read in one pass. The first byte that the dialect turns
    /// down ends the reading, and its error is returned. A version that is
    /// returned is well-formed, so that its text is read as the same version
    /// again.
    pub fn parse(version: &str, dialect: Dialect) -> (r: Result<Self, Error>)
        ensures
            match r {
                Ok(parsed) => parse_spec(version.spec_bytes(), dialect) == Ok::<
                    VersionView,
                    Error,
                >(parsed@),
                Err(error) => parse_spec(version.spec_bytes(), dialect) == Err::<
                    VersionView,
                    Error,
                >(error),
            },
            r matches Ok(parsed) ==> parsed@.is_well_formed(),
    {
        let bytes = version.as_bytes();
        let mut major: Vec<u8> = Vec::new();
        let mut minor: Vec<u8> = Vec::new();
        let mut patch: Vec<u8> = Vec::new();
        let mut prerelease: Vec<(usize, usize)> = Vec::new();
        let mut build_metadata: (usize, usize) = (0, 0);

        let mut current_part_type = PartType::Major;
        let mut remaining = bytes;
        let mut start: usize = 0;
        let ghost mut groups = Groups::empty();
        loop
            invariant_except_break
                start <= bytes.len(),
                remaining@ == bytes@.skip(start as int),
                all_ascii(bytes@.take(start as int)),
                scan(bytes@, dialect, PartType::Major, Groups::empty()) == scan(
                    remaining@,
                    dialect,
                    current_part_type,
                    groups,
                ),
            invariant
                bytes@ == version.spec_bytes(),
                groups.major == major@,
                groups.minor == minor@,
                groups.patch == patch@,
                all_digits(major@),
                all_digits(minor@),
                all_digits(patch@),
                groups.prerelease.len() == prerelease.len(),
                forall|k: int|
                    0 <= k < prerelease.len() ==> is_span(#[trigger] prerelease[k], bytes@)
                        && groups.prerelease[k] == stretch(prerelease[k], bytes@),
                is_span(build_metadata, bytes@),
                groups.build_metadata == stretch(build_metadata, bytes@),
            ensures
                scan(bytes@, dialect, PartType::Major, Groups::empty()) == Ok::<Groups, Error>(
                    groups,
                ),
                all_ascii(bytes@),
            decreases remaining@.len(),
        {
            let (part, rest, next_part_type) = Self::parse_part(
                remaining,
                dialect,
                current_part_type,
            )?;
            proof {
                lemma_scan_part_shape(remaining@, dialect, current_part_type);
            }
            let end: usize = start + part.len();
            proof {
                lemma_content_bytes(remaining@, dialect, current_part_type, part.len() as int);
                assert(part@ == bytes@.subrange(start as int, end as int));
                assert forall|at: int| 0 <= at < end implies #[trigger] bytes@[at] < 0x80 by {
                    if at < start {
                        assert(bytes@.take(start as int)[at] < 0x80);
                    } else {
                        assert(part@[at - start] < 0x80);
                    }
                }
                groups = groups.put(current_part_type, part@);
            }
            match current_part_type {
                PartType::Major => major = part,
                PartType::Minor => minor = part,
                PartType::Patch => patch = part,
                PartType::Prerelease => prerelease.push((start, end)),
                PartType::BuildMetadata => build_metadata = (start, end),
            }
            match next_part_type {
                None => {
                    assert(bytes@.take(end as int) == bytes@);
                    break ;
                },
                Some(next) => {
                    proof {
                        lemma_delimiter_bytes(
                            remaining@,
                            dialect,
                            current_part_type,
                            part.len() as int,
                        );
                        assert(bytes@[end as int] == remaining@[part.len() as int]);
                        assert(rest@ == bytes@.skip(end + 1));
                    }
                    remaining = rest;
                    start = end + 1;
                    current_part_type = next;
                },
            }
        }

        proof {
            lemma_text_of_ascii_encoding(version@);
        }
        let mut components: Vec<PrereleaseComponent> = Vec::new();
        let mut k: usize = 0;
        while k < prerelease.len()
            invariant
                is_ascii(version),
                bytes@ == version.spec_bytes(),
                k <= prerelease.len(),
                components.len() == k,
                groups.prerelease.len() == prerelease.len(),
                forall|j: int|
                    0 <= j < prerelease.len() ==> is_span(#[trigger] prerelease[j], bytes@)
                        && groups.prerelease[j] == stretch(prerelease[j], bytes@),
                forall|j: int|
                    0 <= j < k ==> (#[trigger] components[j])@ == component_of(
                        groups.prerelease[j],
                    ),
            decreases prerelease.len() - k,
        {
            components.push(component_between(version, prerelease[k]));
            k += 1;
        }
        let build_text: Option<String> = if build_metadata.0 == build_metadata.1 {
            None
        } else {
            Some(text_between(version, build_metadata.0, build_metadata.1))
        };
        let parsed = Self::new(
            read_number(major.as_slice()),
            read_number(minor.as_slice()),
            read_number(patch.as_slice()),
            if components.len() == 0 {
                None
            } else {
                Some(components)
            },
            build_text,
            dialect,
        );
        proof {
            let model = assemble(groups, dialect);
            if prerelease.len() > 0 {
                assert(parsed@.prerelease->0 =~= model.prerelease->0);
            }
            assert(parsed@ == model);
            lemma_parsed_version_is_well_formed(version.spec_bytes(), dialect);
        }
        Ok(parsed)
    }

    /// The text of the version, as its dialect writes it.
    pub fn to_string(&self) -> (r: String)
        ensures
            r@ == self@.text(),
    {
        match self.dialect {
            Dialect::Standard => Standard::format(self),
        }
    }

    /// Makes a version of parts that were read already.
    pub fn new(
        major: usize,
        minor: usize,
        patch: usize,
        prerelease: Option<Vec<PrereleaseComponent>>,
        build_metadata: Option<String>,
        dialect: Dialect,
    ) -> (r: Self)
        ensures
            r@ == (VersionView {
                dialect,
                major: major as nat,
                minor: minor as nat,
                patch: patch as nat,
                prerelease: match prerelease {
                    Some(components) => Some(component_views(components@)),
                    None => None,
                },
                build_metadata: match build_metadata {
                    Some(text) => Some(text@),
                    None => None,
                },
            }),
    {
        Version {
            major,
            minor,
            patch,
            prerelease: match prerelease {
                Some(components) => Prerelease::Identifier(components),
                None => Prerelease::Empty,
            },
            build_metadata: match build_metadata {
                Some(text) => BuildMetadata::Identifier(text),
                None => BuildMetadata::Empty,
            },
            dialect,
        }
    }

    /// Reads one part of a version string from the beginning of
    /// `version_bytes`: see [`scan_part`].
    ///
    /// Each byte is put to the dialect, which captures it, closes the part
    /// with it, or turns it down.
    pub fn parse_part<'a>(version_bytes: &'a [u8], dialect: Dialect, current_part: PartType) -> (r:
        Result<(Vec<u8>, &'a [u8], Option<PartType>), Error>)
        ensures
            match r {
                Ok((captured, remaining, next)) => scan_part(
                    version_bytes@,
                    dialect,
                    current_part,
                ) == Ok::<(Seq<u8>, Seq<u8>, Option<PartType>), Error>(
                    (captured@, remaining@, next),
                ),
                Err(error) => scan_part(version_bytes@, dialect, current_part) == Err::<
                    (Seq<u8>, Seq<u8>, Option<PartType>),
                    Error,
                >(error),
            },
    {
        let mut part: Vec<u8> = Vec::new();
        let mut i: usize = 0;
        while i < version_bytes.len()
            invariant
                i <= version_bytes.len(),
                part@ == version_bytes@.take(i as int),
                scan_part(version_bytes@, dialect, current_part) == scan_part_from(
                    version_bytes@,
                    dialect,
                    current_part,
                    i as int,
                ),
            decreases version_bytes.len() - i,
        {
            let byte: u8 = version_bytes[i];
            let remaining = slice_subrange(version_bytes, i + 1, version_bytes.len());
            assert(remaining@ == version_bytes@.skip(i + 1));
            let next_part = match dialect {
                Dialect::Standard => Standard::parse_byte(&byte, (current_part, &part), remaining),
            }?;
            if next_part.is_some() {
                return Ok((part, remaining, next_part));
            }
            part.push(byte);
            assert(part@ == version_bytes@.take(i + 1));
            i += 1;
        }
        assert(part@ == version_bytes@);
        let remaining = slice_subrange(version_bytes, i, i);
        assert(remaining@ == Seq::<u8>::empty());
        Ok((part, remaining, None))
    }
}

} // verus!
