//! How a version string is written: the string that captured groups spell,
//! the strings that the grammar of Semantic Versioning allows, and the proof
//! that such a string is read as the groups it was written from.

use crate::component::PartType;
use crate::decimal::is_numeral;
use crate::dialect::grammar::{all_content, ends_number, is_content, is_numeric, transition};
use crate::dialect::Dialect;
use crate::error::Error;
use crate::reading::{decision_at, lemma_scan_part_stops, scan, scan_part, Groups};
use crate::text::{join, lemma_join_front, DOT, HYPHEN, PLUS, ZERO};
use vstd::prelude::*;

verus! {

/// Whether `bytes` is a prerelease identifier: one letter, digit or hyphen
/// at least, and nothing else.
pub open spec fn is_identifier(bytes: Seq<u8>) -> bool {
    bytes.len() > 0 && all_content(PartType::Prerelease, bytes)
}

/// What is written for the prerelease components `pieces`: nothing where
/// there is none, and else a hyphen and the components with dots between.
pub open spec fn prerelease_spelling(pieces: Seq<Seq<u8>>) -> Seq<u8> {
    if pieces.len() > 0 {
        seq![HYPHEN] + join(pieces, DOT)
    } else {
        Seq::empty()
    }
}

/// What is written for the build metadata `build`: nothing where it is
/// empty, and else a plus and the metadata.
pub open spec fn build_spelling(build: Seq<u8>) -> Seq<u8> {
    if build.len() > 0 {
        seq![PLUS] + build
    } else {
        Seq::empty()
    }
}

impl Groups {
    /// The version string that is made of the groups: the three numbers with
    /// dots between them, then the prerelease, then the build metadata.
    pub open spec fn spelling(self) -> Seq<u8> {
        self.major.push(DOT) + self.minor.push(DOT) + self.patch + prerelease_spelling(
            self.prerelease,
        ) + build_spelling(self.build_metadata)
    }

    /// Whether the groups are parts as the grammar
    /// `(0|[1-9][0-9]*)\.(0|[1-9][0-9]*)\.(0|[1-9][0-9]*)(-pre)?(+build)?`
    /// has them: three numerals; for `pre`, identifiers of letters, digits
    /// and hyphens; for `build`, letters, digits, hyphens and dots.
    pub open spec fn is_grammatical(self) -> bool {
        &&& is_numeral(self.major)
        &&& is_numeral(self.minor)
        &&& is_numeral(self.patch)
        &&& forall|k: int|
            0 <= k < self.prerelease.len() ==> is_identifier(#[trigger] self.prerelease[k])
        &&& all_content(PartType::BuildMetadata, self.build_metadata)
    }
}

/// Reading `part` from `content` followed by `tail` captures `content`,
/// where `content` may stand in the part and `tail` is empty or begins with a
/// delimiter of the part.
proof fn lemma_scan_part_through(content: Seq<u8>, tail: Seq<u8>, part: PartType)
    requires
        all_content(part, content),
        is_numeric(part) && content.len() > 0 && content[0] == ZERO ==> content.len() == 1
            && ends_number(part, tail),
        tail.len() > 0 ==> transition(tail[0], part) is Some,
    ensures
        scan_part(content + tail, Dialect::Standard, part) == Ok::<
            (Seq<u8>, Seq<u8>, Option<PartType>),
            Error,
        >(
            if tail.len() > 0 {
                (content, tail.drop_first(), transition(tail[0], part))
            } else {
                (content, Seq::empty(), None)
            },
        ),
{
    let bytes = content + tail;
    let end = content.len() as int;
    assert forall|at: int| 0 <= at < end implies #[trigger] decision_at(
        bytes,
        Dialect::Standard,
        part,
        at,
    ) == Ok::<Option<PartType>, Error>(None) by {
        assert(bytes[at] == content[at]);
        assert(is_content(part, content[at]));
        if at == 0 {
            assert(content.len() == 1 ==> bytes.skip(1) =~= tail);
        }
    }
    lemma_scan_part_stops(bytes, Dialect::Standard, part, end);
    assert(bytes.take(end) =~= content);
    if tail.len() > 0 {
        assert(bytes[end] == tail[0]);
        assert(bytes.skip(end + 1) =~= tail.drop_first());
    } else {
        assert(bytes =~= content);
    }
}

/// Reading build metadata to the end of the input captures all of it.
proof fn lemma_scan_build_metadata(build: Seq<u8>, groups: Groups)
    requires
        all_content(PartType::BuildMetadata, build),
    ensures
        scan(build, Dialect::Standard, PartType::BuildMetadata, groups) == Ok::<Groups, Error>(
            groups.put(PartType::BuildMetadata, build),
        ),
{
    lemma_scan_part_through(build, Seq::empty(), PartType::BuildMetadata);
    assert(build + Seq::<u8>::empty() =~= build);
}

/// Reading the prerelease components `pieces` and the build metadata behind
/// them adds the components to those read before and sets the metadata.
proof fn lemma_scan_prerelease(pieces: Seq<Seq<u8>>, build: Seq<u8>, groups: Groups)
    requires
        pieces.len() > 0,
        forall|k: int| 0 <= k < pieces.len() ==> is_identifier(#[trigger] pieces[k]),
        all_content(PartType::BuildMetadata, build),
        build.len() == 0 ==> groups.build_metadata.len() == 0,
    ensures
        scan(
            join(pieces, DOT) + build_spelling(build),
            Dialect::Standard,
            PartType::Prerelease,
            groups,
        ) == Ok::<Groups, Error>(
            Groups {
                prerelease: groups.prerelease + pieces,
                build_metadata: build,
                ..groups
            },
        ),
    decreases pieces.len(),
{
    let first = pieces[0];
    let read = groups.put(PartType::Prerelease, first);
    assert(is_identifier(first));
    if pieces.len() == 1 {
        let tail = build_spelling(build);
        lemma_scan_part_through(first, tail, PartType::Prerelease);
        assert(groups.prerelease + pieces =~= groups.prerelease.push(first));
        if build.len() > 0 {
            assert(tail.drop_first() =~= build);
            lemma_scan_build_metadata(build, read);
        } else {
            assert(groups.build_metadata =~= build);
        }
    } else {
        let rest = pieces.drop_first();
        let tail = seq![DOT] + (join(rest, DOT) + build_spelling(build));
        lemma_join_front(pieces, DOT);
        assert(join(pieces, DOT) + build_spelling(build) =~= first + tail);
        lemma_scan_part_through(first, tail, PartType::Prerelease);
        assert(tail.drop_first() =~= join(rest, DOT) + build_spelling(build));
        assert forall|k: int| 0 <= k < rest.len() implies is_identifier(#[trigger] rest[k]) by {
            assert(rest[k] == pieces[k + 1]);
        }
        lemma_scan_prerelease(rest, build, read);
        assert(read.prerelease + rest =~= groups.prerelease + pieces);
    }
}

/// Reading the patch number and what is written behind it.
proof fn lemma_scan_patch(groups: Groups, read: Groups)
    requires
        groups.is_grammatical(),
        read == (Groups {
            major: groups.major,
            minor: groups.minor,
            patch: Seq::empty(),
            prerelease: Seq::empty(),
            build_metadata: Seq::empty(),
        }),
    ensures
        scan(
            groups.patch + (prerelease_spelling(groups.prerelease) + build_spelling(
                groups.build_metadata,
            )),
            Dialect::Standard,
            PartType::Patch,
            read,
        ) == Ok::<Groups, Error>(groups),
{
    let pieces = groups.prerelease;
    let build = groups.build_metadata;
    let tail = prerelease_spelling(pieces) + build_spelling(build);
    let patched = read.put(PartType::Patch, groups.patch);
    lemma_scan_part_through(groups.patch, tail, PartType::Patch);
    if pieces.len() > 0 {
        assert(tail.drop_first() =~= join(pieces, DOT) + build_spelling(build));
        lemma_scan_prerelease(pieces, build, patched);
        assert(patched.prerelease + pieces =~= pieces);
    } else if build.len() > 0 {
        assert(tail.drop_first() =~= build);
        lemma_scan_build_metadata(build, patched);
        assert(pieces =~= Seq::<Seq<u8>>::empty());
    } else {
        assert(tail =~= Seq::<u8>::empty());
        assert(pieces =~= Seq::<Seq<u8>>::empty());
        assert(build =~= Seq::<u8>::empty());
    }
}

/// A string that the grammar allows is read as the parts it is made of.
pub proof fn lemma_grammatical_string_scans(groups: Groups)
    requires
        groups.is_grammatical(),
    ensures
        scan(groups.spelling(), Dialect::Standard, PartType::Major, Groups::empty()) == Ok::<
            Groups,
            Error,
        >(groups),
{
    let after_patch = prerelease_spelling(groups.prerelease) + build_spelling(
        groups.build_metadata,
    );
    let from_patch = groups.patch + after_patch;
    let after_minor = seq![DOT] + from_patch;
    let from_minor = groups.minor + after_minor;
    let after_major = seq![DOT] + from_minor;
    assert(groups.spelling() =~= groups.major + after_major);

    lemma_scan_part_through(groups.major, after_major, PartType::Major);
    assert(after_major.drop_first() =~= from_minor);
    let with_major = Groups::empty().put(PartType::Major, groups.major);
    assert(scan(groups.spelling(), Dialect::Standard, PartType::Major, Groups::empty()) == scan(
        from_minor,
        Dialect::Standard,
        PartType::Minor,
        with_major,
    ));

    lemma_scan_part_through(groups.minor, after_minor, PartType::Minor);
    assert(after_minor.drop_first() =~= from_patch);
    let with_minor = with_major.put(PartType::Minor, groups.minor);
    assert(scan(from_minor, Dialect::Standard, PartType::Minor, with_major) == scan(
        from_patch,
        Dialect::Standard,
        PartType::Patch,
        with_minor,
    ));

    lemma_scan_patch(groups, with_minor);
}

} // verus!
