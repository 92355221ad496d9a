//! Reading a version string part by part: the model of the single pass that
//! [`Version::parse`](crate::version::Version::parse) makes over the bytes.
//!
//! [`scan_part`] reads one part and says what follows it; [`scan`] chains the
//! parts, from the major number on, and collects the bytes captured for each.

use crate::component::PartType;
use crate::dialect::grammar;
use crate::dialect::Dialect;
use crate::error::Error;
use crate::text::{all_ascii, all_digits, DOT, HYPHEN, PLUS};
use vstd::prelude::*;

verus! {

/// The decision of `dialect` for one byte: see [`grammar::step`].
pub open spec fn decide(
    dialect: Dialect,
    byte: u8,
    part: PartType,
    captured: Seq<u8>,
    remaining: Seq<u8>,
) -> Result<Option<PartType>, Error> {
    match dialect {
        Dialect::Standard => grammar::step(byte, part, captured, remaining),
    }
}

/// The decision for the byte of `bytes` at `at` while `part` is read from
/// the beginning of `bytes`.
pub open spec fn decision_at(bytes: Seq<u8>, dialect: Dialect, part: PartType, at: int) -> Result<
    Option<PartType>,
    Error,
> {
    decide(dialect, bytes[at], part, bytes.take(at), bytes.skip(at + 1))
}

/// Reads `part` from `bytes`, the bytes before `at` being captured already.
pub open spec fn scan_part_from(bytes: Seq<u8>, dialect: Dialect, part: PartType, at: int)
    -> Result<(Seq<u8>, Seq<u8>, Option<PartType>), Error>
    decreases bytes.len() - at,
{
    if at < 0 || at >= bytes.len() {
        Ok((bytes, Seq::empty(), None))
    } else {
        match decision_at(bytes, dialect, part, at) {
            Err(error) => Err(error),
            Ok(Some(next)) => Ok((bytes.take(at), bytes.skip(at + 1), Some(next))),
            Ok(None) => scan_part_from(bytes, dialect, part, at + 1),
        }
    }
}

/// Reads `part` from the beginning of `bytes`.
///
/// The bytes are taken one by one up to the first that is not content of the
/// part. Where that byte is turned down, so is the whole. Where it is a
/// delimiter, the result holds the bytes before it, the bytes after it and
/// the part it opens. Where the input ends first, the result holds all of
/// `bytes`, nothing after them and no next part.
pub open spec fn scan_part(bytes: Seq<u8>, dialect: Dialect, part: PartType) -> Result<
    (Seq<u8>, Seq<u8>, Option<PartType>),
    Error,
> {
    scan_part_from(bytes, dialect, part, 0)
}

/// The bytes captured for each part of a version string.
pub struct Groups {
    pub major: Seq<u8>,
    pub minor: Seq<u8>,
    pub patch: Seq<u8>,
    /// One group for each dot-separated component; none where the string has
    /// no prerelease.
    pub prerelease: Seq<Seq<u8>>,
    pub build_metadata: Seq<u8>,
}

impl Groups {
    /// Nothing captured yet.
    pub open spec fn empty() -> Groups {
        Groups {
            major: Seq::empty(),
            minor: Seq::empty(),
            patch: Seq::empty(),
            prerelease: Seq::empty(),
            build_metadata: Seq::empty(),
        }
    }

    /// The groups after `captured` was read as `part`: a prerelease component
    /// is added behind those read before, any other part is set.
    pub open spec fn put(self, part: PartType, captured: Seq<u8>) -> Groups {
        match part {
            PartType::Major => Groups { major: captured, ..self },
            PartType::Minor => Groups { minor: captured, ..self },
            PartType::Patch => Groups { patch: captured, ..self },
            PartType::Prerelease => Groups { prerelease: self.prerelease.push(captured), ..self },
            PartType::BuildMetadata => Groups { build_metadata: captured, ..self },
        }
    }
}

/// Reads `bytes` to their end, beginning in `part` with `groups` captured
/// before, and gives the groups of the whole; or the first error met.
///
/// Behind a delimiter fewer bytes remain than were there before it. The
/// definition asks for that in so many words, which shows that it ends.
pub open spec fn scan(bytes: Seq<u8>, dialect: Dialect, part: PartType, groups: Groups) -> Result<
    Groups,
    Error,
>
    decreases bytes.len(),
{
    match scan_part(bytes, dialect, part) {
        Err(error) => Err(error),
        Ok((captured, remaining, next)) => {
            let groups = groups.put(part, captured);
            match next {
                Some(next) if remaining.len() < bytes.len() => scan(
                    remaining,
                    dialect,
                    next,
                    groups,
                ),
                _ => Ok(groups),
            }
        },
    }
}

/// Whether each of the first `end` bytes of `bytes` is content of `part`.
pub open spec fn content_until(bytes: Seq<u8>, dialect: Dialect, part: PartType, end: int) -> bool {
    forall|at: int|
        0 <= at < end ==> #[trigger] decision_at(bytes, dialect, part, at) == Ok::<
            Option<PartType>,
            Error,
        >(None)
}

/// [`scan_part`] stops at the first byte that is not content of the part.
///
/// Where the bytes before `at` are content: if the byte at `at` is a
/// delimiter, the part is the bytes before it; if it is turned down, so is
/// the input; and if the input ends at `at`, the part is all of it.
pub proof fn lemma_scan_part_stops(bytes: Seq<u8>, dialect: Dialect, part: PartType, at: int)
    requires
        0 <= at <= bytes.len(),
        content_until(bytes, dialect, part, at),
    ensures
        at == bytes.len() ==> scan_part(bytes, dialect, part) == Ok::<
            (Seq<u8>, Seq<u8>, Option<PartType>),
            Error,
        >((bytes, Seq::empty(), None)),
        at < bytes.len() ==> match decision_at(bytes, dialect, part, at) {
            Ok(Some(next)) => scan_part(bytes, dialect, part) == Ok::<
                (Seq<u8>, Seq<u8>, Option<PartType>),
                Error,
            >((bytes.take(at), bytes.skip(at + 1), Some(next))),
            Err(error) => scan_part(bytes, dialect, part) == Err::<
                (Seq<u8>, Seq<u8>, Option<PartType>),
                Error,
            >(error),
            Ok(None) => true,
        },
{
    lemma_scan_part_skips_content(bytes, dialect, part, 0, at);
}

/// Bytes that are content of the part are passed over.
proof fn lemma_scan_part_skips_content(
    bytes: Seq<u8>,
    dialect: Dialect,
    part: PartType,
    from: int,
    to: int,
)
    requires
        0 <= from <= to <= bytes.len(),
        content_until(bytes, dialect, part, to),
    ensures
        scan_part_from(bytes, dialect, part, from) == scan_part_from(bytes, dialect, part, to),
    decreases to - from,
{
    if from < to {
        assert(decision_at(bytes, dialect, part, from) == Ok::<Option<PartType>, Error>(None));
        lemma_scan_part_skips_content(bytes, dialect, part, from + 1, to);
    }
}

/// What [`scan_part`] gives, said without recursion.
///
/// On success the captured bytes are the longest beginning of the input that
/// is content of the part; the input either ends there, or goes on with a
/// delimiter, which opens the next part, and the remaining bytes. On failure
/// the error is the decision for the first byte that is not content.
pub proof fn lemma_scan_part_shape(bytes: Seq<u8>, dialect: Dialect, part: PartType)
    ensures
        match scan_part(bytes, dialect, part) {
            Ok((captured, remaining, next)) => {
                let end = captured.len() as int;
                &&& end <= bytes.len()
                &&& captured == bytes.take(end)
                &&& content_until(bytes, dialect, part, end)
                &&& match next {
                    None => end == bytes.len() && remaining == Seq::<u8>::empty(),
                    Some(opened) => {
                        &&& end < bytes.len()
                        &&& remaining == bytes.skip(end + 1)
                        &&& decision_at(bytes, dialect, part, end) == Ok::<
                            Option<PartType>,
                            Error,
                        >(Some(opened))
                    },
                }
            },
            Err(error) => exists|end: int|
                {
                    &&& 0 <= end < bytes.len()
                    &&& content_until(bytes, dialect, part, end)
                    &&& #[trigger] decision_at(bytes, dialect, part, end) == Err::<
                        Option<PartType>,
                        Error,
                    >(error)
                },
        },
{
    lemma_scan_part_from_shape(bytes, dialect, part, 0);
}

proof fn lemma_scan_part_from_shape(bytes: Seq<u8>, dialect: Dialect, part: PartType, at: int)
    requires
        0 <= at <= bytes.len(),
        content_until(bytes, dialect, part, at),
    ensures
        match scan_part_from(bytes, dialect, part, at) {
            Ok((captured, remaining, next)) => {
                let end = captured.len() as int;
                &&& at <= end <= bytes.len()
                &&& captured == bytes.take(end)
                &&& content_until(bytes, dialect, part, end)
                &&& match next {
                    None => end == bytes.len() && remaining == Seq::<u8>::empty(),
                    Some(opened) => {
                        &&& end < bytes.len()
                        &&& remaining == bytes.skip(end + 1)
                        &&& decision_at(bytes, dialect, part, end) == Ok::<
                            Option<PartType>,
                            Error,
                        >(Some(opened))
                    },
                }
            },
            Err(error) => exists|end: int|
                {
                    &&& 0 <= end < bytes.len()
                    &&& content_until(bytes, dialect, part, end)
                    &&& #[trigger] decision_at(bytes, dialect, part, end) == Err::<
                        Option<PartType>,
                        Error,
                    >(error)
                },
        },
    decreases bytes.len() - at,
{
    if at >= bytes.len() {
        assert(bytes.take(at) =~= bytes);
    } else {
        match decision_at(bytes, dialect, part, at) {
            Ok(None) => {
                lemma_scan_part_from_shape(bytes, dialect, part, at + 1);
            },
            Ok(Some(_)) => {},
            Err(_) => {},
        }
    }
}

/// The bytes that are captured for a part may stand in it; they are ASCII,
/// and digits in a numeric part.
pub proof fn lemma_content_bytes(bytes: Seq<u8>, dialect: Dialect, part: PartType, end: int)
    requires
        0 <= end <= bytes.len(),
        content_until(bytes, dialect, part, end),
    ensures
        grammar::all_content(part, bytes.take(end)),
        all_ascii(bytes.take(end)),
        grammar::is_numeric(part) ==> all_digits(bytes.take(end)),
{
    assert forall|at: int| 0 <= at < end implies grammar::is_content(
        part,
        #[trigger] bytes.take(end)[at],
    ) by {
        assert(decision_at(bytes, dialect, part, at) == Ok::<Option<PartType>, Error>(None));
    }
}

/// A byte that closes a part is one of the delimiters `.`, `-` and `+`.
pub proof fn lemma_delimiter_bytes(bytes: Seq<u8>, dialect: Dialect, part: PartType, at: int)
    requires
        0 <= at < bytes.len(),
        decision_at(bytes, dialect, part, at) matches Ok(Some(_)),
    ensures
        bytes[at] == DOT || bytes[at] == HYPHEN || bytes[at] == PLUS,
{
}

} // verus!
