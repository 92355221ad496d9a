//! The per-byte rules of the standard dialect.
//!
//! Reading is driven one byte at a time. Given the part being read, the bytes
//! already captured for it and the bytes that follow, [`step`] says what the
//! next byte does: it closes the part and opens another, it is turned down,
//! or it is captured.

use crate::component::PartType;
use crate::error::Error;
use crate::text::{is_alphanumeric, is_digit, DOT, HYPHEN, PLUS, ZERO};
use vstd::prelude::*;

verus! {

/// The part that `byte` opens when it is met while `part` is being read, if
/// it is a delimiter there.
///
/// A dot inside the prerelease opens the prerelease again: it parts two
/// components of the same identifier. A dot after the patch number opens
/// nothing, nor does any byte inside the build metadata.
pub open spec fn transition(byte: u8, part: PartType) -> Option<PartType> {
    if byte == PLUS && (part == PartType::Patch || part == PartType::Prerelease) {
        Some(PartType::BuildMetadata)
    } else if byte == HYPHEN && part == PartType::Patch {
        Some(PartType::Prerelease)
    } else if byte == DOT {
        match part {
            PartType::Major => Some(PartType::Minor),
            PartType::Minor => Some(PartType::Patch),
            PartType::Prerelease => Some(PartType::Prerelease),
            _ => None,
        }
    } else {
        None
    }
}

/// Whether the numeric part `part` ends with the byte in hand, judged by the
/// bytes that follow it: nothing follows, or the delimiter that closes the
/// part does. Major and minor close on a dot, patch on a hyphen or a plus.
pub open spec fn ends_number(part: PartType, remaining: Seq<u8>) -> bool {
    remaining.len() == 0 || match part {
        PartType::Major | PartType::Minor => remaining[0] == DOT,
        PartType::Patch => remaining[0] == PLUS || remaining[0] == HYPHEN,
        _ => false,
    }
}

/// Whether `part` is one of the three numbers of a version.
pub open spec fn is_numeric(part: PartType) -> bool {
    part == PartType::Major || part == PartType::Minor || part == PartType::Patch
}

/// Whether `byte` may stand in `part`: a number is made of digits; the
/// prerelease of letters, digits and hyphens; the build metadata of these and
/// of dots.
pub open spec fn is_content(part: PartType, byte: u8) -> bool {
    match part {
        PartType::Major | PartType::Minor | PartType::Patch => is_digit(byte),
        PartType::Prerelease => is_alphanumeric(byte) || byte == HYPHEN,
        PartType::BuildMetadata => is_alphanumeric(byte) || byte == HYPHEN || byte == DOT,
    }
}

/// Whether every byte of `bytes` may stand in `part`.
pub open spec fn all_content(part: PartType, bytes: Seq<u8>) -> bool {
    forall|i: int| 0 <= i < bytes.len() ==> is_content(part, #[trigger] bytes[i])
}

/// What is wrong with `byte` as content of `part`, if anything: it may not
/// stand there, or it is a zero at the head of a number that goes on.
pub open spec fn violation(byte: u8, part: PartType, captured: Seq<u8>, remaining: Seq<u8>)
    -> Option<Error> {
    if !is_content(part, byte) {
        Some(Error::InvalidCharacter(part))
    } else if is_numeric(part) && byte == ZERO && captured.len() == 0 && !ends_number(
        part,
        remaining,
    ) {
        Some(Error::InvalidPrecedingZero(part))
    } else {
        None
    }
}

/// The decision for one byte: `Ok(Some(next))` where it closes `part` and
/// opens `next`, `Err(..)` where it is turned down, `Ok(None)` where it is
/// content of `part`. Delimiters are looked for first.
pub open spec fn step(byte: u8, part: PartType, captured: Seq<u8>, remaining: Seq<u8>) -> Result<
    Option<PartType>,
    Error,
> {
    match transition(byte, part) {
        Some(next) => Ok(Some(next)),
        None => match violation(byte, part, captured, remaining) {
            Some(error) => Err(error),
            None => Ok(None),
        },
    }
}

/// Whether the numeric part `part` ends with the byte in hand, judged by the
/// bytes that follow it.
pub fn closes_number(part: PartType, remaining: &[u8]) -> (r: bool)
    ensures
        r == ends_number(part, remaining@),
{
    if remaining.len() == 0 {
        return true;
    }
    let next: u8 = remaining[0];
    match part {
        PartType::Major | PartType::Minor => next == DOT,
        PartType::Patch => next == PLUS || next == HYPHEN,
        _ => false,
    }
}

} // verus!
