//! Dialects: the rules a version string is read, ordered and written by.

pub mod grammar;
pub mod order_laws;
pub mod precedence;
pub mod rendering;
pub mod standard;

use crate::component::order::{components_equal, components_less, prerelease_equal};
use crate::component::{BuildMetadata, PartType, Prerelease};
use crate::decimal::push_decimal;
use crate::error::Error;
use crate::text::{is_alphanumeric, is_digit, DOT, HYPHEN, PLUS, ZERO};
use crate::version::Version;
use std::cmp::Ordering;
use vstd::prelude::*;
use vstd::string::*;

pub use standard::Standard;

verus! {

/// The rules that a version is read, validated, ordered and written by.
///
/// Package managers read the Semantic Versioning specification in slightly
/// different ways; a dialect stands for one such reading, and every version
/// remembers the dialect it was read under.
#[derive(Clone, Copy, Debug, PartialEq, Eq, Structural)]
pub enum Dialect {
    /// Semantic Versioning 2.0.0.
    Standard,
}

/// What a dialect decides: what a byte does while a version string is read,
/// how two versions are ordered, whether they are equal, and how a version is
/// written.
///
/// Each operation is provided with the rule of Semantic Versioning 2.0.0, and
/// a dialect overrides the ones it reads otherwise. The contract of a
/// provided rule is its `default_ensures` clause: it holds of every dialect
/// that takes the rule as provided, as [`Standard`] takes all four.
pub trait DialectParser {
    /// Decides what `byte` does while `part.0` is being read, `part.1` holding
    /// the bytes captured for it so far and `remaining_bytes` the bytes after
    /// `byte`: see [`grammar::step`].
    fn parse_byte(byte: &u8, part: (PartType, &Vec<u8>), remaining_bytes: &[u8]) -> (r: Result<
        Option<PartType>,
        Error,
    >)
        default_ensures
            r == grammar::step(*byte, part.0, part.1@, remaining_bytes@),
    {
        let byte: u8 = *byte;
        let current = part.0;
        if (current == PartType::Patch || current == PartType::Prerelease) && byte == PLUS {
            return Ok(Some(PartType::BuildMetadata));
        }
        if current == PartType::Patch && byte == HYPHEN {
            return Ok(Some(PartType::Prerelease));
        }
        if byte == DOT {
            match current {
                PartType::Major => return Ok(Some(PartType::Minor)),
                PartType::Minor => return Ok(Some(PartType::Patch)),
                // Inside the prerelease a dot parts two components; the part
                // stays the same, and the caller starts a new component.
                PartType::Prerelease => return Ok(Some(PartType::Prerelease)),
                _ => {},
            }
        }
        match current {
            PartType::Major | PartType::Minor | PartType::Patch => {
                if !is_digit(byte) {
                    return Err(Error::InvalidCharacter(current));
                }
                let is_first_digit = part.1.is_empty();
                if byte == ZERO && is_first_digit && !grammar::closes_number(
                    current,
                    remaining_bytes,
                ) {
                    return Err(Error::InvalidPrecedingZero(current));
                }
            },
            PartType::Prerelease => {
                if !is_alphanumeric(byte) && byte != HYPHEN {
                    return Err(Error::InvalidCharacter(current));
                }
            },
            PartType::BuildMetadata => {
                if !is_alphanumeric(byte) && byte != HYPHEN && byte != DOT {
                    return Err(Error::InvalidCharacter(current));
                }
            },
        }
        Ok(None)
    }

    /// Says how `a` stands to `b` in the order of versions: see
    /// [`precedence::order`].
    ///
    /// For example `1.0.0-alpha.1` < `1.0.0-alpha.2` < `1.0.0-beta` < `1.0.0`
    /// < `1.0.1`.
    fn cmp(a: &Version, b: &Version) -> (r: Ordering)
        default_ensures
            r == precedence::order(a@, b@),
    {
        if a.major != b.major {
            return if a.major > b.major {
                Ordering::Greater
            } else {
                Ordering::Less
            };
        }
        if a.minor != b.minor {
            return if a.minor > b.minor {
                Ordering::Greater
            } else {
                Ordering::Less
            };
        }
        if a.patch != b.patch {
            return if a.patch > b.patch {
                Ordering::Greater
            } else {
                Ordering::Less
            };
        }
        match &a.prerelease {
            Prerelease::Identifier(a) => match &b.prerelease {
                Prerelease::Identifier(b) => {
                    if components_less(a, b) {
                        Ordering::Less
                    } else if components_equal(a, b) {
                        Ordering::Equal
                    } else {
                        Ordering::Greater
                    }
                },
                Prerelease::Empty => Ordering::Less,
            },
            Prerelease::Empty => match &b.prerelease {
                Prerelease::Identifier(_) => Ordering::Greater,
                Prerelease::Empty => Ordering::Equal,
            },
        }
    }

    /// Says whether `a` and `b` are the same version: see
    /// [`precedence::same`]. Build metadata is not looked at.
    fn eq(a: &Version, b: &Version) -> (r: bool)
        default_ensures
            r == precedence::same(a@, b@),
    {
        a.major == b.major && a.minor == b.minor && a.patch == b.patch && prerelease_equal(
            &a.prerelease,
            &b.prerelease,
        )
    }

    /// Writes `version` as text: see [`rendering::rendering`].
    fn format(version: &Version) -> (r: String)
        default_ensures
            r@ == rendering::rendering(version@),
    {
        proof {
            reveal_strlit(".");
            reveal_strlit("-");
            reveal_strlit("+");
        }
        let mut string = String::new();
        push_decimal(&mut string, version.major);
        string.append(".");
        push_decimal(&mut string, version.minor);
        string.append(".");
        push_decimal(&mut string, version.patch);
        if let Prerelease::Identifier(identifier) = &version.prerelease {
            string.append("-");
            rendering::push_components(&mut string, identifier);
        }
        if let BuildMetadata::Identifier(identifier) = &version.build_metadata {
            string.append("+");
            string.append(identifier.as_str());
        }
        assert(string@ =~= rendering::rendering(version@));
        string
    }
}

} // verus!
