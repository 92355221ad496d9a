use crate::component::PartType;
use vstd::prelude::*;

verus! {

/// Why a version string was turned down, and in which part.
#[derive(Clone, Copy, PartialEq, Eq, Debug, Structural)]
pub enum Error {
    /// A byte that may not appear in the part was met.
    InvalidCharacter(PartType),
    /// A numeric part of more than one digit begins with a zero.
    InvalidPrecedingZero(PartType),
}

} // verus!
