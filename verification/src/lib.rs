//! Parsing, ordering and rendering of semantic version strings.
//!
//! A version string is read in one left-to-right pass over its bytes. A
//! [`Dialect`] decides, byte by byte, whether the byte belongs to the part
//! being read, closes it, or is not allowed there; it also decides how two
//! versions compare and how a version is written back as text.
//!
//! Every executable function carries a contract over a mathematical model:
//! a version is viewed as a [`VersionView`], text as a sequence of bytes or
//! characters, and the reading of a string is the function
//! [`version::parse_spec`].
//!
//! Beside the contracts stand proofs of what holds between the operations:
//!
//! - [`notation`]: a string that the grammar of Semantic Versioning allows is
//!   read as the parts it is made of;
//! - [`round_trip`]: the text of a version that was read is read as the same
//!   version, and a string in canonical form is written back as it was;
//! - [`dialect::order_laws`]: the precedence of versions is a strict total
//!   order that agrees with their equality, and neither looks at build
//!   metadata.

pub mod component;
pub mod decimal;
pub mod dialect;
pub mod error;
pub mod lexicographic;
pub mod notation;
pub mod reading;
pub mod round_trip;
pub mod text;
pub mod version;

pub use component::{BuildMetadata, ComponentView, PartType, Prerelease, PrereleaseComponent};
pub use dialect::{Dialect, DialectParser, Standard};
pub use error::Error;
pub use version::{Version, VersionView};
