//! The pieces a version is made of.

pub mod build_metadata;
pub mod order;
pub mod part;
pub mod prerelease;

pub use build_metadata::BuildMetadata;
pub use part::PartType;
pub use prerelease::{ComponentView, Prerelease, PrereleaseComponent};
