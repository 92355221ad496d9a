use vstd::prelude::*;
use vstd::string::*;

verus! {

/// The component parts of a semantic version.
#[derive(Clone, Copy, PartialEq, Eq, Debug, Structural)]
pub enum PartType {
    /// The major version number: the `1` of `1.9.8`.
    Major,
    /// The minor version number: the `9` of `1.9.8`.
    Minor,
    /// The patch version number: the `8` of `1.9.8`.
    Patch,
    /// The prerelease identifier: the `alpha.1` of `0.1.0-alpha.1`.
    Prerelease,
    /// The build metadata: the `a14` of `0.1.0-alpha.1+a14`.
    BuildMetadata,
}

impl PartType {
    /// The name of the part in running text.
    pub open spec fn label(self) -> Seq<char> {
        match self {
            PartType::Major => "major"@,
            PartType::Minor => "minor"@,
            PartType::Patch => "patch"@,
            PartType::Prerelease => "prerelease"@,
            PartType::BuildMetadata => "build metadata"@,
        }
    }

    /// The name of the part, for messages.
    pub fn to_string(&self) -> (r: String)
        ensures
            r@ == self.label(),
    {
        String::from_str(
            match self {
                PartType::Major => "major",
                PartType::Minor => "minor",
                PartType::Patch => "patch",
                PartType::Prerelease => "prerelease",
                PartType::BuildMetadata => "build metadata",
            },
        )
    }
}

} // verus!
