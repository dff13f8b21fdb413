//! The errors of the closure resolver and the graph builder.

use vstd::prelude::*;
use crate::identity::PackageIdentity;

verus! {

/// Why the resolved metadata could not be walked.
#[derive(Debug)]
pub enum ResolveError {
    /// A package that the root reaches is not described by the provider.
    MetadataLookupError { missing: PackageIdentity },
    /// A resolved dependency of `package` fulfils none of the dependency
    /// specifications recorded for it.
    DependencyLookupError { package: PackageIdentity, dependency: PackageIdentity },
}

impl ResolveError {
    /// What the error reads as.
    pub open spec fn message_text(e: ResolveError) -> Seq<char> {
        match e {
            ResolveError::MetadataLookupError { missing } => "no metadata for package "@
                + PackageIdentity::label_text(missing@),
            ResolveError::DependencyLookupError { package, dependency } =>
                "no dependency specification for "@ + PackageIdentity::label_text(dependency@)
                    + " in "@ + PackageIdentity::label_text(package@),
        }
    }

    /// Writes the error as a text.
    pub fn message(&self) -> (text: String)
        ensures
            text@ == Self::message_text(*self),
    {
        match self {
            ResolveError::MetadataLookupError { missing } => {
                let mut text = "no metadata for package ".to_owned();
                text.append(missing.label().as_str());
                text
            },
            ResolveError::DependencyLookupError { package, dependency } => {
                let mut text = "no dependency specification for ".to_owned();
                text.append(dependency.label().as_str());
                text.append(" in ");
                text.append(package.label().as_str());
                text
            },
        }
    }
}

} // verus!
