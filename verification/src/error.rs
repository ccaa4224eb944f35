//! The faults that end a build.

use vstd::prelude::*;

verus! {

/// A fault of the configuration or of the content directory as a whole. A
/// fault in one page's metadata is no such fault: it degrades that page only.
#[derive(Clone, Copy, Debug, PartialEq, Eq, Structural)]
pub enum ContentError {
    /// The content base directory does not occur in a path that was to become
    /// a web path.
    PathFormat,
    /// The configured base directory does not end with `/`.
    Configuration,
    /// A content list leads back to a page that is still being resolved.
    CyclicReference,
    /// A content page was asked for where the content directory holds no file.
    MissingContent,
    /// A listing was asked of a place where the content directory holds no
    /// directory.
    MissingDirectory,
    /// What stands at a sidecar path is not a decoded sidecar of the kind that
    /// was asked for.
    UnreadableSidecar,
}

impl ContentError {
    /// A sentence that names the violated rule.
    pub fn message(&self) -> (text: String)
        ensures
            text@ == match *self {
                ContentError::PathFormat => "The content base directory does not occur in the path."@,
                ContentError::Configuration => "Base dir is missing the trailing directory delimiter."@,
                ContentError::CyclicReference => "A content list refers back to a page that is being resolved."@,
                ContentError::MissingContent => "The content file does not exist."@,
                ContentError::MissingDirectory => "The content directory does not exist."@,
                ContentError::UnreadableSidecar => "The metadata file exists but could not be read."@,
            },
    {
        match self {
            ContentError::PathFormat => String::from_str(
                "The content base directory does not occur in the path.",
            ),
            ContentError::Configuration => String::from_str(
                "Base dir is missing the trailing directory delimiter.",
            ),
            ContentError::CyclicReference => String::from_str(
                "A content list refers back to a page that is being resolved.",
            ),
            ContentError::MissingContent => String::from_str("The content file does not exist."),
            ContentError::MissingDirectory => String::from_str(
                "The content directory does not exist.",
            ),
            ContentError::UnreadableSidecar => String::from_str(
                "The metadata file exists but could not be read.",
            ),
        }
    }
}

} // verus!
