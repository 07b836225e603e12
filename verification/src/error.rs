//! The error type of the build pipeline.

use vstd::prelude::*;

use crate::path::SitePath;

verus! {

/// Everything by which the pipeline's own decisions can stop a build.
/// Every failure is reported with the path or command it concerns; a
/// build either fully succeeds or surfaces what failed and where.
#[derive(Debug, PartialEq, Eq)]
pub enum Error {
    /// A transform command is not a well-formed shell word sequence.
    Shell {
        /// The command that failed to parse.
        command: String,
    },
    /// A path unexpectedly did not start with the prefix being stripped.
    StripPath {
        /// The path that could not be stripped.
        path: SitePath,
        /// The prefix that the path was expected to start with.
        prefix: SitePath,
    },
    /// Page content that had to be text for a layout was not valid UTF-8.
    FromUtf8 {
        /// The destination whose content could not be decoded.
        path: SitePath,
    },
    /// A path that had to become a template name was not valid UTF-8.
    PathConversion {
        /// The path that could not be converted.
        path: SitePath,
    },
}

} // verus!
