//! The error vocabulary of the mediation layer.

use vstd::prelude::*;

verus! {

/// Every failure a mediated operation can report.
///
/// Validation failures (`InvalidIdentifier`, `InvalidPath`, `TooLarge`,
/// `UnsupportedMethod`, `AlreadyExists`, `EmptyFileSet`) are detected before
/// any filesystem or network side effect.  `IoError` and `NetworkError`
/// stand for failures of the host's own I/O, reported by the host after the
/// library has approved the operation.
#[derive(Clone, Copy, Debug, PartialEq, Eq, Structural)]
pub enum MediationError {
    /// The plugin identifier is empty or holds a character outside
    /// ASCII letters, digits, `-` and `_`.
    InvalidIdentifier,
    /// A sandbox-relative path is absolute or holds a parent-directory
    /// component.
    InvalidPath,
    /// A non-overwrite install collided with an existing plugin directory.
    AlreadyExists,
    /// A fixed cap was exceeded: file count, total byte size, header
    /// count or length, request body, or response size.
    TooLarge,
    /// An install request carried no files at all.
    EmptyFileSet,
    /// A requested file or plugin is absent.
    NotFound,
    /// A proxied request's URL does not start with `http://` or
    /// `https://`.
    InvalidUrl,
    /// The host's filesystem operation failed.
    IoError,
    /// The host's network transfer failed or timed out.
    NetworkError,
    /// The HTTP method is empty after trimming or holds a character
    /// that is not a valid method token character.
    UnsupportedMethod,
}

} // verus!
