use vstd::prelude::*;

verus! {

/// Errors raised while turning a locator into a repository, resolving a
/// ref against a remote's reference list, or preparing a clone.
#[derive(Debug, Clone, Copy, PartialEq, Eq, Structural)]
pub enum RegitError {
    /// The locator string does not match the accepted grammar.
    MalformedLocator,
    /// The requested ref had no exact match and is too short (fewer than
    /// eight characters) to be used as a partial commit hash.
    RefTooShort,
    /// No reference entry matches the requested ref.
    RefNotFound,
    /// The destination directory already holds files and no override was
    /// requested.
    DestinationNotEmpty,
}

/// Errors raised while downloading an archive.
#[derive(Debug, Clone, Copy, PartialEq, Eq, Structural)]
pub enum FetchError {
    /// The server answered with a status of 400 or above.
    RemoteRejected(u16),
    /// The redirect chain exceeded the configured cap.
    TooManyRedirects,
    /// The body could not be retrieved or written.
    IOFailure,
}

/// Errors raised while unpacking an archive.
#[derive(Debug, Clone, Copy, PartialEq, Eq, Structural)]
pub enum ExtractError {
    /// An entry's rewritten path would escape the destination through a
    /// `..` segment.
    PathEscape,
    /// A subdirectory filter was given but no entry matched it.
    EmptySubDir,
    /// The gzip or tar layer could not be decoded.
    CorruptArchive,
}

/// Errors raised by cache persistence; recoverable, the run continues with
/// an in-memory cache.
#[derive(Debug, Clone, Copy, PartialEq, Eq, Structural)]
pub enum CacheError {
    PersistFailure,
}

} // verus!
