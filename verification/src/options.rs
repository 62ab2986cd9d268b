use vstd::prelude::*;

verus! {

/// The hosting providers that the archive strategy knows about.
pub enum GitServer {
    GitHub,
    GitLab,
    BitBucket,
}

/// How a repository's contents are materialized: `Tar` downloads and
/// extracts an archive; `Git` falls back to a full clone.
#[derive(Debug, Clone, Copy, PartialEq, Eq, Structural)]
pub enum ValidModes {
    Tar,
    Git,
}

} // verus!
