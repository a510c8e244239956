//! Discovery of version-controlled project directories under a search root,
//! and extraction of their commit history within a date window.
//!
//! - [`commit`]: the commit record and its parts.
//! - [`config`]: runtime options.
//! - [`filesystem`]: the directory-tree capability the discovery walk runs
//!   on, path helpers, and an in-memory tree.
//! - [`git`]: the version-control engine's types and calls relied on.
//! - [`repository`]: the engine-handle interface and the repository entity.
//! - [`repository_locator`]: the depth-bounded discovery walk and its laws.
//! - [`report`]: author filtering and the one-line rendering of a commit.
//! - [`timestamp`]: instants as epoch seconds.
use vstd::prelude::*;
use vstd::string::to_string_from_display_ensures;

pub mod commit;
pub mod config;
pub mod filesystem;
pub mod git;
pub mod repository;
pub mod repository_locator;
pub mod report;
pub mod timestamp;

verus! {

/// The errors of the library.
#[derive(Debug)]
pub enum WalrustError {
    /// The version-control engine failed.
    GitError(git2::Error),
    /// A filesystem operation failed.
    IoError(std::io::Error),
    /// A path has no name that a repository could take.
    PathError(String),
    /// A commit hash is too short to abbreviate.
    HashError(String),
}

/// The results of the library.
pub type Result<T> = core::result::Result<T, WalrustError>;

impl WalrustError {
    /// A description of the error: the kind of failure, then the text the
    /// underlying error displays or the offending value.
    pub fn to_string(&self) -> (r: String)
        ensures
            match self {
                WalrustError::GitError(e) => exists|s: String|
                    to_string_from_display_ensures::<git2::Error>(&e, s) && r@ == "Git error: "@
                        + s@,
                WalrustError::IoError(e) => exists|s: String|
                    to_string_from_display_ensures::<std::io::Error>(&e, s) && r@ == "IO error: "@
                        + s@,
                WalrustError::PathError(p) => r@ == "Invalid path: "@ + p@,
                WalrustError::HashError(h) => r@ == "Invalid hash: "@ + h@,
            },
    {
        proof {
            reveal_strlit("Git error: ");
            reveal_strlit("IO error: ");
            reveal_strlit("Invalid path: ");
            reveal_strlit("Invalid hash: ");
        }
        match self {
            WalrustError::GitError(e) => {
                let text = e.to_string();
                let mut r = String::from_str("Git error: ");
                r.append(text.as_str());
                r
            },
            WalrustError::IoError(e) => {
                let text = e.to_string();
                let mut r = String::from_str("IO error: ");
                r.append(text.as_str());
                r
            },
            WalrustError::PathError(p) => {
                let mut r = String::from_str("Invalid path: ");
                r.append(p.as_str());
                r
            },
            WalrustError::HashError(h) => {
                let mut r = String::from_str("Invalid hash: ");
                r.append(h.as_str());
                r
            },
        }
    }
}

impl From<git2::Error> for WalrustError {
    fn from(e: git2::Error) -> (r: Self)
        ensures
            r == WalrustError::GitError(e),
    {
        WalrustError::GitError(e)
    }
}

impl vstd::std_specs::convert::FromSpecImpl<git2::Error> for WalrustError {
    open spec fn obeys_from_spec() -> bool {
        true
    }

    open spec fn from_spec(e: git2::Error) -> Self {
        WalrustError::GitError(e)
    }
}

impl From<std::io::Error> for WalrustError {
    fn from(e: std::io::Error) -> (r: Self)
        ensures
            r == WalrustError::IoError(e),
    {
        WalrustError::IoError(e)
    }
}

impl vstd::std_specs::convert::FromSpecImpl<std::io::Error> for WalrustError {
    open spec fn obeys_from_spec() -> bool {
        true
    }

    open spec fn from_spec(e: std::io::Error) -> Self {
        WalrustError::IoError(e)
    }
}

} // verus!
