//! Commit records: author, hash and the commit itself.
use vstd::prelude::*;

use crate::WalrustError;

verus! {

/// The text an author renders to: `"Name <email>"`, leaving out the name
/// when it is empty and the bracketed email when that is empty.
pub open spec fn author_text(name: Seq<char>, email: Seq<char>) -> Seq<char> {
    if email.len() == 0 {
        name
    } else if name.len() == 0 {
        seq!['<'] + email + seq!['>']
    } else {
        name + seq![' ', '<'] + email + seq!['>']
    }
}

/// The author of a commit.
#[derive(Debug, PartialEq, Eq, Default)]
pub struct CommitAuthor {
    /// The name of the author.
    pub name: String,
    /// The email address of the author.
    pub email: String,
}

impl CommitAuthor {
    /// The text this author renders to.
    pub open spec fn text(&self) -> Seq<char> {
        author_text(self.name@, self.email@)
    }

    /// Creates an author from a name and an email address.
    pub fn new(name: String, email: String) -> (r: Self)
        ensures
            r.name@ == name@,
            r.email@ == email@,
    {
        CommitAuthor { name, email }
    }

    /// Renders the author as `"Name <email>"`; an empty part is left out,
    /// and an author with both parts empty renders as the empty string.
    pub fn to_string(&self) -> (r: String)
        ensures
            r@ == self.text(),
    {
        let mut r = String::new();
        if self.email.as_str().is_empty() {
            r.append(self.name.as_str());
            return r;
        }
        proof {
            reveal_strlit(" <");
            reveal_strlit("<");
            reveal_strlit(">");
        }
        if self.name.as_str().is_empty() {
            r.append("<");
        } else {
            r.append(self.name.as_str());
            r.append(" <");
        }
        r.append(self.email.as_str());
        r.append(">");
        r
    }
}

/// The number of characters of an abbreviated hash.
pub const SHORT_HASH_LEN: usize = 7;

/// The short and full forms of a commit hash.
#[derive(Debug, PartialEq, Eq, Default)]
pub struct CommitHash {
    /// The first characters of the full hash.
    pub short: String,
    /// The full hash.
    pub full: String,
}

impl CommitHash {
    /// Builds the hash from its full form, whose first characters make the
    /// short form; a full hash too short for that is an error.
    pub fn new(full_hash: String) -> (r: Result<Self, WalrustError>)
        ensures
            full_hash@.len() >= SHORT_HASH_LEN <==> r is Ok,
            match r {
                Ok(h) => h.full@ == full_hash@ && h.short@ == full_hash@.subrange(
                    0,
                    SHORT_HASH_LEN as int,
                ),
                Err(e) => e == WalrustError::HashError(full_hash),
            },
    {
        if full_hash.as_str().unicode_len() < SHORT_HASH_LEN {
            return Err(WalrustError::HashError(full_hash));
        }
        let short = String::from_str(full_hash.as_str().substring_char(0, SHORT_HASH_LEN));
        Ok(CommitHash { short, full: full_hash })
    }
}

/// A commit, as read from the version-control engine.
///
/// `commit_date` counts seconds since the Unix epoch, with the commit's UTC
/// offset already added.
#[derive(Debug, PartialEq, Eq, Default)]
pub struct Commit {
    /// The first paragraph of the commit message.
    pub title: String,
    /// The author of the commit.
    pub author: CommitAuthor,
    /// The time of the commit, in seconds since the epoch, offset applied.
    pub commit_date: i64,
    /// The full commit message.
    pub message: String,
    /// The hash of the commit.
    pub hash: CommitHash,
}

impl Commit {
    /// Creates a commit from its parts.
    pub fn new(
        title: String,
        author: CommitAuthor,
        commit_date: i64,
        message: String,
        hash: CommitHash,
    ) -> (r: Commit)
        ensures
            r == (Commit { title, author, commit_date, message, hash }),
    {
        Commit { title, author, commit_date, message, hash }
    }
}

impl Clone for CommitAuthor {
    fn clone(&self) -> (r: Self)
        ensures
            r == *self,
    {
        CommitAuthor { name: self.name.clone(), email: self.email.clone() }
    }
}

impl Clone for CommitHash {
    fn clone(&self) -> (r: Self)
        ensures
            r == *self,
    {
        CommitHash { short: self.short.clone(), full: self.full.clone() }
    }
}

impl Clone for Commit {
    fn clone(&self) -> (r: Self)
        ensures
            r == *self,
    {
        Commit {
            title: self.title.clone(),
            author: self.author.clone(),
            commit_date: self.commit_date,
            message: self.message.clone(),
            hash: self.hash.clone(),
        }
    }
}

} // verus!
