//! The version-control engine's types and calls that the library relies on.
//!
//! Everything here answers from what is on disk, so nothing is promised of
//! the values returned beyond their types.
use git2::Commit as GitCommit;
use git2::Repository as EngineRepository;
use vstd::prelude::*;

verus! {

/// An error reported by the engine.
#[verifier::external_type_specification]
#[verifier::external_body]
pub struct ExGitError(git2::Error);

/// An open repository.
#[verifier::external_type_specification]
#[verifier::external_body]
pub struct ExGitRepository(EngineRepository);

/// A walk over the revision graph.
#[verifier::external_type_specification]
#[verifier::external_body]
pub struct ExRevwalk<'repo>(git2::Revwalk<'repo>);

/// The identifier of an object.
#[verifier::external_type_specification]
#[verifier::external_body]
pub struct ExOid(git2::Oid);

/// A commit object.
#[verifier::external_type_specification]
#[verifier::external_body]
pub struct ExGitCommit<'repo>(GitCommit<'repo>);

/// A reference, such as `HEAD`.
#[verifier::external_type_specification]
#[verifier::external_body]
pub struct ExReference<'repo>(git2::Reference<'repo>);

/// The name and email recorded on a commit.
#[verifier::external_type_specification]
#[verifier::external_body]
pub struct ExSignature<'a>(git2::Signature<'a>);

/// A commit time: seconds since the epoch and an offset in minutes.
#[verifier::external_type_specification]
#[verifier::external_body]
pub struct ExTime(git2::Time);

/// Relies on `git2::Repository::open`: opens the repository at `path`.
#[verifier::external_body]
pub(crate) fn open_repository(path: &str) -> (r: Result<EngineRepository, git2::Error>) {
    EngineRepository::open(path)
}

/// Relies on `git2::Revwalk::set_sorting` with `Sort::TIME`: the walk yields
/// newer commits first.
#[verifier::external_body]
pub(crate) fn sort_by_time(walk: &mut git2::Revwalk<'_>) -> (r: Result<(), git2::Error>) {
    walk.set_sorting(git2::Sort::TIME)
}

/// Relies on `Iterator::next` of `git2::Revwalk`: the next commit id of the
/// walk, or `None` once it is over.
#[verifier::external_body]
pub(crate) fn next_in_walk(walk: &mut git2::Revwalk<'_>) -> (r: Option<Result<git2::Oid, git2::Error>>) {
    walk.next()
}

/// Relies on `git2::Repository::head`: the reference `HEAD` resolves to.
#[verifier::external_body]
pub(crate) fn resolve_head(repo: &EngineRepository) -> (r: Result<git2::Reference<'_>, git2::Error>) {
    repo.head()
}

/// Relies on `git2::Reference::peel_to_commit`: the commit a reference
/// points at.
pub assume_specification<'repo>[ git2::Reference::<'repo>::peel_to_commit ](
    reference: &git2::Reference<'repo>,
) -> std::result::Result<GitCommit<'repo>, git2::Error>;

/// Relies on `git2::Repository::revwalk`: a new walk over the revision
/// graph.
pub assume_specification[ EngineRepository::revwalk ](repo: &EngineRepository) -> std::result::Result<
    git2::Revwalk<'_>,
    git2::Error,
>;

/// Relies on `git2::Revwalk::push_head`: adds `HEAD` as a starting point of
/// the walk.
pub assume_specification<'repo>[ git2::Revwalk::<'repo>::push_head ](
    walk: &mut git2::Revwalk<'repo>,
) -> std::result::Result<(), git2::Error>;

/// Relies on `git2::Repository::find_commit`: the commit with id `oid`.
pub assume_specification[ EngineRepository::find_commit ](
    repo: &EngineRepository,
    oid: git2::Oid,
) -> std::result::Result<GitCommit<'_>, git2::Error>;

/// Relies on `git2::Commit::id`: the id of a commit.
pub assume_specification<'repo>[ GitCommit::<'repo>::id ](commit: &GitCommit<'repo>) -> git2::Oid;

/// Relies on `git2::Commit::time`: the committer time of a commit.
pub assume_specification<'repo>[ GitCommit::<'repo>::time ](
    commit: &GitCommit<'repo>,
) -> git2::Time;

/// Relies on `git2::Commit::author`: the author recorded on `commit`.
#[verifier::external_body]
pub(crate) fn commit_author<'a>(commit: &'a GitCommit<'_>) -> (r: git2::Signature<'a>) {
    commit.author()
}

/// Relies on `git2::Commit::summary`: the first paragraph of the message,
/// where it is UTF-8.
#[verifier::external_body]
pub(crate) fn commit_summary(commit: &GitCommit<'_>) -> (r: Option<String>) {
    commit.summary().map(|s| s.to_string())
}

/// Relies on `git2::Commit::message`: the full message, where it is UTF-8.
#[verifier::external_body]
pub(crate) fn commit_message(commit: &GitCommit<'_>) -> (r: Option<String>) {
    commit.message().map(|s| s.to_string())
}

/// Relies on `git2::Signature::name`: the name, where it is UTF-8.
#[verifier::external_body]
pub(crate) fn signature_name(signature: &git2::Signature<'_>) -> (r: Option<String>) {
    signature.name().map(|s| s.to_string())
}

/// Relies on `git2::Signature::email`: the email, where it is UTF-8.
#[verifier::external_body]
pub(crate) fn signature_email(signature: &git2::Signature<'_>) -> (r: Option<String>) {
    signature.email().map(|s| s.to_string())
}

/// Relies on `git2::Time::seconds`: seconds since the epoch.
pub assume_specification[ git2::Time::seconds ](time: &git2::Time) -> i64;

/// Relies on `git2::Time::offset_minutes`: the offset from UTC, in minutes.
pub assume_specification[ git2::Time::offset_minutes ](time: &git2::Time) -> i32;

/// Relies on `git2::Error::from_str`: an engine error carrying `message`.
#[verifier::external_body]
pub(crate) fn git_error(message: &str) -> (r: git2::Error) {
    git2::Error::from_str(message)
}

} // verus!
