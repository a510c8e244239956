//! Repositories: a discovered directory, its name, and a handle on the
//! version-control engine.
use vstd::prelude::*;

use git2::Repository as EngineRepository;

use crate::commit::{Commit, CommitAuthor, CommitHash, SHORT_HASH_LEN};
use crate::filesystem::{join, name_of_path, path_name};
use crate::git::{
    commit_author, commit_message, commit_summary, git_error, next_in_walk, open_repository,
    resolve_head, signature_email, signature_name, sort_by_time,
};
use crate::timestamp::{offset_date, SECONDS_PER_DAY};
use crate::{Result, WalrustError};

verus! {

/// Whether `date` lies in the closed window from `since` to `until`.
pub open spec fn in_window(date: i64, since: i64, until: i64) -> bool {
    since <= date <= until
}

/// Whether every commit of `commits` lies in the closed window.
pub open spec fn all_in_window(commits: Seq<Commit>, since: i64, until: i64) -> bool {
    forall|i: int| 0 <= i < commits.len() ==> in_window(#[trigger] commits[i].commit_date, since, until)
}

/// The text of an optional string: its characters, or none.
pub open spec fn text_or_empty(s: Option<String>) -> Seq<char> {
    match s {
        Some(t) => t@,
        None => Seq::empty(),
    }
}

/// What a newest-first walk does with a commit, by its date.
#[derive(Debug, Clone, Copy, PartialEq, Eq, Structural)]
pub enum WalkStep {
    /// The commit is older than the window: the walk ends.
    Stop,
    /// The commit lies in the window: it is kept.
    Keep,
    /// The commit is newer than the window: it is passed over.
    Skip,
}

/// The step a newest-first walk takes for a commit dated `date`, given the
/// closed window from `since` to `until`.
pub open spec fn walk_step_of(date: i64, since: i64, until: i64) -> WalkStep {
    if date < since {
        WalkStep::Stop
    } else if date <= until {
        WalkStep::Keep
    } else {
        WalkStep::Skip
    }
}

/// The step a newest-first walk takes for a commit dated `date`: stop before
/// the window, keep inside it, pass over after it.
pub fn walk_step(date: i64, since: i64, until: i64) -> (r: WalkStep)
    ensures
        r == walk_step_of(date, since, until),
{
    if date < since {
        WalkStep::Stop
    } else if date <= until {
        WalkStep::Keep
    } else {
        WalkStep::Skip
    }
}

/// The commit built from what the engine recorded: its id (whose first
/// characters make the short hash), its date, and its author name, author
/// email, summary and message, each empty where the engine had none. An id
/// too short to abbreviate is a hash error.
pub fn commit_from_parts(
    id: String,
    date: i64,
    name: Option<String>,
    email: Option<String>,
    summary: Option<String>,
    message: Option<String>,
) -> (r: Result<Commit>)
    ensures
        r is Ok <==> id@.len() >= SHORT_HASH_LEN,
        match r {
            Ok(c) => {
                &&& c.hash.full@ == id@
                &&& c.hash.short@ == id@.subrange(0, SHORT_HASH_LEN as int)
                &&& c.commit_date == date
                &&& c.title@ == text_or_empty(summary)
                &&& c.message@ == text_or_empty(message)
                &&& c.author.name@ == text_or_empty(name)
                &&& c.author.email@ == text_or_empty(email)
            },
            Err(e) => e == WalrustError::HashError(id),
        },
{
    let hash = CommitHash::new(id)?;
    let name = match name {
        Some(s) => s,
        None => String::new(),
    };
    let email = match email {
        Some(s) => s,
        None => String::new(),
    };
    let title = match summary {
        Some(s) => s,
        None => String::new(),
    };
    let message = match message {
        Some(s) => s,
        None => String::new(),
    };
    Ok(Commit::new(title, CommitAuthor::new(name, email), date, message, hash))
}

/// What a repository reports as its head: the id of the commit `HEAD`
/// points at, or `"HEAD"` where it points at none.
pub fn head_text(id: Option<String>) -> (r: String)
    ensures
        r@ == match id {
            Some(s) => s@,
            None => "HEAD"@,
        },
{
    match id {
        Some(s) => s,
        None => String::from_str("HEAD"),
    }
}

/// A handle on a repository of the version-control engine.
pub trait GitRepository: Sized {
    /// Whether opening a repository at `path` is known to succeed; by
    /// default nothing is known.
    open spec fn opens(path: Seq<char>) -> bool {
        false
    }

    /// What `get_commits` with this window is known to return; by default
    /// nothing is known.
    open spec fn answers(&self, since: i64, until: i64) -> Option<Seq<Commit>> {
        None
    }

    /// Opens the repository at `path`. A failure is an engine error.
    fn new(path: &str) -> (r: Result<Self>)
        ensures
            r matches Err(e) ==> (!(e is PathError) && !(e is HashError) && !(e is IoError)),
            Self::opens(path@) ==> r is Ok,
    ;

    /// The id of the commit `HEAD` points at.
    fn head(&self) -> (r: String);

    /// The commits reachable from `HEAD` whose date lies in the closed window
    /// from `since` to `until`.
    fn get_commits(&self, since: i64, until: i64) -> (r: Result<Vec<Commit>>)
        ensures
            r matches Ok(v) ==> all_in_window(v@, since, until),
            self.answers(since, until) matches Some(v) ==> (r matches Ok(x) && x@ == v),
    ;
}

/// Relies on `std::path::Path::exists`: whether `path` is present on disk.
#[verifier::external_body]
fn present_on_disk(path: &str) -> (r: bool) {
    std::path::Path::new(path).exists()
}

/// A repository of the local filesystem, opened with the engine.
pub struct LocalGitRepository {
    git: EngineRepository,
}

impl GitRepository for LocalGitRepository {
    /// Opens the repository at `path`; a path without a metadata directory,
    /// or one the engine will not open, is an engine error.
    fn new(path: &str) -> (r: Result<Self>) {
        proof {
            reveal_strlit(".git");
        }
        let marker = join(path, ".git");
        if !present_on_disk(marker.as_str()) {
            return Err(WalrustError::GitError(git_error("no .git directory at the path")));
        }
        match open_repository(path) {
            Ok(git) => Ok(LocalGitRepository { git }),
            Err(e) => Err(WalrustError::GitError(e)),
        }
    }

    /// The id of the commit `HEAD` points at, or `"HEAD"` where it points at
    /// none (as in a repository without commits).
    fn head(&self) -> (r: String) {
        let id = match resolve_head(&self.git) {
            Ok(reference) => match reference.peel_to_commit() {
                Ok(commit) => Some(commit.id().to_string()),
                Err(_) => None,
            },
            Err(_) => None,
        };
        head_text(id)
    }

    /// Walks the history from `HEAD`, newest first, and keeps the commits in
    /// the window; the walk stops at the first commit older than `since`.
    fn get_commits(&self, since: i64, until: i64) -> (r: Result<Vec<Commit>>) {
        let mut walk = match self.git.revwalk() {
            Ok(w) => w,
            Err(e) => return Err(WalrustError::GitError(e)),
        };
        if let Err(e) = walk.push_head() {
            return Err(WalrustError::GitError(e));
        }
        if let Err(e) = sort_by_time(&mut walk) {
            return Err(WalrustError::GitError(e));
        }
        let mut commits: Vec<Commit> = Vec::new();
        // A history longer than `usize::MAX` commits cannot be held, so the
        // walk is bounded by that count.
        let mut walked: usize = 0;
        while walked < usize::MAX
            invariant
                all_in_window(commits@, since, until),
            decreases usize::MAX - walked,
        {
            walked = walked + 1;
            let oid = match next_in_walk(&mut walk) {
                None => break,
                Some(Err(e)) => return Err(WalrustError::GitError(e)),
                Some(Ok(oid)) => oid,
            };
            let commit = match self.git.find_commit(oid) {
                Ok(c) => c,
                Err(e) => return Err(WalrustError::GitError(e)),
            };
            let time = commit.time();
            let commit_date = match offset_date(time.seconds(), time.offset_minutes()) {
                Some(d) => d,
                None => return Err(
                    WalrustError::GitError(git_error("Failed to convert commit time to DateTime")),
                ),
            };
            let step = walk_step(commit_date, since, until);
            if step == WalkStep::Stop {
                break;
            }
            if step == WalkStep::Keep {
                let signature = commit_author(&commit);
                let built = commit_from_parts(
                    commit.id().to_string(),
                    commit_date,
                    signature_name(&signature),
                    signature_email(&signature),
                    commit_summary(&commit),
                    commit_message(&commit),
                )?;
                take_walked(&mut commits, commit_date, since, until, built);
            }
        }
        Ok(commits)
    }
}

/// The window a query asks for: a missing `since` means thirty days before
/// `now` (or the earliest instant, where that does not fit), a missing
/// `until` means `now`.
pub open spec fn window_of(since: Option<i64>, until: Option<i64>, now: i64) -> (i64, i64) {
    (
        match since {
            Some(s) => s,
            None => if now >= i64::MIN + 30 * SECONDS_PER_DAY {
                (now - 30 * SECONDS_PER_DAY) as i64
            } else {
                i64::MIN
            },
        },
        match until {
            Some(u) => u,
            None => now,
        },
    )
}

/// The window a query asks for, with the defaults of [`window_of`] filled
/// in.
pub fn query_window(since: Option<i64>, until: Option<i64>, now: i64) -> (r: (i64, i64))
    ensures
        r == window_of(since, until, now),
{
    let since = match since {
        Some(s) => s,
        None => {
            if now >= i64::MIN + 30 * SECONDS_PER_DAY {
                now - 30 * SECONDS_PER_DAY
            } else {
                i64::MIN
            }
        },
    };
    let until = match until {
        Some(u) => u,
        None => now,
    };
    (since, until)
}

/// Takes the next commit of a newest-first walk, dated `date`, into `kept`:
/// a commit in the window is appended (`built` is the commit), and the
/// result says whether the walk goes on, which it does unless the commit
/// is older than the window.
pub fn take_walked(kept: &mut Vec<Commit>, date: i64, since: i64, until: i64, built: Commit) -> (go_on:
    bool)
    ensures
        go_on == (walk_step_of(date, since, until) != WalkStep::Stop),
        walk_step_of(date, since, until) == WalkStep::Keep ==> final(kept)@ == old(kept)@.push(built),
        walk_step_of(date, since, until) != WalkStep::Keep ==> final(kept)@ == old(kept)@,
{
    match walk_step(date, since, until) {
        WalkStep::Stop => false,
        WalkStep::Skip => true,
        WalkStep::Keep => {
            kept.push(built);
            true
        },
    }
}

/// The commits of `commits` dated within the closed window, in order.
pub open spec fn commits_in_window(commits: Seq<Commit>, since: i64, until: i64) -> Seq<Commit> {
    commits.filter(|c: Commit| in_window(c.commit_date, since, until))
}

/// An engine handle whose history is held in memory, newest first: it opens
/// at any path, and answers each window with the commits of its history in
/// that window.
pub struct MemoryGitRepository {
    commits: Vec<Commit>,
}

impl MemoryGitRepository {
    /// The history the handle answers from.
    pub closed spec fn history(&self) -> Seq<Commit> {
        self.commits@
    }

    /// A handle with history `commits`.
    pub fn with_commits(commits: Vec<Commit>) -> (r: Self)
        ensures
            r.history() == commits@,
    {
        MemoryGitRepository { commits }
    }
}

impl GitRepository for MemoryGitRepository {
    open spec fn opens(path: Seq<char>) -> bool {
        true
    }

    open spec fn answers(&self, since: i64, until: i64) -> Option<Seq<Commit>> {
        Some(commits_in_window(self.history(), since, until))
    }

    /// A handle with an empty history.
    fn new(path: &str) -> (r: Result<Self>) {
        Ok(MemoryGitRepository { commits: Vec::new() })
    }

    /// The full hash of the newest commit, or `"HEAD"` for an empty history.
    fn head(&self) -> (r: String) {
        if self.commits.len() == 0 {
            head_text(None)
        } else {
            head_text(Some(self.commits[0].hash.full.clone()))
        }
    }

    fn get_commits(&self, since: i64, until: i64) -> (r: Result<Vec<Commit>>) {
        let ghost history = self.commits@;
        let ghost keep = |c: Commit| in_window(c.commit_date, since, until);
        let mut found: Vec<Commit> = Vec::new();
        let mut i: usize = 0;
        assert(history.take(0) =~= Seq::<Commit>::empty());
        proof {
            reveal(Seq::filter);
        }
        while i < self.commits.len()
            invariant
                i <= history.len(),
                history == self.commits@,
                keep == (|c: Commit| in_window(c.commit_date, since, until)),
                found@ == history.take(i as int).filter(keep),
                all_in_window(found@, since, until),
            decreases history.len() - i,
        {
            proof {
                reveal(Seq::filter);
                assert(history.take(i + 1).drop_last() =~= history.take(i as int));
                assert(history.take(i + 1).last() == history[i as int]);
            }
            let c = &self.commits[i];
            if since <= c.commit_date && c.commit_date <= until {
                found.push(c.clone());
            }
            i = i + 1;
        }
        assert(history.take(history.len() as int) =~= history);
        Ok(found)
    }
}

/// A discovered repository: where it is, its name, and its engine handle.
pub struct Repository<G: GitRepository> {
    /// The path of the repository.
    pub uri: String,
    /// The name of the repository: the last segment of its path.
    pub name: String,
    /// The engine handle the repository owns.
    pub vcs: G,
}

impl<G: GitRepository> Repository<G> {
    /// Builds the repository at `uri`: its name is the last segment of the
    /// path, and a path without one is a path error, whatever the engine
    /// would say; otherwise the engine handle is opened there.
    pub fn new(uri: &str) -> (r: Result<Self>)
        ensures
            path_name(uri@) is None <==> r matches Err(WalrustError::PathError(_)),
            path_name(uri@) is Some && G::opens(uri@) ==> r is Ok,
            r matches Err(WalrustError::PathError(p)) ==> p@ == uri@,
            r matches Ok(repo) ==> (repo.uri@ == uri@ && path_name(uri@) == Some(repo.name@)),
    {
        let name = match name_of_path(uri) {
            Some(n) => n,
            None => return Err(WalrustError::PathError(String::from_str(uri))),
        };
        let vcs = G::new(uri)?;
        Ok(Repository { uri: String::from_str(uri), name, vcs })
    }

    /// The path of the repository.
    pub fn get_uri(&self) -> (r: &String)
        ensures
            r == &self.uri,
    {
        &self.uri
    }

    /// The name of the repository.
    pub fn get_name(&self) -> (r: &String)
        ensures
            r == &self.name,
    {
        &self.name
    }

    /// The commits dated within the closed window from `since` to `until`;
    /// a missing `since` means thirty days before `now`, a missing `until`
    /// means `now` (seconds since the epoch, read by the caller).
    pub fn get_commits(&mut self, since: Option<i64>, until: Option<i64>, now: i64) -> (r: Result<
        Vec<Commit>,
    >)
        ensures
            *final(self) == *old(self),
            r matches Ok(v) ==> all_in_window(
                v@,
                window_of(since, until, now).0,
                window_of(since, until, now).1,
            ),
            old(self).vcs.answers(window_of(since, until, now).0, window_of(since, until, now).1) matches Some(
                v,
            ) ==> (r matches Ok(x) && x@ == v),
    {
        let (since, until) = query_window(since, until, now);
        self.vcs.get_commits(since, until)
    }
}

} // verus!
