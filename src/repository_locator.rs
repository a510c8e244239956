//! Discovery of repositories under a search root, by a depth-bounded,
//! depth-first walk over a [`Filesystem`].
//!
//! Depth convention: with `search_depth == 0` nothing is found. With
//! `search_depth == n > 0`, the root itself and the directories up to `n`
//! levels below it are probed. A directory is a repository when it holds a
//! metadata directory (`.git`); the walk reports it and does not descend into
//! it. A directory named like the metadata directory is never reported,
//! though the walk descends into it like any other; a directory that cannot
//! be listed contributes nothing.
use vstd::prelude::*;

use crate::filesystem::{
    MemoryFilesystem, after_last_separator, children_in, is_child_path, is_metadata_dir, is_metadata_path, join,
    join_path, metadata_name, path_name, views,
    Filesystem,
};
use crate::repository::{GitRepository, LocalGitRepository, Repository};
use crate::{Result, WalrustError};

verus! {

/// The repositories found by a walk from `dir` that may still descend
/// `depth` levels, in the order the walk reports them.
pub open spec fn found_under<F: Filesystem>(fs: F, dir: Seq<char>, depth: nat) -> Seq<Seq<char>>
    decreases depth, 0nat, 0nat,
{
    if !fs.dir_at(dir) {
        Seq::empty()
    } else if !is_metadata_path(dir) && fs.exists_at(join_path(dir, metadata_name())) {
        seq![dir]
    } else if depth == 0 {
        Seq::empty()
    } else {
        match fs.entries_at(dir) {
            Some(entries) => found_in_entries(fs, entries, (depth - 1) as nat),
            None => Seq::empty(),
        }
    }
}

/// The repositories found by walks from each of `entries` in turn, each of
/// which may still descend `depth` levels.
pub open spec fn found_in_entries<F: Filesystem>(
    fs: F,
    entries: Seq<Seq<char>>,
    depth: nat,
) -> Seq<Seq<char>>
    decreases depth, 1nat, entries.len(),
{
    if entries.len() == 0 {
        Seq::empty()
    } else {
        found_in_entries(fs, entries.drop_last(), depth) + found_under(fs, entries.last(), depth)
    }
}

/// The repositories a search from `root` with depth `depth` finds.
pub open spec fn located<F: Filesystem>(fs: F, root: Seq<char>, depth: nat) -> Seq<Seq<char>> {
    if depth == 0 {
        Seq::empty()
    } else {
        found_under(fs, root, depth)
    }
}

/// What a repository reported by a walk is: a directory that holds the
/// metadata directory and is not itself named like it.
pub open spec fn is_repository_root<F: Filesystem>(fs: F, p: Seq<char>) -> bool {
    &&& fs.dir_at(p)
    &&& !is_metadata_path(p)
    &&& fs.exists_at(join_path(p, metadata_name()))
}

/// Whether `attempt` is a build attempt for the found path `p`: what it
/// built sits at `p` with `p`'s name, it fails with a path error exactly
/// where `p` has no name, and it succeeds where `p` has a name and the
/// engine handle is known to open there.
pub open spec fn attempt_fits<G: GitRepository>(attempt: Result<Repository<G>>, p: Seq<char>) -> bool {
    &&& (attempt matches Ok(repo) ==> (repo.uri@ == p && path_name(p) == Some(repo.name@)))
    &&& (path_name(p) is None <==> attempt matches Err(WalrustError::PathError(_)))
    &&& (path_name(p) is Some && G::opens(p) ==> attempt is Ok)
}

/// Whether `attempts` are one build attempt per path of `located`, in order.
pub open spec fn attempts_for<G: GitRepository>(
    attempts: Seq<Result<Repository<G>>>,
    located: Seq<Seq<char>>,
) -> bool {
    attempts.len() == located.len() && forall|i: int|
        0 <= i < attempts.len() ==> attempt_fits(#[trigger] attempts[i], located[i])
}

/// The repositories among `attempts` that were built, in order.
pub open spec fn built_of<G: GitRepository>(attempts: Seq<Result<Repository<G>>>) -> Seq<
    Repository<G>,
>
    decreases attempts.len(),
{
    if attempts.len() == 0 {
        Seq::empty()
    } else {
        let rest = built_of(attempts.drop_last());
        match attempts.last() {
            Ok(repo) => rest.push(repo),
            Err(_) => rest,
        }
    }
}

/// The repositories of `attempts` that were built, in order; the failed
/// attempts are dropped.
pub fn keep_built<G: GitRepository>(attempts: Vec<Result<Repository<G>>>) -> (r: Vec<Repository<G>>)
    ensures
        r@ == built_of(attempts@),
{
    let ghost given = attempts@;
    let mut items = attempts;
    let mut kept: Vec<Repository<G>> = Vec::new();
    let mut i: usize = 0;
    assert(given.take(0) =~= Seq::<Result<Repository<G>>>::empty());
    while i < items.len()
        invariant
            i <= items@.len(),
            items@.len() == given.len(),
            forall|j: int| i <= j < items@.len() ==> items@[j] == given[j],
            kept@ == built_of(given.take(i as int)),
        decreases items@.len() - i,
    {
        let mut slot: Result<Repository<G>> = Err(WalrustError::PathError(String::new()));
        items.set_and_swap(i, &mut slot);
        assert(slot == given[i as int]);
        assert(given.take(i + 1).drop_last() =~= given.take(i as int));
        assert(given.take(i + 1).last() == given[i as int]);
        match slot {
            Ok(repo) => {
                kept.push(repo);
            },
            Err(_) => {},
        }
        i = i + 1;
    }
    assert(given.take(items@.len() as int) =~= given);
    kept
}

/// Each repository `built_of` keeps comes from an attempt, and they come
/// in the order of the attempts.
proof fn lemma_built_of_picks<G: GitRepository>(attempts: Seq<Result<Repository<G>>>) -> (picked:
    Seq<int>)
    ensures
        picked.len() == built_of(attempts).len(),
        forall|j: int, k: int| 0 <= j < k < picked.len() ==> picked[j] < picked[k],
        forall|j: int|
            0 <= j < picked.len() ==> 0 <= #[trigger] picked[j] < attempts.len() && attempts[picked[j]]
                == Ok::<Repository<G>, WalrustError>(built_of(attempts)[j]),
    decreases attempts.len(),
{
    if attempts.len() == 0 {
        Seq::empty()
    } else {
        let rest = attempts.drop_last();
        let prev = lemma_built_of_picks(rest);
        assert forall|j: int| 0 <= j < prev.len() implies attempts[#[trigger] prev[j]] == rest[prev[j]] by {}
        match attempts.last() {
            Ok(repo) => {
                let picked = prev.push(attempts.len() - 1);
                assert forall|j: int|
                    0 <= j < picked.len() implies 0 <= #[trigger] picked[j] < attempts.len()
                    && attempts[picked[j]] == Ok::<Repository<G>, WalrustError>(built_of(attempts)[j]) by {
                    if j < prev.len() {
                        assert(picked[j] == prev[j]);
                        assert(attempts[prev[j]] == rest[prev[j]]);
                    }
                }
                picked
            },
            Err(_) => prev,
        }
    }
}

/// How many levels of a tree a search with depth `depth` reads: the walk
/// probes `depth` levels below the root, and looks one level further for
/// metadata directories.
pub fn levels_to_read(depth: usize) -> (r: usize)
    ensures
        r == if depth < usize::MAX {
            depth + 1
        } else {
            depth as int
        },
{
    if depth < usize::MAX {
        depth + 1
    } else {
        depth
    }
}

/// How many levels to read below the entries of directory `dir`, read with
/// `levels` levels left: none below a directory the walk reports (one that
/// holds a metadata directory and is not named like one), one fewer
/// otherwise.
pub fn levels_below_entries(dir: &str, levels: usize, holds_metadata: bool) -> (r: usize)
    ensures
        r == if levels == 0 || (holds_metadata && !is_metadata_path(dir@)) {
            0
        } else {
            levels - 1
        },
{
    if levels == 0 || (holds_metadata && !is_metadata_dir(dir)) {
        0
    } else {
        levels - 1
    }
}

/// A search over an in-memory tree that opens what it finds with the
/// version-control engine.
pub type GitRepositoryLocator = RepositoryLocator<MemoryFilesystem, LocalGitRepository>;

/// A search for repositories under a root, bounded by depth, over a
/// filesystem, opening what it finds with engine handles of type `G`.
pub struct RepositoryLocator<F: Filesystem, G: GitRepository> {
    filesystem: F,
    search_root: String,
    search_depth: usize,
    handle: core::marker::PhantomData<G>,
}

impl<F: Filesystem, G: GitRepository> RepositoryLocator<F, G> {
    /// The filesystem searched.
    pub closed spec fn spec_filesystem(&self) -> F {
        self.filesystem
    }

    /// The root of the search.
    pub closed spec fn spec_root(&self) -> Seq<char> {
        self.search_root@
    }

    /// The depth of the search.
    pub closed spec fn spec_depth(&self) -> nat {
        self.search_depth as nat
    }

    /// The repositories this search finds, in the order it reports them.
    pub open spec fn spec_located(&self) -> Seq<Seq<char>> {
        located(self.spec_filesystem(), self.spec_root(), self.spec_depth())
    }

    /// A search of `filesystem` from `search_root` with depth `search_depth`.
    pub fn new(filesystem: F, search_root: &str, search_depth: usize) -> (r: Self)
        ensures
            r.spec_filesystem() == filesystem,
            r.spec_root() == search_root@,
            r.spec_depth() == search_depth,
    {
        RepositoryLocator {
            filesystem,
            search_root: String::from_str(search_root),
            search_depth,
            handle: core::marker::PhantomData,
        }
    }

    /// The paths of the repositories under the search root.
    pub fn locate_paths(&self) -> (r: Vec<String>)
        ensures
            views(r@) == self.spec_located(),
    {
        let mut found: Vec<String> = Vec::new();
        if self.search_depth > 0 {
            self.locate_recursive(self.search_root.as_str(), self.search_depth, &mut found);
            assert(views(found@) =~= self.spec_located());
        } else {
            assert(views(found@) =~= self.spec_located());
        }
        found
    }

    /// The repositories under the search root, in the order the walk found
    /// them: one build attempt is made per found directory, in order, and
    /// the repositories built are returned; a directory whose repository
    /// cannot be built (it has no name, or the engine will not open it) is
    /// left out. The search itself never fails.
    pub fn locate(&self) -> (r: Result<Vec<Repository<G>>>)
        ensures
            r matches Ok(repos) && exists|attempts: Seq<Result<Repository<G>>>|
                attempts_for(attempts, self.spec_located()) && repos@ == built_of(attempts),
            well_formed(self.spec_filesystem()) ==> (r matches Ok(repos) && forall|i: int, j: int|
                0 <= i < repos@.len() && 0 <= j < repos@.len() && i != j ==> !is_under(
                    #[trigger] repos@[i].uri@,
                    #[trigger] repos@[j].uri@,
                )),
    {
        let paths = self.locate_paths();
        let ghost located = self.spec_located();
        let mut attempts: Vec<Result<Repository<G>>> = Vec::new();
        let mut i: usize = 0;
        while i < paths.len()
            invariant
                i <= paths@.len(),
                views(paths@) == located,
                attempts@.len() == i,
                forall|j: int| 0 <= j < i ==> attempt_fits(#[trigger] attempts@[j], located[j]),
            decreases paths@.len() - i,
        {
            assert(views(paths@)[i as int] == paths@[i as int]@);
            let attempt = Repository::<G>::new(paths[i].as_str());
            attempts.push(attempt);
            i = i + 1;
        }
        let ghost tried = attempts@;
        assert(attempts_for(tried, located));
        let repositories = keep_built(attempts);
        proof {
            if well_formed(self.spec_filesystem()) {
                let picked = lemma_built_of_picks(tried);
                lemma_located_distinct(self.spec_filesystem(), self.spec_root(), self.spec_depth());
                assert forall|a: int, b: int|
                    0 <= a < repositories@.len() && 0 <= b < repositories@.len() && a
                        != b implies !is_under(
                    #[trigger] repositories@[a].uri@,
                    #[trigger] repositories@[b].uri@,
                ) by {
                    assert(attempt_fits(tried[picked[a]], located[picked[a]]));
                    assert(attempt_fits(tried[picked[b]], located[picked[b]]));
                    let x = located[picked[a]];
                    let y = located[picked[b]];
                    assert(picked[a] != picked[b]) by {
                        if a < b {
                            assert(picked[a] < picked[b]);
                        } else {
                            assert(picked[b] < picked[a]);
                        }
                    }
                    if is_under(x, y) {
                        assert(located.contains(x));
                        assert(located.contains(y));
                        lemma_located_not_nested(
                            self.spec_filesystem(),
                            self.spec_root(),
                            self.spec_depth(),
                            x,
                            y,
                        );
                    }
                }
            }
        }
        Ok(repositories)
    }

    /// Appends to `found` the repositories a walk from `dir` finds when it
    /// may still descend `depth` levels.
    fn locate_recursive(&self, dir: &str, depth: usize, found: &mut Vec<String>)
        ensures
            views(final(found)@) == views(old(found)@) + found_under(
                self.spec_filesystem(),
                dir@,
                depth as nat,
            ),
        decreases depth,
    {
        let ghost fs = self.spec_filesystem();
        let ghost start = views(found@);
        if !self.filesystem.is_dir(dir) {
            assert(views(found@) =~= start + found_under(fs, dir@, depth as nat));
            return;
        }
        proof {
            reveal_strlit(".git");
        }
        let marker = join(dir, ".git");
        assert(".git"@ =~= metadata_name());
        if !is_metadata_dir(dir) && self.filesystem.path_exists(marker.as_str()) {
            found.push(String::from_str(dir));
            assert(views(found@) =~= start + found_under(fs, dir@, depth as nat));
            return;
        }
        if depth == 0 {
            assert(views(found@) =~= start + found_under(fs, dir@, depth as nat));
            return;
        }
        match self.filesystem.read_dir(dir) {
            Err(_) => {
                assert(views(found@) =~= start + found_under(fs, dir@, depth as nat));
            },
            Ok(entries) => {
                let ghost names = views(entries@);
                let mut i: usize = 0;
                assert(names.take(0) =~= Seq::<Seq<char>>::empty());
                assert(views(found@) =~= start + found_in_entries(fs, names.take(0), (depth - 1) as nat));
                while i < entries.len()
                    invariant
                        i <= entries@.len(),
                        depth > 0,
                        names == views(entries@),
                        fs == self.spec_filesystem(),
                        views(found@) == start + found_in_entries(
                            fs,
                            names.take(i as int),
                            (depth - 1) as nat,
                        ),
                    decreases entries@.len() - i,
                {
                    let ghost before = views(found@);
                    self.locate_recursive(entries[i].as_str(), depth - 1, found);
                    assert(names.take(i + 1).drop_last() =~= names.take(i as int));
                    assert(names.take(i + 1).last() == entries@[i as int]@);
                    assert(views(found@) =~= start + found_in_entries(
                        fs,
                        names.take(i + 1),
                        (depth - 1) as nat,
                    ));
                    i = i + 1;
                }
                assert(names.take(entries@.len() as int) =~= names);
            },
        }
    }
}

/// A path is in a concatenation exactly when it is in one of the parts.
proof fn lemma_concat_contains(a: Seq<Seq<char>>, b: Seq<Seq<char>>, x: Seq<char>)
    ensures
        (a + b).contains(x) <==> (a.contains(x) || b.contains(x)),
{
    if (a + b).contains(x) {
        let k = choose|k: int| 0 <= k < (a + b).len() && (a + b)[k] == x;
        if k < a.len() {
            assert(a[k] == x);
        } else {
            assert(b[k - a.len()] == x);
        }
    }
    if a.contains(x) {
        let k = choose|k: int| 0 <= k < a.len() && a[k] == x;
        assert((a + b)[k] == x);
    }
    if b.contains(x) {
        let k = choose|k: int| 0 <= k < b.len() && b[k] == x;
        assert((a + b)[k + a.len()] == x);
    }
}

/// A search with depth zero finds nothing, whatever the tree.
pub proof fn lemma_depth_zero_locates_nothing<F: Filesystem>(fs: F, root: Seq<char>)
    ensures
        located(fs, root, 0) == Seq::<Seq<char>>::empty(),
{
}

/// Whatever a walk from `dir` finds with `depth` levels left, it also finds
/// with one more level left.
pub proof fn lemma_found_under_monotone<F: Filesystem>(fs: F, dir: Seq<char>, depth: nat, x: Seq<char>)
    requires
        found_under(fs, dir, depth).contains(x),
    ensures
        found_under(fs, dir, depth + 1).contains(x),
    decreases depth, 0nat, 0nat,
{
    if fs.dir_at(dir) && !(!is_metadata_path(dir) && fs.exists_at(join_path(dir, metadata_name())))
        && depth > 0 {
        if let Some(entries) = fs.entries_at(dir) {
            lemma_found_in_entries_monotone(fs, entries, (depth - 1) as nat, x);
        }
    }
}

/// Whatever walks from `entries` find with `depth` levels left, they also
/// find with one more level left.
pub proof fn lemma_found_in_entries_monotone<F: Filesystem>(
    fs: F,
    entries: Seq<Seq<char>>,
    depth: nat,
    x: Seq<char>,
)
    requires
        found_in_entries(fs, entries, depth).contains(x),
    ensures
        found_in_entries(fs, entries, depth + 1).contains(x),
    decreases depth, 1nat, entries.len(),
{
    if entries.len() > 0 {
        let rest = entries.drop_last();
        let last = entries.last();
        lemma_concat_contains(found_in_entries(fs, rest, depth), found_under(fs, last, depth), x);
        lemma_concat_contains(
            found_in_entries(fs, rest, depth + 1),
            found_under(fs, last, depth + 1),
            x,
        );
        if found_in_entries(fs, rest, depth).contains(x) {
            lemma_found_in_entries_monotone(fs, rest, depth, x);
        } else {
            lemma_found_under_monotone(fs, last, depth, x);
        }
    }
}

/// A search finds with depth `k + 1` every repository it finds with depth
/// `k`: the found set grows with the depth.
pub proof fn lemma_located_monotone<F: Filesystem>(fs: F, root: Seq<char>, k: nat)
    ensures
        located(fs, root, k).to_set() <= located(fs, root, k + 1).to_set(),
{
    assert forall|x: Seq<char>| located(fs, root, k).to_set().contains(x) implies located(
        fs,
        root,
        k + 1,
    ).to_set().contains(x) by {
        if k > 0 {
            lemma_found_under_monotone(fs, root, k, x);
        }
    }
}

/// Every repository a walk from `dir` finds is a repository root.
pub proof fn lemma_found_under_are_roots<F: Filesystem>(fs: F, dir: Seq<char>, depth: nat, x: Seq<char>)
    requires
        found_under(fs, dir, depth).contains(x),
    ensures
        is_repository_root(fs, x),
    decreases depth, 0nat, 0nat,
{
    if fs.dir_at(dir) {
        if !is_metadata_path(dir) && fs.exists_at(join_path(dir, metadata_name())) {
            assert(seq![dir][0] == dir);
        } else if depth > 0 {
            if let Some(entries) = fs.entries_at(dir) {
                lemma_found_in_entries_are_roots(fs, entries, (depth - 1) as nat, x);
            }
        }
    }
}

/// Every repository walks from `entries` find is a repository root.
pub proof fn lemma_found_in_entries_are_roots<F: Filesystem>(
    fs: F,
    entries: Seq<Seq<char>>,
    depth: nat,
    x: Seq<char>,
)
    requires
        found_in_entries(fs, entries, depth).contains(x),
    ensures
        is_repository_root(fs, x),
    decreases depth, 1nat, entries.len(),
{
    if entries.len() > 0 {
        let rest = entries.drop_last();
        let last = entries.last();
        lemma_concat_contains(found_in_entries(fs, rest, depth), found_under(fs, last, depth), x);
        if found_in_entries(fs, rest, depth).contains(x) {
            lemma_found_in_entries_are_roots(fs, rest, depth, x);
        } else {
            lemma_found_under_are_roots(fs, last, depth, x);
        }
    }
}

/// No directory a search reports is itself named like the metadata
/// directory; each one holds the metadata directory, so it is the parent of
/// a metadata directory that is reported.
pub proof fn lemma_located_are_parents_of_metadata<F: Filesystem>(
    fs: F,
    root: Seq<char>,
    depth: nat,
    x: Seq<char>,
)
    requires
        located(fs, root, depth).contains(x),
    ensures
        !is_metadata_path(x),
        fs.exists_at(join_path(x, metadata_name())),
{
    lemma_found_under_are_roots(fs, root, depth, x);
}

} // verus!

verus! {

/// What a path below `d` starts with: `d` and, unless `d` is empty or ends
/// with one, a separator.
pub open spec fn dir_prefix(d: Seq<char>) -> Seq<char> {
    join_path(d, Seq::empty())
}

/// Whether `p` is `d` itself or lies somewhere below it.
pub open spec fn is_under(d: Seq<char>, p: Seq<char>) -> bool {
    p == d || (dir_prefix(d).len() < p.len() && p.subrange(0, dir_prefix(d).len() as int)
        == dir_prefix(d))
}

/// Whether every listing of `fs` holds distinct paths, each an entry of the
/// listed directory.
pub open spec fn well_formed<F: Filesystem>(fs: F) -> bool {
    forall|d: Seq<char>| #[trigger]
        fs.entries_at(d) matches Some(es) ==> es.no_duplicates() && forall|i: int|
            0 <= i < es.len() ==> is_child_path(d, #[trigger] es[i])
}

/// No separator follows the last separator.
proof fn lemma_after_separator_has_none(p: Seq<char>)
    ensures
        forall|k: int| 0 <= k < after_last_separator(p).len() ==> after_last_separator(p)[k] != '/',
    decreases p.len(),
{
    if p.len() > 0 && p.last() != '/' {
        lemma_after_separator_has_none(p.drop_last());
        let q = after_last_separator(p.drop_last());
        assert forall|k: int| 0 <= k < after_last_separator(p).len() implies after_last_separator(
            p,
        )[k] != '/' by {
            if k < q.len() {
                assert(q.push(p.last())[k] == q[k]);
            }
        }
    }
}

/// An entry of `d` lies strictly below `d`, and what lies below the entry
/// starts with the entry and a separator.
proof fn lemma_child_shape(d: Seq<char>, c: Seq<char>)
    requires
        is_child_path(d, c),
    ensures
        c == dir_prefix(d) + after_last_separator(c),
        is_under(d, c),
        c != d,
        dir_prefix(c) == c.push('/'),
        forall|k: int| 0 <= k < after_last_separator(c).len() ==> after_last_separator(c)[k] != '/',
{
    let n = after_last_separator(c);
    lemma_after_separator_has_none(c);
    assert(c =~= dir_prefix(d) + n);
    assert(c.subrange(0, dir_prefix(d).len() as int) =~= dir_prefix(d));
    assert(c.last() == n.last());
    assert(dir_prefix(c) =~= c.push('/'));
}

/// Lying below is transitive.
proof fn lemma_under_transitive(a: Seq<char>, b: Seq<char>, c: Seq<char>)
    requires
        is_under(a, b),
        is_under(b, c),
    ensures
        is_under(a, c),
{
    if b != a && c != b {
        let pa = dir_prefix(a);
        let pb = dir_prefix(b);
        assert(pb.subrange(0, b.len() as int) =~= b);
        assert forall|k: int| 0 <= k < pa.len() implies c.subrange(0, pa.len() as int)[k] == pa[k] by {
            assert(c[k] == c.subrange(0, pb.len() as int)[k]);
            assert(pb[k] == b[k]);
            assert(b[k] == b.subrange(0, pa.len() as int)[k]);
        }
        assert(c.subrange(0, pa.len() as int) =~= pa);
    }
}

/// Nothing lies below two different entries of one directory.
proof fn lemma_entries_disjoint(d: Seq<char>, c1: Seq<char>, c2: Seq<char>, p: Seq<char>)
    requires
        is_child_path(d, c1),
        is_child_path(d, c2),
        is_under(c1, p),
        is_under(c2, p),
    ensures
        c1 == c2,
{
    lemma_child_shape(d, c1);
    lemma_child_shape(d, c2);
    let pd = dir_prefix(d);
    let n1 = after_last_separator(c1);
    let n2 = after_last_separator(c2);
    // Every character of `c1` and of `c2` is the character of `p` there.
    assert forall|k: int| 0 <= k < c1.len() implies p[k] == c1[k] by {
        if p != c1 {
            assert(p.subrange(0, c1.len() as int + 1)[k] == c1.push('/')[k]);
        }
    }
    assert forall|k: int| 0 <= k < c2.len() implies p[k] == c2[k] by {
        if p != c2 {
            assert(p.subrange(0, c2.len() as int + 1)[k] == c2.push('/')[k]);
        }
    }
    if c1.len() < c2.len() {
        let k = c1.len() as int;
        assert(c2[k] == n2[k - pd.len()]);
        if p == c1 {
            assert(false);
        } else {
            assert(p.subrange(0, c1.len() as int + 1)[k] == c1.push('/')[k]);
            assert(false);
        }
    } else if c2.len() < c1.len() {
        let k = c2.len() as int;
        assert(c1[k] == n1[k - pd.len()]);
        if p == c2 {
            assert(false);
        } else {
            assert(p.subrange(0, c2.len() as int + 1)[k] == c2.push('/')[k]);
            assert(false);
        }
    } else {
        assert(c1 =~= c2);
    }
}

/// A path walks from `entries` find is found by the walk from one of them.
proof fn lemma_found_in_one_entry<F: Filesystem>(
    fs: F,
    entries: Seq<Seq<char>>,
    depth: nat,
    x: Seq<char>,
) -> (i: int)
    requires
        found_in_entries(fs, entries, depth).contains(x),
    ensures
        0 <= i < entries.len(),
        found_under(fs, entries[i], depth).contains(x),
    decreases entries.len(),
{
    let rest = entries.drop_last();
    lemma_concat_contains(found_in_entries(fs, rest, depth), found_under(fs, entries.last(), depth), x);
    if found_in_entries(fs, rest, depth).contains(x) {
        lemma_found_in_one_entry(fs, rest, depth, x)
    } else {
        entries.len() - 1
    }
}

/// Every path a walk from `dir` finds lies below `dir` (or is `dir`).
proof fn lemma_found_under_is_below<F: Filesystem>(fs: F, dir: Seq<char>, depth: nat, x: Seq<char>)
    requires
        well_formed(fs),
        found_under(fs, dir, depth).contains(x),
    ensures
        is_under(dir, x),
    decreases depth,
{
    if fs.dir_at(dir) && !(!is_metadata_path(dir) && fs.exists_at(join_path(dir, metadata_name())))
        && depth > 0 {
        if let Some(entries) = fs.entries_at(dir) {
            let i = lemma_found_in_one_entry(fs, entries, (depth - 1) as nat, x);
            lemma_found_under_is_below(fs, entries[i], (depth - 1) as nat, x);
            lemma_child_shape(dir, entries[i]);
            lemma_under_transitive(dir, entries[i], x);
        }
    } else if fs.dir_at(dir) && !is_metadata_path(dir) && fs.exists_at(join_path(dir, metadata_name())) {
        assert(seq![dir][0] == dir);
    }
}

/// Concatenating two duplicate-free sequences with no common path gives a
/// duplicate-free sequence.
proof fn lemma_concat_distinct(a: Seq<Seq<char>>, b: Seq<Seq<char>>)
    requires
        a.no_duplicates(),
        b.no_duplicates(),
        forall|x: Seq<char>| a.contains(x) ==> !b.contains(x),
    ensures
        (a + b).no_duplicates(),
{
    assert forall|i: int, j: int|
        0 <= i < (a + b).len() && 0 <= j < (a + b).len() && i != j implies (a + b)[i] != (a
        + b)[j] by {
        if i < a.len() && j >= a.len() {
            assert(a.contains(a[i]));
            assert(b[j - a.len()] == (a + b)[j]);
        } else if j < a.len() && i >= a.len() {
            assert(a.contains(a[j]));
            assert(b[i - a.len()] == (a + b)[i]);
        }
    }
}

/// A walk from `dir` never finds a path twice.
proof fn lemma_found_under_distinct<F: Filesystem>(fs: F, dir: Seq<char>, depth: nat)
    requires
        well_formed(fs),
    ensures
        found_under(fs, dir, depth).no_duplicates(),
    decreases depth, 0nat, 0nat,
{
    if fs.dir_at(dir) && !(!is_metadata_path(dir) && fs.exists_at(join_path(dir, metadata_name())))
        && depth > 0 {
        if let Some(entries) = fs.entries_at(dir) {
            lemma_found_in_entries_distinct(fs, dir, entries, (depth - 1) as nat);
        }
    }
}

/// Walks from distinct entries of `dir` never find a path twice.
proof fn lemma_found_in_entries_distinct<F: Filesystem>(
    fs: F,
    dir: Seq<char>,
    entries: Seq<Seq<char>>,
    depth: nat,
)
    requires
        well_formed(fs),
        entries.no_duplicates(),
        forall|i: int| 0 <= i < entries.len() ==> is_child_path(dir, #[trigger] entries[i]),
    ensures
        found_in_entries(fs, entries, depth).no_duplicates(),
    decreases depth, 1nat, entries.len(),
{
    if entries.len() > 0 {
        let rest = entries.drop_last();
        let last = entries.last();
        assert forall|i: int| 0 <= i < rest.len() implies is_child_path(dir, #[trigger] rest[i]) by {
            assert(rest[i] == entries[i]);
        }
        lemma_found_in_entries_distinct(fs, dir, rest, depth);
        lemma_found_under_distinct(fs, last, depth);
        assert forall|x: Seq<char>|
            found_in_entries(fs, rest, depth).contains(x) implies !found_under(
            fs,
            last,
            depth,
        ).contains(x) by {
            let i = lemma_found_in_one_entry(fs, rest, depth, x);
            if found_under(fs, last, depth).contains(x) {
                lemma_found_under_is_below(fs, rest[i], depth, x);
                lemma_found_under_is_below(fs, last, depth, x);
                assert(rest[i] == entries[i]);
                assert(is_child_path(dir, entries[entries.len() - 1]));
                lemma_entries_disjoint(dir, rest[i], last, x);
                assert(entries[i] == entries[entries.len() - 1]);
            }
        }
        lemma_concat_distinct(found_in_entries(fs, rest, depth), found_under(fs, last, depth));
    }
}

/// No path a walk from `dir` finds lies strictly below another it finds.
proof fn lemma_found_under_not_nested<F: Filesystem>(
    fs: F,
    dir: Seq<char>,
    depth: nat,
    x: Seq<char>,
    y: Seq<char>,
)
    requires
        well_formed(fs),
        found_under(fs, dir, depth).contains(x),
        found_under(fs, dir, depth).contains(y),
        is_under(x, y),
    ensures
        x == y,
    decreases depth,
{
    if fs.dir_at(dir) && !(!is_metadata_path(dir) && fs.exists_at(join_path(dir, metadata_name())))
        && depth > 0 {
        if let Some(entries) = fs.entries_at(dir) {
            let m = (depth - 1) as nat;
            let i = lemma_found_in_one_entry(fs, entries, m, x);
            let j = lemma_found_in_one_entry(fs, entries, m, y);
            if entries[i] == entries[j] {
                lemma_found_under_not_nested(fs, entries[i], m, x, y);
            } else {
                lemma_found_under_is_below(fs, entries[i], m, x);
                lemma_found_under_is_below(fs, entries[j], m, y);
                lemma_under_transitive(entries[i], x, y);
                lemma_entries_disjoint(dir, entries[i], entries[j], y);
            }
        }
    } else if fs.dir_at(dir) && !is_metadata_path(dir) && fs.exists_at(join_path(dir, metadata_name())) {
        assert(seq![dir][0] == dir);
    }
}

/// On a well-formed tree a search reports no directory twice.
pub proof fn lemma_located_distinct<F: Filesystem>(fs: F, root: Seq<char>, depth: nat)
    requires
        well_formed(fs),
    ensures
        located(fs, root, depth).no_duplicates(),
{
    if depth > 0 {
        lemma_found_under_distinct(fs, root, depth);
    }
}

/// On a well-formed tree a search never reports a directory that lies below
/// another directory it reports.
pub proof fn lemma_located_not_nested<F: Filesystem>(
    fs: F,
    root: Seq<char>,
    depth: nat,
    x: Seq<char>,
    y: Seq<char>,
)
    requires
        well_formed(fs),
        located(fs, root, depth).contains(x),
        located(fs, root, depth).contains(y),
        is_under(x, y),
    ensures
        x == y,
{
    lemma_found_under_not_nested(fs, root, depth, x, y);
}

} // verus!

verus! {

/// Whether the recorded paths are distinct.
pub open spec fn paths_distinct(records: Seq<(Seq<char>, bool, bool)>) -> bool {
    forall|i: int, j: int|
        0 <= i < records.len() && 0 <= j < records.len() && i != j ==> #[trigger] records[i].0
            != #[trigger] records[j].0
}

/// The children found among `records` are entries of `dir`, each the path
/// of some record, and distinct where the paths are.
proof fn lemma_children_in_shape(dir: Seq<char>, records: Seq<(Seq<char>, bool, bool)>)
    ensures
        forall|k: int|
            0 <= k < children_in(dir, records).len() ==> is_child_path(
                dir,
                #[trigger] children_in(dir, records)[k],
            ) && exists|i: int|
                0 <= i < records.len() && #[trigger] records[i].0 == children_in(dir, records)[k],
        paths_distinct(records) ==> children_in(dir, records).no_duplicates(),
    decreases records.len(),
{
    if records.len() > 0 {
        let rest = records.drop_last();
        lemma_children_in_shape(dir, rest);
        let prev = children_in(dir, rest);
        assert forall|k: int| 0 <= k < prev.len() implies exists|i: int|
            0 <= i < records.len() && #[trigger] records[i].0 == #[trigger] prev[k] by {
            let i = choose|i: int| 0 <= i < rest.len() && rest[i].0 == prev[k];
            assert(records[i] == rest[i]);
        }
        if is_child_path(dir, records.last().0) {
            let cur = prev.push(records.last().0);
            assert forall|k: int| 0 <= k < cur.len() implies is_child_path(dir, #[trigger] cur[k])
                && exists|i: int| 0 <= i < records.len() && #[trigger] records[i].0 == cur[k] by {
                if k < prev.len() {
                    assert(cur[k] == prev[k]);
                } else {
                    assert(records[records.len() - 1].0 == cur[k]);
                }
            }
            if paths_distinct(records) {
                assert(paths_distinct(rest)) by {
                    assert forall|i: int, j: int|
                        0 <= i < rest.len() && 0 <= j < rest.len() && i != j implies #[trigger] rest[i].0
                            != #[trigger] rest[j].0 by {
                        assert(rest[i] == records[i]);
                        assert(rest[j] == records[j]);
                    }
                }
                assert forall|k: int| 0 <= k < prev.len() implies prev[k] != records.last().0 by {
                    let i = choose|i: int| 0 <= i < rest.len() && rest[i].0 == prev[k];
                    assert(rest[i] == records[i]);
                    assert(records[i].0 != records[records.len() - 1].0);
                }
                assert forall|a: int, b: int|
                    0 <= a < cur.len() && 0 <= b < cur.len() && a != b implies cur[a] != cur[b] by {
                    if a < prev.len() && b < prev.len() {
                        assert(cur[a] == prev[a] && cur[b] == prev[b]);
                    } else if a < prev.len() {
                        assert(cur[a] == prev[a]);
                    } else if b < prev.len() {
                        assert(cur[b] == prev[b]);
                    }
                }
            }
        } else if paths_distinct(records) {
            assert(paths_distinct(rest)) by {
                assert forall|i: int, j: int|
                    0 <= i < rest.len() && 0 <= j < rest.len() && i != j implies #[trigger] rest[i].0
                        != #[trigger] rest[j].0 by {
                    assert(rest[i] == records[i]);
                    assert(rest[j] == records[j]);
                }
            }
        }
    }
}

/// An in-memory tree whose recorded paths are distinct is well formed.
pub proof fn lemma_memory_well_formed(fs: MemoryFilesystem)
    requires
        paths_distinct(fs.records()),
    ensures
        well_formed(fs),
{
    assert forall|d: Seq<char>| #[trigger] fs.entries_at(d) is Some implies ({
        let es = fs.entries_at(d)->0;
        es.no_duplicates() && forall|i: int| 0 <= i < es.len() ==> is_child_path(d, #[trigger] es[i])
    }) by {
        lemma_children_in_shape(d, fs.records());
    }
}

} // verus!

verus! {

/// The paths of `repos`.
pub open spec fn uris_of<G: GitRepository>(repos: Seq<Repository<G>>) -> Seq<Seq<char>> {
    repos.map_values(|r: Repository<G>| r.uri@)
}

/// The paths of `located` that have a name.
pub open spec fn named(located: Seq<Seq<char>>) -> Seq<Seq<char>> {
    located.filter(|p: Seq<char>| path_name(p) is Some)
}

/// Where the engine handle opens at every path, a search returns a
/// repository for every found directory that has a name, in order.
pub proof fn lemma_opening_handle_returns_all_named<G: GitRepository>(
    attempts: Seq<Result<Repository<G>>>,
    located: Seq<Seq<char>>,
)
    requires
        attempts_for(attempts, located),
        forall|p: Seq<char>| #[trigger] G::opens(p),
    ensures
        uris_of(built_of(attempts)) == named(located),
    decreases attempts.len(),
{
    reveal(Seq::filter);
    if attempts.len() > 0 {
        let rest = attempts.drop_last();
        let lrest = located.drop_last();
        assert forall|i: int| 0 <= i < rest.len() implies attempt_fits(#[trigger] rest[i], lrest[i]) by {
            assert(rest[i] == attempts[i]);
            assert(lrest[i] == located[i]);
            assert(attempt_fits(attempts[i], located[i]));
        }
        lemma_opening_handle_returns_all_named(rest, lrest);
        let k = attempts.len() - 1;
        assert(attempt_fits(attempts[k], located[k]));
        assert(G::opens(located[k]));
        match attempts.last() {
            Ok(repo) => {
                assert(uris_of(built_of(rest).push(repo)) =~= uris_of(built_of(rest)).push(repo.uri@));
            },
            Err(_) => {},
        }
    } else {
        assert(uris_of(built_of(attempts)) =~= named(located));
    }
}

/// A named path is a path of the sequence that has a name.
proof fn lemma_named_member(located: Seq<Seq<char>>, x: Seq<char>)
    requires
        named(located).contains(x),
    ensures
        located.contains(x),
        path_name(x) is Some,
    decreases located.len(),
{
    reveal(Seq::filter);
    if located.len() > 0 {
        let rest = located.drop_last();
        let prev = named(rest);
        let k = choose|k: int| 0 <= k < named(located).len() && named(located)[k] == x;
        if k < prev.len() {
            assert(prev[k] == x);
            lemma_named_member(rest, x);
            let j = choose|j: int| 0 <= j < rest.len() && rest[j] == x;
            assert(located[j] == x);
        } else {
            assert(located[located.len() - 1] == x);
        }
    }
}

/// The named directories a search finds with depth `k` it also finds with
/// depth `k + 1`; with an engine handle that opens everywhere, these are
/// exactly the repositories returned, so what is returned grows with depth.
pub proof fn lemma_named_located_monotone<F: Filesystem>(
    fs: F,
    root: Seq<char>,
    k: nat,
    x: Seq<char>,
)
    requires
        named(located(fs, root, k)).contains(x),
    ensures
        named(located(fs, root, k + 1)).contains(x),
{
    lemma_named_member(located(fs, root, k), x);
    lemma_found_under_monotone(fs, root, k, x);
    let s = located(fs, root, k + 1);
    let i = choose|i: int| 0 <= i < s.len() && s[i] == x;
    s.lemma_filter_contains(|p: Seq<char>| path_name(p) is Some, i);
}

} // verus!
