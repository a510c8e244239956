//! The directory-tree capability that repository discovery runs on, and the
//! `/`-separated path helpers the discovery walk uses.
use vstd::prelude::*;

verus! {

/// The error a filesystem reports when a directory cannot be listed.
#[verifier::external_type_specification]
#[verifier::external_body]
pub struct ExIoError(std::io::Error);

/// The string views of a sequence of strings.
pub open spec fn views(v: Seq<String>) -> Seq<Seq<char>> {
    v.map_values(|s: String| s@)
}

/// The name of the metadata directory that marks a repository root.
pub open spec fn metadata_name() -> Seq<char> {
    seq!['.', 'g', 'i', 't']
}

/// `dir` joined with `name`: a separator goes between them unless `dir` is
/// empty or already ends with one.
pub open spec fn join_path(dir: Seq<char>, name: Seq<char>) -> Seq<char> {
    if dir.len() == 0 || dir.last() == '/' {
        dir + name
    } else {
        dir + seq!['/'] + name
    }
}

/// `p` without its trailing separators.
pub open spec fn trim_separators(p: Seq<char>) -> Seq<char>
    decreases p.len(),
{
    if p.len() > 0 && p.last() == '/' {
        trim_separators(p.drop_last())
    } else {
        p
    }
}

/// The characters of `p` after its last separator.
pub open spec fn after_last_separator(p: Seq<char>) -> Seq<char>
    decreases p.len(),
{
    if p.len() == 0 || p.last() == '/' {
        Seq::empty()
    } else {
        after_last_separator(p.drop_last()).push(p.last())
    }
}

/// The last segment of a path, trailing separators ignored.
pub open spec fn final_segment(p: Seq<char>) -> Seq<char> {
    after_last_separator(trim_separators(p))
}

/// Whether the last segment of `p` is the metadata directory's name.
pub open spec fn is_metadata_path(p: Seq<char>) -> bool {
    final_segment(p) == metadata_name()
}

/// The name a path gives a repository: its last segment, unless that is
/// empty, `.` or `..`.
pub open spec fn path_name(p: Seq<char>) -> Option<Seq<char>> {
    let s = final_segment(p);
    if s.len() == 0 || s == seq!['.'] || s == seq!['.', '.'] {
        None
    } else {
        Some(s)
    }
}

/// Joins `name` onto `dir`.
pub fn join(dir: &str, name: &str) -> (r: String)
    ensures
        r@ == join_path(dir@, name@),
{
    let n = dir.unicode_len();
    let mut r = String::from_str(dir);
    if n > 0 && dir.get_char(n - 1) != '/' {
        proof {
            reveal_strlit("/");
        }
        r.append("/");
    }
    r.append(name);
    r
}

/// The characters of `path` after its last separator.
pub fn after_separator(path: &str) -> (r: String)
    ensures
        r@ == after_last_separator(path@),
{
    let ghost p = path@;
    let n = path.unicode_len();
    let mut start: usize = n;
    assert(p.subrange(n as int, n as int) =~= Seq::<char>::empty());
    assert(p.subrange(0, n as int) =~= p);
    while start > 0 && path.get_char(start - 1) != '/'
        invariant
            start <= n,
            n == p.len(),
            p == path@,
            after_last_separator(p) == after_last_separator(p.subrange(0, start as int))
                + p.subrange(start as int, n as int),
        decreases start,
    {
        let ghost q = p.subrange(0, start as int);
        assert(q.drop_last() =~= p.subrange(0, start - 1));
        assert(after_last_separator(q) == after_last_separator(q.drop_last()).push(q.last()));
        assert(after_last_separator(q.drop_last()).push(q.last()) + p.subrange(
            start as int,
            n as int,
        ) =~= after_last_separator(q.drop_last()) + p.subrange(start - 1, n as int));
        start = start - 1;
    }
    assert(after_last_separator(p.subrange(0, start as int)) =~= Seq::<char>::empty());
    assert(after_last_separator(p) =~= p.subrange(start as int, n as int));
    String::from_str(path.substring_char(start, n))
}

/// `path` without its trailing separators.
pub fn trim_trailing_separators(path: &str) -> (r: String)
    ensures
        r@ == trim_separators(path@),
{
    let ghost p = path@;
    let n = path.unicode_len();
    let mut end: usize = n;
    assert(p.subrange(0, n as int) =~= p);
    while end > 0 && path.get_char(end - 1) == '/'
        invariant
            end <= n,
            n == p.len(),
            p == path@,
            trim_separators(p.subrange(0, end as int)) == trim_separators(p),
        decreases end,
    {
        assert(p.subrange(0, end as int).drop_last() =~= p.subrange(0, end - 1));
        end = end - 1;
    }
    assert(trim_separators(p) == p.subrange(0, end as int));
    String::from_str(path.substring_char(0, end))
}

/// The last segment of `path`, trailing separators ignored.
pub fn last_segment(path: &str) -> (r: String)
    ensures
        r@ == final_segment(path@),
{
    let trimmed = trim_trailing_separators(path);
    after_separator(trimmed.as_str())
}

/// Whether the last segment of `path` is the metadata directory's name.
pub fn is_metadata_dir(path: &str) -> (r: bool)
    ensures
        r == is_metadata_path(path@),
{
    let seg = last_segment(path);
    proof {
        reveal_strlit(".git");
    }
    let marker = String::from_str(".git");
    assert(marker@ =~= metadata_name());
    seg == marker
}

/// The name a path gives a repository, if it has one.
pub fn name_of_path(path: &str) -> (r: Option<String>)
    ensures
        match r {
            Some(s) => path_name(path@) == Some(s@),
            None => path_name(path@) is None,
        },
{
    let seg = last_segment(path);
    proof {
        reveal_strlit(".");
        reveal_strlit("..");
    }
    let dot = String::from_str(".");
    let dot_dot = String::from_str("..");
    assert(dot@ =~= seq!['.']);
    assert(dot_dot@ =~= seq!['.', '.']);
    if seg.as_str().is_empty() || seg == dot || seg == dot_dot {
        None
    } else {
        Some(seg)
    }
}

/// A directory tree that can be asked whether a path is a directory, whether
/// it exists, and what a directory holds.
///
/// The spec functions describe the tree the implementation presents; each
/// query answers from that tree.
pub trait Filesystem {
    /// Whether `path` is a directory of the tree.
    spec fn dir_at(&self, path: Seq<char>) -> bool;

    /// Whether `path` is present in the tree, as a directory or otherwise.
    spec fn exists_at(&self, path: Seq<char>) -> bool;

    /// The full paths of the entries of directory `path`, or `None` where it
    /// cannot be listed.
    spec fn entries_at(&self, path: Seq<char>) -> Option<Seq<Seq<char>>>;

    /// Whether `path` is a directory; false for a missing path.
    fn is_dir(&self, path: &str) -> (r: bool)
        ensures
            r == self.dir_at(path@),
    ;

    /// The full paths of the entries of directory `path`, or the error that
    /// kept it from being listed.
    fn read_dir(&self, path: &str) -> (r: Result<Vec<String>, std::io::Error>)
        ensures
            match r {
                Ok(v) => self.entries_at(path@) == Some(views(v@)),
                Err(_) => self.entries_at(path@) is None,
            },
    ;

    /// Whether `path` exists.
    fn path_exists(&self, path: &str) -> (r: bool)
        ensures
            r == self.exists_at(path@),
    ;
}

/// Whether `c` is an entry of directory `dir`: `dir` joined with the
/// (non-empty) last segment of `c`.
pub open spec fn is_child_path(dir: Seq<char>, c: Seq<char>) -> bool {
    after_last_separator(c).len() > 0 && c == join_path(dir, after_last_separator(c))
}

/// What an in-memory tree records of one path: the path, whether it is a
/// directory, and whether that directory can be listed.
spec fn entry_of(e: MemoryEntry) -> (Seq<char>, bool, bool) {
    (e.path@, e.is_dir, e.listable)
}

/// The paths among `records` that are entries of directory `dir`, in order.
pub open spec fn children_in(dir: Seq<char>, records: Seq<(Seq<char>, bool, bool)>) -> Seq<
    Seq<char>,
>
    decreases records.len(),
{
    if records.len() == 0 {
        Seq::empty()
    } else {
        let rest = children_in(dir, records.drop_last());
        if is_child_path(dir, records.last().0) {
            rest.push(records.last().0)
        } else {
            rest
        }
    }
}

/// One path of an in-memory tree.
struct MemoryEntry {
    path: String,
    is_dir: bool,
    listable: bool,
}

/// A directory tree held in memory: a list of paths, each a file or a
/// directory, in the order they were added. A directory lists the added
/// paths that are its entries, in that order.
pub struct MemoryFilesystem {
    entries: Vec<MemoryEntry>,
}

/// Relies on `std::io::Error::new`: the error of a directory that cannot be
/// listed.
#[verifier::external_body]
fn unlistable_error() -> (r: std::io::Error) {
    std::io::Error::new(std::io::ErrorKind::NotFound, "directory cannot be listed")
}

impl MemoryFilesystem {
    /// The recorded paths, each with whether it is a directory and whether
    /// it can be listed.
    pub closed spec fn records(&self) -> Seq<(Seq<char>, bool, bool)> {
        self.entries@.map_values(|e: MemoryEntry| entry_of(e))
    }

    /// An empty tree.
    pub fn new() -> (r: Self)
        ensures
            r.records() == Seq::<(Seq<char>, bool, bool)>::empty(),
    {
        let r = MemoryFilesystem { entries: Vec::new() };
        assert(r.records() =~= Seq::<(Seq<char>, bool, bool)>::empty());
        r
    }

    /// Records `path` with the given kind.
    fn add(&mut self, path: &str, is_dir: bool, listable: bool)
        ensures
            final(self).records() == old(self).records().push((path@, is_dir, listable)),
    {
        self.entries.push(MemoryEntry { path: String::from_str(path), is_dir, listable });
        assert(self.records() =~= old(self).records().push((path@, is_dir, listable)));
    }

    /// Adds a directory that can be listed.
    pub fn add_dir(&mut self, path: &str)
        ensures
            final(self).records() == old(self).records().push((path@, true, true)),
    {
        self.add(path, true, true);
    }

    /// Adds a directory whose listing fails.
    pub fn add_unlistable_dir(&mut self, path: &str)
        ensures
            final(self).records() == old(self).records().push((path@, true, false)),
    {
        self.add(path, true, false);
    }

    /// Adds a file.
    pub fn add_file(&mut self, path: &str)
        ensures
            final(self).records() == old(self).records().push((path@, false, false)),
    {
        self.add(path, false, false);
    }

    /// Whether some record of `path` satisfies `dir` and `listable` (where
    /// they are asked for).
    fn find(&self, path: &str, want_dir: bool, want_listable: bool) -> (r: bool)
        ensures
            r == exists|i: int|
                0 <= i < self.records().len() && #[trigger] self.records()[i].0 == path@ && (
                want_dir ==> self.records()[i].1) && (want_listable ==> self.records()[i].2),
    {
        let target = String::from_str(path);
        let mut i: usize = 0;
        while i < self.entries.len()
            invariant
                i <= self.entries@.len(),
                target@ == path@,
                forall|j: int|
                    0 <= j < i ==> !(#[trigger] self.records()[j].0 == path@ && (want_dir
                        ==> self.records()[j].1) && (want_listable ==> self.records()[j].2)),
            decreases self.entries@.len() - i,
        {
            let e = &self.entries[i];
            assert(self.records()[i as int] == entry_of(self.entries@[i as int]));
            if e.path == target && (!want_dir || e.is_dir) && (!want_listable || e.listable) {
                assert(self.records()[i as int].0 == path@);
                return true;
            }
            i = i + 1;
        }
        false
    }
}

impl Filesystem for MemoryFilesystem {
    open spec fn dir_at(&self, path: Seq<char>) -> bool {
        exists|i: int| 0 <= i < self.records().len() && #[trigger] self.records()[i].0 == path && self.records()[i].1
    }

    open spec fn exists_at(&self, path: Seq<char>) -> bool {
        exists|i: int| 0 <= i < self.records().len() && #[trigger] self.records()[i].0 == path
    }

    open spec fn entries_at(&self, path: Seq<char>) -> Option<Seq<Seq<char>>> {
        if exists|i: int|
            0 <= i < self.records().len() && #[trigger] self.records()[i].0 == path
                && self.records()[i].1 && self.records()[i].2 {
            Some(children_in(path, self.records()))
        } else {
            None
        }
    }

    fn is_dir(&self, path: &str) -> (r: bool) {
        self.find(path, true, false)
    }

    fn read_dir(&self, path: &str) -> (r: Result<Vec<String>, std::io::Error>) {
        if !self.find(path, true, true) {
            return Err(unlistable_error());
        }
        let ghost records = self.records();
        let mut children: Vec<String> = Vec::new();
        let mut i: usize = 0;
        assert(records.take(0) =~= Seq::<(Seq<char>, bool, bool)>::empty());
        assert(views(children@) =~= Seq::<Seq<char>>::empty());
        while i < self.entries.len()
            invariant
                i <= self.entries@.len(),
                records == self.records(),
                records.len() == self.entries@.len(),
                views(children@) == children_in(path@, records.take(i as int)),
            decreases self.entries@.len() - i,
        {
            let e = &self.entries[i];
            assert(records[i as int] == entry_of(self.entries@[i as int]));
            assert(records.take(i + 1).drop_last() =~= records.take(i as int));
            assert(records.take(i + 1).last() == records[i as int]);
            let name = after_separator(e.path.as_str());
            let joined = join(path, name.as_str());
            if !name.as_str().is_empty() && joined == e.path {
                let c = e.path.clone();
                children.push(c);
                assert(views(children@) =~= children_in(path@, records.take(i + 1)));
            } else {
                assert(views(children@) =~= children_in(path@, records.take(i + 1)));
            }
            i = i + 1;
        }
        assert(records.take(self.entries@.len() as int) =~= records);
        Ok(children)
    }

    fn path_exists(&self, path: &str) -> (r: bool) {
        self.find(path, false, false)
    }
}

} // verus!
