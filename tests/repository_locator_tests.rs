use std::collections::HashSet;
use walrust::commit::Commit;
use walrust::filesystem::{Filesystem, MemoryFilesystem};
use walrust::repository::{GitRepository, MemoryGitRepository};
use walrust::repository_locator::{keep_built, levels_below_entries, levels_to_read, RepositoryLocator};
use walrust::repository::Repository;
use walrust::WalrustError;
use walrust::Result;

/// Adds a repository at `path`: the directory and its metadata directory.
fn add_repo(fs: &mut MemoryFilesystem, path: &str) {
    fs.add_dir(path);
    fs.add_dir(&format!("{}/.git", path));
}

/// The tree:
/// root/nested_1/.git, root/not_a_repo/file.txt, root/depth_2/nested_2/.git,
/// root/depth_3/depth_3/nested_3/.git, root/depth_4/depth_4/depth_4/nested_4/.git
fn create_mock_directory_tree() -> MemoryFilesystem {
    let mut fs = MemoryFilesystem::new();
    fs.add_dir("root");
    add_repo(&mut fs, "root/nested_1");
    fs.add_dir("root/not_a_repo");
    fs.add_file("root/not_a_repo/file.txt");
    fs.add_dir("root/depth_2");
    add_repo(&mut fs, "root/depth_2/nested_2");
    fs.add_dir("root/depth_3");
    fs.add_dir("root/depth_3/depth_3");
    add_repo(&mut fs, "root/depth_3/depth_3/nested_3");
    fs.add_dir("root/depth_4");
    fs.add_dir("root/depth_4/depth_4");
    fs.add_dir("root/depth_4/depth_4/depth_4");
    add_repo(&mut fs, "root/depth_4/depth_4/depth_4/nested_4");
    fs
}

/// An engine handle that opens anywhere and holds no commits.
struct MockGitRepository {
    commits: Vec<Commit>,
}

impl GitRepository for MockGitRepository {
    fn new(_path: &str) -> Result<Self> {
        Ok(MockGitRepository {
            commits: Vec::new(),
        })
    }

    fn head(&self) -> String {
        "mock_head".to_string()
    }

    fn get_commits(&self, since: i64, until: i64) -> Result<Vec<Commit>> {
        Ok(self
            .commits
            .iter()
            .filter(|commit| commit.commit_date >= since)
            .filter(|commit| commit.commit_date <= until)
            .cloned()
            .collect())
    }
}

type MockGitRepositoryLocator = RepositoryLocator<MemoryFilesystem, MockGitRepository>;

fn located_uris(fs: MemoryFilesystem, search_root: &str, search_depth: usize) -> HashSet<String> {
    let locator = MockGitRepositoryLocator::new(fs, search_root, search_depth);
    let repositories = locator.locate();
    assert!(repositories.is_ok());
    repositories
        .unwrap()
        .iter()
        .map(|repo| repo.get_uri().clone())
        .collect()
}

fn run_tests(expected_uris: Vec<&str>, search_root: &str, search_depth: usize) {
    let locator = MockGitRepositoryLocator::new(create_mock_directory_tree(), search_root, search_depth);

    let repositories = locator.locate();
    assert!(repositories.is_ok());

    let repositories = repositories.unwrap();

    assert_eq!(repositories.len(), expected_uris.len());
    let actual_uris_set: HashSet<String> =
        repositories.iter().map(|repo| repo.get_uri().clone()).collect();
    let expected_uris_set: HashSet<String> =
        expected_uris.iter().map(|uri| uri.to_string()).collect();

    assert_eq!(actual_uris_set, expected_uris_set);
}

#[test]
fn test_discover_repositories_depth_0() {
    let expected_uris: Vec<&str> = Vec::new();
    run_tests(expected_uris, "root", 0);
}

#[test]
fn test_discover_repositories_depth_1() {
    run_tests(vec!["root/nested_1"], "root", 1);
}

#[test]
fn test_discover_repositories_depth_2() {
    run_tests(vec!["root/nested_1", "root/depth_2/nested_2"], "root", 2);
}

#[test]
fn test_discover_repositories_depth_3() {
    run_tests(
        vec![
            "root/nested_1",
            "root/depth_2/nested_2",
            "root/depth_3/depth_3/nested_3",
        ],
        "root",
        3,
    );
}

#[test]
fn small_tree_at_depth_two_finds_both_repositories() {
    let mut fs = MemoryFilesystem::new();
    fs.add_dir("root");
    add_repo(&mut fs, "root/nested_1");
    fs.add_dir("root/not_a_repo");
    fs.add_file("root/not_a_repo/file.txt");
    fs.add_dir("root/depth_2");
    add_repo(&mut fs, "root/depth_2/nested_2");
    let found = located_uris(fs, "root", 2);
    let expected: HashSet<String> = ["root/nested_1", "root/depth_2/nested_2"]
        .iter()
        .map(|s| s.to_string())
        .collect();
    assert_eq!(found, expected);
}

#[test]
fn depth_zero_finds_nothing_even_when_the_root_is_a_repository() {
    let mut fs = MemoryFilesystem::new();
    add_repo(&mut fs, "root");
    assert!(located_uris(fs, "root", 0).is_empty());
    let mut fs = MemoryFilesystem::new();
    add_repo(&mut fs, "root");
    let found = located_uris(fs, "root", 1);
    assert_eq!(found, ["root".to_string()].into_iter().collect());
}

#[test]
fn found_set_grows_with_depth() {
    let mut previous: HashSet<String> = HashSet::new();
    for depth in 0..7 {
        let found = located_uris(create_mock_directory_tree(), "root", depth);
        assert!(previous.is_subset(&found));
        previous = found;
    }
    assert_eq!(previous.len(), 4);
}

#[test]
fn metadata_directory_is_never_reported_itself() {
    let mut fs = MemoryFilesystem::new();
    fs.add_dir("root");
    add_repo(&mut fs, "root/.git");
    let found = located_uris(fs, "root", 5);
    assert_eq!(found, ["root".to_string()].into_iter().collect());

    let mut fs = MemoryFilesystem::new();
    fs.add_dir("root");
    add_repo(&mut fs, "root/.git");
    assert!(located_uris(fs, "root/.git", 5).is_empty());
}

#[test]
fn walk_descends_into_a_metadata_named_directory() {
    let mut fs = MemoryFilesystem::new();
    fs.add_dir("x");
    fs.add_dir("x/.git");
    add_repo(&mut fs, "x/.git/sub");
    let found = located_uris(fs, "x/.git", 2);
    assert_eq!(found, ["x/.git/sub".to_string()].into_iter().collect());
}

#[test]
fn repository_below_a_repository_is_not_reported() {
    let mut fs = MemoryFilesystem::new();
    fs.add_dir("root");
    add_repo(&mut fs, "root/outer");
    add_repo(&mut fs, "root/outer/inner");
    let found = located_uris(fs, "root", 5);
    assert_eq!(found, ["root/outer".to_string()].into_iter().collect());
}

#[test]
fn unlistable_directory_contributes_nothing() {
    let mut fs = MemoryFilesystem::new();
    fs.add_dir("root");
    fs.add_unlistable_dir("root/locked");
    add_repo(&mut fs, "root/locked/inside");
    add_repo(&mut fs, "root/open");
    let found = located_uris(fs, "root", 5);
    assert_eq!(found, ["root/open".to_string()].into_iter().collect());
}

#[test]
fn memory_filesystem_answers_from_its_records() {
    let fs = create_mock_directory_tree();
    assert!(fs.is_dir("root/nested_1"));
    assert!(!fs.is_dir("root/not_a_repo/file.txt"));
    assert!(fs.path_exists("root/not_a_repo/file.txt"));
    assert!(!fs.path_exists("root/missing"));
    let mut entries = fs.read_dir("root").unwrap();
    entries.sort();
    assert_eq!(
        entries,
        vec!["root/depth_2", "root/depth_3", "root/depth_4", "root/nested_1", "root/not_a_repo"]
    );
    assert!(fs.read_dir("root/not_a_repo/file.txt").is_err());
    assert!(fs.read_dir("root/missing").is_err());
}

#[test]
fn missing_root_finds_nothing() {
    assert!(located_uris(create_mock_directory_tree(), "elsewhere", 5).is_empty());
}

#[test]
fn locate_paths_matches_locate() {
    let locator = MockGitRepositoryLocator::new(create_mock_directory_tree(), "root", 3);
    let mut paths = locator.locate_paths();
    paths.sort();
    assert_eq!(
        paths,
        vec![
            "root/depth_2/nested_2".to_string(),
            "root/depth_3/depth_3/nested_3".to_string(),
            "root/nested_1".to_string(),
        ]
    );
}

#[test]
fn keep_built_drops_failed_attempts_in_order() {
    let attempts: Vec<Result<Repository<MockGitRepository>>> = vec![
        Repository::new("a/one"),
        Repository::new(".."),
        Err(WalrustError::HashError("x".to_string())),
        Repository::new("b/two"),
    ];
    let kept = keep_built(attempts);
    let names: Vec<String> = kept.iter().map(|r| r.get_name().clone()).collect();
    assert_eq!(names, vec!["one", "two"]);
}

#[test]
fn reading_depth_follows_the_walk() {
    assert_eq!(levels_to_read(0), 1);
    assert_eq!(levels_to_read(5), 6);
    assert_eq!(levels_to_read(usize::MAX), usize::MAX);
    assert_eq!(levels_below_entries("root", 3, false), 2);
    assert_eq!(levels_below_entries("root", 3, true), 0);
    assert_eq!(levels_below_entries("root/.git", 3, true), 2);
    assert_eq!(levels_below_entries("root", 0, false), 0);
}

#[test]
fn memory_handle_locator_returns_every_named_root() {
    for (depth, expected) in [
        (0usize, vec![]),
        (1, vec!["root/nested_1"]),
        (2, vec!["root/depth_2/nested_2", "root/nested_1"]),
        (3, vec!["root/depth_2/nested_2", "root/depth_3/depth_3/nested_3", "root/nested_1"]),
    ] {
        let locator =
            RepositoryLocator::<MemoryFilesystem, MemoryGitRepository>::new(create_mock_directory_tree(), "root", depth);
        let mut uris: Vec<String> = locator
            .locate()
            .unwrap()
            .iter()
            .map(|r| r.get_uri().clone())
            .collect();
        uris.sort();
        assert_eq!(uris, expected);
    }
}
