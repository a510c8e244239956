use walrust::commit::{Commit, CommitAuthor, CommitHash};
use walrust::filesystem::{is_metadata_dir, join, last_segment, name_of_path};
use walrust::report::{author_matches, commit_line, commit_line_with_date, filter_by_author, AuthorMatch};
use walrust::timestamp::{offset_date, MAX_TIMESTAMP, MIN_TIMESTAMP};

fn commit_by(name: &str, email: &str, title: &str) -> Commit {
    Commit::new(
        title.to_string(),
        CommitAuthor::new(name.to_string(), email.to_string()),
        0,
        String::new(),
        CommitHash::new("abcdef1234567890".to_string()).unwrap(),
    )
}

fn titles(commits: &[Commit]) -> Vec<String> {
    commits.iter().map(|c| c.title.clone()).collect()
}

fn sample() -> Vec<Commit> {
    vec![
        commit_by("Ann", "ann@x", "one"),
        commit_by("Bob", "bob@x", "two"),
        commit_by("Ann", "ann@x", "three"),
        commit_by("Ann", "", "four"),
    ]
}

#[test]
fn empty_author_keeps_everything() {
    let kept = filter_by_author(sample(), "", AuthorMatch::Formatted);
    assert_eq!(titles(&kept), vec!["one", "two", "three", "four"]);
}

#[test]
fn formatted_author_keeps_exact_matches_in_order() {
    let kept = filter_by_author(sample(), "Ann <ann@x>", AuthorMatch::Formatted);
    assert_eq!(titles(&kept), vec!["one", "three"]);
    let kept = filter_by_author(sample(), "Ann", AuthorMatch::Formatted);
    assert_eq!(titles(&kept), vec!["four"]);
    let kept = filter_by_author(sample(), "ann <ann@x>", AuthorMatch::Formatted);
    assert!(kept.is_empty());
}

#[test]
fn email_author_compares_the_email_alone() {
    let kept = filter_by_author(sample(), "ann@x", AuthorMatch::Email);
    assert_eq!(titles(&kept), vec!["one", "three"]);
    assert!(author_matches(&sample()[1], &"bob@x".to_string(), AuthorMatch::Email));
    assert!(!author_matches(&sample()[1], &"Bob <bob@x>".to_string(), AuthorMatch::Email));
}

#[test]
fn commit_line_joins_hash_date_and_title() {
    let c = commit_by("Ann", "ann@x", "Fix the walk");
    assert_eq!(
        commit_line_with_date(&c, "2025-05-04T11:00:00+00:00"),
        "abcdef1 2025-05-04T11:00:00+00:00 Fix the walk"
    );
}

#[test]
fn commit_line_renders_the_date_in_rfc3339() {
    let mut c = commit_by("Ann", "ann@x", "Fix the walk");
    c.commit_date = 1746356400;
    assert_eq!(
        commit_line(&c).unwrap(),
        "abcdef1 2025-05-04T11:00:00+00:00 Fix the walk"
    );
    c.commit_date = i64::MAX;
    assert!(commit_line(&c).is_none());
    c.commit_date = MAX_TIMESTAMP;
    assert!(commit_line(&c).is_some());
    c.commit_date = MIN_TIMESTAMP;
    assert!(commit_line(&c).is_some());
    c.commit_date = MIN_TIMESTAMP - 1;
    assert!(commit_line(&c).is_none());
}

#[test]
fn offset_is_added_in_minutes() {
    assert_eq!(offset_date(1000, 60), Some(4600));
    assert_eq!(offset_date(1000, -10), Some(400));
    assert_eq!(offset_date(i64::MAX, 0), None);
    assert_eq!(offset_date(MAX_TIMESTAMP, 0), Some(MAX_TIMESTAMP));
    assert_eq!(offset_date(MAX_TIMESTAMP + 1, 0), None);
    assert_eq!(offset_date(MIN_TIMESTAMP, 0), Some(MIN_TIMESTAMP));
    assert_eq!(offset_date(MIN_TIMESTAMP - 1, 0), None);
    assert_eq!(offset_date(MAX_TIMESTAMP, 60), Some(MAX_TIMESTAMP + 3600));
}

#[test]
fn path_helpers() {
    assert_eq!(join("root", ".git"), "root/.git");
    assert_eq!(join("root/", ".git"), "root/.git");
    assert_eq!(join("", ".git"), ".git");
    assert_eq!(last_segment("a/b/c"), "c");
    assert_eq!(last_segment("a/b/c//"), "c");
    assert_eq!(last_segment("c"), "c");
    assert_eq!(last_segment("/"), "");
    assert!(is_metadata_dir("root/.git"));
    assert!(is_metadata_dir(".git/"));
    assert!(!is_metadata_dir("root/.github"));
    assert_eq!(name_of_path("/path/to/repo"), Some("repo".to_string()));
    assert_eq!(name_of_path(".."), None);
    assert_eq!(name_of_path("."), None);
    assert_eq!(name_of_path(""), None);
}
