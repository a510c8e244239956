use chrono::{TimeZone, Utc};
use walrust::commit::{Commit, CommitAuthor, CommitHash};
use walrust::WalrustError;

fn test_commit_date() -> i64 {
    Utc.with_ymd_and_hms(2025, 5, 4, 11, 0, 0).unwrap().timestamp()
}

#[test]
fn test_default_commit() {
    let commit = Commit::default();
    assert_eq!(commit.title, "");
    assert_eq!(commit.author.to_string(), "");
    assert_eq!(commit.commit_date, 0);
    assert_eq!(commit.message, "");
    assert_eq!(commit.hash.full, "");
}

#[test]
fn test_new_commit() {
    let title = "Initial commit".to_string();
    let author = CommitAuthor::new(
        "Luthen Rael".to_string(),
        "luthen.rael@totallynotarebel.com".to_string(),
    );
    let message = "Initial commit message".to_string();
    let hash_full = "abc123def4567890".to_string();
    let hash = CommitHash::new(hash_full.clone()).unwrap();
    let commit = Commit::new(
        title.clone(),
        author.clone(),
        test_commit_date(),
        message.clone(),
        hash.clone(),
    );

    assert_eq!(commit.title, title);
    assert_eq!(commit.author, author);
    assert_eq!(commit.commit_date, test_commit_date());
    assert_eq!(commit.message, message);
    assert_eq!(commit.hash, hash);
}

#[test]
fn test_commit_author_to_string() {
    let author = CommitAuthor::new(
        "Cassian Andor".to_string(),
        "cassian.andor@rebellion.com".to_string(),
    );
    assert_eq!(
        author.to_string(),
        "Cassian Andor <cassian.andor@rebellion.com>"
    );

    let author_empty_name =
        CommitAuthor::new("".to_string(), "cassian.andor@rebellion.com".to_string());
    assert_eq!(
        author_empty_name.to_string(),
        "<cassian.andor@rebellion.com>"
    );

    let author_empty_email = CommitAuthor::new("Cassian Andor".to_string(), "".to_string());
    assert_eq!(author_empty_email.to_string(), "Cassian Andor");

    let author_empty_both = CommitAuthor::new("".to_string(), "".to_string());
    assert_eq!(author_empty_both.to_string(), "");
}

#[test]
fn test_commit_hash_new() {
    let full_hash = "1234567890abcdef".to_string();
    let hash = CommitHash::new(full_hash.clone()).unwrap();
    assert_eq!(hash.full, full_hash);
    assert_eq!(hash.short, "1234567");
}

#[test]
fn test_commit_author_new() {
    let name = "Mon Mothma".to_string();
    let email = "mon.mothma@rebellion.com".to_string();
    let author = CommitAuthor::new(name.clone(), email.clone());
    assert_eq!(author.name, name);
    assert_eq!(author.email, email);
}

#[test]
fn test_commit_hash_short() {
    let full_hash = "abcdef1234567890".to_string();
    let hash = CommitHash::new(full_hash.clone()).unwrap();
    assert_eq!(hash.short, "abcdef1");
}

#[test]
fn test_commit_new_empty_fields() {
    let commit = Commit::new(
        "".to_string(),
        CommitAuthor::default(),
        0,
        "".to_string(),
        CommitHash::default(),
    );

    assert_eq!(commit.title, "");
    assert_eq!(commit.author, CommitAuthor::default());
    assert_eq!(commit.commit_date, 0);
    assert_eq!(commit.message, "");
    assert_eq!(commit.hash, CommitHash::default());
}

#[test]
fn author_renders_each_combination_of_empty_parts() {
    let both_empty = CommitAuthor::new(String::new(), String::new());
    assert_eq!(both_empty.to_string(), "");
    let name_only = CommitAuthor::new("A".to_string(), String::new());
    assert_eq!(name_only.to_string(), "A");
    let email_only = CommitAuthor::new(String::new(), "e@x".to_string());
    assert_eq!(email_only.to_string(), "<e@x>");
    let both = CommitAuthor::new("A".to_string(), "e@x".to_string());
    assert_eq!(both.to_string(), "A <e@x>");
}

#[test]
fn hash_of_exactly_seven_characters_is_its_own_short_form() {
    let hash = CommitHash::new("abcdef1".to_string()).unwrap();
    assert_eq!(hash.short, "abcdef1");
    assert_eq!(hash.full, "abcdef1");
}

#[test]
fn hash_shorter_than_seven_characters_is_an_error() {
    match CommitHash::new("abc123".to_string()) {
        Err(WalrustError::HashError(h)) => assert_eq!(h, "abc123"),
        _ => panic!("expected a hash error"),
    }
    assert!(CommitHash::new(String::new()).is_err());
}

#[test]
fn hash_short_form_counts_characters_not_bytes() {
    let hash = CommitHash::new("ééééééééé".to_string()).unwrap();
    assert_eq!(hash.short, "ééééééé");
}
