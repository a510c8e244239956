//! Narrowing a commit list to an author, and the one-line rendering of a
//! commit.
use vstd::prelude::*;

use crate::commit::{Commit, CommitAuthor, CommitHash};
use crate::timestamp::in_calendar;

verus! {

/// Which part of a commit's author an author filter compares against.
#[derive(Debug, Clone, Copy, PartialEq, Eq, Structural)]
pub enum AuthorMatch {
    /// The author rendered as `"Name <email>"`.
    Formatted,
    /// The author's email alone.
    Email,
}

/// The text of `c`'s author that a filter with mode `mode` compares.
pub open spec fn author_key(c: Commit, mode: AuthorMatch) -> Seq<char> {
    match mode {
        AuthorMatch::Formatted => c.author.text(),
        AuthorMatch::Email => c.author.email@,
    }
}

/// Whether a filter for `author` keeps `c`: an empty `author` keeps
/// everything, any other keeps exact matches only.
pub open spec fn keeps(c: Commit, author: Seq<char>, mode: AuthorMatch) -> bool {
    author.len() == 0 || author_key(c, mode) == author
}

/// A commit with every field empty, to stand in a slot that was emptied.
fn blank_commit() -> (r: Commit) {
    Commit::new(
        String::new(),
        CommitAuthor::new(String::new(), String::new()),
        0,
        String::new(),
        CommitHash { short: String::new(), full: String::new() },
    )
}

/// Whether `c`'s author matches `author` under `mode`.
pub fn author_matches(c: &Commit, author: &String, mode: AuthorMatch) -> (r: bool)
    ensures
        r == keeps(*c, author@, mode),
{
    if author.as_str().is_empty() {
        return true;
    }
    match mode {
        AuthorMatch::Formatted => c.author.to_string() == *author,
        AuthorMatch::Email => c.author.email == *author,
    }
}

/// The commits of `commits` that a filter for `author` under `mode` keeps,
/// in their order.
pub fn filter_by_author(commits: Vec<Commit>, author: &str, mode: AuthorMatch) -> (r: Vec<Commit>)
    ensures
        r@ == commits@.filter(|c: Commit| keeps(c, author@, mode)),
{
    let ghost given = commits@;
    let ghost pred = |c: Commit| keeps(c, author@, mode);
    let wanted = String::from_str(author);
    let mut items = commits;
    let mut kept: Vec<Commit> = Vec::new();
    let mut i: usize = 0;
    assert(given.take(0) =~= Seq::<Commit>::empty());
    proof {
        reveal(Seq::filter);
    }
    while i < items.len()
        invariant
            i <= items@.len(),
            items@.len() == given.len(),
            wanted@ == author@,
            pred == (|c: Commit| keeps(c, author@, mode)),
            forall|j: int| i <= j < items@.len() ==> items@[j] == given[j],
            kept@ == given.take(i as int).filter(pred),
        decreases items@.len() - i,
    {
        let mut slot = blank_commit();
        items.set_and_swap(i, &mut slot);
        assert(slot == given[i as int]);
        let keep = author_matches(&slot, &wanted, mode);
        proof {
            reveal(Seq::filter);
            assert(given.take(i + 1).drop_last() =~= given.take(i as int));
            assert(given.take(i + 1).last() == given[i as int]);
        }
        if keep {
            kept.push(slot);
        }
        i = i + 1;
    }
    assert(given.take(items@.len() as int) =~= given);
    kept
}

/// The calendar text of an instant, as the calendar library renders it in
/// RFC 3339.
pub uninterp spec fn rfc3339_text(seconds: int) -> Seq<char>;

/// Relies on `chrono::DateTime::from_timestamp` and `DateTime::to_rfc3339`:
/// the RFC 3339 text of the instant, exactly where the calendar represents
/// it.
#[verifier::external_body]
fn rfc3339(seconds: i64) -> (r: Option<String>)
    ensures
        r is Some <==> in_calendar(seconds as int),
        r matches Some(s) ==> s@ == rfc3339_text(seconds as int),
{
    chrono::DateTime::from_timestamp(seconds, 0).map(|d| d.to_rfc3339())
}

/// The line a commit is reported by: its short hash, `date_text` and its
/// title, separated by single spaces.
pub fn commit_line_with_date(c: &Commit, date_text: &str) -> (r: String)
    ensures
        r@ == c.hash.short@ + seq![' '] + date_text@ + seq![' '] + c.title@,
{
    proof {
        reveal_strlit(" ");
    }
    let mut r = String::from_str(c.hash.short.as_str());
    r.append(" ");
    r.append(date_text);
    r.append(" ");
    r.append(c.title.as_str());
    r
}

/// The line a commit is reported by, with its date in RFC 3339; `None`
/// exactly where the calendar cannot represent the date.
pub fn commit_line(c: &Commit) -> (r: Option<String>)
    ensures
        r is Some <==> in_calendar(c.commit_date as int),
        r matches Some(s) ==> s@ == c.hash.short@ + seq![' '] + rfc3339_text(c.commit_date as int)
            + seq![' '] + c.title@,
{
    match rfc3339(c.commit_date) {
        Some(date_text) => Some(commit_line_with_date(c, date_text.as_str())),
        None => None,
    }
}

} // verus!
