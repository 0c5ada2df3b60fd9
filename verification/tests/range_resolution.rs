use git_report::history::Commit;
use git_report::range::{resolve_reference, resolve_selection, selection_labels};
use git_report::errors::ReportError;
use git_report::time::UtcTime;

fn v(s: &str) -> Vec<u8> {
    s.as_bytes().to_vec()
}

fn commit(hash: &str, subject: &str) -> Commit {
    Commit {
        hash: v(hash),
        author: v("Alice"),
        date: UtcTime { year: 2024, month: 1, day: 15, hour: 10, minute: 30, second: 0 },
        subject: v(subject),
        body: v(""),
        files_changed: Vec::new(),
    }
}

#[test]
fn prefix_match_takes_first_in_order() {
    let commits = vec![
        commit("aaa111ffff", "newest"),
        commit("aaa222ffff", "older"),
        commit("bbb333ffff", "oldest"),
    ];
    let i = resolve_reference(&commits, &v("aaa")).unwrap();
    assert_eq!(i, 0);
    let j = resolve_reference(&commits, &v("aaa2")).unwrap();
    assert_eq!(j, 1);
    let k = resolve_reference(&commits, &v("bbb333ffff")).unwrap();
    assert_eq!(k, 2);
}

#[test]
fn unmatched_reference_fails_with_commit_not_found() {
    let commits = vec![commit("aaa111ffff", "one")];
    let r = resolve_reference(&commits, &v("zzz"));
    match r {
        Err(e) => {
            assert!(matches!(e, ReportError::CommitNotFound(_)));
            assert_eq!(e.message(), v("Commit 'zzz' not found"));
        },
        Ok(_) => panic!("expected failure"),
    }
}

#[test]
fn prefix_match_is_case_sensitive() {
    let commits = vec![commit("abcdef1234", "one")];
    assert!(resolve_reference(&commits, &v("ABC")).is_err());
    assert!(resolve_reference(&commits, &v("abc")).is_ok());
}

#[test]
fn reference_must_match_from_the_start() {
    let commits = vec![commit("abcdef1234", "one")];
    assert!(resolve_reference(&commits, &v("bcd")).is_err());
}

#[test]
fn empty_reference_matches_first_commit() {
    let commits = vec![commit("abcdef1234", "one"), commit("ffffff0000", "two")];
    assert_eq!(resolve_reference(&commits, &v("")).unwrap(), 0);
}

#[test]
fn aborted_selection_fails() {
    let r = resolve_selection(3, None);
    assert!(matches!(r, Err(ReportError::SelectionAborted)));
    assert_eq!(
        ReportError::SelectionAborted.message(),
        v("Failed to get user selection")
    );
}

#[test]
fn in_range_selection_resolves() {
    assert_eq!(resolve_selection(3, Some(2)).unwrap(), 2);
}

#[test]
fn out_of_range_selection_fails() {
    let r = resolve_selection(3, Some(3));
    assert!(matches!(r, Err(ReportError::SelectionAborted)));
}

#[test]
fn labels_show_ordinal_short_hash_subject_and_date() {
    let commits = vec![
        commit("aaa111ffff", "Fix bug"),
        commit("bbb222eeee", "Add feature"),
    ];
    let labels = selection_labels(&commits);
    assert_eq!(labels.len(), 2);
    assert_eq!(labels[0], v("1. aaa111ff - Fix bug (2024-01-15)"));
    assert_eq!(labels[1], v("2. bbb222ee - Add feature (2024-01-15)"));
}
