use git_report::history::Commit;
use git_report::report::{generate_report, default_output_name};
use git_report::time::UtcTime;

fn v(s: &str) -> Vec<u8> {
    s.as_bytes().to_vec()
}

fn contains(haystack: &[u8], needle: &str) -> bool {
    let n = needle.as_bytes();
    if n.is_empty() {
        return true;
    }
    haystack.windows(n.len()).any(|w| w == n)
}

fn t(y: u16, mo: u8, d: u8, h: u8, mi: u8, s: u8) -> UtcTime {
    UtcTime { year: y, month: mo, day: d, hour: h, minute: mi, second: s }
}

fn commit(hash: &str, subject: &str, body: &str, files: &[&str]) -> Commit {
    Commit {
        hash: v(hash),
        author: v("Al"),
        date: t(2024, 1, 2, 3, 4, 5),
        subject: v(subject),
        body: v(body),
        files_changed: files.iter().map(|f| v(f)).collect(),
    }
}

#[test]
fn full_report_text_for_one_commit() {
    let c = commit("aaaa1111", "Fix", "Line1\nLine2", &["f.rs"]);
    let now = t(2024, 1, 5, 7, 8, 9);
    let r = generate_report(&v("/r"), &now, &c, &c, &vec![c.clone()]);
    let expected = "Git Commit Report\n\
                    ================\n\n\
                    Repository: /r\n\
                    Generated: 2024-01-05 07:08:09 UTC\n\
                    Commit Range: aaaa1111 -> aaaa1111\n\
                    Total Commits: 1\n\n\
                    Summary\n\
                    -------\n\
                    From: Fix (aaaa1111)\n\
                    To: Fix (aaaa1111)\n\
                    Date Range: 2024-01-02 03:04:05 to 2024-01-02 03:04:05\n\n\
                    Detailed Commits\n\
                    ================\n\n\
                    1. Fix\n   \
                    Hash: aaaa1111\n   \
                    Author: Al\n   \
                    Date: 2024-01-02 03:04:05\n   \
                    Description:\n     \
                    Line1\n     \
                    Line2\n   \
                    Files Changed:\n     \
                    - f.rs\n\n";
    assert_eq!(String::from_utf8(r).unwrap(), expected);
}

#[test]
fn numbering_follows_input_order() {
    // Newest first in, item 1 is the newest; nothing is re-sorted.
    let newest = commit("aaa111", "Fix bug", "", &[]);
    let older = commit("bbb222", "Add feature", "", &[]);
    let now = t(2024, 1, 5, 0, 0, 0);
    let r = generate_report(
        &v("/r"),
        &now,
        &older,
        &newest,
        &vec![newest.clone(), older.clone()],
    );
    assert!(contains(&r, "1. Fix bug\n"));
    assert!(contains(&r, "2. Add feature\n"));
    let one = r.windows(10).position(|w| w == b"1. Fix bug").unwrap();
    let two = r.windows(14).position(|w| w == b"2. Add feature").unwrap();
    assert!(one < two);
}

#[test]
fn synthesis_is_deterministic() {
    let c1 = commit("aaa111", "Fix", "body", &["a.rs"]);
    let c2 = commit("bbb222", "Add", "", &[]);
    let now = t(2024, 3, 4, 5, 6, 7);
    let r1 = generate_report(&v("/repo"), &now, &c1, &c2, &vec![c1.clone(), c2.clone()]);
    let r2 = generate_report(&v("/repo"), &now, &c1, &c2, &vec![c1.clone(), c2.clone()]);
    assert_eq!(r1, r2);
}

#[test]
fn only_generation_moment_moves_the_text() {
    let c = commit("aaa111", "Fix", "", &[]);
    let r1 = generate_report(&v("/r"), &t(2024, 1, 1, 0, 0, 0), &c, &c, &vec![c.clone()]);
    let r2 = generate_report(&v("/r"), &t(2025, 2, 2, 1, 1, 1), &c, &c, &vec![c.clone()]);
    assert_ne!(r1, r2);
    assert!(contains(&r1, "Generated: 2024-01-01 00:00:00 UTC"));
    assert!(contains(&r2, "Generated: 2025-02-02 01:01:01 UTC"));
}

#[test]
fn blank_body_omits_description_block() {
    let c = commit("aaa111", "Fix", "  \n \t ", &["a.rs"]);
    let now = t(2024, 1, 5, 0, 0, 0);
    let r = generate_report(&v("/r"), &now, &c, &c, &vec![c.clone()]);
    assert!(!contains(&r, "Description:"));
    assert!(contains(&r, "Files Changed:"));
}

#[test]
fn empty_file_list_omits_files_block() {
    let c = commit("aaa111", "Fix", "some body", &[]);
    let now = t(2024, 1, 5, 0, 0, 0);
    let r = generate_report(&v("/r"), &now, &c, &c, &vec![c.clone()]);
    assert!(contains(&r, "Description:"));
    assert!(contains(&r, "     some body\n"));
    assert!(!contains(&r, "Files Changed:"));
}

#[test]
fn empty_range_has_header_and_summary_only() {
    let a = commit("aaa111", "Same", "", &[]);
    let now = t(2024, 1, 5, 0, 0, 0);
    let r = generate_report(&v("/r"), &now, &a, &a, &Vec::new());
    assert!(contains(&r, "Total Commits: 0\n"));
    assert!(contains(&r, "Detailed Commits\n================\n\n"));
    assert!(!contains(&r, "1. "));
}

#[test]
fn default_output_names_mark_delegated_reports() {
    let now = t(2024, 1, 5, 7, 8, 9);
    assert_eq!(default_output_name(false, &now), v("git-report-20240105_070809.txt"));
    assert_eq!(default_output_name(true, &now), v("git-report-ai-20240105_070809.txt"));
}
