use git_report::history::{
    parse_history_output, extract_body, extract_files, interpret_toplevel, build_commit,
    LineRecord,
};
use git_report::errors::ReportError;
use git_report::time::UtcTime;

fn v(s: &str) -> Vec<u8> {
    s.as_bytes().to_vec()
}

fn noon() -> UtcTime {
    UtcTime { year: 2024, month: 6, day: 1, hour: 12, minute: 0, second: 0 }
}

#[test]
fn history_line_fields_round_trip() {
    let out = v("aaa111|Alice|2024-01-15T10:30:00+00:00|Fix bug\nbbb222|Bob|2024-01-14T09:00:00+00:00|Add feature");
    let recs = parse_history_output(true, &out).unwrap();
    assert_eq!(recs.len(), 2);
    assert_eq!(recs[0].hash, v("aaa111"));
    assert_eq!(recs[0].author, v("Alice"));
    assert_eq!(recs[0].date_raw, v("2024-01-15T10:30:00+00:00"));
    assert_eq!(recs[0].subject, v("Fix bug"));
    assert_eq!(recs[1].hash, v("bbb222"));
    assert_eq!(recs[1].subject, v("Add feature"));
}

#[test]
fn malformed_line_skipped_without_aborting() {
    let out = v("aaa|Alice|d1|First\nonly|three|fields\nbbb|Bob|d2|Second");
    let recs = parse_history_output(true, &out).unwrap();
    assert_eq!(recs.len(), 2);
    assert_eq!(recs[0].subject, v("First"));
    assert_eq!(recs[1].subject, v("Second"));
}

#[test]
fn extra_fields_go_to_later_pieces() {
    let out = v("aaa|Alice|d1|subject|extra");
    let recs = parse_history_output(true, &out).unwrap();
    assert_eq!(recs.len(), 1);
    assert_eq!(recs[0].subject, v("subject"));
}

#[test]
fn range_with_equal_endpoints_lists_nothing() {
    // The tool reports an empty listing for a range whose endpoints
    // coincide; parsing that listing yields the empty sequence.
    let out = v("");
    let recs = parse_history_output(true, &out).unwrap();
    assert_eq!(recs.len(), 0);
}

#[test]
fn failed_listing_query_is_fatal() {
    let r = parse_history_output(false, &v("aaa|Alice|d|s"));
    assert!(matches!(r, Err(ReportError::HistoryQueryFailed)));
}

#[test]
fn undecodable_listing_output_is_fatal() {
    let out = vec![0xff, 0xfe, 0x41];
    let r = parse_history_output(true, &out);
    assert!(matches!(r, Err(ReportError::HistoryQueryFailed)));
}

#[test]
fn body_is_message_without_first_line() {
    let out = v("Subject line\nFirst body line\n\nMore text\n");
    let body = extract_body(true, &out).unwrap();
    assert_eq!(body, v("First body line\n\nMore text"));
}

#[test]
fn body_of_subject_only_message_is_empty() {
    let out = v("Only a subject\n");
    let body = extract_body(true, &out).unwrap();
    assert_eq!(body, v(""));
}

#[test]
fn body_of_empty_output_is_empty() {
    let body = extract_body(true, &v("")).unwrap();
    assert_eq!(body, v(""));
}

#[test]
fn failed_body_query_is_fatal() {
    let r = extract_body(false, &v("whatever"));
    assert!(matches!(r, Err(ReportError::HistoryQueryFailed)));
}

#[test]
fn files_drop_blank_lines_and_header_artifacts() {
    let out = v("src/a.rs\n\n   \ncommit 123456\nsrc/b.rs\n");
    let files = extract_files(true, &out).unwrap();
    assert_eq!(files, vec![v("src/a.rs"), v("src/b.rs")]);
}

#[test]
fn files_of_empty_output_are_empty() {
    let files = extract_files(true, &v("")).unwrap();
    assert_eq!(files.len(), 0);
}

#[test]
fn toplevel_path_is_trimmed() {
    let r = interpret_toplevel(true, &v("/home/user/repo\n")).unwrap();
    assert_eq!(r, v("/home/user/repo"));
}

#[test]
fn toplevel_failure_means_no_repository() {
    let r = interpret_toplevel(false, &v(""));
    match r {
        Err(e) => {
            assert!(matches!(e, ReportError::NotARepository));
            assert_eq!(e.message(), v("Not in a git repository"));
        },
        Ok(_) => panic!("expected failure"),
    }
    assert_eq!(
        ReportError::HistoryQueryFailed.message(),
        v("Failed to query commit history")
    );
}

#[test]
fn commit_date_is_parsed_and_normalized_to_utc() {
    let rec = LineRecord {
        hash: v("aaa111"),
        author: v("Alice"),
        date_raw: v("2024-01-15T10:30:00+02:00"),
        subject: v("Fix bug"),
    };
    let c = build_commit(rec, v(""), Vec::new(), noon());
    assert_eq!(c.date.year, 2024);
    assert_eq!(c.date.month, 1);
    assert_eq!(c.date.day, 15);
    assert_eq!(c.date.hour, 8);
    assert_eq!(c.date.minute, 30);
    assert_eq!(c.date.second, 0);
}

#[test]
fn unparseable_date_falls_back_to_now() {
    let rec = LineRecord {
        hash: v("aaa111"),
        author: v("Alice"),
        date_raw: v("2024-01-15 10:30:00 +0200"),
        subject: v("Fix bug"),
    };
    let c = build_commit(rec, v(""), Vec::new(), noon());
    assert_eq!(c.date, noon());
}

#[test]
fn build_commit_keeps_fields() {
    let rec = LineRecord {
        hash: v("cafe12"),
        author: v("Bob"),
        date_raw: v("2023-12-31T23:59:58+00:00"),
        subject: v("Subject"),
    };
    let c = build_commit(rec, v("the body"), vec![v("f.rs")], noon());
    assert_eq!(c.hash, v("cafe12"));
    assert_eq!(c.author, v("Bob"));
    assert_eq!(c.subject, v("Subject"));
    assert_eq!(c.body, v("the body"));
    assert_eq!(c.files_changed, vec![v("f.rs")]);
    assert_eq!(c.date.year, 2023);
    assert_eq!(c.date.second, 58);
}
