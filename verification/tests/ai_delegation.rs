use git_report::ai::{
    build_prompt, build_payload, interpret_ai_response, endpoint_url, request_timeout_secs,
};
use git_report::history::Commit;
use git_report::errors::ReportError;
use git_report::time::UtcTime;

fn v(s: &str) -> Vec<u8> {
    s.as_bytes().to_vec()
}

fn contains(haystack: &[u8], needle: &str) -> bool {
    let n = needle.as_bytes();
    haystack.windows(n.len()).any(|w| w == n)
}

fn t(y: u16, mo: u8, d: u8, h: u8, mi: u8, s: u8) -> UtcTime {
    UtcTime { year: y, month: mo, day: d, hour: h, minute: mi, second: s }
}

fn commit(hash: &str, subject: &str, body: &str, files: &[&str]) -> Commit {
    Commit {
        hash: v(hash),
        author: v("Al"),
        date: t(2024, 1, 2, 3, 4, 5),
        subject: v(subject),
        body: v(body),
        files_changed: files.iter().map(|f| v(f)).collect(),
    }
}

#[test]
fn prompt_carries_range_facts_and_dossier() {
    let c = commit("aaa111", "Fix bug", "Why it broke", &["src/a.rs"]);
    let now = t(2024, 1, 5, 7, 8, 9);
    let p = build_prompt(&v("/repo"), &now, &c, &c, &vec![c.clone()]);
    assert!(contains(&p, "Generate a complete, professional Git commit report"));
    assert!(contains(&p, "1. Title and Repository Information"));
    assert!(contains(&p, "5. Conclusion"));
    assert!(contains(&p, "Repository: /repo\nCommit Range: aaa111 -> aaa111\nTotal Commits: 1\nGenerated: 2024-01-05 07:08:09 UTC\n\nCommit Data:\n"));
    assert!(contains(&p, "Commit 1:\n  Hash: aaa111\n  Author: Al\n  Date: 2024-01-02 03:04:05\n  Subject: Fix bug\n  Description: Why it broke\n  Files Changed:\n    - src/a.rs\n"));
}

#[test]
fn full_prompt_text_for_empty_range() {
    let from = commit("a", "older", "", &[]);
    let to = commit("b", "newer", "", &[]);
    let now = t(2024, 1, 5, 7, 8, 9);
    let p = build_prompt(&v("/r"), &now, &from, &to, &Vec::new());
    let expected = "Generate a complete, professional Git commit report based on the following commit data. \
                    Create a well-structured report with these sections:\n\
                    1. Title and Repository Information\n\
                    2. Executive Summary\n\
                    3. Detailed Commit Analysis\n\
                    4. Technical Impact Assessment\n\
                    5. Conclusion\n\n\
                    Guidelines:\n\
                    - Use clear, professional language\n\
                    - Avoid repetition and unnecessary sections\n\
                    - Focus on what was actually accomplished\n\
                    - Explain technical changes in business terms when possible\n\
                    - Keep the report concise but comprehensive\n\
                    - Use proper markdown formatting\n\n\
                    Repository: /r\n\
                    Commit Range: a -> b\n\
                    Total Commits: 0\n\
                    Generated: 2024-01-05 07:08:09 UTC\n\n\
                    Commit Data:\n";
    assert_eq!(String::from_utf8(p).unwrap(), expected);
}

#[test]
fn prompt_omits_blank_description_and_empty_files() {
    let c = commit("aaa111", "Fix bug", "   ", &[]);
    let now = t(2024, 1, 5, 7, 8, 9);
    let p = build_prompt(&v("/repo"), &now, &c, &c, &vec![c.clone()]);
    assert!(!contains(&p, "Description:"));
    assert!(!contains(&p, "Files Changed:"));
}

#[test]
fn payload_is_valid_json_with_fixed_parameters() {
    let prompt = v("Line \"one\"\n\tLine two \\ end");
    let payload = build_payload(&v("gemma3"), &prompt);
    let parsed: serde_json::Value = serde_json::from_slice(&payload).unwrap();
    assert_eq!(parsed["model"].as_str().unwrap(), "gemma3");
    assert_eq!(
        parsed["prompt"].as_str().unwrap(),
        "Line \"one\"\n\tLine two \\ end"
    );
    assert_eq!(parsed["stream"].as_bool().unwrap(), false);
    assert_eq!(parsed["options"]["temperature"].as_f64().unwrap(), 0.7);
    assert_eq!(parsed["options"]["top_p"].as_f64().unwrap(), 0.9);
    assert_eq!(parsed["options"]["max_tokens"].as_i64().unwrap(), 4000);
}

#[test]
fn payload_escapes_control_bytes() {
    let payload = build_payload(&v("m"), &v("a\u{1}b"));
    let parsed: serde_json::Value = serde_json::from_slice(&payload).unwrap();
    assert_eq!(parsed["prompt"].as_str().unwrap(), "a\u{1}b");
}

#[test]
fn non_success_status_names_status_and_model() {
    let r = interpret_ai_response(false, 500, &v(""), &v("gemma3"));
    match r {
        Err(e) => {
            assert!(matches!(e, ReportError::AiServiceError(500, _)));
            let msg = String::from_utf8(e.message()).unwrap();
            assert!(msg.contains("500"));
            assert!(msg.contains("gemma3"));
            assert_eq!(
                msg,
                "Ollama API request failed with status: 500 for model 'gemma3'"
            );
        },
        Ok(_) => panic!("expected failure"),
    }
}

#[test]
fn successful_response_text_passes_verbatim() {
    let body = v("{\"response\":\"# Report\\n\\nAll good.\",\"done\":true}");
    let r = interpret_ai_response(true, 200, &body, &v("gemma3")).unwrap();
    assert_eq!(r, v("# Report\n\nAll good."));
}

#[test]
fn missing_response_field_is_malformed() {
    let body = v("{\"done\":true}");
    let r = interpret_ai_response(true, 200, &body, &v("gemma3"));
    match r {
        Err(e) => {
            assert!(matches!(e, ReportError::AiResponseMalformed(_)));
            assert_eq!(
                String::from_utf8(e.message()).unwrap(),
                "Invalid response format from Ollama for model 'gemma3'"
            );
        },
        Ok(_) => panic!("expected failure"),
    }
}

#[test]
fn unparseable_response_body_is_malformed() {
    let r = interpret_ai_response(true, 200, &v("not json at all"), &v("m"));
    assert!(matches!(r, Err(ReportError::AiResponseMalformed(_))));
}

#[test]
fn non_string_response_field_is_malformed() {
    let r = interpret_ai_response(true, 200, &v("{\"response\":5}"), &v("m"));
    assert!(matches!(r, Err(ReportError::AiResponseMalformed(_))));
}

#[test]
fn unreachable_service_message_names_model_and_endpoint() {
    let e = ReportError::AiServiceUnreachable(v("gemma3"));
    assert_eq!(
        String::from_utf8(e.message()).unwrap(),
        "Failed to connect to Ollama with model 'gemma3'. Make sure Ollama is running on localhost:11434"
    );
}

#[test]
fn endpoint_and_timeout_are_fixed() {
    assert_eq!(endpoint_url(), "http://localhost:11434/api/generate");
    assert_eq!(request_timeout_secs(), 120);
}
