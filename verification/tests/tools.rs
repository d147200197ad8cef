use ys_coding_agent::bash::{
    execution_error, poll_step, render_result, tail_truncate, timed_out, BashTool, PollAction,
    WaitState,
};
use ys_coding_agent::compat::ProviderCompat;
use ys_coding_agent::edit::{
    detect_crlf, edit_request, edit_text, find_match, fuzzy_normalize, strip_bom, EditInput,
    EditItem, EditTool, EditsArg,
};
use ys_coding_agent::model::{ToolError, ToolResult};
use ys_coding_agent::read::{render_read, ReadTool};
use ys_coding_agent::write::WriteTool;

fn pairs(v: &[(&str, &str)]) -> Vec<(String, String)> {
    v.iter().map(|(a, b)| (a.to_string(), b.to_string())).collect()
}

fn done(r: Result<(String, ToolResult), ToolError>) -> (String, ToolResult) {
    r.expect("edit succeeds")
}

#[test]
fn standard_enables_stream_usage() {
    assert!(ProviderCompat::standard().supports_stream_usage);
}

#[test]
fn provider_specific_stream_usage_flags() {
    assert!(ProviderCompat::deepseek().supports_stream_usage);
    assert!(!ProviderCompat::minimax().supports_stream_usage);
    assert!(ProviderCompat::minimax().tool_calls_as_text);
    assert!(ProviderCompat::deepseek().has_reasoning_content);
}

#[test]
fn test_tail_truncate_short() {
    let input = "line1\nline2\nline3\n";
    let result = tail_truncate(input);
    assert_eq!(result, input);
}

#[test]
fn test_tail_truncate_long() {
    let lines: Vec<String> = (1..=3000).map(|i| format!("line{i}")).collect();
    let input = lines.join("\n");
    let result = tail_truncate(&input);
    assert!(result.contains("Truncated"));
    assert!(result.contains("line3000"));
}

#[test]
fn tail_truncate_keeps_last_lines_exactly() {
    let lines: Vec<String> = (1..=2001).map(|i| format!("l{i}")).collect();
    let input = lines.join("\n");
    let result = tail_truncate(&input);
    assert!(result.starts_with("[Truncated 1 lines.]\n\nl2\nl3\n"));
    assert!(result.ends_with("l2000\nl2001"));
}

#[test]
fn test_fuzzy_normalize() {
    assert_eq!(fuzzy_normalize("\u{201C}hello\u{201D}"), "\"hello\"");
    assert_eq!(fuzzy_normalize("a\u{2013}b"), "a-b");
    assert_eq!(fuzzy_normalize("a\u{00A0}b"), "a b");
    assert_eq!(fuzzy_normalize("hello\u{200B}world"), "helloworld");
}

#[test]
fn fuzzy_normalize_applies_nfkc_before_folding() {
    // The ligature "ﬁ" becomes "fi" under NFKC; a wrapper that gave its
    // input back would leave it.
    assert_eq!(fuzzy_normalize("\u{FB01}le"), "file");
}

#[test]
fn detect_crlf_counts_line_endings() {
    assert!(detect_crlf("a\r\nb\r\nc\n"));
    assert!(!detect_crlf("a\nb\r\nc\n"));
    assert!(!detect_crlf("no newline"));
}

#[test]
fn strip_bom_removes_only_the_mark() {
    assert_eq!(strip_bom("\u{FEFF}abc"), "abc");
    assert_eq!(strip_bom("abc"), "abc");
}

#[test]
fn find_match_prefers_exact_then_fuzzy() {
    assert_eq!(find_match("hello world", "world"), Some((6, false)));
    assert_eq!(find_match("say \u{201C}hi\u{201D}", "\"hi\""), Some((4, true)));
    assert_eq!(find_match("abc", "xyz"), None);
}

#[test]
fn test_edit_exact_match() {
    let (text, res) = done(edit_text("exact.txt", "hello world", &pairs(&[("world", "rust")])));
    assert!(!res.is_error);
    assert!(res.content.contains("1 block"));
    assert_eq!(text, "hello rust");
}

#[test]
fn test_edit_batch() {
    let (text, res) = done(edit_text(
        "batch.txt",
        "aaa bbb ccc",
        &pairs(&[("aaa", "111"), ("ccc", "333")]),
    ));
    assert!(!res.is_error);
    assert_eq!(text, "111 bbb 333");
    assert_eq!(res.content, "Successfully replaced 2 block(s) in batch.txt.");
}

#[test]
fn test_edit_legacy_format() {
    let input = EditInput {
        path: Some("legacy.txt".to_string()),
        old_text: Some("foo".to_string()),
        new_text: Some("baz".to_string()),
        edits: EditsArg::Absent,
    };
    let (path, edits) = edit_request(&input).expect("legacy arguments are accepted");
    assert_eq!(path, "legacy.txt");
    let (text, res) = done(edit_text(&path, "foo bar", &edits));
    assert!(!res.is_error);
    assert_eq!(text, "baz bar");
}

#[test]
fn test_edit_not_found() {
    let r = edit_text("notfound.txt", "hello", &pairs(&[("xyz", "abc")]));
    match r {
        Err(ToolError::Execution(m)) => {
            assert_eq!(m, "oldText not found in notfound.txt: \"xyz\"")
        }
        other => panic!("expected not found, got {other:?}"),
    }
}

#[test]
fn test_edit_multiple_matches_error() {
    let r = edit_text("multi.txt", "aaa aaa aaa", &pairs(&[("aaa", "bbb")]));
    match r {
        Err(ToolError::Execution(m)) => {
            assert!(m.contains("matches 3 times"), "{m}");
            assert!(m.contains("must match exactly once"), "{m}");
        }
        other => panic!("expected ambiguity, got {other:?}"),
    }
}

#[test]
fn test_edit_preserves_crlf() {
    let (text, res) = done(edit_text("crlf.txt", "hello\r\nworld\r\n", &pairs(&[("hello", "hi")])));
    assert!(!res.is_error);
    assert_eq!(text, "hi\r\nworld\r\n");
}

#[test]
fn edit_keeps_byte_order_mark() {
    let (text, _) = done(edit_text("bom.txt", "\u{FEFF}one two", &pairs(&[("two", "2")])));
    assert_eq!(text, "\u{FEFF}one 2");
}

#[test]
fn edit_fuzzy_match_replaces_the_matched_text() {
    let (text, res) = done(edit_text("f.txt", "say \"hi\" now", &pairs(&[("\u{201C}hi\u{201D}", "bye")])));
    assert_eq!(text, "say bye now");
    assert_eq!(res.content, "Successfully replaced 1 block(s) in f.txt.");
    let (text, _) = done(edit_text("q.txt", "say \u{201C}hi\u{201D} now", &pairs(&[("\"hi\"", "'yo'")])));
    assert_eq!(text, "say 'yo' now");
}

#[test]
fn edits_are_located_in_the_text_as_read() {
    let (text, res) = done(edit_text("f.txt", "ab", &pairs(&[("a", "b"), ("b", "c")])));
    assert_eq!(text, "bc");
    assert_eq!(res.content, "Successfully replaced 2 block(s) in f.txt.");
    // Order of the edits does not matter.
    let (text, _) = done(edit_text("f.txt", "one two", &pairs(&[("two", "2"), ("one", "1")])));
    assert_eq!(text, "1 2");
    let (text, _) = done(edit_text("f.txt", "ab", &pairs(&[("b", "c"), ("a", "b")])));
    assert_eq!(text, "bc");
}

#[test]
fn overlapping_edits_are_refused() {
    match edit_text("f.txt", "abcd", &pairs(&[("abc", "x"), ("bcd", "y")])) {
        Err(ToolError::Execution(m)) => assert_eq!(m, "oldText overlaps another edit in f.txt: \"bcd\""),
        other => panic!("{other:?}"),
    }
}

#[test]
fn a_failing_edit_applies_nothing() {
    match edit_text("f.txt", "one two", &pairs(&[("one", "1"), ("zzz", "3")])) {
        Err(ToolError::Execution(m)) => assert_eq!(m, "oldText not found in f.txt: \"zzz\""),
        other => panic!("{other:?}"),
    }
}

#[test]
fn edit_request_reports_missing_arguments() {
    let no_path = EditInput { path: None, old_text: None, new_text: None, edits: EditsArg::Absent };
    match edit_request(&no_path) {
        Err(ToolError::InvalidInput(m)) => assert_eq!(m, "missing 'path'"),
        other => panic!("{other:?}"),
    }
    let no_edits = EditInput {
        path: Some("a".to_string()),
        old_text: None,
        new_text: None,
        edits: EditsArg::List(vec![]),
    };
    match edit_request(&no_edits) {
        Err(ToolError::InvalidInput(m)) => assert_eq!(m, "no edits provided"),
        other => panic!("{other:?}"),
    }
    let single = EditInput {
        path: Some("a".to_string()),
        old_text: None,
        new_text: None,
        edits: EditsArg::Single(EditItem {
            old_text: Some("x".to_string()),
            new_text: Some("y".to_string()),
        }),
    };
    let (_, edits) = edit_request(&single).unwrap();
    assert_eq!(edits, vec![("x".to_string(), "y".to_string())]);
}

#[test]
fn test_read_file() {
    let out = render_read("line1\nline2\nline3\n", None, None);
    assert_eq!(out, "     1\tline1\n     2\tline2\n     3\tline3");
}

#[test]
fn test_read_with_offset_limit() {
    let out = render_read("a\nb\nc\nd\ne\n", Some(2), Some(2));
    assert!(out.contains('b'));
    assert!(out.contains('c'));
    assert!(!out.contains('a'));
    assert!(!out.contains('d'));
}

#[test]
fn test_read_truncation_hint() {
    let content: String = (1..=10).map(|i| format!("line{i}\n")).collect();
    let out = render_read(&content, None, Some(3));
    assert!(out.contains("line1"));
    assert!(out.contains("line3"));
    assert!(out.ends_with("[Showing lines 1-3 of 10. Use offset=4 to continue.]"));
}

#[test]
fn read_of_empty_file_is_empty() {
    assert_eq!(render_read("", None, None), "");
}

#[test]
fn render_result_reports_exit_code() {
    let r = render_result(b"out\n", b"err", Some(2));
    assert!(r.is_error);
    assert_eq!(r.content, "out\nerr\n\nCommand exited with code 2");
    let ok = render_result(b"fine", b"", Some(0));
    assert!(!ok.is_error);
    assert_eq!(ok.content, "fine");
}

#[test]
fn render_result_decodes_invalid_utf8_lossily() {
    let r = render_result(&[b'a', 0xFF, b'b'], b"", Some(0));
    assert_eq!(r.content, "a\u{FFFD}b");
}

#[test]
fn poll_step_decides_each_state() {
    assert!(matches!(poll_step(WaitState::Exited(Some(0)), false, None), PollAction::Collect(Some(0))));
    assert!(matches!(poll_step(WaitState::Running, true, None), PollAction::Stop(ToolError::Execution(_))));
    assert!(matches!(poll_step(WaitState::Running, false, Some((true, 5))), PollAction::Stop(ToolError::Timeout(_))));
    assert!(matches!(poll_step(WaitState::Running, false, Some((false, 5))), PollAction::Sleep));
    assert!(matches!(poll_step(WaitState::Failed("x".to_string()), false, None), PollAction::Stop(ToolError::Execution(_))));
}

#[test]
fn bash_error_messages() {
    match timed_out(7) {
        ToolError::Timeout(m) => assert_eq!(m, "Command timed out after 7 seconds"),
        other => panic!("{other:?}"),
    }
    match execution_error("spawn", "boom") {
        ToolError::Execution(m) => assert_eq!(m, "spawnboom"),
        other => panic!("{other:?}"),
    }
}

#[test]
fn tools_describe_themselves() {
    assert_eq!(BashTool::new("/w".to_string()).spec().name, "bash");
    assert_eq!(ReadTool::new("/w".to_string()).spec().name, "read");
    assert_eq!(EditTool::new("/w".to_string()).spec().name, "edit");
    assert_eq!(WriteTool::new("/w".to_string()).spec().name, "write");
}

#[test]
fn write_checks_its_arguments() {
    let tool = WriteTool::new("/w".to_string());
    match tool.check_input(&None, &Some("x".to_string())) {
        Err(ToolError::InvalidInput(m)) => assert_eq!(m, "missing 'path'"),
        other => panic!("{other:?}"),
    }
    let ok = tool.check_input(&Some("a.txt".to_string()), &Some("x".to_string())).unwrap();
    assert_eq!(ok, ("a.txt".to_string(), "x".to_string()));
}
