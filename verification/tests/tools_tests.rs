//! Tool execution logic: pagination windows, shell quoting, output
//! summaries and handler dispatch.

use ruster::llm::Tool;
use ruster::tools::{
    build_command_line, classify_tool, paginate_output, summarize_output, ToolDispatch,
};

fn hundred_lines() -> String {
    let mut s = String::new();
    for i in 0..100 {
        s.push_str(&format!("line {}\n", i));
    }
    s
}

#[test]
fn pagination_window_past_the_end_is_clamped() {
    let content = hundred_lines();
    let page = paginate_output(&content, 90, 20, None);
    let lines: Vec<&str> = page.lines().collect();
    assert_eq!(lines.len(), 10, "only ten lines remain after offset 90");
    assert_eq!(lines[0], "line 90");
    assert_eq!(lines[9], "line 99");
    assert!(!page.contains("Showing lines"), "no marker when the window reaches the end");
}

#[test]
fn pagination_marker_appears_exactly_when_truncated() {
    let content = hundred_lines();
    let page = paginate_output(&content, 0, 10, None);
    assert!(page.ends_with("\n\n(Showing lines 0-10 of 100. Use paginate_tool_output for more.)"));
    assert!(page.starts_with("line 0\nline 1\n"));
}

#[test]
fn pagination_search_filters_lines() {
    let content = hundred_lines();
    let page = paginate_output(&content, 0, 50, Some("line 9"));
    let lines: Vec<&str> = page.lines().collect();
    // "line 9" and "line 90".."line 99"
    assert_eq!(lines.len(), 11);
    assert_eq!(lines[0], "line 9");
    assert_eq!(lines[1], "line 90");
}

#[test]
fn shell_arguments_are_single_quoted() {
    let args = vec!["plain".to_string(), "it's".to_string()];
    let cmd = build_command_line("./scripts/run.sh", &args);
    assert_eq!(cmd, "./scripts/run.sh 'plain' 'it'\\''s'");
}

#[test]
fn summary_truncates_and_reports_stderr() {
    let stdout = "a\nb\nc\nd\n";
    let summary = summarize_output(stdout, "boom\nmore", 2, "uuid-1");
    assert!(summary.starts_with("a\nb\n\n(Output truncated. Full output saved in tool run uuid-1."));
    assert!(summary.contains("\n\nStderr:\nboom\nmore"));
    let clean = summarize_output("a\nb", "", 5, "u");
    assert_eq!(clean, "a\nb");
}

#[test]
fn dispatch_prefers_builtins_then_declared_tools() {
    let tools = vec![Tool {
        name: "custom".to_string(),
        description: "d".to_string(),
        parameters: "{}".to_string(),
        exec_cmd: Some("echo hi".to_string()),
        working_dir: None,
    }];
    assert!(matches!(classify_tool("paginate_tool_output", &tools), ToolDispatch::Paginate));
    assert!(matches!(classify_tool("run_skill_script", &tools), ToolDispatch::RunSkillScript));
    assert!(matches!(classify_tool("custom", &tools), ToolDispatch::Declared(0)));
    assert!(matches!(classify_tool("nothing", &tools), ToolDispatch::Unknown));
}

#[test]
fn line_splitting_matches_std_lines() {
    for sample in ["a\r\nb", "a\rb", "a\r", "a\r\n", "\n", "", "x\ny\r\nz", "end\r"] {
        let got = ruster::text::split_lines(sample);
        let expect: Vec<String> = sample.lines().map(|l| l.to_string()).collect();
        assert_eq!(got, expect, "mismatch on {:?}", sample);
    }
}
