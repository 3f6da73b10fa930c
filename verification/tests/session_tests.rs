//! Sessions: transcript round trips through storage, skill removal
//! rewriting history, and registry listing.

use ruster::message::Message;
use ruster::session::{merge_session_ids, Session, SessionError};
use ruster::skills::{Skill, SkillMetadata};

fn fresh(id: &str) -> Session {
    Session::new(id.to_string(), &Vec::new(), Vec::new(), "ollama/llama3.2".to_string())
}

fn skill(name: &str, instructions: &str) -> Skill {
    Skill {
        path: format!("/tmp/{}", name),
        metadata: SkillMetadata {
            name: name.to_string(),
            description: format!("{} things", name),
            tools: Vec::new(),
        },
        instructions: instructions.to_string(),
    }
}

#[test]
fn transcript_round_trip_three_records() {
    let mut s = fresh("work");
    let mut lines: Vec<String> = Vec::new();
    lines.push(s.add_user_message("one".to_string(), "t1".to_string(), vec!["x".to_string()]));
    lines.push(s.add_assistant_message("two".to_string(), "t2".to_string(), vec![]));
    lines.push(s.add_user_message("three".to_string(), "t3".to_string(), vec!["y".to_string()]));

    let reloaded = Session::new("work".to_string(), &lines, Vec::new(), "m".to_string());
    assert_eq!(reloaded.history.len(), 3);
    for (a, b) in s.history.iter().zip(reloaded.history.iter()) {
        assert_eq!(a.role, b.role);
        assert_eq!(a.content, b.content);
        assert_eq!(a.timestamp, b.timestamp);
        assert_eq!(a.skills, b.skills);
    }
}

#[test]
fn unreadable_lines_are_passed_over_on_load() {
    let mut s = fresh("w");
    let good = s.add_user_message("hello".to_string(), "t".to_string(), vec![]);
    let lines = vec!["garbage".to_string(), good, "{}".to_string()];
    let reloaded = Session::new("w".to_string(), &lines, Vec::new(), "m".to_string());
    assert_eq!(reloaded.history.len(), 1);
    assert_eq!(reloaded.history[0].content, "hello");
}

#[test]
fn removing_a_skill_strips_every_tag_and_rewrites() {
    let mut s = Session::new(
        "w".to_string(),
        &Vec::new(),
        vec!["x".to_string(), "other".to_string()],
        "m".to_string(),
    );
    s.add_user_message("a".to_string(), "t".to_string(), vec!["x".to_string()]);
    s.add_assistant_message(
        "b".to_string(),
        "t".to_string(),
        vec!["x".to_string(), "keep".to_string()],
    );
    let rewritten = s.remove_skill("x");
    assert_eq!(s.active_skills, vec!["other".to_string()]);

    let reloaded = Session::new("w".to_string(), &rewritten, Vec::new(), "m".to_string());
    assert_eq!(reloaded.history.len(), 2);
    for m in &reloaded.history {
        assert!(!m.skills.iter().any(|t| t == "x"), "no record may keep the removed tag");
    }
    assert_eq!(reloaded.history[1].skills, vec!["keep".to_string()]);
}

#[test]
fn add_skill_keeps_names_once() {
    let mut s = fresh("w");
    s.add_skill("clock".to_string());
    s.add_skill("clock".to_string());
    s.add_skill("joker".to_string());
    assert_eq!(s.active_skills, vec!["clock".to_string(), "joker".to_string()]);
}

#[test]
fn session_list_merges_disk_and_memory() {
    let disk = vec!["a".to_string(), "b".to_string()];
    let mem = vec!["b".to_string(), "c".to_string(), "c".to_string()];
    let ids = merge_session_ids(disk, &mem);
    assert_eq!(ids, vec!["a".to_string(), "b".to_string(), "c".to_string()]);
}

#[test]
fn empty_transcript_has_no_context() {
    let s = fresh("w");
    match s.prepare_context(&Vec::new()) {
        Err(SessionError::EmptyHistory) => {},
        _ => panic!("an empty session must refuse to build a context"),
    }
}

#[test]
fn context_holds_prompt_then_history() {
    let mut s = fresh("w");
    s.add_user_message("hi".to_string(), "t".to_string(), vec![]);
    let selected = vec![skill("clock", "Use the clock.")];
    let msgs = s.prepare_context(&selected).unwrap();
    assert_eq!(msgs.len(), 2);
    match &msgs[0] {
        ruster::llm::ContextMsg::Plain { role, content } => {
            assert_eq!(role, "system");
            assert!(content.starts_with("You are Ruster, a persistent, proactive LLM agent.\n"));
            assert!(content.contains("# Enabled Skills:"));
            assert!(content.contains("## clock\nUse the clock.\n"));
        },
        _ => panic!("the context must open with the system prompt"),
    }
    match &msgs[1] {
        ruster::llm::ContextMsg::Plain { role, content } => {
            assert_eq!(role, "user");
            assert_eq!(content, "hi");
        },
        _ => panic!("history entries are plain role/content pairs"),
    }
}

#[test]
fn assembled_tools_end_with_the_two_builtins() {
    let mut sk = skill("clock", "i");
    sk.metadata.tools.push(ruster::llm::Tool {
        name: "get_current_time".to_string(),
        description: "d".to_string(),
        parameters: "{}".to_string(),
        exec_cmd: Some("date".to_string()),
        working_dir: None,
    });
    let tools = ruster::session::assemble_tools(&vec![sk]);
    assert_eq!(tools.len(), 3);
    assert_eq!(tools[0].name, "get_current_time");
    assert_eq!(tools[1].name, "paginate_tool_output");
    assert_eq!(tools[2].name, "run_skill_script");
    // the built-in schemas are valid JSON schema documents
    let v: serde_json::Value = serde_json::from_str(&tools[1].parameters).unwrap();
    assert_eq!(v["required"][0].as_str(), Some("tool_call_uuid"));
}

#[test]
fn merge_selected_excludes_active_and_banned() {
    let manual = vec![skill("manual", "m")];
    let dynamic = vec![skill("manual", "m"), skill("banned", "b"), skill("fresh", "f")];
    let active = vec!["manual".to_string()];
    let banned = vec!["banned".to_string()];
    let merged = ruster::session::merge_selected(manual, dynamic, &active, &banned);
    let names: Vec<&str> = merged.iter().map(|s| s.metadata.name.as_str()).collect();
    assert_eq!(names, vec!["manual", "fresh"]);
}
