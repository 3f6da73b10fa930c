//! The transcript record codec: round trips, escaping, and compatibility
//! of the emitted lines with an independent JSON parser.

use ruster::message::{encode_message, parse_message, strip_skill_tag, Message};

fn msg(role: &str, content: &str, ts: &str, skills: &[&str]) -> Message {
    Message {
        role: role.to_string(),
        content: content.to_string(),
        timestamp: ts.to_string(),
        skills: skills.iter().map(|s| s.to_string()).collect(),
    }
}

#[test]
fn round_trip_plain_record() {
    let m = msg("user", "hi", "2024-01-01T00:00:00Z", &["clock"]);
    let line = encode_message(&m);
    let back = parse_message(&line).expect("line must parse");
    assert_eq!(back.role, "user");
    assert_eq!(back.content, "hi");
    assert_eq!(back.timestamp, "2024-01-01T00:00:00Z");
    assert_eq!(back.skills, vec!["clock".to_string()]);
}

#[test]
fn round_trip_escaped_characters() {
    let wild = "a \"quoted\" piece\nwith\\backslash\ttab\rcr and ctrl \u{1}\u{1f} end";
    let m = msg("assistant", wild, "t", &["x\"y", "line\nbreak"]);
    let line = encode_message(&m);
    assert!(!line.contains('\n'), "a record must stay on one line");
    let back = parse_message(&line).expect("line must parse");
    assert_eq!(back.content, wild);
    assert_eq!(back.skills[0], "x\"y");
    assert_eq!(back.skills[1], "line\nbreak");
}

#[test]
fn round_trip_empty_fields() {
    let m = msg("user", "", "", &[]);
    let line = encode_message(&m);
    let back = parse_message(&line).expect("line must parse");
    assert_eq!(back.content, "");
    assert!(back.skills.is_empty());
}

#[test]
fn emitted_line_is_valid_json_for_serde() {
    let m = msg("user", "quote \" and \\ and \n done", "2024-06-01", &["a", "b"]);
    let line = encode_message(&m);
    let v: serde_json::Value = serde_json::from_str(&line).expect("serde must accept the line");
    assert_eq!(v["role"].as_str(), Some("user"));
    assert_eq!(v["content"].as_str(), Some("quote \" and \\ and \n done"));
    assert_eq!(v["timestamp"].as_str(), Some("2024-06-01"));
    let skills: Vec<&str> =
        v["skills"].as_array().unwrap().iter().map(|x| x.as_str().unwrap()).collect();
    assert_eq!(skills, vec!["a", "b"]);
}

#[test]
fn malformed_lines_are_rejected() {
    assert!(parse_message("").is_none());
    assert!(parse_message("not json").is_none());
    assert!(parse_message("{\"role\":\"user\"}").is_none());
    assert!(parse_message("{\"role\":\"u\",\"content\":\"c\",\"timestamp\":\"t\",\"skills\":[]}x")
        .is_none());
}

#[test]
fn strip_removes_only_the_named_tag() {
    let m = msg("user", "c", "t", &["x", "y", "x"]);
    let stripped = strip_skill_tag(&m, "x");
    assert_eq!(stripped.skills, vec!["y".to_string()]);
    assert_eq!(stripped.content, "c");
    let unchanged = strip_skill_tag(&m, "z");
    assert_eq!(unchanged.skills, vec!["x".to_string(), "y".to_string(), "x".to_string()]);
}
