//! The wire protocol: command parsing, routing, reply events, the
//! configuration store, skill files — and the create/send scenario.

use ruster::config::{Config, ConfigError, ConfigValue};
use ruster::protocol::{
    encode_created_event, encode_error_event, encode_response_event, encode_session_list_event,
    encode_skill_event, parse_command, parse_paginate_args, parse_script_args, route_command,
    CommandKind,
};
use ruster::session::Session;
use ruster::skills::{split_frontmatter, Skill, SkillMetadata, SkillsManager};

#[test]
fn scenario_create_then_send() {
    // {"command":"session","arguments":{"action":"create","session_id":"work"}}
    let line = "{\"command\":\"session\",\"arguments\":{\"action\":\"create\",\"session_id\":\"work\"}}";
    let req = parse_command(line).expect("the envelope parses");
    assert_eq!(req.command, "session");
    assert_eq!(route_command(&req.command), CommandKind::SessionCmd);
    assert_eq!(req.action.as_deref(), Some("create"));
    assert_eq!(req.session_id.as_deref(), Some("work"));

    // the session materializes under the configured default model
    let cfg = Config::default();
    let session = Session::new(
        req.session_id.clone().unwrap(),
        &Vec::new(),
        cfg.initial_skills.clone(),
        cfg.default_model.clone(),
    );
    let created = encode_created_event(&session.id, &session.model);
    let v: serde_json::Value = serde_json::from_str(&created).unwrap();
    assert_eq!(v["event"].as_str(), Some("created"));
    assert_eq!(v["session_id"].as_str(), Some("work"));
    assert_eq!(v["model"].as_str(), Some("ollama/llama3.2"));

    // {"command":"session","arguments":{"action":"send","session_id":"work","message":"hi"}}
    let send = "{\"command\":\"session\",\"arguments\":{\"action\":\"send\",\"session_id\":\"work\",\"message\":\"hi\"}}";
    let sreq = parse_command(send).expect("the send envelope parses");
    assert_eq!(sreq.action.as_deref(), Some("send"));
    assert_eq!(sreq.message.as_deref(), Some("hi"));

    // a send opens with a thinking delta, streams at least one delta, and
    // closes with an empty delta marked done
    let thinking = encode_response_event("work", "Thinking...", false);
    let tv: serde_json::Value = serde_json::from_str(&thinking).unwrap();
    assert_eq!(tv["event"].as_str(), Some("response"));
    assert_eq!(tv["delta"].as_str(), Some("Thinking..."));
    assert_eq!(tv["done"].as_bool(), Some(false));

    let delta = encode_response_event("work", "hello", false);
    let dv: serde_json::Value = serde_json::from_str(&delta).unwrap();
    assert_eq!(dv["delta"].as_str(), Some("hello"));
    assert_eq!(dv["done"].as_bool(), Some(false));

    let done = encode_response_event("work", "", true);
    let fv: serde_json::Value = serde_json::from_str(&done).unwrap();
    assert_eq!(fv["event"].as_str(), Some("response"));
    assert_eq!(fv["session_id"].as_str(), Some("work"));
    assert_eq!(fv["delta"].as_str(), Some(""));
    assert_eq!(fv["done"].as_bool(), Some(true));
}

#[test]
fn bad_lines_yield_an_error_reply_and_stay_open() {
    assert!(parse_command("not json at all").is_none());
    assert!(parse_command("{\"no_command\":1}").is_none());
    assert!(parse_command("{\"command\":\"session\"}").is_none(), "arguments are required");
    let reply = encode_error_event("Invalid JSON or Command format");
    let v: serde_json::Value = serde_json::from_str(&reply).unwrap();
    assert_eq!(v["error"].as_str(), Some("Invalid JSON or Command format"));
}

#[test]
fn unknown_commands_route_nowhere() {
    assert_eq!(route_command("session"), CommandKind::SessionCmd);
    assert_eq!(route_command("config"), CommandKind::ConfigCmd);
    assert_eq!(route_command("skill"), CommandKind::SkillCmd);
    assert_eq!(route_command("dance"), CommandKind::UnknownCmd);
}

#[test]
fn skill_and_list_events_have_the_documented_shape() {
    let e = encode_skill_event("skill_added", "work", "clock");
    let v: serde_json::Value = serde_json::from_str(&e).unwrap();
    assert_eq!(v["event"].as_str(), Some("skill_added"));
    assert_eq!(v["skill"].as_str(), Some("clock"));
    let l = encode_session_list_event(&vec!["a".to_string(), "b".to_string()]);
    let lv: serde_json::Value = serde_json::from_str(&l).unwrap();
    let ids: Vec<&str> =
        lv["sessions"].as_array().unwrap().iter().map(|x| x.as_str().unwrap()).collect();
    assert_eq!(ids, vec!["a", "b"]);
}

#[test]
fn config_get_set_and_errors() {
    let mut cfg = Config::default();
    match cfg.get_value("default_model") {
        Ok(ConfigValue::Text(t)) => assert_eq!(t, "ollama/llama3.2"),
        _ => panic!("default_model is a text value"),
    }
    assert_eq!(cfg.get_value("nonsense").unwrap_err(), ConfigError::UnknownKey);
    assert_eq!(
        cfg.set_value("nonsense", ConfigValue::Count(1)).unwrap_err(),
        ConfigError::UnknownKey
    );
    assert_eq!(
        cfg.set_value("default_model", ConfigValue::Count(1)).unwrap_err(),
        ConfigError::InvalidValue
    );
    cfg.set_value("default_model", ConfigValue::Text("xai/grok".to_string())).unwrap();
    match cfg.get_value("default_model") {
        Ok(ConfigValue::Text(t)) => assert_eq!(t, "xai/grok"),
        _ => panic!("the set value must be read back"),
    }
    match cfg.get_value("proactive_interval_secs") {
        Ok(ConfigValue::Count(n)) => assert_eq!(n, 300),
        _ => panic!("the interval is a count"),
    }
    let keys = Config::get_keys();
    assert!(keys.iter().any(|k| k == "socket_path"));
    assert_eq!(keys.len(), 11);
}

#[test]
fn expand_path_resolves_a_leading_tilde() {
    assert_eq!(ruster::config::expand_path("~", Some("/home/u")), "/home/u");
    assert_eq!(ruster::config::expand_path("~/x/y", Some("/home/u")), "/home/u/x/y");
    assert_eq!(ruster::config::expand_path("~weird", Some("/home/u")), "~weird");
    assert_eq!(ruster::config::expand_path("/abs", Some("/home/u")), "/abs");
    assert_eq!(ruster::config::expand_path("~/x", None), "~/x");
}

#[test]
fn skill_files_split_into_front_matter_and_instructions() {
    let file = "---\nname: clock\ndescription: time things\n---\n\n# Clock\nUse the tool.\n";
    let (fm, body) = split_frontmatter(file).expect("valid front matter");
    assert_eq!(fm, "\nname: clock\ndescription: time things\n");
    assert_eq!(body, "# Clock\nUse the tool.");
    assert!(split_frontmatter("no front matter").is_none());
    assert!(split_frontmatter("---\nnever closed").is_none());
}

#[test]
fn catalog_keeps_one_entry_per_name_last_loaded_wins() {
    let mut mgr = SkillsManager::new();
    let mk = |name: &str, desc: &str| Skill {
        path: "/p".to_string(),
        metadata: SkillMetadata {
            name: name.to_string(),
            description: desc.to_string(),
            tools: Vec::new(),
        },
        instructions: String::new(),
    };
    mgr.add_skill_entry(mk("clock", "old"));
    mgr.add_skill_entry(mk("joke", "fun"));
    mgr.add_skill_entry(mk("clock", "new"));
    assert_eq!(mgr.skills.len(), 2);
    let got = mgr.get_skill("clock").expect("clock is present");
    assert_eq!(got.metadata.description, "new", "the later load overwrites");
    assert!(mgr.get_skill("gone").is_none());
    let listed = mgr.list_skills();
    assert_eq!(listed.len(), 2);
    assert_eq!(listed[0].name, "clock");
}

#[test]
fn tool_argument_documents_parse() {
    let p = parse_paginate_args(
        "{\"tool_call_uuid\":\"u1\",\"offset\":90,\"limit\":20,\"search\":\"x\"}",
        50,
    )
    .unwrap();
    assert_eq!(p.tool_call_uuid, "u1");
    assert_eq!(p.offset, 90);
    assert_eq!(p.limit, 20);
    assert_eq!(p.search.as_deref(), Some("x"));
    let defaults = parse_paginate_args("{\"tool_call_uuid\":\"u2\"}", 50).unwrap();
    assert_eq!(defaults.offset, 0);
    assert_eq!(defaults.limit, 50);
    assert!(parse_paginate_args("{}", 50).is_none(), "the prior call id is required");

    let s = parse_script_args(
        "{\"skill_name\":\"clock\",\"script_name\":\"now.sh\",\"args\":[\"a\",2,\"b\"]}",
    )
    .unwrap();
    assert_eq!(s.skill_name, "clock");
    assert_eq!(s.script_name, "now.sh");
    assert_eq!(s.args, vec!["a".to_string(), "b".to_string()]);
}

#[test]
fn history_and_config_events_have_the_documented_shape() {
    let window = vec![ruster::message::Message {
        role: "user".to_string(),
        content: "hi".to_string(),
        timestamp: "t".to_string(),
        skills: vec!["x".to_string()],
    }];
    let e = ruster::protocol::encode_history_event("work", &window, 5, 2, 1);
    let v: serde_json::Value = serde_json::from_str(&e).unwrap();
    assert_eq!(v["event"].as_str(), Some("history"));
    assert_eq!(v["history"][0]["content"].as_str(), Some("hi"));
    assert_eq!(v["history"][0]["skills"][0].as_str(), Some("x"));
    assert_eq!(v["total"].as_u64(), Some(5));
    assert_eq!(v["offset"].as_u64(), Some(2));
    assert_eq!(v["limit"].as_u64(), Some(1));

    let cv = ruster::protocol::encode_config_value_event(
        "config_value",
        "proactive_interval_secs",
        &ConfigValue::Count(300),
    );
    let cvv: serde_json::Value = serde_json::from_str(&cv).unwrap();
    assert_eq!(cvv["value"].as_u64(), Some(300));

    let pairs = vec![
        ("socket_path".to_string(), ConfigValue::Text("/tmp/s".to_string())),
        ("skills_dirs".to_string(), ConfigValue::TextList(vec!["/a".to_string()])),
        ("proxy_url".to_string(), ConfigValue::OptText(None)),
    ];
    let cl = ruster::protocol::encode_config_list_event(&pairs);
    let clv: serde_json::Value = serde_json::from_str(&cl).unwrap();
    assert_eq!(clv["event"].as_str(), Some("config_list"));
    assert_eq!(clv["options"]["socket_path"].as_str(), Some("/tmp/s"));
    assert_eq!(clv["options"]["skills_dirs"][0].as_str(), Some("/a"));
    assert!(clv["options"]["proxy_url"].is_null());

    let te = ruster::protocol::encode_tool_call_event("work", "t", "{}", "u-1", "ok");
    let tev: serde_json::Value = serde_json::from_str(&te).unwrap();
    assert_eq!(tev["event"].as_str(), Some("tool_call"));
    assert_eq!(tev["call_id"].as_str(), Some("u-1"));
    assert_eq!(tev["result_preview"].as_str(), Some("ok"));

    let se = ruster::protocol::encode_session_error_event("work", "boom");
    let sev: serde_json::Value = serde_json::from_str(&se).unwrap();
    assert_eq!(sev["error"].as_str(), Some("boom"));
    assert_eq!(sev["session_id"].as_str(), Some("work"));
}

#[test]
fn skill_search_results_carry_whole_metadata() {
    let items = vec![
        SkillMetadata {
            name: "clock".to_string(),
            description: "time things".to_string(),
            tools: vec![ruster::llm::Tool {
                name: "get_current_time".to_string(),
                description: "d".to_string(),
                parameters: "{\"type\":\"object\",\"properties\":{}}".to_string(),
                exec_cmd: Some("date".to_string()),
                working_dir: None,
            }],
        },
        SkillMetadata {
            name: "joke-teller".to_string(),
            description: "humor".to_string(),
            tools: Vec::new(),
        },
    ];
    let e = ruster::protocol::encode_skill_search_event("work", &items);
    let v: serde_json::Value = serde_json::from_str(&e).unwrap();
    assert_eq!(v["event"].as_str(), Some("skill_search_results"));
    assert_eq!(v["results"][0]["name"].as_str(), Some("clock"));
    assert_eq!(v["results"][0]["tools"][0]["name"].as_str(), Some("get_current_time"));
    assert_eq!(v["results"][0]["tools"][0]["parameters"]["type"].as_str(), Some("object"));
    assert_eq!(v["results"][1]["description"].as_str(), Some("humor"));
    assert_eq!(v["results"][1]["tools"].as_array().map(|a| a.len()), Some(0));
}

#[test]
fn proxy_url_accepts_a_plain_string_and_ban_list_edits_hold() {
    let mut cfg = Config::default();
    cfg.set_value("proxy_url", ConfigValue::Text("http://proxy:9".to_string())).unwrap();
    match cfg.get_value("proxy_url") {
        Ok(ConfigValue::OptText(Some(u))) => assert_eq!(u, "http://proxy:9"),
        _ => panic!("the set URL must be read back"),
    }
    cfg.set_value("proxy_url", ConfigValue::OptText(None)).unwrap();
    match cfg.get_value("proxy_url") {
        Ok(ConfigValue::OptText(None)) => {}
        _ => panic!("clearing the URL must be read back"),
    }

    assert!(cfg.ban_skill("x"));
    assert!(!cfg.ban_skill("x"), "a banned name is kept once");
    assert!(cfg.ban_skill("y"));
    assert_eq!(cfg.banned_skills, vec!["x".to_string(), "y".to_string()]);
    cfg.unban_skill("x");
    assert_eq!(cfg.banned_skills, vec!["y".to_string()]);
}
