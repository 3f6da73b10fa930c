//! Provider routing, request bodies and stream decoding (the gateway).

use ruster::llm::{
    build_chat_request, build_embeddings_request, parse_chunk, split_model, ContextMsg, LlmError,
    LlmResponse, Provider, Tool, ToolCall,
};

fn plain(role: &str, content: &str) -> ContextMsg {
    ContextMsg::Plain { role: role.to_string(), content: content.to_string() }
}

fn one_tool() -> Tool {
    Tool {
        name: "get_current_time".to_string(),
        description: "Returns the current system time.".to_string(),
        parameters: "{\"type\":\"object\",\"properties\":{}}".to_string(),
        exec_cmd: Some("date".to_string()),
        working_dir: None,
    }
}

#[test]
fn split_model_takes_first_slash() {
    let (p, m) = split_model("ollama/llama3.2").unwrap();
    assert_eq!(p, "ollama");
    assert_eq!(m, "llama3.2");
    let (p2, m2) = split_model("a/b/c").unwrap();
    assert_eq!(p2, "a");
    assert_eq!(m2, "b/c");
    assert!(split_model("nomodel").is_none());
}

#[test]
fn invalid_format_fails_before_any_request() {
    let r = build_chat_request("noslash", &vec![plain("user", "hi")], &None);
    assert!(matches!(r, Err(LlmError::InvalidModelFormat)));
    let r2 = build_chat_request("mystery/m", &vec![plain("user", "hi")], &None);
    assert!(matches!(r2, Err(LlmError::UnknownProvider(_))));
}

#[test]
fn ollama_route_and_payload_shape() {
    let msgs = vec![plain("system", "be nice"), plain("user", "hi")];
    let req = build_chat_request("ollama/llama3.2", &msgs, &Some(vec![one_tool()])).unwrap();
    assert_eq!(req.path, "/ollama/api/chat");
    let v: serde_json::Value = serde_json::from_str(&req.body).unwrap();
    assert_eq!(v["model"].as_str(), Some("llama3.2"));
    assert_eq!(v["stream"].as_bool(), Some(true));
    assert_eq!(v["messages"][0]["role"].as_str(), Some("system"));
    assert_eq!(v["messages"][1]["content"].as_str(), Some("hi"));
    assert_eq!(v["tools"][0]["type"].as_str(), Some("function"));
    assert_eq!(v["tools"][0]["function"]["name"].as_str(), Some("get_current_time"));
}

#[test]
fn xai_route_and_string_arguments() {
    let calls = vec![ToolCall {
        id: "call_1".to_string(),
        name: "t".to_string(),
        arguments: "{\"a\":1}".to_string(),
    }];
    let msgs = vec![
        plain("user", "hi"),
        ContextMsg::AssistantCalls { content: None, calls },
        ContextMsg::ToolResult {
            tool_call_id: "call_1".to_string(),
            name: "t".to_string(),
            content: "ok".to_string(),
        },
    ];
    let req = build_chat_request("xai/grok", &msgs, &None).unwrap();
    assert_eq!(req.path, "/xai/v1/chat/completions");
    let v: serde_json::Value = serde_json::from_str(&req.body).unwrap();
    // the string-based provider gets the arguments as a JSON string
    assert_eq!(
        v["messages"][1]["tool_calls"][0]["function"]["arguments"].as_str(),
        Some("{\"a\":1}")
    );
    assert!(v["messages"][1]["content"].is_null());
    assert_eq!(v["messages"][2]["role"].as_str(), Some("tool"));
}

#[test]
fn ollama_structured_arguments() {
    let calls = vec![ToolCall {
        id: "c".to_string(),
        name: "t".to_string(),
        arguments: "{\"a\":1}".to_string(),
    }];
    let msgs = vec![ContextMsg::AssistantCalls { content: Some("text".to_string()), calls }];
    let req = build_chat_request("ollama/m", &msgs, &None).unwrap();
    let v: serde_json::Value = serde_json::from_str(&req.body).unwrap();
    // the structured provider gets the argument document spliced in
    assert_eq!(v["messages"][0]["tool_calls"][0]["function"]["arguments"]["a"].as_i64(), Some(1));
}

#[test]
fn gemini_route_role_remap_and_tools() {
    let msgs = vec![plain("user", "q"), plain("assistant", "a")];
    let req = build_chat_request("gemini/gem-pro", &msgs, &Some(vec![one_tool()])).unwrap();
    assert_eq!(req.path, "/gemini/v1beta/models/gem-pro:streamGenerateContent");
    let v: serde_json::Value = serde_json::from_str(&req.body).unwrap();
    assert_eq!(v["contents"][0]["role"].as_str(), Some("user"));
    assert_eq!(v["contents"][1]["role"].as_str(), Some("model"));
    assert_eq!(v["contents"][1]["parts"][0]["text"].as_str(), Some("a"));
    assert_eq!(
        v["tools"][0]["function_declarations"][0]["name"].as_str(),
        Some("get_current_time")
    );
}

#[test]
fn embeddings_only_for_the_embedding_provider() {
    let r = build_embeddings_request("ollama/nomic-embed-text", "some text").unwrap();
    assert_eq!(r.path, "/ollama/api/embeddings");
    let v: serde_json::Value = serde_json::from_str(&r.body).unwrap();
    assert_eq!(v["model"].as_str(), Some("nomic-embed-text"));
    assert_eq!(v["prompt"].as_str(), Some("some text"));
    assert!(matches!(
        build_embeddings_request("xai/grok", "t"),
        Err(LlmError::NoEmbeddings(_))
    ));
    assert!(matches!(
        build_embeddings_request("plain", "t"),
        Err(LlmError::InvalidModelFormat)
    ));
}

#[test]
fn ollama_chunk_decodes_content_and_tool_calls() {
    let r = parse_chunk(Provider::Ollama, "{\"message\":{\"content\":\"hel\"}}");
    match r {
        LlmResponse::Text(t) => assert_eq!(t, "hel"),
        _ => panic!("expected a text delta"),
    }
    let chunk = "{\"message\":{\"tool_calls\":[{\"function\":{\"name\":\"f\",\"arguments\":{\"x\":2}}}]}}";
    match parse_chunk(Provider::Ollama, chunk) {
        LlmResponse::ToolCall(c) => {
            assert_eq!(c.id, "ollama");
            assert_eq!(c.name, "f");
            let args: serde_json::Value = serde_json::from_str(&c.arguments).unwrap();
            assert_eq!(args["x"].as_i64(), Some(2));
        },
        _ => panic!("expected a tool call"),
    }
}

#[test]
fn unparseable_text_degrades_to_an_empty_delta() {
    for p in [Provider::Ollama, Provider::Xai, Provider::Gemini] {
        match parse_chunk(p, "complete garbage {{{") {
            LlmResponse::Text(t) => assert_eq!(t, "", "empty delta expected"),
            _ => panic!("a bad chunk must never be fatal"),
        }
    }
}

#[test]
fn xai_data_lines_concatenate_and_done_is_swallowed() {
    let chunk = "data: {\"choices\":[{\"delta\":{\"content\":\"he\"}}]}\n\
                 data: {\"choices\":[{\"delta\":{\"content\":\"llo\"}}]}\n\
                 data: [DONE]\n";
    match parse_chunk(Provider::Xai, chunk) {
        LlmResponse::Text(t) => assert_eq!(t, "hello"),
        _ => panic!("expected text"),
    }
    let call = "data: {\"choices\":[{\"delta\":{\"tool_calls\":[{\"id\":\"c9\",\"function\":{\"name\":\"f\",\"arguments\":\"{}\"}}]}}]}\n";
    match parse_chunk(Provider::Xai, call) {
        LlmResponse::ToolCall(c) => {
            assert_eq!(c.id, "c9");
            assert_eq!(c.name, "f");
        },
        _ => panic!("expected tool call"),
    }
}

#[test]
fn gemini_chunk_is_trimmed_of_array_framing() {
    let chunk = " ,{\"candidates\":[{\"content\":{\"parts\":[{\"text\":\"hey\"}]}}]} ";
    match parse_chunk(Provider::Gemini, chunk) {
        LlmResponse::Text(t) => assert_eq!(t, "hey"),
        _ => panic!("expected text"),
    }
    let call = "{\"candidates\":[{\"content\":{\"parts\":[{\"functionCall\":{\"name\":\"f\",\"args\":{\"q\":true}}}]}}]}";
    match parse_chunk(Provider::Gemini, call) {
        LlmResponse::ToolCall(c) => {
            assert_eq!(c.id, "gemini");
            assert_eq!(c.name, "f");
            let args: serde_json::Value = serde_json::from_str(&c.arguments).unwrap();
            assert_eq!(args["q"].as_bool(), Some(true));
        },
        _ => panic!("expected tool call"),
    }
}

#[test]
fn decoding_reads_members_not_positions() {
    // member order must not matter: the document is parsed, not matched
    let chunk = "{\"done\":false,\"message\":{\"role\":\"assistant\",\"content\":\"ok\"}}";
    match parse_chunk(Provider::Ollama, chunk) {
        LlmResponse::Text(t) => assert_eq!(t, "ok"),
        _ => panic!("expected the content delta"),
    }
}

#[test]
fn xai_skips_unreadable_lines_but_keeps_readable_ones() {
    let chunk = "event: ping\n\
                 data: not json\n\
                 data: {\"choices\":[{\"delta\":{\"content\":\"a\"}}]}\n\
                 data: [DONE]\n\
                 data: {\"choices\":[{\"delta\":{\"content\":\"b\"}}]}";
    match parse_chunk(Provider::Xai, chunk) {
        LlmResponse::Text(t) => assert_eq!(t, "ab"),
        _ => panic!("expected concatenated text"),
    }
}

#[test]
fn gemini_non_object_function_call_falls_through_to_text() {
    let chunk = "{\"candidates\":[{\"content\":{\"parts\":[{\"functionCall\":\"nope\",\"text\":\"t\"}]}}]}";
    match parse_chunk(Provider::Gemini, chunk) {
        LlmResponse::Text(t) => assert_eq!(t, "t"),
        _ => panic!("a non-object functionCall is not a call"),
    }
}
