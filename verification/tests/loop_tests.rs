//! The bounded tool loop: the turn ceiling holds however the model
//! behaves, and the running response accumulates exactly.

use ruster::llm::ToolCall;
use ruster::orchestrator::{ToolLoop, TurnDecision};

fn a_call() -> ToolCall {
    ToolCall { id: "c".to_string(), name: "t".to_string(), arguments: "{}".to_string() }
}

#[test]
fn a_model_that_always_calls_tools_stops_by_turn_eleven() {
    let mut lp = ToolLoop::new(10);
    let mut turns = 0u32;
    loop {
        if !lp.begin_turn() {
            break;
        }
        turns += 1;
        assert!(turns <= 11, "the loop must terminate by turn 11");
        let d = lp.record_turn("", &vec![a_call()]);
        assert_eq!(d, TurnDecision::ExecuteTools);
        lp.record_tool_result("t", "u", "result");
    }
    assert_eq!(turns, 10, "exactly the ceiling of turns ran");
    assert!(lp.done);
}

#[test]
fn a_turn_without_tool_calls_finishes() {
    let mut lp = ToolLoop::new(10);
    assert!(lp.begin_turn());
    let d = lp.record_turn("all done", &Vec::new());
    assert_eq!(d, TurnDecision::Finished);
    assert!(lp.done);
    assert_eq!(lp.full_response, "all done");
}

#[test]
fn turn_text_joins_with_newlines_and_empty_pieces_vanish() {
    let mut lp = ToolLoop::new(10);
    assert!(lp.begin_turn());
    lp.record_turn("first", &vec![a_call()]);
    assert!(lp.begin_turn());
    lp.record_turn("", &vec![a_call()]);
    assert!(lp.begin_turn());
    lp.record_turn("second", &Vec::new());
    assert_eq!(lp.full_response, "first\nsecond");
}

#[test]
fn turn_preambles_think_then_refine() {
    let first = ruster::protocol::encode_turn_preamble_event("work", 1);
    let v: serde_json::Value = serde_json::from_str(&first).unwrap();
    assert_eq!(v["delta"].as_str(), Some("Thinking..."));
    assert_eq!(v["done"].as_bool(), Some(false));
    let later = ruster::protocol::encode_turn_preamble_event("work", 2);
    let w: serde_json::Value = serde_json::from_str(&later).unwrap();
    assert_eq!(w["delta"].as_str(), Some("Refining..."));
}

#[test]
fn tool_results_are_recorded_verbatim() {
    let mut lp = ToolLoop::new(3);
    lp.record_tool_result("clockify", "id-9", "12:00");
    assert_eq!(lp.full_response, "\n[Tool Call: clockify (ID: id-9) resulted in:\n12:00]");
}
