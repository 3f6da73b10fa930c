//! The line protocol: one JSON command envelope in, JSON reply and
//! broadcast events out. Reading and writing the socket happen outside;
//! what a line means, where it routes, and the exact bytes of every reply
//! event are fixed here.
use vstd::prelude::*;

verus! {

use vstd::string::StringExecFns;
use crate::jsonread::json_wf;
use crate::jsontext::quote_seq;
use crate::jsontext::push_quoted;
use crate::jsontext::join_comma;
use crate::jsontext::lemma_join_comma_snoc;
use crate::config::ConfigValue;
use crate::message::Message;
use crate::message::encode_message_seq;
use crate::message::encode_message;
use crate::message::encode_items;
use crate::llm::Tool;
use crate::llm::ToolView;
use crate::skills::SkillMetadata;
use crate::skills::meta_tool_views;
use crate::text::str_eq;
use crate::tools::dec_seq;
use crate::tools::push_dec;

/// One parsed command envelope: the command word and the arguments the
/// handlers read, each present or not as the client sent it.
pub struct ClientRequest {
    pub command: String,
    pub action: Option<String>,
    pub session_id: Option<String>,
    pub message: Option<String>,
    pub model: Option<String>,
    pub key: Option<String>,
    pub value: Option<ConfigValue>,
    pub skill: Option<String>,
    pub query: Option<String>,
    pub search: Option<String>,
    pub limit: Option<u64>,
    pub offset: Option<u64>,
}

/// The envelope's `command` string, when the line denotes an object
/// that has one; a function of the line text alone.
pub uninterp spec fn envelope_cmd_of(s: Seq<char>) -> Option<Seq<char>>;

/// Whether the envelope has an `arguments` member; a function of the
/// line text alone.
pub uninterp spec fn envelope_has_args_of(s: Seq<char>) -> bool;

/// The string payload of `arguments.<key>`, when it is a string; a
/// function of the line text and the key alone.
pub uninterp spec fn arg_str_of(s: Seq<char>, key: Seq<char>) -> Option<Seq<char>>;

/// The unsigned payload of `arguments.<key>`, when it is an unsigned
/// integer; a function of the line text and the key alone.
pub uninterp spec fn arg_u64_of(s: Seq<char>, key: Seq<char>) -> Option<u64>;

/// The typed reading of `arguments.value`: a string, an unsigned number,
/// or an array of strings; null, a mixed array or anything else carries
/// no usable value. A function of the line text alone.
pub uninterp spec fn arg_value_of(s: Seq<char>) -> Option<crate::config::ConfigValueView>;

/// Relies on serde_json (`from_str` and `Value` navigation): the
/// envelope's `command` string and whether `arguments` is present.
#[verifier::external_body]
fn read_envelope(line: &str) -> (r: Option<(String, bool)>)
    ensures
        json_wf(line@) ==> (match r {
            Some(c) => envelope_cmd_of(line@) == Some(c.0@) && c.1 == envelope_has_args_of(line@),
            None => envelope_cmd_of(line@) is None,
        }),
        !json_wf(line@) ==> r is None,
{
    let doc: serde_json::Value = match serde_json::from_str(line) {
        Ok(v) => v,
        Err(_) => return None,
    };
    let cmd = match doc.get("command").and_then(|c| c.as_str()) {
        Some(t) => t.to_string(),
        None => return None,
    };
    Some((cmd, doc.get("arguments").is_some()))
}

/// Relies on serde_json (`from_str` and `Value` navigation): the string
/// payload of one argument member.
#[verifier::external_body]
fn read_arg_str(line: &str, key: &str) -> (r: Option<String>)
    ensures
        json_wf(line@) ==> (match r {
            Some(t) => arg_str_of(line@, key@) == Some(t@),
            None => arg_str_of(line@, key@) is None,
        }),
        !json_wf(line@) ==> r is None,
{
    match serde_json::from_str::<serde_json::Value>(line) {
        Ok(doc) => match doc["arguments"].get(key) {
            Some(m) => m.as_str().map(|t| t.to_string()),
            None => None,
        },
        Err(_) => None,
    }
}

/// Relies on serde_json (`from_str` and `Value` navigation): the
/// unsigned payload of one argument member.
#[verifier::external_body]
fn read_arg_u64(line: &str, key: &str) -> (r: Option<u64>)
    ensures
        json_wf(line@) ==> r == arg_u64_of(line@, key@),
        !json_wf(line@) ==> r is None,
{
    match serde_json::from_str::<serde_json::Value>(line) {
        Ok(doc) => match doc["arguments"].get(key) {
            Some(m) => m.as_u64(),
            None => None,
        },
        Err(_) => None,
    }
}

/// Relies on serde_json (`from_str` and `Value` navigation): the typed
/// reading of `arguments.value` — a string, an unsigned number, or an
/// array whose entries are all strings, as the typed store accepts them;
/// null or anything else reads as missing.
#[verifier::external_body]
fn read_arg_value(line: &str) -> (r: Option<ConfigValue>)
    ensures
        json_wf(line@) ==> (match r {
            Some(v) => arg_value_of(line@) == Some(v@),
            None => arg_value_of(line@) is None,
        }),
        !json_wf(line@) ==> r is None,
{
    let doc: serde_json::Value = serde_json::from_str(line).ok()?;
    let val = doc["arguments"].get("value")?;
    if val.is_null() { return None; }
    if let Some(t) = val.as_str() { return Some(ConfigValue::Text(t.to_string())); }
    if let Some(n) = val.as_u64() { return Some(ConfigValue::Count(n)); }
    let mut items: Vec<String> = Vec::new();
    for e in val.as_array()? { items.push(e.as_str()?.to_string()); }
    Some(ConfigValue::TextList(items))
}

/// Parses one inbound line into a request: exactly the lines denoting an
/// object with a `command` string and an `arguments` member are accepted,
/// and every field equals the named reading of its argument member. A
/// rejected line is answered with an error reply and the connection
/// stays open.
pub fn parse_command(line: &str) -> (r: Option<ClientRequest>)
    ensures
        r is Some <==> json_wf(line@) && envelope_cmd_of(line@) is Some && envelope_has_args_of(
            line@,
        ),
        r matches Some(req) ==> {
            &&& Some(req.command@) == envelope_cmd_of(line@)
            &&& crate::config::opt_text_view(req.action) == arg_str_of(line@, "action"@)
            &&& crate::config::opt_text_view(req.session_id) == arg_str_of(line@, "session_id"@)
            &&& crate::config::opt_text_view(req.message) == arg_str_of(line@, "message"@)
            &&& crate::config::opt_text_view(req.model) == arg_str_of(line@, "model"@)
            &&& crate::config::opt_text_view(req.key) == arg_str_of(line@, "key"@)
            &&& crate::config::opt_text_view(req.skill) == arg_str_of(line@, "skill"@)
            &&& crate::config::opt_text_view(req.query) == arg_str_of(line@, "query"@)
            &&& crate::config::opt_text_view(req.search) == arg_str_of(line@, "search"@)
            &&& req.limit == arg_u64_of(line@, "limit"@)
            &&& req.offset == arg_u64_of(line@, "offset"@)
            &&& (match req.value {
                Some(v) => arg_value_of(line@) == Some(v@),
                None => arg_value_of(line@) is None,
            })
        },
{
    match read_envelope(line) {
        None => None,
        Some((command, has_args)) => {
            if !has_args {
                return None;
            }
            Some(
                ClientRequest {
                    command,
                    action: read_arg_str(line, "action"),
                    session_id: read_arg_str(line, "session_id"),
                    message: read_arg_str(line, "message"),
                    model: read_arg_str(line, "model"),
                    key: read_arg_str(line, "key"),
                    value: read_arg_value(line),
                    skill: read_arg_str(line, "skill"),
                    query: read_arg_str(line, "query"),
                    search: read_arg_str(line, "search"),
                    limit: read_arg_u64(line, "limit"),
                    offset: read_arg_u64(line, "offset"),
                },
            )
        },
    }
}

/// The handler families a command word routes to.
#[derive(Debug, Clone, Copy, PartialEq, Eq, Structural)]
pub enum CommandKind {
    SessionCmd,
    ConfigCmd,
    SkillCmd,
    UnknownCmd,
}

pub fn route_command(command: &str) -> (r: CommandKind)
    ensures
        r == CommandKind::SessionCmd <==> command@ == "session"@,
        r == CommandKind::ConfigCmd <==> command@ != "session"@ && command@ == "config"@,
        r == CommandKind::SkillCmd <==> command@ != "session"@ && command@ != "config"@ && command@
            == "skill"@,
        r == CommandKind::UnknownCmd <==> command@ != "session"@ && command@ != "config"@
            && command@ != "skill"@,
{
    if str_eq(command, "session") {
        CommandKind::SessionCmd
    } else if str_eq(command, "config") {
        CommandKind::ConfigCmd
    } else if str_eq(command, "skill") {
        CommandKind::SkillCmd
    } else {
        CommandKind::UnknownCmd
    }
}

/// The reply confirming a created (or re-opened) session.
pub fn encode_created_event(session_id: &str, model: &str) -> (r: String)
    ensures
        r@ == "{\"event\":\"created\",\"session_id\":"@ + quote_seq(session_id@) + ",\"model\":"@
            + quote_seq(model@) + "}"@,
{
    let mut out = String::new();
    out.append("{\"event\":\"created\",\"session_id\":");
    push_quoted(&mut out, session_id);
    out.append(",\"model\":");
    push_quoted(&mut out, model);
    out.append("}");
    assert(out@ =~= "{\"event\":\"created\",\"session_id\":"@ + quote_seq(session_id@)
        + ",\"model\":"@ + quote_seq(model@) + "}"@);
    out
}

/// One streamed reply delta; the exchange ends with an empty delta marked
/// done.
pub fn encode_response_event(session_id: &str, delta: &str, done: bool) -> (r: String)
    ensures
        r@ == "{\"event\":\"response\",\"session_id\":"@ + quote_seq(session_id@) + ",\"delta\":"@
            + quote_seq(delta@) + ",\"done\":"@ + (if done {
            "true"@
        } else {
            "false"@
        }) + "}"@,
{
    let mut out = String::new();
    out.append("{\"event\":\"response\",\"session_id\":");
    push_quoted(&mut out, session_id);
    out.append(",\"delta\":");
    push_quoted(&mut out, delta);
    out.append(",\"done\":");
    if done {
        out.append("true");
    } else {
        out.append("false");
    }
    out.append("}");
    assert(out@ =~= "{\"event\":\"response\",\"session_id\":"@ + quote_seq(session_id@)
        + ",\"delta\":"@ + quote_seq(delta@) + ",\"done\":"@ + (if done {
        "true"@
    } else {
        "false"@
    }) + "}"@);
    out
}

/// The reply delta that opens a turn: the first turn thinks, later ones
/// refine.
pub fn encode_turn_preamble_event(session_id: &str, iteration: u32) -> (r: String)
    ensures
        r@ == "{\"event\":\"response\",\"session_id\":"@ + quote_seq(session_id@)
            + ",\"delta\":"@ + quote_seq(
            if iteration == 1 {
                "Thinking..."@
            } else {
                "Refining..."@
            },
        ) + ",\"done\":false}"@,
{
    let mut out = String::new();
    out.append("{\"event\":\"response\",\"session_id\":");
    push_quoted(&mut out, session_id);
    out.append(",\"delta\":");
    if iteration == 1 {
        push_quoted(&mut out, "Thinking...");
    } else {
        push_quoted(&mut out, "Refining...");
    }
    out.append(",\"done\":false}");
    assert(out@ =~= "{\"event\":\"response\",\"session_id\":"@ + quote_seq(session_id@)
        + ",\"delta\":"@ + quote_seq(
        if iteration == 1 {
            "Thinking..."@
        } else {
            "Refining..."@
        },
    ) + ",\"done\":false}"@);
    out
}

/// An error reply; the connection stays open.
pub fn encode_error_event(message: &str) -> (r: String)
    ensures
        r@ == "{\"error\":"@ + quote_seq(message@) + "}"@,
{
    let mut out = String::new();
    out.append("{\"error\":");
    push_quoted(&mut out, message);
    out.append("}");
    assert(out@ =~= "{\"error\":"@ + quote_seq(message@) + "}"@);
    out
}

/// An error event tied to one session's exchange.
pub fn encode_session_error_event(session_id: &str, message: &str) -> (r: String)
    ensures
        r@ == "{\"error\":"@ + quote_seq(message@) + ",\"session_id\":"@ + quote_seq(session_id@)
            + "}"@,
{
    let mut out = String::new();
    out.append("{\"error\":");
    push_quoted(&mut out, message);
    out.append(",\"session_id\":");
    push_quoted(&mut out, session_id);
    out.append("}");
    assert(out@ =~= "{\"error\":"@ + quote_seq(message@) + ",\"session_id\":"@ + quote_seq(
        session_id@,
    ) + "}"@);
    out
}

/// An event that names only its session, such as the deletion notice.
pub fn encode_session_event(event: &str, session_id: &str) -> (r: String)
    ensures
        r@ == "{\"event\":"@ + quote_seq(event@) + ",\"session_id\":"@ + quote_seq(session_id@)
            + "}"@,
{
    let mut out = String::new();
    out.append("{\"event\":");
    push_quoted(&mut out, event);
    out.append(",\"session_id\":");
    push_quoted(&mut out, session_id);
    out.append("}");
    assert(out@ =~= "{\"event\":"@ + quote_seq(event@) + ",\"session_id\":"@ + quote_seq(
        session_id@,
    ) + "}"@);
    out
}

/// An event about one skill in one session: added, removed, banned or
/// unbanned.
pub fn encode_skill_event(event: &str, session_id: &str, skill: &str) -> (r: String)
    ensures
        r@ == "{\"event\":"@ + quote_seq(event@) + ",\"session_id\":"@ + quote_seq(session_id@)
            + ",\"skill\":"@ + quote_seq(skill@) + "}"@,
{
    let mut out = String::new();
    out.append("{\"event\":");
    push_quoted(&mut out, event);
    out.append(",\"session_id\":");
    push_quoted(&mut out, session_id);
    out.append(",\"skill\":");
    push_quoted(&mut out, skill);
    out.append("}");
    assert(out@ =~= "{\"event\":"@ + quote_seq(event@) + ",\"session_id\":"@ + quote_seq(
        session_id@,
    ) + ",\"skill\":"@ + quote_seq(skill@) + "}"@);
    out
}

/// The notice that a skill's instructions were injected into the prompt.
pub fn encode_skill_used_event(session_id: &str, skill: &str) -> (r: String)
    ensures
        r@ == "{\"event\":\"skill_used\",\"session_id\":"@ + quote_seq(session_id@)
            + ",\"skill\":"@ + quote_seq(skill@)
            + ",\"result\":\"Skill instructions injected.\"}"@,
{
    let mut out = String::new();
    out.append("{\"event\":\"skill_used\",\"session_id\":");
    push_quoted(&mut out, session_id);
    out.append(",\"skill\":");
    push_quoted(&mut out, skill);
    out.append(",\"result\":\"Skill instructions injected.\"}");
    assert(out@ =~= "{\"event\":\"skill_used\",\"session_id\":"@ + quote_seq(session_id@)
        + ",\"skill\":"@ + quote_seq(skill@) + ",\"result\":\"Skill instructions injected.\"}"@);
    out
}

/// The announcement of one executed tool call, with a preview of what it
/// returned.
pub fn encode_tool_call_event(
    session_id: &str,
    tool: &str,
    arguments: &str,
    call_id: &str,
    result_preview: &str,
) -> (r: String)
    ensures
        r@ == "{\"event\":\"tool_call\",\"session_id\":"@ + quote_seq(session_id@) + ",\"tool\":"@
            + quote_seq(tool@) + ",\"arguments\":"@ + quote_seq(arguments@) + ",\"call_id\":"@
            + quote_seq(call_id@) + ",\"result_preview\":"@ + quote_seq(result_preview@) + "}"@,
{
    let mut out = String::new();
    out.append("{\"event\":\"tool_call\",\"session_id\":");
    push_quoted(&mut out, session_id);
    out.append(",\"tool\":");
    push_quoted(&mut out, tool);
    out.append(",\"arguments\":");
    push_quoted(&mut out, arguments);
    out.append(",\"call_id\":");
    push_quoted(&mut out, call_id);
    out.append(",\"result_preview\":");
    push_quoted(&mut out, result_preview);
    out.append("}");
    assert(out@ =~= "{\"event\":\"tool_call\",\"session_id\":"@ + quote_seq(session_id@)
        + ",\"tool\":"@ + quote_seq(tool@) + ",\"arguments\":"@ + quote_seq(arguments@)
        + ",\"call_id\":"@ + quote_seq(call_id@) + ",\"result_preview\":"@ + quote_seq(
        result_preview@,
    ) + "}"@);
    out
}

/// Appends `"a","b",...` for the entries of `v`.
fn push_string_items(out: &mut String, v: &Vec<String>)
    ensures
        final(out)@ == old(out)@ + encode_items(v.deep_view()),
{
    let ghost pre = out@;
    let mut j: usize = 0;
    proof {
        assert(v.deep_view().subrange(0, 0) =~= Seq::<Seq<char>>::empty());
        assert(out@ =~= pre + encode_items(v.deep_view().subrange(0, 0)));
    }
    while j < v.len()
        invariant
            j <= v@.len(),
            v.deep_view().len() == v@.len(),
            forall|k: int| 0 <= k < v@.len() ==> v.deep_view()[k] == v@[k]@,
            out@ == pre + encode_items(v.deep_view().subrange(0, j as int)),
        decreases v@.len() - j,
    {
        if j > 0 {
            crate::text::push_char(out, ',');
        }
        push_quoted(out, v[j].as_str());
        proof {
            let done = v.deep_view().subrange(0, j as int);
            crate::message::lemma_encode_items_snoc(done, v.deep_view()[j as int]);
            assert(done.push(v.deep_view()[j as int]) =~= v.deep_view().subrange(0, j + 1 as int));
            assert(out@ =~= pre + encode_items(v.deep_view().subrange(0, j + 1 as int)));
        }
        j = j + 1;
    }
    proof {
        assert(v.deep_view().subrange(0, j as int) =~= v.deep_view());
    }
}

/// The list of known sessions.
pub fn encode_session_list_event(ids: &Vec<String>) -> (r: String)
    ensures
        r@ == "{\"event\":\"list\",\"sessions\":["@ + encode_items(ids.deep_view()) + "]}"@,
{
    let mut out = String::new();
    out.append("{\"event\":\"list\",\"sessions\":[");
    push_string_items(&mut out, ids);
    out.append("]}");
    assert(out@ =~= "{\"event\":\"list\",\"sessions\":["@ + encode_items(ids.deep_view()) + "]}"@);
    out
}

/// The skills currently active in a session.
pub fn encode_skill_list_event(session_id: &str, active: &Vec<String>) -> (r: String)
    ensures
        r@ == "{\"event\":\"skill_list\",\"session_id\":"@ + quote_seq(session_id@)
            + ",\"active_skills\":["@ + encode_items(active.deep_view()) + "]}"@,
{
    let mut out = String::new();
    out.append("{\"event\":\"skill_list\",\"session_id\":");
    push_quoted(&mut out, session_id);
    out.append(",\"active_skills\":[");
    push_string_items(&mut out, active);
    out.append("]}");
    assert(out@ =~= "{\"event\":\"skill_list\",\"session_id\":"@ + quote_seq(session_id@)
        + ",\"active_skills\":["@ + encode_items(active.deep_view()) + "]}"@);
    out
}

/// One window of a session's transcript, each record written as in the
/// transcript file itself.
pub fn encode_history_event(
    session_id: &str,
    window: &Vec<Message>,
    total: u64,
    offset: u64,
    limit: u64,
) -> (r: String)
    ensures
        r@ == "{\"event\":\"history\",\"session_id\":"@ + quote_seq(session_id@)
            + ",\"history\":["@ + join_comma(
            crate::session::msg_views(window@).map_values(|m| encode_message_seq(m)),
        ) + "],\"total\":"@ + dec_seq(total as int) + ",\"offset\":"@ + dec_seq(offset as int)
            + ",\"limit\":"@ + dec_seq(limit as int) + "}"@,
{
    let mut out = String::new();
    out.append("{\"event\":\"history\",\"session_id\":");
    push_quoted(&mut out, session_id);
    out.append(",\"history\":[");
    let ghost enc = crate::session::msg_views(window@).map_values(
        |m: crate::message::MsgView| encode_message_seq(m),
    );
    let ghost pre = out@;
    let mut j: usize = 0;
    proof {
        assert(enc.subrange(0, 0) =~= Seq::<Seq<char>>::empty());
        assert(out@ =~= pre + join_comma(enc.subrange(0, 0)));
    }
    while j < window.len()
        invariant
            j <= window@.len(),
            enc == crate::session::msg_views(window@).map_values(
                |m: crate::message::MsgView| encode_message_seq(m),
            ),
            enc.len() == window@.len(),
            out@ == pre + join_comma(enc.subrange(0, j as int)),
        decreases window@.len() - j,
    {
        if j > 0 {
            crate::text::push_char(&mut out, ',');
        }
        let line = encode_message(&window[j]);
        out.append(line.as_str());
        proof {
            let done = enc.subrange(0, j as int);
            lemma_join_comma_snoc(done, enc[j as int]);
            assert(done.push(enc[j as int]) =~= enc.subrange(0, j + 1 as int));
            assert(out@ =~= pre + join_comma(enc.subrange(0, j + 1 as int)));
        }
        j = j + 1;
    }
    proof {
        assert(enc.subrange(0, j as int) =~= enc);
    }
    out.append("],\"total\":");
    push_dec(&mut out, total);
    out.append(",\"offset\":");
    push_dec(&mut out, offset);
    out.append(",\"limit\":");
    push_dec(&mut out, limit);
    out.append("}");
    assert(out@ =~= "{\"event\":\"history\",\"session_id\":"@ + quote_seq(session_id@)
        + ",\"history\":["@ + join_comma(enc) + "],\"total\":"@ + dec_seq(total as int)
        + ",\"offset\":"@ + dec_seq(offset as int) + ",\"limit\":"@ + dec_seq(limit as int)
        + "}"@);
    out
}

/// How a configuration value is written into a reply.
pub open spec fn cfg_value_json(v: ConfigValue) -> Seq<char> {
    match v {
        ConfigValue::Text(t) => quote_seq(t@),
        ConfigValue::TextList(l) => seq!['['] + encode_items(l.deep_view()) + seq![']'],
        ConfigValue::Count(n) => dec_seq(n as int),
        ConfigValue::OptText(o) => match o {
            Some(t) => quote_seq(t@),
            None => "null"@,
        },
    }
}

/// Appends a configuration value in its reply form.
pub fn push_cfg_value(out: &mut String, v: &ConfigValue)
    ensures
        final(out)@ == old(out)@ + cfg_value_json(*v),
{
    match v {
        ConfigValue::Text(t) => {
            push_quoted(out, t.as_str());
        },
        ConfigValue::TextList(l) => {
            crate::text::push_char(out, '[');
            push_string_items(out, l);
            crate::text::push_char(out, ']');
            assert(out@ =~= old(out)@ + cfg_value_json(*v));
        },
        ConfigValue::Count(n) => {
            push_dec(out, *n);
        },
        ConfigValue::OptText(o) => {
            match o {
                Some(t) => {
                    push_quoted(out, t.as_str());
                },
                None => {
                    out.append("null");
                },
            }
        },
    }
}

/// One configuration key's value, or the confirmation of an update.
pub fn encode_config_value_event(event: &str, key: &str, value: &ConfigValue) -> (r: String)
    ensures
        r@ == "{\"event\":"@ + quote_seq(event@) + ",\"key\":"@ + quote_seq(key@) + ",\"value\":"@
            + cfg_value_json(*value) + "}"@,
{
    let mut out = String::new();
    out.append("{\"event\":");
    push_quoted(&mut out, event);
    out.append(",\"key\":");
    push_quoted(&mut out, key);
    out.append(",\"value\":");
    push_cfg_value(&mut out, value);
    out.append("}");
    assert(out@ =~= "{\"event\":"@ + quote_seq(event@) + ",\"key\":"@ + quote_seq(key@)
        + ",\"value\":"@ + cfg_value_json(*value) + "}"@);
    out
}

/// The key/value members of the whole-configuration reply.
pub open spec fn cfg_pairs_json(pairs: Seq<(Seq<char>, ConfigValue)>) -> Seq<char>
    decreases pairs.len(),
{
    if pairs.len() == 0 {
        Seq::empty()
    } else {
        let head = quote_seq(pairs[0].0) + seq![':'] + cfg_value_json(pairs[0].1);
        if pairs.len() == 1 {
            head
        } else {
            head + seq![','] + cfg_pairs_json(pairs.drop_first())
        }
    }
}

/// The whole configuration, one member per key.
pub fn encode_config_list_event(pairs: &Vec<(String, ConfigValue)>) -> (r: String)
    ensures
        r@ == "{\"event\":\"config_list\",\"options\":{"@ + cfg_pairs_json(
            pairs@.map_values(|p: (String, ConfigValue)| (p.0@, p.1)),
        ) + "}}"@,
{
    let mut out = String::new();
    out.append("{\"event\":\"config_list\",\"options\":{");
    let ghost pv = pairs@.map_values(|p: (String, ConfigValue)| (p.0@, p.1));
    let ghost pre = out@;
    let mut j: usize = 0;
    while j < pairs.len()
        invariant
            j <= pairs@.len(),
            pv == pairs@.map_values(|p: (String, ConfigValue)| (p.0@, p.1)),
            pv.len() == pairs@.len(),
            out@ == pre + cfg_pairs_json(pv.take(j as int)) + (if 0 < j < pv.len() {
                seq![',']
            } else {
                Seq::<char>::empty()
            }),
        decreases pairs@.len() - j,
    {
        push_quoted(&mut out, pairs[j].0.as_str());
        crate::text::push_char(&mut out, ':');
        push_cfg_value(&mut out, &pairs[j].1);
        if j + 1 < pairs.len() {
            crate::text::push_char(&mut out, ',');
        }
        proof {
            lemma_cfg_pairs_snoc(pv, j as int);
            if j + 1 < pv.len() {
                assert(out@ =~= pre + cfg_pairs_json(pv.take(j + 1 as int)) + seq![',']);
            } else {
                assert(out@ =~= pre + cfg_pairs_json(pv.take(j + 1 as int)));
            }
        }
        j = j + 1;
    }
    proof {
        assert(pv.take(j as int) =~= pv);
    }
    out.append("}}");
    assert(out@ =~= "{\"event\":\"config_list\",\"options\":{"@ + cfg_pairs_json(pv) + "}}"@);
    out
}

/// Extending the written prefix by one pair: the member text grows by the
/// pair, with a separating comma while members remain.
proof fn lemma_cfg_pairs_snoc(pairs: Seq<(Seq<char>, ConfigValue)>, j: int)
    requires
        0 <= j < pairs.len(),
    ensures
        cfg_pairs_json(pairs.take(j + 1)) == cfg_pairs_json(pairs.take(j)) + (if 0 < j {
            seq![',']
        } else {
            Seq::<char>::empty()
        }) + (quote_seq(pairs[j].0) + seq![':'] + cfg_value_json(pairs[j].1)),
    decreases j,
{
    let head = quote_seq(pairs[0].0) + seq![':'] + cfg_value_json(pairs[0].1);
    if j == 0 {
        assert(pairs.take(1)[0] == pairs[0]);
        assert(pairs.take(1).len() == 1);
        assert(pairs.take(0).len() == 0);
        assert(cfg_pairs_json(pairs.take(1)) == quote_seq(pairs.take(1)[0].0) + seq![':']
            + cfg_value_json(pairs.take(1)[0].1));
        assert(cfg_pairs_json(pairs.take(j + 1)) =~= cfg_pairs_json(pairs.take(j)) + Seq::<
            char,
        >::empty() + (quote_seq(pairs[j].0) + seq![':'] + cfg_value_json(pairs[j].1)));
    } else {
        lemma_cfg_pairs_snoc(pairs.drop_first(), j - 1);
        assert(pairs.take(j + 1)[0] == pairs[0]);
        assert(pairs.take(j)[0] == pairs[0]);
        assert(pairs.take(j + 1).drop_first() =~= pairs.drop_first().take(j));
        assert(pairs.take(j).drop_first() =~= pairs.drop_first().take(j - 1));
        assert(pairs.drop_first()[j - 1] == pairs[j]);
        if j == 1 {
            assert(cfg_pairs_json(pairs.take(2)) == head + seq![','] + cfg_pairs_json(
                pairs.drop_first().take(1),
            ));
            assert(cfg_pairs_json(pairs.take(1)) == head);
            assert(cfg_pairs_json(pairs.take(j + 1)) =~= cfg_pairs_json(pairs.take(j))
                + seq![','] + (quote_seq(pairs[j].0) + seq![':'] + cfg_value_json(pairs[j].1)));
        } else {
            assert(cfg_pairs_json(pairs.take(j + 1)) == head + seq![','] + cfg_pairs_json(
                pairs.drop_first().take(j),
            ));
            assert(cfg_pairs_json(pairs.take(j)) == head + seq![','] + cfg_pairs_json(
                pairs.drop_first().take(j - 1),
            ));
            assert(cfg_pairs_json(pairs.take(j + 1)) =~= cfg_pairs_json(pairs.take(j))
                + seq![','] + (quote_seq(pairs[j].0) + seq![':'] + cfg_value_json(pairs[j].1)));
        }
    }
}



/// One declared tool inside a search reply: the schema document is
/// spliced in as it stands.
pub open spec fn enc_tool_meta(t: ToolView) -> Seq<char> {
    "{\"name\":"@ + quote_seq(t.name) + ",\"description\":"@ + quote_seq(t.description)
        + ",\"parameters\":"@ + t.parameters + "}"@
}

/// One catalog entry in a search reply: its name, description and
/// declared tools.
pub open spec fn enc_meta(name: Seq<char>, description: Seq<char>, tools: Seq<ToolView>) -> Seq<
    char,
> {
    "{\"name\":"@ + quote_seq(name) + ",\"description\":"@ + quote_seq(description)
        + ",\"tools\":["@ + join_comma(tools.map_values(|t: ToolView| enc_tool_meta(t))) + "]}"@
}

/// Appends one declared tool, as `enc_tool_meta` says.
fn push_tool_meta(out: &mut String, t: &Tool)
    ensures
        final(out)@ == old(out)@ + enc_tool_meta(t@),
{
    out.append("{\"name\":");
    push_quoted(out, t.name.as_str());
    out.append(",\"description\":");
    push_quoted(out, t.description.as_str());
    out.append(",\"parameters\":");
    out.append(t.parameters.as_str());
    out.append("}");
    assert(out@ =~= old(out)@ + enc_tool_meta(t@));
}

/// Appends one catalog entry, as `enc_meta` says.
fn push_meta(out: &mut String, m: &SkillMetadata)
    ensures
        final(out)@ == old(out)@ + enc_meta(m.name@, m.description@, meta_tool_views(m.tools@)),
{
    out.append("{\"name\":");
    push_quoted(out, m.name.as_str());
    out.append(",\"description\":");
    push_quoted(out, m.description.as_str());
    out.append(",\"tools\":[");
    let ghost enc = meta_tool_views(m.tools@).map_values(|t: ToolView| enc_tool_meta(t));
    let ghost pre = out@;
    let mut j: usize = 0;
    proof {
        assert(enc.subrange(0, 0) =~= Seq::<Seq<char>>::empty());
        assert(out@ =~= pre + join_comma(enc.subrange(0, 0)));
    }
    while j < m.tools.len()
        invariant
            j <= m.tools@.len(),
            enc == meta_tool_views(m.tools@).map_values(|t: ToolView| enc_tool_meta(t)),
            enc.len() == m.tools@.len(),
            out@ == pre + join_comma(enc.subrange(0, j as int)),
        decreases m.tools@.len() - j,
    {
        if j > 0 {
            crate::text::push_char(out, ',');
        }
        push_tool_meta(out, &m.tools[j]);
        proof {
            let done = enc.subrange(0, j as int);
            lemma_join_comma_snoc(done, enc[j as int]);
            assert(done.push(enc[j as int]) =~= enc.subrange(0, j + 1 as int));
            assert(out@ =~= pre + join_comma(enc.subrange(0, j + 1 as int)));
        }
        j = j + 1;
    }
    proof {
        assert(enc.subrange(0, j as int) =~= enc);
    }
    out.append("]}");
    assert(out@ =~= old(out)@ + enc_meta(m.name@, m.description@, meta_tool_views(m.tools@)));
}

/// The catalog entries a search ranked as relevant, whole metadata each.
pub fn encode_skill_search_event(session_id: &str, items: &Vec<SkillMetadata>) -> (r: String)
    ensures
        r@ == "{\"event\":\"skill_search_results\",\"session_id\":"@ + quote_seq(session_id@)
            + ",\"results\":["@ + join_comma(
            items@.map_values(
                |m: SkillMetadata| enc_meta(m.name@, m.description@, meta_tool_views(m.tools@)),
            ),
        ) + "]}"@,
{
    let mut out = String::new();
    out.append("{\"event\":\"skill_search_results\",\"session_id\":");
    push_quoted(&mut out, session_id);
    out.append(",\"results\":[");
    let ghost enc = items@.map_values(
        |m: SkillMetadata| enc_meta(m.name@, m.description@, meta_tool_views(m.tools@)),
    );
    let ghost pre = out@;
    let mut j: usize = 0;
    proof {
        assert(enc.subrange(0, 0) =~= Seq::<Seq<char>>::empty());
        assert(out@ =~= pre + join_comma(enc.subrange(0, 0)));
    }
    while j < items.len()
        invariant
            j <= items@.len(),
            enc == items@.map_values(
                |m: SkillMetadata| enc_meta(m.name@, m.description@, meta_tool_views(m.tools@)),
            ),
            enc.len() == items@.len(),
            out@ == pre + join_comma(enc.subrange(0, j as int)),
        decreases items@.len() - j,
    {
        if j > 0 {
            crate::text::push_char(&mut out, ',');
        }
        push_meta(&mut out, &items[j]);
        proof {
            let done = enc.subrange(0, j as int);
            lemma_join_comma_snoc(done, enc[j as int]);
            assert(done.push(enc[j as int]) =~= enc.subrange(0, j + 1 as int));
            assert(out@ =~= pre + join_comma(enc.subrange(0, j + 1 as int)));
        }
        j = j + 1;
    }
    proof {
        assert(enc.subrange(0, j as int) =~= enc);
    }
    out.append("]}");
    assert(out@ =~= "{\"event\":\"skill_search_results\",\"session_id\":"@ + quote_seq(
        session_id@,
    ) + ",\"results\":["@ + join_comma(enc) + "]}"@);
    out
}

/// The string payload of the argument document's top-level `<key>`
/// member, when it is a string; a function of the document text and the
/// key alone.
pub uninterp spec fn doc_str_of(s: Seq<char>, key: Seq<char>) -> Option<Seq<char>>;

/// The unsigned payload of the argument document's top-level `<key>`
/// member, when it is an unsigned integer; a function of the document
/// text and the key alone.
pub uninterp spec fn doc_u64_of(s: Seq<char>, key: Seq<char>) -> Option<u64>;

/// The string entries of the argument document's `args` array, in order;
/// entries of any other type are passed over, and a document without the
/// array has none. A function of the document text alone.
pub uninterp spec fn args_list_of(s: Seq<char>) -> Seq<Seq<char>>;

/// Relies on serde_json (`from_str` and `Value` navigation): the string
/// payload of one top-level member.
#[verifier::external_body]
fn read_doc_str(args_json: &str, key: &str) -> (r: Option<String>)
    ensures
        json_wf(args_json@) ==> (match r {
            Some(t) => doc_str_of(args_json@, key@) == Some(t@),
            None => doc_str_of(args_json@, key@) is None,
        }),
        !json_wf(args_json@) ==> r is None,
{
    match serde_json::from_str::<serde_json::Value>(args_json) {
        Ok(doc) => match doc.get(key) {
            Some(m) => m.as_str().map(|t| t.to_string()),
            None => None,
        },
        Err(_) => None,
    }
}

/// Relies on serde_json (`from_str` and `Value` navigation): the
/// unsigned payload of one top-level member.
#[verifier::external_body]
fn read_doc_u64(args_json: &str, key: &str) -> (r: Option<u64>)
    ensures
        json_wf(args_json@) ==> r == doc_u64_of(args_json@, key@),
        !json_wf(args_json@) ==> r is None,
{
    match serde_json::from_str::<serde_json::Value>(args_json) {
        Ok(doc) => match doc.get(key) {
            Some(m) => m.as_u64(),
            None => None,
        },
        Err(_) => None,
    }
}

/// Relies on serde_json (`from_str` and `Value` navigation): the string
/// entries of the document's `args` array, other entries passed over.
#[verifier::external_body]
fn read_args_list(args_json: &str) -> (r: Vec<String>)
    ensures
        json_wf(args_json@) ==> r.deep_view() == args_list_of(args_json@),
        !json_wf(args_json@) ==> r@.len() == 0,
{
    let mut out: Vec<String> = Vec::new();
    if let Ok(doc) = serde_json::from_str::<serde_json::Value>(args_json) {
        if let Some(arr) = doc["args"].as_array() {
            for e in arr {
                if let Some(t) = e.as_str() {
                    out.push(t.to_string());
                }
            }
        }
    }
    out
}

/// The arguments of a pagination call: the prior call to read, the
/// window, and an optional search term.
pub struct PaginateArgs {
    pub tool_call_uuid: String,
    pub offset: u64,
    pub limit: u64,
    pub search: Option<String>,
}

/// Reads a pagination call's argument document. The prior call's
/// identifier is required; the offset defaults to the start and the
/// limit to the configured line count; every field equals the named
/// reading of its member.
pub fn parse_paginate_args(args_json: &str, default_limit: u64) -> (r: Option<PaginateArgs>)
    ensures
        r is Some <==> json_wf(args_json@) && doc_str_of(args_json@, "tool_call_uuid"@) is Some,
        r matches Some(a) ==> {
            &&& Some(a.tool_call_uuid@) == doc_str_of(args_json@, "tool_call_uuid"@)
            &&& a.offset == (match doc_u64_of(args_json@, "offset"@) {
                Some(n) => n,
                None => 0u64,
            })
            &&& a.limit == (match doc_u64_of(args_json@, "limit"@) {
                Some(n) => n,
                None => default_limit,
            })
            &&& crate::config::opt_text_view(a.search) == doc_str_of(args_json@, "search"@)
        },
{
    let tool_call_uuid = match read_doc_str(args_json, "tool_call_uuid") {
        Some(u) => u,
        None => {
            return None;
        },
    };
    let offset = match read_doc_u64(args_json, "offset") {
        Some(n) => n,
        None => 0,
    };
    let limit = match read_doc_u64(args_json, "limit") {
        Some(n) => n,
        None => default_limit,
    };
    let search = read_doc_str(args_json, "search");
    Some(PaginateArgs { tool_call_uuid, offset, limit, search })
}

/// The arguments of a skill-script call: which skill, which script, and
/// the positional arguments to hand it.
pub struct ScriptArgs {
    pub skill_name: String,
    pub script_name: String,
    pub args: Vec<String>,
}

/// Reads a skill-script call's argument document. The skill and script
/// names are required; of the argument array only string entries are
/// taken; every field equals the named reading of its member.
pub fn parse_script_args(args_json: &str) -> (r: Option<ScriptArgs>)
    ensures
        r is Some <==> json_wf(args_json@) && doc_str_of(args_json@, "skill_name"@) is Some
            && doc_str_of(args_json@, "script_name"@) is Some,
        r matches Some(a) ==> {
            &&& Some(a.skill_name@) == doc_str_of(args_json@, "skill_name"@)
            &&& Some(a.script_name@) == doc_str_of(args_json@, "script_name"@)
            &&& a.args.deep_view() == args_list_of(args_json@)
        },
{
    let skill_name = match read_doc_str(args_json, "skill_name") {
        Some(u) => u,
        None => {
            return None;
        },
    };
    let script_name = match read_doc_str(args_json, "script_name") {
        Some(u) => u,
        None => {
            return None;
        },
    };
    let args = read_args_list(args_json);
    Some(ScriptArgs { skill_name, script_name, args })
}

/// The string entries of a document's `args` array; an unreadable
/// document has none.
pub fn parse_tool_args_list(args_json: &str) -> (r: Vec<String>)
    ensures
        json_wf(args_json@) ==> r.deep_view() == args_list_of(args_json@),
        !json_wf(args_json@) ==> r@.len() == 0,
{
    read_args_list(args_json)
}

} // verus!
