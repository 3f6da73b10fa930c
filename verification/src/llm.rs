//! The LLM-provider gateway: splitting a `provider/model` identifier,
//! routing to each provider's endpoint, building the provider-specific
//! request body, and decoding one streamed chunk into a uniform event.
//! The network call itself is made by the caller; everything it sends is
//! computed, and pinned down, here.
use vstd::prelude::*;

verus! {

use vstd::string::StringExecFns;
use crate::jsontext::quote_seq;
use crate::jsontext::push_quoted;
use crate::jsontext::join_comma;
use crate::jsontext::lemma_join_comma_snoc;
use crate::jsonread::json_wf;
use crate::jsonread::json_parse;
use crate::text::str_eq;
use crate::text::chars_of;
use crate::text::string_from_chars;
use crate::text::first_pos;
use crate::text::find_char;
use crate::text::split_lines;
use crate::text::split_lines_seq;
use crate::text::starts_with_seq;
use crate::text::slice_starts_at;

/// One invocable action offered to the model: its schema, and how to run it.
/// `parameters` holds the JSON schema as document text.
#[derive(Debug, Clone)]
pub struct Tool {
    pub name: String,
    pub description: String,
    pub parameters: String,
    pub exec_cmd: Option<String>,
    pub working_dir: Option<String>,
}

/// One model-issued tool invocation.
#[derive(Debug, Clone)]
pub struct ToolCall {
    pub id: String,
    pub name: String,
    pub arguments: String,
}

/// One normalized unit of a provider's reply stream.
#[derive(Debug, Clone)]
pub enum LlmResponse {
    Text(String),
    ToolCall(ToolCall),
}

pub struct CallView {
    pub id: Seq<char>,
    pub name: Seq<char>,
    pub arguments: Seq<char>,
}

impl View for ToolCall {
    type V = CallView;

    open spec fn view(&self) -> CallView {
        CallView { id: self.id@, name: self.name@, arguments: self.arguments@ }
    }
}

pub struct ToolView {
    pub name: Seq<char>,
    pub description: Seq<char>,
    pub parameters: Seq<char>,
}

impl View for Tool {
    type V = ToolView;

    open spec fn view(&self) -> ToolView {
        ToolView { name: self.name@, description: self.description@, parameters: self.parameters@ }
    }
}

/// The closed set of supported providers.
#[derive(Debug, Clone, Copy, PartialEq, Eq, Structural)]
pub enum Provider {
    Ollama,
    Xai,
    Gemini,
}

/// Why a gateway request could not be built; nothing was sent in that case.
#[derive(Debug, Clone)]
pub enum LlmError {
    InvalidModelFormat,
    UnknownProvider(String),
    NoEmbeddings(String),
}

/// One context entry handed to the gateway: an ordinary turn, an assistant
/// turn that issued tool calls, or one tool result.
pub enum ContextMsg {
    Plain { role: String, content: String },
    AssistantCalls { content: Option<String>, calls: Vec<ToolCall> },
    ToolResult { tool_call_id: String, name: String, content: String },
}

pub enum CtxView {
    Plain { role: Seq<char>, content: Seq<char> },
    AssistantCalls { content: Option<Seq<char>>, calls: Seq<CallView> },
    ToolResult { tool_call_id: Seq<char>, name: Seq<char>, content: Seq<char> },
}

impl View for ContextMsg {
    type V = CtxView;

    open spec fn view(&self) -> CtxView {
        match self {
            ContextMsg::Plain { role, content } => CtxView::Plain {
                role: role@,
                content: content@,
            },
            ContextMsg::AssistantCalls { content, calls } => CtxView::AssistantCalls {
                content: match content {
                    Some(t) => Some(t@),
                    None => None,
                },
                calls: calls@.map_values(|c: ToolCall| c@),
            },
            ContextMsg::ToolResult { tool_call_id, name, content } => CtxView::ToolResult {
                tool_call_id: tool_call_id@,
                name: name@,
                content: content@,
            },
        }
    }
}

/// The provider a model identifier names, if it is a known one.
pub open spec fn spec_provider_of(s: Seq<char>) -> Option<Provider> {
    if s == "ollama"@ {
        Some(Provider::Ollama)
    } else if s == "xai"@ {
        Some(Provider::Xai)
    } else if s == "gemini"@ {
        Some(Provider::Gemini)
    } else {
        None
    }
}

pub fn provider_of(name: &str) -> (r: Option<Provider>)
    ensures
        r == spec_provider_of(name@),
{
    if str_eq(name, "ollama") {
        Some(Provider::Ollama)
    } else if str_eq(name, "xai") {
        Some(Provider::Xai)
    } else if str_eq(name, "gemini") {
        Some(Provider::Gemini)
    } else {
        None
    }
}

/// Splits `provider/model` at the first slash. `None` exactly when the
/// identifier has no slash; that identifier is rejected before any request
/// is built.
pub fn split_model(model_str: &str) -> (r: Option<(String, String)>)
    ensures
        r is Some <==> first_pos(model_str@, '/') >= 0,
        r is Some ==> {
            let i = first_pos(model_str@, '/');
            (r->0).0@ == model_str@.take(i) && (r->0).1@ == model_str@.skip(i + 1)
        },
{
    let v = chars_of(model_str);
    let sv = v.as_slice();
    let n = sv.len();
    assert(sv@.skip(0) =~= model_str@);
    match find_char(sv, 0, '/') {
        None => None,
        Some(i) => {
            assert(i as int == first_pos(model_str@, '/'));
            let before = vstd::slice::slice_subrange(sv, 0, i);
            let after = vstd::slice::slice_subrange(sv, i + 1, n);
            let p = string_from_chars(before);
            let m = string_from_chars(after);
            assert(p@ =~= model_str@.take(i as int));
            assert(m@ =~= model_str@.skip(i + 1 as int));
            Some((p, m))
        },
    }
}

/// The chat endpoint path each provider documents; Gemini's names the model.
pub open spec fn chat_path_seq(p: Provider, model: Seq<char>) -> Seq<char> {
    match p {
        Provider::Ollama => "/ollama/api/chat"@,
        Provider::Xai => "/xai/v1/chat/completions"@,
        Provider::Gemini => "/gemini/v1beta/models/"@ + model + ":streamGenerateContent"@,
    }
}

pub fn chat_path(p: Provider, model: &str) -> (r: String)
    ensures
        r@ == chat_path_seq(p, model@),
{
    match p {
        Provider::Ollama => {
            let mut s = String::new();
            s.append("/ollama/api/chat");
            assert(s@ =~= chat_path_seq(p, model@));
            s
        },
        Provider::Xai => {
            let mut s = String::new();
            s.append("/xai/v1/chat/completions");
            assert(s@ =~= chat_path_seq(p, model@));
            s
        },
        Provider::Gemini => {
            let mut s = String::new();
            s.append("/gemini/v1beta/models/");
            s.append(model);
            s.append(":streamGenerateContent");
            assert(s@ =~= chat_path_seq(p, model@));
            s
        },
    }
}

/// The embeddings endpoint path; only one provider offers embeddings.
pub open spec fn embeddings_path_seq(p: Provider) -> Option<Seq<char>> {
    match p {
        Provider::Ollama => Some("/ollama/api/embeddings"@),
        _ => None,
    }
}

/// The embeddings request body: the model and the text to embed.
pub open spec fn embeddings_body_seq(model: Seq<char>, input: Seq<char>) -> Seq<char> {
    "{\"model\":"@ + quote_seq(model) + ",\"prompt\":"@ + quote_seq(input) + "}"@
}

/// A fully prepared request: the path under the gateway base and the exact
/// body to send.
pub struct HttpRequest {
    pub path: String,
    pub body: String,
}

/// Builds the embeddings request for `model_str` and `input`. Fails, before
/// anything is sent, exactly on a malformed identifier or a provider with
/// no embedding endpoint.
pub fn build_embeddings_request(model_str: &str, input: &str) -> (r: Result<HttpRequest, LlmError>)
    ensures
        first_pos(model_str@, '/') < 0 <==> r matches Err(LlmError::InvalidModelFormat),
        first_pos(model_str@, '/') >= 0 && spec_provider_of(
            model_str@.take(first_pos(model_str@, '/')),
        ) == Some(Provider::Ollama) ==> r is Ok,
        r matches Err(LlmError::NoEmbeddings(p)) <==> first_pos(model_str@, '/') >= 0
            && spec_provider_of(model_str@.take(first_pos(model_str@, '/'))) != Some(
            Provider::Ollama,
        ),
        r matches Err(LlmError::NoEmbeddings(p)) ==> p@ == model_str@.take(
            first_pos(model_str@, '/'),
        ),
        r is Ok ==> {
            let i = first_pos(model_str@, '/');
            &&& i >= 0
            &&& spec_provider_of(model_str@.take(i)) == Some(Provider::Ollama)
            &&& r->Ok_0.path@ == "/ollama/api/embeddings"@
            &&& r->Ok_0.body@ == embeddings_body_seq(model_str@.skip(i + 1), input@)
        },
        r matches Err(LlmError::NoEmbeddings(_)) ==> {
            let i = first_pos(model_str@, '/');
            i >= 0 && spec_provider_of(model_str@.take(i)) != Some(Provider::Ollama)
        },
{
    match split_model(model_str) {
        None => Err(LlmError::InvalidModelFormat),
        Some((prov_name, model)) => {
            match provider_of(prov_name.as_str()) {
                Some(Provider::Ollama) => {
                    let mut path = String::new();
                    path.append("/ollama/api/embeddings");
                    let mut body = String::new();
                    body.append("{\"model\":");
                    push_quoted(&mut body, model.as_str());
                    body.append(",\"prompt\":");
                    push_quoted(&mut body, input);
                    body.append("}");
                    assert(path@ =~= "/ollama/api/embeddings"@);
                    assert(body@ =~= embeddings_body_seq(model@, input@));
                    Ok(HttpRequest { path, body })
                },
                _ => Err(LlmError::NoEmbeddings(prov_name)),
            }
        },
    }
}

/// How a tool call's arguments are written into an assistant context entry:
/// providers that expect a structured object get the argument document
/// spliced in when it is one, the string-based provider gets it as a JSON
/// string.
pub open spec fn enc_args(p: Provider, args: Seq<char>) -> Seq<char> {
    match p {
        Provider::Xai => quote_seq(args),
        _ => if json_wf(args) {
            args
        } else {
            quote_seq(args)
        },
    }
}

/// One tool call inside an assistant context entry.
pub open spec fn enc_call(p: Provider, c: CallView) -> Seq<char> {
    "{\"id\":"@ + quote_seq(c.id) + ",\"type\":\"function\",\"function\":{\"name\":"@ + quote_seq(
        c.name,
    ) + ",\"arguments\":"@ + enc_args(p, c.arguments) + "}}"@
}

/// One context entry as the non-Gemini providers expect it.
pub open spec fn enc_ctx(p: Provider, m: CtxView) -> Seq<char> {
    match m {
        CtxView::Plain { role, content } => "{\"role\":"@ + quote_seq(role) + ",\"content\":"@
            + quote_seq(content) + "}"@,
        CtxView::AssistantCalls { content, calls } => "{\"role\":\"assistant\",\"content\":"@ + (
        match content {
            Some(t) => quote_seq(t),
            None => "null"@,
        }) + ",\"tool_calls\":["@ + join_comma(calls.map_values(|c: CallView| enc_call(p, c)))
            + "]}"@,
        CtxView::ToolResult { tool_call_id, name, content } => "{\"role\":\"tool\",\"tool_call_id\":"@
            + quote_seq(tool_call_id) + ",\"name\":"@ + quote_seq(name) + ",\"content\":"@
            + quote_seq(content) + "}"@,
    }
}

/// The role Gemini sees for a context entry: the assistant becomes `model`,
/// everything else speaks as `user`.
pub open spec fn gem_role(m: CtxView) -> Seq<char> {
    match m {
        CtxView::Plain { role, .. } => if role == "assistant"@ {
            "model"@
        } else {
            "user"@
        },
        CtxView::AssistantCalls { .. } => "model"@,
        CtxView::ToolResult { .. } => "user"@,
    }
}

/// The text Gemini sees for a context entry; an entry with no text becomes
/// an empty part.
pub open spec fn gem_text(m: CtxView) -> Seq<char> {
    match m {
        CtxView::Plain { content, .. } => content,
        CtxView::AssistantCalls { content, .. } => match content {
            Some(t) => t,
            None => Seq::empty(),
        },
        CtxView::ToolResult { content, .. } => content,
    }
}

/// One context entry as Gemini expects it: a role and one text part.
pub open spec fn enc_gem_ctx(m: CtxView) -> Seq<char> {
    "{\"role\":"@ + quote_seq(gem_role(m)) + ",\"parts\":[{\"text\":"@ + quote_seq(gem_text(m))
        + "}]}"@
}

/// One tool declaration in the shape the provider documents.
pub open spec fn enc_tool_decl(p: Provider, t: ToolView) -> Seq<char> {
    match p {
        Provider::Gemini => "{\"name\":"@ + quote_seq(t.name) + ",\"description\":"@ + quote_seq(
            t.description,
        ) + ",\"parameters\":"@ + t.parameters + "}"@,
        _ => "{\"type\":\"function\",\"function\":{\"name\":"@ + quote_seq(t.name)
            + ",\"description\":"@ + quote_seq(t.description) + ",\"parameters\":"@ + t.parameters
            + "}}"@,
    }
}

/// The whole chat request body for a provider: a streamed chat for the
/// OpenAI-shaped providers, a `contents` list for Gemini; the tool section
/// is present exactly when a tool list was given.
pub open spec fn chat_body_seq(
    p: Provider,
    model: Seq<char>,
    msgs: Seq<CtxView>,
    tools: Option<Seq<ToolView>>,
) -> Seq<char> {
    match p {
        Provider::Gemini => "{\"contents\":["@ + join_comma(
            msgs.map_values(|m: CtxView| enc_gem_ctx(m)),
        ) + "]"@ + (match tools {
            None => Seq::<char>::empty(),
            Some(ts) => ",\"tools\":[{\"function_declarations\":["@ + join_comma(
                ts.map_values(|t: ToolView| enc_tool_decl(p, t)),
            ) + "]}]"@,
        }) + "}"@,
        _ => "{\"model\":"@ + quote_seq(model) + ",\"messages\":["@ + join_comma(
            msgs.map_values(|m: CtxView| enc_ctx(p, m)),
        ) + "],\"stream\":true"@ + (match tools {
            None => Seq::<char>::empty(),
            Some(ts) => ",\"tools\":["@ + join_comma(
                ts.map_values(|t: ToolView| enc_tool_decl(p, t)),
            ) + "]"@,
        }) + "}"@,
    }
}

/// Appends one tool call entry, as `enc_call` says.
fn push_call(out: &mut String, p: Provider, c: &ToolCall)
    ensures
        final(out)@ == old(out)@ + enc_call(p, c@),
{
    out.append("{\"id\":");
    push_quoted(out, c.id.as_str());
    out.append(",\"type\":\"function\",\"function\":{\"name\":");
    push_quoted(out, c.name.as_str());
    out.append(",\"arguments\":");
    match p {
        Provider::Xai => {
            push_quoted(out, c.arguments.as_str());
        },
        _ => {
            match json_parse(c.arguments.as_str()) {
                Some(_) => {
                    out.append(c.arguments.as_str());
                },
                None => {
                    push_quoted(out, c.arguments.as_str());
                },
            }
        },
    }
    out.append("}}");
    assert(out@ =~= old(out)@ + enc_call(p, c@));
}

/// Appends one context entry for the non-Gemini providers, as `enc_ctx`
/// says.
fn push_ctx(out: &mut String, p: Provider, m: &ContextMsg)
    ensures
        final(out)@ == old(out)@ + enc_ctx(p, m@),
{
    match m {
        ContextMsg::Plain { role, content } => {
            out.append("{\"role\":");
            push_quoted(out, role.as_str());
            out.append(",\"content\":");
            push_quoted(out, content.as_str());
            out.append("}");
            assert(out@ =~= old(out)@ + enc_ctx(p, m@));
        },
        ContextMsg::AssistantCalls { content, calls } => {
            out.append("{\"role\":\"assistant\",\"content\":");
            match content {
                Some(t) => {
                    push_quoted(out, t.as_str());
                },
                None => {
                    out.append("null");
                },
            }
            out.append(",\"tool_calls\":[");
            let ghost pre = out@;
            let ghost cviews = calls@.map_values(|c: ToolCall| c@);
            let mut j: usize = 0;
            proof {
                assert(cviews.subrange(0, 0).map_values(|c: CallView| enc_call(p, c))
                    =~= Seq::<Seq<char>>::empty());
                assert(out@ =~= pre + join_comma(
                    cviews.subrange(0, 0).map_values(|c: CallView| enc_call(p, c)),
                ));
            }
            while j < calls.len()
                invariant
                    j <= calls@.len(),
                    cviews == calls@.map_values(|c: ToolCall| c@),
                    cviews.len() == calls@.len(),
                    out@ == pre + join_comma(
                        cviews.subrange(0, j as int).map_values(|c: CallView| enc_call(p, c)),
                    ),
                decreases calls@.len() - j,
            {
                if j > 0 {
                    crate::text::push_char(out, ',');
                }
                push_call(out, p, &calls[j]);
                proof {
                    let mapped = cviews.subrange(0, j as int).map_values(
                        |c: CallView| enc_call(p, c),
                    );
                    lemma_join_comma_snoc(mapped, enc_call(p, cviews[j as int]));
                    assert(mapped.push(enc_call(p, cviews[j as int])) =~= cviews.subrange(
                        0,
                        j + 1 as int,
                    ).map_values(|c: CallView| enc_call(p, c)));
                    assert(out@ =~= pre + join_comma(
                        cviews.subrange(0, j + 1 as int).map_values(|c: CallView| enc_call(p, c)),
                    ));
                }
                j = j + 1;
            }
            proof {
                assert(cviews.subrange(0, j as int) =~= cviews);
            }
            out.append("]}");
            assert(out@ =~= old(out)@ + enc_ctx(p, m@));
        },
        ContextMsg::ToolResult { tool_call_id, name, content } => {
            out.append("{\"role\":\"tool\",\"tool_call_id\":");
            push_quoted(out, tool_call_id.as_str());
            out.append(",\"name\":");
            push_quoted(out, name.as_str());
            out.append(",\"content\":");
            push_quoted(out, content.as_str());
            out.append("}");
            assert(out@ =~= old(out)@ + enc_ctx(p, m@));
        },
    }
}

/// Appends one context entry in Gemini's shape, as `enc_gem_ctx` says.
fn push_gem_ctx(out: &mut String, m: &ContextMsg)
    ensures
        final(out)@ == old(out)@ + enc_gem_ctx(m@),
{
    out.append("{\"role\":");
    match m {
        ContextMsg::Plain { role, .. } => {
            if str_eq(role.as_str(), "assistant") {
                push_quoted(out, "model");
            } else {
                push_quoted(out, "user");
            }
        },
        ContextMsg::AssistantCalls { .. } => {
            push_quoted(out, "model");
        },
        ContextMsg::ToolResult { .. } => {
            push_quoted(out, "user");
        },
    }
    out.append(",\"parts\":[{\"text\":");
    match m {
        ContextMsg::Plain { content, .. } => {
            push_quoted(out, content.as_str());
        },
        ContextMsg::AssistantCalls { content, .. } => {
            match content {
                Some(t) => {
                    push_quoted(out, t.as_str());
                },
                None => {
                    push_quoted(out, "");
                    proof {
                        reveal_strlit("");
                        assert(""@ =~= Seq::<char>::empty());
                    }
                },
            }
        },
        ContextMsg::ToolResult { content, .. } => {
            push_quoted(out, content.as_str());
        },
    }
    out.append("}]}");
    assert(out@ =~= old(out)@ + enc_gem_ctx(m@));
}

/// Appends one tool declaration, as `enc_tool_decl` says.
fn push_tool_decl(out: &mut String, p: Provider, t: &Tool)
    ensures
        final(out)@ == old(out)@ + enc_tool_decl(p, t@),
{
    match p {
        Provider::Gemini => {
            out.append("{\"name\":");
            push_quoted(out, t.name.as_str());
            out.append(",\"description\":");
            push_quoted(out, t.description.as_str());
            out.append(",\"parameters\":");
            out.append(t.parameters.as_str());
            out.append("}");
        },
        _ => {
            out.append("{\"type\":\"function\",\"function\":{\"name\":");
            push_quoted(out, t.name.as_str());
            out.append(",\"description\":");
            push_quoted(out, t.description.as_str());
            out.append(",\"parameters\":");
            out.append(t.parameters.as_str());
            out.append("}}");
        },
    }
    assert(out@ =~= old(out)@ + enc_tool_decl(p, t@));
}

/// Appends the comma-joined encodings of all context entries.
fn push_all_ctx(out: &mut String, p: Provider, msgs: &Vec<ContextMsg>, gemini: bool)
    ensures
        !gemini ==> final(out)@ == old(out)@ + join_comma(
            msgs@.map_values(|m: ContextMsg| m@).map_values(|m: CtxView| enc_ctx(p, m)),
        ),
        gemini ==> final(out)@ == old(out)@ + join_comma(
            msgs@.map_values(|m: ContextMsg| m@).map_values(|m: CtxView| enc_gem_ctx(m)),
        ),
{
    let ghost views = msgs@.map_values(|m: ContextMsg| m@);
    let ghost enc = if gemini {
        views.map_values(|m: CtxView| enc_gem_ctx(m))
    } else {
        views.map_values(|m: CtxView| enc_ctx(p, m))
    };
    let ghost pre = out@;
    let mut j: usize = 0;
    proof {
        assert(enc.subrange(0, 0) =~= Seq::<Seq<char>>::empty());
        assert(out@ =~= pre + join_comma(enc.subrange(0, 0)));
    }
    while j < msgs.len()
        invariant
            j <= msgs@.len(),
            views == msgs@.map_values(|m: ContextMsg| m@),
            enc == (if gemini {
                views.map_values(|m: CtxView| enc_gem_ctx(m))
            } else {
                views.map_values(|m: CtxView| enc_ctx(p, m))
            }),
            enc.len() == msgs@.len(),
            out@ == pre + join_comma(enc.subrange(0, j as int)),
        decreases msgs@.len() - j,
    {
        if j > 0 {
            crate::text::push_char(out, ',');
        }
        if gemini {
            push_gem_ctx(out, &msgs[j]);
        } else {
            push_ctx(out, p, &msgs[j]);
        }
        proof {
            let mapped = enc.subrange(0, j as int);
            lemma_join_comma_snoc(mapped, enc[j as int]);
            assert(mapped.push(enc[j as int]) =~= enc.subrange(0, j + 1 as int));
            assert(out@ =~= pre + join_comma(enc.subrange(0, j + 1 as int)));
        }
        j = j + 1;
    }
    proof {
        assert(enc.subrange(0, j as int) =~= enc);
    }
}

/// Appends the comma-joined declarations of all tools.
fn push_all_tools(out: &mut String, p: Provider, tools: &Vec<Tool>)
    ensures
        final(out)@ == old(out)@ + join_comma(
            tools@.map_values(|t: Tool| t@).map_values(|t: ToolView| enc_tool_decl(p, t)),
        ),
{
    let ghost enc = tools@.map_values(|t: Tool| t@).map_values(|t: ToolView| enc_tool_decl(p, t));
    let ghost pre = out@;
    let mut j: usize = 0;
    proof {
        assert(enc.subrange(0, 0) =~= Seq::<Seq<char>>::empty());
        assert(out@ =~= pre + join_comma(enc.subrange(0, 0)));
    }
    while j < tools.len()
        invariant
            j <= tools@.len(),
            enc == tools@.map_values(|t: Tool| t@).map_values(|t: ToolView| enc_tool_decl(p, t)),
            enc.len() == tools@.len(),
            out@ == pre + join_comma(enc.subrange(0, j as int)),
        decreases tools@.len() - j,
    {
        if j > 0 {
            crate::text::push_char(out, ',');
        }
        push_tool_decl(out, p, &tools[j]);
        proof {
            let mapped = enc.subrange(0, j as int);
            lemma_join_comma_snoc(mapped, enc[j as int]);
            assert(mapped.push(enc[j as int]) =~= enc.subrange(0, j + 1 as int));
            assert(out@ =~= pre + join_comma(enc.subrange(0, j + 1 as int)));
        }
        j = j + 1;
    }
    proof {
        assert(enc.subrange(0, j as int) =~= enc);
    }
}

/// The spec-level view of an optional tool list.
pub open spec fn tools_view(tools: Option<Vec<Tool>>) -> Option<Seq<ToolView>> {
    match tools {
        Some(ts) => Some(ts@.map_values(|t: Tool| t@)),
        None => None,
    }
}

/// Builds the streaming chat request for `model_str`: the documented
/// endpoint path and the exact provider-shaped body. Fails, before anything
/// is sent, exactly on an identifier without a slash or with an unknown
/// provider name.
#[verifier::rlimit(100)]
#[verifier::spinoff_prover]
pub fn build_chat_request(
    model_str: &str,
    messages: &Vec<ContextMsg>,
    tools: &Option<Vec<Tool>>,
) -> (r: Result<HttpRequest, LlmError>)
    ensures
        r matches Err(LlmError::InvalidModelFormat) <==> first_pos(model_str@, '/') < 0,
        r matches Err(LlmError::UnknownProvider(_)) <==> first_pos(model_str@, '/') >= 0
            && spec_provider_of(model_str@.take(first_pos(model_str@, '/'))) is None,
        r is Ok <==> first_pos(model_str@, '/') >= 0 && spec_provider_of(
            model_str@.take(first_pos(model_str@, '/')),
        ) is Some,
        r is Ok ==> {
            let i = first_pos(model_str@, '/');
            let model = model_str@.skip(i + 1);
            let p = spec_provider_of(model_str@.take(i))->0;
            &&& i >= 0
            &&& spec_provider_of(model_str@.take(i)) is Some
            &&& r->Ok_0.path@ == chat_path_seq(p, model)
            &&& r->Ok_0.body@ == chat_body_seq(
                p,
                model,
                messages@.map_values(|m: ContextMsg| m@),
                tools_view(*tools),
            )
        },
{
    match split_model(model_str) {
        None => Err(LlmError::InvalidModelFormat),
        Some((prov_name, model)) => {
            match provider_of(prov_name.as_str()) {
                None => Err(LlmError::UnknownProvider(prov_name)),
                Some(p) => {
                    let path = chat_path(p, model.as_str());
                    let mut body = String::new();
                    match p {
                        Provider::Gemini => {
                            body.append("{\"contents\":[");
                            push_all_ctx(&mut body, p, messages, true);
                            body.append("]");
                            match tools {
                                None => {},
                                Some(ts) => {
                                    body.append(",\"tools\":[{\"function_declarations\":[");
                                    push_all_tools(&mut body, p, ts);
                                    body.append("]}]");
                                },
                            }
                            body.append("}");
                        },
                        _ => {
                            body.append("{\"model\":");
                            push_quoted(&mut body, model.as_str());
                            body.append(",\"messages\":[");
                            push_all_ctx(&mut body, p, messages, false);
                            body.append("],\"stream\":true");
                            match tools {
                                None => {},
                                Some(ts) => {
                                    body.append(",\"tools\":[");
                                    push_all_tools(&mut body, p, ts);
                                    body.append("]");
                                },
                            }
                            body.append("}");
                        },
                    }
                    assert(body@ =~= chat_body_seq(
                        p,
                        model@,
                        messages@.map_values(|m: ContextMsg| m@),
                        tools_view(*tools),
                    ));
                    Ok(HttpRequest { path, body })
                },
            }
        },
    }
}


/// The chunk decoded to an empty text delta.
pub open spec fn empty_delta(r: LlmResponse) -> bool {
    match r {
        LlmResponse::Text(t) => t@.len() == 0,
        LlmResponse::ToolCall(_) => false,
    }
}

/// What Gemini's array framing leaves to parse: the chunk trimmed, its
/// leading item separators dropped, and trimmed again.
pub open spec fn gemini_payload(s: Seq<char>) -> Seq<char> {
    crate::text::trim_seq(crate::text::drop_commas_seq(crate::text::trim_seq(s)))
}

/// An `event: data` line of the line-framed provider.
pub open spec fn is_data_line(line: Seq<char>) -> bool {
    starts_with_seq(line, "data: "@)
}

/// The first tool call an Ollama chunk carries: the name of
/// `message.tool_calls[0].function` and the document text of its
/// `arguments`, when that array is non-empty; a function of the chunk
/// text alone.
pub uninterp spec fn ollama_call_of(s: Seq<char>) -> Option<(Seq<char>, Seq<char>)>;

/// The text delta an Ollama chunk carries: `message.content` when it is
/// a string, empty otherwise; a function of the chunk text alone.
pub uninterp spec fn ollama_text_of(s: Seq<char>) -> Seq<char>;

/// Relies on serde_json (`from_str` and `Value` navigation): reads the
/// parsed chunk's `message.tool_calls[0].function` — name (empty when
/// absent) and argument document (`null` when absent) — and
/// `message.content`. The parse and the walk are functions of the text.
#[verifier::external_body]
fn read_ollama_doc(text: &str) -> (r: (Option<(String, String)>, String))
    ensures
        json_wf(text@) ==> (match r.0 {
            Some(c) => ollama_call_of(text@) == Some((c.0@, c.1@)),
            None => ollama_call_of(text@) is None,
        }) && r.1@ == ollama_text_of(text@),
        !json_wf(text@) ==> r.0 is None && r.1@.len() == 0,
{
    let doc: serde_json::Value = match serde_json::from_str(text) {
        Ok(v) => v,
        Err(_) => return (None, String::new()),
    };
    let call = match doc["message"]["tool_calls"].as_array() {
        Some(tcs) if !tcs.is_empty() => {
            let f = &tcs[0]["function"];
            Some((f["name"].as_str().unwrap_or("").to_string(), f["arguments"].to_string()))
        },
        _ => None,
    };
    (call, doc["message"]["content"].as_str().unwrap_or("").to_string())
}

/// Decodes one streamed chunk into a uniform event, by each provider's
/// framing. Decoding never fails: text that does not parse degrades to an
/// empty delta, never to an error, and what a readable chunk decodes to
/// is fixed over the named extraction of its text.
pub fn parse_chunk(p: Provider, text: &str) -> (r: LlmResponse)
    ensures
        p == Provider::Ollama ==> ollama_decoded(text@, r),
        p == Provider::Xai ==> xai_decoded(text@, r),
        p == Provider::Gemini ==> gemini_decoded(text@, r),
{
    match p {
        Provider::Ollama => parse_ollama_chunk(text),
        Provider::Xai => parse_xai_chunk(text),
        Provider::Gemini => parse_gemini_chunk(text),
    }
}

/// What the whole-JSON provider's chunk decodes to: its first tool call
/// when it has one, else its content delta; unreadable text is an empty
/// delta.
pub open spec fn ollama_decoded(s: Seq<char>, r: LlmResponse) -> bool {
    &&& json_wf(s) ==> (match ollama_call_of(s) {
        Some(c) => r matches LlmResponse::ToolCall(tc) && tc.id@ == "ollama"@ && tc.name@ == c.0
            && tc.arguments@ == c.1,
        None => r matches LlmResponse::Text(t) && t@ == ollama_text_of(s),
    })
    &&& !json_wf(s) ==> empty_delta(r)
}

/// One whole-JSON chunk: a tool call wins over content, and text that
/// does not parse is an empty delta — exactly `ollama_decoded`.
fn parse_ollama_chunk(text: &str) -> (r: LlmResponse)
    ensures
        ollama_decoded(text@, r),
{
    let (call, content) = read_ollama_doc(text);
    match call {
        Some((name, arguments)) => {
            let id = String::from_str("ollama");
            LlmResponse::ToolCall(ToolCall { id, name, arguments })
        },
        None => LlmResponse::Text(content),
    }
}

/// The tool-call delta a readable data-line payload carries: the id,
/// name and arguments of `choices[0].delta.tool_calls[0]` when that
/// array is non-empty; a function of the payload text alone.
pub uninterp spec fn xai_call_of(s: Seq<char>) -> Option<(Seq<char>, Seq<char>, Seq<char>)>;

/// The text delta a readable data-line payload carries:
/// `choices[0].delta.content` when it is a string; a function of the
/// payload text alone.
pub uninterp spec fn xai_text_of(s: Seq<char>) -> Option<Seq<char>>;

/// Relies on serde_json (`from_str` and `Value` navigation): reads one
/// data line's `choices[0].delta` — the first tool-call delta (id, name,
/// arguments, each empty when absent) and the content string.
#[verifier::external_body]
fn read_xai_line(payload: &str) -> (r: (Option<(String, String, String)>, Option<String>))
    ensures
        json_wf(payload@) ==> (match r.0 {
            Some(c) => xai_call_of(payload@) == Some((c.0@, c.1@, c.2@)),
            None => xai_call_of(payload@) is None,
        }) && (match r.1 {
            Some(t) => xai_text_of(payload@) == Some(t@),
            None => xai_text_of(payload@) is None,
        }),
        !json_wf(payload@) ==> r.0 is None && r.1 is None,
{
    let doc: serde_json::Value = match serde_json::from_str(payload) {
        Ok(v) => v,
        Err(_) => return (None, None),
    };
    let delta = &doc["choices"][0]["delta"];
    let call = match delta["tool_calls"].as_array() {
        Some(tcs) if !tcs.is_empty() => Some((
            tcs[0]["id"].as_str().unwrap_or("").to_string(),
            tcs[0]["function"]["name"].as_str().unwrap_or("").to_string(),
            tcs[0]["function"]["arguments"].as_str().unwrap_or("").to_string(),
        )),
        _ => None,
    };
    (call, delta["content"].as_str().map(|t| t.to_string()))
}

/// A data line the decoder reads: not the sentinel terminator.
pub open spec fn live_data_line(line: Seq<char>) -> bool {
    is_data_line(line) && line.skip(6) != "[DONE]"@
}

/// The first tool-call delta among the lines, in order.
pub open spec fn xai_first_call(lines: Seq<Seq<char>>) -> Option<(Seq<char>, Seq<char>, Seq<char>)>
    decreases lines.len(),
{
    if lines.len() == 0 {
        None
    } else if live_data_line(lines[0]) && json_wf(lines[0].skip(6)) && xai_call_of(
        lines[0].skip(6),
    ) is Some {
        xai_call_of(lines[0].skip(6))
    } else {
        xai_first_call(lines.drop_first())
    }
}

/// What one line contributes to the concatenated text: its content delta
/// when it is a readable data line without a tool call, else nothing.
pub open spec fn xai_line_text(line: Seq<char>) -> Seq<char> {
    if live_data_line(line) && json_wf(line.skip(6)) && xai_call_of(line.skip(6)) is None {
        match xai_text_of(line.skip(6)) {
            Some(t) => t,
            None => Seq::empty(),
        }
    } else {
        Seq::empty()
    }
}

/// The concatenated text deltas of the lines, in order.
pub open spec fn xai_concat(lines: Seq<Seq<char>>) -> Seq<char>
    decreases lines.len(),
{
    if lines.len() == 0 {
        Seq::empty()
    } else {
        xai_concat(lines.drop_last()) + xai_line_text(lines.last())
    }
}

/// What the line-framed provider's chunk decodes to: the first tool-call
/// delta among its lines when there is one, else the concatenation of
/// the readable lines' content deltas; terminator and unreadable lines
/// contribute nothing.
pub open spec fn xai_decoded(s: Seq<char>, r: LlmResponse) -> bool {
    match xai_first_call(split_lines_seq(s)) {
        Some(c) => r matches LlmResponse::ToolCall(tc) && tc.id@ == c.0 && tc.name@ == c.1
            && tc.arguments@ == c.2,
        None => r matches LlmResponse::Text(t) && t@ == xai_concat(split_lines_seq(s)),
    }
}

/// Line-framed chunks: each `data: ` line is read on its own — exactly
/// `xai_decoded`.
fn parse_xai_chunk(text: &str) -> (r: LlmResponse)
    ensures
        xai_decoded(text@, r),
{
    let lines = split_lines(text);
    let ghost lviews = split_lines_seq(text@);
    let mut content = String::new();
    let mut i: usize = 0;
    let data_prefix = chars_of("data: ");
    proof {
        assert(lviews.take(0) =~= Seq::<Seq<char>>::empty());
        assert(lviews.skip(0) =~= lviews);
    }
    while i < lines.len()
        invariant
            i <= lines@.len(),
            lviews == split_lines_seq(text@),
            lines.deep_view() == lviews,
            lines.deep_view().len() == lines@.len(),
            forall|k: int| 0 <= k < lines@.len() ==> lines.deep_view()[k] == lines@[k]@,
            data_prefix@ == "data: "@,
            xai_first_call(lviews) == xai_first_call(lviews.skip(i as int)),
            content@ == xai_concat(lviews.take(i as int)),
        decreases lines@.len() - i,
    {
        let ghost line = lviews[i as int];
        proof {
            assert(lviews.skip(i as int)[0] == line);
            assert(lviews.skip(i as int).drop_first() =~= lviews.skip(i + 1 as int));
            assert(lviews.take(i + 1 as int).drop_last() =~= lviews.take(i as int));
            assert(lviews.take(i + 1 as int).last() == line);
        }
        let lv = chars_of(lines[i].as_str());
        assert(lv@.skip(0) =~= line);
        if slice_starts_at(lv.as_slice(), 0, data_prefix.as_slice()) {
            assert(is_data_line(line));
            proof {
                reveal_strlit("data: ");
                assert("data: "@.len() == 6);
            }
            let rest = vstd::slice::slice_subrange(lv.as_slice(), 6, lv.len());
            let payload = string_from_chars(rest);
            assert(payload@ =~= line.skip(6));
            if !str_eq(payload.as_str(), "[DONE]") {
                assert(live_data_line(line));
                let (call, text_delta) = read_xai_line(payload.as_str());
                match call {
                    Some((id, name, arguments)) => {
                        proof {
                            assert(json_wf(line.skip(6)));
                            assert(xai_first_call(lviews.skip(i as int)) == xai_call_of(
                                line.skip(6),
                            ));
                        }
                        return LlmResponse::ToolCall(ToolCall { id, name, arguments });
                    },
                    None => {
                        match text_delta {
                            Some(t) => {
                                proof {
                                    assert(json_wf(line.skip(6)));
                                    assert(xai_line_text(line) == t@);
                                }
                                content.append(t.as_str());
                            },
                            None => {
                                assert(xai_line_text(line) =~= Seq::<char>::empty());
                            },
                        }
                    },
                }
            } else {
                assert(line.skip(6) == "[DONE]"@);
                assert(xai_line_text(line) =~= Seq::<char>::empty());
            }
        } else {
            assert(!is_data_line(line));
            assert(xai_line_text(line) =~= Seq::<char>::empty());
        }
        proof {
            assert(content@ =~= xai_concat(lviews.take(i + 1 as int)));
            assert(xai_first_call(lviews.skip(i as int)) == xai_first_call(
                lviews.skip(i + 1 as int),
            ));
        }
        i = i + 1;
    }
    proof {
        assert(lviews.skip(i as int) =~= Seq::<Seq<char>>::empty());
        assert(lviews.take(i as int) =~= lviews);
    }
    LlmResponse::Text(content)
}

/// How many parts `candidates[0].content.parts` holds; a function of the
/// payload text alone.
pub uninterp spec fn gemini_part_count_of(s: Seq<char>) -> nat;

/// Part `i`'s function call — its name and the document text of its
/// `args` — when `functionCall` is an object; a function of the payload
/// text and the index alone.
pub uninterp spec fn gemini_part_call_of(s: Seq<char>, i: int) -> Option<(Seq<char>, Seq<char>)>;

/// Part `i`'s `text` member when it is a string; a function of the
/// payload text and the index alone.
pub uninterp spec fn gemini_part_text_of(s: Seq<char>, i: int) -> Option<Seq<char>>;

/// Relies on serde_json (`from_str` and `Value` navigation): how many
/// entries `candidates[0].content.parts` holds, zero when absent.
#[verifier::external_body]
fn read_gemini_part_count(payload: &str) -> (r: usize)
    ensures
        json_wf(payload@) ==> r as nat == gemini_part_count_of(payload@),
        !json_wf(payload@) ==> r == 0,
{
    match serde_json::from_str::<serde_json::Value>(payload) {
        Ok(doc) => match doc["candidates"][0]["content"]["parts"].as_array() {
            Some(a) => a.len(),
            None => 0,
        },
        Err(_) => 0,
    }
}

/// Relies on serde_json (`from_str` and `Value` navigation): reads part
/// `i`'s `functionCall` (when an object: its name, empty when absent, and
/// the document text of its `args`) and its `text` member.
#[verifier::external_body]
fn read_gemini_part(payload: &str, i: usize) -> (r: (Option<(String, String)>, Option<String>))
    ensures
        json_wf(payload@) ==> (match r.0 {
            Some(c) => gemini_part_call_of(payload@, i as int) == Some((c.0@, c.1@)),
            None => gemini_part_call_of(payload@, i as int) is None,
        }) && (match r.1 {
            Some(t) => gemini_part_text_of(payload@, i as int) == Some(t@),
            None => gemini_part_text_of(payload@, i as int) is None,
        }),
        !json_wf(payload@) ==> r.0 is None && r.1 is None,
{
    let doc: serde_json::Value = match serde_json::from_str(payload) {
        Ok(v) => v,
        Err(_) => return (None, None),
    };
    let part = &doc["candidates"][0]["content"]["parts"][i];
    let call = if part["functionCall"].is_object() {
        Some((part["functionCall"]["name"].as_str().unwrap_or("").to_string(),
            part["functionCall"]["args"].to_string()))
    } else {
        None
    };
    (call, part["text"].as_str().map(|t| t.to_string()))
}

/// What scanning a payload's parts yields: nothing decisive, a call's
/// name and argument text, or a text delta.
pub enum PartEvent {
    Silent,
    Invoke(Seq<char>, Seq<char>),
    Delta(Seq<char>),
}

/// The first decisive part from `i` on: a part's function call wins, a
/// text part ends the scan, anything else is passed over.
pub open spec fn gemini_scan(s: Seq<char>, i: int) -> PartEvent
    decreases gemini_part_count_of(s) - i,
{
    if i < 0 || i >= gemini_part_count_of(s) {
        PartEvent::Silent
    } else if gemini_part_call_of(s, i) is Some {
        PartEvent::Invoke((gemini_part_call_of(s, i)->0).0, (gemini_part_call_of(s, i)->0).1)
    } else if gemini_part_text_of(s, i) is Some {
        PartEvent::Delta(gemini_part_text_of(s, i)->0)
    } else {
        gemini_scan(s, i + 1)
    }
}

/// What the array-framed provider's chunk decodes to: the separator is
/// trimmed off, then the first decisive part decides; unreadable text or
/// no decisive part is an empty delta.
pub open spec fn gemini_decoded(s: Seq<char>, r: LlmResponse) -> bool {
    &&& json_wf(gemini_payload(s)) ==> (match gemini_scan(gemini_payload(s), 0) {
        PartEvent::Invoke(n, a) => r matches LlmResponse::ToolCall(tc) && tc.id@ == "gemini"@
            && tc.name@ == n && tc.arguments@ == a,
        PartEvent::Delta(t) => r matches LlmResponse::Text(x) && x@ == t,
        PartEvent::Silent => empty_delta(r),
    })
    &&& !json_wf(gemini_payload(s)) ==> empty_delta(r)
}

/// Array-framed chunks: the separator is trimmed off, then the parts are
/// searched for a function call or a text part — exactly `gemini_decoded`.
fn parse_gemini_chunk(text: &str) -> (r: LlmResponse)
    ensures
        gemini_decoded(text@, r),
{
    let v = chars_of(text);
    let sv = v.as_slice();
    let n = sv.len();
    assert(sv@.subrange(0, n as int) =~= text@);
    let (a1, b1) = crate::text::trim_bounds(sv, 0, n);
    let a2 = crate::text::drop_commas_bound(sv, a1, b1);
    let (a3, b3) = crate::text::trim_bounds(sv, a2, b1);
    let payload = string_from_chars(vstd::slice::slice_subrange(sv, a3, b3));
    assert(payload@ == gemini_payload(text@));
    let ghost pv = gemini_payload(text@);
    let count = read_gemini_part_count(payload.as_str());
    let mut i: usize = 0;
    while i < count
        invariant
            i <= count,
            payload@ == pv,
            pv == gemini_payload(text@),
            json_wf(pv) ==> count as nat == gemini_part_count_of(pv),
            !json_wf(pv) ==> count == 0,
            json_wf(pv) ==> gemini_scan(pv, 0) == gemini_scan(pv, i as int),
        decreases count - i,
    {
        assert(json_wf(pv));
        let (call, text_part) = read_gemini_part(payload.as_str(), i);
        match call {
            Some((name, arguments)) => {
                proof {
                    assert(gemini_scan(pv, i as int) == PartEvent::Invoke(
                        (gemini_part_call_of(pv, i as int)->0).0,
                        (gemini_part_call_of(pv, i as int)->0).1,
                    ));
                }
                let id = String::from_str("gemini");
                return LlmResponse::ToolCall(ToolCall { id, name, arguments });
            },
            None => {
                match text_part {
                    Some(t) => {
                        proof {
                            assert(gemini_scan(pv, i as int) == PartEvent::Delta(
                                gemini_part_text_of(pv, i as int)->0,
                            ));
                        }
                        return LlmResponse::Text(t);
                    },
                    None => {
                        proof {
                            assert(gemini_scan(pv, i as int) == gemini_scan(pv, i + 1 as int));
                        }
                    },
                }
            },
        }
        i = i + 1;
    }
    proof {
        if json_wf(pv) {
            assert(gemini_scan(pv, i as int) == PartEvent::Silent);
        }
    }
    LlmResponse::Text(String::new())
}

} // verus!
