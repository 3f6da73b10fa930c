//! One conversation's state: the append-only transcript, the manually
//! activated skills and the chosen model. Storage I/O stays outside; every
//! mutation here also hands back the exact transcript line (or the full
//! rewritten file) that must be persisted, so the on-disk file always equals
//! the encoding of the in-memory history.
use vstd::prelude::*;

verus! {

use crate::message::Message;
use crate::message::MsgView;
use crate::message::encode_message;
use crate::message::encode_message_seq;
use crate::message::parse_message;
use crate::message::parse_message_seq;
use crate::message::strip_view;
use crate::message::strip_skill_tag;
use crate::message::lemma_message_round_trip;
use crate::text::str_eq;
use crate::llm::ContextMsg;
use crate::llm::CtxView;
use crate::llm::Tool;
use crate::llm::ToolView;
use crate::skills::Skill;
use crate::skills::SkillView;
use crate::skills::clone_tools;
use vstd::string::StringExecFns;

/// The views of a sequence of records.
pub open spec fn msg_views(h: Seq<Message>) -> Seq<MsgView> {
    h.map_values(|m: Message| m@)
}

/// The records denoted by a transcript file, line by line; lines that do
/// not parse are passed over, as when a file was written by another tool.
pub open spec fn parse_lines(lines: Seq<Seq<char>>) -> Seq<MsgView>
    decreases lines.len(),
{
    if lines.len() == 0 {
        Seq::empty()
    } else {
        parse_lines(lines.drop_last()) + (match parse_message_seq(lines.last()) {
            Some(mv) => seq![mv],
            None => Seq::<MsgView>::empty(),
        })
    }
}

/// Appending records to a transcript and reading the file back yields
/// exactly those records, in order.
#[verifier::rlimit(100)]
#[verifier::spinoff_prover]
pub proof fn lemma_history_round_trip(h: Seq<MsgView>)
    ensures
        parse_lines(h.map_values(|mv: MsgView| encode_message_seq(mv))) == h,
    decreases h.len(),
{
    let lines = h.map_values(|mv: MsgView| encode_message_seq(mv));
    if h.len() == 0 {
        assert(parse_lines(lines) =~= h);
    } else {
        lemma_history_round_trip(h.drop_last());
        assert(lines.drop_last() =~= h.drop_last().map_values(
            |mv: MsgView| encode_message_seq(mv),
        ));
        assert(lines.last() == encode_message_seq(h.last()));
        lemma_message_round_trip(h.last());
        assert(parse_message_seq(lines.last()) == Some(h.last()));
        assert(parse_lines(lines) == parse_lines(lines.drop_last()) + seq![h.last()]);
        assert(parse_lines(lines.drop_last()) == h.drop_last());
        assert(h.drop_last() + seq![h.last()] =~= h);
    }
}

/// A skill stripped from a record does not occur among its tags.
pub proof fn lemma_strip_removes_tag(m: MsgView, name: Seq<char>)
    ensures
        !strip_view(m, name).skills.contains(name),
{
    let pred = |x: Seq<char>| x != name;
    let f = m.skills.filter(pred);
    assert forall|i: int| 0 <= i < f.len() implies f[i] != name by {
        m.skills.lemma_filter_pred(pred, i);
    }
}

/// A transcript rewritten by a skill removal, read back from storage,
/// shows the stripped records exactly — and so no trace of the removed
/// skill in any tag list.
pub proof fn lemma_removal_reload(h: Seq<MsgView>, name: Seq<char>)
    ensures
        parse_lines(
            h.map_values(|mv: MsgView| strip_view(mv, name)).map_values(
                |mv: MsgView| encode_message_seq(mv),
            ),
        ) == h.map_values(|mv: MsgView| strip_view(mv, name)),
        forall|i: int|
            0 <= i < h.len() ==> !(#[trigger] strip_view(h[i], name)).skills.contains(name),
{
    let stripped = h.map_values(|mv: MsgView| strip_view(mv, name));
    lemma_history_round_trip(stripped);
    assert forall|i: int| 0 <= i < h.len() implies !(#[trigger] strip_view(
        h[i],
        name,
    )).skills.contains(name) by {
        lemma_strip_removes_tag(h[i], name);
    }
}

/// One conversation: its identifier, transcript, manually active skills
/// and selected model.
pub struct Session {
    pub id: String,
    pub history: Vec<Message>,
    pub active_skills: Vec<String>,
    pub model: String,
}

impl Session {
    /// A session materialized from its stored transcript lines: every line
    /// that parses as a record is kept, in file order.
    pub fn new(
        id: String,
        history_lines: &Vec<String>,
        initial_skills: Vec<String>,
        model: String,
    ) -> (r: Session)
        ensures
            r.id == id,
            r.active_skills == initial_skills,
            r.model == model,
            msg_views(r.history@) == parse_lines(history_lines.deep_view()),
    {
        let mut history: Vec<Message> = Vec::new();
        let mut i: usize = 0;
        proof {
            assert(history_lines.deep_view().subrange(0, 0) =~= Seq::<Seq<char>>::empty());
            assert(msg_views(history@) =~= parse_lines(
                history_lines.deep_view().subrange(0, 0),
            ));
        }
        while i < history_lines.len()
            invariant
                i <= history_lines@.len(),
                history_lines.deep_view().len() == history_lines@.len(),
                forall|k: int|
                    0 <= k < history_lines@.len() ==> history_lines.deep_view()[k]
                        == history_lines@[k]@,
                msg_views(history@) == parse_lines(history_lines.deep_view().subrange(0, i as int)),
            decreases history_lines@.len() - i,
        {
            let ghost pre = history_lines.deep_view().subrange(0, i as int);
            let ghost ext = history_lines.deep_view().subrange(0, i + 1 as int);
            proof {
                assert(ext.drop_last() =~= pre);
                assert(ext.last() == history_lines@[i as int]@);
            }
            match parse_message(history_lines[i].as_str()) {
                Some(m) => {
                    history.push(m);
                    assert(msg_views(history@) =~= parse_lines(ext));
                },
                None => {
                    assert(msg_views(history@) =~= parse_lines(ext));
                },
            }
            i = i + 1;
        }
        proof {
            assert(history_lines.deep_view().subrange(0, i as int) =~= history_lines.deep_view());
        }
        Session { id, history, active_skills: initial_skills, model }
    }

    /// Appends a user record and returns the line to append to the
    /// transcript file.
    pub fn add_user_message(
        &mut self,
        content: String,
        timestamp: String,
        skills: Vec<String>,
    ) -> (line: String)
        ensures
            final(self).id == old(self).id,
            final(self).active_skills == old(self).active_skills,
            final(self).model == old(self).model,
            final(self).history@.len() == old(self).history@.len() + 1,
            final(self).history@.drop_last() == old(self).history@,
            final(self).history@.last()@.role == "user"@,
            final(self).history@.last()@.content == content@,
            final(self).history@.last()@.timestamp == timestamp@,
            final(self).history@.last()@.skills == skills.deep_view(),
            line@ == encode_message_seq(final(self).history@.last()@),
    {
        let mut role = String::new();
        role.append("user");
        let m = Message { role, content, timestamp, skills };
        let line = encode_message(&m);
        self.history.push(m);
        assert(self.history@.drop_last() =~= old(self).history@);
        line
    }

    /// Appends an assistant record and returns the line to append to the
    /// transcript file.
    pub fn add_assistant_message(
        &mut self,
        content: String,
        timestamp: String,
        skills: Vec<String>,
    ) -> (line: String)
        ensures
            final(self).id == old(self).id,
            final(self).active_skills == old(self).active_skills,
            final(self).model == old(self).model,
            final(self).history@.len() == old(self).history@.len() + 1,
            final(self).history@.drop_last() == old(self).history@,
            final(self).history@.last()@.role == "assistant"@,
            final(self).history@.last()@.content == content@,
            final(self).history@.last()@.timestamp == timestamp@,
            final(self).history@.last()@.skills == skills.deep_view(),
            line@ == encode_message_seq(final(self).history@.last()@),
    {
        let mut role = String::new();
        role.append("assistant");
        let m = Message { role, content, timestamp, skills };
        let line = encode_message(&m);
        self.history.push(m);
        assert(self.history@.drop_last() =~= old(self).history@);
        line
    }

    /// Activates a skill by name; already-active names are kept once.
    pub fn add_skill(&mut self, name: String)
        ensures
            final(self).id == old(self).id,
            final(self).history == old(self).history,
            final(self).model == old(self).model,
            old(self).active_skills.deep_view().contains(name@) ==> final(self).active_skills
                == old(self).active_skills,
            !old(self).active_skills.deep_view().contains(name@)
                ==> final(self).active_skills.deep_view()
                == old(self).active_skills.deep_view().push(name@),
    {
        if !vec_contains_str(&self.active_skills, name.as_str()) {
            self.active_skills.push(name);
            assert(self.active_skills.deep_view() =~= old(self).active_skills.deep_view().push(
                name@,
            ));
        }
    }

    /// Deactivates a skill and strips its tag from every transcript record;
    /// returns the full rewritten transcript, line for line, to replace the
    /// file with.
    pub fn remove_skill(&mut self, name: &str) -> (lines: Vec<String>)
        ensures
            final(self).id == old(self).id,
            final(self).model == old(self).model,
            final(self).active_skills.deep_view() == old(self).active_skills.deep_view().filter(
                |x: Seq<char>| x != name@,
            ),
            msg_views(final(self).history@) == msg_views(old(self).history@).map_values(
                |mv: MsgView| strip_view(mv, name@),
            ),
            lines.deep_view() == msg_views(final(self).history@).map_values(
                |mv: MsgView| encode_message_seq(mv),
            ),
            forall|i: int|
                0 <= i < final(self).history@.len()
                    ==> !final(self).history@[i]@.skills.contains(name@),
    {
        let mut kept: Vec<String> = Vec::new();
        let mut j: usize = 0;
        proof {
            reveal(Seq::filter);
            assert(self.active_skills.deep_view().subrange(0, 0)
                =~= Seq::<Seq<char>>::empty());
            assert(kept.deep_view() =~= self.active_skills.deep_view().subrange(0, 0).filter(
                |x: Seq<char>| x != name@,
            ));
        }
        while j < self.active_skills.len()
            invariant
                j <= self.active_skills@.len(),
                self.active_skills.deep_view().len() == self.active_skills@.len(),
                forall|k: int|
                    0 <= k < self.active_skills@.len() ==> self.active_skills.deep_view()[k]
                        == self.active_skills@[k]@,
                kept.deep_view() == self.active_skills.deep_view().subrange(0, j as int).filter(
                    |x: Seq<char>| x != name@,
                ),
            decreases self.active_skills@.len() - j,
        {
            proof {
                reveal(Seq::filter);
                let pre = self.active_skills.deep_view().subrange(0, j as int);
                let ext = self.active_skills.deep_view().subrange(0, j + 1 as int);
                assert(ext.drop_last() =~= pre);
                assert(ext.last() == self.active_skills@[j as int]@);
            }
            if !str_eq(self.active_skills[j].as_str(), name) {
                let entry = self.active_skills[j].clone();
                kept.push(entry);
                assert(kept.deep_view() =~= self.active_skills.deep_view().subrange(
                    0,
                    j + 1 as int,
                ).filter(|x: Seq<char>| x != name@));
            }
            j = j + 1;
            assert(kept.deep_view() =~= self.active_skills.deep_view().subrange(0, j as int).filter(
                |x: Seq<char>| x != name@,
            ));
        }
        proof {
            assert(self.active_skills.deep_view().subrange(0, j as int)
                =~= self.active_skills.deep_view());
        }
        self.active_skills = kept;
        let mut stripped: Vec<Message> = Vec::new();
        let mut lines: Vec<String> = Vec::new();
        let mut i: usize = 0;
        while i < self.history.len()
            invariant
                i <= self.history@.len(),
                stripped@.len() == i as int,
                lines@.len() == i as int,
                forall|k: int|
                    0 <= k < i ==> #[trigger] stripped@[k]@ == strip_view(
                        self.history@[k]@,
                        name@,
                    ),
                forall|k: int|
                    0 <= k < i ==> #[trigger] lines@[k]@ == encode_message_seq(stripped@[k]@),
            decreases self.history@.len() - i,
        {
            let m = strip_skill_tag(&self.history[i], name);
            let line = encode_message(&m);
            stripped.push(m);
            lines.push(line);
            i = i + 1;
        }
        proof {
            assert(msg_views(stripped@) =~= msg_views(self.history@).map_values(
                |mv: MsgView| strip_view(mv, name@),
            ));
            assert(lines.deep_view() =~= msg_views(stripped@).map_values(
                |mv: MsgView| encode_message_seq(mv),
            ));
            assert forall|k: int| 0 <= k < stripped@.len() implies !stripped@[k]@.skills.contains(
                name@,
            ) by {
                lemma_strip_removes_tag(self.history@[k]@, name@);
            }
        }
        self.history = stripped;
        lines
    }

    /// Assembles the model-ready context from the transcript and the
    /// selected skills: the system prompt first, then every transcript
    /// record as a role/content pair. A session with an empty transcript
    /// has no message to contextualize.
    pub fn prepare_context(&self, skills: &Vec<Skill>) -> (r: Result<Vec<ContextMsg>, SessionError>)
        ensures
            r is Err <==> self.history@.len() == 0,
            r is Err ==> r == Err::<Vec<ContextMsg>, SessionError>(SessionError::EmptyHistory),
            r matches Ok(msgs) ==> {
                &&& msgs@.len() == self.history@.len() + 1
                &&& msgs@[0]@ == (CtxView::Plain {
                    role: "system"@,
                    content: system_prompt_seq(skill_views(skills@)),
                })
                &&& forall|i: int|
                    0 <= i < self.history@.len() ==> msgs@[i + 1]@ == (CtxView::Plain {
                        role: self.history@[i]@.role,
                        content: self.history@[i]@.content,
                    })
            },
    {
        if self.history.len() == 0 {
            return Err(SessionError::EmptyHistory);
        }
        let prompt = build_system_prompt(skills);
        let mut msgs: Vec<ContextMsg> = Vec::new();
        msgs.push(ContextMsg::Plain { role: String::from_str("system"), content: prompt });
        let mut i: usize = 0;
        while i < self.history.len()
            invariant
                i <= self.history@.len(),
                msgs@.len() == i + 1,
                msgs@[0]@ == (CtxView::Plain {
                    role: "system"@,
                    content: system_prompt_seq(skill_views(skills@)),
                }),
                forall|k: int|
                    0 <= k < i ==> msgs@[k + 1]@ == (CtxView::Plain {
                        role: self.history@[k]@.role,
                        content: self.history@[k]@.content,
                    }),
            decreases self.history@.len() - i,
        {
            let m = &self.history[i];
            msgs.push(
                ContextMsg::Plain { role: m.role.clone(), content: m.content.clone() },
            );
            i = i + 1;
        }
        Ok(msgs)
    }
}


/// Why a context could not be assembled.
#[derive(Debug, Clone, Copy, PartialEq, Eq, Structural)]
pub enum SessionError {
    EmptyHistory,
}

/// The instruction sections of the system prompt, one per selected skill.
pub open spec fn skill_sections(skills: Seq<SkillView>) -> Seq<char>
    decreases skills.len(),
{
    if skills.len() == 0 {
        Seq::empty()
    } else {
        skill_sections(skills.drop_last()) + ("## "@ + skills.last().name + "\n"@
            + skills.last().instructions + "\n"@)
    }
}

/// The system prompt: the agent's standing instruction, plus one section
/// per selected skill when any were selected.
pub open spec fn system_prompt_seq(skills: Seq<SkillView>) -> Seq<char> {
    "You are Ruster, a persistent, proactive LLM agent.\n"@ + (if skills.len() > 0 {
        "\n# Enabled Skills:\n"@ + skill_sections(skills)
    } else {
        Seq::<char>::empty()
    })
}

/// The views of the selected skills.
pub open spec fn skill_views(skills: Seq<Skill>) -> Seq<SkillView> {
    skills.map_values(|s: Skill| s@)
}

/// The views of a tool list.
pub open spec fn tool_views(tools: Seq<Tool>) -> Seq<ToolView> {
    tools.map_values(|t: Tool| t@)
}

/// The tools the selected skills declare, in selection order.
pub open spec fn flat_tools(skills: Seq<Skill>) -> Seq<ToolView>
    decreases skills.len(),
{
    if skills.len() == 0 {
        Seq::empty()
    } else {
        flat_tools(skills.drop_last()) + tool_views(skills.last().metadata.tools@)
    }
}

/// Builds the system prompt for the selected skills, exactly as
/// `system_prompt_seq` says.
pub fn build_system_prompt(skills: &Vec<Skill>) -> (r: String)
    ensures
        r@ == system_prompt_seq(skill_views(skills@)),
{
    let mut out = String::new();
    out.append("You are Ruster, a persistent, proactive LLM agent.\n");
    if skills.len() > 0 {
        out.append("\n# Enabled Skills:\n");
        let ghost pre = out@;
        let mut i: usize = 0;
        proof {
            assert(skill_views(skills@).subrange(0, 0) =~= Seq::<SkillView>::empty());
            assert(out@ =~= pre + skill_sections(skill_views(skills@).subrange(0, 0)));
        }
        while i < skills.len()
            invariant
                i <= skills@.len(),
                skill_views(skills@).len() == skills@.len(),
                out@ == pre + skill_sections(skill_views(skills@).subrange(0, i as int)),
            decreases skills@.len() - i,
        {
            out.append("## ");
            out.append(skills[i].metadata.name.as_str());
            out.append("\n");
            out.append(skills[i].instructions.as_str());
            out.append("\n");
            proof {
                let done = skill_views(skills@).subrange(0, i as int);
                let ext = skill_views(skills@).subrange(0, i + 1 as int);
                assert(ext.drop_last() =~= done);
                assert(ext.last() == skills@[i as int]@);
                assert(out@ =~= pre + skill_sections(ext));
            }
            i = i + 1;
        }
        proof {
            assert(skill_views(skills@).subrange(0, i as int) =~= skill_views(skills@));
        }
        assert(out@ =~= system_prompt_seq(skill_views(skills@)));
    } else {
        assert(out@ =~= system_prompt_seq(skill_views(skills@)));
    }
    out
}

/// The pagination tool as the model sees it.
pub open spec fn paginate_tool_view() -> ToolView {
    ToolView {
        name: "paginate_tool_output"@,
        description: "Paginates the output of a previous tool call. Use this to see more lines, a specific range, or search for text in the full output of a tool."@,
        parameters: "{\"type\":\"object\",\"properties\":{\"tool_call_uuid\":{\"type\":\"string\",\"description\":\"The UUID of the tool call to paginate.\"},\"offset\":{\"type\":\"integer\",\"description\":\"Starting line number (0-indexed).\"},\"limit\":{\"type\":\"integer\",\"description\":\"Number of lines to return.\"},\"search\":{\"type\":\"string\",\"description\":\"Optional search term to filter lines.\"}},\"required\":[\"tool_call_uuid\"]}"@,
    }
}

/// The skill-script tool as the model sees it.
pub open spec fn script_tool_view() -> ToolView {
    ToolView {
        name: "run_skill_script"@,
        description: "Executes a script from an active skill's 'scripts' directory. Provide the skill name, script name (with extension), and an optional 'args' array."@,
        parameters: "{\"type\":\"object\",\"properties\":{\"skill_name\":{\"type\":\"string\",\"description\":\"The name of the skill containing the script.\"},\"script_name\":{\"type\":\"string\",\"description\":\"The name of the script file (e.g., 'browser-active.sh').\"},\"args\":{\"type\":\"array\",\"items\":{\"type\":\"string\"},\"description\":\"Arguments to pass to the script.\"}},\"required\":[\"skill_name\",\"script_name\"]}"@,
    }
}

/// The two built-in tool schemas every context offers: pagination of a
/// prior call's output, and running a script from a skill's directory.
pub fn builtin_tools() -> (r: Vec<Tool>)
    ensures
        r@.len() == 2,
        r@[0]@ == paginate_tool_view(),
        r@[1]@ == script_tool_view(),
        r@[0].exec_cmd is None && r@[0].working_dir is None,
        r@[1].exec_cmd is None && r@[1].working_dir is None,
{
    let mut out: Vec<Tool> = Vec::new();
    out.push(
        Tool {
            name: String::from_str("paginate_tool_output"),
            description: String::from_str(
                "Paginates the output of a previous tool call. Use this to see more lines, a specific range, or search for text in the full output of a tool.",
            ),
            parameters: String::from_str(
                "{\"type\":\"object\",\"properties\":{\"tool_call_uuid\":{\"type\":\"string\",\"description\":\"The UUID of the tool call to paginate.\"},\"offset\":{\"type\":\"integer\",\"description\":\"Starting line number (0-indexed).\"},\"limit\":{\"type\":\"integer\",\"description\":\"Number of lines to return.\"},\"search\":{\"type\":\"string\",\"description\":\"Optional search term to filter lines.\"}},\"required\":[\"tool_call_uuid\"]}",
            ),
            exec_cmd: None,
            working_dir: None,
        },
    );
    out.push(
        Tool {
            name: String::from_str("run_skill_script"),
            description: String::from_str(
                "Executes a script from an active skill's 'scripts' directory. Provide the skill name, script name (with extension), and an optional 'args' array.",
            ),
            parameters: String::from_str(
                "{\"type\":\"object\",\"properties\":{\"skill_name\":{\"type\":\"string\",\"description\":\"The name of the skill containing the script.\"},\"script_name\":{\"type\":\"string\",\"description\":\"The name of the script file (e.g., 'browser-active.sh').\"},\"args\":{\"type\":\"array\",\"items\":{\"type\":\"string\"},\"description\":\"Arguments to pass to the script.\"}},\"required\":[\"skill_name\",\"script_name\"]}",
            ),
            exec_cmd: None,
            working_dir: None,
        },
    );
    out
}

/// The tool list offered to the model: every selected skill's declared
/// tools, then the two built-in schemas.
pub fn assemble_tools(skills: &Vec<Skill>) -> (r: Vec<Tool>)
    ensures
        tool_views(r@) == flat_tools(skills@) + seq![paginate_tool_view(), script_tool_view()],
        r@.len() >= 2,
        r@[r@.len() - 2]@ == paginate_tool_view(),
        r@[r@.len() - 1]@ == script_tool_view(),
{
    let mut out: Vec<Tool> = Vec::new();
    let mut i: usize = 0;
    proof {
        assert(skills@.subrange(0, 0) =~= Seq::<Skill>::empty());
        assert(tool_views(out@) =~= flat_tools(skills@.subrange(0, 0)));
    }
    while i < skills.len()
        invariant
            i <= skills@.len(),
            tool_views(out@) == flat_tools(skills@.subrange(0, i as int)),
        decreases skills@.len() - i,
    {
        let ghost before = tool_views(out@);
        let mut tools = clone_tools(&skills[i].metadata.tools);
        let ghost tv = tool_views(skills@[i as int].metadata.tools@);
        proof {
            assert(tool_views(tools@) =~= tv);
        }
        let mut j: usize = 0;
        while j < tools.len()
            invariant
                j <= tools@.len(),
                tool_views(tools@) == tv,
                tv.len() == tools@.len(),
                tool_views(out@) == before + tv.subrange(0, j as int),
            decreases tools@.len() - j,
        {
            let t = &tools[j];
            let ghost out_pre = tool_views(out@);
            out.push(
                Tool {
                    name: t.name.clone(),
                    description: t.description.clone(),
                    parameters: t.parameters.clone(),
                    exec_cmd: crate::config::clone_opt_text(&t.exec_cmd),
                    working_dir: crate::config::clone_opt_text(&t.working_dir),
                },
            );
            proof {
                assert(tool_views(out@) =~= out_pre.push(out@.last()@));
                assert(out@.last()@ == tv[j as int]);
                assert(tv.subrange(0, j + 1 as int) =~= tv.subrange(0, j as int).push(
                    tv[j as int],
                ));
                assert(tool_views(out@) =~= before + tv.subrange(0, j + 1 as int));
            }
            j = j + 1;
        }
        proof {
            assert(tv.subrange(0, j as int) =~= tv);
            let done = skills@.subrange(0, i as int);
            let ext = skills@.subrange(0, i + 1 as int);
            assert(ext.drop_last() =~= done);
            assert(ext.last() == skills@[i as int]);
            assert(tool_views(out@) =~= flat_tools(ext));
        }
        i = i + 1;
    }
    proof {
        assert(skills@.subrange(0, i as int) =~= skills@);
    }
    let ghost base = tool_views(out@);
    let builtins = builtin_tools();
    let b0 = &builtins[0];
    out.push(
        Tool {
            name: b0.name.clone(),
            description: b0.description.clone(),
            parameters: b0.parameters.clone(),
            exec_cmd: None,
            working_dir: None,
        },
    );
    let b1 = &builtins[1];
    out.push(
        Tool {
            name: b1.name.clone(),
            description: b1.description.clone(),
            parameters: b1.parameters.clone(),
            exec_cmd: None,
            working_dir: None,
        },
    );
    proof {
        assert(out@[out@.len() - 2]@ == paginate_tool_view());
        assert(out@[out@.len() - 1]@ == script_tool_view());
        assert(tool_views(out@) =~= base + seq![paginate_tool_view(), script_tool_view()]);
    }
    out
}

/// The dynamically selected skills that actually join the context: those
/// not already manually active and not globally banned, after the manual
/// ones.
pub fn merge_selected(
    manual: Vec<Skill>,
    dynamic: Vec<Skill>,
    active_names: &Vec<String>,
    banned: &Vec<String>,
) -> (r: Vec<Skill>)
    ensures
        skill_views(r@) == skill_views(manual@) + skill_views(
            dynamic@.filter(
                |s: Skill|
                    !active_names.deep_view().contains(s@.name) && !banned.deep_view().contains(
                        s@.name,
                    ),
            ),
        ),
{
    let ghost pred = |s: Skill|
        !active_names.deep_view().contains(s@.name) && !banned.deep_view().contains(s@.name);
    let mut out = manual;
    let ghost base = skill_views(out@);
    let mut i: usize = 0;
    proof {
        reveal(Seq::filter);
        assert(dynamic@.subrange(0, 0) =~= Seq::<Skill>::empty());
        assert(dynamic@.subrange(0, 0).filter(pred) =~= Seq::<Skill>::empty());
        assert(skill_views(out@) =~= base + skill_views(dynamic@.subrange(0, 0).filter(pred)));
    }
    while i < dynamic.len()
        invariant
            i <= dynamic@.len(),
            pred == (|s: Skill|
                !active_names.deep_view().contains(s@.name) && !banned.deep_view().contains(
                    s@.name,
                )),
            skill_views(out@) == base + skill_views(dynamic@.subrange(0, i as int).filter(pred)),
        decreases dynamic@.len() - i,
    {
        proof {
            reveal(Seq::filter);
            let done = dynamic@.subrange(0, i as int);
            let ext = dynamic@.subrange(0, i + 1 as int);
            assert(ext.drop_last() =~= done);
            assert(ext.last() == dynamic@[i as int]);
        }
        let name = &dynamic[i].metadata.name;
        let keep = !vec_contains_str(active_names, name.as_str()) && !vec_contains_str(
            banned,
            name.as_str(),
        );
        if keep {
            let ghost pre = skill_views(out@);
            let entry = Skill {
                path: dynamic[i].path.clone(),
                metadata: crate::skills::SkillMetadata {
                    name: dynamic[i].metadata.name.clone(),
                    description: dynamic[i].metadata.description.clone(),
                    tools: clone_tools(&dynamic[i].metadata.tools),
                },
                instructions: dynamic[i].instructions.clone(),
            };
            proof {
                assert(entry@.tools =~= dynamic@[i as int]@.tools);
                assert(entry@ == dynamic@[i as int]@);
            }
            out.push(entry);
            proof {
                assert(skill_views(out@) =~= pre.push(dynamic@[i as int]@));
                assert(skill_views(out@) =~= base + skill_views(
                    dynamic@.subrange(0, i + 1 as int).filter(pred),
                ));
            }
        } else {
            assert(skill_views(out@) =~= base + skill_views(
                dynamic@.subrange(0, i + 1 as int).filter(pred),
            ));
        }
        i = i + 1;
    }
    proof {
        assert(dynamic@.subrange(0, i as int) =~= dynamic@);
    }
    out
}

/// Whether `v` holds a string equal to `s`.
pub fn vec_contains_str(v: &Vec<String>, s: &str) -> (r: bool)
    ensures
        r == v.deep_view().contains(s@),
{
    let mut i: usize = 0;
    while i < v.len()
        invariant
            i <= v@.len(),
            v.deep_view().len() == v@.len(),
            forall|k: int| 0 <= k < v@.len() ==> v.deep_view()[k] == v@[k]@,
            forall|k: int| 0 <= k < i ==> v.deep_view()[k] != s@,
        decreases v@.len() - i,
    {
        if str_eq(v[i].as_str(), s) {
            assert(v.deep_view()[i as int] == s@);
            assert(v.deep_view().contains(s@));
            return true;
        }
        i = i + 1;
    }
    false
}

/// The identifiers known to the registry: those found on disk, then those
/// held only in memory, first occurrence kept.
pub open spec fn merged_ids(disk: Seq<Seq<char>>, mem: Seq<Seq<char>>) -> Seq<Seq<char>>
    decreases mem.len(),
{
    if mem.len() == 0 {
        disk
    } else {
        let d2 = if disk.contains(mem[0]) {
            disk
        } else {
            disk.push(mem[0])
        };
        merged_ids(d2, mem.drop_first())
    }
}

/// Merges the on-disk session directories with the in-memory registry keys,
/// keeping each identifier once, as the session list reply does.
pub fn merge_session_ids(disk: Vec<String>, mem: &Vec<String>) -> (r: Vec<String>)
    ensures
        r.deep_view() == merged_ids(disk.deep_view(), mem.deep_view()),
{
    let ghost disk0 = disk.deep_view();
    let mut ids = disk;
    let mut i: usize = 0;
    proof {
        assert(mem.deep_view().skip(0) =~= mem.deep_view());
    }
    while i < mem.len()
        invariant
            i <= mem@.len(),
            mem.deep_view().len() == mem@.len(),
            forall|k: int| 0 <= k < mem@.len() ==> mem.deep_view()[k] == mem@[k]@,
            merged_ids(ids.deep_view(), mem.deep_view().skip(i as int)) == merged_ids(
                disk0,
                mem.deep_view(),
            ),
        decreases mem@.len() - i,
    {
        let ghost rem = mem.deep_view().skip(i as int);
        proof {
            assert(rem[0] == mem@[i as int]@);
            assert(rem.drop_first() =~= mem.deep_view().skip(i + 1 as int));
        }
        let ghost pre = ids.deep_view();
        if !vec_contains_str(&ids, mem[i].as_str()) {
            let entry = mem[i].clone();
            ids.push(entry);
            assert(ids.deep_view() =~= pre.push(rem[0]));
        }
        i = i + 1;
    }
    proof {
        assert(mem.deep_view().skip(i as int) =~= Seq::<Seq<char>>::empty());
    }
    ids
}

} // verus!
