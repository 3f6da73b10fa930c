//! Tool execution logic: choosing a handler for a model-issued call,
//! paginating a prior call's captured output, escaping shell arguments,
//! and summarizing captured output for the model. Running a process and
//! touching the per-call directories happen outside; everything written
//! there or handed back to the model is computed here.
use vstd::prelude::*;

verus! {

use vstd::string::StringExecFns;
use crate::jsontext::hexd;
use crate::jsontext::hexd_exec;
use crate::llm::Tool;
use crate::text::push_char;
use crate::text::chars_of;
use crate::text::contains_seq;
use crate::text::contains_chars;
use crate::text::split_lines;
use crate::text::split_lines_seq;
use crate::text::str_eq;

/// Clamp an offset/limit window to a total number of lines, as the
/// pagination tool does: the window starts at `offset` (or at the end,
/// if `offset` is past it) and holds at most `limit` lines.
pub fn window_bounds(offset: usize, limit: usize, total: usize) -> (r: (usize, usize))
    ensures
        r.0 == if offset <= total { offset as int } else { total as int },
        r.1 == if offset + limit <= total { offset + limit } else { total as int },
        r.0 <= r.1 <= total,
{
    let start = if offset <= total { offset } else { total };
    let end = if limit <= total - start { start + limit } else { total };
    (start, end)
}

/// The decimal digits of `n`.
pub open spec fn dec_seq(n: int) -> Seq<char>
    decreases n,
{
    if n < 0 {
        Seq::empty()
    } else if n < 10 {
        seq![hexd(n)]
    } else {
        dec_seq(n / 10) + seq![hexd(n % 10)]
    }
}

/// Appends `n` in decimal to `out`.
pub fn push_dec(out: &mut String, n: u64)
    ensures
        final(out)@ == old(out)@ + dec_seq(n as int),
    decreases n,
{
    if n < 10 {
        push_char(out, hexd_exec(n as u32));
        assert(out@ =~= old(out)@ + dec_seq(n as int));
    } else {
        push_dec(out, n / 10);
        push_char(out, hexd_exec((n % 10) as u32));
        assert(out@ =~= old(out)@ + dec_seq(n as int));
    }
}

/// Newline-joined parts, after the first.
pub open spec fn join_nl_rest(parts: Seq<Seq<char>>) -> Seq<char>
    decreases parts.len(),
{
    if parts.len() == 0 {
        Seq::empty()
    } else {
        seq!['\n'] + parts[0] + join_nl_rest(parts.drop_first())
    }
}

/// Newline-joined parts, as sliced output is sent back.
pub open spec fn join_nl(parts: Seq<Seq<char>>) -> Seq<char> {
    if parts.len() == 0 {
        Seq::empty()
    } else {
        parts[0] + join_nl_rest(parts.drop_first())
    }
}

pub proof fn lemma_join_nl_rest_snoc(parts: Seq<Seq<char>>, x: Seq<char>)
    ensures
        join_nl_rest(parts.push(x)) == join_nl_rest(parts) + (seq!['\n'] + x),
    decreases parts.len(),
{
    if parts.len() == 0 {
        assert(parts.push(x)[0] == x);
        assert(parts.push(x).drop_first() =~= Seq::<Seq<char>>::empty());
        assert(join_nl_rest(Seq::<Seq<char>>::empty()) =~= Seq::<char>::empty());
        assert(join_nl_rest(parts.push(x)) == seq!['\n'] + x + join_nl_rest(
            Seq::<Seq<char>>::empty(),
        ));
        assert(join_nl_rest(parts.push(x)) =~= join_nl_rest(parts) + (seq!['\n'] + x));
    } else {
        assert(parts.push(x)[0] == parts[0]);
        assert(parts.push(x).drop_first() =~= parts.drop_first().push(x));
        lemma_join_nl_rest_snoc(parts.drop_first(), x);
        assert(join_nl_rest(parts.push(x)) =~= join_nl_rest(parts) + (seq!['\n'] + x));
    }
}

pub proof fn lemma_join_nl_snoc(parts: Seq<Seq<char>>, x: Seq<char>)
    ensures
        parts.len() == 0 ==> join_nl(parts.push(x)) == x,
        parts.len() > 0 ==> join_nl(parts.push(x)) == join_nl(parts) + (seq!['\n'] + x),
{
    if parts.len() == 0 {
        assert(parts.push(x)[0] == x);
        assert(parts.push(x).drop_first() =~= Seq::<Seq<char>>::empty());
        assert(join_nl_rest(Seq::<Seq<char>>::empty()) =~= Seq::<char>::empty());
        assert(join_nl(parts.push(x)) == x + join_nl_rest(Seq::<Seq<char>>::empty()));
        assert(join_nl(parts.push(x)) =~= x);
    } else {
        assert(parts.push(x)[0] == parts[0]);
        assert(parts.push(x).drop_first() =~= parts.drop_first().push(x));
        lemma_join_nl_rest_snoc(parts.drop_first(), x);
        assert(join_nl(parts.push(x)) =~= join_nl(parts) + (seq!['\n'] + x));
    }
}

/// Appends the newline-joined `parts[from..to]` to `out`.
fn push_join_nl(out: &mut String, parts: &Vec<String>, from: usize, to: usize)
    requires
        from <= to <= parts@.len(),
    ensures
        final(out)@ == old(out)@ + join_nl(parts.deep_view().subrange(from as int, to as int)),
{
    let ghost window = parts.deep_view().subrange(from as int, to as int);
    let ghost pre = out@;
    let mut j: usize = from;
    proof {
        assert(window.subrange(0, 0) =~= Seq::<Seq<char>>::empty());
        assert(out@ =~= pre + join_nl(window.subrange(0, 0)));
    }
    while j < to
        invariant
            from <= j <= to <= parts@.len(),
            parts.deep_view().len() == parts@.len(),
            forall|k: int| 0 <= k < parts@.len() ==> parts.deep_view()[k] == parts@[k]@,
            window == parts.deep_view().subrange(from as int, to as int),
            out@ == pre + join_nl(window.subrange(0, j - from)),
        decreases to - j,
    {
        if j > from {
            push_char(out, '\n');
        }
        out.append(parts[j].as_str());
        proof {
            let done = window.subrange(0, j - from);
            lemma_join_nl_snoc(done, window[j - from]);
            assert(done.push(window[j - from]) =~= window.subrange(0, j + 1 - from));
            assert(window[j - from] == parts@[j as int]@);
            assert(out@ =~= pre + join_nl(window.subrange(0, j + 1 - from)));
        }
        j = j + 1;
    }
    proof {
        assert(window.subrange(0, to - from) =~= window);
    }
}

/// The lines that a search term keeps: those holding the term, or all of
/// them when no term was given.
pub open spec fn matching_lines(lines: Seq<Seq<char>>, term: Option<Seq<char>>) -> Seq<
    Seq<char>,
> {
    match term {
        None => lines,
        Some(t) => lines.filter(|l: Seq<char>| contains_seq(l, t)),
    }
}

/// The note appended to a truncated page, pointing at the rest.
pub open spec fn page_marker(start: int, end: int, total: int) -> Seq<char> {
    "\n\n(Showing lines "@ + dec_seq(start) + "-"@ + dec_seq(end) + " of "@ + dec_seq(total)
        + ". Use paginate_tool_output for more.)"@
}

/// A page of a prior call's captured output: the requested window of its
/// (optionally filtered) lines, with a marker exactly when lines beyond
/// the window remain.
pub fn paginate_output(content: &str, offset: usize, limit: usize, term: Option<&str>) -> (r:
    String)
    ensures
        ({
            let lines = split_lines_seq(content@);
            let kept = matching_lines(
                lines,
                match term {
                    Some(t) => Some(t@),
                    None => None,
                },
            );
            let total = kept.len() as int;
            let start: int = if offset <= total {
                offset as int
            } else {
                total
            };
            let end: int = if offset + limit <= total {
                offset + limit
            } else {
                total
            };
            r@ == join_nl(kept.subrange(start, end)) + (if end < total {
                page_marker(start, end, total)
            } else {
                Seq::<char>::empty()
            })
        }),
{
    let all_lines = split_lines(content);
    let kept: Vec<String> = match term {
        None => all_lines,
        Some(t) => {
            let tv = chars_of(t);
            let mut filtered: Vec<String> = Vec::new();
            let mut i: usize = 0;
            let ghost pred = |l: Seq<char>| contains_seq(l, t@);
            proof {
                reveal(Seq::filter);
                assert(all_lines.deep_view().subrange(0, 0) =~= Seq::<Seq<char>>::empty());
                assert(filtered.deep_view() =~= all_lines.deep_view().subrange(0, 0).filter(pred));
            }
            while i < all_lines.len()
                invariant
                    i <= all_lines@.len(),
                    tv@ == t@,
                    pred == (|l: Seq<char>| contains_seq(l, t@)),
                    all_lines.deep_view().len() == all_lines@.len(),
                    forall|k: int|
                        0 <= k < all_lines@.len() ==> all_lines.deep_view()[k] == all_lines@[k]@,
                    filtered.deep_view() == all_lines.deep_view().subrange(0, i as int).filter(
                        pred,
                    ),
                decreases all_lines@.len() - i,
            {
                proof {
                    reveal(Seq::filter);
                    let prefix = all_lines.deep_view().subrange(0, i as int);
                    let ext = all_lines.deep_view().subrange(0, i + 1 as int);
                    assert(ext.drop_last() =~= prefix);
                    assert(ext.last() == all_lines@[i as int]@);
                }
                let lv = chars_of(all_lines[i].as_str());
                if contains_chars(lv.as_slice(), tv.as_slice()) {
                    let ghost before = filtered.deep_view();
                    let line = all_lines[i].clone();
                    filtered.push(line);
                    assert(filtered.deep_view() =~= before.push(all_lines@[i as int]@));
                }
                i = i + 1;
                assert(filtered.deep_view() =~= all_lines.deep_view().subrange(0, i as int).filter(
                    pred,
                ));
            }
            proof {
                assert(all_lines.deep_view().subrange(0, i as int) =~= all_lines.deep_view());
            }
            filtered
        },
    };
    let total = kept.len();
    let (start, end) = window_bounds(offset, limit, total);
    let mut out = String::new();
    push_join_nl(&mut out, &kept, start, end);
    if end < total {
        out.append("\n\n(Showing lines ");
        push_dec(&mut out, start as u64);
        out.append("-");
        push_dec(&mut out, end as u64);
        out.append(" of ");
        push_dec(&mut out, total as u64);
        out.append(". Use paginate_tool_output for more.)");
    }
    assert(out@ =~= ({
        let lines = split_lines_seq(content@);
        let keptv = matching_lines(
            lines,
            match term {
                Some(t) => Some(t@),
                None => None,
            },
        );
        let totalv = keptv.len() as int;
        let startv: int = if offset <= totalv {
            offset as int
        } else {
            totalv
        };
        let endv: int = if offset + limit <= totalv {
            offset + limit
        } else {
            totalv
        };
        join_nl(keptv.subrange(startv, endv)) + (if endv < totalv {
            page_marker(startv, endv, totalv)
        } else {
            Seq::<char>::empty()
        })
    }));
    out
}

/// How one character is written inside a single-quoted shell argument.
pub open spec fn sq_char(c: char) -> Seq<char> {
    if c == '\'' {
        seq!['\'', '\\', '\'', '\'']
    } else {
        seq![c]
    }
}

/// The body of a single-quoted shell argument denoting `s`.
pub open spec fn sq_seq(s: Seq<char>) -> Seq<char>
    decreases s.len(),
{
    if s.len() == 0 {
        Seq::empty()
    } else {
        sq_char(s[0]) + sq_seq(s.drop_first())
    }
}

pub proof fn lemma_sq_snoc(s: Seq<char>, c: char)
    ensures
        sq_seq(s.push(c)) == sq_seq(s) + sq_char(c),
    decreases s.len(),
{
    if s.len() == 0 {
        assert(s.push(c)[0] == c);
        assert(s.push(c).drop_first() =~= Seq::<char>::empty());
        assert(sq_seq(Seq::<char>::empty()) =~= Seq::<char>::empty());
        assert(sq_seq(s.push(c)) == sq_char(c) + sq_seq(Seq::<char>::empty()));
        assert(sq_seq(s.push(c)) =~= sq_seq(s) + sq_char(c));
    } else {
        assert(s.push(c)[0] == s[0]);
        assert(s.push(c).drop_first() =~= s.drop_first().push(c));
        lemma_sq_snoc(s.drop_first(), c);
        assert(sq_seq(s.push(c)) == sq_char(s[0]) + (sq_seq(s.drop_first()) + sq_char(c)));
        assert(sq_seq(s.push(c)) =~= sq_seq(s) + sq_char(c));
    }
}

/// A whole shell argument: single quotes around `s` with embedded quotes
/// escaped.
pub open spec fn shell_arg_seq(s: Seq<char>) -> Seq<char> {
    seq!['\''] + sq_seq(s) + seq!['\'']
}

/// Appends `s` as a single-quoted shell argument.
pub fn push_shell_arg(out: &mut String, s: &str)
    ensures
        final(out)@ == old(out)@ + shell_arg_seq(s@),
{
    push_char(out, '\'');
    let v = chars_of(s);
    let mut i: usize = 0;
    let ghost mid = out@;
    proof {
        assert(v@.subrange(0, 0) =~= Seq::<char>::empty());
        assert(out@ =~= mid + sq_seq(v@.subrange(0, 0)));
    }
    while i < v.len()
        invariant
            i <= v@.len(),
            v@ == s@,
            out@ == mid + sq_seq(v@.subrange(0, i as int)),
        decreases v@.len() - i,
    {
        let c = v[i];
        if c == '\'' {
            push_char(out, '\'');
            push_char(out, '\\');
            push_char(out, '\'');
            push_char(out, '\'');
        } else {
            push_char(out, c);
        }
        proof {
            lemma_sq_snoc(v@.subrange(0, i as int), c);
            assert(v@.subrange(0, i as int).push(c) =~= v@.subrange(0, i + 1 as int));
            assert(out@ =~= mid + sq_seq(v@.subrange(0, i + 1 as int)));
        }
        i = i + 1;
    }
    proof {
        assert(v@.subrange(0, i as int) =~= v@);
    }
    push_char(out, '\'');
    assert(out@ =~= old(out)@ + shell_arg_seq(s@));
}

/// The appended argument text of a command line: one space and one quoted
/// argument per entry.
pub open spec fn cmd_args_seq(args: Seq<Seq<char>>) -> Seq<char>
    decreases args.len(),
{
    if args.len() == 0 {
        Seq::empty()
    } else {
        seq![' '] + shell_arg_seq(args[0]) + cmd_args_seq(args.drop_first())
    }
}

pub proof fn lemma_cmd_args_snoc(args: Seq<Seq<char>>, x: Seq<char>)
    ensures
        cmd_args_seq(args.push(x)) == cmd_args_seq(args) + (seq![' '] + shell_arg_seq(x)),
    decreases args.len(),
{
    if args.len() == 0 {
        assert(args.push(x)[0] == x);
        assert(args.push(x).drop_first() =~= Seq::<Seq<char>>::empty());
        assert(cmd_args_seq(Seq::<Seq<char>>::empty()) =~= Seq::<char>::empty());
        assert(cmd_args_seq(args.push(x)) == seq![' '] + shell_arg_seq(x) + cmd_args_seq(
            Seq::<Seq<char>>::empty(),
        ));
        assert(cmd_args_seq(args.push(x)) =~= cmd_args_seq(args) + (seq![' '] + shell_arg_seq(x)));
    } else {
        assert(args.push(x)[0] == args[0]);
        assert(args.push(x).drop_first() =~= args.drop_first().push(x));
        lemma_cmd_args_snoc(args.drop_first(), x);
        assert(cmd_args_seq(args.push(x)) =~= cmd_args_seq(args) + (seq![' '] + shell_arg_seq(x)));
    }
}

/// The full shell command: the template followed by each argument, shell
/// quoted, exactly as it is handed to the shell.
pub fn build_command_line(base: &str, args: &Vec<String>) -> (r: String)
    ensures
        r@ == base@ + cmd_args_seq(args.deep_view()),
{
    let mut out = String::new();
    out.append(base);
    let ghost pre = out@;
    let mut i: usize = 0;
    proof {
        assert(args.deep_view().subrange(0, 0) =~= Seq::<Seq<char>>::empty());
        assert(out@ =~= pre + cmd_args_seq(args.deep_view().subrange(0, 0)));
    }
    while i < args.len()
        invariant
            i <= args@.len(),
            args.deep_view().len() == args@.len(),
            forall|k: int| 0 <= k < args@.len() ==> args.deep_view()[k] == args@[k]@,
            out@ == pre + cmd_args_seq(args.deep_view().subrange(0, i as int)),
        decreases args@.len() - i,
    {
        push_char(&mut out, ' ');
        push_shell_arg(&mut out, args[i].as_str());
        proof {
            let done = args.deep_view().subrange(0, i as int);
            lemma_cmd_args_snoc(done, args.deep_view()[i as int]);
            assert(done.push(args.deep_view()[i as int]) =~= args.deep_view().subrange(
                0,
                i + 1 as int,
            ));
            assert(out@ =~= pre + cmd_args_seq(args.deep_view().subrange(0, i + 1 as int)));
        }
        i = i + 1;
    }
    proof {
        assert(args.deep_view().subrange(0, i as int) =~= args.deep_view());
    }
    assert(out@ =~= base@ + cmd_args_seq(args.deep_view()));
    out
}

/// The note appended when captured output was cut at the line limit.
pub open spec fn truncation_note(uuid: Seq<char>) -> Seq<char> {
    "\n\n(Output truncated. Full output saved in tool run "@ + uuid
        + ". Use paginate_tool_output to see more.)"@
}

/// What the model is shown after a tool ran: the head of stdout up to the
/// line limit, a truncation note exactly when lines were cut, and a short
/// stderr excerpt exactly when stderr was non-empty.
pub fn summarize_output(stdout_text: &str, stderr_text: &str, line_limit: usize, tool_uuid: &str)
    -> (r: String)
    ensures
        ({
            let outl = split_lines_seq(stdout_text@);
            let errl = split_lines_seq(stderr_text@);
            let shown: int = if line_limit as int <= outl.len() {
                line_limit as int
            } else {
                outl.len() as int
            };
            let err_shown: int = if 5 <= errl.len() {
                5int
            } else {
                errl.len() as int
            };
            r@ == join_nl(outl.subrange(0, shown)) + (if outl.len() > line_limit {
                truncation_note(tool_uuid@)
            } else {
                Seq::<char>::empty()
            }) + (if stderr_text@.len() > 0 {
                "\n\nStderr:\n"@ + join_nl(errl.subrange(0, err_shown))
            } else {
                Seq::<char>::empty()
            })
        }),
{
    let outl = split_lines(stdout_text);
    let errl = split_lines(stderr_text);
    let shown = if line_limit <= outl.len() {
        line_limit
    } else {
        outl.len()
    };
    let mut out = String::new();
    push_join_nl(&mut out, &outl, 0, shown);
    if outl.len() > line_limit {
        out.append("\n\n(Output truncated. Full output saved in tool run ");
        out.append(tool_uuid);
        out.append(". Use paginate_tool_output to see more.)");
    }
    let stderr_chars = chars_of(stderr_text);
    if stderr_chars.len() > 0 {
        out.append("\n\nStderr:\n");
        let err_shown = if 5 <= errl.len() {
            5
        } else {
            errl.len()
        };
        push_join_nl(&mut out, &errl, 0, err_shown);
    }
    assert(out@ =~= ({
        let outlv = split_lines_seq(stdout_text@);
        let errlv = split_lines_seq(stderr_text@);
        let shownv: int = if line_limit as int <= outlv.len() {
            line_limit as int
        } else {
            outlv.len() as int
        };
        let err_shownv: int = if 5 <= errlv.len() {
            5int
        } else {
            errlv.len() as int
        };
        join_nl(outlv.subrange(0, shownv)) + (if outlv.len() > line_limit {
            truncation_note(tool_uuid@)
        } else {
            Seq::<char>::empty()
        }) + (if stderr_text@.len() > 0 {
            "\n\nStderr:\n"@ + join_nl(errlv.subrange(0, err_shownv))
        } else {
            Seq::<char>::empty()
        })
    }));
    out
}

/// Which handler a model-issued call goes to: the two built-in tools by
/// their fixed names, else the first declared tool of that name, else
/// nothing — an unknown name is answered with a textual error, never an
/// exception.
pub enum ToolDispatch {
    Paginate,
    RunSkillScript,
    Declared(usize),
    Unknown,
}

pub fn classify_tool(name: &str, tools: &Vec<Tool>) -> (r: ToolDispatch)
    ensures
        r == ToolDispatch::Paginate <==> name@ == "paginate_tool_output"@,
        r == ToolDispatch::RunSkillScript <==> name@ != "paginate_tool_output"@ && name@
            == "run_skill_script"@,
        r matches ToolDispatch::Declared(i) ==> name@ != "paginate_tool_output"@ && name@
            != "run_skill_script"@ && i < tools@.len() && tools@[i as int]@.name == name@ && (
        forall|j: int| 0 <= j < i ==> tools@[j]@.name != name@),
        r == ToolDispatch::Unknown ==> name@ != "paginate_tool_output"@ && name@
            != "run_skill_script"@ && (forall|j: int|
            0 <= j < tools@.len() ==> tools@[j]@.name != name@),
{
    if str_eq(name, "paginate_tool_output") {
        return ToolDispatch::Paginate;
    }
    if str_eq(name, "run_skill_script") {
        return ToolDispatch::RunSkillScript;
    }
    let mut i: usize = 0;
    while i < tools.len()
        invariant
            i <= tools@.len(),
            name@ != "paginate_tool_output"@,
            name@ != "run_skill_script"@,
            forall|j: int| 0 <= j < i ==> tools@[j]@.name != name@,
        decreases tools@.len() - i,
    {
        if str_eq(tools[i].name.as_str(), name) {
            return ToolDispatch::Declared(i);
        }
        i = i + 1;
    }
    ToolDispatch::Unknown
}

} // verus!
