//! The bounded model/tool loop. The caller performs the streaming call and
//! runs the tools; the decisions — whether another turn may start, what the
//! running response becomes, and when the exchange is over — are made here.
//! `lemma_tool_loop_bounded` proves the hard ceiling: however the model
//! behaves, no run starts more than `max_iterations` turns.
use vstd::prelude::*;

verus! {

use vstd::string::StringExecFns;
use crate::llm::ToolCall;
use crate::text::push_char;

/// The documented hard ceiling on turns within one exchange.
pub const MAX_TOOL_ITERATIONS: u32 = 10;

/// What a finished turn asks for next.
#[derive(Debug, Clone, Copy, PartialEq, Eq, Structural)]
pub enum TurnDecision {
    Finished,
    ExecuteTools,
}

/// The running state of one exchange: how many turns have started, the
/// ceiling, the accumulated reply text, and whether the exchange is over.
pub struct ToolLoop {
    pub iteration: u32,
    pub max_iterations: u32,
    pub full_response: String,
    pub done: bool,
}

/// The accumulated reply after a turn's text arrives: joined with one
/// newline, empty pieces dropped.
pub open spec fn appended_response(acc: Seq<char>, text: Seq<char>) -> Seq<char> {
    if text.len() == 0 {
        acc
    } else if acc.len() == 0 {
        text
    } else {
        acc + seq!['\n'] + text
    }
}

/// The turn counter after one more turn is attempted: it moves up only
/// while it is under the ceiling.
pub open spec fn next_iteration(it: int, max: int) -> int {
    if it < max {
        it + 1
    } else {
        it
    }
}

/// The turn counter after `k` attempted turns.
pub open spec fn iterations_after(k: nat, max: int) -> int
    decreases k,
{
    if k == 0 {
        0
    } else {
        next_iteration(iterations_after((k - 1) as nat, max), max)
    }
}

/// However many turns are attempted — in particular when every turn comes
/// back with tool calls — the counter never passes the ceiling, and from
/// the ceiling-th attempt on no further turn begins.
pub proof fn lemma_tool_loop_bounded(k: nat, max: int)
    requires
        max >= 0,
    ensures
        0 <= iterations_after(k, max) <= max,
        iterations_after(k, max) == (if k as int <= max {
            k as int
        } else {
            max
        }),
        k >= max ==> iterations_after(k, max) == max,
    decreases k,
{
    if k > 0 {
        lemma_tool_loop_bounded((k - 1) as nat, max);
    }
}

impl ToolLoop {
    /// A fresh exchange under the given turn ceiling.
    pub fn new(max_iterations: u32) -> (r: ToolLoop)
        ensures
            r.iteration == 0,
            r.max_iterations == max_iterations,
            r.full_response@ == Seq::<char>::empty(),
            !r.done,
    {
        ToolLoop { iteration: 0, max_iterations, full_response: String::new(), done: false }
    }

    /// Tries to start the next turn. The turn starts exactly while the
    /// counter is under the ceiling; otherwise the exchange is forced to
    /// its end with whatever text has accumulated.
    pub fn begin_turn(&mut self) -> (go: bool)
        requires
            !old(self).done,
        ensures
            go <==> old(self).iteration < old(self).max_iterations,
            final(self).iteration == next_iteration(
                old(self).iteration as int,
                old(self).max_iterations as int,
            ),
            final(self).max_iterations == old(self).max_iterations,
            final(self).full_response == old(self).full_response,
            final(self).done == !go,
    {
        if self.iteration < self.max_iterations {
            self.iteration = self.iteration + 1;
            true
        } else {
            self.done = true;
            false
        }
    }

    /// Records what one streamed turn produced. The turn's text joins the
    /// running response; a turn without tool calls ends the exchange, one
    /// with tool calls asks for them to be executed.
    pub fn record_turn(&mut self, text: &str, tool_calls: &Vec<ToolCall>) -> (d: TurnDecision)
        requires
            !old(self).done,
        ensures
            final(self).iteration == old(self).iteration,
            final(self).max_iterations == old(self).max_iterations,
            final(self).full_response@ == appended_response(old(self).full_response@, text@),
            d == TurnDecision::Finished <==> tool_calls@.len() == 0,
            final(self).done <==> tool_calls@.len() == 0,
    {
        if !text.is_empty() {
            if !self.full_response.as_str().is_empty() {
                push_char(&mut self.full_response, '\n');
            }
            self.full_response.append(text);
            assert(self.full_response@ =~= appended_response(
                old(self).full_response@,
                text@,
            ));
        }
        if tool_calls.len() == 0 {
            self.done = true;
            TurnDecision::Finished
        } else {
            TurnDecision::ExecuteTools
        }
    }

    /// Records one executed tool call in the running response, exactly as
    /// the model's reply transcript shows it.
    pub fn record_tool_result(&mut self, name: &str, call_id: &str, result: &str)
        ensures
            final(self).iteration == old(self).iteration,
            final(self).max_iterations == old(self).max_iterations,
            final(self).done == old(self).done,
            final(self).full_response@ == old(self).full_response@ + "\n[Tool Call: "@ + name@
                + " (ID: "@ + call_id@ + ") resulted in:\n"@ + result@ + "]"@,
    {
        self.full_response.append("\n[Tool Call: ");
        self.full_response.append(name);
        self.full_response.append(" (ID: ");
        self.full_response.append(call_id);
        self.full_response.append(") resulted in:\n");
        self.full_response.append(result);
        self.full_response.append("]");
    }
}

} // verus!
