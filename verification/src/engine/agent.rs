//! The agent: one conversation, and the turns that it takes.
//!
//! A turn calls the model, runs the tools that the model asks for, and goes on until the model
//! asks for none. Everything outside (the network, a person's approval, the tools) is done by
//! the caller, who hands each outcome to [`Agent::step`] as an [`Event`].

use vstd::prelude::*;

use crate::engine::config::{active_effort, Config, ConfigV};
use crate::engine::jobs::AGENT_HINT;
use crate::engine::provider::request::chosen_effort;
use crate::engine::provider::ChatProvider;
use crate::engine::repair::{all_in, answered, called, part_calls, part_results};
use crate::engine::{
    calls_view, msgs, parts_view, result_msg, text_msg, Completion, CompletionV, Msg, MsgV, Part,
    PartV, ToolCall, ToolCallV,
};
use crate::json::{render, written, JsonV};
use crate::text::{
    between, blank, chars_of, opt_text, same, string_of, texts, trim, trim_is_empty_iff_blank,
    trim_of, within, within_whole,
};

verus! {

/// What the agent should believe about where it is working. Built for each run from the chat's
/// own project, so that a chat is never told about a folder of a different one.
#[derive(Debug)]
pub struct ProjectContext {
    pub name: String,
    /// One-off work with no project behind it: no codebase may be assumed.
    pub scratch: bool,
    /// The folder of the chat is not the folder of the project it is filed under. The name is
    /// then only a label.
    pub detached: bool,
}

/// The machine that the program runs on.
#[derive(Debug)]
pub struct Platform {
    pub windows: bool,
    pub os: String,
    pub arch: String,
}

// ---- the system message ------------------------------------------------------------------------

/// The note about the platform.
pub open spec fn platform_note(p: Platform) -> Seq<char> {
    if p.windows {
        "PLATFORM (auto-detected at startup): Windows ("@ + p.arch@
            + ").\nThe shell tool runs **cmd.exe** — use Windows command syntax (dir, type, copy, del, rmdir /s, where).\nUnix utilities (ls, cat, grep -r, rm -rf, chmod, tree, touch) are NOT reliably available.\nPrefer the list_dir tool to list files, read_file to read, and write_file to edit. Path separator is backslash."@
    } else {
        "PLATFORM (auto-detected at startup): "@ + p.os@ + " on "@ + p.arch@
            + ". The shell tool runs POSIX sh — use standard Unix commands. Path separator is forward slash."@
    }
}

/// The note about the platform.
pub fn platform_hint(p: &Platform) -> (r: String)
    ensures
        r@ == platform_note(*p),
{
    let mut s = String::new();
    if p.windows {
        s = "PLATFORM (auto-detected at startup): Windows (".to_string();
        s.append(p.arch.as_str());
        s.append(").\nThe shell tool runs **cmd.exe** — use Windows command syntax (dir, type, copy, del, rmdir /s, where).\nUnix utilities (ls, cat, grep -r, rm -rf, chmod, tree, touch) are NOT reliably available.\nPrefer the list_dir tool to list files, read_file to read, and write_file to edit. Path separator is backslash.");
    } else {
        s = "PLATFORM (auto-detected at startup): ".to_string();
        s.append(p.os.as_str());
        s.append(" on ");
        s.append(p.arch.as_str());
        s.append(". The shell tool runs POSIX sh — use standard Unix commands. Path separator is forward slash.");
    }
    s
}

pub open spec fn name_or(name: Seq<char>, otherwise: Seq<char>) -> Seq<char> {
    if blank(name) {
        otherwise
    } else {
        trim_of(name)
    }
}

/// Where a chat is working, spelled out for the model. To say that there is no project matters
/// as much as to name one.
pub open spec fn project_note(p: ProjectContext, workspace: Seq<char>) -> Seq<char> {
    let ws = trim_of(workspace);
    if p.scratch {
        "PROJECT: none. This chat lives in \""@ + name_or(p.name@, "Tasks"@)
            + "\", the area for one-off work that does not belong to any project.\nWorking folder (tools run here; relative paths resolve here): "@
            + ws
            + "\nThat folder is an empty scratch directory, not a codebase. There is no project, repository or existing code here: do not assume you are continuing any previous work, and do not guess at a project. If the request needs one, ask which folder to use or work from an absolute path the user gives you."@
    } else if p.detached {
        "PROJECT: unresolved. This chat is filed under \""@ + name_or(p.name@, "(unnamed)"@)
            + "\", but that is only where it is listed — the folder below is not that project's folder. The project it belonged to was deleted, or it was pointed somewhere else.\nWorking folder (tools run here; relative paths resolve here): "@
            + ws
            + "\nTrust the folder, not the label: the folder is the only reliable statement about where you are working. Look at it to see what it actually is, and do not claim or assume this chat belongs to any particular project."@
    } else {
        "PROJECT: "@ + name_or(p.name@, "(unnamed)"@)
            + "\nWorking folder (tools run here; relative paths resolve here): "@ + ws
            + "\nThis chat is scoped to that project and only that project. Look in this folder to learn what it is instead of assuming — never work against a different project, repository or folder."@
    }
}

fn named(name: &str, otherwise: &str) -> (r: String)
    ensures
        r@ == name_or(name@, otherwise@),
{
    let t = trim(name);
    proof {
        trim_is_empty_iff_blank(name@);
    }
    if t.as_str().unicode_len() == 0 {
        otherwise.to_string()
    } else {
        t
    }
}

/// The system message: the platform, how to do long work, the project, and the instructions where
/// there are any.
pub open spec fn system_text(
    platform: Platform,
    project: ProjectContext,
    workspace: Seq<char>,
    system: Seq<char>,
) -> Seq<char> {
    let hint = platform_note(platform) + "\n\n"@ + AGENT_HINT@ + "\n\n"@ + project_note(
        project,
        workspace,
    );
    if blank(system) {
        hint
    } else {
        hint + "\n\n"@ + trim_of(system)
    }
}

/// The index of the first system message.
pub open spec fn first_system(h: Seq<MsgV>) -> Option<int>
    decreases h.len(),
{
    if h.len() == 0 {
        None
    } else {
        match first_system(h.drop_last()) {
            Some(i) => Some(i),
            None => if h.last().role == "system"@ {
                Some(h.len() - 1)
            } else {
                None
            },
        }
    }
}

/// The history with `body` as its first system message: in place of the one that was there, or
/// at the top.
pub open spec fn with_system(h: Seq<MsgV>, body: Seq<char>) -> Seq<MsgV> {
    match first_system(h) {
        Some(i) => h.update(i, text_msg("system"@, body)),
        None => h.insert(0, text_msg("system"@, body)),
    }
}

pub proof fn first_system_is_first(h: Seq<MsgV>)
    ensures
        first_system(h) matches Some(i) ==> {
            &&& 0 <= i < h.len()
            &&& h[i].role == "system"@
            &&& forall|j: int| 0 <= j < i ==> (#[trigger] h[j]).role != "system"@
        },
        first_system(h) is None ==> forall|j: int|
            0 <= j < h.len() ==> (#[trigger] h[j]).role != "system"@,
    decreases h.len(),
{
    if h.len() > 0 {
        let d = h.drop_last();
        first_system_is_first(d);
        assert forall|j: int| 0 <= j < d.len() implies d[j] == h[j] by {}
    }
}

/// How many system messages a history has.
pub open spec fn systems(h: Seq<MsgV>) -> nat
    decreases h.len(),
{
    if h.len() == 0 {
        0
    } else {
        systems(h.drop_last()) + if h.last().role == "system"@ {
            1nat
        } else {
            0nat
        }
    }
}

proof fn systems_concat(a: Seq<MsgV>, b: Seq<MsgV>)
    ensures
        systems(a + b) == systems(a) + systems(b),
    decreases b.len(),
{
    if b.len() == 0 {
        assert(a + b =~= a);
    } else {
        systems_concat(a, b.drop_last());
        assert((a + b).drop_last() =~= a + b.drop_last());
    }
}

proof fn one_system(m: MsgV)
    ensures
        systems(seq![m]) == if m.role == "system"@ {
            1nat
        } else {
            0nat
        },
{
    assert(seq![m].drop_last() =~= Seq::empty());
    assert(systems(seq![m].drop_last()) == 0);
}

proof fn no_system(h: Seq<MsgV>)
    requires
        first_system(h) is None,
    ensures
        systems(h) == 0,
    decreases h.len(),
{
    if h.len() > 0 {
        no_system(h.drop_last());
    }
}

/// The context is replaced, never piled up: a history has as many system messages as before,
/// or one where it had none, and everything else that it held stands as it stood.
pub proof fn system_is_replaced_not_appended(h: Seq<MsgV>, body: Seq<char>)
    ensures
        systems(with_system(h, body)) == if systems(h) == 0 {
            1
        } else {
            systems(h)
        },
        ({
            let w = with_system(h, body);
            match first_system(h) {
                Some(i) => w.len() == h.len() && forall|j: int|
                    0 <= j < h.len() && j != i ==> #[trigger] w[j] == h[j],
                None => w.skip(1) == h,
            }
        }),
{
    let m = text_msg("system"@, body);
    one_system(m);
    first_system_is_first(h);
    match first_system(h) {
        Some(i) => {
            let w = h.update(i, m);
            let a = h.take(i);
            let b = h.skip(i + 1);
            assert(h =~= (a + seq![h[i]]) + b);
            assert(w =~= (a + seq![m]) + b);
            systems_concat(a + seq![h[i]], b);
            systems_concat(a + seq![m], b);
            systems_concat(a, seq![h[i]]);
            systems_concat(a, seq![m]);
            one_system(h[i]);
        },
        None => {
            no_system(h);
            let w = h.insert(0, m);
            assert(w =~= seq![m] + h);
            systems_concat(seq![m], h);
            assert(w.skip(1) =~= h);
        },
    }
}

// ---- a turn ------------------------------------------------------------------------------------

/// The tools that a person is asked about before they run.
pub open spec fn risky(name: Seq<char>) -> bool {
    name == "powershell"@ || name == "shell"@ || name == "write_file"@
}

/// Whether a person is asked about a tool before it runs.
pub fn is_risky(name: &str) -> (r: bool)
    ensures
        r == risky(name@),
{
    same(name, "powershell") || same(name, "shell") || same(name, "write_file")
}

/// What a run has come to.
#[derive(Debug)]
pub struct RunStats {
    pub steps: usize,
    pub tool_calls: usize,
    pub stopped: bool,
    pub tokens_in: u64,
    pub tokens_out: u64,
    /// Prompt tokens of the last answer: how full the window is. The sums above say nothing
    /// about that.
    pub context_tokens: u64,
    /// The amounts that make up the reported cost.
    pub cost: Vec<String>,
    pub error: Option<String>,
}

/// The summary that ends a run.
#[derive(Debug)]
pub struct RunSummary {
    pub steps: usize,
    pub tool_calls: usize,
    pub stopped: bool,
    pub tokens_in: u64,
    pub tokens_out: u64,
    pub context_tokens: u64,
    pub cost: Vec<String>,
    pub error: Option<String>,
}

pub struct StatsV {
    pub steps: usize,
    pub tool_calls: usize,
    pub stopped: bool,
    pub tokens_in: u64,
    pub tokens_out: u64,
    pub context_tokens: u64,
    pub cost: Seq<Seq<char>>,
    pub error: Option<Seq<char>>,
}

impl View for RunStats {
    type V = StatsV;

    open spec fn view(&self) -> StatsV {
        StatsV {
            steps: self.steps,
            tool_calls: self.tool_calls,
            stopped: self.stopped,
            tokens_in: self.tokens_in,
            tokens_out: self.tokens_out,
            context_tokens: self.context_tokens,
            cost: texts(self.cost@),
            error: opt_text(self.error),
        }
    }
}

impl View for RunSummary {
    type V = StatsV;

    open spec fn view(&self) -> StatsV {
        StatsV {
            steps: self.steps,
            tool_calls: self.tool_calls,
            stopped: self.stopped,
            tokens_in: self.tokens_in,
            tokens_out: self.tokens_out,
            context_tokens: self.context_tokens,
            cost: texts(self.cost@),
            error: opt_text(self.error),
        }
    }
}

pub open spec fn fresh_stats() -> StatsV {
    StatsV {
        steps: 0,
        tool_calls: 0,
        stopped: false,
        tokens_in: 0,
        tokens_out: 0,
        context_tokens: 0,
        cost: Seq::empty(),
        error: None,
    }
}

impl RunStats {
    /// The stats of a run that has done nothing yet.
    pub fn new() -> (r: RunStats)
        ensures
            r@ == fresh_stats(),
    {
        let r = RunStats {
            steps: 0,
            tool_calls: 0,
            stopped: false,
            tokens_in: 0,
            tokens_out: 0,
            context_tokens: 0,
            cost: Vec::new(),
            error: None,
        };
        assert(r@.cost =~= Seq::empty());
        r
    }

    pub fn to_summary(&self) -> (r: RunSummary)
        ensures
            r@ == self@,
    {
        RunSummary {
            steps: self.steps,
            tool_calls: self.tool_calls,
            stopped: self.stopped,
            tokens_in: self.tokens_in,
            tokens_out: self.tokens_out,
            context_tokens: self.context_tokens,
            cost: crate::text::copy_texts(&self.cost),
            error: crate::text::copy_opt(&self.error),
        }
    }
}

/// What a turn waits for.
#[derive(Debug, Clone, Copy, PartialEq, Eq, Structural)]
pub enum Phase {
    /// To learn whether it was stopped, before it asks the model.
    Top,
    /// The model's answer.
    Asking,
    /// To learn whether it was stopped, before the call with this number; behind the last call,
    /// before it goes back to the top.
    Between(usize),
    /// What the guards say of this call.
    Guarding(usize),
    /// What a person says of this call.
    Approving(usize),
    /// The outcome of this call.
    Running(usize),
    /// Nothing: the turn is over.
    Over,
}

/// An outcome that a turn was waiting for.
#[derive(Debug)]
pub enum Event {
    /// Whether the run has been stopped.
    Polled { cancelled: bool },
    /// The model answered; and whether the run had been stopped by then.
    Answered { completion: Completion, cancelled: bool },
    /// The model could not be asked.
    Failed { error: String },
    /// A guard's reason to refuse the call, if one refused it.
    Guarded { refusal: Option<String> },
    /// What the person said, and whether the run had been stopped by then.
    Approved { approved: bool, cancelled: bool },
    /// What the tool gave back.
    Ran { success: bool, output: String },
}

pub enum EventV {
    Polled { cancelled: bool },
    Answered { completion: CompletionV, cancelled: bool },
    Failed { error: Seq<char> },
    Guarded { refusal: Option<Seq<char>> },
    Approved { approved: bool, cancelled: bool },
    Ran { success: bool, output: Seq<char> },
}

impl View for Event {
    type V = EventV;

    open spec fn view(&self) -> EventV {
        match *self {
            Event::Polled { cancelled } => EventV::Polled { cancelled },
            Event::Answered { completion, cancelled } => EventV::Answered {
                completion: completion@,
                cancelled,
            },
            Event::Failed { error } => EventV::Failed { error: error@ },
            Event::Guarded { refusal } => EventV::Guarded { refusal: opt_text(refusal) },
            Event::Approved { approved, cancelled } => EventV::Approved { approved, cancelled },
            Event::Ran { success, output } => EventV::Ran { success, output: output@ },
        }
    }
}

/// Something to be done for a turn, in the order given.
#[derive(Debug)]
pub enum Effect {
    /// Store the history.
    Persist,
    /// Show what is going on: a model is thinking, or this tool is running.
    Activity { tool: Option<String>, step: usize },
    /// Show a call that the model asked for.
    ToolCall(ToolCall),
    /// Show what came of a call.
    ToolResult { id: String, name: String, success: bool, output: String },
    /// The model's message is complete.
    MessageEnd,
    /// Show a failure.
    Error(String),
    /// Show the summary of the run.
    Summary,
    /// The run is over, by itself or because it was stopped.
    Done { stopped: bool },
}

pub enum EffectV {
    Persist,
    Activity { tool: Option<Seq<char>>, step: usize },
    ToolCall(ToolCallV),
    ToolResult { id: Seq<char>, name: Seq<char>, success: bool, output: Seq<char> },
    MessageEnd,
    Error(Seq<char>),
    Summary,
    Done { stopped: bool },
}

impl View for Effect {
    type V = EffectV;

    open spec fn view(&self) -> EffectV {
        match *self {
            Effect::Persist => EffectV::Persist,
            Effect::Activity { tool, step } => EffectV::Activity { tool: opt_text(tool), step },
            Effect::ToolCall(tc) => EffectV::ToolCall(tc@),
            Effect::ToolResult { id, name, success, output } => EffectV::ToolResult {
                id: id@,
                name: name@,
                success,
                output: output@,
            },
            Effect::MessageEnd => EffectV::MessageEnd,
            Effect::Error(e) => EffectV::Error(e@),
            Effect::Summary => EffectV::Summary,
            Effect::Done { stopped } => EffectV::Done { stopped },
        }
    }
}

pub open spec fn effects_view(v: Seq<Effect>) -> Seq<EffectV> {
    Seq::new(v.len(), |i: int| v[i]@)
}

/// A turn: the conversation, what was counted, the calls of the last answer, and what is
/// waited for.
pub struct RunV {
    pub history: Seq<MsgV>,
    pub stats: StatsV,
    pub calls: Seq<ToolCallV>,
    pub phase: Phase,
    pub yolo: bool,
}

/// A sum that stops at the largest number.
pub open spec fn sum64(a: u64, b: u64) -> u64 {
    if a + b <= u64::MAX {
        (a + b) as u64
    } else {
        u64::MAX
    }
}

pub open spec fn one_more(n: usize) -> usize {
    if n < usize::MAX {
        (n + 1) as usize
    } else {
        n
    }
}

/// The parts of the message that an answer becomes.
pub open spec fn answer_parts(c: CompletionV) -> Seq<PartV> {
    let text = if c.text.len() > 0 {
        seq![PartV::Text(c.text)]
    } else {
        Seq::empty()
    };
    let thought = if c.reasoning.len() > 0 {
        seq![PartV::Reasoning(c.reasoning)]
    } else {
        Seq::empty()
    };
    text + thought + Seq::new(c.tool_calls.len(), |i: int| PartV::ToolCall(c.tool_calls[i]))
}

/// The stats once an answer has come: the tokens are summed, the window is replaced.
pub open spec fn counted(s: StatsV, c: CompletionV) -> StatsV {
    StatsV {
        steps: one_more(s.steps),
        tokens_in: sum64(s.tokens_in, c.usage.0),
        tokens_out: sum64(s.tokens_out, c.usage.1),
        context_tokens: if c.usage.0 > 0 {
            c.usage.0
        } else {
            s.context_tokens
        },
        cost: s.cost + c.cost,
        ..s
    }
}

/// The turn, stopped.
pub open spec fn halted(s: RunV) -> RunV {
    RunV { stats: StatsV { stopped: true, ..s.stats }, phase: Phase::Over, ..s }
}

pub open spec fn halt_effects() -> Seq<EffectV> {
    seq![EffectV::Summary, EffectV::Done { stopped: true }]
}

/// The turn once call `i` has come to `output`.
pub open spec fn settled(s: RunV, i: int, output: Seq<char>) -> RunV {
    RunV {
        history: s.history.push(result_msg(s.calls[i].id, s.calls[i].name, output)),
        phase: Phase::Between((i + 1) as usize),
        ..s
    }
}

pub open spec fn result_shown(s: RunV, i: int, success: bool, output: Seq<char>) -> EffectV {
    EffectV::ToolResult { id: s.calls[i].id, name: s.calls[i].name, success, output }
}

pub open spec fn calls_shown(calls: Seq<ToolCallV>) -> Seq<EffectV> {
    Seq::new(calls.len(), |i: int| EffectV::ToolCall(calls[i]))
}

/// The turn once the model has answered.
pub open spec fn answered_run(s: RunV, c: CompletionV, cancelled: bool) -> RunV {
    let parts = answer_parts(c);
    let next = RunV {
        history: if parts.len() > 0 {
            s.history.push(MsgV { role: "assistant"@, parts })
        } else {
            s.history
        },
        stats: counted(s.stats, c),
        ..s
    };
    if cancelled {
        halted(next)
    } else if c.tool_calls.len() == 0 {
        RunV { phase: Phase::Over, ..next }
    } else {
        RunV { calls: c.tool_calls, phase: Phase::Between(0), ..next }
    }
}

pub open spec fn answered_effects(c: CompletionV, cancelled: bool) -> Seq<EffectV> {
    let kept = if answer_parts(c).len() > 0 {
        seq![EffectV::MessageEnd, EffectV::Persist]
    } else {
        Seq::empty()
    };
    if cancelled {
        kept + halt_effects()
    } else if c.tool_calls.len() == 0 {
        kept + seq![EffectV::Summary, EffectV::Done { stopped: false }]
    } else {
        calls_shown(c.tool_calls) + kept
    }
}

/// Where a turn goes when `e` happens. What it was not waiting for changes nothing.
pub open spec fn stepped(s: RunV, e: EventV) -> RunV {
    match (s.phase, e) {
        (Phase::Top, EventV::Polled { cancelled }) => if cancelled {
            halted(s)
        } else {
            RunV { phase: Phase::Asking, ..s }
        },
        (Phase::Asking, EventV::Failed { error }) => RunV {
            history: s.history.push(
                MsgV { role: "assistant"@, parts: seq![PartV::Error(error)] },
            ),
            stats: StatsV { error: Some(error), ..s.stats },
            phase: Phase::Over,
            ..s
        },
        (Phase::Asking, EventV::Answered { completion, cancelled }) => answered_run(
            s,
            completion,
            cancelled,
        ),
        (Phase::Between(i), EventV::Polled { cancelled }) => if i < s.calls.len() {
            if cancelled {
                settled(s, i as int, "Stopped by user"@)
            } else {
                RunV { phase: Phase::Guarding(i), ..s }
            }
        } else if cancelled {
            halted(s)
        } else {
            RunV { phase: Phase::Top, ..s }
        },
        (Phase::Guarding(i), EventV::Guarded { refusal }) => if i < s.calls.len() {
            match refusal {
                Some(reason) => settled(s, i as int, reason),
                None => if risky(s.calls[i as int].name) && !s.yolo {
                    RunV { phase: Phase::Approving(i), ..s }
                } else {
                    RunV { phase: Phase::Running(i), ..s }
                },
            }
        } else {
            s
        },
        (Phase::Approving(i), EventV::Approved { approved, cancelled }) => if i < s.calls.len() {
            if approved {
                RunV { phase: Phase::Running(i), ..s }
            } else if cancelled {
                settled(s, i as int, "Stopped by user"@)
            } else {
                settled(s, i as int, "Denied by user"@)
            }
        } else {
            s
        },
        (Phase::Running(i), EventV::Ran { success, output }) => if i < s.calls.len() {
            settled(
                RunV {
                    stats: StatsV { tool_calls: one_more(s.stats.tool_calls), ..s.stats },
                    ..s
                },
                i as int,
                output,
            )
        } else {
            s
        },
        _ => s,
    }
}

/// What is done for a turn when `e` happens.
pub open spec fn effects_of(s: RunV, e: EventV) -> Seq<EffectV> {
    match (s.phase, e) {
        (Phase::Top, EventV::Polled { cancelled }) => if cancelled {
            halt_effects()
        } else {
            seq![EffectV::Activity { tool: None, step: one_more(s.stats.steps) }]
        },
        (Phase::Asking, EventV::Failed { error }) => seq![
            EffectV::Persist,
            EffectV::Error(error),
            EffectV::Summary,
            EffectV::Done { stopped: false },
        ],
        (Phase::Asking, EventV::Answered { completion, cancelled }) => answered_effects(
            completion,
            cancelled,
        ),
        (Phase::Between(i), EventV::Polled { cancelled }) => if i < s.calls.len() {
            if cancelled {
                seq![result_shown(s, i as int, false, "Stopped by user"@)]
            } else {
                seq![
                    EffectV::Activity {
                        tool: Some(s.calls[i as int].name),
                        step: s.stats.steps,
                    },
                ]
            }
        } else if cancelled {
            halt_effects()
        } else {
            Seq::empty()
        },
        (Phase::Guarding(i), EventV::Guarded { refusal: Some(reason) }) => if i < s.calls.len() {
            seq![result_shown(s, i as int, false, reason)]
        } else {
            Seq::empty()
        },
        (Phase::Approving(i), EventV::Approved { approved: false, cancelled }) => if i
            < s.calls.len() {
            if cancelled {
                seq![result_shown(s, i as int, false, "Stopped by user"@)]
            } else {
                seq![result_shown(s, i as int, false, "Denied by user"@)]
            }
        } else {
            Seq::empty()
        },
        (Phase::Running(i), EventV::Ran { success, output }) => if i < s.calls.len() {
            seq![result_shown(s, i as int, success, output), EffectV::Persist]
        } else {
            Seq::empty()
        },
        _ => Seq::empty(),
    }
}

/// The message of a user's turn: the text, and the pictures that are not empty.
pub open spec fn user_parts(text: Seq<char>, images: Seq<Seq<char>>) -> Seq<PartV>
    decreases images.len(),
{
    if images.len() == 0 {
        seq![PartV::Text(text)]
    } else {
        let p = user_parts(text, images.drop_last());
        if images.last().len() > 0 {
            p.push(PartV::ImageData(images.last()))
        } else {
            p
        }
    }
}

/// The agent: the provider, the settings and the conversation.
#[derive(Debug)]
pub struct Agent {
    pub provider: ChatProvider,
    pub config: Config,
    /// The chat that this agent runs for; approval prompts go there.
    pub session: String,
    /// The project that this chat belongs to.
    pub project: ProjectContext,
    pub history: Vec<Msg>,
    pub stats: RunStats,
    pub calls: Vec<ToolCall>,
    pub phase: Phase,
}

fn provider_for(config: &Config) -> (r: ChatProvider)
    ensures
        speaks_for(r, config@),
{
    ChatProvider::new(
        config.base_url.clone(),
        config.api_key.clone(),
        config.model.clone(),
        config.temperature.text.clone(),
        config.active_reasoning_effort(),
    )
}

/// Whether a provider is the connection that the settings name.
pub open spec fn speaks_for(p: ChatProvider, c: ConfigV) -> bool {
    &&& p.base_url@ == crate::engine::provider::request::unslashed(c.base_url)
    &&& p.api_key@ == c.api_key
    &&& p.model@ == c.model
    &&& p.temperature@ == c.temperature.1
    &&& opt_text(p.reasoning_effort) == chosen_effort(active_effort(c))
    &&& p.session@.len() == 0
}

impl Agent {
    /// The turn that the agent is in.
    pub open spec fn run_view(&self) -> RunV {
        RunV {
            history: msgs(self.history@),
            stats: self.stats@,
            calls: calls_view(self.calls@),
            phase: self.phase,
            yolo: self.config.yolo,
        }
    }

    /// Whether nothing but the turn differs from `other`.
    pub open spec fn same_setting(&self, other: &Agent) -> bool {
        &&& self.provider == other.provider
        &&& self.config == other.config
        &&& self.session == other.session
        &&& self.project == other.project
    }

    pub fn new(config: Config) -> (r: Agent)
        ensures
            speaks_for(r.provider, config@),
            r.config == config,
            r.session@.len() == 0,
            r.project.name@.len() == 0,
            !r.project.scratch,
            !r.project.detached,
            r.history@.len() == 0,
            r.run_view() == (RunV {
                history: Seq::empty(),
                stats: fresh_stats(),
                calls: Seq::empty(),
                phase: Phase::Over,
                yolo: config.yolo,
            }),
    {
        let provider = provider_for(&config);
        let r = Agent {
            provider,
            config,
            session: String::new(),
            project: ProjectContext { name: String::new(), scratch: false, detached: false },
            history: Vec::new(),
            stats: RunStats::new(),
            calls: Vec::new(),
            phase: Phase::Over,
        };
        assert(r.run_view().history =~= Seq::empty());
        assert(r.run_view().calls =~= Seq::empty());
        r
    }

    /// Takes new settings; the conversation stays.
    pub fn reload(&mut self, config: Config)
        ensures
            speaks_for(final(self).provider, config@),
            final(self).config == config,
            final(self).run_view() == (RunV { yolo: config.yolo, ..old(self).run_view() }),
            final(self).session == old(self).session,
            final(self).project == old(self).project,
    {
        self.provider = provider_for(&config);
        self.config = config;
    }

    /// Forgets the conversation.
    pub fn reset(&mut self)
        ensures
            final(self).history@.len() == 0,
            final(self).run_view() == (RunV { history: Seq::empty(), ..old(self).run_view() }),
            final(self).same_setting(old(self)),
    {
        self.history.clear();
        assert(msgs(self.history@) =~= Seq::empty());
    }

    /// The conversation.
    pub fn history(&self) -> (r: Vec<Msg>)
        ensures
            msgs(r@) == msgs(self.history@),
    {
        let r = crate::engine::copy_msgs(&self.history, 0, self.history.len());
        assert(msgs(self.history@).subrange(0, self.history@.len() as int) =~= msgs(
            self.history@,
        ));
        r
    }

    pub fn set_history(&mut self, h: Vec<Msg>)
        ensures
            final(self).history == h,
            final(self).run_view() == (RunV { history: msgs(h@), ..old(self).run_view() }),
            final(self).same_setting(old(self)),
    {
        self.history = h;
    }

    /// Where this chat is working, spelled out for the model.
    pub fn project_block(&self) -> (r: String)
        ensures
            r@ == project_note(self.project, self.config.workspace@),
    {
        let ws = trim(self.config.workspace.as_str());
        let mut s = String::new();
        if self.project.scratch {
            s = "PROJECT: none. This chat lives in \"".to_string();
            s.append(named(self.project.name.as_str(), "Tasks").as_str());
            s.append("\", the area for one-off work that does not belong to any project.\nWorking folder (tools run here; relative paths resolve here): ");
            s.append(ws.as_str());
            s.append("\nThat folder is an empty scratch directory, not a codebase. There is no project, repository or existing code here: do not assume you are continuing any previous work, and do not guess at a project. If the request needs one, ask which folder to use or work from an absolute path the user gives you.");
        } else if self.project.detached {
            s = "PROJECT: unresolved. This chat is filed under \"".to_string();
            s.append(named(self.project.name.as_str(), "(unnamed)").as_str());
            s.append("\", but that is only where it is listed — the folder below is not that project's folder. The project it belonged to was deleted, or it was pointed somewhere else.\nWorking folder (tools run here; relative paths resolve here): ");
            s.append(ws.as_str());
            s.append("\nTrust the folder, not the label: the folder is the only reliable statement about where you are working. Look at it to see what it actually is, and do not claim or assume this chat belongs to any particular project.");
        } else {
            s = "PROJECT: ".to_string();
            s.append(named(self.project.name.as_str(), "(unnamed)").as_str());
            s.append("\nWorking folder (tools run here; relative paths resolve here): ");
            s.append(ws.as_str());
            s.append("\nThis chat is scoped to that project and only that project. Look in this folder to learn what it is instead of assuming — never work against a different project, repository or folder.");
        }
        s
    }

    /// Puts platform and project context at the top of the conversation, in place of any
    /// earlier copy. Done every turn: the message is stored with the history, and a chat whose
    /// folder has changed would otherwise quote the old one forever.
    pub fn sync_system(&mut self, platform: &Platform)
        ensures
            final(self).run_view() == (RunV {
                history: with_system(
                    old(self).run_view().history,
                    system_text(
                        *platform,
                        old(self).project,
                        old(self).config.workspace@,
                        old(self).config.system@,
                    ),
                ),
                ..old(self).run_view()
            }),
            final(self).same_setting(old(self)),
    {
        let mut body = platform_hint(platform);
        body.append("\n\n");
        body.append(AGENT_HINT);
        body.append("\n\n");
        body.append(self.project_block().as_str());
        let system = trim(self.config.system.as_str());
        proof {
            trim_is_empty_iff_blank(self.config.system@);
        }
        if system.as_str().unicode_len() > 0 {
            body.append("\n\n");
            body.append(system.as_str());
        }
        let ghost h = msgs(self.history@);
        let mut i: usize = 0;
        let mut found: bool = false;
        while !found && i < self.history.len()
            invariant
                i <= self.history.len(),
                h == msgs(self.history@),
                *self == *old(self),
                forall|j: int| 0 <= j < i ==> (#[trigger] h[j]).role != "system"@,
                found ==> i < self.history.len() && h[i as int].role == "system"@,
            decreases self.history.len() - i, !found as int,
        {
            assert(h[i as int] == self.history@[i as int]@);
            if same(self.history[i].role.as_str(), "system") {
                found = true;
            } else {
                i += 1;
            }
        }
        proof {
            first_system_is_first(h);
            if found {
                assert(first_system(h) == Some(i as int));
            }
        }
        let m = Msg::text("system", body.as_str());
        if found {
            self.history.set(i, m);
            assert(msgs(self.history@) =~= h.update(i as int, m@));
        } else {
            self.history.insert(0, m);
            assert(msgs(self.history@) =~= h.insert(0, m@));
        }
    }

    /// Begins a turn with what the user said. Its requests carry the id of the chat. The history
    /// has to be stored afterwards.
    pub fn begin(&mut self, user_text: &str, images: &Vec<String>, platform: &Platform)
        ensures
            final(self).run_view() == (RunV {
                history: with_system(
                    old(self).run_view().history,
                    system_text(
                        *platform,
                        old(self).project,
                        old(self).config.workspace@,
                        old(self).config.system@,
                    ),
                ).push(MsgV { role: "user"@, parts: user_parts(user_text@, texts(images@)) }),
                stats: fresh_stats(),
                calls: Seq::empty(),
                phase: Phase::Top,
                yolo: old(self).config.yolo,
            }),
            final(self).provider == (ChatProvider {
                session: final(self).provider.session,
                ..old(self).provider
            }),
            final(self).provider.session@ == old(self).session@,
            final(self).config == old(self).config,
            final(self).session == old(self).session,
            final(self).project == old(self).project,
    {
        self.provider.session = self.session.clone();
        self.sync_system(platform);
        let mut parts: Vec<Part> = Vec::new();
        parts.push(Part::Text(user_text.to_string()));
        let ghost im = texts(images@);
        let mut i: usize = 0;
        assert(parts_view(parts@) =~= user_parts(user_text@, im.take(0)));
        while i < images.len()
            invariant
                i <= images.len(),
                im == texts(images@),
                parts_view(parts@) == user_parts(user_text@, im.take(i as int)),
            decreases images.len() - i,
        {
            assert(im.take(i + 1).drop_last() =~= im.take(i as int));
            if images[i].as_str().unicode_len() > 0 {
                let ghost before = parts_view(parts@);
                parts.push(Part::ImageData(images[i].clone()));
                assert(parts_view(parts@) =~= before.push(PartV::ImageData(im[i as int])));
            }
            i += 1;
        }
        assert(im.take(im.len() as int) =~= im);
        let ghost h = msgs(self.history@);
        let m = Msg { role: "user".to_string(), parts };
        self.history.push(m);
        assert(msgs(self.history@) =~= h.push(m@));
        self.stats = RunStats::new();
        self.calls = Vec::new();
        assert(calls_view(self.calls@) =~= Seq::empty());
        self.phase = Phase::Top;
    }

    fn settle(&mut self, i: usize, output: String)
        requires
            i < old(self).calls.len(),
        ensures
            final(self).run_view() == settled(old(self).run_view(), i as int, output@),
            final(self).same_setting(old(self)),
    {
        let ghost h = msgs(self.history@);
        let m = Msg::tool_result(self.calls[i].id.as_str(), self.calls[i].name.as_str(), output);
        self.history.push(m);
        assert(msgs(self.history@) =~= h.push(m@));
        self.phase = Phase::Between(i + 1);
    }

    fn shown(&self, i: usize, success: bool, output: &str) -> (r: Effect)
        requires
            i < self.calls.len(),
        ensures
            r@ == result_shown(self.run_view(), i as int, success, output@),
    {
        Effect::ToolResult {
            id: self.calls[i].id.clone(),
            name: self.calls[i].name.clone(),
            success,
            output: output.to_string(),
        }
    }

    fn take_answer(&mut self, c: Completion, cancelled: bool, out: &mut Vec<Effect>)
        requires
            old(out)@.len() == 0,
        ensures
            final(self).run_view() == answered_run(old(self).run_view(), c@, cancelled),
            effects_view(final(out)@) == answered_effects(c@, cancelled),
            final(self).same_setting(old(self)),
    {
        let ghost s = self.run_view();
        let ghost cv = c@;
        let mut parts: Vec<Part> = Vec::new();
        if c.text.as_str().unicode_len() > 0 {
            parts.push(Part::Text(c.text.clone()));
        }
        if c.reasoning.as_str().unicode_len() > 0 {
            parts.push(Part::Reasoning(c.reasoning.clone()));
        }
        let ghost head = parts_view(parts@);
        let ghost tail = Seq::new(cv.tool_calls.len(), |i: int| PartV::ToolCall(cv.tool_calls[i]));
        assert(head + tail =~= answer_parts(cv));
        let mut i: usize = 0;
        assert(head + tail.take(0) =~= head);
        while i < c.tool_calls.len()
            invariant
                i <= c.tool_calls.len(),
                cv == c@,
                tail == Seq::new(cv.tool_calls.len(), |i: int| PartV::ToolCall(cv.tool_calls[i])),
                parts_view(parts@) == head + tail.take(i as int),
            decreases c.tool_calls.len() - i,
        {
            let ghost before = parts_view(parts@);
            parts.push(Part::ToolCall(c.tool_calls[i].clone()));
            assert(parts_view(parts@) =~= before.push(tail[i as int]));
            assert(before.push(tail[i as int]) =~= head + tail.take(i + 1));
            i += 1;
        }
        assert(tail.take(tail.len() as int) =~= tail);
        let produced: bool = parts.len() > 0;
        assert(parts_view(parts@).len() == parts@.len());
        if produced {
            let ghost h = msgs(self.history@);
            let m = Msg::assistant(parts);
            self.history.push(m);
            assert(msgs(self.history@) =~= h.push(m@));
        }
        if self.stats.steps < usize::MAX {
            self.stats.steps = self.stats.steps + 1;
        }
        self.stats.tokens_in = if c.usage.0 <= u64::MAX - self.stats.tokens_in {
            self.stats.tokens_in + c.usage.0
        } else {
            u64::MAX
        };
        self.stats.tokens_out = if c.usage.1 <= u64::MAX - self.stats.tokens_out {
            self.stats.tokens_out + c.usage.1
        } else {
            u64::MAX
        };
        if c.usage.0 > 0 {
            self.stats.context_tokens = c.usage.0;
        }
        let mut cost = c.cost;
        let ghost k0 = texts(self.stats.cost@);
        let ghost k1 = texts(cost@);
        self.stats.cost.append(&mut cost);
        assert(texts(self.stats.cost@) =~= k0 + k1);
        assert(self.stats@ == counted(s.stats, cv));
        assert(calls_view(c.tool_calls@).len() == c.tool_calls@.len());
        if !cancelled && c.tool_calls.len() > 0 {
            let mut j: usize = 0;
            while j < c.tool_calls.len()
                invariant
                    j <= c.tool_calls.len(),
                    cv.tool_calls == calls_view(c.tool_calls@),
                    out@.len() == j,
                    forall|q: int|
                        0 <= q < j ==> (#[trigger] out@[q])@ == EffectV::ToolCall(
                            cv.tool_calls[q],
                        ),
                decreases c.tool_calls.len() - j,
            {
                out.push(Effect::ToolCall(c.tool_calls[j].clone()));
                j += 1;
            }
        }
        if produced {
            out.push(Effect::MessageEnd);
            out.push(Effect::Persist);
        }
        if cancelled {
            self.stats.stopped = true;
            out.push(Effect::Summary);
            out.push(Effect::Done { stopped: true });
            self.phase = Phase::Over;
        } else if c.tool_calls.len() == 0 {
            out.push(Effect::Summary);
            out.push(Effect::Done { stopped: false });
            self.phase = Phase::Over;
        } else {
            self.calls = c.tool_calls;
            self.phase = Phase::Between(0);
        }
        assert(effects_view(out@) =~= answered_effects(cv, cancelled));
    }

    /// Takes an outcome that the turn was waiting for and says what is to be done for it, in
    /// order. What it was not waiting for changes nothing.
    pub fn step(&mut self, event: Event) -> (r: Vec<Effect>)
        ensures
            final(self).run_view() == stepped(old(self).run_view(), event@),
            effects_view(r@) == effects_of(old(self).run_view(), event@),
            final(self).same_setting(old(self)),
    {
        let ghost s = self.run_view();
        let ghost e = event@;
        let mut out: Vec<Effect> = Vec::new();
        assert(s.calls.len() == self.calls@.len());
        match (self.phase, event) {
            (Phase::Top, Event::Polled { cancelled }) => {
                if cancelled {
                    self.stats.stopped = true;
                    self.phase = Phase::Over;
                    out.push(Effect::Summary);
                    out.push(Effect::Done { stopped: true });
                } else {
                    let step: usize = if self.stats.steps < usize::MAX {
                        self.stats.steps + 1
                    } else {
                        self.stats.steps
                    };
                    out.push(Effect::Activity { tool: None, step });
                    self.phase = Phase::Asking;
                }
            },
            (Phase::Asking, Event::Failed { error }) => {
                let ghost h = msgs(self.history@);
                let m = Msg::error(error.as_str());
                self.history.push(m);
                assert(msgs(self.history@) =~= h.push(m@));
                self.stats.error = Some(error.clone());
                self.phase = Phase::Over;
                out.push(Effect::Persist);
                out.push(Effect::Error(error));
                out.push(Effect::Summary);
                out.push(Effect::Done { stopped: false });
            },
            (Phase::Asking, Event::Answered { completion, cancelled }) => {
                self.take_answer(completion, cancelled, &mut out);
            },
            (Phase::Between(i), Event::Polled { cancelled }) => {
                if i < self.calls.len() {
                    if cancelled {
                        out.push(self.shown(i, false, "Stopped by user"));
                        self.settle(i, "Stopped by user".to_string());
                    } else {
                        out.push(
                            Effect::Activity {
                                tool: Some(self.calls[i].name.clone()),
                                step: self.stats.steps,
                            },
                        );
                        self.phase = Phase::Guarding(i);
                    }
                } else if cancelled {
                    self.stats.stopped = true;
                    self.phase = Phase::Over;
                    out.push(Effect::Summary);
                    out.push(Effect::Done { stopped: true });
                } else {
                    self.phase = Phase::Top;
                }
            },
            (Phase::Guarding(i), Event::Guarded { refusal }) => {
                if i < self.calls.len() {
                    match refusal {
                        Some(reason) => {
                            out.push(self.shown(i, false, reason.as_str()));
                            self.settle(i, reason);
                        },
                        None => {
                            if is_risky(self.calls[i].name.as_str()) && !self.config.yolo {
                                self.phase = Phase::Approving(i);
                            } else {
                                self.phase = Phase::Running(i);
                            }
                        },
                    }
                }
            },
            (Phase::Approving(i), Event::Approved { approved, cancelled }) => {
                if i < self.calls.len() {
                    if approved {
                        self.phase = Phase::Running(i);
                    } else if cancelled {
                        out.push(self.shown(i, false, "Stopped by user"));
                        self.settle(i, "Stopped by user".to_string());
                    } else {
                        out.push(self.shown(i, false, "Denied by user"));
                        self.settle(i, "Denied by user".to_string());
                    }
                }
            },
            (Phase::Running(i), Event::Ran { success, output }) => {
                if i < self.calls.len() {
                    if self.stats.tool_calls < usize::MAX {
                        self.stats.tool_calls = self.stats.tool_calls + 1;
                    }
                    out.push(self.shown(i, success, output.as_str()));
                    self.settle(i, output);
                    out.push(Effect::Persist);
                }
            },
            _ => {},
        }
        assert(effects_view(out@) =~= effects_of(s, e));
        out
    }
}

// ---- what a person is shown ----------------------------------------------------------------------

/// The first 300 characters of a text, and an ellipsis where there are more.
pub open spec fn clipped(s: Seq<char>) -> Seq<char> {
    if s.len() <= 300 {
        s
    } else {
        s.take(300).push('…')
    }
}

/// What a call is about to do: its command, its path, or else all of its arguments.
pub open spec fn preview_of(arguments: JsonV) -> Seq<char> {
    let v = match arguments.field("command"@) {
        Some(v) => Some(v),
        None => arguments.field("path"@),
    };
    clipped(
        match v {
            Some(JsonV::Text(s)) => s,
            _ => written(arguments),
        },
    )
}

/// A short description of what a call is about to do, for the person who is asked about it.
pub fn tool_preview(tc: &ToolCall) -> (r: String)
    ensures
        r@ == preview_of(tc.arguments@),
{
    let v = match tc.arguments.get("command") {
        Some(v) => Some(v),
        None => tc.arguments.get("path"),
    };
    let raw: String = match v {
        Some(j) => match j.as_str() {
            Some(s) => s.clone(),
            None => render(&tc.arguments),
        },
        None => render(&tc.arguments),
    };
    let c = chars_of(raw.as_str());
    if c.len() <= 300 {
        return raw;
    }
    let mut s = string_of(&c, 0, 300);
    assert(s@ =~= raw@.take(300));
    s.push('…');
    s
}

// ---- what holds of every turn ----------------------------------------------------------------------

pub open spec fn call_ids(calls: Seq<ToolCallV>) -> Seq<Seq<char>> {
    Seq::new(calls.len(), |i: int| calls[i].id)
}

/// The first call of the last answer that nothing has come of yet.
pub open spec fn next_call(s: RunV) -> int {
    match s.phase {
        Phase::Between(i) => i as int,
        Phase::Guarding(i) => i as int,
        Phase::Approving(i) => i as int,
        Phase::Running(i) => i as int,
        _ => s.calls.len() as int,
    }
}

/// Whether every call in the history has a result there, or its turn is still to come.
pub open spec fn accounted_for(s: RunV) -> bool {
    &&& 0 <= next_call(s) <= s.calls.len()
    &&& all_in(called(s.history), answered(s.history) + call_ids(s.calls.skip(next_call(s))))
}

/// Whether an event stops a turn while the answer that came with it asks for calls: those
/// calls are kept without results.
pub open spec fn stopped_mid_answer(e: EventV) -> bool {
    e matches EventV::Answered { completion, cancelled } && cancelled
        && completion.tool_calls.len() > 0
}

proof fn ids_of_answer(calls: Seq<ToolCallV>, head: Seq<PartV>, n: int)
    requires
        0 <= n <= calls.len(),
        part_calls(head).len() == 0,
    ensures
        part_calls(head + Seq::new(n as nat, |i: int| PartV::ToolCall(calls[i]))) == call_ids(
            calls,
        ).take(n),
        part_results(head + Seq::new(n as nat, |i: int| PartV::ToolCall(calls[i])))
            == part_results(head),
    decreases n,
{
    let t = Seq::new(n as nat, |i: int| PartV::ToolCall(calls[i]));
    if n == 0 {
        assert(head + t =~= head);
        assert(call_ids(calls).take(0) =~= part_calls(head));
    } else {
        ids_of_answer(calls, head, n - 1);
        let t1 = Seq::new((n - 1) as nat, |i: int| PartV::ToolCall(calls[i]));
        assert((head + t).drop_last() =~= head + t1);
        assert(call_ids(calls).take(n) =~= call_ids(calls).take(n - 1).push(calls[n - 1].id));
    }
}

proof fn answer_calls(c: CompletionV)
    ensures
        part_calls(answer_parts(c)) == call_ids(c.tool_calls),
        part_results(answer_parts(c)).len() == 0,
{
    let text = if c.text.len() > 0 {
        seq![PartV::Text(c.text)]
    } else {
        Seq::empty()
    };
    let thought = if c.reasoning.len() > 0 {
        seq![PartV::Reasoning(c.reasoning)]
    } else {
        Seq::empty()
    };
    let head = text + thought;
    assert(part_calls(head).len() == 0 && part_results(head).len() == 0) by {
        reveal_with_fuel(part_calls, 4);
        reveal_with_fuel(part_results, 4);
    }
    ids_of_answer(c.tool_calls, head, c.tool_calls.len() as int);
    assert(call_ids(c.tool_calls).take(c.tool_calls.len() as int) =~= call_ids(c.tool_calls));
    assert(answer_parts(c) =~= head + Seq::new(
        c.tool_calls.len(),
        |i: int| PartV::ToolCall(c.tool_calls[i]),
    ));
}

proof fn one_message_more(h: Seq<MsgV>, m: MsgV)
    ensures
        called(h.push(m)) == called(h) + part_calls(m.parts),
        answered(h.push(m)) == answered(h) + part_results(m.parts),
{
    assert(h.push(m).drop_last() =~= h);
}

proof fn settling_accounts(s: RunV, i: int, output: Seq<char>)
    requires
        0 <= i < s.calls.len(),
        s.calls.len() <= usize::MAX,
        all_in(called(s.history), answered(s.history) + call_ids(s.calls.skip(i))),
    ensures
        accounted_for(settled(s, i, output)),
{
    let m = result_msg(s.calls[i].id, s.calls[i].name, output);
    let t = settled(s, i, output);
    one_message_more(s.history, m);
    assert(part_calls(m.parts).len() == 0 && part_results(m.parts) =~= seq![s.calls[i].id]) by {
        assert(m.parts.drop_last() =~= Seq::empty());
        reveal_with_fuel(part_calls, 2);
        reveal_with_fuel(part_results, 2);
    }
    assert(called(t.history) =~= called(s.history));
    let a = answered(s.history);
    let old_pool = a + call_ids(s.calls.skip(i));
    let new_pool = answered(t.history) + call_ids(t.calls.skip(i + 1));
    assert(call_ids(s.calls.skip(i)) =~= seq![s.calls[i].id] + call_ids(s.calls.skip(i + 1)));
    assert(new_pool =~= old_pool);
}

/// Every call that the model makes gets a result: what is accounted for stays so through every
/// step, except that stopping a turn just as an answer with calls comes in keeps those calls
/// without results.
pub proof fn every_call_is_answered(s: RunV, e: EventV)
    requires
        accounted_for(s),
        s.calls.len() <= usize::MAX,
        !stopped_mid_answer(e),
    ensures
        accounted_for(stepped(s, e)),
        stepped(s, e).phase is Over || stepped(s, e).phase is Top ==> all_in(
            called(stepped(s, e).history),
            answered(stepped(s, e).history),
        ),
{
    let t = stepped(s, e);
    assert(call_ids(s.calls.skip(s.calls.len() as int)) =~= Seq::empty());
    assert(answered(s.history) + Seq::<Seq<char>>::empty() =~= answered(s.history));
    match (s.phase, e) {
        (Phase::Asking, EventV::Failed { error }) => {
            let m = MsgV { role: "assistant"@, parts: seq![PartV::Error(error)] };
            one_message_more(s.history, m);
            assert(part_calls(m.parts).len() == 0 && part_results(m.parts).len() == 0) by {
                assert(m.parts.drop_last() =~= Seq::empty());
                reveal_with_fuel(part_calls, 2);
                reveal_with_fuel(part_results, 2);
            }
            assert(called(t.history) =~= called(s.history));
            assert(answered(t.history) =~= answered(s.history));
        },
        (Phase::Asking, EventV::Answered { completion, cancelled }) => {
            answer_calls(completion);
            let parts = answer_parts(completion);
            let m = MsgV { role: "assistant"@, parts };
            let ids = call_ids(completion.tool_calls);
            if parts.len() > 0 {
                one_message_more(s.history, m);
            } else {
                assert(ids.len() == 0);
                assert(called(s.history) + ids =~= called(s.history));
            }
            assert(called(t.history) == called(s.history) + ids);
            assert(answered(t.history) =~= answered(s.history));
            if completion.tool_calls.len() > 0 {
                assert(t.calls.skip(0) =~= completion.tool_calls);
                let pool = answered(t.history) + ids;
                assert forall|k: int| 0 <= k < called(t.history).len() implies pool.contains(
                    #[trigger] called(t.history)[k],
                ) by {
                    let id = called(t.history)[k];
                    if k < called(s.history).len() {
                        assert(called(s.history)[k] == id);
                        let j = choose|j: int| 0 <= j < answered(s.history).len() && answered(s.history)[j] == id;
                        assert(pool[j] == id);
                    } else {
                        let j = k - called(s.history).len();
                        assert(pool[answered(t.history).len() + j] == id);
                    }
                }
            } else {
                assert(called(t.history) =~= called(s.history));
                assert(call_ids(t.calls.skip(next_call(t))) =~= Seq::empty());
            }
        },
        (Phase::Between(i), EventV::Polled { cancelled }) => {
            if i < s.calls.len() && cancelled {
                settling_accounts(s, i as int, "Stopped by user"@);
            }
        },
        (Phase::Guarding(i), EventV::Guarded { refusal }) => {
            if i < s.calls.len() {
                if let Some(reason) = refusal {
                    settling_accounts(s, i as int, reason);
                }
            }
        },
        (Phase::Approving(i), EventV::Approved { approved, cancelled }) => {
            if i < s.calls.len() && !approved {
                settling_accounts(
                    s,
                    i as int,
                    if cancelled {
                        "Stopped by user"@
                    } else {
                        "Denied by user"@
                    },
                );
            }
        },
        (Phase::Running(i), EventV::Ran { success, output }) => {
            if i < s.calls.len() {
                settling_accounts(
                    RunV {
                        stats: StatsV { tool_calls: one_more(s.stats.tool_calls), ..s.stats },
                        ..s
                    },
                    i as int,
                    output,
                );
            }
        },
        _ => {},
    }
    assert(call_ids(t.calls.skip(t.calls.len() as int)) =~= Seq::empty());
    assert(answered(t.history) + Seq::<Seq<char>>::empty() =~= answered(t.history));
}

/// A turn only adds to the conversation.
pub proof fn history_only_grows(s: RunV, e: EventV)
    ensures
        stepped(s, e).history.len() >= s.history.len(),
        stepped(s, e).history.take(s.history.len() as int) == s.history,
{
    assert(stepped(s, e).history.take(s.history.len() as int) =~= s.history);
}

/// A call runs only when no guard refused it and, where a person is to be asked, that person
/// approved.
pub proof fn nothing_runs_unasked(s: RunV, e: EventV, i: usize)
    requires
        stepped(s, e).phase == Phase::Running(i),
        s.phase != Phase::Running(i),
    ensures
        i < s.calls.len(),
        risky(s.calls[i as int].name) && !s.yolo ==> s.phase == Phase::Approving(i) && (e matches
            EventV::Approved { approved, cancelled } && approved),
        s.phase == Phase::Guarding(i) || s.phase == Phase::Approving(i),
        s.phase == Phase::Guarding(i) ==> e == (EventV::Guarded { refusal: None }),
{
}

/// A person is asked only about a call that no guard refused.
pub proof fn guards_come_first(s: RunV, e: EventV, i: usize)
    requires
        stepped(s, e).phase == Phase::Approving(i),
        s.phase != Phase::Approving(i),
    ensures
        s.phase == Phase::Guarding(i),
        e == (EventV::Guarded { refusal: None }),
{
}

/// A turn that is over stays so.
pub proof fn over_is_over(s: RunV, e: EventV)
    requires
        s.phase is Over,
    ensures
        stepped(s, e) == s,
        effects_of(s, e).len() == 0,
{
}

// ---- what a turn is for ----------------------------------------------------------------------------

/// Whether a history has grown by one tool message that holds one result: that of this call, with
/// this content.
pub open spec fn grown_by_result(
    before: Seq<MsgV>,
    after: Seq<MsgV>,
    call: ToolCallV,
    content: Seq<char>,
) -> bool {
    &&& after.len() == before.len() + 1
    &&& after.drop_last() == before
    &&& after.last().role == "tool"@
    &&& after.last().parts.len() == 1
    &&& after.last().parts[0] == (PartV::ToolResult { id: call.id, name: call.name, content })
}

/// What a tool gave back goes into the conversation as it is, under the id and the name of its call,
/// and is what is shown, with whether it succeeded. It is counted, and the conversation is stored.
pub proof fn what_a_tool_gives_back_is_fed_back(s: RunV, i: usize, success: bool, output: Seq<char>)
    requires
        s.phase == Phase::Running(i),
        i < s.calls.len() <= usize::MAX,
    ensures
        ({
            let e = EventV::Ran { success, output };
            let t = stepped(s, e);
            let shown = EffectV::ToolResult {
                id: s.calls[i as int].id,
                name: s.calls[i as int].name,
                success,
                output,
            };
            &&& grown_by_result(s.history, t.history, s.calls[i as int], output)
            &&& effects_of(s, e) == seq![shown, EffectV::Persist]
            &&& s.stats.tool_calls < usize::MAX ==> t.stats.tool_calls == s.stats.tool_calls + 1
            &&& t.stats == (StatsV { tool_calls: t.stats.tool_calls, ..s.stats })
            &&& t.calls == s.calls
            &&& t.yolo == s.yolo
            &&& t.phase == Phase::Between((i + 1) as usize)
        }),
{
    let e = EventV::Ran { success, output };
    let t = stepped(s, e);
    assert(t.history.drop_last() =~= s.history);
}

/// A call that does not run gets a result all the same, which says why: the reason of the guard, or
/// that the user denied or stopped it. That is shown as a failure, and nothing is counted as run.
pub proof fn a_call_that_does_not_run_says_why(s: RunV, e: EventV, i: usize)
    requires
        i < s.calls.len() <= usize::MAX,
        (s.phase == Phase::Guarding(i) && (e matches EventV::Guarded { refusal } && refusal is Some))
            || (s.phase == Phase::Approving(i) && (e matches EventV::Approved {
            approved,
            cancelled,
        } && !approved)) || (s.phase == Phase::Between(i) && e == (EventV::Polled {
            cancelled: true,
        })),
    ensures
        ({
            let why = match e {
                EventV::Guarded { refusal } => refusal->Some_0,
                EventV::Approved { approved, cancelled } => if cancelled {
                    "Stopped by user"@
                } else {
                    "Denied by user"@
                },
                _ => "Stopped by user"@,
            };
            let t = stepped(s, e);
            &&& grown_by_result(s.history, t.history, s.calls[i as int], why)
            &&& effects_of(s, e) == seq![
                EffectV::ToolResult {
                    id: s.calls[i as int].id,
                    name: s.calls[i as int].name,
                    success: false,
                    output: why,
                },
            ]
            &&& t.stats == s.stats
            &&& t.calls == s.calls
            &&& t.phase == Phase::Between((i + 1) as usize)
        }),
{
    let t = stepped(s, e);
    assert(t.history.drop_last() =~= s.history);
}

/// Calls are taken one after the other: none is passed over, none is taken twice, and behind the
/// last the model is asked again.
pub proof fn calls_are_taken_in_order(s: RunV, e: EventV, i: usize)
    requires
        i < s.calls.len() <= usize::MAX,
    ensures
        s.phase == Phase::Between(i) && e == (EventV::Polled { cancelled: false }) ==> {
            &&& stepped(s, e).phase == Phase::Guarding(i)
            &&& stepped(s, e).history == s.history
            &&& effects_of(s, e) == seq![
                EffectV::Activity { tool: Some(s.calls[i as int].name), step: s.stats.steps },
            ]
        },
        s.phase == Phase::Guarding(i) && e == (EventV::Guarded { refusal: None }) ==> {
            &&& stepped(s, e).phase == Phase::Approving(i) || stepped(s, e).phase == Phase::Running(i)
            &&& stepped(s, e).history == s.history
            &&& stepped(s, e).phase == Phase::Approving(i) <==> !s.yolo && (s.calls[i as int].name
                == "powershell"@ || s.calls[i as int].name == "shell"@ || s.calls[i as int].name
                == "write_file"@)
        },
        s.phase == Phase::Approving(i) && (e matches EventV::Approved { approved, cancelled }
            && approved) ==> {
            &&& stepped(s, e).phase == Phase::Running(i)
            &&& stepped(s, e).history == s.history
        },
        s.phase == Phase::Between(s.calls.len() as usize) && e == (EventV::Polled {
            cancelled: false,
        }) ==> stepped(s, e).phase == Phase::Top && stepped(s, e).history == s.history,
        stepped(s, e).phase == s.phase || stepped(s, e).calls == s.calls || s.phase is Asking,
{
}

/// What the model answered goes into the conversation: its text, its thinking and every one of its
/// calls, in one message, in that order, and nothing else. Where it says nothing at all, there is no
/// message.
pub proof fn an_answer_is_kept_whole(s: RunV, c: CompletionV, cancelled: bool)
    requires
        s.phase is Asking,
    ensures
        ({
            let t = stepped(s, EventV::Answered { completion: c, cancelled });
            let said = (if c.text.len() > 0 {
                1int
            } else {
                0
            }) + (if c.reasoning.len() > 0 {
                1int
            } else {
                0
            });
            let m = t.history.last();
            if said + c.tool_calls.len() == 0 {
                t.history == s.history
            } else {
                &&& t.history.len() == s.history.len() + 1
                &&& t.history.drop_last() == s.history
                &&& m.role == "assistant"@
                &&& m.parts.len() == said + c.tool_calls.len()
                &&& c.text.len() > 0 ==> m.parts[0] == PartV::Text(c.text)
                &&& c.reasoning.len() > 0 ==> m.parts[said - 1] == PartV::Reasoning(c.reasoning)
                &&& forall|k: int|
                    0 <= k < c.tool_calls.len() ==> (#[trigger] m.parts[said + k])
                        == PartV::ToolCall(c.tool_calls[k])
            }
        }),
{
    let t = stepped(s, EventV::Answered { completion: c, cancelled });
    let p = answer_parts(c);
    let said = (if c.text.len() > 0 {
        1int
    } else {
        0
    }) + (if c.reasoning.len() > 0 {
        1int
    } else {
        0
    });
    assert(p.len() == said + c.tool_calls.len());
    assert forall|k: int| 0 <= k < c.tool_calls.len() implies (#[trigger] p[said + k])
        == PartV::ToolCall(c.tool_calls[k]) by {}
    if p.len() > 0 {
        assert(t.history.drop_last() =~= s.history);
    }
}

/// An answer with calls leads to these calls, all of them shown and none run yet; one without ends
/// the turn; and a stop ends it either way. Whatever was said is stored.
pub proof fn an_answer_leads_on(s: RunV, c: CompletionV, cancelled: bool)
    requires
        s.phase is Asking,
    ensures
        ({
            let e = EventV::Answered { completion: c, cancelled };
            let t = stepped(s, e);
            let fx = effects_of(s, e);
            let n = c.tool_calls.len() as int;
            let silent = n == 0 && c.text.len() == 0 && c.reasoning.len() == 0;
            &&& !cancelled && n > 0 ==> {
                &&& t.phase == Phase::Between(0)
                &&& t.calls == c.tool_calls
                &&& fx.len() == n + 2
                &&& forall|k: int|
                    0 <= k < n ==> (#[trigger] fx[k]) == EffectV::ToolCall(c.tool_calls[k])
                &&& fx[n] is MessageEnd
                &&& fx[n + 1] is Persist
            }
            &&& cancelled || n == 0 ==> {
                &&& t.phase is Over
                &&& t.calls == s.calls
                &&& silent ==> fx == seq![EffectV::Summary, EffectV::Done { stopped: cancelled }]
                &&& !silent ==> fx == seq![
                    EffectV::MessageEnd,
                    EffectV::Persist,
                    EffectV::Summary,
                    EffectV::Done { stopped: cancelled },
                ]
            }
            &&& t.stats.stopped == (cancelled || s.stats.stopped)
            &&& t.yolo == s.yolo
        }),
{
    let e = EventV::Answered { completion: c, cancelled };
    let fx = effects_of(s, e);
    let n = c.tool_calls.len() as int;
    assert(answer_parts(c).len() >= n);
    if !cancelled && n > 0 {
        assert(answer_parts(c).len() > 0);
        assert forall|k: int| 0 <= k < n implies (#[trigger] fx[k]) == EffectV::ToolCall(
            c.tool_calls[k],
        ) by {}
    } else if n == 0 && c.text.len() == 0 && c.reasoning.len() == 0 {
        assert(answer_parts(c).len() == 0);
        assert(fx =~= seq![EffectV::Summary, EffectV::Done { stopped: cancelled }]);
    } else {
        assert(answer_parts(c).len() > 0);
        assert(fx =~= seq![
            EffectV::MessageEnd,
            EffectV::Persist,
            EffectV::Summary,
            EffectV::Done { stopped: cancelled },
        ]);
    }
}

/// The tokens of all answers are added up; how full the window is, is what the last answer that says
/// so says; and every amount that was charged is kept.
pub proof fn answers_are_counted(s: RunV, c: CompletionV, cancelled: bool)
    requires
        s.phase is Asking,
    ensures
        ({
            let a = s.stats;
            let b = stepped(s, EventV::Answered { completion: c, cancelled }).stats;
            &&& a.steps < usize::MAX ==> b.steps == a.steps + 1
            &&& a.tokens_in + c.usage.0 <= u64::MAX ==> b.tokens_in == a.tokens_in + c.usage.0
            &&& a.tokens_out + c.usage.1 <= u64::MAX ==> b.tokens_out == a.tokens_out + c.usage.1
            &&& c.usage.0 > 0 ==> b.context_tokens == c.usage.0
            &&& c.usage.0 == 0 ==> b.context_tokens == a.context_tokens
            &&& b.cost.len() == a.cost.len() + c.cost.len()
            &&& b.cost.take(a.cost.len() as int) == a.cost
            &&& b.cost.skip(a.cost.len() as int) == c.cost
            &&& b.tool_calls == a.tool_calls
            &&& b.error == a.error
        }),
{
    let b = stepped(s, EventV::Answered { completion: c, cancelled }).stats;
    assert(b.cost.take(s.stats.cost.len() as int) =~= s.stats.cost);
    assert(b.cost.skip(s.stats.cost.len() as int) =~= c.cost);
}

/// A failure ends the turn. It stays in the conversation, in its own words, is shown and stored, and
/// is in the summary.
pub proof fn a_failure_is_kept_and_shown(s: RunV, error: Seq<char>)
    requires
        s.phase is Asking,
    ensures
        ({
            let e = EventV::Failed { error };
            let t = stepped(s, e);
            let fx = effects_of(s, e);
            &&& t.history.len() == s.history.len() + 1
            &&& t.history.drop_last() == s.history
            &&& t.history.last().role == "assistant"@
            &&& t.history.last().parts == seq![PartV::Error(error)]
            &&& t.stats.error == Some(error)
            &&& t.phase is Over
            &&& fx == seq![
                EffectV::Persist,
                EffectV::Error(error),
                EffectV::Summary,
                EffectV::Done { stopped: false },
            ]
            &&& t.stats == (StatsV { error: Some(error), ..s.stats })
            &&& t.yolo == s.yolo
        }),
{
    let e = EventV::Failed { error };
    let t = stepped(s, e);
    assert(t.history.drop_last() =~= s.history);
}

/// The model is asked unless the run was stopped, and a stop between steps ends the turn as stopped,
/// with its summary.
pub proof fn a_stop_is_heeded(s: RunV, cancelled: bool)
    requires
        s.phase is Top || s.phase == Phase::Between(s.calls.len() as usize),
        s.calls.len() <= usize::MAX,
    ensures
        ({
            let e = EventV::Polled { cancelled };
            let t = stepped(s, e);
            &&& t.history == s.history
            &&& cancelled ==> t.phase is Over && t.stats.stopped && effects_of(s, e) == seq![
                EffectV::Summary,
                EffectV::Done { stopped: true },
            ]
            &&& !cancelled ==> t.stats == s.stats && !(t.phase is Over)
            &&& !cancelled && s.phase is Top ==> t.phase is Asking && (s.stats.steps < usize::MAX
                ==> effects_of(s, e) == seq![
                EffectV::Activity { tool: None, step: (s.stats.steps + 1) as usize },
            ])
        }),
{
}

/// What the user said, and every picture that holds something, is in the user's message: the text
/// first, then the pictures in their order.
pub proof fn the_user_is_heard(text: Seq<char>, a: Seq<Seq<char>>, b: Seq<Seq<char>>, url: Seq<char>)
    ensures
        user_parts(text, Seq::empty()) == seq![PartV::Text(text)],
        url.len() > 0 ==> user_parts(text, seq![url]) == seq![
            PartV::Text(text),
            PartV::ImageData(url),
        ],
        user_parts(text, seq![Seq::<char>::empty()]) == seq![PartV::Text(text)],
        user_parts(text, a + b) == user_parts(text, a) + user_parts(text, b).skip(1),
    decreases b.len(),
{
    assert(seq![url].drop_last() =~= Seq::empty());
    assert(seq![Seq::<char>::empty()].drop_last() =~= Seq::empty());
    assert(user_parts(text, seq![url].drop_last()) == seq![PartV::Text(text)]);
    if url.len() > 0 {
        assert(user_parts(text, seq![url]) =~= seq![PartV::Text(text), PartV::ImageData(url)]);
    }
    if b.len() == 0 {
        assert(a + b =~= a);
        assert(user_parts(text, a + b) =~= user_parts(text, a) + user_parts(text, b).skip(1));
    } else {
        let d = b.drop_last();
        the_user_is_heard(text, a, d, url);
        user_text_first(text, d);
        user_text_first(text, b);
        assert((a + b).drop_last() =~= a + d);
        assert(user_parts(text, a + b) =~= user_parts(text, a) + user_parts(text, b).skip(1));
    }
}

proof fn user_text_first(text: Seq<char>, images: Seq<Seq<char>>)
    ensures
        user_parts(text, images).len() > 0,
        user_parts(text, images)[0] == PartV::Text(text),
    decreases images.len(),
{
    if images.len() > 0 {
        user_text_first(text, images.drop_last());
    }
}

/// The system message holds all that the model has to know: the machine, where the chat works and
/// under which name, how to do long work, and the user's own instructions, which stand last.
pub proof fn the_model_is_told_everything(
    platform: Platform,
    project: ProjectContext,
    workspace: Seq<char>,
    system: Seq<char>,
)
    ensures
        ({
            let t = system_text(platform, project, workspace, system);
            &&& within(platform.arch@, t)
            &&& !platform.windows ==> within(platform.os@, t)
            &&& within(trim_of(workspace), t)
            &&& !blank(project.name@) ==> within(trim_of(project.name@), t)
            &&& within(AGENT_HINT@, t)
            &&& !blank(system) ==> t.len() >= trim_of(system).len() && t.skip(
                t.len() - trim_of(system).len(),
            ) == trim_of(system)
            &&& project.scratch ==> within("PROJECT: none"@, t)
            &&& !project.scratch && project.detached ==> within("PROJECT: unresolved"@, t)
            &&& !project.scratch && !project.detached && !blank(project.name@) ==> within(
                "PROJECT: "@ + trim_of(project.name@) + "\n"@,
                t,
            )
        }),
{
    let t = system_text(platform, project, workspace, system);
    let pl = platform_note(platform);
    let pr = project_note(project, workspace);
    let nn = "\n\n"@;
    let end = if blank(system) {
        Seq::empty()
    } else {
        nn + trim_of(system)
    };
    assert(t =~= pl + nn + AGENT_HINT@ + nn + pr + end);
    between(Seq::empty(), pl, nn + AGENT_HINT@ + nn + pr + end, t);
    between(pl + nn, AGENT_HINT@, nn + pr + end, t);
    between(pl + nn + AGENT_HINT@ + nn, pr, end, t);
    let ws = trim_of(workspace);
    platform_is_named(platform);
    project_is_named(project, workspace);
    within_whole(platform.arch@, pl, t);
    if !platform.windows {
        within_whole(platform.os@, pl, t);
    }
    within_whole(ws, pr, t);
    if !blank(project.name@) {
        within_whole(trim_of(project.name@), pr, t);
    }
    if project.scratch {
        within_whole("PROJECT: none"@, pr, t);
    } else if project.detached {
        within_whole("PROJECT: unresolved"@, pr, t);
    } else if !blank(project.name@) {
        within_whole("PROJECT: "@ + trim_of(project.name@) + "\n"@, pr, t);
    }
    if !blank(system) {
        assert(t.skip(t.len() - trim_of(system).len()) =~= trim_of(system));
    }
}

proof fn platform_is_named(p: Platform)
    ensures
        within(p.arch@, platform_note(p)),
        !p.windows ==> within(p.os@, platform_note(p)),
{
    let t = platform_note(p);
    if p.windows {
        let a = "PLATFORM (auto-detected at startup): Windows ("@;
        between(a, p.arch@, t.skip((a.len() + p.arch@.len()) as int), t);
    } else {
        let a = "PLATFORM (auto-detected at startup): "@;
        let b = a + p.os@ + " on "@;
        between(a, p.os@, t.skip((a.len() + p.os@.len()) as int), t);
        between(b, p.arch@, t.skip((b.len() + p.arch@.len()) as int), t);
    }
}

proof fn project_is_named(p: ProjectContext, workspace: Seq<char>)
    ensures
        ({
            let t = project_note(p, workspace);
            &&& within(trim_of(workspace), t)
            &&& !blank(p.name@) ==> within(trim_of(p.name@), t)
            &&& p.scratch ==> within("PROJECT: none"@, t)
            &&& !p.scratch && p.detached ==> within("PROJECT: unresolved"@, t)
            &&& !p.scratch && !p.detached && !blank(p.name@) ==> within(
                "PROJECT: "@ + trim_of(p.name@) + "\n"@,
                t,
            )
        }),
{
    let t = project_note(p, workspace);
    let ws = trim_of(workspace);
    if p.scratch {
        let n = name_or(p.name@, "Tasks"@);
        let a = "PROJECT: none. This chat lives in \""@;
        let b = a + n
            + "\", the area for one-off work that does not belong to any project.\nWorking folder (tools run here; relative paths resolve here): "@;
        between(a, n, t.skip((a.len() + n.len()) as int), t);
        between(b, ws, t.skip((b.len() + ws.len()) as int), t);
        reveal_strlit("PROJECT: none");
        reveal_strlit("PROJECT: none. This chat lives in \"");
        assert(a.take(13) =~= "PROJECT: none"@);
        between(Seq::empty(), "PROJECT: none"@, t.skip(13), t);
    } else if p.detached {
        let n = name_or(p.name@, "(unnamed)"@);
        let a = "PROJECT: unresolved. This chat is filed under \""@;
        let b = a + n
            + "\", but that is only where it is listed — the folder below is not that project's folder. The project it belonged to was deleted, or it was pointed somewhere else.\nWorking folder (tools run here; relative paths resolve here): "@;
        between(a, n, t.skip((a.len() + n.len()) as int), t);
        between(b, ws, t.skip((b.len() + ws.len()) as int), t);
        reveal_strlit("PROJECT: unresolved");
        reveal_strlit("PROJECT: unresolved. This chat is filed under \"");
        assert(a.take(19) =~= "PROJECT: unresolved"@);
        between(Seq::empty(), "PROJECT: unresolved"@, t.skip(19), t);
    } else {
        let n = name_or(p.name@, "(unnamed)"@);
        let a = "PROJECT: "@;
        let mid =
            "\nWorking folder (tools run here; relative paths resolve here): "@;
        let b = a + n + mid;
        between(a, n, t.skip((a.len() + n.len()) as int), t);
        between(b, ws, t.skip((b.len() + ws.len()) as int), t);
        reveal_strlit("\n");
        reveal_strlit("\nWorking folder (tools run here; relative paths resolve here): ");
        let line = "PROJECT: "@ + n + "\n"@;
        assert(mid.take(1) =~= "\n"@);
        between(Seq::empty(), line, t.skip(line.len() as int), t);
    }
}

/// A person who is asked sees the beginning of what a call is about to do: its command where it has
/// one, or else its path, or else all of its arguments. Short text is shown whole, and a cut is
/// marked.
pub proof fn the_person_sees_what_is_asked(arguments: JsonV)
    ensures
        ({
            let shown = preview_of(arguments);
            let t = match arguments.field("command"@) {
                Some(JsonV::Text(c)) => c,
                Some(_) => written(arguments),
                None => match arguments.text_field("path"@) {
                    Some(p) => p,
                    None => written(arguments),
                },
            };
            &&& t.len() <= 300 ==> shown == t
            &&& t.len() > 300 ==> shown.len() == 301 && shown.take(300) == t.take(300)
                && shown.last() == '…'
        }),
{
    let shown = preview_of(arguments);
    let t = match arguments.field("command"@) {
        Some(JsonV::Text(c)) => c,
        Some(_) => written(arguments),
        None => match arguments.text_field("path"@) {
            Some(p) => p,
            None => written(arguments),
        },
    };
    if t.len() > 300 {
        assert(shown.take(300) =~= t.take(300));
    }
}

/// The model is told where it works at the top of every turn, in place of what it was told before;
/// what was said stays, in its order.
pub proof fn the_conversation_keeps_its_messages(h: Seq<MsgV>, body: Seq<char>)
    ensures
        ({
            let w = with_system(h, body);
            &&& w.filter(|m: MsgV| m.role != "system"@) == h.filter(|m: MsgV| m.role != "system"@)
            &&& exists|i: int|
                0 <= i < w.len() && (#[trigger] w[i]).role == "system"@ && w[i].parts == seq![
                    PartV::Text(body),
                ] && forall|j: int| 0 <= j < i ==> (#[trigger] w[j]).role != "system"@
        }),
{
    let said = |m: MsgV| m.role != "system"@;
    let w = with_system(h, body);
    let s = text_msg("system"@, body);
    first_system_is_first(h);
    assert(seq![s].drop_last() =~= Seq::<MsgV>::empty());
    assert(seq![s].filter(said) =~= Seq::<MsgV>::empty()) by {
        reveal(Seq::filter);
        assert(seq![s].drop_last().filter(said) =~= Seq::<MsgV>::empty());
    }
    assert(s.parts =~= seq![PartV::Text(body)]);
    match first_system(h) {
        Some(i) => {
            let a = h.take(i);
            let b = h.skip(i + 1);
            let o = seq![h[i]];
            assert(w =~= (a + seq![s]) + b);
            assert(h =~= (a + o) + b);
            assert(o.drop_last() =~= Seq::<MsgV>::empty());
            assert(o.filter(said) =~= Seq::<MsgV>::empty()) by {
                reveal(Seq::filter);
                assert(o.drop_last().filter(said) =~= Seq::<MsgV>::empty());
            }
            Seq::filter_distributes_over_add(a + seq![s], b, said);
            Seq::filter_distributes_over_add(a, seq![s], said);
            Seq::filter_distributes_over_add(a + o, b, said);
            Seq::filter_distributes_over_add(a, o, said);
            assert(w[i] == s);
            assert forall|j: int| 0 <= j < i implies (#[trigger] w[j]).role != "system"@ by {
                assert(w[j] == h[j]);
            }
        },
        None => {
            assert(w =~= seq![s] + h);
            Seq::filter_distributes_over_add(seq![s], h, said);
            assert(Seq::<MsgV>::empty() + h.filter(said) =~= h.filter(said));
            assert(w[0] == s);
        },
    }
}

/// A turn begins with nothing counted.
pub proof fn a_turn_begins_with_nothing_counted()
    ensures
        fresh_stats().steps == 0,
        fresh_stats().tool_calls == 0,
        fresh_stats().tokens_in == 0,
        fresh_stats().tokens_out == 0,
        fresh_stats().cost.len() == 0,
        fresh_stats().error is None,
        !fresh_stats().stopped,
{
}

/// An agent speaks to the provider that its settings name, with its key, on its model, and with the
/// level that was chosen for that.
pub proof fn an_agent_speaks_for_its_settings(p: ChatProvider, c: ConfigV)
    requires
        speaks_for(p, c),
    ensures
        p.api_key@ == c.api_key,
        p.model@ == c.model,
        p.temperature@ == c.temperature.1,
        c.base_url.len() > 0 && c.base_url.last() != '/' ==> p.base_url@ == c.base_url,
        active_effort(c) is None ==> p.reasoning_effort is None,
        active_effort(c) matches Some(e) ==> trim_of(e).len() > 0 ==> (p.reasoning_effort matches Some(
            s,
        ) && s@ == trim_of(e)),
{
    match active_effort(c) {
        Some(e) => {
            trim_is_empty_iff_blank(e);
        },
        None => {},
    }
}

/// Sums stop at the largest number, and are sums below it.
pub proof fn sums_stop_at_the_largest(a: u64, b: u64)
    ensures
        a + b <= u64::MAX ==> sum64(a, b) == a + b,
        a + b > u64::MAX ==> sum64(a, b) == u64::MAX,
{
}

/// What a turn is not waiting for changes nothing, and nothing is done for it.
pub proof fn what_is_not_waited_for_changes_nothing(s: RunV, e: EventV)
    requires
        !(match s.phase {
            Phase::Top => e is Polled,
            Phase::Asking => e is Answered || e is Failed,
            Phase::Between(i) => e is Polled,
            Phase::Guarding(i) => e is Guarded,
            Phase::Approving(i) => e is Approved,
            Phase::Running(i) => e is Ran,
            Phase::Over => false,
        }),
    ensures
        stepped(s, e) == s,
        effects_of(s, e).len() == 0,
{
}

/// While a turn asks, guards or waits for a person, nothing is said or counted, and nothing of the
/// turn changes but what it waits for.
pub proof fn waiting_changes_nothing_else(s: RunV, e: EventV)
    requires
        (s.phase is Top && e == (EventV::Polled { cancelled: false })) || (s.phase is Between && e == (
        EventV::Polled { cancelled: false })) || (s.phase is Guarding && e == (EventV::Guarded {
            refusal: None,
        })) || (s.phase is Approving && (e matches EventV::Approved { approved, cancelled }
            && approved)),
    ensures
        stepped(s, e) == (RunV { phase: stepped(s, e).phase, ..s }),
        s.phase is Guarding || s.phase is Approving ==> effects_of(s, e).len() == 0,
{
}

} // verus!
