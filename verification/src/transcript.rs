//! A chat's transcript: as it is shown, and as it is compacted.

use vstd::prelude::*;

use crate::engine::sessions::{system_messages, the_system_messages_are_all_there};
use crate::engine::{
    a_text_says_itself, checked_est_tokens, checked_keep_split, copy_msgs, est, keep_budget,
    longest_tail, longest_tail_facts, may_keep, msgs, off_tools, off_tools_facts, parts_chars,
    plain_text, speaking, speaking_of_both, split_keeps_the_longest_tail_that_fits,
    split_never_strands_a_tool_result, split_point, splittable, tail_est, text_msg, text_parts, Msg,
    MsgV, Part, PartV, COMPACTION_MARKER, KEEP_FLOOR, KEEP_RECENT, KEEP_SHARE, MIN_COMPACT_GAIN,
};
use crate::json::{a_field_reads_back, array, jsons, no_field_to_read, obj, object, Json, JsonV};
use crate::text::{
    after, between, blank, join, join_of, joined_alone, joined_within, same, texts, trim,
    trim_is_empty_iff_blank, within,
};

verus! {

// ---- what is shown -----------------------------------------------------------------------------------

/// The thoughts among parts.
pub open spec fn thoughts(parts: Seq<PartV>) -> Seq<Seq<char>>
    decreases parts.len(),
{
    if parts.len() == 0 {
        Seq::empty()
    } else {
        let p = thoughts(parts.drop_last());
        match parts.last() {
            PartV::Reasoning(t) => p.push(t),
            _ => p,
        }
    }
}

/// The failures among parts.
pub open spec fn failures(parts: Seq<PartV>) -> Seq<Seq<char>>
    decreases parts.len(),
{
    if parts.len() == 0 {
        Seq::empty()
    } else {
        let p = failures(parts.drop_last());
        match parts.last() {
            PartV::Error(t) => p.push(t),
            _ => p,
        }
    }
}

pub open spec fn summary_in(m: MsgV) -> Option<Seq<char>> {
    after(plain_text(m), COMPACTION_MARKER@)
}

/// The role that a message is shown in.
pub open spec fn shown_role(m: MsgV) -> Seq<char> {
    if summary_in(m) is Some {
        "compaction"@
    } else if m.role == "assistant"@ {
        "assistant"@
    } else if m.role == "tool"@ {
        "tool"@
    } else {
        "user"@
    }
}

pub open spec fn shown_content(m: MsgV) -> Seq<char> {
    match summary_in(m) {
        Some(s) => s,
        None => plain_text(m),
    }
}

/// Whether there is something to show of a message.
pub open spec fn shows(m: MsgV) -> bool {
    m.role != "system"@ && (shown_content(m).len() > 0 || join_of(thoughts(m.parts), "\n"@).len()
        > 0 || join_of(failures(m.parts), "\n"@).len() > 0)
}

pub open spec fn shown(m: MsgV) -> JsonV {
    obj().with_text("role"@, shown_role(m)).with_text("content"@, shown_content(m)).with_text(
        "reasoning"@,
        join_of(thoughts(m.parts), "\n"@),
    ).with_text("error"@, join_of(failures(m.parts), "\n"@))
}

/// The messages that are shown: no system messages, and none with nothing to show.
pub open spec fn transcript(h: Seq<MsgV>) -> Seq<JsonV>
    decreases h.len(),
{
    if h.len() == 0 {
        Seq::empty()
    } else {
        let p = transcript(h.drop_last());
        if shows(h.last()) {
            p.push(shown(h.last()))
        } else {
            p
        }
    }
}

fn collect_parts(m: &Msg) -> (r: (Vec<String>, Vec<String>))
    ensures
        texts(r.0@) == thoughts(m@.parts),
        texts(r.1@) == failures(m@.parts),
{
    let ghost p = m@.parts;
    let mut a: Vec<String> = Vec::new();
    let mut b: Vec<String> = Vec::new();
    let mut i: usize = 0;
    assert(texts(a@) =~= thoughts(p.take(0)));
    assert(texts(b@) =~= failures(p.take(0)));
    while i < m.parts.len()
        invariant
            i <= m.parts.len(),
            p == m@.parts,
            texts(a@) == thoughts(p.take(i as int)),
            texts(b@) == failures(p.take(i as int)),
        decreases m.parts.len() - i,
    {
        assert(p.take(i + 1).drop_last() =~= p.take(i as int));
        match &m.parts[i] {
            Part::Reasoning(t) => {
                let ghost before = texts(a@);
                a.push(t.clone());
                assert(texts(a@) =~= before.push(t@));
            },
            Part::Error(t) => {
                let ghost before = texts(b@);
                b.push(t.clone());
                assert(texts(b@) =~= before.push(t@));
            },
            _ => {},
        }
        i += 1;
    }
    assert(p.take(p.len() as int) =~= p);
    (a, b)
}

fn show(m: &Msg) -> (r: Option<Json>)
    ensures
        match r {
            Some(j) => shows(m@) && j@ == shown(m@),
            None => !shows(m@),
        },
{
    if same(m.role.as_str(), "system") {
        return None;
    }
    let summary = m.compaction_summary();
    let role: &str = if summary.is_some() {
        "compaction"
    } else if same(m.role.as_str(), "assistant") {
        "assistant"
    } else if same(m.role.as_str(), "tool") {
        "tool"
    } else {
        "user"
    };
    let content: String = match summary {
        Some(s) => s,
        None => m.plain_text_parts(),
    };
    let (a, b) = collect_parts(m);
    let reasoning = join(&a, "\n");
    let error = join(&b, "\n");
    if content.as_str().unicode_len() == 0 && reasoning.as_str().unicode_len() == 0
        && error.as_str().unicode_len() == 0 {
        return None;
    }
    Some(
        object().with_text("role", role).with_text("content", content.as_str()).with_text(
            "reasoning",
            reasoning.as_str(),
        ).with_text("error", error.as_str()),
    )
}

/// The messages that are shown of a history.
pub fn messages(hist: &Vec<Msg>) -> (r: Vec<Json>)
    ensures
        jsons(r@) == transcript(msgs(hist@)),
{
    let ghost h = msgs(hist@);
    let mut out: Vec<Json> = Vec::new();
    let mut i: usize = 0;
    assert(jsons(out@) =~= transcript(h.take(0)));
    while i < hist.len()
        invariant
            i <= hist.len(),
            h == msgs(hist@),
            jsons(out@) == transcript(h.take(i as int)),
        decreases hist.len() - i,
    {
        assert(h.take(i + 1).drop_last() =~= h.take(i as int));
        assert(h[i as int] == hist@[i as int]@);
        match show(&hist[i]) {
            Some(j) => {
                let ghost before = jsons(out@);
                out.push(j);
                assert(jsons(out@) =~= before.push(shown(h[i as int])));
            },
            None => {},
        }
        i += 1;
    }
    assert(h.take(h.len() as int) =~= h);
    out
}

/// The estimate of a whole history.
pub open spec fn total_est(h: Seq<MsgV>) -> nat
    decreases h.len(),
{
    if h.len() == 0 {
        0
    } else {
        total_est(h.drop_last()) + est(h.last())
    }
}

/// Whether a history can be weighed.
pub open spec fn weighable(h: Seq<MsgV>) -> bool {
    &&& forall|i: int| 0 <= i < h.len() ==> parts_chars((#[trigger] h[i]).parts) <= usize::MAX
    &&& total_est(h) <= u64::MAX
}

proof fn total_est_grows(h: Seq<MsgV>, n: int)
    requires
        0 <= n <= h.len(),
    ensures
        total_est(h.take(n)) <= total_est(h),
    decreases h.len() - n,
{
    if n < h.len() {
        total_est_grows(h, n + 1);
        assert(h.take(n + 1).drop_last() =~= h.take(n));
    } else {
        assert(h.take(n) =~= h);
    }
}

/// The rough number of tokens of a history, tool traffic included; none where it is too large to
/// count.
pub fn context_estimate(hist: &Vec<Msg>) -> (r: Option<u64>)
    ensures
        match r {
            Some(n) => weighable(msgs(hist@)) && n == total_est(msgs(hist@)),
            None => !weighable(msgs(hist@)),
        },
{
    let ghost h = msgs(hist@);
    let mut total: u64 = 0;
    let mut i: usize = 0;
    while i < hist.len()
        invariant
            i <= hist.len(),
            h == msgs(hist@),
            total == total_est(h.take(i as int)),
            forall|j: int| 0 <= j < i ==> parts_chars((#[trigger] h[j]).parts) <= usize::MAX,
        decreases hist.len() - i,
    {
        assert(h.take(i + 1).drop_last() =~= h.take(i as int));
        assert(h[i as int] == hist@[i as int]@);
        proof {
            total_est_grows(h, i + 1);
        }
        match checked_est_tokens(&hist[i]) {
            Some(t) => {
                if t as u64 > u64::MAX - total {
                    return None;
                }
                total = total + t as u64;
            },
            None => {
                return None;
            },
        }
        i += 1;
    }
    assert(h.take(h.len() as int) =~= h);
    Some(total)
}

/// A chat, as it is opened.
pub open spec fn chat_opened(
    h: Seq<MsgV>,
    model: Seq<char>,
    provider: Seq<char>,
    running: bool,
) -> JsonV {
    obj().with("messages"@, JsonV::Array(transcript(h))).with_text("model"@, model).with_text(
        "provider"@,
        provider,
    ).with("running"@, JsonV::Bool(running)).with(
        "context_estimate"@,
        JsonV::Unsigned(total_est(h) as u64),
    )
}

/// A chat, as it is opened.
pub fn get_session(
    hist: &Vec<Msg>,
    model: &str,
    provider: &str,
    running: bool,
) -> (r: Option<Json>)
    ensures
        match r {
            Some(j) => weighable(msgs(hist@)) && j@ == chat_opened(
                msgs(hist@),
                model@,
                provider@,
                running,
            ),
            None => !weighable(msgs(hist@)),
        },
{
    match context_estimate(hist) {
        Some(n) => Some(
            object().with("messages", array(messages(hist))).with_text("model", model).with_text(
                "provider",
                provider,
            ).with("running", Json::Bool(running)).with("context_estimate", Json::Unsigned(n)),
        ),
        None => None,
    }
}

// ---- compaction ----------------------------------------------------------------------------------------

pub open spec fn said_in(m: MsgV) -> Seq<char> {
    if m.role == "system"@ {
        Seq::empty()
    } else {
        "["@ + m.role + "]\n"@ + plain_text(m) + "\n\n"@
    }
}

/// The conversation as it is summarised.
pub open spec fn conversation(h: Seq<MsgV>) -> Seq<char>
    decreases h.len(),
{
    if h.len() == 0 {
        Seq::empty()
    } else {
        conversation(h.drop_last()) + said_in(h.last())
    }
}

pub open spec fn summary_request(h: Seq<MsgV>) -> Seq<char> {
    "Summarize the following conversation so far into a tight summary. Include: tasks completed, decisions made, key facts, files touched, and open questions. Output ONLY the summary text, no preamble.\n\n=== CONVERSATION ===\n"@
        + conversation(h)
}

/// Whether compaction would collapse enough to be worth a request.
pub open spec fn worth_compacting(h: Seq<MsgV>) -> bool {
    speaking(h).len() > KEEP_RECENT + MIN_COMPACT_GAIN
}

/// Where a history is split for compaction: nothing where it is not worth it, where it cannot be
/// split, or where everything would be kept.
pub open spec fn compaction_split(h: Seq<MsgV>, window: u64) -> Option<int> {
    if worth_compacting(h) && splittable(h) && split_point(h, window) > 0 {
        Some(split_point(h, window))
    } else {
        None
    }
}

fn count_speaking(hist: &Vec<Msg>) -> (r: usize)
    ensures
        r == speaking(msgs(hist@)).len(),
{
    let ghost h = msgs(hist@);
    let mut n: usize = 0;
    let mut i: usize = 0;
    while i < hist.len()
        invariant
            i <= hist.len(),
            n <= i,
            h == msgs(hist@),
            n == speaking(h.take(i as int)).len(),
        decreases hist.len() - i,
    {
        assert(h.take(i + 1).drop_last() =~= h.take(i as int));
        assert(h[i as int] == hist@[i as int]@);
        if !same(hist[i].role.as_str(), "system") {
            n += 1;
        }
        i += 1;
    }
    assert(h.take(h.len() as int) =~= h);
    n
}

/// Where a history is split for compaction, if it is worth one.
pub fn plan_compaction(hist: &Vec<Msg>, window: u64) -> (r: Option<usize>)
    ensures
        match r {
            Some(n) => compaction_split(msgs(hist@), window) == Some(n as int) && n
                <= hist@.len(),
            None => compaction_split(msgs(hist@), window) is None,
        },
{
    if count_speaking(hist) <= KEEP_RECENT + MIN_COMPACT_GAIN {
        return None;
    }
    match checked_keep_split(hist.as_slice(), window) {
        Some(n) => {
            proof {
                crate::engine::split_never_strands_a_tool_result(msgs(hist@), window);
            }
            if n == 0 {
                None
            } else {
                Some(n)
            }
        },
        None => None,
    }
}

/// What the model is asked, to summarise the messages before `split`.
pub fn summary_prompt(hist: &Vec<Msg>, split: usize) -> (r: Msg)
    requires
        split <= hist.len(),
    ensures
        r@ == text_msg("user"@, summary_request(msgs(hist@).take(split as int))),
{
    let ghost h = msgs(hist@);
    let ghost old_part = h.take(split as int);
    let mut t = "Summarize the following conversation so far into a tight summary. Include: tasks completed, decisions made, key facts, files touched, and open questions. Output ONLY the summary text, no preamble.\n\n=== CONVERSATION ===\n".to_string();
    let ghost head = t@;
    let mut i: usize = 0;
    assert(head + conversation(h.take(0)) =~= head);
    while i < split
        invariant
            i <= split <= hist.len(),
            h == msgs(hist@),
            t@ == head + conversation(h.take(i as int)),
        decreases split - i,
    {
        assert(h.take(i + 1).drop_last() =~= h.take(i as int));
        assert(h[i as int] == hist@[i as int]@);
        let ghost before = t@;
        if !same(hist[i].role.as_str(), "system") {
            let mut s = "[".to_string();
            s.append(hist[i].role.as_str());
            s.append("]\n");
            s.append(hist[i].plain_text_parts().as_str());
            s.append("\n\n");
            t.append(s.as_str());
        }
        assert(t@ =~= head + conversation(h.take(i + 1)));
        i += 1;
    }
    Msg::text("user", t.as_str())
}

/// A history with what was summarised replaced: the system messages, the summary, and what is
/// kept.
pub open spec fn compacted(h: Seq<MsgV>, split: int, summary: Seq<char>) -> Seq<MsgV> {
    system_messages(h).push(text_msg("user"@, COMPACTION_MARKER@ + summary)) + h.skip(split)
}

/// What a compaction comes to.
#[derive(Debug)]
pub enum Compaction {
    /// Nothing has changed, for a good reason.
    Left(Json),
    /// It failed, and nothing has changed.
    Failed(String),
    /// The history is replaced.
    Done(Vec<Msg>, Json),
}

pub open spec fn left_alone(n: int, stopped: bool) -> JsonV {
    let j = obj().with("messages"@, JsonV::Unsigned(n as u64)).with(
        "compacted"@,
        JsonV::Bool(false),
    );
    if stopped {
        j.with("stopped"@, JsonV::Bool(true))
    } else {
        j
    }
}

/// The report on a history that needs no compaction.
pub fn not_needed(hist: &Vec<Msg>) -> (r: Json)
    ensures
        r@ == left_alone(hist@.len() as int, false),
{
    object().with("messages", Json::Unsigned(hist.len() as u64)).with(
        "compacted",
        Json::Bool(false),
    )
}

fn system_of(hist: &Vec<Msg>) -> (r: Vec<Msg>)
    ensures
        msgs(r@) == system_messages(msgs(hist@)),
{
    let ghost h = msgs(hist@);
    let mut out: Vec<Msg> = Vec::new();
    let mut i: usize = 0;
    assert(msgs(out@) =~= system_messages(h.take(0)));
    while i < hist.len()
        invariant
            i <= hist.len(),
            h == msgs(hist@),
            msgs(out@) == system_messages(h.take(i as int)),
        decreases hist.len() - i,
    {
        assert(h.take(i + 1).drop_last() =~= h.take(i as int));
        assert(h[i as int] == hist@[i as int]@);
        if same(hist[i].role.as_str(), "system") {
            let ghost before = msgs(out@);
            out.push(hist[i].clone());
            assert(msgs(out@) =~= before.push(h[i as int]));
        }
        i += 1;
    }
    assert(h.take(h.len() as int) =~= h);
    out
}

/// Whether `r` is what a compaction comes to, given what the model was asked for a summary of, what
/// it said, and whether the compaction was stopped or a run has begun.
pub open spec fn comes_to(
    r: Compaction,
    h: Seq<MsgV>,
    split: int,
    summary: Seq<char>,
    cancelled: bool,
    running: bool,
) -> bool {
    match r {
        Compaction::Left(j) => cancelled && j@ == left_alone(h.len() as int, true),
        Compaction::Failed(e) => !cancelled && (if blank(summary) {
            e@ == "could not summarize"@
        } else {
            running && e@ == "chat is running"@
        }),
        Compaction::Done(out, j) => {
            let systems = system_messages(h).len();
            &&& !cancelled && !blank(summary) && !running
            &&& msgs(out@) == compacted(h, split, summary)
            &&& j@ == obj().with("messages"@, JsonV::Unsigned(out@.len() as u64)).with(
                "compacted"@,
                JsonV::Bool(true),
            ).with(
                "dropped"@,
                JsonV::Unsigned(
                    (if split > systems + 1 {
                        split - (systems + 1)
                    } else {
                        0
                    }) as u64,
                ),
            )
        },
    }
}

/// What becomes of a history once the model has been asked for a summary. Where the compaction
/// was stopped, or came to nothing, or a run has begun meanwhile, the history is left as it is.
pub fn finish_compaction(
    hist: &Vec<Msg>,
    split: usize,
    summary: &str,
    cancelled: bool,
    running: bool,
) -> (r: Compaction)
    requires
        split <= hist.len(),
    ensures
        comes_to(r, msgs(hist@), split as int, summary@, cancelled, running),
{
    if cancelled {
        return Compaction::Left(
            object().with("messages", Json::Unsigned(hist.len() as u64)).with(
                "compacted",
                Json::Bool(false),
            ).with("stopped", Json::Bool(true)),
        );
    }
    let t = trim(summary);
    proof {
        trim_is_empty_iff_blank(summary@);
    }
    if t.as_str().unicode_len() == 0 {
        return Compaction::Failed("could not summarize".to_string());
    }
    if running {
        return Compaction::Failed("chat is running".to_string());
    }
    let mut out = system_of(hist);
    let ghost systems = msgs(out@);
    assert(systems.len() == out@.len());
    let mut text = COMPACTION_MARKER.to_string();
    text.append(summary);
    let m = Msg::text("user", text.as_str());
    out.push(m);
    assert(msgs(out@) =~= systems.push(m@));
    let n: usize = out.len();
    let mut kept = copy_msgs(hist, split, hist.len());
    let ghost k = msgs(kept@);
    let ghost o = msgs(out@);
    assert(k =~= msgs(hist@).skip(split as int));
    out.append(&mut kept);
    assert(msgs(out@) =~= o + k);
    let dropped: u64 = if split > n {
        (split - n) as u64
    } else {
        0
    };
    let report = object().with("messages", Json::Unsigned(out.len() as u64)).with(
        "compacted",
        Json::Bool(true),
    ).with("dropped", Json::Unsigned(dropped));
    Compaction::Done(out, report)
}

/// Compaction keeps the recent tail as it is and every system message, and the summary can be
/// read back from the one message that it adds.
pub proof fn compaction_keeps_the_tail(h: Seq<MsgV>, split: int, summary: Seq<char>)
    requires
        0 <= split <= h.len(),
    ensures
        ({
            let c = compacted(h, split, summary);
            let n = system_messages(h).len() as int;
            &&& c.len() == n + 1 + (h.len() - split)
            &&& c.take(n) == system_messages(h)
            &&& c.skip(n + 1) == h.skip(split)
            &&& summary_in(c[n]) == Some(summary)
        }),
{
    let c = compacted(h, split, summary);
    let n = system_messages(h).len() as int;
    assert(c.take(n) =~= system_messages(h));
    assert(c.skip(n + 1) =~= h.skip(split));
    crate::engine::compaction_marker_round_trips(summary);
}

// ---- what a transcript is for --------------------------------------------------------------------------

/// The transcript of two histories, one behind the other, is that of the first and then that of the
/// second.
pub proof fn transcript_of_both(a: Seq<MsgV>, b: Seq<MsgV>)
    ensures
        transcript(a + b) == transcript(a) + transcript(b),
    decreases b.len(),
{
    if b.len() == 0 {
        assert(a + b =~= a);
        assert(transcript(a + b) =~= transcript(a) + transcript(b));
    } else {
        transcript_of_both(a, b.drop_last());
        assert((a + b).drop_last() =~= a + b.drop_last());
        assert(transcript(a + b) =~= transcript(a) + transcript(b));
    }
}

proof fn entries_of_one(m: MsgV)
    ensures
        transcript(seq![m]) == if shows(m) {
            seq![shown(m)]
        } else {
            Seq::empty()
        },
{
    assert(seq![m].drop_last() =~= Seq::empty());
    assert(transcript(seq![m].drop_last()) =~= Seq::empty());
    assert(transcript(seq![m]) =~= if shows(m) {
        seq![shown(m)]
    } else {
        Seq::empty()
    });
}

/// The entry of a message has its role, its content, its thinking and its failure, and nothing else.
proof fn fields_of_an_entry(m: MsgV)
    ensures
        shown(m).field("role"@) == Some(JsonV::Text(shown_role(m))),
        shown(m).field("content"@) == Some(JsonV::Text(shown_content(m))),
        shown(m).field("reasoning"@) == Some(JsonV::Text(join_of(thoughts(m.parts), "\n"@))),
        shown(m).field("error"@) == Some(JsonV::Text(join_of(failures(m.parts), "\n"@))),
{
    broadcast use a_field_reads_back, no_field_to_read;

    reveal_strlit("role");
    reveal_strlit("content");
    reveal_strlit("reasoning");
    reveal_strlit("error");
    let a = obj().with_text("role"@, shown_role(m));
    let b = a.with_text("content"@, shown_content(m));
    let c = b.with_text("reasoning"@, join_of(thoughts(m.parts), "\n"@));
    assert("role"@.len() == 4);
    assert("content"@.len() == 7);
    assert("reasoning"@.len() == 9);
    assert(a.field("content"@) is None);
    assert(b.field("content"@) == Some(JsonV::Text(shown_content(m))));
    assert(a.field("reasoning"@) is None);
    assert(b.field("reasoning"@) is None);
    assert(c.field("reasoning"@) == Some(JsonV::Text(join_of(thoughts(m.parts), "\n"@))));
}

/// A message that is no system message and says something is shown, once, with what it says, as
/// coming from whom it comes.
pub proof fn what_is_said_is_shown(m: MsgV)
    requires
        m.role != "system"@,
        plain_text(m).len() > 0,
        plain_text(m).len() < COMPACTION_MARKER@.len() || plain_text(m).take(
            COMPACTION_MARKER@.len() as int,
        ) != COMPACTION_MARKER@,
    ensures
        transcript(seq![m]).len() == 1,
        transcript(seq![m])[0].field("content"@) == Some(JsonV::Text(plain_text(m))),
        transcript(seq![m])[0].field("role"@) == Some(
            JsonV::Text(
                if m.role == "assistant"@ || m.role == "tool"@ {
                    m.role
                } else {
                    "user"@
                },
            ),
        ),
{
    entries_of_one(m);
    fields_of_an_entry(m);
}

/// A summary of compacted history is shown as one, without its marker.
pub proof fn a_summary_is_shown_without_its_marker(m: MsgV, summary: Seq<char>)
    requires
        m.role != "system"@,
        plain_text(m) == COMPACTION_MARKER@ + summary,
        summary.len() > 0,
    ensures
        transcript(seq![m]).len() == 1,
        transcript(seq![m])[0].field("content"@) == Some(JsonV::Text(summary)),
        transcript(seq![m])[0].field("role"@) == Some(JsonV::Text("compaction"@)),
{
    let t = plain_text(m);
    assert(t.take(COMPACTION_MARKER@.len() as int) =~= COMPACTION_MARKER@);
    assert(t.skip(COMPACTION_MARKER@.len() as int) =~= summary);
    entries_of_one(m);
    fields_of_an_entry(m);
}

proof fn thoughts_of_both(a: Seq<PartV>, b: Seq<PartV>)
    ensures
        thoughts(a + b) == thoughts(a) + thoughts(b),
        failures(a + b) == failures(a) + failures(b),
    decreases b.len(),
{
    if b.len() == 0 {
        assert(a + b =~= a);
        assert(thoughts(a + b) =~= thoughts(a) + thoughts(b));
        assert(failures(a + b) =~= failures(a) + failures(b));
    } else {
        thoughts_of_both(a, b.drop_last());
        assert((a + b).drop_last() =~= a + b.drop_last());
        assert(thoughts(a + b) =~= thoughts(a) + thoughts(b));
        assert(failures(a + b) =~= failures(a) + failures(b));
    }
}

proof fn thought_of_one(p: PartV)
    ensures
        p matches PartV::Reasoning(t) ==> thoughts(seq![p]) == seq![t] && failures(seq![p]).len() == 0,
        p matches PartV::Error(t) ==> failures(seq![p]) == seq![t] && thoughts(seq![p]).len() == 0,
        !(p is Reasoning) ==> thoughts(seq![p]).len() == 0,
        !(p is Error) ==> failures(seq![p]).len() == 0,
{
    assert(seq![p].drop_last() =~= Seq::empty());
    assert(thoughts(seq![p].drop_last()) =~= Seq::empty());
    assert(failures(seq![p].drop_last()) =~= Seq::empty());
    if p is Reasoning {
        assert(thoughts(seq![p]) =~= seq![p->Reasoning_0]);
    }
    if p is Error {
        assert(failures(seq![p]) =~= seq![p->Error_0]);
    }
}

/// Thinking and failures are shown too, whoever's they are and whatever else the message holds: each
/// in a field of its own.
pub proof fn thinking_and_failures_are_shown(m: MsgV, i: int)
    requires
        m.role != "system"@,
        0 <= i < m.parts.len(),
    ensures
        m.parts[i] matches PartV::Reasoning(t) ==> t.len() > 0 ==> transcript(seq![m]).len() == 1 && (
        transcript(seq![m])[0].field("reasoning"@) matches Some(JsonV::Text(all)) && within(t, all)),
        m.parts[i] matches PartV::Error(t) ==> t.len() > 0 ==> transcript(seq![m]).len() == 1 && (
        transcript(seq![m])[0].field("error"@) matches Some(JsonV::Text(all)) && within(t, all)),
{
    let a = m.parts.take(i);
    let b = m.parts.skip(i + 1);
    let x = seq![m.parts[i]];
    assert(m.parts =~= (a + x) + b);
    thoughts_of_both(a, x);
    thoughts_of_both(a + x, b);
    thought_of_one(m.parts[i]);
    entries_of_one(m);
    fields_of_an_entry(m);
    match m.parts[i] {
        PartV::Reasoning(t) => {
            let k = thoughts(a).len() as int;
            assert(thoughts(m.parts)[k] == t);
            joined_within(thoughts(m.parts), "\n"@, k);
        },
        PartV::Error(t) => {
            let k = failures(a).len() as int;
            assert(failures(m.parts)[k] == t);
            joined_within(failures(m.parts), "\n"@, k);
        },
        _ => {},
    }
}

/// A message of one thought, or of one failure, is shown with exactly that.
pub proof fn one_thought_is_shown_as_it_is(role: Seq<char>, t: Seq<char>)
    requires
        role != "system"@,
        t.len() > 0,
    ensures
        ({
            let thought = transcript(seq![MsgV { role, parts: seq![PartV::Reasoning(t)] }]);
            let failed = transcript(seq![MsgV { role, parts: seq![PartV::Error(t)] }]);
            &&& thought.len() == 1 && failed.len() == 1
            &&& thought[0].field("reasoning"@) == Some(JsonV::Text(t))
            &&& failed[0].field("error"@) == Some(JsonV::Text(t))
            &&& failed[0].field("reasoning"@) == Some(JsonV::Text(Seq::empty()))
            &&& thought[0].field("error"@) == Some(JsonV::Text(Seq::empty()))
        }),
{
    let x = MsgV { role, parts: seq![PartV::Reasoning(t)] };
    let y = MsgV { role, parts: seq![PartV::Error(t)] };
    thought_of_one(PartV::Reasoning(t));
    thought_of_one(PartV::Error(t));
    joined_alone(t, "\n"@);
    entries_of_one(x);
    entries_of_one(y);
    fields_of_an_entry(x);
    fields_of_an_entry(y);
    assert(thoughts(y.parts) =~= Seq::empty());
    assert(failures(x.parts) =~= Seq::empty());
    assert(join_of(Seq::empty(), "\n"@) =~= Seq::empty());
}

/// No system message is shown, and nothing is shown of a message that holds only calls, results and
/// pictures.
pub proof fn machinery_is_not_shown(m: MsgV)
    requires
        m.role == "system"@ || forall|i: int|
            0 <= i < m.parts.len() ==> ((#[trigger] m.parts[i]) is ToolCall || m.parts[i] is ToolResult
                || m.parts[i] is ImageData),
    ensures
        transcript(seq![m]).len() == 0,
{
    entries_of_one(m);
    if m.role != "system"@ {
        machinery_says_nothing(m.parts);
        assert(join_of(Seq::empty(), "\n"@) =~= Seq::empty());
        reveal_strlit("\u{2063}[e:compacted]\n");
        assert(plain_text(m).len() == 0);
    }
}

proof fn machinery_says_nothing(parts: Seq<PartV>)
    requires
        forall|i: int|
            0 <= i < parts.len() ==> ((#[trigger] parts[i]) is ToolCall || parts[i] is ToolResult
                || parts[i] is ImageData),
    ensures
        text_parts(parts) == Seq::<Seq<char>>::empty(),
        thoughts(parts) == Seq::<Seq<char>>::empty(),
        failures(parts) == Seq::<Seq<char>>::empty(),
    decreases parts.len(),
{
    if parts.len() > 0 {
        assert forall|i: int| 0 <= i < parts.drop_last().len() implies ((
        #[trigger] parts.drop_last()[i]) is ToolCall || parts.drop_last()[i] is ToolResult
            || parts.drop_last()[i] is ImageData) by {
            assert(parts.drop_last()[i] == parts[i]);
        }
        machinery_says_nothing(parts.drop_last());
        assert(parts.last() == parts[parts.len() - 1]);
    }
}

/// Every message of a history stands in the transcript in its place: behind what is shown of the
/// messages before it, and before what is shown of those behind it.
pub proof fn every_message_is_shown_in_its_place(h: Seq<MsgV>, i: int)
    requires
        0 <= i < h.len(),
    ensures
        transcript(h) == transcript(h.take(i)) + transcript(seq![h[i]]) + transcript(h.skip(i + 1)),
        ({
            let t = plain_text(h[i]);
            let k = transcript(h.take(i)).len() as int;
            let marker = COMPACTION_MARKER@;
            h[i].role != "system"@ && t.len() > 0 ==> {
                &&& t.len() < marker.len() || t.take(marker.len() as int) != marker ==> k
                    < transcript(h).len() && transcript(h)[k].field("content"@) == Some(
                    JsonV::Text(t),
                )
                &&& t.len() > marker.len() && t.take(marker.len() as int) == marker ==> k
                    < transcript(h).len() && transcript(h)[k].field("content"@) == Some(
                    JsonV::Text(t.skip(marker.len() as int)),
                )
            }
        }),
{
    assert(h =~= (h.take(i) + seq![h[i]]) + h.skip(i + 1));
    transcript_of_both(h.take(i), seq![h[i]]);
    transcript_of_both(h.take(i) + seq![h[i]], h.skip(i + 1));
    let t = plain_text(h[i]);
    let marker = COMPACTION_MARKER@;
    if h[i].role != "system"@ && t.len() > 0 {
        if t.len() < marker.len() || t.take(marker.len() as int) != marker {
            what_is_said_is_shown(h[i]);
        } else if t.len() > marker.len() {
            let summary = t.skip(marker.len() as int);
            assert(t =~= marker + summary);
            a_summary_is_shown_without_its_marker(h[i], summary);
        }
    }
}

/// What a history weighs is what its messages weigh, each counted once, and no kind of part or role
/// is left out.
pub proof fn weights_add_up(a: Seq<MsgV>, b: Seq<MsgV>, m: MsgV)
    ensures
        total_est(a + b) == total_est(a) + total_est(b),
        total_est(seq![m]) == parts_chars(m.parts) / 4,
        total_est(Seq::empty()) == 0,
    decreases b.len(),
{
    assert(seq![m].drop_last() =~= Seq::empty());
    assert(total_est(seq![m].drop_last()) == 0);
    if b.len() == 0 {
        assert(a + b =~= a);
    } else {
        weights_add_up(a, b.drop_last(), m);
        assert((a + b).drop_last() =~= a + b.drop_last());
    }
}

// ---- what compaction is for ----------------------------------------------------------------------------

/// The conversation of two histories, one behind the other, is that of the first and then that of
/// the second.
pub proof fn conversation_of_both(a: Seq<MsgV>, b: Seq<MsgV>)
    ensures
        conversation(a + b) == conversation(a) + conversation(b),
    decreases b.len(),
{
    if b.len() == 0 {
        assert(a + b =~= a);
        assert(conversation(a + b) =~= conversation(a) + conversation(b));
    } else {
        conversation_of_both(a, b.drop_last());
        assert((a + b).drop_last() =~= a + b.drop_last());
        assert(conversation(a + b) =~= conversation(a) + conversation(b));
    }
}

/// Whoever speaks, a message is told under its role with all that it says; only system messages are
/// left out.
pub proof fn a_message_is_told_whole(m: MsgV)
    ensures
        m.role != "system"@ ==> conversation(seq![m]) == "["@ + m.role + "]\n"@ + plain_text(m)
            + "\n\n"@,
        m.role == "system"@ ==> conversation(seq![m]) == Seq::<char>::empty(),
{
    assert(seq![m].drop_last() =~= Seq::empty());
    assert(conversation(seq![m].drop_last()) =~= Seq::empty());
    if m.role != "system"@ {
        assert(conversation(seq![m]) =~= "["@ + m.role + "]\n"@ + plain_text(m) + "\n\n"@);
    } else {
        assert(conversation(seq![m]) =~= Seq::<char>::empty());
    }
}

/// The model is asked to summarise every message before the split that is no system message: each
/// stands in the request under its role, in the order of the history, and what is kept is not in it.
pub proof fn all_that_is_dropped_is_summarised(h: Seq<MsgV>, split: int, i: int)
    requires
        0 <= i < split <= h.len(),
        h[i].role != "system"@,
    ensures
        ({
            let asked = plain_text(text_msg("user"@, summary_request(h.take(split))));
            let told = "["@ + h[i].role + "]\n"@ + plain_text(h[i]) + "\n\n"@;
            &&& within(told, asked)
            &&& asked == summary_request(h.take(i)) + told + conversation(
                h.subrange(i + 1, split),
            )
        }),
{
    let x = h.take(split);
    let told = "["@ + h[i].role + "]\n"@ + plain_text(h[i]) + "\n\n"@;
    assert(x =~= (h.take(i) + seq![h[i]]) + h.subrange(i + 1, split));
    conversation_of_both(h.take(i), seq![h[i]]);
    conversation_of_both(h.take(i) + seq![h[i]], h.subrange(i + 1, split));
    a_message_is_told_whole(h[i]);
    a_text_says_itself("user"@, summary_request(x));
    let asked = summary_request(x);
    assert(asked =~= summary_request(h.take(i)) + told + conversation(h.subrange(i + 1, split)));
    between(summary_request(h.take(i)), told, conversation(h.subrange(i + 1, split)), asked);
}

/// Compaction comes into question only where enough messages speak, and then splits before the
/// message at which the kept tail begins, which is never a tool message: at least the latest
/// messages that always stay are behind the split.
pub proof fn compaction_is_worth_it(h: Seq<MsgV>, window: u64)
    requires
        compaction_split(h, window) is Some,
    ensures
        ({
            let n = compaction_split(h, window)->Some_0;
            &&& 0 < n < h.len()
            &&& h[n].role != "tool"@
            &&& h.len() - n >= KEEP_FLOOR
            &&& h.filter(|m: MsgV| m.role != "system"@).len() > KEEP_RECENT + MIN_COMPACT_GAIN
        }),
{
    let n = compaction_split(h, window)->Some_0;
    split_never_strands_a_tool_result(h, window);
    let s = speaking(h);
    assert(may_keep(s, 0, keep_budget(window)));
    split_keeps_the_longest_tail_that_fits(h, window, 0);
    let kept = longest_tail(s, 0, keep_budget(window));
    off_tools_is_below(h, h.len() - kept);
    speaking_is_a_filter(h);
}

proof fn off_tools_is_below(h: Seq<MsgV>, s: int)
    ensures
        off_tools(h, s) <= s,
    decreases s,
{
    if s > 0 && h[s].role == "tool"@ {
        off_tools_is_below(h, s - 1);
    }
}

proof fn speaking_is_a_filter(h: Seq<MsgV>)
    ensures
        speaking(h) == h.filter(|m: MsgV| m.role != "system"@),
    decreases h.len(),
{
    reveal(Seq::filter);
    if h.len() > 0 {
        speaking_is_a_filter(h.drop_last());
    }
}

/// After compaction the model still knows all of it: each system message, the summary, and each
/// message from the split on, unchanged and in order.
pub proof fn compaction_forgets_nothing(h: Seq<MsgV>, split: int, summary: Seq<char>, i: int)
    requires
        0 <= split <= h.len(),
        0 <= i < h.len(),
    ensures
        h[i].role == "system"@ || i >= split ==> compacted(h, split, summary).contains(h[i]),
        exists|k: int|
            0 <= k < compacted(h, split, summary).len() && plain_text(
                #[trigger] compacted(h, split, summary)[k],
            ) == COMPACTION_MARKER@ + summary && compacted(h, split, summary)[k].role == "user"@,
{
    let c = compacted(h, split, summary);
    let n = system_messages(h).len() as int;
    let t = COMPACTION_MARKER@ + summary;
    a_text_says_itself("user"@, t);
    assert(c[n] == text_msg("user"@, t));
    if i >= split {
        assert(c[n + 1 + (i - split)] == h[i]);
    }
    if h[i].role == "system"@ {
        system_messages_hold(h, i);
        let k = choose|k: int| 0 <= k < system_messages(h).len() && system_messages(h)[k] == h[i];
        assert(c[k] == h[i]);
    }
}

proof fn system_messages_hold(h: Seq<MsgV>, i: int)
    requires
        0 <= i < h.len(),
        h[i].role == "system"@,
    ensures
        system_messages(h).contains(h[i]),
    decreases h.len(),
{
    let s = system_messages(h);
    if i == h.len() - 1 {
        assert(s[s.len() - 1] == h[i]);
    } else {
        system_messages_hold(h.drop_last(), i);
        let p = system_messages(h.drop_last());
        let k = choose|k: int| 0 <= k < p.len() && p[k] == h[i];
        assert(s[k] == h[i]);
    }
}

/// A report on a history that was left alone says how many messages it has, and that it was not
/// compacted; one on a compaction that was stopped says that too.
pub proof fn a_report_says_that_nothing_changed(n: u64)
    ensures
        left_alone(n as int, false).field("messages"@) == Some(JsonV::Unsigned(n)),
        left_alone(n as int, true).field("messages"@) == Some(JsonV::Unsigned(n)),
        left_alone(n as int, false).field("compacted"@) == Some(JsonV::Bool(false)),
        left_alone(n as int, true).field("compacted"@) == Some(JsonV::Bool(false)),
        left_alone(n as int, true).field("stopped"@) == Some(JsonV::Bool(true)),
        left_alone(n as int, false).field("stopped"@) is None,
{
    broadcast use a_field_reads_back, no_field_to_read;

    reveal_strlit("messages");
    reveal_strlit("compacted");
    reveal_strlit("stopped");
    assert("messages"@.len() == 8);
    assert("compacted"@.len() == 9);
    assert("stopped"@.len() == 7);
}

/// A history with enough to collapse is compacted, wherever it can be split; one with less is not.
pub proof fn a_long_history_is_compacted(h: Seq<MsgV>, window: u64)
    ensures
        h.filter(|m: MsgV| m.role != "system"@).len() > KEEP_RECENT + MIN_COMPACT_GAIN && splittable(h)
            && split_point(h, window) > 0 ==> compaction_split(h, window) == Some(
            split_point(h, window),
        ),
        h.filter(|m: MsgV| m.role != "system"@).len() <= KEEP_RECENT + MIN_COMPACT_GAIN
            ==> compaction_split(h, window) is None,
{
    speaking_is_a_filter(h);
}

/// A history can be weighed unless one of its messages, or all of them together, are too large to
/// count; and can be split where each can be weighed and someone speaks.
pub proof fn what_can_be_weighed(h: Seq<MsgV>, m: MsgV)
    ensures
        weighable(h) <==> total_est(h) <= u64::MAX && forall|i: int|
            0 <= i < h.len() ==> parts_chars((#[trigger] h[i]).parts) <= usize::MAX,
        h.contains(m) && m.role != "system"@ && (forall|i: int|
            0 <= i < h.len() ==> parts_chars((#[trigger] h[i]).parts) <= usize::MAX) ==> splittable(h),
{
    if h.contains(m) && m.role != "system"@ {
        let i = choose|i: int| 0 <= i < h.len() && h[i] == m;
        let a = h.take(i);
        let b = h.skip(i + 1);
        assert(h =~= (a + seq![m]) + b);
        speaking_of_both(a, seq![m], m);
        speaking_of_both(a + seq![m], b, m);
        assert(speaking(h).len() > 0);
    }
}

/// What is kept is the longest tail that fits: its weight is that of its messages.
pub proof fn the_weight_of_a_tail(h: Seq<MsgV>, k: int)
    requires
        0 <= k <= h.len(),
    ensures
        tail_est(h, k) == total_est(h.skip(h.len() - k)),
    decreases k,
{
    if k > 0 {
        the_weight_of_a_tail(h, k - 1);
        let t = h.skip(h.len() - k);
        let m = h[h.len() - k];
        assert(t =~= seq![m] + h.skip(h.len() - (k - 1)));
        weights_add_up(seq![m], h.skip(h.len() - (k - 1)), m);
    } else {
        assert(h.skip(h.len() as int) =~= Seq::empty());
    }
}

/// What an entry shows of any message: its text, or the summary where it is one; its thinking and
/// its failures, each on lines of their own; and from whom it comes. A message with none of these,
/// and a system message, has no entry.
pub proof fn an_entry_is_the_message(m: MsgV)
    ensures
        ({
            let t = plain_text(m);
            let marker = COMPACTION_MARKER@;
            let summed = t.len() >= marker.len() && t.take(marker.len() as int) == marker;
            let body = if summed {
                t.skip(marker.len() as int)
            } else {
                t
            };
            let thought = join_of(
                m.parts.filter_map(
                    |p: PartV|
                        match p {
                            PartV::Reasoning(r) => Some(r),
                            _ => None,
                        },
                ),
                "\n"@,
            );
            let failed = join_of(
                m.parts.filter_map(
                    |p: PartV|
                        match p {
                            PartV::Error(r) => Some(r),
                            _ => None,
                        },
                ),
                "\n"@,
            );
            let entries = transcript(seq![m]);
            if m.role == "system"@ || (body.len() == 0 && thought.len() == 0 && failed.len() == 0) {
                entries.len() == 0
            } else {
                &&& entries.len() == 1
                &&& entries[0].field("content"@) == Some(JsonV::Text(body))
                &&& entries[0].field("reasoning"@) == Some(JsonV::Text(thought))
                &&& entries[0].field("error"@) == Some(JsonV::Text(failed))
                &&& entries[0].field("role"@) == Some(
                    JsonV::Text(
                        if summed {
                            "compaction"@
                        } else if m.role == "assistant"@ || m.role == "tool"@ {
                            m.role
                        } else {
                            "user"@
                        },
                    ),
                )
            }
        }),
{
    entries_of_one(m);
    fields_of_an_entry(m);
    thoughts_are_all_there(m.parts);
}

proof fn thoughts_are_all_there(parts: Seq<PartV>)
    ensures
        thoughts(parts) == parts.filter_map(
            |p: PartV|
                match p {
                    PartV::Reasoning(r) => Some(r),
                    _ => None,
                },
        ),
        failures(parts) == parts.filter_map(
            |p: PartV|
                match p {
                    PartV::Error(r) => Some(r),
                    _ => None,
                },
        ),
    decreases parts.len(),
{
    if parts.len() > 0 {
        let d = parts.drop_last();
        thoughts_are_all_there(d);
        match parts.last() {
            PartV::Reasoning(r) => {
                assert(thoughts(d).push(r) =~= thoughts(d) + seq![r]);
            },
            PartV::Error(r) => {
                assert(failures(d).push(r) =~= failures(d) + seq![r]);
            },
            _ => {},
        }
    }
}

/// What compaction keeps is the longest tail of what was said that fits: at least six messages, at
/// most forty, and more than six only while they weigh no more than their share of the window. The
/// split is where that tail begins, or further back by the tool messages in between.
pub proof fn the_split_keeps_what_fits(h: Seq<MsgV>, window: u64)
    requires
        splittable(h),
        h.len() > 0,
    ensures
        ({
            let s = h.filter(|m: MsgV| m.role != "system"@);
            let budget = window as int * KEEP_SHARE as int / 100;
            let n = split_point(h, window);
            exists|kept: int|
                0 < kept <= s.len() && (kept <= KEEP_FLOOR || (kept <= KEEP_RECENT && #[trigger] total_est(
                    s.skip(s.len() - kept),
                ) <= budget)) && (kept < s.len() ==> kept >= KEEP_FLOOR && (kept >= KEEP_RECENT
                    || total_est(s.skip(s.len() - (kept + 1))) > budget)) && n <= h.len() - kept
                    && forall|q: int| n < q <= h.len() - kept ==> (#[trigger] h[q]).role == "tool"@
        }),
{
    let s = speaking(h);
    speaking_is_a_filter(h);
    let budget = keep_budget(window);
    longest_tail_facts(s, 0, budget);
    let kept = longest_tail(s, 0, budget);
    assert(may_keep(s, 1, budget));
    split_keeps_the_longest_tail_that_fits(h, window, 1);
    split_never_strands_a_tool_result(h, window);
    speaking_is_no_longer(h);
    off_tools_facts(h, h.len() - kept);
    the_weight_of_a_tail(s, kept);
    if kept < s.len() {
        the_weight_of_a_tail(s, kept + 1);
    }
    assert(total_est(s.skip(s.len() - kept)) == tail_est(s, kept));
}

proof fn speaking_is_no_longer(h: Seq<MsgV>)
    ensures
        speaking(h).len() <= h.len(),
    decreases h.len(),
{
    if h.len() > 0 {
        speaking_is_no_longer(h.drop_last());
    }
}

/// A chat that is opened shows its whole transcript, its model and provider, whether it runs, and how
/// full it is.
pub proof fn an_opened_chat_shows_all(h: Seq<MsgV>, model: Seq<char>, provider: Seq<char>, running: bool)
    requires
        weighable(h),
    ensures
        ({
            let j = chat_opened(h, model, provider, running);
            &&& j.field("messages"@) == Some(JsonV::Array(transcript(h)))
            &&& j.field("model"@) == Some(JsonV::Text(model))
            &&& j.field("provider"@) == Some(JsonV::Text(provider))
            &&& j.field("running"@) == Some(JsonV::Bool(running))
            &&& j.field("context_estimate"@) matches Some(JsonV::Unsigned(n)) && n == total_est(h)
        }),
{
    broadcast use a_field_reads_back, no_field_to_read;

    reveal_strlit("messages");
    reveal_strlit("model");
    reveal_strlit("provider");
    reveal_strlit("running");
    reveal_strlit("context_estimate");
    assert("messages"@.len() == 8);
    assert("model"@.len() == 5);
    assert("provider"@.len() == 8);
    assert("running"@.len() == 7);
    assert("context_estimate"@.len() == 16);
    assert("messages"@[0] == 'm' && "provider"@[0] == 'p');
}

/// A compaction that was not stopped, brought a summary, and met no run replaces the history: by one
/// that holds the summary and everything from the split on. In every other case nothing is replaced,
/// and the reason is told.
pub proof fn a_compaction_replaces_or_says_why(
    r: Compaction,
    h: Seq<MsgV>,
    split: int,
    summary: Seq<char>,
    cancelled: bool,
    running: bool,
)
    requires
        comes_to(r, h, split, summary, cancelled, running),
        0 <= split <= h.len(),
    ensures
        r is Done <==> !cancelled && !blank(summary) && !running,
        r is Left <==> cancelled,
        r matches Compaction::Failed(e) ==> e@ == if blank(summary) {
            "could not summarize"@
        } else {
            "chat is running"@
        },
        r matches Compaction::Done(out, j) ==> {
            let n = h.filter(|m: MsgV| m.role == "system"@).len();
            &&& out@.len() == n + 1 + (h.len() - split)
            &&& msgs(out@).take(n as int) == h.filter(|m: MsgV| m.role == "system"@)
            &&& plain_text(msgs(out@)[n as int]) == COMPACTION_MARKER@ + summary
            &&& msgs(out@).skip(n as int + 1) == h.skip(split)
            &&& j@.field("messages"@) == Some(JsonV::Unsigned(out@.len() as u64))
            &&& j@.field("compacted"@) == Some(JsonV::Bool(true))
            &&& j@.field("dropped"@) == Some(
                JsonV::Unsigned(
                    (if split > n + 1 {
                        split - (n + 1)
                    } else {
                        0
                    }) as u64,
                ),
            )
        },
{
    broadcast use a_field_reads_back, no_field_to_read;

    reveal_strlit("messages");
    reveal_strlit("compacted");
    reveal_strlit("dropped");
    assert("messages"@.len() == 8);
    assert("compacted"@.len() == 9);
    assert("dropped"@.len() == 7);
    match r {
        Compaction::Done(out, j) => {
            compaction_keeps_the_tail(h, split, summary);
            the_system_messages_are_all_there(h);
            a_text_says_itself("user"@, COMPACTION_MARKER@ + summary);
            let n = system_messages(h).len() as int;
            assert(compacted(h, split, summary)[n] == text_msg(
                "user"@,
                COMPACTION_MARKER@ + summary,
            ));
            assert(msgs(out@).len() == out@.len());
        },
        _ => {},
    }
}

} // verus!
