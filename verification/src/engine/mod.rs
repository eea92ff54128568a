//! The conversation: messages, what they cost to carry, and how a history is kept usable.

pub mod agent;
pub mod approval;
pub mod browse;
pub mod config;
pub mod credentials;
pub mod identity;
pub mod jobs;
pub mod mcp;
pub mod plugins;
pub mod provider;
pub mod pty;
pub mod repair;
pub mod sessions;
pub mod skills;
pub mod tools;

use vstd::prelude::*;
use vstd::utf8::*;

use crate::json::{render, written, Json, JsonV};
use crate::text::{
    after, byte_len, join, join_of, joined_alone, joined_lists, joined_within, len_of, same,
    strip_prefix, texts, within,
};

verus! {

/// One tool invocation requested by the model.
#[derive(Debug)]
pub struct ToolCall {
    pub id: String,
    pub name: String,
    pub arguments: Json,
}

/// A piece of a message.
#[derive(Debug)]
pub enum Part {
    Text(String),
    /// A model's thinking block, kept with the message.
    Reasoning(String),
    /// A picture from the user as a data URL: "data:image/png;base64,..."
    ImageData(String),
    ToolCall(ToolCall),
    ToolResult { id: String, name: String, content: String },
    /// A run that failed. It stays in the transcript, so that the failure can still be
    /// seen after a switch or a restart, and is never sent to a provider.
    Error(String),
}

/// A message: the role is `system`, `user`, `assistant` or `tool`.
#[derive(Debug)]
pub struct Msg {
    pub role: String,
    pub parts: Vec<Part>,
}

pub struct ToolCallV {
    pub id: Seq<char>,
    pub name: Seq<char>,
    pub arguments: JsonV,
}

pub enum PartV {
    Text(Seq<char>),
    Reasoning(Seq<char>),
    ImageData(Seq<char>),
    ToolCall(ToolCallV),
    ToolResult { id: Seq<char>, name: Seq<char>, content: Seq<char> },
    Error(Seq<char>),
}

pub struct MsgV {
    pub role: Seq<char>,
    pub parts: Seq<PartV>,
}

impl View for ToolCall {
    type V = ToolCallV;

    open spec fn view(&self) -> ToolCallV {
        ToolCallV { id: self.id@, name: self.name@, arguments: self.arguments@ }
    }
}

impl View for Part {
    type V = PartV;

    open spec fn view(&self) -> PartV {
        match *self {
            Part::Text(t) => PartV::Text(t@),
            Part::Reasoning(t) => PartV::Reasoning(t@),
            Part::ImageData(t) => PartV::ImageData(t@),
            Part::ToolCall(tc) => PartV::ToolCall(tc@),
            Part::ToolResult { id, name, content } => PartV::ToolResult {
                id: id@,
                name: name@,
                content: content@,
            },
            Part::Error(t) => PartV::Error(t@),
        }
    }
}

pub open spec fn parts_view(v: Seq<Part>) -> Seq<PartV> {
    Seq::new(v.len(), |i: int| v[i]@)
}

impl View for Msg {
    type V = MsgV;

    open spec fn view(&self) -> MsgV {
        MsgV { role: self.role@, parts: parts_view(self.parts@) }
    }
}

/// The model of a history.
pub open spec fn msgs(v: Seq<Msg>) -> Seq<MsgV> {
    Seq::new(v.len(), |i: int| v[i]@)
}

/// The model of a list of tool calls.
pub open spec fn calls_view(v: Seq<ToolCall>) -> Seq<ToolCallV> {
    Seq::new(v.len(), |i: int| v[i]@)
}

impl Clone for ToolCall {
    fn clone(&self) -> (r: ToolCall)
        ensures
            r@ == self@,
    {
        ToolCall {
            id: self.id.clone(),
            name: self.name.clone(),
            arguments: self.arguments.copy(),
        }
    }
}

impl Clone for Part {
    fn clone(&self) -> (r: Part)
        ensures
            r@ == self@,
    {
        match self {
            Part::Text(t) => Part::Text(t.clone()),
            Part::Reasoning(t) => Part::Reasoning(t.clone()),
            Part::ImageData(t) => Part::ImageData(t.clone()),
            Part::ToolCall(tc) => Part::ToolCall(tc.clone()),
            Part::ToolResult { id, name, content } => Part::ToolResult {
                id: id.clone(),
                name: name.clone(),
                content: content.clone(),
            },
            Part::Error(t) => Part::Error(t.clone()),
        }
    }
}

impl Clone for Msg {
    fn clone(&self) -> (r: Msg)
        ensures
            r@ == self@,
    {
        let mut parts: Vec<Part> = Vec::new();
        let mut i: usize = 0;
        while i < self.parts.len()
            invariant
                i <= self.parts.len(),
                parts@.len() == i,
                forall|k: int| 0 <= k < i ==> (#[trigger] parts@[k])@ == self.parts@[k]@,
            decreases self.parts.len() - i,
        {
            parts.push(self.parts[i].clone());
            i += 1;
        }
        assert(parts_view(parts@) =~= parts_view(self.parts@));
        Msg { role: self.role.clone(), parts }
    }
}

/// The messages `from..to` of `hist`, copied.
pub fn copy_msgs(hist: &Vec<Msg>, from: usize, to: usize) -> (r: Vec<Msg>)
    requires
        from <= to <= hist.len(),
    ensures
        msgs(r@) == msgs(hist@).subrange(from as int, to as int),
{
    let mut out: Vec<Msg> = Vec::new();
    let mut i: usize = from;
    while i < to
        invariant
            from <= i <= to <= hist.len(),
            out@.len() == i - from,
            forall|k: int| 0 <= k < i - from ==> (#[trigger] out@[k])@ == hist@[from + k]@,
        decreases to - i,
    {
        out.push(hist[i].clone());
        i += 1;
    }
    assert(msgs(out@) =~= msgs(hist@).subrange(from as int, to as int));
    out
}

/// Prefix on the synthetic `user` message that stands for compacted history. The model
/// sees a plain user turn; a front end folds it into a chip.
pub const COMPACTION_MARKER: &'static str = "\u{2063}[e:compacted]\n";

/// How many trailing messages survive compaction untouched.
pub const KEEP_RECENT: usize = 40;

/// Compaction is worth a request only where it collapses at least this many messages.
pub const MIN_COMPACT_GAIN: usize = 16;

/// The kept tail may take this share of the context window, in hundredths.
pub const KEEP_SHARE: u64 = 40;

/// However large the trailing messages are, this many of them stay.
pub const KEEP_FLOOR: usize = 6;

/// Written for a tool call that never produced a result, because the program ended while
/// the tool was still running.
pub const INTERRUPTED_TOOL_RESULT: &'static str = "Interrupted: e exited before this tool finished, so no result was recorded.";

// ---- messages -------------------------------------------------------------------------

pub open spec fn text_msg(role: Seq<char>, content: Seq<char>) -> MsgV {
    MsgV { role, parts: seq![PartV::Text(content)] }
}

pub open spec fn result_msg(id: Seq<char>, name: Seq<char>, content: Seq<char>) -> MsgV {
    MsgV { role: "tool"@, parts: seq![PartV::ToolResult { id, name, content }] }
}

/// The texts among `parts`.
pub open spec fn text_parts(parts: Seq<PartV>) -> Seq<Seq<char>>
    decreases parts.len(),
{
    if parts.len() == 0 {
        Seq::empty()
    } else {
        let p = text_parts(parts.drop_last());
        match parts.last() {
            PartV::Text(t) => p.push(t),
            _ => p,
        }
    }
}

pub open spec fn plain_text(m: MsgV) -> Seq<char> {
    join_of(text_parts(m.parts), "\n"@)
}

impl Msg {
    /// The compaction summary, if this message stands for compacted history.
    pub fn compaction_summary(&self) -> (r: Option<String>)
        ensures
            crate::text::opt_text(r) == after(plain_text(self@), COMPACTION_MARKER@),
    {
        let t = self.plain_text_parts();
        strip_prefix(t.as_str(), COMPACTION_MARKER)
    }

    pub fn text(role: &str, content: &str) -> (r: Msg)
        ensures
            r@ == text_msg(role@, content@),
    {
        let r = Msg { role: role.to_string(), parts: vec![Part::Text(content.to_string())] };
        assert(r@.parts =~= text_msg(role@, content@).parts);
        r
    }

    pub fn assistant(parts: Vec<Part>) -> (r: Msg)
        ensures
            r@ == (MsgV { role: "assistant"@, parts: parts_view(parts@) }),
    {
        Msg { role: "assistant".to_string(), parts }
    }

    pub fn tool_result(id: &str, name: &str, content: String) -> (r: Msg)
        ensures
            r@ == result_msg(id@, name@, content@),
    {
        let r = Msg {
            role: "tool".to_string(),
            parts: vec![Part::ToolResult { id: id.to_string(), name: name.to_string(), content }],
        };
        assert(r@.parts =~= result_msg(id@, name@, content@).parts);
        r
    }

    /// A failed run, as an assistant turn, so that it survives in the transcript.
    pub fn error(message: &str) -> (r: Msg)
        ensures
            r@ == (MsgV { role: "assistant"@, parts: seq![PartV::Error(message@)] }),
    {
        let r = Msg {
            role: "assistant".to_string(),
            parts: vec![Part::Error(message.to_string())],
        };
        assert(r@.parts =~= seq![PartV::Error(message@)]);
        r
    }

    /// The texts of the message, one per line.
    pub fn plain_text_parts(&self) -> (r: String)
        ensures
            r@ == plain_text(self@),
    {
        let mut found: Vec<String> = Vec::new();
        let mut i: usize = 0;
        let ghost p = parts_view(self.parts@);
        assert(texts(found@) =~= Seq::empty());
        while i < self.parts.len()
            invariant
                i <= self.parts.len(),
                p == parts_view(self.parts@),
                texts(found@) == text_parts(p.take(i as int)),
            decreases self.parts.len() - i,
        {
            assert(p.take(i + 1).drop_last() =~= p.take(i as int));
            match &self.parts[i] {
                Part::Text(t) => {
                    let ghost before = texts(found@);
                    found.push(t.clone());
                    assert(texts(found@) =~= before.push(t@));
                },
                _ => {},
            }
            i += 1;
        }
        assert(p.take(p.len() as int) =~= p);
        join(&found, "\n")
    }
}

/// A summary that is stored behind the marker is read back as it was.
pub proof fn compaction_marker_round_trips(summary: Seq<char>)
    ensures
        after(plain_text(text_msg("user"@, COMPACTION_MARKER@ + summary)), COMPACTION_MARKER@)
            == Some(summary),
{
    let m = text_msg("user"@, COMPACTION_MARKER@ + summary);
    let t = COMPACTION_MARKER@ + summary;
    assert(m.parts.drop_last() =~= Seq::empty());
    assert(text_parts(m.parts.drop_last()) =~= Seq::empty());
    assert(text_parts(m.parts) =~= seq![t]);
    assert(plain_text(m) == t);
    assert(t.take(COMPACTION_MARKER@.len() as int) =~= COMPACTION_MARKER@);
    assert(t.skip(COMPACTION_MARKER@.len() as int) =~= summary);
}

// ---- size -------------------------------------------------------------------------------

/// What a part weighs, in bytes.
pub open spec fn part_chars(p: PartV) -> nat {
    match p {
        PartV::Text(t) => byte_len(t),
        PartV::Reasoning(t) => byte_len(t),
        PartV::ImageData(_) => 4000,
        PartV::ToolCall(tc) => byte_len(tc.name) + byte_len(written(tc.arguments)),
        PartV::ToolResult { id, name, content } => byte_len(content),
        PartV::Error(_) => 0,
    }
}

pub open spec fn parts_chars(parts: Seq<PartV>) -> nat
    decreases parts.len(),
{
    if parts.len() == 0 {
        0
    } else {
        parts_chars(parts.drop_last()) + part_chars(parts.last())
    }
}

/// The rough number of tokens of a message: a quarter of its bytes.
pub open spec fn est(m: MsgV) -> nat {
    parts_chars(m.parts) / 4
}

proof fn parts_chars_grow(parts: Seq<PartV>, n: int)
    requires
        0 <= n <= parts.len(),
    ensures
        parts_chars(parts.take(n)) <= parts_chars(parts),
    decreases parts.len() - n,
{
    if n < parts.len() {
        parts_chars_grow(parts, n + 1);
        assert(parts.take(n + 1).drop_last() =~= parts.take(n));
    } else {
        assert(parts.take(n) =~= parts);
    }
}

fn part_weight(p: &Part) -> (r: (usize, usize))
    ensures
        r.0 + r.1 == part_chars(p@),
{
    match p {
        Part::Text(t) => (len_of(t.as_str()), 0),
        Part::Reasoning(t) => (len_of(t.as_str()), 0),
        Part::ImageData(_) => (4000, 0),
        Part::ToolCall(tc) => {
            let a = render(&tc.arguments);
            (len_of(tc.name.as_str()), len_of(a.as_str()))
        },
        Part::ToolResult { id: _, name: _, content } => (len_of(content.as_str()), 0),
        Part::Error(_) => (0, 0),
    }
}

/// The estimate of [`est_tokens`], or nothing where the bytes are too many to count.
pub fn checked_est_tokens(m: &Msg) -> (r: Option<usize>)
    ensures
        match r {
            Some(t) => parts_chars(m@.parts) <= usize::MAX && t == est(m@),
            None => parts_chars(m@.parts) > usize::MAX,
        },
{
    let mut total: usize = 0;
    let mut i: usize = 0;
    let ghost p = m@.parts;
    while i < m.parts.len()
        invariant
            i <= m.parts.len(),
            p == m@.parts,
            total == parts_chars(p.take(i as int)),
        decreases m.parts.len() - i,
    {
        assert(p.take(i + 1).drop_last() =~= p.take(i as int));
        proof {
            parts_chars_grow(p, i + 1);
        }
        let (a, b) = part_weight(&m.parts[i]);
        if a > usize::MAX - total || b > usize::MAX - total - a {
            return None;
        }
        total = total + a + b;
        i += 1;
    }
    assert(p.take(p.len() as int) =~= p);
    Some(total / 4)
}

/// Rough token estimate. It only has to be good enough to pick a split point.
pub fn est_tokens(m: &Msg) -> (r: usize)
    requires
        parts_chars(m@.parts) <= usize::MAX,
    ensures
        r == est(m@),
{
    match checked_est_tokens(m) {
        Some(t) => t,
        None => 0,
    }
}

// ---- what compaction keeps ----------------------------------------------------------------

/// The messages of `h` that are no system messages.
pub open spec fn speaking(h: Seq<MsgV>) -> Seq<MsgV>
    decreases h.len(),
{
    if h.len() == 0 {
        Seq::empty()
    } else if h.last().role == "system"@ {
        speaking(h.drop_last())
    } else {
        speaking(h.drop_last()).push(h.last())
    }
}

/// The estimate of the last `k` messages of `h`.
pub open spec fn tail_est(h: Seq<MsgV>, k: int) -> nat
    decreases k,
{
    if k <= 0 || k > h.len() {
        0
    } else {
        tail_est(h, k - 1) + est(h[h.len() - k])
    }
}

pub open spec fn keep_budget(context_window: u64) -> int {
    context_window as int * KEEP_SHARE as int / 100
}

/// Whether the last `k` messages of `s` may be kept.
pub open spec fn may_keep(s: Seq<MsgV>, k: int, budget: int) -> bool {
    k <= s.len() && (k <= KEEP_FLOOR || (k <= KEEP_RECENT && tail_est(s, k) <= budget))
}

/// The longest tail of `s`, at least `k` long, that may be kept.
pub open spec fn longest_tail(s: Seq<MsgV>, k: int, budget: int) -> int
    decreases s.len() - k,
{
    if k < s.len() && may_keep(s, k + 1, budget) {
        longest_tail(s, k + 1, budget)
    } else {
        k
    }
}

/// The first index, from `s` downwards, that holds no tool message.
pub open spec fn off_tools(h: Seq<MsgV>, s: int) -> int
    decreases s,
{
    if s > 0 && h[s].role == "tool"@ {
        off_tools(h, s - 1)
    } else {
        s
    }
}

/// Where the history splits into what is summarised and what is kept.
pub open spec fn split_point(h: Seq<MsgV>, context_window: u64) -> int {
    off_tools(h, h.len() - longest_tail(speaking(h), 0, keep_budget(context_window)))
}

/// Whether a history has a split point: every message can be weighed, and some message is
/// no system message unless there is none at all.
pub open spec fn splittable(h: Seq<MsgV>) -> bool {
    &&& forall|i: int| 0 <= i < h.len() ==> parts_chars((#[trigger] h[i]).parts) <= usize::MAX
    &&& h.len() > 0 ==> speaking(h).len() > 0
}

proof fn speaking_len(h: Seq<MsgV>)
    ensures
        speaking(h).len() <= h.len(),
    decreases h.len(),
{
    if h.len() > 0 {
        speaking_len(h.drop_last());
    }
}

proof fn speaking_prefix(h: Seq<MsgV>, n: int)
    requires
        0 <= n <= h.len(),
    ensures
        speaking(h.take(n)).len() <= speaking(h).len(),
        speaking(h.take(n)) == speaking(h).take(speaking(h.take(n)).len() as int),
    decreases h.len() - n,
{
    if n < h.len() {
        speaking_prefix(h, n + 1);
        assert(h.take(n + 1).drop_last() =~= h.take(n));
        let a = speaking(h.take(n));
        let b = speaking(h.take(n + 1));
        assert(a =~= b.take(a.len() as int));
        assert(a =~= speaking(h).take(a.len() as int));
    } else {
        assert(h.take(n) =~= h);
        assert(speaking(h).take(speaking(h).len() as int) =~= speaking(h));
    }
}

proof fn tail_est_bound(s: Seq<MsgV>, k: int)
    requires
        0 <= k <= s.len(),
        forall|i: int| 0 <= i < s.len() ==> parts_chars((#[trigger] s[i]).parts) <= usize::MAX,
    ensures
        tail_est(s, k) <= k * usize::MAX,
    decreases k,
{
    if k > 0 {
        tail_est_bound(s, k - 1);
        assert(est(s[s.len() - k]) <= usize::MAX);
        assert((k - 1) * usize::MAX + usize::MAX == k * usize::MAX) by (nonlinear_arith);
    }
}

proof fn speaking_members(h: Seq<MsgV>, i: int)
    requires
        0 <= i < speaking(h).len(),
    ensures
        h.contains(speaking(h)[i]),
        speaking(h)[i].role != "system"@,
    decreases h.len(),
{
    if h.len() > 0 {
        let d = h.drop_last();
        if i < speaking(d).len() {
            speaking_members(d, i);
            let j = choose|j: int| 0 <= j < d.len() && d[j] == speaking(d)[i];
            assert(h[j] == speaking(h)[i]);
        } else {
            assert(h[h.len() - 1] == speaking(h)[i]);
        }
    }
}

proof fn weighed(h: Seq<MsgV>)
    requires
        splittable(h),
    ensures
        forall|i: int|
            0 <= i < speaking(h).len() ==> parts_chars((#[trigger] speaking(h)[i]).parts)
                <= usize::MAX,
{
    assert forall|i: int| 0 <= i < speaking(h).len() implies parts_chars(
        (#[trigger] speaking(h)[i]).parts,
    ) <= usize::MAX by {
        speaking_members(h, i);
    }
}

/// The longest tail that may be kept may be kept, and no longer one may.
pub proof fn longest_tail_facts(s: Seq<MsgV>, k: int, budget: int)
    requires
        0 <= k <= s.len(),
        may_keep(s, k, budget),
    ensures
        k <= longest_tail(s, k, budget) <= s.len(),
        may_keep(s, longest_tail(s, k, budget), budget),
        longest_tail(s, k, budget) < s.len() ==> !may_keep(
            s,
            longest_tail(s, k, budget) + 1,
            budget,
        ),
    decreases s.len() - k,
{
    if k < s.len() && may_keep(s, k + 1, budget) {
        longest_tail_facts(s, k + 1, budget);
    }
}

proof fn tail_est_monotone(s: Seq<MsgV>, a: int, b: int)
    requires
        0 <= a <= b <= s.len(),
    ensures
        tail_est(s, a) <= tail_est(s, b),
    decreases b - a,
{
    if a < b {
        tail_est_monotone(s, a, b - 1);
    }
}

/// Walking back off tool messages passes tool messages only, and stops at the first message that is
/// none.
pub proof fn off_tools_facts(h: Seq<MsgV>, s: int)
    requires
        0 <= s,
    ensures
        0 <= off_tools(h, s) <= s,
        off_tools(h, s) > 0 ==> h[off_tools(h, s)].role != "tool"@,
        forall|j: int| off_tools(h, s) < j <= s ==> (#[trigger] h[j]).role == "tool"@,
    decreases s,
{
    if s > 0 && h[s].role == "tool"@ {
        off_tools_facts(h, s - 1);
    }
}

/// Compaction keeps the longest recent tail that fits: every tail that may be kept is at
/// most as long as the one that is, the floor is always met, and the cap never passed.
pub proof fn split_keeps_the_longest_tail_that_fits(h: Seq<MsgV>, context_window: u64, k: int)
    requires
        0 <= k,
        may_keep(speaking(h), k, keep_budget(context_window)),
    ensures
        ({
            let kept = longest_tail(speaking(h), 0, keep_budget(context_window));
            &&& k <= kept <= KEEP_RECENT
            &&& kept >= KEEP_FLOOR || kept == speaking(h).len()
            &&& may_keep(speaking(h), kept, keep_budget(context_window))
        }),
{
    let s = speaking(h);
    let budget = keep_budget(context_window);
    longest_tail_facts(s, 0, budget);
    let kept = longest_tail(s, 0, budget);
    if k > kept {
        tail_est_monotone(s, kept + 1, k);
    }
}

/// The kept slice never begins with a tool result, unless nothing stands before it.
pub proof fn split_never_strands_a_tool_result(h: Seq<MsgV>, context_window: u64)
    requires
        splittable(h),
    ensures
        0 <= split_point(h, context_window) <= h.len(),
        split_point(h, context_window) > 0 ==> split_point(h, context_window) < h.len()
            && h[split_point(h, context_window)].role != "tool"@,
{
    let s = speaking(h);
    let budget = keep_budget(context_window);
    speaking_len(h);
    longest_tail_facts(s, 0, budget);
    let kept = longest_tail(s, 0, budget);
    if h.len() > 0 {
        assert(may_keep(s, 1, budget));
        assert(kept > 0);
    }
    off_tools_facts(h, h.len() - kept);
}

/// Index at which history splits into "summarise this" and "keep verbatim".
///
/// Keeps the largest recent tail that fits both `KEEP_RECENT` messages and `KEEP_SHARE`
/// of the window, then walks back off any `tool` message, so that the kept slice never
/// begins with a tool result whose call was dropped: providers reject that.
pub fn keep_split(hist: &[Msg], context_window: u64) -> (r: usize)
    requires
        splittable(msgs(hist@)),
    ensures
        r == split_point(msgs(hist@), context_window),
{
    let ghost h = msgs(hist@);
    let ghost s = speaking(h);
    let ghost b = keep_budget(context_window);
    let budget: u128 = context_window as u128 * KEEP_SHARE as u128 / 100;
    let mut used: u128 = 0;
    let mut kept: usize = 0;
    let mut i: usize = hist.len();
    proof {
        assert(h.take(h.len() as int) =~= h);
        speaking_len(h);
        weighed(h);
    }
    let mut open: bool = true;
    while open && i > 0
        invariant
            i <= hist.len(),
            h == msgs(hist@),
            s == speaking(h),
            b == budget,
            splittable(h),
            forall|j: int| 0 <= j < s.len() ==> parts_chars((#[trigger] s[j]).parts) <= usize::MAX,
            kept <= s.len() <= h.len(),
            kept <= KEEP_RECENT,
            used == tail_est(s, kept as int),
            open ==> speaking(h.take(i as int)).len() == s.len() - kept,
            !open ==> kept > 0,
            longest_tail(s, 0, b) == longest_tail(s, kept as int, b),
            !open ==> longest_tail(s, kept as int, b) == kept,
        decreases i, open as int,
    {
        proof {
            assert(h.take(i as int).drop_last() =~= h.take(i - 1));
            speaking_prefix(h, i as int);
            speaking_prefix(h, i - 1);
        }
        let m = &hist[i - 1];
        assert(m@ == h[i - 1]);
        assert(h.take(i as int).last() == m@);
        if same(m.role.as_str(), "system") {
            i -= 1;
        } else {
            let t: usize = est_tokens(m);
            proof {
                let p = speaking(h.take(i as int));
                assert(p.last() == m@);
                assert(p.last() == s[p.len() - 1]);
                assert(s[s.len() - (kept + 1)] == m@);
                assert(tail_est(s, kept + 1) == used + t);
                tail_est_bound(s, kept as int);
                assert(kept * usize::MAX <= 40 * usize::MAX) by (nonlinear_arith)
                    requires
                        kept <= 40,
                ;
            }
            if kept >= KEEP_FLOOR && (kept >= KEEP_RECENT || used + t as u128 > budget) {
                open = false;
            } else {
                used = used + t as u128;
                kept += 1;
                i -= 1;
            }
        }
    }
    proof {
        if i == 0 && open {
            assert(h.take(0).len() == 0);
            assert(kept == s.len());
        }
        assert(longest_tail(s, kept as int, b) == kept);
    }
    let mut split: usize = hist.len() - kept;
    while split > 0 && same(hist[split].role.as_str(), "tool")
        invariant
            split <= hist.len(),
            h == msgs(hist@),
            split > 0 ==> split < hist.len(),
            off_tools(h, split as int) == split_point(h, context_window),
        decreases split,
    {
        assert(hist@[split as int]@ == h[split as int]);
        split -= 1;
    }
    assert(split > 0 ==> hist@[split as int]@ == h[split as int]);
    split
}

/// The split point of [`keep_split`], or nothing for a history that has none.
pub fn checked_keep_split(hist: &[Msg], context_window: u64) -> (r: Option<usize>)
    ensures
        match r {
            Some(n) => splittable(msgs(hist@)) && n == split_point(msgs(hist@), context_window),
            None => !splittable(msgs(hist@)),
        },
{
    let ghost h = msgs(hist@);
    let mut i: usize = 0;
    let mut some: bool = false;
    while i < hist.len()
        invariant
            i <= hist.len(),
            h == msgs(hist@),
            forall|j: int| 0 <= j < i ==> parts_chars((#[trigger] h[j]).parts) <= usize::MAX,
            some == (speaking(h.take(i as int)).len() > 0),
        decreases hist.len() - i,
    {
        assert(h.take(i + 1).drop_last() =~= h.take(i as int));
        assert(hist@[i as int]@ == h[i as int]);
        match checked_est_tokens(&hist[i]) {
            Some(_) => {},
            None => {
                return None;
            },
        }
        if !same(hist[i].role.as_str(), "system") {
            some = true;
        }
        i += 1;
    }
    assert(h.take(h.len() as int) =~= h);
    if hist.len() > 0 && !some {
        return None;
    }
    Some(keep_split(hist, context_window))
}

// ---- what a provider and a run hand back ------------------------------------------------------

/// A full assistant completion returned by a provider.
#[derive(Debug)]
pub struct Completion {
    pub text: String,
    pub tool_calls: Vec<ToolCall>,
    /// (prompt, completion) tokens as reported by the provider.
    pub usage: (u64, u64),
    /// The amounts that make up the reported cost, as the provider wrote them; none where it
    /// reported none.
    pub cost: Vec<String>,
    /// The model's thinking, where the provider streams it.
    pub reasoning: String,
}

pub struct CompletionV {
    pub text: Seq<char>,
    pub tool_calls: Seq<ToolCallV>,
    pub usage: (u64, u64),
    pub cost: Seq<Seq<char>>,
    pub reasoning: Seq<char>,
}

impl View for Completion {
    type V = CompletionV;

    open spec fn view(&self) -> CompletionV {
        CompletionV {
            text: self.text@,
            tool_calls: calls_view(self.tool_calls@),
            usage: self.usage,
            cost: texts(self.cost@),
            reasoning: self.reasoning@,
        }
    }
}

/// What a request that was never sent, or was stopped while it waited, comes to.
pub open spec fn nothing_said() -> CompletionV {
    CompletionV {
        text: Seq::empty(),
        tool_calls: Seq::empty(),
        usage: (0, 0),
        cost: Seq::empty(),
        reasoning: Seq::empty(),
    }
}

impl Completion {
    /// The completion of a request that was stopped before anything came back.
    pub fn empty() -> (r: Completion)
        ensures
            r@ == nothing_said(),
    {
        let r = Completion {
            text: String::new(),
            tool_calls: Vec::new(),
            usage: (0, 0),
            cost: Vec::new(),
            reasoning: String::new(),
        };
        assert(r@.tool_calls =~= Seq::empty());
        assert(r@.cost =~= Seq::empty());
        r
    }
}

// ---- what a message says --------------------------------------------------------------------------

/// The texts of two lists of parts, one behind the other, are those of the first and then those of
/// the second.
pub proof fn texts_of_both(a: Seq<PartV>, b: Seq<PartV>)
    ensures
        text_parts(a + b) == text_parts(a) + text_parts(b),
    decreases b.len(),
{
    if b.len() == 0 {
        assert(a + b =~= a);
        assert(text_parts(a + b) =~= text_parts(a) + text_parts(b));
    } else {
        texts_of_both(a, b.drop_last());
        assert((a + b).drop_last() =~= a + b.drop_last());
        assert(text_parts(a + b) =~= text_parts(a) + text_parts(b));
    }
}

/// A part that is a text is one text, and any other part is none.
pub proof fn text_of_one(p: PartV)
    ensures
        p matches PartV::Text(t) ==> text_parts(seq![p]) == seq![t],
        !(p is Text) ==> text_parts(seq![p]).len() == 0,
{
    assert(seq![p].drop_last() =~= Seq::empty());
    assert(text_parts(seq![p].drop_last()) =~= Seq::empty());
    if p is Text {
        assert(text_parts(seq![p]) =~= seq![p->Text_0]);
    }
}

/// A message of one text says that text, whoever says it.
pub proof fn a_text_says_itself(role: Seq<char>, t: Seq<char>)
    ensures
        plain_text(MsgV { role, parts: seq![PartV::Text(t)] }) == t,
        plain_text(text_msg(role, t)) == t,
        text_msg(role, t).role == role,
{
    text_of_one(PartV::Text(t));
    joined_alone(t, "\n"@);
}

/// No text of a message is lost.
pub proof fn every_text_is_said(m: MsgV, i: int)
    requires
        0 <= i < m.parts.len(),
        m.parts[i] is Text,
    ensures
        within(m.parts[i]->Text_0, plain_text(m)),
{
    let a = m.parts.take(i);
    let b = m.parts.skip(i + 1);
    let x = seq![m.parts[i]];
    let t = m.parts[i]->Text_0;
    assert(m.parts =~= (a + x) + b);
    texts_of_both(a, x);
    texts_of_both(a + x, b);
    text_of_one(m.parts[i]);
    let all = text_parts(m.parts);
    let k = text_parts(a).len() as int;
    assert(all[k] == t);
    joined_within(all, "\n"@, k);
}

/// Two messages of one speaker, run together, say what the one says and then, on a line of its own,
/// what the other says.
pub proof fn what_both_say(role: Seq<char>, a: Seq<PartV>, b: Seq<PartV>)
    ensures
        ({
            let x = plain_text(MsgV { role, parts: a });
            let y = plain_text(MsgV { role, parts: b });
            let z = plain_text(MsgV { role, parts: a + b });
            &&& text_parts(a).len() > 0 && text_parts(b).len() > 0 ==> z == x + "\n"@ + y
            &&& text_parts(a).len() == 0 ==> z == y
            &&& text_parts(b).len() == 0 ==> z == x
        }),
{
    texts_of_both(a, b);
    joined_lists(text_parts(a), text_parts(b), "\n"@);
}

/// Who speaks does not matter to what is said.
pub proof fn the_role_changes_no_word(m: MsgV, role: Seq<char>)
    ensures
        plain_text(MsgV { role, parts: m.parts }) == plain_text(m),
{
}

/// What a message weighs is what its parts weigh, each counted once: a text by its bytes, thinking,
/// results and calls too, a picture as much as any other, and a failure nothing.
pub proof fn weight_of_both(a: Seq<PartV>, b: Seq<PartV>)
    ensures
        parts_chars(a + b) == parts_chars(a) + parts_chars(b),
    decreases b.len(),
{
    if b.len() == 0 {
        assert(a + b =~= a);
    } else {
        weight_of_both(a, b.drop_last());
        assert((a + b).drop_last() =~= a + b.drop_last());
    }
}

/// A part weighs as much as what of it is sent: never less than the bytes of its text, its result or
/// the name of its call.
pub proof fn weight_of_one(p: PartV)
    ensures
        p matches PartV::Text(t) ==> parts_chars(seq![p]) == encode_utf8(t).len(),
        p matches PartV::Reasoning(t) ==> parts_chars(seq![p]) == encode_utf8(t).len(),
        p matches PartV::ToolResult { id, name, content } ==> parts_chars(seq![p]) == encode_utf8(
            content,
        ).len(),
        p matches PartV::ToolCall(tc) ==> parts_chars(seq![p]) == encode_utf8(tc.name).len()
            + encode_utf8(written(tc.arguments)).len(),
        p is ImageData ==> parts_chars(seq![p]) == 4000,
        p is Error ==> parts_chars(seq![p]) == 0,
        est(MsgV { role: "user"@, parts: seq![p] }) * 4 <= parts_chars(seq![p]) < est(
            MsgV { role: "user"@, parts: seq![p] },
        ) * 4 + 4,
{
    assert(seq![p].drop_last() =~= Seq::empty());
    assert(parts_chars(seq![p].drop_last()) == 0);
}

/// The messages that speak are all but the system messages, in their order.
pub proof fn speaking_of_both(a: Seq<MsgV>, b: Seq<MsgV>, m: MsgV)
    ensures
        speaking(a + b) == speaking(a) + speaking(b),
        speaking(seq![m]) == if m.role == "system"@ {
            Seq::empty()
        } else {
            seq![m]
        },
    decreases b.len(),
{
    assert(seq![m].drop_last() =~= Seq::empty());
    assert(speaking(seq![m].drop_last()) =~= Seq::empty());
    assert(speaking(seq![m]) =~= if m.role == "system"@ {
        Seq::empty()
    } else {
        seq![m]
    });
    if b.len() == 0 {
        assert(a + b =~= a);
        assert(speaking(a + b) =~= speaking(a) + speaking(b));
    } else {
        speaking_of_both(a, b.drop_last(), m);
        assert((a + b).drop_last() =~= a + b.drop_last());
        assert(speaking(a + b) =~= speaking(a) + speaking(b));
    }
}

} // verus!
