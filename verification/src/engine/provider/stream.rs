//! A streamed completion, put together from the bytes that arrive.
//!
//! The body is a sequence of events, each ended by an empty line. A line that begins with
//! `data:` carries a JSON object with the next piece of the answer: thinking, text, usage, and
//! tool calls whose arguments come in fragments.

use vstd::prelude::*;
use vstd::slice::slice_subrange;

use crate::bytes::{lossy, lossy_of};
use crate::engine::{calls_view, Completion, CompletionV, ToolCall, ToolCallV};
use crate::json::{json_parse, jsons, parse, render, written, Json, JsonV};
use crate::text::{
    copy_opt, decimal, decimal_of, opt_text, same, slice, split, split_of, starts, starts_with,
    texts, trim, trim_of,
};

verus! {

/// Something the model said, to be shown as it arrives.
#[derive(Debug)]
pub enum Delta {
    Reasoning(String),
    Text(String),
}

/// A tool call that is still arriving.
#[derive(Debug)]
pub struct PendingCall {
    pub index: u64,
    pub id: Option<String>,
    pub name: Option<String>,
    pub arguments: String,
}

/// What has been heard of an answer so far.
#[derive(Debug)]
pub struct Heard {
    pub text: String,
    pub reasoning: String,
    pub usage_in: u64,
    pub usage_out: u64,
    pub cost: Vec<String>,
    /// By ascending index.
    pub calls: Vec<PendingCall>,
    /// What is to be shown and was not taken yet.
    pub said: Vec<Delta>,
}

/// An answer that is being streamed.
#[derive(Debug)]
pub struct Stream {
    /// Bytes of an event that has not ended.
    pub buf: Vec<u8>,
    pub heard: Heard,
}

pub enum DeltaV {
    Reasoning(Seq<char>),
    Text(Seq<char>),
}

pub struct PendingV {
    pub index: u64,
    pub id: Option<Seq<char>>,
    pub name: Option<Seq<char>>,
    pub arguments: Seq<char>,
}

pub struct HeardV {
    pub text: Seq<char>,
    pub reasoning: Seq<char>,
    pub usage_in: u64,
    pub usage_out: u64,
    pub cost: Seq<Seq<char>>,
    pub calls: Seq<PendingV>,
    pub said: Seq<DeltaV>,
}

pub struct StreamV {
    pub buf: Seq<u8>,
    pub heard: HeardV,
}

impl View for Delta {
    type V = DeltaV;

    open spec fn view(&self) -> DeltaV {
        match *self {
            Delta::Reasoning(t) => DeltaV::Reasoning(t@),
            Delta::Text(t) => DeltaV::Text(t@),
        }
    }
}

impl View for PendingCall {
    type V = PendingV;

    open spec fn view(&self) -> PendingV {
        PendingV {
            index: self.index,
            id: opt_text(self.id),
            name: opt_text(self.name),
            arguments: self.arguments@,
        }
    }
}

pub open spec fn deltas(v: Seq<Delta>) -> Seq<DeltaV> {
    Seq::new(v.len(), |i: int| v[i]@)
}

pub open spec fn pending(v: Seq<PendingCall>) -> Seq<PendingV> {
    Seq::new(v.len(), |i: int| v[i]@)
}

impl View for Heard {
    type V = HeardV;

    open spec fn view(&self) -> HeardV {
        HeardV {
            text: self.text@,
            reasoning: self.reasoning@,
            usage_in: self.usage_in,
            usage_out: self.usage_out,
            cost: texts(self.cost@),
            calls: pending(self.calls@),
            said: deltas(self.said@),
        }
    }
}

impl View for Stream {
    type V = StreamV;

    open spec fn view(&self) -> StreamV {
        StreamV { buf: self.buf@, heard: self.heard@ }
    }
}

// ---- what an event means ------------------------------------------------------------------

/// The thinking in a delta: `reasoning`, or `reasoning_content` where that is absent.
pub open spec fn delta_reasoning(d: JsonV) -> Option<Seq<char>> {
    match d.field("reasoning"@) {
        Some(v) => v.text(),
        None => d.text_field("reasoning_content"@),
    }
}

pub open spec fn with_reasoning(h: HeardV, d: JsonV) -> HeardV {
    match delta_reasoning(d) {
        Some(r) => HeardV {
            reasoning: h.reasoning + r,
            said: h.said.push(DeltaV::Reasoning(r)),
            ..h
        },
        None => h,
    }
}

pub open spec fn with_content(h: HeardV, d: JsonV) -> HeardV {
    match d.text_field("content"@) {
        Some(t) => HeardV { text: h.text + t, said: h.said.push(DeltaV::Text(t)), ..h },
        None => h,
    }
}

/// A number, as it is written.
pub open spec fn amount(v: Option<JsonV>) -> Option<Seq<char>> {
    match v {
        Some(JsonV::Unsigned(n)) => Some(written(JsonV::Unsigned(n))),
        Some(JsonV::Negative(n)) => Some(written(JsonV::Negative(n))),
        Some(JsonV::Fraction { text, whole }) => Some(text),
        _ => None,
    }
}

/// The amounts that a usage block prices an answer at: its cost, or else the cost of what went
/// in and of what came out where it gives both.
pub open spec fn priced(u: JsonV) -> Seq<Seq<char>> {
    match amount(u.field("cost"@)) {
        Some(c) => seq![c],
        None => match (amount(u.field("input_cost"@)), amount(u.field("output_cost"@))) {
            (Some(a), Some(b)) => seq![a, b],
            _ => Seq::empty(),
        },
    }
}

/// The last usage counts; the first price does.
pub open spec fn with_usage(h: HeardV, v: JsonV) -> HeardV {
    match v.field("usage"@) {
        Some(u) => HeardV {
            usage_in: match u.unsigned_field("prompt_tokens"@) {
                Some(n) => n,
                None => h.usage_in,
            },
            usage_out: match u.unsigned_field("completion_tokens"@) {
                Some(n) => n,
                None => h.usage_out,
            },
            cost: if h.cost.len() == 0 {
                priced(u)
            } else {
                h.cost
            },
            ..h
        },
        None => h,
    }
}

/// How many of the leading calls have a smaller index.
pub open spec fn slot(calls: Seq<PendingV>, index: u64) -> int
    decreases calls.len(),
{
    if calls.len() > 0 && calls[0].index < index {
        1 + slot(calls.skip(1), index)
    } else {
        0
    }
}

/// The calls with one for `index`.
pub open spec fn opened(calls: Seq<PendingV>, index: u64) -> Seq<PendingV> {
    let k = slot(calls, index);
    if k < calls.len() && calls[k].index == index {
        calls
    } else {
        calls.insert(
            k,
            PendingV { index, id: None, name: None, arguments: Seq::empty() },
        )
    }
}

/// A call with a fragment added: the id and name are replaced, the arguments continued.
pub open spec fn continued(c: PendingV, t: JsonV) -> PendingV {
    let f = match t.field("function"@) {
        Some(f) => f,
        None => JsonV::Null,
    };
    PendingV {
        index: c.index,
        id: match t.text_field("id"@) {
            Some(id) => Some(id),
            None => c.id,
        },
        name: match f.text_field("name"@) {
            Some(n) => Some(n),
            None => c.name,
        },
        arguments: match f.text_field("arguments"@) {
            Some(a) => c.arguments + a,
            None => c.arguments,
        },
    }
}

pub open spec fn fragment_index(t: JsonV) -> u64 {
    match t.unsigned_field("index"@) {
        Some(n) => n,
        None => 0,
    }
}

/// The calls with one fragment added.
pub open spec fn with_fragment(calls: Seq<PendingV>, t: JsonV) -> Seq<PendingV> {
    let i = fragment_index(t);
    let k = slot(calls, i);
    let c = opened(calls, i);
    c.update(k, continued(c[k], t))
}

pub open spec fn with_fragments(calls: Seq<PendingV>, ts: Seq<JsonV>) -> Seq<PendingV>
    decreases ts.len(),
{
    if ts.len() == 0 {
        calls
    } else {
        with_fragment(with_fragments(calls, ts.drop_last()), ts.last())
    }
}

pub open spec fn with_calls(h: HeardV, d: JsonV) -> HeardV {
    match d.field("tool_calls"@) {
        Some(JsonV::Array(ts)) => HeardV { calls: with_fragments(h.calls, ts), ..h },
        _ => h,
    }
}

/// The delta of the first choice of an event.
pub open spec fn delta_of(v: JsonV) -> Option<JsonV> {
    match v.field("choices"@) {
        Some(JsonV::Array(choices)) => if choices.len() > 0 {
            choices[0].field("delta"@)
        } else {
            None
        },
        _ => None,
    }
}

/// What is heard once an event has come; one without a delta says nothing.
pub open spec fn with_event(h: HeardV, v: JsonV) -> HeardV {
    match delta_of(v) {
        Some(d) => with_calls(with_usage(with_content(with_reasoning(h, d), d), v), d),
        None => h,
    }
}

/// The JSON that a line carries.
pub open spec fn line_event(l: Seq<char>) -> Option<JsonV> {
    let t = trim_of(l);
    if starts(t, "data:"@) {
        let data = trim_of(t.skip(5));
        if data == "[DONE]"@ {
            None
        } else {
            json_parse(data)
        }
    } else {
        None
    }
}

pub open spec fn with_line(h: HeardV, l: Seq<char>) -> HeardV {
    match line_event(l) {
        Some(v) => with_event(h, v),
        None => h,
    }
}

pub open spec fn with_lines(h: HeardV, ls: Seq<Seq<char>>) -> HeardV
    decreases ls.len(),
{
    if ls.len() == 0 {
        h
    } else {
        with_line(with_lines(h, ls.drop_last()), ls.last())
    }
}

pub open spec fn with_frame(h: HeardV, frame: Seq<u8>) -> HeardV {
    with_lines(h, split_of(lossy_of(frame), '\n'))
}

pub open spec fn with_frames(h: HeardV, frames: Seq<Seq<u8>>) -> HeardV
    decreases frames.len(),
{
    if frames.len() == 0 {
        h
    } else {
        with_frames(with_frame(h, frames[0]), frames.skip(1))
    }
}

/// The first index from `i` on at which two line feeds stand.
pub open spec fn gap_from(b: Seq<u8>, i: int) -> Option<int>
    decreases b.len() - i,
{
    if i < 0 || i + 2 > b.len() {
        None
    } else if b[i] == 10 && b[i + 1] == 10 {
        Some(i)
    } else {
        gap_from(b, i + 1)
    }
}

proof fn gap_bound(b: Seq<u8>, i: int)
    requires
        0 <= i,
    ensures
        gap_from(b, i) matches Some(p) ==> {
            &&& i <= p
            &&& p + 2 <= b.len()
            &&& b[p] == 10
            &&& b[p + 1] == 10
            &&& forall|j: int| i <= j < p ==> !(b[j] == 10 && #[trigger] b[j + 1] == 10)
        },
        gap_from(b, i) is None ==> forall|j: int|
            i <= j < b.len() - 1 ==> !(b[j] == 10 && #[trigger] b[j + 1] == 10),
    decreases b.len() - i,
{
    if i + 2 <= b.len() && !(b[i] == 10 && b[i + 1] == 10) {
        gap_bound(b, i + 1);
    }
}

/// The events that have ended.
pub open spec fn frames(b: Seq<u8>) -> Seq<Seq<u8>>
    decreases b.len(),
    via frames_decreases
{
    match gap_from(b, 0) {
        Some(p) => seq![b.take(p + 2)] + frames(b.skip(p + 2)),
        None => Seq::empty(),
    }
}

#[via_fn]
proof fn frames_decreases(b: Seq<u8>) {
    gap_bound(b, 0);
}

/// What follows the events that have ended.
pub open spec fn leftover(b: Seq<u8>) -> Seq<u8>
    decreases b.len(),
    via leftover_decreases
{
    match gap_from(b, 0) {
        Some(p) => leftover(b.skip(p + 2)),
        None => b,
    }
}

#[via_fn]
proof fn leftover_decreases(b: Seq<u8>) {
    gap_bound(b, 0);
}

/// The stream after more bytes have arrived.
pub open spec fn fed(s: StreamV, chunk: Seq<u8>) -> StreamV {
    let b = s.buf + chunk;
    StreamV { buf: leftover(b), heard: with_frames(s.heard, frames(b)) }
}

pub open spec fn silent() -> HeardV {
    HeardV {
        text: Seq::empty(),
        reasoning: Seq::empty(),
        usage_in: 0,
        usage_out: 0,
        cost: Seq::empty(),
        calls: Seq::empty(),
        said: Seq::empty(),
    }
}

// ---- the code -----------------------------------------------------------------------------

fn amount_of(v: Option<&Json>) -> (r: Option<String>)
    ensures
        opt_text(r) == amount(
            match v {
                Some(j) => Some(j@),
                None => None,
            },
        ),
{
    match v {
        Some(j) => match j {
            Json::Unsigned(_) => Some(render(j)),
            Json::Negative(_) => Some(render(j)),
            Json::Fraction { text, whole: _ } => Some(text.clone()),
            _ => None,
        },
        None => None,
    }
}

fn price(u: &Json) -> (r: Vec<String>)
    ensures
        texts(r@) == priced(u@),
{
    let mut out: Vec<String> = Vec::new();
    match amount_of(u.get("cost")) {
        Some(c) => {
            out.push(c);
            assert(texts(out@) =~= priced(u@));
        },
        None => {
            let a = amount_of(u.get("input_cost"));
            let b = amount_of(u.get("output_cost"));
            match (a, b) {
                (Some(a), Some(b)) => {
                    out.push(a);
                    out.push(b);
                },
                _ => {},
            }
            assert(texts(out@) =~= priced(u@));
        },
    }
    out
}

impl Heard {
    fn hear_reasoning(&mut self, d: &Json)
        ensures
            final(self)@ == with_reasoning(old(self)@, d@),
    {
        let r: Option<String> = match d.get("reasoning") {
            Some(v) => match v.as_str() {
                Some(s) => Some(s.clone()),
                None => None,
            },
            None => d.get_str("reasoning_content"),
        };
        match r {
            Some(t) => {
                let ghost before = deltas(self.said@);
                self.reasoning.append(t.as_str());
                self.said.push(Delta::Reasoning(t));
                assert(deltas(self.said@) =~= before.push(DeltaV::Reasoning(t@)));
            },
            None => {},
        }
    }

    fn hear_content(&mut self, d: &Json)
        ensures
            final(self)@ == with_content(old(self)@, d@),
    {
        match d.get_str("content") {
            Some(t) => {
                let ghost before = deltas(self.said@);
                self.text.append(t.as_str());
                self.said.push(Delta::Text(t));
                assert(deltas(self.said@) =~= before.push(DeltaV::Text(t@)));
            },
            None => {},
        }
    }

    fn hear_usage(&mut self, v: &Json)
        ensures
            final(self)@ == with_usage(old(self)@, v@),
    {
        match v.get("usage") {
            Some(u) => {
                match u.get_u64("prompt_tokens") {
                    Some(n) => {
                        self.usage_in = n;
                    },
                    None => {},
                }
                match u.get_u64("completion_tokens") {
                    Some(n) => {
                        self.usage_out = n;
                    },
                    None => {},
                }
                if self.cost.len() == 0 {
                    self.cost = price(u);
                }
            },
            None => {},
        }
    }

    fn hear_fragment(&mut self, t: &Json)
        ensures
            final(self)@ == (HeardV { calls: with_fragment(old(self)@.calls, t@), ..old(self)@ }),
    {
        let index: u64 = match t.get_u64("index") {
            Some(n) => n,
            None => 0,
        };
        let ghost c0 = pending(self.calls@);
        let mut k: usize = 0;
        assert(c0.skip(0) =~= c0);
        while k < self.calls.len() && self.calls[k].index < index
            invariant
                k <= self.calls.len(),
                c0 == pending(self.calls@),
                slot(c0, index) == k + slot(c0.skip(k as int), index),
                *self == *old(self),
            decreases self.calls.len() - k,
        {
            assert(c0.skip(k as int)[0] == self.calls@[k as int]@);
            assert(c0.skip(k as int).skip(1) =~= c0.skip(k + 1));
            k += 1;
        }
        assert(k < c0.len() ==> c0.skip(k as int)[0] == self.calls@[k as int]@);
        assert(slot(c0, index) == k);
        let present: bool = k < self.calls.len() && self.calls[k].index == index;
        if !present {
            let ghost before = self.calls@;
            self.calls.insert(
                k,
                PendingCall { index, id: None, name: None, arguments: String::new() },
            );
            assert(pending(self.calls@) =~= opened(c0, index));
        }
        let ghost c1 = pending(self.calls@);
        assert(c1 =~= opened(c0, index));
        let ghost cur = self.calls@[k as int];
        let mut id: Option<String> = copy_opt(&self.calls[k].id);
        let mut name: Option<String> = copy_opt(&self.calls[k].name);
        let mut arguments: String = self.calls[k].arguments.clone();
        match t.get_str("id") {
            Some(s) => {
                id = Some(s);
            },
            None => {},
        }
        match t.get("function") {
            Some(f) => {
                match f.get_str("name") {
                    Some(s) => {
                        name = Some(s);
                    },
                    None => {},
                }
                match f.get_str("arguments") {
                    Some(s) => {
                        arguments.append(s.as_str());
                    },
                    None => {},
                }
            },
            None => {},
        }
        let next = PendingCall { index, id, name, arguments };
        assert(c1[k as int].index == index);
        assert(next@ == continued(c1[k as int], t@));
        self.calls.set(k, next);
        assert(pending(self.calls@) =~= c1.update(k as int, next@));
    }

    fn hear_calls(&mut self, d: &Json)
        ensures
            final(self)@ == with_calls(old(self)@, d@),
    {
        match d.get("tool_calls") {
            Some(v) => {
                match v.as_array() {
                    Some(ts) => {
                        let ghost t = jsons(ts@);
                        let ghost h0 = self@;
                        let mut i: usize = 0;
                        assert(t.take(0) =~= Seq::empty());
                        while i < ts.len()
                            invariant
                                i <= ts.len(),
                                t == jsons(ts@),
                                self@ == (HeardV {
                                    calls: with_fragments(h0.calls, t.take(i as int)),
                                    ..h0
                                }),
                            decreases ts.len() - i,
                        {
                            assert(t.take(i + 1).drop_last() =~= t.take(i as int));
                            self.hear_fragment(&ts[i]);
                            i += 1;
                        }
                        assert(t.take(t.len() as int) =~= t);
                    },
                    None => {},
                }
            },
            None => {},
        }
    }

    fn hear_event(&mut self, v: &Json)
        ensures
            final(self)@ == with_event(old(self)@, v@),
    {
        match v.get("choices") {
            Some(c) => {
                match c.as_array() {
                    Some(choices) => {
                        if choices.len() > 0 {
                            assert(jsons(choices@)[0] == choices@[0]@);
                            match choices[0].get("delta") {
                                Some(d) => {
                                    self.hear_reasoning(d);
                                    self.hear_content(d);
                                    self.hear_usage(v);
                                    self.hear_calls(d);
                                },
                                None => {},
                            }
                        }
                    },
                    None => {},
                }
            },
            None => {},
        }
    }

    fn hear_line(&mut self, l: &str)
        ensures
            final(self)@ == with_line(old(self)@, l@),
    {
        let t = trim(l);
        if !starts_with(t.as_str(), "data:") {
            return;
        }
        proof {
            reveal_strlit("data:");
        }
        let n: usize = t.as_str().unicode_len();
        let rest = slice(t.as_str(), 5, n);
        assert(rest@ =~= t@.skip(5));
        let data = trim(rest.as_str());
        if same(data.as_str(), "[DONE]") {
            return;
        }
        match parse(data.as_str()) {
            Some(v) => {
                self.hear_event(&v);
            },
            None => {},
        }
    }

    fn hear_frame(&mut self, frame: &[u8])
        ensures
            final(self)@ == with_frame(old(self)@, frame@),
    {
        let t = lossy(frame);
        let lines = split(t.as_str(), '\n');
        let ghost ls = texts(lines@);
        let ghost h0 = self@;
        let mut i: usize = 0;
        assert(ls.take(0) =~= Seq::empty());
        while i < lines.len()
            invariant
                i <= lines.len(),
                ls == texts(lines@),
                self@ == with_lines(h0, ls.take(i as int)),
            decreases lines.len() - i,
        {
            assert(ls.take(i + 1).drop_last() =~= ls.take(i as int));
            self.hear_line(lines[i].as_str());
            i += 1;
        }
        assert(ls.take(ls.len() as int) =~= ls);
    }
}

fn find_gap(b: &Vec<u8>, from: usize) -> (r: Option<usize>)
    ensures
        match r {
            Some(p) => gap_from(b@, from as int) == Some(p as int),
            None => gap_from(b@, from as int) is None,
        },
{
    let mut i: usize = from;
    while i < b.len() && 1 < b.len() - i
        invariant
            gap_from(b@, from as int) == gap_from(b@, i as int),
        decreases b.len() - i,
    {
        if b[i] == 10 && b[i + 1] == 10 {
            return Some(i);
        }
        i += 1;
    }
    None
}

proof fn gap_shift(b: Seq<u8>, at: int, i: int)
    requires
        0 <= at,
        0 <= i,
        at <= b.len(),
    ensures
        match gap_from(b, at + i) {
            Some(p) => gap_from(b.skip(at), i) == Some(p - at),
            None => gap_from(b.skip(at), i) is None,
        },
    decreases b.len() - i,
{
    if at + i + 2 <= b.len() && !(b[at + i] == 10 && b[at + i + 1] == 10) {
        gap_shift(b, at, i + 1);
    }
}

impl Stream {
    /// A stream of which nothing has arrived.
    pub fn new() -> (r: Stream)
        ensures
            r@ == (StreamV { buf: Seq::empty(), heard: silent() }),
    {
        let r = Stream {
            buf: Vec::new(),
            heard: Heard {
                text: String::new(),
                reasoning: String::new(),
                usage_in: 0,
                usage_out: 0,
                cost: Vec::new(),
                calls: Vec::new(),
                said: Vec::new(),
            },
        };
        assert(r@.heard.cost =~= Seq::empty());
        assert(r@.heard.calls =~= Seq::empty());
        assert(r@.heard.said =~= Seq::empty());
        r
    }

    /// Takes the bytes that have just arrived.
    pub fn feed(&mut self, chunk: &[u8])
        ensures
            final(self)@ == fed(old(self)@, chunk@),
    {
        let mut i: usize = 0;
        while i < chunk.len()
            invariant
                i <= chunk.len(),
                self.heard@ == old(self).heard@,
                self.buf@ == old(self).buf@ + chunk@.take(i as int),
            decreases chunk.len() - i,
        {
            self.buf.push(chunk[i]);
            i += 1;
        }
        assert(chunk@.take(chunk@.len() as int) =~= chunk@);
        let ghost b = self.buf@;
        let ghost h0 = self.heard@;
        let mut at: usize = 0;
        assert(b.skip(0) =~= b);
        let mut next: Option<usize> = find_gap(&self.buf, 0);
        while next.is_some()
            invariant
                at <= b.len(),
                b == self.buf@,
                match next {
                    Some(p) => gap_from(b, at as int) == Some(p as int),
                    None => gap_from(b, at as int) is None,
                },
                with_frames(h0, frames(b)) == with_frames(self.heard@, frames(b.skip(at as int))),
                leftover(b) == leftover(b.skip(at as int)),
            decreases b.len() - at,
        {
            let p: usize = next.unwrap();
            let ghost rest = b.skip(at as int);
            proof {
                gap_bound(b, at as int);
                gap_shift(b, at as int, 0);
            }
            assert(p + 2 <= self.buf.len());
            let frame = slice_subrange(self.buf.as_slice(), at, p + 2);
            assert(frame@ =~= rest.take(p - at + 2));
            assert(rest.skip(p - at + 2) =~= b.skip(p + 2));
            assert(frames(rest)[0] == frame@);
            assert(frames(rest).skip(1) =~= frames(b.skip(p + 2)));
            self.heard.hear_frame(frame);
            at = p + 2;
            next = find_gap(&self.buf, at);
        }
        proof {
            gap_shift(b, at as int, 0);
            assert(frames(b.skip(at as int)) =~= Seq::empty());
        }
        let rest = self.buf.split_off(at);
        assert(rest@ =~= b.skip(at as int));
        self.buf = rest;
    }

    /// Takes what is to be shown.
    pub fn take_said(&mut self) -> (r: Vec<Delta>)
        ensures
            deltas(r@) == old(self)@.heard.said,
            final(self)@ == (StreamV {
                heard: HeardV { said: Seq::empty(), ..old(self)@.heard },
                ..old(self)@
            }),
    {
        let mut out: Vec<Delta> = Vec::new();
        out.append(&mut self.heard.said);
        assert(deltas(out@) =~= old(self)@.heard.said);
        assert(deltas(self.heard.said@) =~= Seq::empty());
        out
    }

    /// The completion that was heard, once the stream has ended or was stopped.
    pub fn finish(self) -> (r: Completion)
        ensures
            r@ == finished(self@.heard),
    {
        let h = self.heard;
        let ghost c = pending(h.calls@);
        let mut tool_calls: Vec<ToolCall> = Vec::new();
        let mut i: usize = 0;
        while i < h.calls.len()
            invariant
                i <= h.calls.len(),
                c == pending(h.calls@),
                tool_calls@.len() == i,
                forall|k: int| 0 <= k < i ==> (#[trigger] tool_calls@[k])@ == finished_call(c[k]),
            decreases h.calls.len() - i,
        {
            let p = &h.calls[i];
            let id: String = match &p.id {
                Some(id) => id.clone(),
                None => {
                    let mut s = "call_".to_string();
                    s.append(decimal(p.index).as_str());
                    s
                },
            };
            let name: String = match &p.name {
                Some(n) => n.clone(),
                None => String::new(),
            };
            let arguments: Json = match parse(p.arguments.as_str()) {
                Some(v) => v,
                None => Json::Null,
            };
            let tc = ToolCall { id, name, arguments };
            assert(tc@ == finished_call(c[i as int]));
            tool_calls.push(tc);
            i += 1;
        }
        assert(calls_view(tool_calls@) =~= finished(self@.heard).tool_calls);
        Completion {
            text: h.text,
            tool_calls,
            usage: (h.usage_in, h.usage_out),
            cost: h.cost,
            reasoning: h.reasoning,
        }
    }
}

/// A call whose fragments have all come. One without an id is named after its index, and
/// arguments that are no JSON are none.
pub open spec fn finished_call(c: PendingV) -> ToolCallV {
    ToolCallV {
        id: match c.id {
            Some(id) => id,
            None => "call_"@ + decimal_of(c.index as nat),
        },
        name: match c.name {
            Some(n) => n,
            None => Seq::empty(),
        },
        arguments: match json_parse(c.arguments) {
            Some(v) => v,
            None => JsonV::Null,
        },
    }
}

pub open spec fn finished(h: HeardV) -> CompletionV {
    CompletionV {
        text: h.text,
        tool_calls: Seq::new(h.calls.len(), |i: int| finished_call(h.calls[i])),
        usage: (h.usage_in, h.usage_out),
        cost: h.cost,
        reasoning: h.reasoning,
    }
}

// ---- what holds of every stream --------------------------------------------------------------

proof fn gap_extends(x: Seq<u8>, b: Seq<u8>, i: int)
    requires
        0 <= i,
        gap_from(x, i) is Some,
    ensures
        gap_from(x + b, i) == gap_from(x, i),
    decreases x.len() - i,
{
    if !(x[i] == 10 && x[i + 1] == 10) {
        gap_extends(x, b, i + 1);
    }
    assert((x + b)[i] == x[i]);
    assert((x + b)[i + 1] == x[i + 1]);
}

proof fn frames_concat(x: Seq<u8>, b: Seq<u8>)
    ensures
        frames(x + b) == frames(x) + frames(leftover(x) + b),
        leftover(x + b) == leftover(leftover(x) + b),
    decreases x.len(),
{
    match gap_from(x, 0) {
        Some(p) => {
            gap_bound(x, 0);
            gap_extends(x, b, 0);
            frames_concat(x.skip(p + 2), b);
            assert((x + b).take(p + 2) =~= x.take(p + 2));
            assert((x + b).skip(p + 2) =~= x.skip(p + 2) + b);
            assert(frames(x + b) =~= frames(x) + frames(leftover(x) + b));
        },
        None => {
            assert(frames(x + b) =~= frames(x) + frames(leftover(x) + b));
        },
    }
}

proof fn with_frames_concat(h: HeardV, f: Seq<Seq<u8>>, g: Seq<Seq<u8>>)
    ensures
        with_frames(h, f + g) == with_frames(with_frames(h, f), g),
    decreases f.len(),
{
    if f.len() == 0 {
        assert(f + g =~= g);
    } else {
        with_frames_concat(with_frame(h, f[0]), f.skip(1), g);
        assert((f + g).skip(1) =~= f.skip(1) + g);
        assert((f + g)[0] == f[0]);
    }
}

/// Where the network cuts the bytes makes no difference: two chunks are heard as one.
pub proof fn chunk_boundaries_do_not_matter(s: StreamV, a: Seq<u8>, b: Seq<u8>)
    ensures
        fed(fed(s, a), b) == fed(s, a + b),
{
    let x = s.buf + a;
    frames_concat(x, b);
    with_frames_concat(s.heard, frames(x), frames(leftover(x) + b));
    assert(x + b =~= s.buf + (a + b));
}

/// Whether the calls stand by ascending index, each index once.
pub open spec fn by_index(calls: Seq<PendingV>) -> bool {
    forall|i: int, j: int| 0 <= i < j < calls.len() ==> calls[i].index < calls[j].index
}

proof fn slot_bound(calls: Seq<PendingV>, index: u64)
    ensures
        0 <= slot(calls, index) <= calls.len(),
        forall|i: int| 0 <= i < slot(calls, index) ==> calls[i].index < index,
        slot(calls, index) < calls.len() ==> calls[slot(calls, index)].index >= index,
    decreases calls.len(),
{
    if calls.len() > 0 && calls[0].index < index {
        let t = calls.skip(1);
        slot_bound(t, index);
        assert forall|i: int| 0 <= i < slot(calls, index) implies calls[i].index < index by {
            if i > 0 {
                assert(t[i - 1] == calls[i]);
            }
        }
    }
}

proof fn fragment_keeps_order(calls: Seq<PendingV>, t: JsonV)
    requires
        by_index(calls),
    ensures
        by_index(with_fragment(calls, t)),
{
    let idx = fragment_index(t);
    slot_bound(calls, idx);
    let k = slot(calls, idx);
    let c = opened(calls, idx);
    assert(by_index(c)) by {
        assert forall|i: int, j: int| 0 <= i < j < c.len() implies c[i].index < c[j].index by {
            if !(k < calls.len() && calls[k].index == idx) {
                let i0 = if i < k { i } else { i - 1 };
                let j0 = if j < k { j } else { j - 1 };
                if k < calls.len() {
                    assert(calls[k].index > idx);
                    assert(j > k ==> calls[j0].index >= calls[k].index);
                }
            }
        }
    }
    let r = with_fragment(calls, t);
    assert forall|i: int, j: int| 0 <= i < j < r.len() implies r[i].index < r[j].index by {
        assert(c[i].index < c[j].index);
        assert(r[i].index == c[i].index);
        assert(r[j].index == c[j].index);
    }
}

proof fn fragments_keep_order(calls: Seq<PendingV>, ts: Seq<JsonV>)
    requires
        by_index(calls),
    ensures
        by_index(with_fragments(calls, ts)),
    decreases ts.len(),
{
    if ts.len() > 0 {
        fragments_keep_order(calls, ts.drop_last());
        fragment_keeps_order(with_fragments(calls, ts.drop_last()), ts.last());
    }
}

proof fn lines_keep_order(h: HeardV, ls: Seq<Seq<char>>)
    requires
        by_index(h.calls),
    ensures
        by_index(with_lines(h, ls).calls),
    decreases ls.len(),
{
    if ls.len() > 0 {
        let m = with_lines(h, ls.drop_last());
        lines_keep_order(h, ls.drop_last());
        match line_event(ls.last()) {
            Some(v) => match delta_of(v) {
                Some(d) => match d.field("tool_calls"@) {
                    Some(JsonV::Array(ts)) => {
                        fragments_keep_order(m.calls, ts);
                    },
                    _ => {},
                },
                None => {},
            },
            None => {},
        }
    }
}

proof fn frames_keep_order(h: HeardV, f: Seq<Seq<u8>>)
    requires
        by_index(h.calls),
    ensures
        by_index(with_frames(h, f).calls),
    decreases f.len(),
{
    if f.len() > 0 {
        lines_keep_order(h, split_of(lossy_of(f[0]), '\n'));
        frames_keep_order(with_frame(h, f[0]), f.skip(1));
    }
}

/// The tool calls of an answer stand by ascending index, each index once, whatever arrives.
pub proof fn calls_stand_by_index(s: StreamV, chunk: Seq<u8>)
    requires
        by_index(s.heard.calls),
    ensures
        by_index(fed(s, chunk).heard.calls),
{
    frames_keep_order(s.heard, frames(s.buf + chunk));
}

// ---- what a stream is for --------------------------------------------------------------------------

/// The arguments heard so far of the call with an index; none where there is no such call.
pub open spec fn arguments_at(calls: Seq<PendingV>, index: u64) -> Seq<char>
    decreases calls.len(),
{
    if calls.len() == 0 {
        Seq::empty()
    } else if calls[0].index == index {
        calls[0].arguments
    } else {
        arguments_at(calls.skip(1), index)
    }
}

/// The arguments that a fragment carries.
pub open spec fn piece_of(t: JsonV) -> Seq<char> {
    match t.field("function"@) {
        Some(f) => match f.field("arguments"@) {
            Some(JsonV::Text(a)) => a,
            _ => Seq::empty(),
        },
        None => Seq::empty(),
    }
}

/// Whether a fragment belongs to the call with an index. One that names no index is of the first.
pub open spec fn is_for(t: JsonV, index: u64) -> bool {
    match t.field("index"@) {
        Some(JsonV::Unsigned(n)) => n == index,
        _ => index == 0,
    }
}

/// The arguments that fragments carry for the call with an index, one behind the other.
pub open spec fn pieces_for(ts: Seq<JsonV>, index: u64) -> Seq<char>
    decreases ts.len(),
{
    if ts.len() == 0 {
        Seq::empty()
    } else {
        pieces_for(ts.drop_last(), index) + if is_for(ts.last(), index) {
            piece_of(ts.last())
        } else {
            Seq::empty()
        }
    }
}

/// The arguments of a call are those that stand with it.
pub proof fn arguments_stand_with_their_call(calls: Seq<PendingV>, index: u64)
    requires
        by_index(calls),
    ensures
        forall|k: int|
            0 <= k < calls.len() && (#[trigger] calls[k]).index == index ==> arguments_at(calls, index)
                == calls[k].arguments,
        (forall|k: int| 0 <= k < calls.len() ==> (#[trigger] calls[k]).index != index)
            ==> arguments_at(calls, index) == Seq::<char>::empty(),
    decreases calls.len(),
{
    if calls.len() > 0 {
        let rest = calls.skip(1);
        assert forall|i: int, j: int| 0 <= i < j < rest.len() implies rest[i].index
            < rest[j].index by {
            assert(calls[i + 1].index < calls[j + 1].index);
        }
        arguments_stand_with_their_call(rest, index);
        assert forall|k: int| 0 <= k < calls.len() && (#[trigger] calls[k]).index
            == index implies arguments_at(calls, index) == calls[k].arguments by {
            if k > 0 {
                assert(calls[0].index < calls[k].index);
                assert(rest[k - 1] == calls[k]);
            }
        }
        if forall|k: int| 0 <= k < calls.len() ==> (#[trigger] calls[k]).index != index {
            assert forall|k: int| 0 <= k < rest.len() implies (#[trigger] rest[k]).index
                != index by {
                assert(rest[k] == calls[k + 1]);
            }
            assert(calls[0].index != index);
        }
    }
}

/// A fragment adds its arguments to the call of its index, whatever else it carries, and gives that
/// call its id and its name where it has them. It opens the call where it is the first, and touches
/// no other.
pub proof fn a_fragment_goes_to_its_call(calls: Seq<PendingV>, t: JsonV, index: u64)
    requires
        by_index(calls),
    ensures
        ({
            let after = with_fragment(calls, t);
            &&& by_index(after)
            &&& arguments_at(after, index) == arguments_at(calls, index) + if is_for(t, index) {
                piece_of(t)
            } else {
                Seq::empty()
            }
            &&& is_for(t, index) ==> exists|k: int|
                0 <= k < after.len() && (#[trigger] after[k]).index == index
            &&& forall|k: int, j: int|
                0 <= k < after.len() && 0 <= j < calls.len() && (#[trigger] after[k]).index == (
                #[trigger] calls[j]).index && is_for(t, after[k].index) ==> after[k].id == (
                match t.field("id"@) {
                    Some(JsonV::Text(id)) => Some(id),
                    _ => calls[j].id,
                }) && after[k].name == (match t.field("function"@) {
                    Some(f) => match f.field("name"@) {
                        Some(JsonV::Text(n)) => Some(n),
                        _ => calls[j].name,
                    },
                    None => calls[j].name,
                })
            &&& forall|j: int|
                0 <= j < calls.len() && !is_for(t, (#[trigger] calls[j]).index) ==> after.contains(
                    calls[j],
                )
            &&& forall|k: int|
                0 <= k < after.len() && !is_for(t, (#[trigger] after[k]).index) ==> calls.contains(
                    after[k],
                )
            &&& forall|k: int|
                0 <= k < after.len() && is_for(t, (#[trigger] after[k]).index) && (forall|j: int|
                    0 <= j < calls.len() ==> (#[trigger] calls[j]).index != after[k].index)
                    ==> after[k].id == (match t.field("id"@) {
                    Some(JsonV::Text(id)) => Some(id),
                    _ => None,
                }) && after[k].name == (match t.field("function"@) {
                    Some(f) => match f.field("name"@) {
                        Some(JsonV::Text(n)) => Some(n),
                        _ => None,
                    },
                    None => None,
                })
        }),
{
    let after = with_fragment(calls, t);
    fragment_keeps_order(calls, t);
    let idx = fragment_index(t);
    slot_bound(calls, idx);
    let s = slot(calls, idx);
    let c = opened(calls, idx);
    let had = s < calls.len() && calls[s].index == idx;
    assert(is_for(t, index) <==> index == idx);
    assert(after[s].index == idx);
    arguments_stand_with_their_call(calls, index);
    arguments_stand_with_their_call(after, index);
    assert forall|j: int| 0 <= j < calls.len() && (#[trigger] calls[j]).index == idx implies had && j
        == s by {
        if j < s {
            assert(calls[j].index < idx);
        } else if j > s {
            assert(calls[s].index < calls[j].index);
        }
    }
    assert forall|k: int| 0 <= k < after.len() && (#[trigger] after[k]).index == idx implies k
        == s by {
        if k < s {
            assert(after[k].index < after[s].index);
        } else if k > s {
            assert(after[s].index < after[k].index);
        }
    }
    assert forall|j: int| 0 <= j < calls.len() && (#[trigger] calls[j]).index
        != idx implies after.contains(calls[j]) by {
        let k = if had || j < s {
            j
        } else {
            j + 1
        };
        assert(after[k] == calls[j]);
    }
    assert forall|k: int| 0 <= k < after.len() && (#[trigger] after[k]).index
        != idx implies calls.contains(after[k]) by {
        let j = if had || k < s {
            k
        } else {
            k - 1
        };
        assert(after[k] == calls[j]);
    }
    if index == idx {
        if had {
            assert(calls[s].index == index);
            assert(arguments_at(calls, index) == calls[s].arguments);
        } else {
            assert(arguments_at(calls, index) == Seq::<char>::empty());
        }
        assert(arguments_at(after, index) == after[s].arguments);
        assert(after[s].arguments =~= arguments_at(calls, index) + piece_of(t));
    } else {
        if exists|j: int| 0 <= j < calls.len() && (#[trigger] calls[j]).index == index {
            let j = choose|j: int| 0 <= j < calls.len() && (#[trigger] calls[j]).index == index;
            assert(after.contains(calls[j]));
            let k = choose|k: int| 0 <= k < after.len() && after[k] == calls[j];
            assert(after[k].index == index);
        } else {
            assert forall|k: int| 0 <= k < after.len() implies (#[trigger] after[k]).index
                != index by {
                if after[k].index == index {
                    assert(calls.contains(after[k]));
                    let j = choose|j: int| 0 <= j < calls.len() && calls[j] == after[k];
                    assert(calls[j].index == index);
                }
            }
        }
        assert(arguments_at(after, index) =~= arguments_at(calls, index) + Seq::<char>::empty());
    }
}

/// The arguments of a call are all the pieces that came for its index, in the order in which they
/// came.
pub proof fn arguments_are_put_together(calls: Seq<PendingV>, ts: Seq<JsonV>, index: u64)
    requires
        by_index(calls),
    ensures
        by_index(with_fragments(calls, ts)),
        arguments_at(with_fragments(calls, ts), index) == arguments_at(calls, index) + pieces_for(
            ts,
            index,
        ),
    decreases ts.len(),
{
    if ts.len() > 0 {
        let mid = with_fragments(calls, ts.drop_last());
        arguments_are_put_together(calls, ts.drop_last(), index);
        a_fragment_goes_to_its_call(mid, ts.last(), index);
    }
    assert(arguments_at(with_fragments(calls, ts), index) =~= arguments_at(calls, index)
        + pieces_for(ts, index));
}

/// A field of the delta of an event's first choice.
pub open spec fn told(v: JsonV, key: Seq<char>) -> Option<JsonV> {
    match v.field("choices"@) {
        Some(JsonV::Array(choices)) => if choices.len() > 0 {
            match choices[0].field("delta"@) {
                Some(d) => d.field(key),
                None => None,
            }
        } else {
            None
        },
        _ => None,
    }
}

/// The words of a field, where it holds words.
pub open spec fn words(v: Option<JsonV>) -> Seq<char> {
    match v {
        Some(JsonV::Text(t)) => t,
        _ => Seq::empty(),
    }
}

/// The thinking that an event tells.
pub open spec fn thinking(v: JsonV) -> Seq<char> {
    if told(v, "reasoning"@) is Some {
        words(told(v, "reasoning"@))
    } else {
        words(told(v, "reasoning_content"@))
    }
}

/// The fragments of calls that an event tells.
pub open spec fn fragments_in(v: JsonV) -> Seq<JsonV> {
    match told(v, "tool_calls"@) {
        Some(JsonV::Array(ts)) => ts,
        _ => Seq::empty(),
    }
}

/// What deltas say, one behind the other: the thinking, or the text.
pub open spec fn shown_of(ds: Seq<DeltaV>, thinking: bool) -> Seq<char>
    decreases ds.len(),
{
    if ds.len() == 0 {
        Seq::empty()
    } else {
        shown_of(ds.drop_last(), thinking) + match ds.last() {
            DeltaV::Reasoning(r) => if thinking {
                r
            } else {
                Seq::empty()
            },
            DeltaV::Text(t) => if thinking {
                Seq::empty()
            } else {
                t
            },
        }
    }
}

/// An event adds its text to the text, its thinking to the thinking, and the arguments of each of
/// its fragments to the call of that index. What it adds to either is what is shown.
pub proof fn an_event_adds_what_it_tells(h: HeardV, v: JsonV, index: u64)
    requires
        by_index(h.calls),
    ensures
        ({
            let after = with_event(h, v);
            &&& by_index(after.calls)
            &&& after.text == h.text + words(told(v, "content"@))
            &&& after.reasoning == h.reasoning + thinking(v)
            &&& arguments_at(after.calls, index) == arguments_at(h.calls, index) + pieces_for(
                fragments_in(v),
                index,
            )
            &&& shown_of(after.said, false) == shown_of(h.said, false) + words(told(v, "content"@))
            &&& shown_of(after.said, true) == shown_of(h.said, true) + thinking(v)
            &&& after.said.len() >= h.said.len()
            &&& after.said.take(h.said.len() as int) == h.said
        }),
{
    let after = with_event(h, v);
    match delta_of(v) {
        Some(d) => {
            let a = with_reasoning(h, d);
            let b = with_content(a, d);
            assert(a.reasoning =~= h.reasoning + thinking(v));
            assert(b.text =~= h.text + words(told(v, "content"@)));
            assert(after.calls == with_fragments(h.calls, fragments_in(v)));
            arguments_are_put_together(h.calls, fragments_in(v), index);
            assert(after.said == b.said);
            match delta_reasoning(d) {
                Some(r) => {
                    assert(a.said.drop_last() =~= h.said);
                },
                None => {},
            }
            match d.text_field("content"@) {
                Some(t) => {
                    assert(b.said.drop_last() =~= a.said);
                },
                None => {},
            }
            assert(shown_of(a.said, true) =~= shown_of(h.said, true) + thinking(v));
            assert(shown_of(a.said, false) =~= shown_of(h.said, false));
            assert(shown_of(b.said, true) =~= shown_of(a.said, true));
            assert(shown_of(b.said, false) =~= shown_of(a.said, false) + words(
                told(v, "content"@),
            ));
            assert(after.said.take(h.said.len() as int) =~= h.said);
        },
        None => {
            assert(told(v, "content"@) is None);
            assert(told(v, "reasoning"@) is None);
            assert(told(v, "reasoning_content"@) is None);
            assert(told(v, "tool_calls"@) is None);
            assert(after.text =~= h.text + words(told(v, "content"@)));
            assert(after.reasoning =~= h.reasoning + thinking(v));
            assert(arguments_at(after.calls, index) =~= arguments_at(h.calls, index) + pieces_for(
                fragments_in(v),
                index,
            ));
            assert(shown_of(after.said, false) =~= shown_of(h.said, false) + words(
                told(v, "content"@),
            ));
            assert(shown_of(after.said, true) =~= shown_of(h.said, true) + thinking(v));
            assert(after.said.take(h.said.len() as int) =~= h.said);
        },
    }
}

/// Of what an answer took, the last word counts; of what it cost, the first.
pub proof fn usage_is_the_last_and_the_price_the_first(h: HeardV, v: JsonV, u: JsonV)
    requires
        v.field("usage"@) == Some(u),
        match v.field("choices"@) {
            Some(JsonV::Array(choices)) => choices.len() > 0 && choices[0].field("delta"@) is Some,
            _ => false,
        },
    ensures
        ({
            let after = with_event(h, v);
            &&& u.field("prompt_tokens"@) matches Some(JsonV::Unsigned(n)) ==> after.usage_in == n
            &&& !(u.field("prompt_tokens"@) matches Some(JsonV::Unsigned(_))) ==> after.usage_in
                == h.usage_in
            &&& u.field("completion_tokens"@) matches Some(JsonV::Unsigned(n)) ==> after.usage_out
                == n
            &&& !(u.field("completion_tokens"@) matches Some(JsonV::Unsigned(_)))
                ==> after.usage_out == h.usage_out
            &&& h.cost.len() > 0 ==> after.cost == h.cost
            &&& h.cost.len() == 0 ==> match u.field("cost"@) {
                Some(JsonV::Fraction { text, whole }) => after.cost == seq![text],
                Some(JsonV::Unsigned(n)) => after.cost == seq![written(JsonV::Unsigned(n))],
                Some(JsonV::Negative(n)) => after.cost == seq![written(JsonV::Negative(n))],
                _ => match (u.field("input_cost"@), u.field("output_cost"@)) {
                    (
                        Some(JsonV::Fraction { text: a, whole: _ }),
                        Some(JsonV::Fraction { text: b, whole: _ }),
                    ) => after.cost == seq![a, b],
                    (Some(JsonV::Unsigned(a)), Some(JsonV::Unsigned(b))) => after.cost == seq![
                        written(JsonV::Unsigned(a)),
                        written(JsonV::Unsigned(b)),
                    ],
                    (Some(JsonV::Text(_)), _) => after.cost == h.cost,
                    (None, _) => after.cost == h.cost,
                    (_, None) => after.cost == h.cost,
                    _ => after.cost.len() == 0 || after.cost.len() == 2,
                },
            }
        }),
{
}

/// The events of lines, in order.
pub open spec fn events_in(ls: Seq<Seq<char>>) -> Seq<JsonV>
    decreases ls.len(),
{
    if ls.len() == 0 {
        Seq::empty()
    } else {
        let before = events_in(ls.drop_last());
        match line_event(ls.last()) {
            Some(v) => before.push(v),
            None => before,
        }
    }
}

/// A line that begins with `data:` carries the JSON behind it, unless it says that the stream is
/// over. Other lines carry nothing. The space around either does not count.
pub proof fn a_data_line_carries_its_json(l: Seq<char>, d: Seq<char>)
    ensures
        trim_of(l) == "data:"@ + d && trim_of(d) != "[DONE]"@ ==> line_event(l) == json_parse(
            trim_of(d),
        ),
        trim_of(l) == "data:"@ + d && trim_of(d) == "[DONE]"@ ==> line_event(l) is None,
        trim_of(l).len() < 5 || trim_of(l).take(5) != "data:"@ ==> line_event(l) is None,
{
    reveal_strlit("data:");
    let t = trim_of(l);
    if t == "data:"@ + d {
        assert(t.skip(5) =~= d);
        assert(t.take(5) =~= "data:"@);
    }
}

/// The events of frames, in order: those of all their lines.
pub open spec fn events_of(fs: Seq<Seq<u8>>) -> Seq<JsonV>
    decreases fs.len(),
{
    if fs.len() == 0 {
        Seq::empty()
    } else {
        events_in(split_of(lossy_of(fs[0]), '\n')) + events_of(fs.skip(1))
    }
}

/// What is heard once events have come, one after the other.
pub open spec fn with_events(h: HeardV, vs: Seq<JsonV>) -> HeardV
    decreases vs.len(),
{
    if vs.len() == 0 {
        h
    } else {
        with_event(with_events(h, vs.drop_last()), vs.last())
    }
}

proof fn events_add_up(h: HeardV, a: Seq<JsonV>, b: Seq<JsonV>)
    ensures
        with_events(h, a + b) == with_events(with_events(h, a), b),
    decreases b.len(),
{
    if b.len() == 0 {
        assert(a + b =~= a);
    } else {
        events_add_up(h, a, b.drop_last());
        assert((a + b).drop_last() =~= a + b.drop_last());
    }
}

proof fn lines_tell_their_events(h: HeardV, ls: Seq<Seq<char>>)
    ensures
        with_lines(h, ls) == with_events(h, events_in(ls)),
    decreases ls.len(),
{
    if ls.len() > 0 {
        lines_tell_their_events(h, ls.drop_last());
        match line_event(ls.last()) {
            Some(v) => {
                assert(events_in(ls).drop_last() =~= events_in(ls.drop_last()));
            },
            None => {},
        }
    }
}

proof fn frames_tell_their_events(h: HeardV, fs: Seq<Seq<u8>>)
    ensures
        with_frames(h, fs) == with_events(h, events_of(fs)),
    decreases fs.len(),
{
    if fs.len() > 0 {
        let a = events_in(split_of(lossy_of(fs[0]), '\n'));
        lines_tell_their_events(h, split_of(lossy_of(fs[0]), '\n'));
        frames_tell_their_events(with_frame(h, fs[0]), fs.skip(1));
        events_add_up(h, a, events_of(fs.skip(1)));
    }
}

/// The words that events tell, one behind the other: the thinking, or the text.
pub open spec fn words_told(vs: Seq<JsonV>, thought: bool) -> Seq<char>
    decreases vs.len(),
{
    if vs.len() == 0 {
        Seq::empty()
    } else {
        words_told(vs.drop_last(), thought) + if thought {
            thinking(vs.last())
        } else {
            words(told(vs.last(), "content"@))
        }
    }
}

/// All fragments of calls that events tell, in order.
pub open spec fn fragments_told(vs: Seq<JsonV>) -> Seq<JsonV>
    decreases vs.len(),
{
    if vs.len() == 0 {
        Seq::empty()
    } else {
        fragments_told(vs.drop_last()) + fragments_in(vs.last())
    }
}

proof fn pieces_add_up(a: Seq<JsonV>, b: Seq<JsonV>, index: u64)
    ensures
        pieces_for(a + b, index) == pieces_for(a, index) + pieces_for(b, index),
    decreases b.len(),
{
    if b.len() == 0 {
        assert(a + b =~= a);
    } else {
        pieces_add_up(a, b.drop_last(), index);
        assert((a + b).drop_last() =~= a + b.drop_last());
    }
    assert(pieces_for(a + b, index) =~= pieces_for(a, index) + pieces_for(b, index));
}

proof fn events_add_what_they_tell(h: HeardV, vs: Seq<JsonV>, index: u64)
    requires
        by_index(h.calls),
    ensures
        ({
            let after = with_events(h, vs);
            &&& by_index(after.calls)
            &&& after.text == h.text + words_told(vs, false)
            &&& after.reasoning == h.reasoning + words_told(vs, true)
            &&& arguments_at(after.calls, index) == arguments_at(h.calls, index) + pieces_for(
                fragments_told(vs),
                index,
            )
            &&& shown_of(after.said, false) == shown_of(h.said, false) + words_told(vs, false)
            &&& shown_of(after.said, true) == shown_of(h.said, true) + words_told(vs, true)
        }),
    decreases vs.len(),
{
    let after = with_events(h, vs);
    if vs.len() > 0 {
        let mid = with_events(h, vs.drop_last());
        events_add_what_they_tell(h, vs.drop_last(), index);
        an_event_adds_what_it_tells(mid, vs.last(), index);
        pieces_add_up(fragments_told(vs.drop_last()), fragments_in(vs.last()), index);
    }
    assert(after.text =~= h.text + words_told(vs, false));
    assert(after.reasoning =~= h.reasoning + words_told(vs, true));
    assert(arguments_at(after.calls, index) =~= arguments_at(h.calls, index) + pieces_for(
        fragments_told(vs),
        index,
    ));
    assert(shown_of(after.said, false) =~= shown_of(h.said, false) + words_told(vs, false));
    assert(shown_of(after.said, true) =~= shown_of(h.said, true) + words_told(vs, true));
}

/// Nothing that arrives is lost: the text is every piece of text that the events told, the thinking
/// every piece of thinking, and the arguments of the call with an index every piece of arguments
/// that came for that index, each in order of arrival. What is shown is the same text and thinking.
pub proof fn what_arrives_is_heard(s: StreamV, chunk: Seq<u8>, index: u64)
    requires
        by_index(s.heard.calls),
    ensures
        ({
            let vs = events_of(frames(s.buf + chunk));
            let h = s.heard;
            let after = fed(s, chunk).heard;
            &&& after.text == h.text + words_told(vs, false)
            &&& after.reasoning == h.reasoning + words_told(vs, true)
            &&& arguments_at(after.calls, index) == arguments_at(h.calls, index) + pieces_for(
                fragments_told(vs),
                index,
            )
            &&& shown_of(after.said, false) == shown_of(h.said, false) + words_told(vs, false)
            &&& shown_of(after.said, true) == shown_of(h.said, true) + words_told(vs, true)
        }),
{
    let fs = frames(s.buf + chunk);
    frames_tell_their_events(s.heard, fs);
    events_add_what_they_tell(s.heard, events_of(fs), index);
}

/// The frames are the bytes, cut behind each empty line: no byte is lost or moved, each frame ends
/// at the first empty line in it, and what is left over holds none.
pub proof fn frames_are_the_bytes(b: Seq<u8>)
    ensures
        frames(b).flatten() + leftover(b) == b,
        forall|k: int|
            0 <= k < frames(b).len() ==> {
                let f = #[trigger] frames(b)[k];
                &&& f.len() >= 2
                &&& f[f.len() - 1] == 10
                &&& f[f.len() - 2] == 10
                &&& forall|i: int| 0 <= i < f.len() - 2 ==> !(f[i] == 10 && #[trigger] f[i + 1] == 10)
            },
        forall|i: int|
            0 <= i < leftover(b).len() - 1 ==> !(leftover(b)[i] == 10 && #[trigger] leftover(b)[i + 1]
                == 10),
    decreases b.len(),
{
    gap_bound(b, 0);
    match gap_from(b, 0) {
        Some(p) => {
            let f = b.take(p + 2);
            let rest = b.skip(p + 2);
            frames_are_the_bytes(rest);
            assert(frames(b) =~= seq![f] + frames(rest));
            assert(frames(b).drop_first() =~= frames(rest));
            assert(frames(b)[0] == f);
            assert(frames(b).flatten() + leftover(b) =~= f + (frames(rest).flatten() + leftover(
                rest,
            )));
            assert(f + rest =~= b);
            assert forall|k: int| 0 <= k < frames(b).len() implies ({
                let f = #[trigger] frames(b)[k];
                &&& f.len() >= 2
                &&& f[f.len() - 1] == 10
                &&& f[f.len() - 2] == 10
                &&& forall|i: int| 0 <= i < f.len() - 2 ==> !(f[i] == 10 && #[trigger] f[i + 1] == 10)
            }) by {
                if k > 0 {
                    assert(frames(b)[k] == frames(rest)[k - 1]);
                } else {
                    assert forall|i: int| 0 <= i < f.len() - 2 implies !(f[i] == 10 && #[trigger] f[i
                        + 1] == 10) by {
                        assert(f[i] == b[i]);
                        assert(f[i + 1] == b[i + 1]);
                    }
                }
            }
        },
        None => {
            assert(frames(b).flatten() + leftover(b) =~= b);
        },
    }
}

/// A finished answer is what was heard: the text, the thinking, and one call for each that came, in
/// their order, each with its id, its name, and its arguments read as JSON.
pub proof fn the_answer_is_what_was_heard(h: HeardV, k: int)
    requires
        0 <= k < h.calls.len(),
    ensures
        finished(h).text == h.text,
        finished(h).reasoning == h.reasoning,
        finished(h).usage.0 == h.usage_in,
        finished(h).usage.1 == h.usage_out,
        finished(h).cost == h.cost,
        finished(h).tool_calls.len() == h.calls.len(),
        h.calls[k].id is Some ==> finished(h).tool_calls[k].id == h.calls[k].id->Some_0,
        h.calls[k].id is None ==> finished(h).tool_calls[k].id == "call_"@ + decimal_of(
            h.calls[k].index as nat,
        ),
        h.calls[k].name is Some ==> finished(h).tool_calls[k].name == h.calls[k].name->Some_0,
        h.calls[k].name is None ==> finished(h).tool_calls[k].name.len() == 0,
        json_parse(h.calls[k].arguments) is Some ==> Some(finished(h).tool_calls[k].arguments)
            == json_parse(h.calls[k].arguments),
        json_parse(h.calls[k].arguments) is None ==> finished(h).tool_calls[k].arguments is Null,
{
}

/// An id and a name that came stay until another comes, and both are those of the last fragment that
/// gave one.
pub proof fn the_last_id_and_name_count(calls: Seq<PendingV>, t: JsonV, k: int)
    requires
        by_index(calls),
        0 <= k < with_fragment(calls, t).len(),
        is_for(t, with_fragment(calls, t)[k].index),
    ensures
        t.field("id"@) matches Some(JsonV::Text(id)) ==> with_fragment(calls, t)[k].id == Some(id),
        t.field("function"@) matches Some(f) ==> (f.field("name"@) matches Some(JsonV::Text(n))
            ==> with_fragment(calls, t)[k].name == Some(n)),
{
    let after = with_fragment(calls, t);
    a_fragment_goes_to_its_call(calls, t, after[k].index);
    if exists|j: int| 0 <= j < calls.len() && (#[trigger] calls[j]).index == after[k].index {
        let j = choose|j: int| 0 <= j < calls.len() && (#[trigger] calls[j]).index == after[k].index;
        assert(calls[j].index == after[k].index);
    }
}

/// An event without a delta says nothing, and one without a usage block says nothing of what was
/// used.
pub proof fn an_event_says_nothing_else(h: HeardV, v: JsonV)
    ensures
        !(v.field("choices"@) matches Some(JsonV::Array(choices)) && choices.len() > 0
            && choices[0].field("delta"@) is Some) ==> with_event(h, v) == h,
        v.field("usage"@) is None ==> with_event(h, v).usage_in == h.usage_in && with_event(
            h,
            v,
        ).usage_out == h.usage_out && with_event(h, v).cost == h.cost,
        fragments_in(v).len() == 0 ==> with_event(h, v).calls == h.calls,
{
}

/// How a number is written; nothing of what is no number.
pub open spec fn number_text(v: Option<JsonV>) -> Option<Seq<char>> {
    match v {
        Some(JsonV::Fraction { text, whole }) => Some(text),
        Some(JsonV::Unsigned(n)) => Some(written(JsonV::Unsigned(n))),
        Some(JsonV::Negative(n)) => Some(written(JsonV::Negative(n))),
        _ => None,
    }
}

/// An answer costs what its usage says: in one number, or in two where both are given.
pub proof fn an_answer_costs_what_it_says(h: HeardV, v: JsonV, u: JsonV)
    requires
        v.field("usage"@) == Some(u),
        match v.field("choices"@) {
            Some(JsonV::Array(choices)) => choices.len() > 0 && choices[0].field("delta"@) is Some,
            _ => false,
        },
        h.cost.len() == 0,
    ensures
        ({
            let cost = with_event(h, v).cost;
            let a = number_text(u.field("input_cost"@));
            let b = number_text(u.field("output_cost"@));
            &&& number_text(u.field("cost"@)) matches Some(c) ==> cost == seq![c]
            &&& number_text(u.field("cost"@)) is None && a is Some && b is Some ==> cost == seq![
                a->Some_0,
                b->Some_0,
            ]
            &&& number_text(u.field("cost"@)) is None && (a is None || b is None) ==> cost.len() == 0
        }),
{
}

} // verus!
