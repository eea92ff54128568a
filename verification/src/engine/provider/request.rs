//! The request that a chat provider is sent.

use vstd::prelude::*;

use crate::engine::identity::{agent, session_id, session_id_of, Identity, SESSION_HEADER};
use crate::engine::{msgs, plain_text, Msg, MsgV, Part, PartV};
use crate::json::{
    a_field_reads_back, array, copy_jsons, jsons, no_field_to_read, obj, object, render, written,
    Json, JsonV,
};
use crate::text::{
    blank, chars_of, copy_opt, opt_text, same, starts, string_of, texts, trim,
    trim_is_empty_iff_blank, trim_of,
};

verus! {

/// A generic OpenAI-compatible chat provider: OpenAI itself, and any gateway or local server
/// with the `/chat/completions` contract.
#[derive(Debug)]
pub struct ChatProvider {
    pub base_url: String,
    pub api_key: String,
    pub model: String,
    /// The sampling temperature, as JSON writes the number.
    pub temperature: String,
    /// The reasoning level to ask for. `None` leaves the field out of the request, so that
    /// providers that take no level are never sent one.
    pub reasoning_effort: Option<String>,
    /// The conversation that requests belong to; blank for none.
    pub session: String,
}

// ---- messages --------------------------------------------------------------------------------

pub open spec fn role_item(role: Seq<char>, content: JsonV) -> JsonV {
    obj().with_text("role"@, role).with("content"@, content)
}

/// The picture part of a user message.
pub open spec fn image_item(url: Seq<char>) -> JsonV {
    obj().with_text("type"@, "image_url"@).with("image_url"@, obj().with_text("url"@, url))
}

pub open spec fn image_items(parts: Seq<PartV>) -> Seq<JsonV>
    decreases parts.len(),
{
    if parts.len() == 0 {
        Seq::empty()
    } else {
        let p = image_items(parts.drop_last());
        match parts.last() {
            PartV::ImageData(u) => p.push(image_item(u)),
            _ => p,
        }
    }
}

/// The content of a user message: plain text, or a list where there are pictures.
pub open spec fn user_content(m: MsgV) -> JsonV {
    let t = plain_text(m);
    let images = image_items(m.parts);
    if images.len() == 0 {
        JsonV::Text(t)
    } else if t.len() == 0 {
        JsonV::Array(images)
    } else {
        JsonV::Array(
            seq![obj().with_text("type"@, "text"@).with_text("text"@, t)] + images,
        )
    }
}

/// The texts of an assistant message, one behind the other.
pub open spec fn spoken(parts: Seq<PartV>) -> Seq<char>
    decreases parts.len(),
{
    if parts.len() == 0 {
        Seq::empty()
    } else {
        let p = spoken(parts.drop_last());
        match parts.last() {
            PartV::Text(t) => p + t,
            _ => p,
        }
    }
}

pub open spec fn call_item(id: Seq<char>, name: Seq<char>, arguments: JsonV) -> JsonV {
    obj().with_text("id"@, id).with_text("type"@, "function"@).with(
        "function"@,
        obj().with_text("name"@, name).with_text("arguments"@, written(arguments)),
    )
}

pub open spec fn call_items(parts: Seq<PartV>) -> Seq<JsonV>
    decreases parts.len(),
{
    if parts.len() == 0 {
        Seq::empty()
    } else {
        let p = call_items(parts.drop_last());
        match parts.last() {
            PartV::ToolCall(tc) => p.push(call_item(tc.id, tc.name, tc.arguments)),
            _ => p,
        }
    }
}

pub open spec fn result_item(id: Seq<char>, content: Seq<char>) -> JsonV {
    obj().with_text("role"@, "tool"@).with_text("tool_call_id"@, id).with_text("content"@, content)
}

pub open spec fn result_items(parts: Seq<PartV>) -> Seq<JsonV>
    decreases parts.len(),
{
    if parts.len() == 0 {
        Seq::empty()
    } else {
        let p = result_items(parts.drop_last());
        match parts.last() {
            PartV::ToolResult { id, name, content } => p.push(result_item(id, content)),
            _ => p,
        }
    }
}

/// What a message is sent as. Thinking and failed runs are never sent; an assistant turn that
/// has neither text nor calls, and a system turn without text, are left out.
pub open spec fn sent_as(m: MsgV) -> Seq<JsonV> {
    if m.role == "system"@ {
        if plain_text(m).len() == 0 {
            Seq::empty()
        } else {
            seq![role_item("system"@, JsonV::Text(plain_text(m)))]
        }
    } else if m.role == "user"@ {
        seq![role_item("user"@, user_content(m))]
    } else if m.role == "assistant"@ {
        let said = role_item("assistant"@, JsonV::Text(spoken(m.parts)));
        let calls = call_items(m.parts);
        if calls.len() > 0 {
            seq![said.with("tool_calls"@, JsonV::Array(calls))]
        } else if spoken(m.parts).len() > 0 {
            seq![said]
        } else {
            Seq::empty()
        }
    } else if m.role == "tool"@ {
        result_items(m.parts)
    } else {
        Seq::empty()
    }
}

/// What a history is sent as.
pub open spec fn all_sent_as(h: Seq<MsgV>) -> Seq<JsonV>
    decreases h.len(),
{
    if h.len() == 0 {
        Seq::empty()
    } else {
        all_sent_as(h.drop_last()) + sent_as(h.last())
    }
}

/// The body of a request.
pub open spec fn request_body(
    model: Seq<char>,
    temperature: Seq<char>,
    effort: Option<Seq<char>>,
    h: Seq<MsgV>,
    tools: Seq<JsonV>,
) -> JsonV {
    let base = obj().with_text("model"@, model).with(
        "messages"@,
        JsonV::Array(all_sent_as(h)),
    ).with("temperature"@, JsonV::Fraction { text: temperature, whole: 0 }).with(
        "stream"@,
        JsonV::Bool(true),
    );
    let tooled = if tools.len() > 0 {
        base.with("tools"@, JsonV::Array(tools))
    } else {
        base
    };
    match effort {
        Some(e) => tooled.with_text("reasoning_effort"@, e),
        None => tooled,
    }
}

fn image_list(m: &Msg) -> (r: Vec<Json>)
    ensures
        jsons(r@) == image_items(m@.parts),
{
    let ghost p = m@.parts;
    let mut out: Vec<Json> = Vec::new();
    let mut i: usize = 0;
    assert(jsons(out@) =~= image_items(p.take(0)));
    while i < m.parts.len()
        invariant
            i <= m.parts.len(),
            p == m@.parts,
            jsons(out@) == image_items(p.take(i as int)),
        decreases m.parts.len() - i,
    {
        assert(p.take(i + 1).drop_last() =~= p.take(i as int));
        match &m.parts[i] {
            Part::ImageData(u) => {
                let ghost before = jsons(out@);
                let item = object().with_text("type", "image_url").with(
                    "image_url",
                    object().with_text("url", u.as_str()),
                );
                out.push(item);
                assert(jsons(out@) =~= before.push(image_item(u@)));
            },
            _ => {},
        }
        i += 1;
    }
    assert(p.take(p.len() as int) =~= p);
    out
}

fn user_item(m: &Msg) -> (r: Json)
    ensures
        r@ == role_item("user"@, user_content(m@)),
{
    let t = m.plain_text_parts();
    let mut images = image_list(m);
    let content: Json = if images.len() == 0 {
        Json::Text(t)
    } else if t.as_str().unicode_len() == 0 {
        array(images)
    } else {
        let ghost im = jsons(images@);
        let mut list: Vec<Json> = Vec::new();
        list.push(object().with_text("type", "text").with_text("text", t.as_str()));
        list.append(&mut images);
        assert(jsons(list@) =~= user_content(m@)->Array_0);
        array(list)
    };
    object().with_text("role", "user").with("content", content)
}

fn assistant_item(m: &Msg) -> (r: Option<Json>)
    ensures
        match r {
            Some(j) => ({
                let said = role_item("assistant"@, JsonV::Text(spoken(m@.parts)));
                let calls = call_items(m@.parts);
                if calls.len() > 0 {
                    j@ == said.with("tool_calls"@, JsonV::Array(calls))
                } else {
                    j@ == said && spoken(m@.parts).len() > 0
                }
            }),
            None => spoken(m@.parts).len() == 0 && call_items(m@.parts).len() == 0,
        },
{
    let ghost p = m@.parts;
    let mut text = String::new();
    let mut calls: Vec<Json> = Vec::new();
    let mut i: usize = 0;
    assert(jsons(calls@) =~= call_items(p.take(0)));
    while i < m.parts.len()
        invariant
            i <= m.parts.len(),
            p == m@.parts,
            text@ == spoken(p.take(i as int)),
            jsons(calls@) == call_items(p.take(i as int)),
        decreases m.parts.len() - i,
    {
        assert(p.take(i + 1).drop_last() =~= p.take(i as int));
        match &m.parts[i] {
            Part::Text(t) => {
                text.append(t.as_str());
            },
            Part::ToolCall(tc) => {
                let ghost before = jsons(calls@);
                let a = render(&tc.arguments);
                let f = object().with_text("name", tc.name.as_str()).with_text(
                    "arguments",
                    a.as_str(),
                );
                let item = object().with_text("id", tc.id.as_str()).with_text(
                    "type",
                    "function",
                ).with("function", f);
                calls.push(item);
                assert(jsons(calls@) =~= before.push(
                    call_item(tc.id@, tc.name@, tc.arguments@),
                ));
            },
            _ => {},
        }
        i += 1;
    }
    assert(p.take(p.len() as int) =~= p);
    assert(jsons(calls@).len() == calls@.len());
    if text.as_str().unicode_len() == 0 && calls.len() == 0 {
        return None;
    }
    let o = object().with_text("role", "assistant").with_text("content", text.as_str());
    if calls.len() > 0 {
        Some(o.with("tool_calls", array(calls)))
    } else {
        Some(o)
    }
}

fn result_list(m: &Msg) -> (r: Vec<Json>)
    ensures
        jsons(r@) == result_items(m@.parts),
{
    let ghost p = m@.parts;
    let mut out: Vec<Json> = Vec::new();
    let mut i: usize = 0;
    assert(jsons(out@) =~= result_items(p.take(0)));
    while i < m.parts.len()
        invariant
            i <= m.parts.len(),
            p == m@.parts,
            jsons(out@) == result_items(p.take(i as int)),
        decreases m.parts.len() - i,
    {
        assert(p.take(i + 1).drop_last() =~= p.take(i as int));
        match &m.parts[i] {
            Part::ToolResult { id, name: _, content } => {
                let ghost before = jsons(out@);
                let item = object().with_text("role", "tool").with_text(
                    "tool_call_id",
                    id.as_str(),
                ).with_text("content", content.as_str());
                out.push(item);
                assert(jsons(out@) =~= before.push(result_item(id@, content@)));
            },
            _ => {},
        }
        i += 1;
    }
    assert(p.take(p.len() as int) =~= p);
    out
}

fn send_as(m: &Msg) -> (r: Vec<Json>)
    ensures
        jsons(r@) == sent_as(m@),
{
    let mut out: Vec<Json> = Vec::new();
    let role = m.role.as_str();
    if same(role, "system") {
        let t = m.plain_text_parts();
        if t.as_str().unicode_len() > 0 {
            out.push(object().with_text("role", "system").with_text("content", t.as_str()));
        }
        assert(jsons(out@) =~= sent_as(m@));
        out
    } else if same(role, "user") {
        out.push(user_item(m));
        assert(jsons(out@) =~= sent_as(m@));
        out
    } else if same(role, "assistant") {
        match assistant_item(m) {
            Some(j) => {
                out.push(j);
            },
            None => {},
        }
        assert(jsons(out@) =~= sent_as(m@));
        out
    } else if same(role, "tool") {
        result_list(m)
    } else {
        assert(jsons(out@) =~= sent_as(m@));
        out
    }
}

// ---- the provider --------------------------------------------------------------------------------

/// `s` without the slashes at its end.
pub open spec fn unslashed(s: Seq<char>) -> Seq<char>
    decreases s.len(),
{
    if s.len() > 0 && s.last() == '/' {
        unslashed(s.drop_last())
    } else {
        s
    }
}

/// `s` without the slashes at its end.
pub fn trim_end_slashes(s: &str) -> (r: String)
    ensures
        r@ == unslashed(s@),
{
    let v = chars_of(s);
    let mut n: usize = v.len();
    assert(v@.take(n as int) =~= v@);
    while n > 0 && v[n - 1] == '/'
        invariant
            n <= v.len(),
            v@ == s@,
            unslashed(s@) == unslashed(v@.take(n as int)),
        decreases n,
    {
        assert(v@.take(n as int).drop_last() =~= v@.take(n - 1));
        n -= 1;
    }
    assert(v@.subrange(0, n as int) =~= v@.take(n as int));
    string_of(&v, 0, n)
}

/// A level that is not blank, without the whitespace around it.
pub open spec fn chosen_effort(e: Option<Seq<char>>) -> Option<Seq<char>> {
    match e {
        Some(s) => if blank(s) {
            None
        } else {
            Some(trim_of(s))
        },
        None => None,
    }
}

/// The names and values of headers.
pub open spec fn header_views(v: Seq<(String, String)>) -> Seq<(Seq<char>, Seq<char>)> {
    Seq::new(v.len(), |i: int| (v[i].0@, v[i].1@))
}

/// Whether a turn begins with `r`: the body to send, or nothing where the run was stopped before, or
/// an error where there is nobody to send it to.
pub open spec fn begins_with(
    r: Result<Option<Json>, String>,
    base_url: Seq<char>,
    cancelled: bool,
    body: JsonV,
) -> bool {
    match r {
        Ok(Some(b)) => !cancelled && base_url.len() > 0 && b@ == body,
        Ok(None) => cancelled,
        Err(e) => !cancelled && base_url.len() == 0 && e@ == "no provider configured"@,
    }
}

/// The headers of a request: who is asking and for which conversation, and the key where there is
/// one.
pub open spec fn headers_of(who: Identity, session: Seq<char>, key: Seq<char>) -> Seq<
    (Seq<char>, Seq<char>),
> {
    let base = seq![
        ("Accept"@, "text/event-stream"@),
        ("User-Agent"@, who.agent@),
        (SESSION_HEADER@, session_id_of(who, session)),
    ];
    if key.len() == 0 {
        base
    } else {
        base.push(("Authorization"@, "Bearer "@ + key))
    }
}

impl ChatProvider {
    pub fn new(
        base_url: String,
        api_key: String,
        model: String,
        temperature: String,
        reasoning_effort: Option<String>,
    ) -> (r: ChatProvider)
        ensures
            r.base_url@ == unslashed(base_url@),
            r.api_key@ == api_key@,
            r.model@ == model@,
            r.temperature@ == temperature@,
            opt_text(r.reasoning_effort) == chosen_effort(opt_text(reasoning_effort)),
            r.session@ == Seq::<char>::empty(),
    {
        ChatProvider::with_session(
            base_url,
            api_key,
            model,
            temperature,
            reasoning_effort,
            String::new(),
        )
    }

    /// A provider whose requests belong to the conversation `session`.
    pub fn with_session(
        base_url: String,
        api_key: String,
        model: String,
        temperature: String,
        reasoning_effort: Option<String>,
        session: String,
    ) -> (r: ChatProvider)
        ensures
            r.base_url@ == unslashed(base_url@),
            r.api_key@ == api_key@,
            r.model@ == model@,
            r.temperature@ == temperature@,
            opt_text(r.reasoning_effort) == chosen_effort(opt_text(reasoning_effort)),
            r.session@ == session@,
    {
        let effort: Option<String> = match reasoning_effort {
            Some(e) => {
                let t = trim(e.as_str());
                proof {
                    trim_is_empty_iff_blank(e@);
                }
                if t.as_str().unicode_len() == 0 {
                    None
                } else {
                    Some(t)
                }
            },
            None => None,
        };
        ChatProvider {
            base_url: trim_end_slashes(base_url.as_str()),
            api_key,
            model,
            temperature,
            reasoning_effort: effort,
            session,
        }
    }

    /// Where completions are asked for.
    pub fn url(&self) -> (r: String)
        ensures
            r@ == self.base_url@ + "/chat/completions"@,
    {
        let mut s = self.base_url.clone();
        s.append("/chat/completions");
        s
    }

    /// The headers of a request: who is asking and for which conversation, and the key where
    /// there is one.
    pub fn headers(&self, who: &Identity) -> (r: Vec<(String, String)>)
        ensures
            header_views(r@) == headers_of(*who, self.session@, self.api_key@),
    {
        let mut out: Vec<(String, String)> = Vec::new();
        out.push(("Accept".to_string(), "text/event-stream".to_string()));
        out.push(("User-Agent".to_string(), agent(who).clone()));
        out.push((SESSION_HEADER.to_string(), session_id(who, self.session.as_str())));
        if self.api_key.as_str().unicode_len() > 0 {
            let mut bearer = "Bearer ".to_string();
            bearer.append(self.api_key.as_str());
            out.push(("Authorization".to_string(), bearer));
        }
        assert(header_views(out@) =~= ({
            let base = seq![
                ("Accept"@, "text/event-stream"@),
                ("User-Agent"@, who.agent@),
                (SESSION_HEADER@, session_id_of(*who, self.session@)),
            ];
            if self.api_key@.len() == 0 {
                base
            } else {
                base.push(("Authorization"@, "Bearer "@ + self.api_key@))
            }
        }));
        out
    }

    /// The body of a request for the next turn of `history`. A reasoning level is only sent
    /// where one was chosen: providers that do not know the field refuse the whole request.
    pub fn to_openai(&self, history: &[Msg], tools: &Vec<Json>) -> (r: Json)
        ensures
            r@ == request_body(
                self.model@,
                self.temperature@,
                opt_text(self.reasoning_effort),
                msgs(history@),
                jsons(tools@),
            ),
    {
        let ghost h = msgs(history@);
        let mut out: Vec<Json> = Vec::new();
        let mut i: usize = 0;
        assert(jsons(out@) =~= all_sent_as(h.take(0)));
        while i < history.len()
            invariant
                i <= history.len(),
                h == msgs(history@),
                jsons(out@) == all_sent_as(h.take(i as int)),
            decreases history.len() - i,
        {
            assert(h.take(i + 1).drop_last() =~= h.take(i as int));
            assert(h.take(i + 1).last() == history@[i as int]@);
            let mut more = send_as(&history[i]);
            let ghost before = jsons(out@);
            let ghost m = jsons(more@);
            out.append(&mut more);
            assert(jsons(out@) =~= before + m);
            i += 1;
        }
        assert(h.take(h.len() as int) =~= h);
        let mut body = object().with_text("model", self.model.as_str()).with(
            "messages",
            array(out),
        ).with(
            "temperature",
            Json::Fraction { text: self.temperature.clone(), whole: 0 },
        ).with("stream", Json::Bool(true));
        if tools.len() > 0 {
            body = body.with("tools", array(copy_jsons(tools)));
        }
        match &self.reasoning_effort {
            Some(e) => {
                body = body.with_text("reasoning_effort", e.as_str());
            },
            None => {},
        }
        body
    }

    /// What a turn begins with: the body to send; or nothing where the run was stopped before;
    /// or an error where no provider is configured.
    pub fn begin(
        &self,
        history: &[Msg],
        tools: &Vec<Json>,
        cancelled: bool,
    ) -> (r: Result<Option<Json>, String>)
        ensures
            begins_with(
                r,
                self.base_url@,
                cancelled,
                request_body(
                    self.model@,
                    self.temperature@,
                    opt_text(self.reasoning_effort),
                    msgs(history@),
                    jsons(tools@),
                ),
            ),
    {
        if cancelled {
            return Ok(None);
        }
        if self.base_url.as_str().unicode_len() == 0 {
            return Err("no provider configured".to_string());
        }
        Ok(Some(self.to_openai(history, tools)))
    }
}

impl Clone for ChatProvider {
    fn clone(&self) -> (r: ChatProvider)
        ensures
            r.base_url@ == self.base_url@,
            r.api_key@ == self.api_key@,
            r.model@ == self.model@,
            r.temperature@ == self.temperature@,
            opt_text(r.reasoning_effort) == opt_text(self.reasoning_effort),
            r.session@ == self.session@,
    {
        ChatProvider {
            base_url: self.base_url.clone(),
            api_key: self.api_key.clone(),
            model: self.model.clone(),
            temperature: self.temperature.clone(),
            reasoning_effort: copy_opt(&self.reasoning_effort),
            session: self.session.clone(),
        }
    }
}

/// A failed run and a thought are never sent: leaving them out of a message changes nothing
/// of what it is sent as.
pub proof fn failures_and_thoughts_are_never_sent(m: MsgV, p: PartV)
    requires
        p is Error || p is Reasoning,
    ensures
        sent_as(MsgV { role: m.role, parts: m.parts.push(p) }) == sent_as(m),
{
    let more = m.parts.push(p);
    assert(more.drop_last() =~= m.parts);
    assert(plain_text(MsgV { role: m.role, parts: more }) == plain_text(m));
    assert(image_items(more) == image_items(m.parts));
    assert(spoken(more) == spoken(m.parts));
    assert(call_items(more) == call_items(m.parts));
    assert(result_items(more) == result_items(m.parts));
}

// ---- what a request is for -------------------------------------------------------------------------

/// What the parts of two lists, one behind the other, are sent as is what those of the first are
/// sent as, and then those of the second.
pub proof fn parts_of_both(a: Seq<PartV>, b: Seq<PartV>)
    ensures
        image_items(a + b) == image_items(a) + image_items(b),
        call_items(a + b) == call_items(a) + call_items(b),
        result_items(a + b) == result_items(a) + result_items(b),
        spoken(a + b) == spoken(a) + spoken(b),
    decreases b.len(),
{
    if b.len() == 0 {
        assert(a + b =~= a);
    } else {
        parts_of_both(a, b.drop_last());
        assert((a + b).drop_last() =~= a + b.drop_last());
    }
    assert(image_items(a + b) =~= image_items(a) + image_items(b));
    assert(call_items(a + b) =~= call_items(a) + call_items(b));
    assert(result_items(a + b) =~= result_items(a) + result_items(b));
    assert(spoken(a + b) =~= spoken(a) + spoken(b));
}

/// A picture is sent with its address, a call with its id, its name and its arguments written as
/// JSON, a result with the id of its call and its content, and a text as it is.
pub proof fn a_part_is_sent_whole(p: PartV)
    ensures
        p matches PartV::ImageData(u) ==> image_items(seq![p]).len() == 1 && {
            let j = image_items(seq![p])[0];
            &&& j.field("type"@) == Some(JsonV::Text("image_url"@))
            &&& j.field("image_url"@) matches Some(i) && i.field("url"@) == Some(JsonV::Text(u))
        },
        p matches PartV::ToolCall(tc) ==> call_items(seq![p]).len() == 1 && {
            let j = call_items(seq![p])[0];
            &&& j.field("id"@) == Some(JsonV::Text(tc.id))
            &&& j.field("type"@) == Some(JsonV::Text("function"@))
            &&& j.field("function"@) matches Some(f) && f.field("name"@) == Some(JsonV::Text(tc.name))
                && f.field("arguments"@) == Some(JsonV::Text(written(tc.arguments)))
        },
        p matches PartV::ToolResult { id, name, content } ==> result_items(seq![p]).len() == 1 && {
            let j = result_items(seq![p])[0];
            &&& j.field("role"@) == Some(JsonV::Text("tool"@))
            &&& j.field("tool_call_id"@) == Some(JsonV::Text(id))
            &&& j.field("content"@) == Some(JsonV::Text(content))
        },
        p matches PartV::Text(t) ==> spoken(seq![p]) == t,
        !(p is ImageData) ==> image_items(seq![p]).len() == 0,
        !(p is ToolCall) ==> call_items(seq![p]).len() == 0,
        !(p is ToolResult) ==> result_items(seq![p]).len() == 0,
        !(p is Text) ==> spoken(seq![p]).len() == 0,
{
    broadcast use a_field_reads_back, no_field_to_read;

    reveal_strlit("type");
    reveal_strlit("image_url");
    reveal_strlit("url");
    reveal_strlit("id");
    reveal_strlit("function");
    reveal_strlit("name");
    reveal_strlit("arguments");
    reveal_strlit("role");
    reveal_strlit("tool_call_id");
    reveal_strlit("content");
    assert("type"@.len() == 4);
    assert("image_url"@.len() == 9);
    assert("url"@.len() == 3);
    assert("id"@.len() == 2);
    assert("function"@.len() == 8);
    assert("name"@.len() == 4);
    assert("arguments"@.len() == 9);
    assert("role"@.len() == 4);
    assert("tool_call_id"@.len() == 12);
    assert("content"@.len() == 7);
    assert("type"@[0] == 't' && "name"@[0] == 'n');
    assert("type"@[0] == 't' && "role"@[0] == 'r');
    assert("image_url"@[0] == 'i' && "arguments"@[0] == 'a');
    assert("name"@[0] == 'n' && "role"@[0] == 'r');
    let none = seq![p].drop_last();
    assert(none =~= Seq::empty());
    assert(image_items(none) =~= Seq::empty());
    assert(call_items(none) =~= Seq::empty());
    assert(result_items(none) =~= Seq::empty());
    assert(spoken(none) =~= Seq::empty());
    if p is Text {
        assert(spoken(seq![p]) =~= p->Text_0);
    }
}

/// What two histories, one behind the other, are sent as is what the first is sent as and then what
/// the second is sent as.
pub proof fn sent_of_both(a: Seq<MsgV>, b: Seq<MsgV>)
    ensures
        all_sent_as(a + b) == all_sent_as(a) + all_sent_as(b),
    decreases b.len(),
{
    if b.len() == 0 {
        assert(a + b =~= a);
    } else {
        sent_of_both(a, b.drop_last());
        assert((a + b).drop_last() =~= a + b.drop_last());
    }
    assert(all_sent_as(a + b) =~= all_sent_as(a) + all_sent_as(b));
}

proof fn sent_of_one(m: MsgV)
    ensures
        all_sent_as(seq![m]) == sent_as(m),
{
    assert(seq![m].drop_last() =~= Seq::empty());
    assert(all_sent_as(seq![m].drop_last()) =~= Seq::empty());
    assert(all_sent_as(seq![m]) =~= sent_as(m));
}

/// Who speaks.
proof fn roles_differ()
    ensures
        "system"@ != "user"@,
        "system"@ != "assistant"@,
        "system"@ != "tool"@,
        "user"@ != "assistant"@,
        "user"@ != "tool"@,
        "assistant"@ != "tool"@,
{
    reveal_strlit("system");
    reveal_strlit("user");
    reveal_strlit("assistant");
    reveal_strlit("tool");
    assert("system"@.len() == 6);
    assert("user"@.len() == 4);
    assert("assistant"@.len() == 9);
    assert("tool"@.len() == 4);
    assert("user"@[0] == 'u' && "tool"@[0] == 't');
}

/// The model is sent what the user said and every picture that came with it: one message, with the
/// text, and with the pictures in their order behind it.
pub proof fn a_user_message_is_sent_whole(m: MsgV)
    requires
        m.role == "user"@,
    ensures
        all_sent_as(seq![m]).len() == 1,
        ({
            let j = all_sent_as(seq![m])[0];
            let t = plain_text(m);
            let images = image_items(m.parts);
            &&& j.field("role"@) == Some(JsonV::Text("user"@))
            &&& images.len() == 0 ==> j.field("content"@) == Some(JsonV::Text(t))
            &&& images.len() > 0 ==> (j.field("content"@) matches Some(JsonV::Array(all)) && {
                let n = if t.len() == 0 {
                    0int
                } else {
                    1
                };
                &&& all.len() == n + images.len()
                &&& all.skip(n) == images
                &&& n == 1 ==> all[0].field("type"@) == Some(JsonV::Text("text"@))
                    && all[0].field("text"@) == Some(JsonV::Text(t))
            })
        }),
{
    broadcast use a_field_reads_back, no_field_to_read;

    reveal_strlit("role");
    reveal_strlit("content");
    reveal_strlit("type");
    reveal_strlit("text");
    assert("role"@.len() == 4);
    assert("content"@.len() == 7);
    assert("type"@.len() == 4);
    assert("text"@.len() == 4);
    assert("role"@[0] == 'r' && "type"@[0] == 't');
    assert("role"@[0] == 'r' && "text"@[0] == 't');
    assert("type"@[1] == 'y' && "text"@[1] == 'e');
    roles_differ();
    sent_of_one(m);
    let images = image_items(m.parts);
    if images.len() > 0 {
        match all_sent_as(seq![m])[0].field("content"@) {
            Some(JsonV::Array(all)) => {
                if plain_text(m).len() == 0 {
                    assert(all.skip(0) =~= images);
                } else {
                    assert(all.skip(1) =~= images);
                }
            },
            _ => {},
        }
    }
}

/// The model is sent what it said and every call that it made, in one message. A turn in which it
/// did neither is not sent.
pub proof fn an_assistant_message_is_sent_whole(m: MsgV)
    requires
        m.role == "assistant"@,
    ensures
        ({
            let sent = all_sent_as(seq![m]);
            let calls = call_items(m.parts);
            if calls.len() == 0 && spoken(m.parts).len() == 0 {
                sent.len() == 0
            } else {
                &&& sent.len() == 1
                &&& sent[0].field("role"@) == Some(JsonV::Text("assistant"@))
                &&& sent[0].field("content"@) == Some(JsonV::Text(spoken(m.parts)))
                &&& calls.len() > 0 ==> sent[0].field("tool_calls"@) == Some(JsonV::Array(calls))
                &&& calls.len() == 0 ==> sent[0].field("tool_calls"@) is None
            }
        }),
{
    broadcast use a_field_reads_back, no_field_to_read;

    reveal_strlit("role");
    reveal_strlit("content");
    reveal_strlit("tool_calls");
    assert("role"@.len() == 4);
    assert("content"@.len() == 7);
    assert("tool_calls"@.len() == 10);
    roles_differ();
    sent_of_one(m);
}

/// Every result goes back to the model, in a message of its own; and so does what the system says.
pub proof fn results_and_instructions_are_sent(m: MsgV)
    ensures
        m.role == "tool"@ ==> all_sent_as(seq![m]) == result_items(m.parts),
        m.role == "system"@ && plain_text(m).len() > 0 ==> all_sent_as(seq![m]).len() == 1
            && all_sent_as(seq![m])[0].field("role"@) == Some(JsonV::Text("system"@))
            && all_sent_as(seq![m])[0].field("content"@) == Some(JsonV::Text(plain_text(m))),
        m.role == "system"@ && plain_text(m).len() == 0 ==> all_sent_as(seq![m]).len() == 0,
{
    broadcast use a_field_reads_back, no_field_to_read;

    reveal_strlit("role");
    reveal_strlit("content");
    assert("role"@.len() == 4);
    assert("content"@.len() == 7);
    roles_differ();
    sent_of_one(m);
}

/// What a tool gave back reaches the model under the id of its call, whatever else the history
/// holds.
pub proof fn a_result_reaches_the_model(
    h: Seq<MsgV>,
    i: int,
    id: Seq<char>,
    name: Seq<char>,
    content: Seq<char>,
)
    requires
        0 <= i < h.len(),
        h[i].role == "tool"@,
        h[i].parts == seq![PartV::ToolResult { id, name, content }],
    ensures
        exists|k: int|
            0 <= k < all_sent_as(h).len() && (#[trigger] all_sent_as(h)[k]).field("tool_call_id"@)
                == Some(JsonV::Text(id)) && all_sent_as(h)[k].field("content"@) == Some(
                JsonV::Text(content),
            ),
{
    let a = h.take(i);
    let x = seq![h[i]];
    let b = h.skip(i + 1);
    assert(h =~= (a + x) + b);
    sent_of_both(a, x);
    sent_of_both(a + x, b);
    results_and_instructions_are_sent(h[i]);
    a_part_is_sent_whole(h[i].parts[0]);
    let k = all_sent_as(a).len() as int;
    assert(all_sent_as(h)[k] == result_items(h[i].parts)[0]);
}

/// A request names the model, holds the whole history, and asks for a stream; it holds the tools
/// where there are any, and a reasoning level exactly where one was chosen.
pub proof fn a_request_asks_for_all_of_it(
    model: Seq<char>,
    temperature: Seq<char>,
    effort: Option<Seq<char>>,
    h: Seq<MsgV>,
    tools: Seq<JsonV>,
)
    ensures
        ({
            let r = request_body(model, temperature, effort, h, tools);
            &&& r.field("model"@) == Some(JsonV::Text(model))
            &&& r.field("messages"@) == Some(JsonV::Array(all_sent_as(h)))
            &&& r.field("temperature"@) matches Some(JsonV::Fraction { text, whole }) && text
                == temperature
            &&& r.field("stream"@) == Some(JsonV::Bool(true))
            &&& tools.len() > 0 ==> r.field("tools"@) == Some(JsonV::Array(tools))
            &&& tools.len() == 0 ==> r.field("tools"@) is None
            &&& effort matches Some(e) ==> r.field("reasoning_effort"@) == Some(JsonV::Text(e))
            &&& effort is None ==> r.field("reasoning_effort"@) is None
        }),
{
    broadcast use a_field_reads_back, no_field_to_read;

    reveal_strlit("model");
    reveal_strlit("messages");
    reveal_strlit("temperature");
    reveal_strlit("stream");
    reveal_strlit("tools");
    reveal_strlit("reasoning_effort");
    assert("model"@.len() == 5);
    assert("messages"@.len() == 8);
    assert("temperature"@.len() == 11);
    assert("stream"@.len() == 6);
    assert("tools"@.len() == 5);
    assert("reasoning_effort"@.len() == 16);
    assert("model"@[0] == 'm' && "tools"@[0] == 't');
}

/// A level is sent where it says something, without the space around it.
pub proof fn a_level_is_sent_where_it_says_something(e: Seq<char>)
    ensures
        trim_of(e).len() > 0 ==> chosen_effort(Some(e)) == Some(trim_of(e)),
        trim_of(e).len() == 0 ==> chosen_effort(Some(e)) is None,
        chosen_effort(None) is None,
{
    trim_is_empty_iff_blank(e);
}

/// Slashes are taken from the end of an address, all of them, and nothing else is.
pub proof fn only_slashes_are_taken(s: Seq<char>)
    ensures
        starts(s, unslashed(s)),
        forall|i: int| unslashed(s).len() <= i < s.len() ==> #[trigger] s[i] == '/',
        unslashed(s).len() > 0 ==> unslashed(s).last() != '/',
    decreases s.len(),
{
    if s.len() > 0 && s.last() == '/' {
        let d = s.drop_last();
        only_slashes_are_taken(d);
        assert(s.take(unslashed(s).len() as int) =~= d.take(unslashed(s).len() as int));
        assert forall|i: int| unslashed(s).len() <= i < s.len() implies #[trigger] s[i] == '/' by {
            if i < d.len() {
                assert(d[i] == s[i]);
            }
        }
    } else {
        assert(s.take(s.len() as int) =~= s);
    }
}

/// Nothing is sent in another role.
pub proof fn nothing_is_sent_in_another_role(m: MsgV)
    requires
        m.role != "system"@,
        m.role != "user"@,
        m.role != "assistant"@,
        m.role != "tool"@,
    ensures
        all_sent_as(seq![m]).len() == 0,
{
    sent_of_one(m);
}

/// The calls that a message that is sent holds.
pub open spec fn calls_sent(j: JsonV) -> Seq<JsonV> {
    match j.field("tool_calls"@) {
        Some(JsonV::Array(calls)) => calls,
        _ => Seq::empty(),
    }
}

/// What the model said, and the calls that it made, reach it again whole: all its texts one behind
/// the other, and every call with its id, its name and its arguments, in their order.
pub proof fn a_call_reaches_the_model(h: Seq<MsgV>, i: int, k: int)
    requires
        0 <= i < h.len(),
        h[i].role == "assistant"@,
        0 <= k < h[i].parts.len(),
        h[i].parts[k] is ToolCall,
    ensures
        ({
            let tc = h[i].parts[k]->ToolCall_0;
            exists|a: int, b: int|
                0 <= a < all_sent_as(h).len() && 0 <= b < calls_sent(all_sent_as(h)[a]).len() && (
                #[trigger] calls_sent(all_sent_as(h)[a])[b]).field("id"@) == Some(JsonV::Text(tc.id))
                    && (calls_sent(all_sent_as(h)[a])[b].field("function"@) matches Some(f)
                    && f.field("name"@) == Some(JsonV::Text(tc.name)) && f.field("arguments"@) == Some(
                    JsonV::Text(written(tc.arguments)),
                ))
        }),
{
    let m = h[i];
    let x = seq![m];
    let before = h.take(i);
    let behind = h.skip(i + 1);
    assert(h =~= (before + x) + behind);
    sent_of_both(before, x);
    sent_of_both(before + x, behind);
    let p = m.parts.take(k);
    let c = seq![m.parts[k]];
    let q = m.parts.skip(k + 1);
    assert(m.parts =~= (p + c) + q);
    parts_of_both(p, c);
    parts_of_both(p + c, q);
    a_part_is_sent_whole(m.parts[k]);
    an_assistant_message_is_sent_whole(m);
    let b = call_items(p).len() as int;
    let calls = call_items(m.parts);
    assert(calls[b] == call_items(c)[0]);
    let a = all_sent_as(before).len() as int;
    assert(all_sent_as(h)[a] == all_sent_as(x)[0]);
    assert(calls_sent(all_sent_as(h)[a]) == calls);
    assert(calls_sent(all_sent_as(h)[a])[b].field("id"@) is Some);
}

/// Every request says who is asking and for which conversation, and carries the key exactly where
/// there is one.
pub proof fn a_request_is_signed(who: Identity, session: Seq<char>, key: Seq<char>)
    ensures
        headers_of(who, session, key).contains(("User-Agent"@, who.agent@)),
        headers_of(who, session, key).contains(("Accept"@, "text/event-stream"@)),
        !blank(session) ==> headers_of(who, session, key).contains(
            ("x-opencode-session"@, trim_of(session)),
        ),
        blank(session) ==> headers_of(who, session, key).contains(
            ("x-opencode-session"@, who.install@),
        ),
        key.len() > 0 ==> headers_of(who, session, key).contains(
            ("Authorization"@, "Bearer "@ + key),
        ) && headers_of(who, session, key).len() == 4,
        key.len() == 0 ==> headers_of(who, session, key).len() == 3,
{
    let h = headers_of(who, session, key);
    assert(h[0] == ("Accept"@, "text/event-stream"@));
    assert(h[1] == ("User-Agent"@, who.agent@));
    assert(h[2] == (SESSION_HEADER@, session_id_of(who, session)));
    if key.len() > 0 {
        assert(h[3] == ("Authorization"@, "Bearer "@ + key));
    }
}

/// A turn that was not stopped is sent, whole, wherever there is a provider to send it to.
pub proof fn a_turn_is_sent(
    r: Result<Option<Json>, String>,
    base_url: Seq<char>,
    cancelled: bool,
    body: JsonV,
)
    requires
        begins_with(r, base_url, cancelled, body),
    ensures
        !cancelled && base_url.len() > 0 ==> (r matches Ok(Some(b)) && b@ == body),
        cancelled ==> (r matches Ok(o) && o is None),
        !cancelled && base_url.len() == 0 ==> r is Err,
{
}

} // verus!
