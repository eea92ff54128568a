//! One request to a provider, from the first attempt to the end of the answer.
//!
//! A refused attempt is retried as long as nothing of an answer has come. Once tokens flow they
//! have been shown, so nothing is sent again.

use vstd::prelude::*;

use crate::engine::provider::request::{request_body, ChatProvider};
use crate::engine::provider::stream::{fed, finished, silent, Stream, StreamV};
use crate::engine::provider::{
    a_refusal_is_told, after_refusal, answers, refusal_text, wait_after, what_passes_is_waited_out,
    RetryNotice, Verdict, MAX_RETRIES,
};
use crate::engine::{msgs, nothing_said, Completion, CompletionV, Msg};
use crate::json::{jsons, Json};
use crate::text::{between, opt_text, within};

verus! {

/// What a request waits for.
#[derive(Debug, Clone, Copy, PartialEq, Eq, Structural)]
pub enum Stage {
    /// The response to an attempt.
    Sending,
    /// The end of a wait.
    Waiting,
    /// More of the answer.
    Streaming,
    /// Nothing: there is an outcome.
    Over,
}

/// A request that is under way.
#[derive(Debug)]
pub struct Exchange {
    /// The number of the attempt, counted from 1.
    pub attempt: u32,
    pub stage: Stage,
    pub stream: Stream,
    pub outcome: Option<Result<Completion, String>>,
}

pub struct ExchangeV {
    pub attempt: u32,
    pub stage: Stage,
    pub stream: StreamV,
    pub outcome: Option<Result<CompletionV, Seq<char>>>,
}

pub open spec fn outcome_view(o: Option<Result<Completion, String>>) -> Option<
    Result<CompletionV, Seq<char>>,
> {
    match o {
        Some(Ok(c)) => Some(Ok(c@)),
        Some(Err(e)) => Some(Err(e@)),
        None => None,
    }
}

impl View for Exchange {
    type V = ExchangeV;

    open spec fn view(&self) -> ExchangeV {
        ExchangeV {
            attempt: self.attempt,
            stage: self.stage,
            stream: self.stream@,
            outcome: outcome_view(self.outcome),
        }
    }
}

/// Something that a request was waiting for.
#[derive(Debug)]
pub enum Arrival {
    /// The request could not be sent.
    Unsent { error: String },
    /// The provider answers.
    Accepted,
    /// The provider refuses: its status, the wait that it asks for, the wait that the schedule
    /// has, both in milliseconds, and the text of the refusal.
    Refused {
        status: u16,
        status_line: String,
        asked: Option<u64>,
        backoff: u64,
        body: String,
    },
    /// The wait is over; and whether the run was stopped during it.
    Woken { cancelled: bool },
    /// More of the answer; and whether the run was stopped by then.
    Chunk { bytes: Vec<u8>, cancelled: bool },
    /// The answer broke off; and whether the run was stopped by then.
    Broken { error: String, cancelled: bool },
    /// The answer is complete.
    Ended,
}

pub enum ArrivalV {
    Unsent { error: Seq<char> },
    Accepted,
    Refused {
        status: u16,
        status_line: Seq<char>,
        asked: Option<u64>,
        backoff: u64,
        body: Seq<char>,
    },
    Woken { cancelled: bool },
    Chunk { bytes: Seq<u8>, cancelled: bool },
    Broken { error: Seq<char>, cancelled: bool },
    Ended,
}

impl View for Arrival {
    type V = ArrivalV;

    open spec fn view(&self) -> ArrivalV {
        match *self {
            Arrival::Unsent { error } => ArrivalV::Unsent { error: error@ },
            Arrival::Accepted => ArrivalV::Accepted,
            Arrival::Refused { status, status_line, asked, backoff, body } => ArrivalV::Refused {
                status,
                status_line: status_line@,
                asked,
                backoff,
                body: body@,
            },
            Arrival::Woken { cancelled } => ArrivalV::Woken { cancelled },
            Arrival::Chunk { bytes, cancelled } => ArrivalV::Chunk { bytes: bytes@, cancelled },
            Arrival::Broken { error, cancelled } => ArrivalV::Broken { error: error@, cancelled },
            Arrival::Ended => ArrivalV::Ended,
        }
    }
}

pub open spec fn over(x: ExchangeV, o: Result<CompletionV, Seq<char>>) -> ExchangeV {
    ExchangeV { stage: Stage::Over, outcome: Some(o), ..x }
}

/// The request, with what was heard for its outcome. Nothing is left to be shown of it.
pub open spec fn heard_out(x: ExchangeV) -> ExchangeV {
    over(ExchangeV { stream: untouched(), ..x }, Ok(finished(x.stream.heard)))
}

/// A stream of which nothing has come.
pub open spec fn untouched() -> StreamV {
    StreamV { buf: Seq::empty(), heard: silent() }
}

/// Where a request goes when something arrives. What it was not waiting for changes nothing.
/// What was said before a stop is kept.
pub open spec fn advanced(x: ExchangeV, a: ArrivalV) -> ExchangeV {
    match (x.stage, a) {
        (Stage::Sending, ArrivalV::Unsent { error }) => over(x, Err("request failed: "@ + error)),
        (Stage::Sending, ArrivalV::Accepted) => ExchangeV { stage: Stage::Streaming, ..x },
        (Stage::Sending, ArrivalV::Refused { status, status_line, asked, backoff, body }) => {
            match wait_after(x.attempt, status, asked, backoff) {
                Some(_) => ExchangeV { stage: Stage::Waiting, ..x },
                None => over(x, Err(refusal_text(x.attempt, status_line, body))),
            }
        },
        (Stage::Waiting, ArrivalV::Woken { cancelled }) => if cancelled {
            over(x, Ok(nothing_said()))
        } else {
            ExchangeV { stage: Stage::Sending, attempt: (x.attempt + 1) as u32, ..x }
        },
        (Stage::Streaming, ArrivalV::Chunk { bytes, cancelled }) => if cancelled {
            heard_out(x)
        } else {
            ExchangeV { stream: fed(x.stream, bytes), ..x }
        },
        (Stage::Streaming, ArrivalV::Broken { error, cancelled }) => if cancelled {
            heard_out(x)
        } else {
            over(x, Err("stream error: "@ + error))
        },
        (Stage::Streaming, ArrivalV::Ended) => heard_out(x),
        _ => x,
    }
}

/// A request that has not been sent yet.
pub open spec fn unsent() -> ExchangeV {
    ExchangeV {
        attempt: 1,
        stage: Stage::Sending,
        stream: untouched(),
        outcome: None,
    }
}

/// Whether `n` is the notice of a wait after the refusal.
pub open spec fn notice_of(n: RetryNotice, x: ExchangeV, a: ArrivalV) -> bool {
    a matches ArrivalV::Refused { status, status_line, asked, backoff, body } && answers(
        Verdict::Wait(n),
        x.attempt,
        status,
        status_line,
        asked,
        backoff,
        body,
    )
}

impl Exchange {
    /// A wait is only begun where another attempt is left.
    pub open spec fn wf(&self) -> bool {
        self.stage == Stage::Waiting ==> self.attempt <= MAX_RETRIES
    }

    /// Begins a request: the body to send, and the request under way; or the outcome, where the run
    /// was stopped before or no provider is configured.
    pub fn begin(
        provider: &ChatProvider,
        history: &[Msg],
        tools: &Vec<Json>,
        cancelled: bool,
    ) -> (r: (Option<Json>, Exchange))
        ensures
            r.1.wf(),
            match r.0 {
                Some(body) => {
                    &&& !cancelled && provider.base_url@.len() > 0
                    &&& body@ == request_body(
                        provider.model@,
                        provider.temperature@,
                        opt_text(provider.reasoning_effort),
                        msgs(history@),
                        jsons(tools@),
                    )
                    &&& r.1@ == unsent()
                },
                None => {
                    &&& cancelled || provider.base_url@.len() == 0
                    &&& r.1@ == over(
                        unsent(),
                        if cancelled {
                            Ok(nothing_said())
                        } else {
                            Err("no provider configured"@)
                        },
                    )
                },
            },
    {
        match provider.begin(history, tools, cancelled) {
            Ok(Some(body)) => (
                Some(body),
                Exchange {
                    attempt: 1,
                    stage: Stage::Sending,
                    stream: Stream::new(),
                    outcome: None,
                },
            ),
            Ok(None) => (
                None,
                Exchange {
                    attempt: 1,
                    stage: Stage::Over,
                    stream: Stream::new(),
                    outcome: Some(Ok(Completion::empty())),
                },
            ),
            Err(e) => (
                None,
                Exchange {
                    attempt: 1,
                    stage: Stage::Over,
                    stream: Stream::new(),
                    outcome: Some(Err(e)),
                },
            ),
        }
    }

    fn end(&mut self)
        ensures
            final(self)@ == heard_out(old(self)@),
    {
        let mut s = Stream::new();
        core::mem::swap(&mut s, &mut self.stream);
        self.outcome = Some(Ok(s.finish()));
        self.stage = Stage::Over;
    }

    /// Takes what the request was waiting for. Where that calls for a wait, its notice is
    /// returned.
    pub fn step(&mut self, arrival: Arrival) -> (r: Option<RetryNotice>)
        requires
            old(self).wf(),
        ensures
            final(self).wf(),
            final(self)@ == advanced(old(self)@, arrival@),
            match r {
                Some(n) => old(self)@.stage == Stage::Sending && final(self)@.stage
                    == Stage::Waiting && notice_of(n, old(self)@, arrival@),
                None => !(old(self)@.stage == Stage::Sending && final(self)@.stage
                    == Stage::Waiting),
            },
    {
        match (self.stage, arrival) {
            (Stage::Sending, Arrival::Unsent { error }) => {
                let mut e = "request failed: ".to_string();
                e.append(error.as_str());
                self.outcome = Some(Err(e));
                self.stage = Stage::Over;
                None
            },
            (Stage::Sending, Arrival::Accepted) => {
                self.stage = Stage::Streaming;
                None
            },
            (Stage::Sending, Arrival::Refused { status, status_line, asked, backoff, body }) => {
                match after_refusal(
                    self.attempt,
                    status,
                    status_line.as_str(),
                    asked,
                    backoff,
                    body.as_str(),
                ) {
                    Verdict::Wait(n) => {
                        self.stage = Stage::Waiting;
                        Some(n)
                    },
                    Verdict::Fail(e) => {
                        self.outcome = Some(Err(e));
                        self.stage = Stage::Over;
                        None
                    },
                }
            },
            (Stage::Waiting, Arrival::Woken { cancelled }) => {
                if cancelled {
                    self.outcome = Some(Ok(Completion::empty()));
                    self.stage = Stage::Over;
                } else {
                    self.attempt = self.attempt + 1;
                    self.stage = Stage::Sending;
                }
                None
            },
            (Stage::Streaming, Arrival::Chunk { bytes, cancelled }) => {
                if cancelled {
                    self.end();
                } else {
                    self.stream.feed(bytes.as_slice());
                }
                None
            },
            (Stage::Streaming, Arrival::Broken { error, cancelled }) => {
                if cancelled {
                    self.end();
                } else {
                    let mut e = "stream error: ".to_string();
                    e.append(error.as_str());
                    self.outcome = Some(Err(e));
                    self.stage = Stage::Over;
                }
                None
            },
            (Stage::Streaming, Arrival::Ended) => {
                self.end();
                None
            },
            _ => None,
        }
    }
}

/// Nothing is sent again once the answer has begun, and a request that is over stays so.
pub proof fn nothing_is_sent_again(x: ExchangeV, a: ArrivalV)
    requires
        x.stage == Stage::Streaming || x.stage == Stage::Over,
    ensures
        advanced(x, a).stage == Stage::Streaming || advanced(x, a).stage == Stage::Over,
        advanced(x, a).attempt == x.attempt,
        x.stage == Stage::Over ==> advanced(x, a) == x,
{
}

/// There are at most `MAX_RETRIES` more attempts after the first.
pub proof fn attempts_are_bounded(x: ExchangeV, a: ArrivalV)
    requires
        1 <= x.attempt <= MAX_RETRIES + 1,
        x.stage == Stage::Waiting ==> x.attempt <= MAX_RETRIES,
    ensures
        x.attempt <= advanced(x, a).attempt <= MAX_RETRIES + 1,
        advanced(x, a).stage == Stage::Waiting ==> advanced(x, a).attempt <= MAX_RETRIES,
{
}

/// Nothing new is shown once a request is over: what comes after a stop, or breaks off, adds
/// nothing to what was said.
pub proof fn nothing_is_said_after_the_end(x: ExchangeV, a: ArrivalV)
    requires
        advanced(x, a).stage == Stage::Over,
    ensures
        advanced(x, a).stream.heard.said == x.stream.heard.said || advanced(
            x,
            a,
        ).stream.heard.said.len() == 0,
{
}

/// A request has an outcome exactly when it is over.
pub proof fn over_means_settled(x: ExchangeV, a: ArrivalV)
    requires
        x.stage == Stage::Over <==> x.outcome is Some,
    ensures
        advanced(x, a).stage == Stage::Over <==> advanced(x, a).outcome is Some,
{
}

/// What was heard is the outcome, when the answer ends and when it is stopped: its text, its thinking
/// and its calls, none of it lost.
pub proof fn what_was_heard_is_the_outcome(x: ExchangeV, a: ArrivalV)
    requires
        x.stage == Stage::Streaming,
        a is Ended || (a matches ArrivalV::Chunk { bytes, cancelled } && cancelled) || (
        a matches ArrivalV::Broken { error, cancelled } && cancelled),
    ensures
        advanced(x, a).stage == Stage::Over,
        advanced(x, a).outcome matches Some(Ok(c)) && {
            &&& c.text == x.stream.heard.text
            &&& c.reasoning == x.stream.heard.reasoning
            &&& c.cost == x.stream.heard.cost
            &&& c.usage.0 == x.stream.heard.usage_in
            &&& c.usage.1 == x.stream.heard.usage_out
            &&& c.tool_calls.len() == x.stream.heard.calls.len()
        },
{
}

/// What arrives while an answer streams is added to what was heard, and the request goes on; an
/// answer that is accepted is listened to from its beginning.
pub proof fn an_answer_is_listened_to(x: ExchangeV, bytes: Seq<u8>)
    ensures
        x.stage == Stage::Streaming ==> {
            let y = advanced(x, ArrivalV::Chunk { bytes, cancelled: false });
            &&& y.stage == Stage::Streaming
            &&& y.stream == fed(x.stream, bytes)
            &&& y.outcome == x.outcome
        },
        x.stage == Stage::Sending ==> {
            let y = advanced(x, ArrivalV::Accepted);
            &&& y.stage == Stage::Streaming
            &&& y.stream == x.stream
            &&& y.outcome == x.outcome
            &&& y.attempt == x.attempt
        },
{
}

/// What goes wrong is the outcome, in its own words: that the request could not be sent, that the
/// answer broke off, and what the provider said where it refused for good.
pub proof fn what_goes_wrong_is_told(x: ExchangeV, why: Seq<char>, status: u16, asked: Option<u64>, backoff: u64, line: Seq<char>)
    ensures
        x.stage == Stage::Sending ==> (advanced(x, ArrivalV::Unsent { error: why }).outcome matches Some(
            Err(e),
        ) && within(why, e)),
        x.stage == Stage::Streaming ==> (advanced(
            x,
            ArrivalV::Broken { error: why, cancelled: false },
        ).outcome matches Some(Err(e)) && within(why, e)),
        x.stage == Stage::Sending && (x.attempt > 4 || !(status == 429 || 500 <= status <= 599)) ==> (
        advanced(
            x,
            ArrivalV::Refused { status, status_line: line, asked, backoff, body: why },
        ).outcome matches Some(Err(e)) && within(line, e)),
{
    between("request failed: "@, why, Seq::empty(), "request failed: "@ + why);
    between("stream error: "@, why, Seq::empty(), "stream error: "@ + why);
    a_refusal_is_told(x.attempt, line, why);
    what_passes_is_waited_out(x.attempt, status, asked, backoff);
}

/// A refusal that passes is waited out and the request sent again, as the next attempt, unless the
/// run is stopped meanwhile: then nothing was said.
pub proof fn a_wait_leads_to_the_next_attempt(x: ExchangeV, cancelled: bool)
    requires
        x.stage == Stage::Waiting,
        x.attempt < u32::MAX,
    ensures
        !cancelled ==> {
            let y = advanced(x, ArrivalV::Woken { cancelled });
            y.stage == Stage::Sending && y.attempt == x.attempt + 1 && y.stream == x.stream
        },
        cancelled ==> (advanced(x, ArrivalV::Woken { cancelled }).outcome matches Some(Ok(c))
            && c.text.len() == 0 && c.tool_calls.len() == 0 && c.reasoning.len() == 0 && c.cost.len()
            == 0 && c.usage == (0u64, 0u64)),
{
}

/// A refusal that passes begins a wait while attempts are left.
pub proof fn a_throttle_begins_a_wait(
    x: ExchangeV,
    status: u16,
    line: Seq<char>,
    backoff: u64,
    body: Seq<char>,
)
    requires
        x.stage == Stage::Sending,
        x.attempt <= 4,
        status == 429 || 500 <= status <= 599,
    ensures
        ({
            let y = advanced(
                x,
                ArrivalV::Refused { status, status_line: line, asked: None, backoff, body },
            );
            y.stage == Stage::Waiting && y.attempt == x.attempt && y.outcome == x.outcome
        }),
{
    what_passes_is_waited_out(x.attempt, status, None, backoff);
}

/// The notice of a wait is the one that the refusal calls for.
pub proof fn a_notice_tells_of_the_refusal(
    n: RetryNotice,
    x: ExchangeV,
    status: u16,
    line: Seq<char>,
    asked: Option<u64>,
    backoff: u64,
    body: Seq<char>,
)
    requires
        notice_of(
            n,
            x,
            ArrivalV::Refused { status, status_line: line, asked, backoff, body },
        ),
    ensures
        n.attempt == x.attempt,
        n.status == status,
        n.delay == match asked {
            Some(d) => d,
            None => backoff,
        },
        n.max_attempts == 5,
{
}

/// A request begins with its first attempt, with nothing heard and no outcome.
pub proof fn a_request_begins_with_nothing_heard()
    ensures
        unsent().attempt == 1,
        unsent().stage == Stage::Sending,
        unsent().outcome is None,
        unsent().stream.buf.len() == 0,
        unsent().stream.heard.text.len() == 0,
        unsent().stream.heard.reasoning.len() == 0,
        unsent().stream.heard.calls.len() == 0,
        unsent().stream.heard.cost.len() == 0,
        unsent().stream.heard.said.len() == 0,
        unsent().stream.heard.usage_in == 0,
        unsent().stream.heard.usage_out == 0,
{
}

/// What a request is not waiting for changes nothing.
pub proof fn what_a_request_does_not_wait_for_changes_nothing(x: ExchangeV, a: ArrivalV)
    requires
        !(match x.stage {
            Stage::Sending => a is Unsent || a is Accepted || a is Refused,
            Stage::Waiting => a is Woken,
            Stage::Streaming => a is Chunk || a is Broken || a is Ended,
            Stage::Over => false,
        }),
    ensures
        advanced(x, a) == x,
{
}

/// A refusal for good is told with what the provider gave for a reason, and so is one that asks for
/// too long a wait.
pub proof fn a_final_refusal_is_told(
    x: ExchangeV,
    status: u16,
    line: Seq<char>,
    asked: Option<u64>,
    backoff: u64,
    body: Seq<char>,
)
    requires
        x.stage == Stage::Sending,
        x.attempt > 4 || !(status == 429 || 500 <= status <= 599) || (asked matches Some(d) && d
            > 60_000),
        vstd::utf8::encode_utf8(body).len() <= 400,
    ensures
        advanced(
            x,
            ArrivalV::Refused { status, status_line: line, asked, backoff, body },
        ).outcome matches Some(Err(e)) && within(line, e) && within(body, e),
{
    a_refusal_is_told(x.attempt, line, body);
    what_passes_is_waited_out(x.attempt, status, asked, backoff);
}

} // verus!
