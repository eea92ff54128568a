//! Talking to an OpenAI-compatible chat provider: the request, and what to do when it is
//! refused.

pub mod exchange;
pub mod models;
pub mod request;
pub mod stream;

pub use models::{parse_models, ModelInfo};
pub use request::ChatProvider;

use vstd::prelude::*;
use vstd::utf8::*;

use crate::bytes::{cut, cut_at, cut_is_short};
use crate::clock::subsecond_nanos;
use crate::text::{between, byte_len, decimal, decimal_of, len_of, within, within_whole};

verus! {

/// How often a throttled or overloaded request is retried: once for each step. Nothing is
/// retried after the first token has come, so no output is ever repeated.
pub const MAX_RETRIES: u32 = 4;

/// What each successive wait is worth, in milliseconds. A rate limit is usually a window of a
/// minute, so the steps straddle one.
pub const BACKOFF_STEPS: [u64; 4] = [1_000, 15_000, 30_000, 60_000];

/// The longest wait, in milliseconds. A provider that asks for more is shut, not busy.
pub const BACKOFF_CAP: u64 = 60_000;

/// A refused attempt that is about to be slept off.
#[derive(Debug)]
pub struct RetryNotice {
    /// Which attempt just failed, counted from 1.
    pub attempt: u32,
    /// All the attempts that this request gets, the first one included.
    pub max_attempts: u32,
    /// The wait before the next attempt, in milliseconds.
    pub delay: u64,
    /// The HTTP status of the refusal.
    pub status: u16,
    /// A short cause for people to read.
    pub reason: String,
}

// ---- waiting --------------------------------------------------------------------------------

/// The step that follows `attempt`; the last one is used from there on.
pub open spec fn step_of(attempt: u32) -> u64 {
    if attempt <= 1 {
        1_000
    } else if attempt == 2 {
        15_000
    } else if attempt == 3 {
        30_000
    } else {
        60_000
    }
}

/// The nanoseconds of the clock, mixed: the low bits are all the chance there is in them.
pub open spec fn mixed(nanos: u64) -> u64 {
    let p = (nanos * 6364136223846793005 % 0x1_0000_0000_0000_0000) as u64;
    (p << 17) | (p >> 47)
}

/// Jitter in `0..=span_ms`, drawn with `nanos`.
pub open spec fn jitter_of(nanos: u64, span_ms: u64) -> int {
    mixed(nanos) as int % (span_ms + 1)
}

/// Jitter in `0..=span_ms`, drawn with `nanos`.
pub fn jitter_from(nanos: u64, span_ms: u64) -> (r: u64)
    requires
        span_ms < u64::MAX,
    ensures
        r == jitter_of(nanos, span_ms),
        r <= span_ms,
{
    if span_ms == 0 {
        return 0;
    }
    let p: u64 = nanos.wrapping_mul(6364136223846793005);
    let m: u64 = (p << 17) | (p >> 47);
    m % (span_ms + 1)
}

/// Cheap jitter in `0..=span_ms`, so that clients throttled together do not come back
/// together. It is drawn with the nanoseconds of the present second, so which value comes out is
/// up to the clock.
pub fn jitter_ms(span_ms: u64) -> (r: u64)
    requires
        span_ms < u64::MAX,
    ensures
        exists|nanos: u64| nanos < 1_000_000_000 && r == #[trigger] jitter_of(nanos, span_ms),
        r <= span_ms,
{
    let nanos: u64 = subsecond_nanos();
    let r: u64 = jitter_from(nanos, span_ms);
    assert(r == jitter_of(nanos, span_ms));
    r
}

fn step_after(attempt: u32) -> (r: u64)
    ensures
        r == step_of(attempt),
{
    let idx: usize = if attempt <= 1 {
        0
    } else if attempt >= 4 {
        3
    } else {
        (attempt - 1) as usize
    };
    BACKOFF_STEPS[idx]
}

/// The wait before the successor of `attempt`, in milliseconds: the step, made longer by at
/// most a tenth and never shorter.
pub fn backoff_delay(attempt: u32) -> (r: u64)
    ensures
        step_of(attempt) <= r <= step_of(attempt) + step_of(attempt) / 10,
{
    let step: u64 = step_after(attempt);
    step + jitter_ms(step / 10)
}

/// Every wait of the schedule is one that would be accepted from a provider, and the steps
/// never become shorter.
pub proof fn schedule_is_within_the_cap(attempt: u32, later: u32)
    requires
        attempt <= later,
    ensures
        1_000 <= step_of(attempt) <= step_of(later) <= BACKOFF_CAP,
{
}

// ---- refusals -------------------------------------------------------------------------------

/// `s`, or where it has more than `n` bytes, as much of it as fits and an ellipsis.
pub open spec fn shortened(s: Seq<char>, n: int) -> Seq<char> {
    if byte_len(s) <= n {
        s
    } else {
        cut(s, n) + "…"@
    }
}

/// `s`, or where it has more than `n` bytes, as much of it as fits and an ellipsis.
pub fn truncate(s: &str, n: usize) -> (r: String)
    ensures
        r@ == shortened(s@, n as int),
{
    if len_of(s) <= n {
        return s.to_string();
    }
    let mut t = cut_at(s, n);
    t.append("…");
    t
}

/// What is done about a refusal.
#[derive(Debug)]
pub enum Verdict {
    /// Wait, then try again.
    Wait(RetryNotice),
    /// Give up, with this error.
    Fail(String),
}

/// Whether a refusal passes by itself: the throttle, and the failures of an overloaded
/// server. Any other refusal would only be repeated.
pub open spec fn transient(status: u16) -> bool {
    status == 429 || 500 <= status <= 599
}

/// The wait that a refusal calls for, or nothing where the request is given up.
pub open spec fn wait_after(
    attempt: u32,
    status: u16,
    asked: Option<u64>,
    backoff: u64,
) -> Option<u64> {
    if !transient(status) || attempt > MAX_RETRIES {
        None
    } else {
        match asked {
            Some(d) => if d > BACKOFF_CAP {
                None
            } else {
                Some(d)
            },
            None => Some(backoff),
        }
    }
}

/// How often a request was tried again, in words.
pub open spec fn retry_note(attempt: u32) -> Seq<char> {
    if attempt <= 1 {
        Seq::empty()
    } else if attempt == 2 {
        " after 1 retry"@
    } else {
        " after "@ + decimal_of((attempt - 1) as nat) + " retries"@
    }
}

/// The error for a request that is given up.
pub open spec fn refusal_text(attempt: u32, status_line: Seq<char>, body: Seq<char>) -> Seq<char> {
    "provider returned "@ + status_line + retry_note(attempt) + ": "@ + shortened(body, 400)
}

pub open spec fn reason_of(status: u16) -> Seq<char> {
    if status == 429 {
        "rate limited"@
    } else {
        "provider unavailable"@
    }
}

/// Whether `v` is the answer to a refusal for which the schedule gave `backoff`.
pub open spec fn answers(
    v: Verdict,
    attempt: u32,
    status: u16,
    status_line: Seq<char>,
    asked: Option<u64>,
    backoff: u64,
    body: Seq<char>,
) -> bool {
    match (wait_after(attempt, status, asked, backoff), v) {
        (Some(delay), Verdict::Wait(n)) => {
            &&& n.attempt == attempt
            &&& n.max_attempts == MAX_RETRIES + 1
            &&& n.delay == delay
            &&& n.status == status
            &&& n.reason@ == reason_of(status)
        },
        (None, Verdict::Fail(e)) => e@ == refusal_text(attempt, status_line, body),
        _ => false,
    }
}

/// What to do about the refusal of `attempt`. `asked` is the wait that the provider asked
/// for, `backoff` the one to use where it asked for none, both in milliseconds.
pub fn after_refusal(
    attempt: u32,
    status: u16,
    status_line: &str,
    asked: Option<u64>,
    backoff: u64,
    body: &str,
) -> (r: Verdict)
    ensures
        answers(r, attempt, status, status_line@, asked, backoff, body@),
{
    let wait: Option<u64> = if !(status == 429 || (500 <= status && status <= 599)) || attempt
        > MAX_RETRIES {
        None
    } else {
        match asked {
            Some(d) => if d > BACKOFF_CAP {
                None
            } else {
                Some(d)
            },
            None => Some(backoff),
        }
    };
    match wait {
        Some(delay) => {
            let reason: String = if status == 429 {
                "rate limited".to_string()
            } else {
                "provider unavailable".to_string()
            };
            Verdict::Wait(
                RetryNotice { attempt, max_attempts: MAX_RETRIES + 1, delay, status, reason },
            )
        },
        None => {
            let mut note = String::new();
            if attempt == 2 {
                note = " after 1 retry".to_string();
            } else if attempt > 2 {
                note = " after ".to_string();
                note.append(decimal((attempt - 1) as u64).as_str());
                note.append(" retries");
            }
            let mut e = "provider returned ".to_string();
            e.append(status_line);
            e.append(note.as_str());
            e.append(": ");
            e.append(truncate(body, 400).as_str());
            Verdict::Fail(e)
        },
    }
}

/// What to do about the refusal of `attempt`, with a wait drawn from the schedule where the
/// provider asked for none.
pub fn refused(
    attempt: u32,
    status: u16,
    status_line: &str,
    asked: Option<u64>,
    body: &str,
) -> (r: Verdict)
    ensures
        exists|backoff: u64|
            step_of(attempt) <= backoff <= step_of(attempt) + step_of(attempt) / 10
                && #[trigger] answers(r, attempt, status, status_line@, asked, backoff, body@),
{
    let backoff: u64 = backoff_delay(attempt);
    after_refusal(attempt, status, status_line, asked, backoff, body)
}

/// A request is tried at most `MAX_RETRIES` times again: the attempt after the last step is
/// never followed by a wait.
pub proof fn retries_are_bounded(attempt: u32, status: u16, asked: Option<u64>, backoff: u64)
    ensures
        wait_after(attempt, status, asked, backoff) is Some ==> attempt <= MAX_RETRIES,
        wait_after(attempt, status, asked, backoff) matches Some(d) ==> asked is Some ==> d
            <= BACKOFF_CAP,
{
}

// ---- what a retry is for -----------------------------------------------------------------------------

/// A throttle and the failures of a server are waited out while attempts are left: as long as the
/// provider asks, where it asks for a wait that is not too long, and as the schedule says where it
/// asks for none. Any other refusal, and the last, is an error at once.
pub proof fn what_passes_is_waited_out(attempt: u32, status: u16, asked: Option<u64>, backoff: u64)
    ensures
        status != 429 && (status < 500 || status > 599) ==> wait_after(attempt, status, asked, backoff) is None,
        attempt > 4 ==> wait_after(attempt, status, asked, backoff) is None,
        (status == 429 || 500 <= status <= 599) && attempt <= 4 ==> {
            &&& asked is None ==> wait_after(attempt, status, asked, backoff) == Some(backoff)
            &&& asked matches Some(d) ==> d <= 60_000 ==> wait_after(attempt, status, asked, backoff)
                == Some(d)
            &&& asked matches Some(d) ==> d > 60_000 ==> wait_after(
                attempt,
                status,
                asked,
                backoff,
            ) is None
        },
{
}

/// The waits: a second, then a quarter, a half and a whole minute.
pub proof fn the_waits_grow(attempt: u32)
    ensures
        attempt <= 1 ==> step_of(attempt) == 1_000,
        attempt == 2 ==> step_of(attempt) == 15_000,
        attempt == 3 ==> step_of(attempt) == 30_000,
        attempt >= 4 ==> step_of(attempt) == 60_000,
{
}

/// A text that is short enough stays as it is, and of a longer one the beginning stays, as much as
/// fits, with a mark that there was more.
pub proof fn the_beginning_stays(s: Seq<char>, n: int)
    requires
        0 <= n,
    ensures
        encode_utf8(s).len() <= n ==> shortened(s, n) == s,
        encode_utf8(s).len() > n ==> shortened(s, n) == cut(s, n).push('…') && encode_utf8(
            cut(s, n),
        ).len() <= n,
{
    if encode_utf8(s).len() > n {
        reveal_strlit("…");
        assert(shortened(s, n) =~= cut(s, n).push('…'));
        cut_is_short(s, n);
    }
}

/// The error for a request that is given up says what the provider answered: its status, what it
/// gave for a reason, and how often it was asked again.
pub proof fn a_refusal_is_told(attempt: u32, status_line: Seq<char>, body: Seq<char>)
    ensures
        ({
            let t = refusal_text(attempt, status_line, body);
            &&& within(status_line, t)
            &&& encode_utf8(body).len() <= 400 ==> within(body, t)
            &&& encode_utf8(body).len() > 400 ==> within(cut(body, 400), t)
            &&& attempt > 2 ==> within(" after "@ + decimal_of((attempt - 1) as nat) + " retries"@, t)
            &&& attempt == 2 ==> within(" after 1 retry"@, t)
            &&& attempt <= 1 ==> t == "provider returned "@ + status_line + ": "@ + shortened(
                body,
                400,
            )
        }),
{
    let t = refusal_text(attempt, status_line, body);
    let a = "provider returned "@;
    let n = retry_note(attempt);
    let b = shortened(body, 400);
    between(a, status_line, n + ": "@ + b, t);
    between(a + status_line, n, ": "@ + b, t);
    between(a + status_line + n + ": "@, b, Seq::empty(), t);
    if encode_utf8(body).len() > 400 {
        between(Seq::empty(), cut(body, 400), "…"@, b);
        within_whole(cut(body, 400), b, t);
    }
    if attempt <= 1 {
        assert(t =~= a + status_line + ": "@ + b);
    }
}

/// A wait is announced as it is: after which attempt, of how many, how long, and why.
pub proof fn a_wait_is_announced(
    v: Verdict,
    attempt: u32,
    status: u16,
    line: Seq<char>,
    asked: Option<u64>,
    backoff: u64,
    body: Seq<char>,
)
    requires
        answers(v, attempt, status, line, asked, backoff, body),
        attempt <= 4,
        status == 429 || 500 <= status <= 599,
        asked matches Some(d) ==> d <= 60_000,
    ensures
        v matches Verdict::Wait(n) && n.attempt == attempt && n.max_attempts == 5 && n.status == status
            && n.delay == (match asked {
            Some(d) => d,
            None => backoff,
        }) && (status == 429 ==> n.reason@ == "rate limited"@) && (status != 429 ==> n.reason@
            == "provider unavailable"@),
{
}

/// What is given up is an error, with what the provider said.
pub proof fn what_is_given_up_is_an_error(
    v: Verdict,
    attempt: u32,
    status: u16,
    line: Seq<char>,
    asked: Option<u64>,
    backoff: u64,
    body: Seq<char>,
)
    requires
        answers(v, attempt, status, line, asked, backoff, body),
        attempt > 4 || !(status == 429 || 500 <= status <= 599) || (asked matches Some(d) && d
            > 60_000),
    ensures
        v matches Verdict::Fail(e) && within(line, e@) && (encode_utf8(body).len() <= 400 ==> within(
            body,
            e@,
        )),
{
    a_refusal_is_told(attempt, line, body);
}

/// Jitter lies within its span.
pub proof fn jitter_lies_within_its_span(nanos: u64, span_ms: u64)
    ensures
        0 <= jitter_of(nanos, span_ms) <= span_ms,
{
}

} // verus!
