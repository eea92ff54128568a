//! Asking a person before a risky tool runs.

use vstd::prelude::*;

use crate::engine::plugins::{
    can_wait, one_more_waits, take_out, the_others_wait, without, without_one,
};
use crate::json::{a_field_reads_back, no_field_to_read, obj, object, Json, JsonV};
use crate::text::{decimal, decimal_of, numbered_endings_tell_apart, texts};

verus! {

/// How long a person may take, in seconds. After that the call is denied.
pub const TIMEOUT: u64 = 300;

/// The prompts that wait for a person.
#[derive(Debug)]
pub struct Approvals {
    /// Whether there is a front end to ask in.
    pub host: bool,
    /// How many prompts there were.
    pub asked: u64,
    pub pending: Vec<String>,
}

pub struct ApprovalsV {
    pub host: bool,
    pub asked: u64,
    pub pending: Seq<Seq<char>>,
}

impl View for Approvals {
    type V = ApprovalsV;

    open spec fn view(&self) -> ApprovalsV {
        ApprovalsV { host: self.host, asked: self.asked, pending: texts(self.pending@) }
    }
}

/// What asking comes to.
#[derive(Debug)]
pub enum Asked {
    /// The answer is known already.
    Settled(bool),
    /// The prompt with this id is to be shown, and waited for.
    Prompt(String, Json),
}

/// What a wait has brought.
#[derive(Debug, Clone, Copy, PartialEq, Eq, Structural)]
pub enum Tick {
    /// The person answered.
    Answer(bool),
    /// Nobody can answer any more.
    Gone,
    /// Nothing; and whether the run was stopped, or the time is up.
    Quiet { cancelled: bool, expired: bool },
}

pub open spec fn approval_id(ms: u64, n: u64) -> Seq<char> {
    "apr_"@ + decimal_of(ms as nat) + "_"@ + decimal_of(n as nat)
}

pub open spec fn prompt_value(
    id: Seq<char>,
    session: Seq<char>,
    tool: Seq<char>,
    preview: Seq<char>,
) -> JsonV {
    obj().with_text("id"@, id).with_text("sid"@, session).with_text("tool"@, tool).with_text(
        "preview"@,
        preview,
    )
}

impl ApprovalsV {
    /// Every prompt that waits was shown, and none waits twice.
    pub open spec fn wf(self) -> bool {
        can_wait("apr_"@, self.pending, self.asked)
    }
}

impl Approvals {
    pub fn new(host: bool) -> (r: Approvals)
        ensures
            r@.wf(),
            r@ == (ApprovalsV { host, asked: 0, pending: Seq::empty() }),
    {
        let r = Approvals { host, asked: 0, pending: Vec::new() };
        assert(r@.pending =~= Seq::empty());
        r
    }
}

/// Asks a person about a call, on behalf of the chat `session`. Without a front end everything is
/// approved, and a run that was stopped is denied.
pub fn request(
    desk: &mut Approvals,
    session: &str,
    tool: &str,
    preview: &str,
    cancelled: bool,
    ms: u64,
) -> (r: Asked)
    requires
        old(desk).asked < u64::MAX,
    ensures
        match r {
            Asked::Settled(yes) => {
                &&& yes == !old(desk).host
                &&& !old(desk).host || cancelled
                &&& final(desk)@ == old(desk)@
            },
            Asked::Prompt(id, prompt) => {
                &&& old(desk).host && !cancelled
                &&& id@ == approval_id(ms, old(desk).asked)
                &&& prompt@ == prompt_value(id@, session@, tool@, preview@)
                &&& final(desk)@ == (ApprovalsV {
                    asked: (old(desk).asked + 1) as u64,
                    pending: old(desk)@.pending.push(id@),
                    ..old(desk)@
                })
            },
        },
        old(desk)@.wf() ==> final(desk)@.wf(),
{
    if !desk.host {
        return Asked::Settled(true);
    }
    if cancelled {
        return Asked::Settled(false);
    }
    proof {
        if desk@.wf() {
            one_more_waits("apr_"@, desk@.pending, desk.asked, ms);
        }
    }
    let mut id = "apr_".to_string();
    id.append(decimal(ms).as_str());
    id.append("_");
    id.append(decimal(desk.asked).as_str());
    desk.asked = desk.asked + 1;
    let ghost before = texts(desk.pending@);
    desk.pending.push(id.clone());
    assert(texts(desk.pending@) =~= before.push(id@));
    let prompt = object().with_text("id", id.as_str()).with_text("sid", session).with_text(
        "tool",
        tool,
    ).with_text("preview", preview);
    Asked::Prompt(id, prompt)
}

/// What a wait settles.
pub open spec fn settled_by(tick: Tick) -> Option<bool> {
    match tick {
        Tick::Answer(yes) => Some(yes),
        Tick::Gone => Some(false),
        Tick::Quiet { cancelled, expired } => if cancelled || expired {
            Some(false)
        } else {
            None
        },
    }
}

/// What a wait has settled, if anything: the answer, or a denial where none can come any more.
pub fn settle(tick: Tick) -> (r: Option<bool>)
    ensures
        r == settled_by(tick),
{
    match tick {
        Tick::Answer(yes) => Some(yes),
        Tick::Gone => Some(false),
        Tick::Quiet { cancelled, expired } => if cancelled || expired {
            Some(false)
        } else {
            None
        },
    }
}

/// Puts a prompt away. Returns what withdraws it from the screen, unless it was approved.
pub fn close(desk: &mut Approvals, id: &str, session: &str, answer: bool) -> (r: Option<Json>)
    ensures
        match r {
            Some(j) => !answer && j@ == obj().with_text("id"@, id@).with_text("sid"@, session@),
            None => answer,
        },
        final(desk)@ == (ApprovalsV { pending: without(old(desk)@.pending, id@), ..old(desk)@ }),
        old(desk)@.wf() ==> final(desk)@.wf(),
{
    proof {
        if desk@.wf() {
            the_others_wait("apr_"@, desk@.pending, desk.asked, id@);
        }
    }
    let _ = take_out(&mut desk.pending, id);
    if answer {
        None
    } else {
        Some(object().with_text("id", id).with_text("sid", session))
    }
}

/// Takes a person's answer. It is handed on only where the prompt still waits.
pub fn resolve(desk: &mut Approvals, id: &str, approved: bool) -> (r: Option<bool>)
    ensures
        r == if old(desk)@.pending.contains(id@) {
            Some(approved)
        } else {
            None
        },
        final(desk)@ == (ApprovalsV { pending: without(old(desk)@.pending, id@), ..old(desk)@ }),
        old(desk)@.wf() ==> final(desk)@.wf(),
{
    proof {
        if desk@.wf() {
            the_others_wait("apr_"@, desk@.pending, desk.asked, id@);
        }
    }
    if take_out(&mut desk.pending, id) {
        Some(approved)
    } else {
        None
    }
}

/// A prompt is answered once: after its answer it waits no more, a second answer changes nothing,
/// and the others wait as before.
pub proof fn prompts_are_answered_once(desk: ApprovalsV, id: Seq<char>, other: Seq<char>)
    requires
        desk.wf(),
    ensures
        !without(desk.pending, id).contains(id),
        without(without(desk.pending, id), id) == without(desk.pending, id),
        !desk.pending.contains(id) ==> without(desk.pending, id) == desk.pending,
        other != id ==> without(desk.pending, id).contains(other) == desk.pending.contains(other),
{
    without_one(desk.pending, id);
    without_one(without(desk.pending, id), id);
}

/// No two prompts share an id.
pub proof fn approval_ids_differ(ms: u64, n: u64, later: u64, m: u64)
    requires
        n != m,
    ensures
        approval_id(ms, n) != approval_id(later, m),
{
    reveal_strlit("_");
    let p = "apr_"@ + decimal_of(ms as nat);
    let q = "apr_"@ + decimal_of(later as nat);
    assert(approval_id(ms, n) =~= p.push('_') + decimal_of(n as nat));
    assert(approval_id(later, m) =~= q.push('_') + decimal_of(m as nat));
    if approval_id(ms, n) == approval_id(later, m) {
        numbered_endings_tell_apart(p, n as nat, q, m as nat, '_');
    }
}

/// A person is shown what is asked, in which chat, of which tool, and what it is about to do.
pub proof fn a_prompt_says_what_is_asked(
    id: Seq<char>,
    session: Seq<char>,
    tool: Seq<char>,
    preview: Seq<char>,
)
    ensures
        ({
            let v = prompt_value(id, session, tool, preview);
            &&& v.field("id"@) == Some(JsonV::Text(id))
            &&& v.field("sid"@) == Some(JsonV::Text(session))
            &&& v.field("tool"@) == Some(JsonV::Text(tool))
            &&& v.field("preview"@) == Some(JsonV::Text(preview))
        }),
{
    broadcast use a_field_reads_back, no_field_to_read;

    reveal_strlit("id");
    reveal_strlit("sid");
    reveal_strlit("tool");
    reveal_strlit("preview");
    assert("id"@.len() == 2);
    assert("sid"@.len() == 3);
    assert("tool"@.len() == 4);
    assert("preview"@.len() == 7);
}

/// Nothing is approved but by an answer: a call goes ahead only where the person said yes, and a wait
/// that can bring no answer any more is a denial.
pub proof fn only_a_yes_is_a_yes(tick: Tick)
    ensures
        settled_by(tick) == Some(true) <==> tick == Tick::Answer(true),
        tick == Tick::Answer(false) || tick is Gone ==> settled_by(tick) == Some(false),
        tick matches Tick::Quiet { cancelled, expired } ==> {
            &&& cancelled || expired ==> settled_by(tick) == Some(false)
            &&& !cancelled && !expired ==> settled_by(tick) is None
        },
{
}

} // verus!
