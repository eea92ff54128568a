//! How requests say who is calling.
//!
//! Every request carries two headers. `User-Agent` names the product, its version and the
//! platform. [`SESSION_HEADER`] carries one stable id per conversation: some gateways refuse
//! requests that lack it.

use vstd::prelude::*;

use crate::text::{
    between, blank, hex, hex_of, opt_str, starts, trim, trim_is_empty_iff_blank, trim_of, within,
};

verus! {

/// The header under which a gateway expects the conversation id.
pub const SESSION_HEADER: &'static str = "x-opencode-session";

/// Who is calling, settled once when the program starts.
#[derive(Debug)]
pub struct Identity {
    pub agent: String,
    pub install: String,
}

/// Product, version and platform in one line.
pub open spec fn user_agent_of(version: Seq<char>, os: Seq<char>, arch: Seq<char>) -> Seq<char> {
    "e/"@ + version + " ("@ + os + "; "@ + arch + ")"@
}

/// Product, version and platform in one line.
pub fn user_agent(version: &str, os: &str, arch: &str) -> (r: String)
    ensures
        r@ == user_agent_of(version@, os@, arch@),
{
    let mut s = "e/".to_string();
    s.append(version);
    s.append(" (");
    s.append(os);
    s.append("; ");
    s.append(arch);
    s.append(")");
    s
}

/// The id that a first run mints from the clock and the process id.
pub open spec fn minted(now_ms: u128, pid: u32) -> Seq<char> {
    "e-"@ + hex_of(now_ms as nat) + "-"@ + hex_of(pid as nat)
}

/// The id that was stored, if there is anything in it, or else a new one.
pub open spec fn install_id_of(stored: Option<Seq<char>>, now_ms: u128, pid: u32) -> Seq<char> {
    match stored {
        Some(s) => if trim_of(s).len() > 0 {
            trim_of(s)
        } else {
            minted(now_ms, pid)
        },
        None => minted(now_ms, pid),
    }
}

/// A stable id of this installation, for requests that belong to no conversation: what the
/// last run stored, or else one made from the clock and the process id. The flag says
/// whether it is new and has to be stored.
pub fn install_id(stored: Option<&str>, now_ms: u128, pid: u32) -> (r: (String, bool))
    ensures
        r.0@ == install_id_of(
            opt_str(stored),
            now_ms,
            pid,
        ),
        r.1 == !(stored matches Some(s) && !blank(s@)),
{
    match stored {
        Some(s) => {
            proof {
                trim_is_empty_iff_blank(s@);
            }
            let id = trim(s);
            if id.as_str().unicode_len() > 0 {
                return (id, false);
            }
        },
        None => {},
    }
    let mut id = "e-".to_string();
    id.append(hex(now_ms).as_str());
    id.append("-");
    id.append(hex(pid as u128).as_str());
    (id, true)
}

/// Whether an identity can be sent: its installation id is not empty.
pub open spec fn presentable(who: Identity) -> bool {
    who.install@.len() > 0
}

impl Identity {
    /// The identity of this process.
    pub fn new(
        version: &str,
        os: &str,
        arch: &str,
        stored: Option<&str>,
        now_ms: u128,
        pid: u32,
    ) -> (r: Identity)
        ensures
            r.agent@ == user_agent_of(version@, os@, arch@),
            r.install@ == install_id_of(
                opt_str(stored),
                now_ms,
                pid,
            ),
            presentable(r),
    {
        let (install, _) = install_id(stored, now_ms, pid);
        proof {
            reveal_strlit("e-");
        }
        Identity { agent: user_agent(version, os, arch), install }
    }
}

/// The `User-Agent` that every request carries.
pub fn agent(who: &Identity) -> (r: &String)
    ensures
        r@ == who.agent@,
{
    &who.agent
}

/// The id for requests made outside any conversation.
pub fn anonymous_session(who: &Identity) -> (r: &String)
    ensures
        r@ == who.install@,
{
    &who.install
}

/// The id to send for a conversation: its own, or else that of the installation.
pub open spec fn session_id_of(who: Identity, chat: Seq<char>) -> Seq<char> {
    if blank(chat) {
        who.install@
    } else {
        trim_of(chat)
    }
}

/// The id to send for a conversation: its own, without the whitespace around it, or that of
/// the installation where it has none.
pub fn session_id(who: &Identity, chat: &str) -> (r: String)
    ensures
        r@ == session_id_of(*who, chat@),
{
    let chat_id = trim(chat);
    proof {
        trim_is_empty_iff_blank(chat@);
    }
    if chat_id.as_str().unicode_len() == 0 {
        anonymous_session(who).clone()
    } else {
        chat_id
    }
}

/// The session header is never empty.
pub proof fn session_id_is_never_empty(who: Identity, chat: Seq<char>)
    requires
        presentable(who),
    ensures
        session_id_of(who, chat).len() > 0,
{
    trim_is_empty_iff_blank(chat);
}

/// Every request says which program is calling, in which version and on which platform.
pub proof fn the_caller_is_named(version: Seq<char>, os: Seq<char>, arch: Seq<char>)
    ensures
        starts(user_agent_of(version, os, arch), "e/"@ + version),
        within(os, user_agent_of(version, os, arch)),
        within(arch, user_agent_of(version, os, arch)),
{
    let t = user_agent_of(version, os, arch);
    let a = "e/"@ + version;
    assert(t.take(a.len() as int) =~= a);
    between(a + " ("@, os, "; "@ + arch + ")"@, t);
    between(a + " ("@ + os + "; "@, arch, ")"@, t);
}

/// A conversation is known by its own id, and what belongs to none by that of the installation. That
/// one is what was stored, as long as anything was.
pub proof fn a_conversation_is_known_by_its_id(who: Identity, chat: Seq<char>, stored: Seq<char>, now_ms: u128, pid: u32)
    ensures
        !blank(chat) ==> session_id_of(who, chat) == trim_of(chat),
        blank(chat) ==> session_id_of(who, chat) == who.install@,
        !blank(stored) ==> install_id_of(Some(stored), now_ms, pid) == trim_of(stored),
        blank(stored) ==> install_id_of(Some(stored), now_ms, pid) == install_id_of(None, now_ms, pid),
        install_id_of(None, now_ms, pid) == "e-"@ + hex_of(now_ms as nat) + "-"@ + hex_of(pid as nat),
{
    trim_is_empty_iff_blank(stored);
}

} // verus!
