//! Terminals: which are open, whose they are, and their output as text.
//!
//! A terminal belongs to a chat. Its id is chosen by the caller, so every call names the chat
//! too, and one that does not own the terminal is refused.

use vstd::prelude::*;
use vstd::slice::slice_subrange;
use vstd::utf8::*;

use crate::bytes::{
    completable, decode, decoding_goes_on, from_utf8, lossy, lossy_of, open_ends_can_be_completed,
    prefix_and_rest_decode_to_the_whole, printed, valid_prefix, valid_up_to,
};
use crate::text::{
    between, blank, decimal, decimal_of, is_blank, one_of, opt_text, same, texts, trim,
    trim_is_empty_iff_blank, trim_of, within,
};

verus! {

/// How many terminals may be open at once.
pub const MAX_PTYS: usize = 24;

/// The smallest number of rows or columns.
pub const MIN_DIM: u16 = 1;

/// The largest number of rows or columns.
pub const MAX_DIM: u16 = 1000;

/// The size nearest to `v` that the system accepts.
pub open spec fn clamped(v: u16) -> u16 {
    if v < MIN_DIM {
        MIN_DIM
    } else if v > MAX_DIM {
        MAX_DIM
    } else {
        v
    }
}

/// The size nearest to `v` that the system accepts.
pub fn clamp(v: u16) -> (r: u16)
    ensures
        r == clamped(v),
{
    if v < MIN_DIM {
        MIN_DIM
    } else if v > MAX_DIM {
        MAX_DIM
    } else {
        v
    }
}

/// The program of a terminal: the one that the user has chosen, or else the one of the system.
pub open spec fn shell_of(
    chosen: Option<Seq<char>>,
    windows: bool,
    login: Option<Seq<char>>,
) -> (Seq<char>, Seq<Seq<char>>) {
    match chosen {
        Some(s) => if !blank(s) {
            (trim_of(s), Seq::empty())
        } else {
            system_shell(windows, login)
        },
        None => system_shell(windows, login),
    }
}

pub open spec fn system_shell(windows: bool, login: Option<Seq<char>>) -> (
    Seq<char>,
    Seq<Seq<char>>,
) {
    if windows {
        ("powershell.exe"@, seq!["-NoLogo"@])
    } else {
        match login {
            Some(s) => if blank(s) {
                ("/bin/sh"@, seq!["-i"@])
            } else {
                (s, seq!["-i"@])
            },
            None => ("/bin/sh"@, seq!["-i"@]),
        }
    }
}

/// The program of a terminal and its arguments. `chosen` is `E_SHELL` and `login` is `SHELL`.
pub fn default_shell(chosen: Option<String>, windows: bool, login: Option<String>) -> (r: (
    String,
    Vec<String>,
))
    ensures
        (r.0@, texts(r.1@)) == shell_of(opt_text(chosen), windows, opt_text(login)),
{
    match &chosen {
        Some(s) => {
            if !is_blank(s.as_str()) {
                let none: Vec<String> = Vec::new();
                assert(texts(none@) =~= Seq::empty());
                return (trim(s.as_str()), none);
            }
        },
        None => {},
    }
    let mut args: Vec<String> = Vec::new();
    if windows {
        args.push("-NoLogo".to_string());
        assert(texts(args@) =~= seq!["-NoLogo"@]);
        return ("powershell.exe".to_string(), args);
    }
    args.push("-i".to_string());
    assert(texts(args@) =~= seq!["-i"@]);
    match login {
        Some(s) => {
            if is_blank(s.as_str()) {
                ("/bin/sh".to_string(), args)
            } else {
                (s, args)
            }
        },
        None => ("/bin/sh".to_string(), args),
    }
}

/// A terminal always has a program.
pub proof fn a_shell_is_always_named(
    chosen: Option<Seq<char>>,
    windows: bool,
    login: Option<Seq<char>>,
)
    ensures
        !blank(shell_of(chosen, windows, login).0),
{
    reveal_strlit("powershell.exe");
    reveal_strlit("/bin/sh");
    assert("powershell.exe"@[0] == 'p');
    assert("/bin/sh"@[0] == '/');
    if let Some(s) = chosen {
        if !blank(s) {
            trim_is_not_blank(s);
        }
    }
}

proof fn trim_is_not_blank(s: Seq<char>)
    requires
        !blank(s),
    ensures
        !blank(trim_of(s)),
{
    trim_is_empty_iff_blank(s);
    crate::text::trimmed_text_starts_with_no_space(s);
    assert(!crate::text::is_white(trim_of(s)[0]));
}

// ---- output ---------------------------------------------------------------------------------------

/// Output on its way to the screen. A character that was cut off is kept for the bytes that
/// complete it.
#[derive(Debug)]
pub struct Decoder {
    pub carry: Vec<u8>,
}

/// The text of the bytes so far, and what is kept of them. Bytes that no more bytes can mend are
/// replaced, so that nothing is ever held up.
pub open spec fn emitted(b: Seq<u8>) -> (Seq<char>, Seq<u8>) {
    if valid_utf8(b) {
        (decode_utf8(b), Seq::empty())
    } else if completable(b) {
        let v = valid_up_to(b) as int;
        (decode_utf8(b.take(v)), b.skip(v))
    } else {
        (lossy_of(b), Seq::empty())
    }
}

impl Decoder {
    pub fn new() -> (r: Decoder)
        ensures
            r.carry@ == Seq::<u8>::empty(),
    {
        Decoder { carry: Vec::new() }
    }

    /// Takes the bytes that have come, and returns their text.
    pub fn feed(&mut self, chunk: &[u8]) -> (r: String)
        ensures
            (r@, final(self).carry@) == emitted(old(self).carry@ + chunk@),
    {
        let mut i: usize = 0;
        while i < chunk.len()
            invariant
                i <= chunk.len(),
                self.carry@ == old(self).carry@ + chunk@.take(i as int),
            decreases chunk.len() - i,
        {
            self.carry.push(chunk[i]);
            i += 1;
        }
        assert(chunk@.take(chunk@.len() as int) =~= chunk@);
        let ghost b = self.carry@;
        match from_utf8(self.carry.as_slice()) {
            Ok(s) => {
                self.carry.clear();
                s
            },
            Err((v, n)) => {
                proof {
                    valid_prefix(b);
                    open_ends_can_be_completed(b);
                }
                if n.is_some() {
                    let s = lossy(self.carry.as_slice());
                    self.carry.clear();
                    s
                } else {
                    let head = slice_subrange(self.carry.as_slice(), 0, v);
                    assert(head@ =~= b.take(v as int));
                    let s = decode(head);
                    let rest = self.carry.split_off(v);
                    assert(rest@ =~= b.skip(v as int));
                    self.carry = rest;
                    s
                }
            },
        }
    }
}

/// Where a read cuts the output makes no difference: output that is valid text in the end is
/// shown as that text, however it is cut in two.
pub proof fn a_read_inside_a_character_loses_nothing(carry: Seq<u8>, a: Seq<u8>, b: Seq<u8>)
    requires
        valid_utf8(carry + a + b),
    ensures
        ({
            let first = emitted(carry + a);
            let second = emitted(first.1 + b);
            &&& first.0 + second.0 == decode_utf8(carry + a + b)
            &&& second.1.len() == 0
        }),
{
    let x = carry + a;
    prefix_and_rest_decode_to_the_whole(x, b);
    valid_prefix(x);
    let v = valid_up_to(x) as int;
    assert(completable(x)) by {
        assert(valid_utf8(x + b));
    }
    if valid_utf8(x) {
        assert(x.take(v) =~= x);
        assert(Seq::<u8>::empty() + b =~= (x + b).skip(v));
    } else {
        assert(x.skip(v) + b =~= (x + b).skip(v));
    }
}

/// What is shown of chunks that come one after the other, and what is kept of the last.
pub open spec fn shown_of(chunks: Seq<Seq<u8>>) -> (Seq<char>, Seq<u8>)
    decreases chunks.len(),
{
    if chunks.len() == 0 {
        (Seq::empty(), Seq::empty())
    } else {
        let before = shown_of(chunks.drop_last());
        let now = emitted(before.1 + chunks.last());
        (before.0 + now.0, now.1)
    }
}

proof fn shown_so_far(chunks: Seq<Seq<u8>>, more: Seq<u8>)
    requires
        valid_utf8(printed(chunks) + more),
    ensures
        ({
            let s = printed(chunks);
            let v = valid_up_to(s) as int;
            &&& shown_of(chunks).0 == decode_utf8(s.take(v))
            &&& shown_of(chunks).1 == s.skip(v)
        }),
    decreases chunks.len(),
{
    let s = printed(chunks);
    valid_prefix(s);
    if chunks.len() == 0 {
        assert(s.take(0) =~= Seq::empty());
        assert(s.skip(0) =~= Seq::empty());
        assert(shown_of(chunks).0 =~= decode_utf8(s.take(0)));
    } else {
        let p = printed(chunks.drop_last());
        let c = chunks.last();
        assert(p + (c + more) =~= s + more);
        shown_so_far(chunks.drop_last(), c + more);
        valid_prefix(p);
        let v = valid_up_to(p) as int;
        assert(s.take(v) =~= p.take(v));
        decoding_goes_on(s, v);
        let rest = s.skip(v);
        assert(p.skip(v) + c =~= rest);
        assert(s.take(v) + (rest + more) =~= s + more);
        prefix_and_rest_decode_to_the_whole(s.take(v), rest + more);
        valid_prefix(s.take(v));
        assert((s.take(v) + (rest + more)).skip(v) =~= rest + more);
        assert(completable(rest)) by {
            assert(valid_utf8(rest + more));
        }
        valid_prefix(rest);
        let u = valid_up_to(rest) as int;
        assert(rest.skip(u) =~= s.skip(v + u));
        if valid_utf8(rest) {
            assert(rest.take(u) =~= rest);
            assert(rest.skip(u) =~= Seq::empty());
        }
    }
}

/// However a terminal's output is cut, what is valid text in the end is shown as that text.
pub proof fn reads_lose_nothing(chunks: Seq<Seq<u8>>)
    requires
        valid_utf8(printed(chunks)),
    ensures
        shown_of(chunks).0 == decode_utf8(printed(chunks)),
        shown_of(chunks).1.len() == 0,
{
    let s = printed(chunks);
    assert(s + Seq::<u8>::empty() =~= s);
    shown_so_far(chunks, Seq::empty());
    valid_prefix(s);
    assert(s.take(s.len() as int) =~= s);
}

// ---- the table -------------------------------------------------------------------------------------

/// An open terminal, and the chat that it belongs to.
#[derive(Debug)]
pub struct Terminal {
    pub id: String,
    pub sid: String,
}

pub struct TerminalV {
    pub id: Seq<char>,
    pub sid: Seq<char>,
}

impl View for Terminal {
    type V = TerminalV;

    open spec fn view(&self) -> TerminalV {
        TerminalV { id: self.id@, sid: self.sid@ }
    }
}

/// The open terminals.
#[derive(Debug)]
pub struct Terminals {
    pub open: Vec<Terminal>,
}

pub open spec fn terminals(v: Seq<Terminal>) -> Seq<TerminalV> {
    Seq::new(v.len(), |i: int| v[i]@)
}

impl Terminals {
    /// No two terminals share an id.
    pub open spec fn wf(&self) -> bool {
        apart(self@)
    }
}

/// Whether no two terminals share an id.
pub open spec fn apart(t: Seq<TerminalV>) -> bool {
    forall|i: int, j: int| 0 <= i < j < t.len() ==> (#[trigger] t[i]).id != (#[trigger] t[j]).id
}

impl View for Terminals {
    type V = Seq<TerminalV>;

    open spec fn view(&self) -> Seq<TerminalV> {
        terminals(self.open@)
    }
}

/// The chat that a terminal belongs to.
pub open spec fn owner(t: Seq<TerminalV>, id: Seq<char>) -> Option<Seq<char>>
    decreases t.len(),
{
    if t.len() == 0 {
        None
    } else {
        match owner(t.drop_last(), id) {
            Some(s) => Some(s),
            None => if t.last().id == id {
                Some(t.last().sid)
            } else {
                None
            },
        }
    }
}

pub open spec fn without_id(t: Seq<TerminalV>, id: Seq<char>) -> Seq<TerminalV>
    decreases t.len(),
{
    if t.len() == 0 {
        Seq::empty()
    } else if t.last().id == id {
        without_id(t.drop_last(), id)
    } else {
        without_id(t.drop_last(), id).push(t.last())
    }
}

/// The terminals of a chat.
pub open spec fn ids_of(t: Seq<TerminalV>, sid: Seq<char>) -> Seq<Seq<char>>
    decreases t.len(),
{
    if t.len() == 0 {
        Seq::empty()
    } else if t.last().sid == sid {
        ids_of(t.drop_last(), sid).push(t.last().id)
    } else {
        ids_of(t.drop_last(), sid)
    }
}

pub open spec fn all_ids(t: Seq<TerminalV>) -> Seq<Seq<char>> {
    Seq::new(t.len(), |i: int| t[i].id)
}

pub open spec fn absent_text(id: Seq<char>) -> Seq<char> {
    "terminal '"@ + id + "' is not running"@
}

pub open spec fn foreign_text(id: Seq<char>) -> Seq<char> {
    "terminal '"@ + id + "' belongs to another chat"@
}

fn quoted(id: &str, rest: &str) -> (r: String)
    ensures
        r@ == "terminal '"@ + id@ + rest@,
{
    let mut s = "terminal '".to_string();
    s.append(id);
    s.append(rest);
    s
}

impl Terminals {
    pub fn new() -> (r: Terminals)
        ensures
            r@ == Seq::<TerminalV>::empty(),
            r.wf(),
    {
        let r = Terminals { open: Vec::new() };
        assert(r@ =~= Seq::empty());
        r
    }

    fn owner_of(&self, id: &str) -> (r: Option<String>)
        ensures
            opt_text(r) == owner(self@, id@),
    {
        let mut found: Option<String> = None;
        let mut i: usize = 0;
        assert(self@.take(0) =~= Seq::empty());
        while i < self.open.len()
            invariant
                i <= self.open.len(),
                opt_text(found) == owner(self@.take(i as int), id@),
            decreases self.open.len() - i,
        {
            assert(self@.take(i + 1).drop_last() =~= self@.take(i as int));
            assert(self@[i as int] == self.open@[i as int]@);
            if found.is_none() && same(self.open[i].id.as_str(), id) {
                found = Some(self.open[i].sid.clone());
            }
            i += 1;
        }
        assert(self@.take(self@.len() as int) =~= self@);
        found
    }
}

/// Whether a terminal may be opened, and under which id. An id that is in use is refused: two
/// programs would write under it.
pub fn spawn(table: &Terminals, id: &str) -> (r: Result<String, String>)
    ensures
        match r {
            Ok(t) => {
                &&& t@ == trim_of(id@)
                &&& !blank(id@)
                &&& owner(table@, t@) is None
                &&& table@.len() < MAX_PTYS
            },
            Err(e) => if blank(id@) {
                e@ == "terminal id is empty"@
            } else if owner(table@, trim_of(id@)) is Some {
                e@ == "terminal '"@ + trim_of(id@) + "' is already running"@
            } else {
                table@.len() >= MAX_PTYS && e@ == "too many terminals open ("@ + decimal_of(
                    MAX_PTYS as nat,
                ) + "); close one first"@
            },
        },
{
    let t = trim(id);
    proof {
        trim_is_empty_iff_blank(id@);
    }
    if t.as_str().unicode_len() == 0 {
        return Err("terminal id is empty".to_string());
    }
    if table.owner_of(t.as_str()).is_some() {
        return Err(quoted(t.as_str(), "' is already running"));
    }
    if table.open.len() >= MAX_PTYS {
        let mut s = "too many terminals open (".to_string();
        s.append(decimal(MAX_PTYS as u64).as_str());
        s.append("); close one first");
        return Err(s);
    }
    Ok(t)
}

/// Enters a terminal that was opened for a chat.
pub fn enter(table: &mut Terminals, sid: &str, id: &str)
    ensures
        final(table)@ == without_id(old(table)@, id@).push(TerminalV { id: id@, sid: sid@ }),
        old(table).wf() ==> final(table).wf(),
{
    proof {
        without_id_keeps_apart(table@, id@);
    }
    remove(table, id);
    let ghost before = table@;
    let t = Terminal { id: id.to_string(), sid: sid.to_string() };
    table.open.push(t);
    assert(table@ =~= before.push(t@));
}

/// Whether `r` says whether a chat may use a terminal, given whose it is.
pub open spec fn may_use(
    r: Result<(), String>,
    whose: Option<Seq<char>>,
    sid: Seq<char>,
    id: Seq<char>,
) -> bool {
    match r {
        Ok(_) => whose == Some(sid),
        Err(e) => match whose {
            Some(o) => o != sid && e@ == foreign_text(id),
            None => e@ == absent_text(id),
        },
    }
}

/// Whether a chat may use a terminal.
pub fn owned(table: &Terminals, sid: &str, id: &str) -> (r: Result<(), String>)
    ensures
        may_use(r, owner(table@, id@), sid@, id@),
{
    match table.owner_of(id) {
        Some(o) => {
            if same(o.as_str(), sid) {
                Ok(())
            } else {
                Err(quoted(id, "' belongs to another chat"))
            }
        },
        None => Err(quoted(id, "' is not running")),
    }
}

/// Whether a chat may type into a terminal.
pub fn write(table: &Terminals, sid: &str, id: &str) -> (r: Result<(), String>)
    ensures
        may_use(r, owner(table@, id@), sid@, id@),
{
    owned(table, sid, id)
}

/// The columns and rows to give a terminal, where the chat may.
pub fn resize(table: &Terminals, sid: &str, id: &str, cols: u16, rows: u16) -> (r: Result<
    (u16, u16),
    String,
>)
    ensures
        match r {
            Ok((c, w)) => {
                &&& owner(table@, id@) == Some(sid@)
                &&& c == clamped(cols)
                &&& w == clamped(rows)
            },
            Err(e) => match owner(table@, id@) {
                Some(o) => o != sid@ && e@ == foreign_text(id@),
                None => e@ == absent_text(id@),
            },
        },
{
    match owned(table, sid, id) {
        Ok(_) => Ok((clamp(cols), clamp(rows))),
        Err(e) => Err(e),
    }
}

/// Whether there is a program to end. A terminal that is gone already is no error: closing one
/// whose program has just ended is what usually happens.
pub fn kill(table: &Terminals, sid: &str, id: &str) -> (r: Result<bool, String>)
    ensures
        match r {
            Ok(b) => if b {
                owner(table@, id@) == Some(sid@)
            } else {
                owner(table@, id@) is None
            },
            Err(e) => (owner(table@, id@) matches Some(o) && o != sid@) && e@ == foreign_text(id@),
        },
{
    match table.owner_of(id) {
        Some(o) => {
            if same(o.as_str(), sid) {
                Ok(true)
            } else {
                Err(quoted(id, "' belongs to another chat"))
            }
        },
        None => Ok(false),
    }
}

/// The terminals of a chat, which have to be ended before its folder can be deleted.
pub fn kill_session(table: &Terminals, sid: &str) -> (r: Vec<String>)
    ensures
        texts(r@) == ids_of(table@, sid@),
{
    let mut out: Vec<String> = Vec::new();
    let mut i: usize = 0;
    assert(texts(out@) =~= ids_of(table@.take(0), sid@));
    while i < table.open.len()
        invariant
            i <= table.open.len(),
            texts(out@) == ids_of(table@.take(i as int), sid@),
        decreases table.open.len() - i,
    {
        assert(table@.take(i + 1).drop_last() =~= table@.take(i as int));
        assert(table@[i as int] == table.open@[i as int]@);
        if same(table.open[i].sid.as_str(), sid) {
            let ghost before = texts(out@);
            out.push(table.open[i].id.clone());
            assert(texts(out@) =~= before.push(table@[i as int].id));
        }
        i += 1;
    }
    assert(table@.take(table@.len() as int) =~= table@);
    out
}

/// Whether one of these terminals is still open.
pub fn any_open(table: &Terminals, ids: &Vec<String>) -> (r: bool)
    ensures
        r == exists|i: int|
            0 <= i < table@.len() && texts(ids@).contains((#[trigger] table@[i]).id),
{
    let mut i: usize = 0;
    while i < table.open.len()
        invariant
            i <= table.open.len(),
            forall|k: int| 0 <= k < i ==> !texts(ids@).contains((#[trigger] table@[k]).id),
        decreases table.open.len() - i,
    {
        assert(table@[i as int] == table.open@[i as int]@);
        if one_of(table.open[i].id.as_str(), ids) {
            return true;
        }
        i += 1;
    }
    false
}

/// Forgets a terminal.
pub fn remove(table: &mut Terminals, id: &str)
    ensures
        final(table)@ == without_id(old(table)@, id@),
        old(table).wf() ==> final(table).wf(),
{
    let ghost t = table@;
    proof {
        without_id_keeps_apart(t, id@);
    }
    let ghost mut gone: int = 0;
    let mut i: usize = 0;
    assert(terminals(table.open@.take(0)) =~= without_id(t.take(0), id@));
    while i < table.open.len()
        invariant
            i <= table.open.len(),
            0 <= gone,
            table.open@.len() + gone == t.len(),
            terminals(table.open@.take(i as int)) == without_id(t.take(i + gone), id@),
            forall|k: int|
                i <= k < table.open@.len() ==> (#[trigger] table.open@[k])@ == t[k + gone],
        decreases table.open.len() - i,
    {
        assert(t.take(i + gone + 1).drop_last() =~= t.take(i + gone));
        assert(t.take(i + gone + 1).last() == table.open@[i as int]@);
        let ghost before = table.open@;
        if same(table.open[i].id.as_str(), id) {
            let _ = table.open.remove(i);
            assert(table.open@.take(i as int) =~= before.take(i as int));
            proof {
                gone = gone + 1;
            }
            assert forall|k: int| i <= k < table.open@.len() implies (#[trigger] table.open@[k])@
                == t[k + gone] by {
                assert(table.open@[k] == before[k + 1]);
            }
        } else {
            assert(terminals(table.open@.take(i + 1)) =~= terminals(
                table.open@.take(i as int),
            ).push(table.open@[i as int]@));
            i += 1;
        }
    }
    assert(t.take(i + gone) =~= t);
    assert(table.open@.take(i as int) =~= table.open@);
}

/// Whether a chat has a terminal open.
pub fn alive(table: &Terminals, sid: &str, id: &str) -> (r: bool)
    ensures
        r == (owner(table@, id@) == Some(sid@)),
{
    match table.owner_of(id) {
        Some(o) => same(o.as_str(), sid),
        None => false,
    }
}

/// Forgets every terminal and hands out the ones to end, whoever owns them.
pub fn shutdown(table: &mut Terminals) -> (r: Vec<String>)
    ensures
        texts(r@) == all_ids(old(table)@),
        final(table)@.len() == 0,
        final(table).wf(),
{
    let mut out: Vec<String> = Vec::new();
    let mut i: usize = 0;
    while i < table.open.len()
        invariant
            i <= table.open.len(),
            *table == *old(table),
            out@.len() == i,
            forall|k: int| 0 <= k < i ==> (#[trigger] out@[k])@ == table@[k].id,
        decreases table.open.len() - i,
    {
        out.push(table.open[i].id.clone());
        i += 1;
    }
    assert(texts(out@) =~= all_ids(table@));
    table.open.clear();
    out
}

proof fn without_id_keeps_apart(t: Seq<TerminalV>, id: Seq<char>)
    ensures
        apart(t) ==> apart(without_id(t, id)),
        forall|i: int|
            0 <= i < without_id(t, id).len() ==> (#[trigger] without_id(t, id)[i]).id != id
                && t.contains(without_id(t, id)[i]),
    decreases t.len(),
{
    if t.len() > 0 {
        let d = t.drop_last();
        without_id_keeps_apart(d, id);
        let w = without_id(t, id);
        let u = without_id(d, id);
        assert forall|i: int| 0 <= i < w.len() implies (#[trigger] w[i]).id != id && t.contains(
            w[i],
        ) by {
            if i < u.len() {
                assert(u[i] == w[i]);
                let k = choose|k: int| 0 <= k < d.len() && d[k] == u[i];
                assert(t[k] == w[i]);
            } else {
                assert(t[t.len() - 1] == w[i]);
            }
        }
        if apart(t) {
            assert(apart(d));
            assert forall|i: int, j: int| 0 <= i < j < w.len() implies (#[trigger] w[i]).id != (
            #[trigger] w[j]).id by {
                assert(w[i] == u[i]);
                if j < u.len() {
                    assert(w[j] == u[j]);
                } else {
                    assert(d.contains(u[i]));
                    let k = choose|k: int| 0 <= k < d.len() && d[k] == u[i];
                    assert(t[k].id != t[t.len() - 1].id);
                }
            }
        }
    }
}

proof fn owner_of_rest(t: Seq<TerminalV>, id: Seq<char>, other: Seq<char>)
    ensures
        owner(without_id(t, id), id) is None,
        other != id ==> owner(without_id(t, id), other) == owner(t, other),
    decreases t.len(),
{
    if t.len() > 0 {
        let d = t.drop_last();
        owner_of_rest(d, id, other);
        if t.last().id != id {
            let w = without_id(d, id);
            assert(w.push(t.last()).drop_last() =~= w);
        }
    }
}

/// A terminal that was entered belongs to its chat and to no other, and whose the others are is
/// as it was.
pub proof fn a_terminal_belongs_to_one_chat(
    t: Seq<TerminalV>,
    sid: Seq<char>,
    id: Seq<char>,
    other: Seq<char>,
)
    ensures
        ({
            let r = without_id(t, id).push(TerminalV { id, sid });
            &&& owner(r, id) == Some(sid)
            &&& other != id ==> owner(r, other) == owner(t, other)
        }),
{
    let w = without_id(t, id);
    let r = w.push(TerminalV { id, sid });
    assert(r.drop_last() =~= w);
    owner_of_rest(t, id, other);
}

/// A terminal that was removed is nobody's, and whose the others are is as it was.
pub proof fn a_removed_terminal_is_nobodys(t: Seq<TerminalV>, id: Seq<char>, other: Seq<char>)
    ensures
        owner(without_id(t, id), id) is None,
        other != id ==> owner(without_id(t, id), other) == owner(t, other),
{
    owner_of_rest(t, id, other);
}

/// A size that the system accepts is kept, and any other becomes the nearest that it does.
pub proof fn a_size_is_kept_where_it_can_be(v: u16)
    ensures
        1 <= v <= 1000 ==> clamped(v) == v,
        v < 1 ==> clamped(v) == 1,
        v > 1000 ==> clamped(v) == 1000,
{
}

/// The program that the user has chosen is the one that is started; where there is none, the login
/// shell is, and on Windows the one of the system.
pub proof fn the_chosen_shell_is_started(chosen: Seq<char>, windows: bool, login: Seq<char>)
    ensures
        !blank(chosen) ==> shell_of(Some(chosen), windows, Some(login)).0 == trim_of(chosen)
            && shell_of(Some(chosen), windows, Some(login)).1.len() == 0,
        windows ==> shell_of(None, windows, Some(login)).0 == "powershell.exe"@,
        !windows && !blank(login) ==> shell_of(None, windows, Some(login)).0 == login,
        !windows && blank(login) ==> shell_of(None, windows, Some(login)).0 == "/bin/sh"@,
        !windows ==> shell_of(None, windows, None).0 == "/bin/sh"@,
        blank(chosen) ==> shell_of(Some(chosen), windows, Some(login)) == shell_of(
            None,
            windows,
            Some(login),
        ),
{
}

/// A terminal is its chat's: whose it is, is what was entered for it, and one that was not entered is
/// nobody's.
pub proof fn a_terminal_is_its_chats(t: Seq<TerminalV>, id: Seq<char>)
    ensures
        owner(t, id) matches Some(sid) ==> exists|i: int|
            0 <= i < t.len() && #[trigger] t[i] == (TerminalV { id, sid }),
        owner(t, id) is None ==> forall|i: int| 0 <= i < t.len() ==> (#[trigger] t[i]).id != id,
        apart(t) ==> forall|i: int|
            0 <= i < t.len() && (#[trigger] t[i]).id == id ==> owner(t, id) == Some(t[i].sid),
    decreases t.len(),
{
    if t.len() > 0 {
        let d = t.drop_last();
        assert forall|i: int, j: int| apart(t) && 0 <= i < j < d.len() implies (#[trigger] d[i]).id != (
        #[trigger] d[j]).id by {
            assert(d[i] == t[i] && d[j] == t[j]);
        }
        a_terminal_is_its_chats(d, id);
        match owner(d, id) {
            Some(sid) => {
                let i = choose|i: int|
                    0 <= i < d.len() && #[trigger] d[i] == (TerminalV { id, sid });
                assert(t[i] == (TerminalV { id, sid }));
                if apart(t) {
                    assert forall|k: int| 0 <= k < t.len() && (#[trigger] t[k]).id == id implies owner(
                        t,
                        id,
                    ) == Some(t[k].sid) by {
                        if k < i {
                            assert(t[k].id != t[i].id);
                        } else if k > i {
                            assert(t[i].id != t[k].id);
                        }
                    }
                }
            },
            None => {
                assert forall|k: int| 0 <= k < d.len() implies (#[trigger] t[k]).id != id by {
                    assert(d[k] == t[k]);
                }
                assert(t[t.len() - 1] == t.last());
            },
        }
    }
}

/// Forgetting a terminal leaves all the others, in their order.
pub proof fn only_that_terminal_goes(t: Seq<TerminalV>, id: Seq<char>)
    ensures
        without_id(t, id) == t.filter(|x: TerminalV| x.id != id),
    decreases t.len(),
{
    reveal(Seq::filter);
    if t.len() > 0 {
        only_that_terminal_goes(t.drop_last(), id);
    }
}

/// All the terminals of a chat are ended with it, and none of another.
pub proof fn all_terminals_of_a_chat_are_ended(a: Seq<TerminalV>, b: Seq<TerminalV>, t: TerminalV, sid: Seq<char>)
    ensures
        ids_of(a + b, sid) == ids_of(a, sid) + ids_of(b, sid),
        ids_of(seq![t], sid) == if t.sid == sid {
            seq![t.id]
        } else {
            Seq::empty()
        },
    decreases b.len(),
{
    assert(seq![t].drop_last() =~= Seq::empty());
    assert(ids_of(seq![t].drop_last(), sid) =~= Seq::empty());
    assert(ids_of(seq![t], sid) =~= if t.sid == sid {
        seq![t.id]
    } else {
        Seq::empty()
    });
    if b.len() == 0 {
        assert(a + b =~= a);
    } else {
        all_terminals_of_a_chat_are_ended(a, b.drop_last(), t, sid);
        assert((a + b).drop_last() =~= a + b.drop_last());
    }
    assert(ids_of(a + b, sid) =~= ids_of(a, sid) + ids_of(b, sid));
}

/// What can still be completed waits for its rest, and what no rest can mend is shown replaced at
/// once.
pub proof fn nothing_is_held_up(b: Seq<u8>)
    ensures
        valid_utf8(b) ==> emitted(b).0 == decode_utf8(b) && emitted(b).1.len() == 0,
        !valid_utf8(b) && !completable(b) ==> emitted(b).0 == lossy_of(b) && emitted(b).1.len() == 0,
        !valid_utf8(b) && completable(b) ==> {
            let v = valid_up_to(b) as int;
            emitted(b).0 == decode_utf8(b.take(v)) && b.take(v) + emitted(b).1 == b
        },
{
    valid_prefix(b);
    let v = valid_up_to(b) as int;
    assert(b.take(v) + b.skip(v) =~= b);
}

/// A chat may use its own terminals and no other's; what it may not use is named.
pub proof fn a_chat_uses_its_own_terminals(
    r: Result<(), String>,
    whose: Option<Seq<char>>,
    sid: Seq<char>,
    id: Seq<char>,
)
    requires
        may_use(r, whose, sid, id),
    ensures
        r is Ok <==> whose == Some(sid),
        r matches Err(e) ==> within(id, e@),
{
    let a = "terminal '"@;
    between(a, id, "' is not running"@, absent_text(id));
    between(a, id, "' belongs to another chat"@, foreign_text(id));
}

} // verus!
