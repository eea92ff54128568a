//! Which chats are at work.
//!
//! Every run, and every compaction, has a token of its own. Stopping a chat means stopping its
//! tokens: what was stopped once does not stop what comes later, nor any other chat.

use vstd::prelude::*;

use crate::text::{same, texts};

verus! {

/// The runs and the compactions, by chat.
#[derive(Debug)]
pub struct Runs {
    /// How many tokens were handed out.
    pub issued: u64,
    pub runs: Vec<(String, u64)>,
    pub compactions: Vec<(String, u64)>,
}

pub struct RunsV {
    pub issued: u64,
    pub runs: Seq<(Seq<char>, u64)>,
    pub compactions: Seq<(Seq<char>, u64)>,
}

pub open spec fn tokens(v: Seq<(String, u64)>) -> Seq<(Seq<char>, u64)> {
    Seq::new(v.len(), |i: int| (v[i].0@, v[i].1))
}

impl View for Runs {
    type V = RunsV;

    open spec fn view(&self) -> RunsV {
        RunsV {
            issued: self.issued,
            runs: tokens(self.runs@),
            compactions: tokens(self.compactions@),
        }
    }
}

/// The token of a chat.
pub open spec fn token_of(v: Seq<(Seq<char>, u64)>, sid: Seq<char>) -> Option<u64>
    decreases v.len(),
{
    if v.len() == 0 {
        None
    } else {
        match token_of(v.drop_last(), sid) {
            Some(t) => Some(t),
            None => if v.last().0 == sid {
                Some(v.last().1)
            } else {
                None
            },
        }
    }
}

/// The tokens without those of a chat.
pub open spec fn without_chat(v: Seq<(Seq<char>, u64)>, sid: Seq<char>) -> Seq<(Seq<char>, u64)>
    decreases v.len(),
{
    if v.len() == 0 {
        Seq::empty()
    } else if v.last().0 == sid {
        without_chat(v.drop_last(), sid)
    } else {
        without_chat(v.drop_last(), sid).push(v.last())
    }
}

pub open spec fn one(t: Option<u64>) -> Seq<u64> {
    match t {
        Some(t) => seq![t],
        None => Seq::empty(),
    }
}

pub open spec fn all_tokens(v: Seq<(Seq<char>, u64)>) -> Seq<u64> {
    Seq::new(v.len(), |i: int| v[i].1)
}

pub open spec fn chats(v: Seq<(Seq<char>, u64)>) -> Seq<Seq<char>> {
    Seq::new(v.len(), |i: int| v[i].0)
}

fn find_token(v: &Vec<(String, u64)>, sid: &str) -> (r: Option<u64>)
    ensures
        r == token_of(tokens(v@), sid@),
{
    let ghost t = tokens(v@);
    let mut found: Option<u64> = None;
    let mut i: usize = 0;
    assert(t.take(0) =~= Seq::empty());
    while i < v.len()
        invariant
            i <= v.len(),
            t == tokens(v@),
            found == token_of(t.take(i as int), sid@),
        decreases v.len() - i,
    {
        assert(t.take(i + 1).drop_last() =~= t.take(i as int));
        assert(t[i as int] == (v@[i as int].0@, v@[i as int].1));
        if found.is_none() && same(v[i].0.as_str(), sid) {
            found = Some(v[i].1);
        }
        i += 1;
    }
    assert(t.take(t.len() as int) =~= t);
    found
}

fn drop_chat(v: &mut Vec<(String, u64)>, sid: &str)
    ensures
        tokens(final(v)@) == without_chat(tokens(old(v)@), sid@),
{
    let ghost t = tokens(v@);
    let ghost mut gone: int = 0;
    let mut i: usize = 0;
    assert(tokens(v@.take(0)) =~= without_chat(t.take(0), sid@));
    while i < v.len()
        invariant
            i <= v.len(),
            0 <= gone,
            v@.len() + gone == t.len(),
            tokens(v@.take(i as int)) == without_chat(t.take(i + gone), sid@),
            forall|k: int|
                i <= k < v@.len() ==> (#[trigger] v@[k]).0@ == t[k + gone].0 && v@[k].1 == t[k
                    + gone].1,
        decreases v.len() - i,
    {
        assert(t.take(i + gone + 1).drop_last() =~= t.take(i + gone));
        assert(t.take(i + gone + 1).last() == (v@[i as int].0@, v@[i as int].1));
        let ghost before = v@;
        if same(v[i].0.as_str(), sid) {
            let _ = v.remove(i);
            assert(v@.take(i as int) =~= before.take(i as int));
            proof {
                gone = gone + 1;
            }
            assert forall|k: int| i <= k < v@.len() implies (#[trigger] v@[k]).0@ == t[k + gone].0
                && v@[k].1 == t[k + gone].1 by {
                assert(v@[k] == before[k + 1]);
            }
        } else {
            assert(tokens(v@.take(i + 1)) =~= tokens(v@.take(i as int)).push(
                (v@[i as int].0@, v@[i as int].1),
            ));
            i += 1;
        }
    }
    assert(t.take(i + gone) =~= t);
    assert(v@.take(i as int) =~= v@);
}

/// Whether no chat and no token occurs twice.
pub open spec fn each_once(v: Seq<(Seq<char>, u64)>) -> bool {
    forall|i: int, j: int|
        0 <= i < j < v.len() ==> (#[trigger] v[i]).0 != (#[trigger] v[j]).0 && v[i].1 != v[j].1
}

/// Whether every token was handed out before the one numbered `issued`.
pub open spec fn handed_out(v: Seq<(Seq<char>, u64)>, issued: u64) -> bool {
    forall|i: int| 0 <= i < v.len() ==> (#[trigger] v[i]).1 < issued
}

/// Whether a chat has at most one run and one compaction, and every token that is in use was
/// handed out, each once.
pub open spec fn in_use(r: RunsV) -> bool {
    &&& each_once(r.runs)
    &&& each_once(r.compactions)
    &&& handed_out(r.runs, r.issued)
    &&& handed_out(r.compactions, r.issued)
    &&& forall|i: int, j: int|
        0 <= i < r.runs.len() && 0 <= j < r.compactions.len() ==> (#[trigger] r.runs[i]).1 != (
        #[trigger] r.compactions[j]).1
}

proof fn without_chat_is_part(v: Seq<(Seq<char>, u64)>, sid: Seq<char>)
    ensures
        each_once(v) ==> each_once(without_chat(v, sid)),
        forall|k: int|
            0 <= k < without_chat(v, sid).len() ==> (#[trigger] without_chat(v, sid)[k]).0 != sid
                && v.contains(without_chat(v, sid)[k]),
    decreases v.len(),
{
    if v.len() > 0 {
        let d = v.drop_last();
        without_chat_is_part(d, sid);
        let w = without_chat(v, sid);
        let u = without_chat(d, sid);
        assert forall|k: int| 0 <= k < w.len() implies (#[trigger] w[k]).0 != sid && v.contains(
            w[k],
        ) by {
            if k < u.len() {
                assert(u[k] == w[k]);
                let m = choose|m: int| 0 <= m < d.len() && d[m] == u[k];
                assert(v[m] == w[k]);
            } else {
                assert(v[v.len() - 1] == w[k]);
            }
        }
        if each_once(v) {
            assert forall|i: int, j: int| 0 <= i < j < d.len() implies (#[trigger] d[i]).0 != (
            #[trigger] d[j]).0 && d[i].1 != d[j].1 by {
                assert(v[i].0 != v[j].0);
            }
            assert forall|i: int, j: int| 0 <= i < j < w.len() implies (#[trigger] w[i]).0 != (
            #[trigger] w[j]).0 && w[i].1 != w[j].1 by {
                assert(w[i] == u[i]);
                if j < u.len() {
                    assert(w[j] == u[j]);
                } else {
                    assert(d.contains(u[i]));
                    let m = choose|m: int| 0 <= m < d.len() && d[m] == u[i];
                    assert(v[m].0 != v[v.len() - 1].0);
                }
            }
        }
    }
}

proof fn dropping_a_run_keeps_order(r: RunsV, sid: Seq<char>)
    requires
        in_use(r),
    ensures
        in_use(RunsV { runs: without_chat(r.runs, sid), ..r }),
        in_use(RunsV { compactions: without_chat(r.compactions, sid), ..r }),
{
    without_chat_is_part(r.runs, sid);
    without_chat_is_part(r.compactions, sid);
    let a = without_chat(r.runs, sid);
    let b = without_chat(r.compactions, sid);
    assert forall|i: int| 0 <= i < a.len() implies (#[trigger] a[i]).1 < r.issued && forall|j: int|
        0 <= j < r.compactions.len() ==> a[i].1 != (#[trigger] r.compactions[j]).1 by {
        assert(r.runs.contains(a[i]));
        let m = choose|m: int| 0 <= m < r.runs.len() && r.runs[m] == a[i];
        assert(r.runs[m].1 < r.issued);
    }
    assert forall|j: int| 0 <= j < b.len() implies (#[trigger] b[j]).1 < r.issued && forall|i: int|
        0 <= i < r.runs.len() ==> (#[trigger] r.runs[i]).1 != b[j].1 by {
        assert(r.compactions.contains(b[j]));
        let m = choose|m: int| 0 <= m < r.compactions.len() && r.compactions[m] == b[j];
        assert(r.compactions[m].1 < r.issued);
    }
}

impl Runs {
    pub fn new() -> (r: Runs)
        ensures
            in_use(r@),
            r@ == (RunsV { issued: 0, runs: Seq::empty(), compactions: Seq::empty() }),
    {
        let r = Runs { issued: 0, runs: Vec::new(), compactions: Vec::new() };
        assert(r@.runs =~= Seq::empty());
        assert(r@.compactions =~= Seq::empty());
        r
    }

    /// Whether a chat is running.
    pub fn is_running(&self, sid: &str) -> (r: bool)
        ensures
            r == token_of(self@.runs, sid@) is Some,
    {
        find_token(&self.runs, sid).is_some()
    }

    /// Enters a run and hands out its token; none where the chat is running already.
    pub fn begin_run(&mut self, sid: &str) -> (r: Option<u64>)
        requires
            old(self).issued < u64::MAX,
        ensures
            match r {
                Some(t) => {
                    &&& token_of(old(self)@.runs, sid@) is None
                    &&& t == old(self).issued
                    &&& final(self)@ == (RunsV {
                        issued: (old(self).issued + 1) as u64,
                        runs: old(self)@.runs.push((sid@, t)),
                        ..old(self)@
                    })
                },
                None => token_of(old(self)@.runs, sid@) is Some && final(self)@ == old(self)@,
            },
            in_use(old(self)@) ==> in_use(final(self)@),
    {
        if self.is_running(sid) {
            return None;
        }
        proof {
            if in_use(self@) {
                a_new_run_was_never_stopped(self@, sid@);
            }
        }
        let t: u64 = self.issued;
        self.issued = t + 1;
        let ghost before = tokens(self.runs@);
        self.runs.push((sid.to_string(), t));
        assert(tokens(self.runs@) =~= before.push((sid@, t)));
        Some(t)
    }

    /// Ends the run of a chat.
    pub fn end_run(&mut self, sid: &str)
        ensures
            final(self)@ == (RunsV { runs: without_chat(old(self)@.runs, sid@), ..old(self)@ }),
            in_use(old(self)@) ==> in_use(final(self)@),
    {
        proof {
            if in_use(self@) {
                dropping_a_run_keeps_order(self@, sid@);
            }
        }
        drop_chat(&mut self.runs, sid);
    }

    /// The tokens to stop for a chat: that of its run, and that of its compaction. It can have
    /// both.
    pub fn cancel(&self, sid: &str) -> (r: Vec<u64>)
        ensures
            r@ == one(token_of(self@.runs, sid@)) + one(token_of(self@.compactions, sid@)),
    {
        let mut out: Vec<u64> = Vec::new();
        match find_token(&self.runs, sid) {
            Some(t) => {
                out.push(t);
            },
            None => {},
        }
        match find_token(&self.compactions, sid) {
            Some(t) => {
                out.push(t);
            },
            None => {},
        }
        assert(out@ =~= one(token_of(self@.runs, sid@)) + one(
            token_of(self@.compactions, sid@),
        ));
        out
    }

    /// Enters a compaction, in place of one that the chat had, and hands out its token.
    pub fn begin_compaction(&mut self, sid: &str) -> (r: u64)
        requires
            old(self).issued < u64::MAX,
        ensures
            r == old(self).issued,
            final(self)@ == (RunsV {
                issued: (old(self).issued + 1) as u64,
                compactions: without_chat(old(self)@.compactions, sid@).push((sid@, r)),
                ..old(self)@
            }),
            in_use(old(self)@) ==> in_use(final(self)@),
    {
        proof {
            if in_use(self@) {
                dropping_a_run_keeps_order(self@, sid@);
                without_chat_is_part(self@.compactions, sid@);
            }
        }
        let t: u64 = self.issued;
        self.issued = t + 1;
        drop_chat(&mut self.compactions, sid);
        let ghost before = tokens(self.compactions@);
        self.compactions.push((sid.to_string(), t));
        assert(tokens(self.compactions@) =~= before.push((sid@, t)));
        t
    }

    /// Ends the compaction of a chat.
    pub fn end_compaction(&mut self, sid: &str)
        ensures
            final(self)@ == (RunsV {
                compactions: without_chat(old(self)@.compactions, sid@),
                ..old(self)@
            }),
            in_use(old(self)@) ==> in_use(final(self)@),
    {
        proof {
            if in_use(self@) {
                dropping_a_run_keeps_order(self@, sid@);
            }
        }
        drop_chat(&mut self.compactions, sid);
    }

    /// All the tokens.
    pub fn cancel_all(&self) -> (r: Vec<u64>)
        ensures
            r@ == all_tokens(self@.runs) + all_tokens(self@.compactions),
    {
        let mut out: Vec<u64> = Vec::new();
        let mut i: usize = 0;
        while i < self.runs.len()
            invariant
                i <= self.runs.len(),
                out@ == all_tokens(self@.runs).take(i as int),
            decreases self.runs.len() - i,
        {
            out.push(self.runs[i].1);
            i += 1;
        }
        let mut j: usize = 0;
        assert(out@ =~= all_tokens(self@.runs));
        while j < self.compactions.len()
            invariant
                j <= self.compactions.len(),
                out@ == all_tokens(self@.runs) + all_tokens(self@.compactions).take(j as int),
            decreases self.compactions.len() - j,
        {
            out.push(self.compactions[j].1);
            j += 1;
        }
        assert(out@ =~= all_tokens(self@.runs) + all_tokens(self@.compactions));
        out
    }

    /// The chats that are running.
    pub fn running(&self) -> (r: Vec<String>)
        ensures
            texts(r@) == chats(self@.runs),
    {
        let mut out: Vec<String> = Vec::new();
        let mut i: usize = 0;
        while i < self.runs.len()
            invariant
                i <= self.runs.len(),
                out@.len() == i,
                forall|k: int| 0 <= k < i ==> (#[trigger] out@[k])@ == self@.runs[k].0,
            decreases self.runs.len() - i,
        {
            out.push(self.runs[i].0.clone());
            i += 1;
        }
        assert(texts(out@) =~= chats(self@.runs));
        out
    }
}

proof fn without_chat_facts(v: Seq<(Seq<char>, u64)>, sid: Seq<char>, other: Seq<char>)
    ensures
        token_of(without_chat(v, sid), sid) is None,
        other != sid ==> token_of(without_chat(v, sid), other) == token_of(v, other),
    decreases v.len(),
{
    if v.len() > 0 {
        let d = v.drop_last();
        without_chat_facts(d, sid, other);
        if v.last().0 != sid {
            let w = without_chat(d, sid);
            assert(w.push(v.last()).drop_last() =~= w);
        }
    }
}

/// A run that has ended can begin again, and the runs of other chats are as they were.
pub proof fn ending_a_run_frees_the_chat(v: Seq<(Seq<char>, u64)>, sid: Seq<char>, other: Seq<char>)
    ensures
        token_of(without_chat(v, sid), sid) is None,
        other != sid ==> token_of(without_chat(v, sid), other) == token_of(v, other),
{
    without_chat_facts(v, sid, other);
}

proof fn token_is_listed(v: Seq<(Seq<char>, u64)>, sid: Seq<char>) -> (i: int)
    requires
        token_of(v, sid) is Some,
    ensures
        0 <= i < v.len(),
        v[i] == (sid, token_of(v, sid)->0),
    decreases v.len(),
{
    let d = v.drop_last();
    if token_of(d, sid) is Some {
        let i = token_is_listed(d, sid);
        assert(v[i] == d[i]);
        i
    } else {
        v.len() - 1
    }
}

/// Stopping a chat stops nothing of another chat.
pub proof fn stopping_one_chat_spares_the_others(r: RunsV, sid: Seq<char>, other: Seq<char>)
    requires
        in_use(r),
        sid != other,
    ensures
        ({
            let stopped = one(token_of(r.runs, sid)) + one(token_of(r.compactions, sid));
            let spared = one(token_of(r.runs, other)) + one(token_of(r.compactions, other));
            forall|i: int, j: int|
                0 <= i < stopped.len() && 0 <= j < spared.len() ==> stopped[i] != spared[j]
        }),
{
    let stopped = one(token_of(r.runs, sid)) + one(token_of(r.compactions, sid));
    let spared = one(token_of(r.runs, other)) + one(token_of(r.compactions, other));
    assert forall|i: int, j: int| 0 <= i < stopped.len() && 0 <= j < spared.len() implies stopped[i]
        != spared[j] by {
        if i == 0 && token_of(r.runs, sid) is Some {
            let a = token_is_listed(r.runs, sid);
            if j == 0 && token_of(r.runs, other) is Some {
                let b = token_is_listed(r.runs, other);
                assert(a < b || b < a);
            } else {
                let b = token_is_listed(r.compactions, other);
                assert(r.runs[a].1 != r.compactions[b].1);
            }
        } else {
            let a = token_is_listed(r.compactions, sid);
            if j == 0 && token_of(r.runs, other) is Some {
                let b = token_is_listed(r.runs, other);
                assert(r.runs[b].1 != r.compactions[a].1);
            } else {
                let b = token_is_listed(r.compactions, other);
                assert(a < b || b < a);
            }
        }
    }
}

proof fn no_token_no_entry(v: Seq<(Seq<char>, u64)>, sid: Seq<char>)
    requires
        token_of(v, sid) is None,
    ensures
        forall|i: int| 0 <= i < v.len() ==> (#[trigger] v[i]).0 != sid,
    decreases v.len(),
{
    if v.len() > 0 {
        let d = v.drop_last();
        no_token_no_entry(d, sid);
        assert forall|i: int| 0 <= i < v.len() implies (#[trigger] v[i]).0 != sid by {
            if i < d.len() {
                assert(d[i] == v[i]);
            }
        }
    }
}

/// A new run was never stopped: its token is one that nothing had before.
pub proof fn a_new_run_was_never_stopped(r: RunsV, sid: Seq<char>)
    requires
        in_use(r),
        r.issued < u64::MAX,
    ensures
        !(all_tokens(r.runs) + all_tokens(r.compactions)).contains(r.issued),
        token_of(r.runs, sid) is None ==> in_use(
            RunsV {
                issued: (r.issued + 1) as u64,
                runs: r.runs.push((sid, r.issued)),
                ..r
            },
        ),
{
    let all = all_tokens(r.runs) + all_tokens(r.compactions);
    let n = r.runs.len() as int;
    if all.contains(r.issued) {
        let k = choose|k: int| 0 <= k < all.len() && all[k] == r.issued;
        if k < n {
            assert(r.runs[k].1 < r.issued);
        } else {
            assert(r.compactions[k - n].1 < r.issued);
        }
    }
    if token_of(r.runs, sid) is None {
        no_token_no_entry(r.runs, sid);
    }
}

// ---- closing the window ------------------------------------------------------------------------------

/// What is known when the window is asked to close.
#[derive(Debug, Clone, Copy, PartialEq, Eq, Structural)]
pub struct CloseGuard {
    /// The front end can ask for confirmation.
    pub ui_ready: bool,
    /// It is asking.
    pub pending: bool,
}

impl CloseGuard {
    /// Whether closing is held back to ask first. It never is where nobody can ask, nor a second
    /// time while the question is on the screen.
    pub fn close_requested(&mut self) -> (r: bool)
        ensures
            r == (old(self).ui_ready && !old(self).pending),
            *final(self) == (CloseGuard {
                ui_ready: old(self).ui_ready,
                pending: old(self).pending || old(self).ui_ready,
            }),
    {
        if !self.ui_ready {
            return false;
        }
        let again: bool = self.pending;
        self.pending = true;
        !again
    }
}

/// A chat that is at work is known to be, by its own token, so that stopping it stops it.
pub proof fn stopping_a_chat_stops_it(v: Seq<(Seq<char>, u64)>, i: int)
    requires
        0 <= i < v.len(),
        each_once(v),
    ensures
        token_of(v, v[i].0) == Some(v[i].1),
        one(token_of(v, v[i].0)).contains(v[i].1),
        all_tokens(v).contains(v[i].1),
        chats(v).contains(v[i].0),
{
    if token_of(v, v[i].0) is None {
        no_token_no_entry(v, v[i].0);
        assert(v[i].0 != v[i].0);
    }
    let k = token_is_listed(v, v[i].0);
    if k < i {
        assert(v[k].0 != v[i].0);
    } else if k > i {
        assert(v[i].0 != v[k].0);
    }
    assert(one(token_of(v, v[i].0))[0] == v[i].1);
    assert(all_tokens(v)[i] == v[i].1);
    assert(chats(v)[i] == v[i].0);
}

} // verus!
