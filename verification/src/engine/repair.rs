//! Making a history acceptable to a provider again.
//!
//! Every tool call must be answered by a tool message, and every tool message must answer
//! a call that is still in the history. A run stores the calls before it runs the tools, so
//! a program that ends in between leaves calls that nothing answers.

use vstd::prelude::*;

use crate::engine::{msgs, parts_view, result_msg, Msg, MsgV, Part, PartV, INTERRUPTED_TOOL_RESULT};
use crate::text::{one_of, same, texts};

verus! {

/// The ids of the calls among `parts`.
pub open spec fn part_calls(parts: Seq<PartV>) -> Seq<Seq<char>>
    decreases parts.len(),
{
    if parts.len() == 0 {
        Seq::empty()
    } else {
        let p = part_calls(parts.drop_last());
        match parts.last() {
            PartV::ToolCall(tc) => p.push(tc.id),
            _ => p,
        }
    }
}

/// The ids of the results among `parts`.
pub open spec fn part_results(parts: Seq<PartV>) -> Seq<Seq<char>>
    decreases parts.len(),
{
    if parts.len() == 0 {
        Seq::empty()
    } else {
        let p = part_results(parts.drop_last());
        match parts.last() {
            PartV::ToolResult { id, name, content } => p.push(id),
            _ => p,
        }
    }
}

/// The ids of the calls of a history.
pub open spec fn called(h: Seq<MsgV>) -> Seq<Seq<char>>
    decreases h.len(),
{
    if h.len() == 0 {
        Seq::empty()
    } else {
        called(h.drop_last()) + part_calls(h.last().parts)
    }
}

/// The ids that a history holds a result for.
pub open spec fn answered(h: Seq<MsgV>) -> Seq<Seq<char>>
    decreases h.len(),
{
    if h.len() == 0 {
        Seq::empty()
    } else {
        answered(h.drop_last()) + part_results(h.last().parts)
    }
}

/// Whether every id of `a` is in `b`.
pub open spec fn all_in(a: Seq<Seq<char>>, b: Seq<Seq<char>>) -> bool {
    forall|i: int| 0 <= i < a.len() ==> b.contains(#[trigger] a[i])
}

/// Whether a message is no tool message with a result that nothing asked for.
pub open spec fn asked_for(m: MsgV, calls: Seq<Seq<char>>) -> bool {
    m.role != "tool"@ || all_in(part_results(m.parts), calls)
}

/// The messages that were asked for.
pub open spec fn retained(h: Seq<MsgV>, calls: Seq<Seq<char>>) -> Seq<MsgV>
    decreases h.len(),
{
    if h.len() == 0 {
        Seq::empty()
    } else if asked_for(h.last(), calls) {
        retained(h.drop_last(), calls).push(h.last())
    } else {
        retained(h.drop_last(), calls)
    }
}

/// The id and name of each call among `parts` that has no result.
pub open spec fn missing(parts: Seq<PartV>, results: Seq<Seq<char>>) -> Seq<(Seq<char>, Seq<char>)>
    decreases parts.len(),
{
    if parts.len() == 0 {
        Seq::empty()
    } else {
        let p = missing(parts.drop_last(), results);
        match parts.last() {
            PartV::ToolCall(tc) => if results.contains(tc.id) {
                p
            } else {
                p.push((tc.id, tc.name))
            },
            _ => p,
        }
    }
}

/// A placeholder for each call that has no result.
pub open spec fn placeholders(m: Seq<(Seq<char>, Seq<char>)>) -> Seq<MsgV> {
    Seq::new(m.len(), |i: int| result_msg(m[i].0, m[i].1, INTERRUPTED_TOOL_RESULT@))
}

/// How many tool messages `h` has from index `i` on, without a gap.
pub open spec fn tool_run(h: Seq<MsgV>, i: int) -> nat
    decreases h.len() - i,
{
    if 0 <= i < h.len() && h[i].role == "tool"@ {
        1 + tool_run(h, i + 1)
    } else {
        0
    }
}

/// `h` with placeholders for what is missing, behind the results that a message did get.
pub open spec fn filled(h: Seq<MsgV>, results: Seq<Seq<char>>) -> Seq<MsgV>
    decreases h.len(),
    via filled_decreases
{
    if h.len() == 0 {
        Seq::empty()
    } else {
        let gaps = missing(h[0].parts, results);
        if gaps.len() == 0 {
            seq![h[0]] + filled(h.skip(1), results)
        } else {
            let n = 1 + tool_run(h, 1);
            h.take(n as int) + placeholders(gaps) + filled(h.skip(n as int), results)
        }
    }
}

#[via_fn]
proof fn filled_decreases(h: Seq<MsgV>, results: Seq<Seq<char>>) {
    if h.len() > 0 {
        tool_run_bound(h, 1);
    }
}

/// The history after orphaned results have left it.
pub open spec fn without_orphans(h: Seq<MsgV>) -> Seq<MsgV> {
    retained(h, called(h))
}

/// The history after its repair.
pub open spec fn repaired(h: Seq<MsgV>) -> Seq<MsgV> {
    filled(without_orphans(h), answered(without_orphans(h)))
}

/// How many messages the repair removes or inserts.
pub open spec fn repairs(h: Seq<MsgV>) -> int {
    (h.len() - without_orphans(h).len()) + (repaired(h).len() - without_orphans(h).len())
}

pub open spec fn at_most_max(n: int) -> int {
    if n <= usize::MAX {
        n
    } else {
        usize::MAX as int
    }
}

// ---- bookkeeping --------------------------------------------------------------------------

proof fn retained_len(h: Seq<MsgV>, calls: Seq<Seq<char>>)
    ensures
        retained(h, calls).len() <= h.len(),
    decreases h.len(),
{
    if h.len() > 0 {
        retained_len(h.drop_last(), calls);
    }
}

proof fn tool_run_bound(h: Seq<MsgV>, i: int)
    requires
        0 <= i <= h.len(),
    ensures
        i + tool_run(h, i) <= h.len(),
        forall|k: int| i <= k < i + tool_run(h, i) ==> (#[trigger] h[k]).role == "tool"@,
        i + tool_run(h, i) < h.len() ==> h[i + tool_run(h, i)].role != "tool"@,
    decreases h.len() - i,
{
    if i < h.len() && h[i].role == "tool"@ {
        tool_run_bound(h, i + 1);
    }
}

proof fn filled_len(h: Seq<MsgV>, results: Seq<Seq<char>>)
    ensures
        filled(h, results).len() >= h.len(),
    decreases h.len(),
{
    if h.len() > 0 {
        let gaps = missing(h[0].parts, results);
        if gaps.len() == 0 {
            filled_len(h.skip(1), results);
        } else {
            tool_run_bound(h, 1);
            filled_len(h.skip(1 + tool_run(h, 1) as int), results);
        }
    }
}

fn collect_calls(hist: &Vec<Msg>) -> (r: Vec<String>)
    ensures
        texts(r@) == called(msgs(hist@)),
{
    let ghost h = msgs(hist@);
    let mut out: Vec<String> = Vec::new();
    let mut i: usize = 0;
    assert(texts(out@) =~= called(h.take(0)));
    while i < hist.len()
        invariant
            i <= hist.len(),
            h == msgs(hist@),
            texts(out@) == called(h.take(i as int)),
        decreases hist.len() - i,
    {
        let parts = &hist[i].parts;
        let ghost p = parts_view(parts@);
        let ghost before = texts(out@);
        let mut j: usize = 0;
        assert(before + part_calls(p.take(0)) =~= before);
        while j < parts.len()
            invariant
                j <= parts.len(),
                p == parts_view(parts@),
                texts(out@) == before + part_calls(p.take(j as int)),
            decreases parts.len() - j,
        {
            assert(p.take(j + 1).drop_last() =~= p.take(j as int));
            match &parts[j] {
                Part::ToolCall(tc) => {
                    let ghost o = texts(out@);
                    out.push(tc.id.clone());
                    assert(texts(out@) =~= o.push(tc.id@));
                    assert(o.push(tc.id@) =~= before + part_calls(p.take(j + 1)));
                },
                _ => {},
            }
            j += 1;
        }
        assert(p.take(p.len() as int) =~= p);
        assert(h.take(i + 1).drop_last() =~= h.take(i as int));
        assert(h.take(i + 1).last() == hist@[i as int]@);
        i += 1;
    }
    assert(h.take(h.len() as int) =~= h);
    out
}

fn collect_results(hist: &Vec<Msg>) -> (r: Vec<String>)
    ensures
        texts(r@) == answered(msgs(hist@)),
{
    let ghost h = msgs(hist@);
    let mut out: Vec<String> = Vec::new();
    let mut i: usize = 0;
    assert(texts(out@) =~= answered(h.take(0)));
    while i < hist.len()
        invariant
            i <= hist.len(),
            h == msgs(hist@),
            texts(out@) == answered(h.take(i as int)),
        decreases hist.len() - i,
    {
        let parts = &hist[i].parts;
        let ghost p = parts_view(parts@);
        let ghost before = texts(out@);
        let mut j: usize = 0;
        assert(before + part_results(p.take(0)) =~= before);
        while j < parts.len()
            invariant
                j <= parts.len(),
                p == parts_view(parts@),
                texts(out@) == before + part_results(p.take(j as int)),
            decreases parts.len() - j,
        {
            assert(p.take(j + 1).drop_last() =~= p.take(j as int));
            match &parts[j] {
                Part::ToolResult { id, name: _, content: _ } => {
                    let ghost o = texts(out@);
                    out.push(id.clone());
                    assert(texts(out@) =~= o.push(id@));
                    assert(o.push(id@) =~= before + part_results(p.take(j + 1)));
                },
                _ => {},
            }
            j += 1;
        }
        assert(p.take(p.len() as int) =~= p);
        assert(h.take(i + 1).drop_last() =~= h.take(i as int));
        assert(h.take(i + 1).last() == hist@[i as int]@);
        i += 1;
    }
    assert(h.take(h.len() as int) =~= h);
    out
}

fn was_asked_for(m: &Msg, calls: &Vec<String>) -> (r: bool)
    ensures
        r == asked_for(m@, texts(calls@)),
{
    if !same(m.role.as_str(), "tool") {
        return true;
    }
    let ghost p = m@.parts;
    let mut j: usize = 0;
    while j < m.parts.len()
        invariant
            j <= m.parts.len(),
            p == m@.parts,
            m@.role == "tool"@,
            all_in(part_results(p.take(j as int)), texts(calls@)),
        decreases m.parts.len() - j,
    {
        assert(p.take(j + 1).drop_last() =~= p.take(j as int));
        match &m.parts[j] {
            Part::ToolResult { id, name: _, content: _ } => {
                if !one_of(id.as_str(), calls) {
                    proof {
                        let w = part_results(p.take(j + 1));
                        assert(w.last() == id@);
                        results_of_prefix(p, j + 1);
                        assert(part_results(p)[w.len() - 1] == id@);
                    }
                    return false;
                }
            },
            _ => {},
        }
        j += 1;
    }
    assert(p.take(p.len() as int) =~= p);
    true
}

proof fn results_of_prefix(parts: Seq<PartV>, n: int)
    requires
        0 <= n <= parts.len(),
    ensures
        part_results(parts.take(n)).len() <= part_results(parts).len(),
        forall|i: int|
            0 <= i < part_results(parts.take(n)).len() ==> part_results(parts)[i]
                == #[trigger] part_results(parts.take(n))[i],
    decreases parts.len() - n,
{
    if n < parts.len() {
        results_of_prefix(parts, n + 1);
        assert(parts.take(n + 1).drop_last() =~= parts.take(n));
        assert forall|i: int| 0 <= i < part_results(parts.take(n)).len() implies part_results(
            parts,
        )[i] == #[trigger] part_results(parts.take(n))[i] by {
            assert(part_results(parts.take(n + 1))[i] == part_results(parts.take(n))[i]);
        }
    } else {
        assert(parts.take(n) =~= parts);
    }
}

spec fn pair_views(v: Seq<(String, String)>) -> Seq<(Seq<char>, Seq<char>)> {
    Seq::new(v.len(), |i: int| (v[i].0@, v[i].1@))
}

fn find_missing(m: &Msg, results: &Vec<String>) -> (r: Vec<(String, String)>)
    ensures
        pair_views(r@) == missing(m@.parts, texts(results@)),
{
    let ghost p = m@.parts;
    let mut out: Vec<(String, String)> = Vec::new();
    let mut j: usize = 0;
    assert(pair_views(out@) =~= missing(p.take(0), texts(results@)));
    while j < m.parts.len()
        invariant
            j <= m.parts.len(),
            p == m@.parts,
            pair_views(out@) == missing(p.take(j as int), texts(results@)),
        decreases m.parts.len() - j,
    {
        assert(p.take(j + 1).drop_last() =~= p.take(j as int));
        match &m.parts[j] {
            Part::ToolCall(tc) => {
                if !one_of(tc.id.as_str(), results) {
                    let ghost o = pair_views(out@);
                    out.push((tc.id.clone(), tc.name.clone()));
                    assert(pair_views(out@) =~= o.push((tc.id@, tc.name@)));
                }
            },
            _ => {},
        }
        j += 1;
    }
    assert(p.take(p.len() as int) =~= p);
    out
}

fn drop_orphans(hist: &mut Vec<Msg>, calls: &Vec<String>)
    ensures
        msgs(final(hist)@) == retained(msgs(old(hist)@), texts(calls@)),
{
    let ghost h = msgs(hist@);
    let ghost c = texts(calls@);
    let ghost mut gone: int = 0;
    let mut i: usize = 0;
    assert(msgs(hist@.take(0)) =~= retained(h.take(0), c));
    while i < hist.len()
        invariant
            i <= hist.len(),
            c == texts(calls@),
            0 <= gone,
            hist@.len() + gone == h.len(),
            msgs(hist@.take(i as int)) == retained(h.take(i + gone), c),
            forall|k: int| i <= k < hist@.len() ==> (#[trigger] hist@[k])@ == h[k + gone],
        decreases hist.len() - i,
    {
        assert(h.take(i + gone + 1).drop_last() =~= h.take(i + gone));
        assert(h.take(i + gone + 1).last() == hist@[i as int]@);
        let ghost before = hist@;
        if was_asked_for(&hist[i], calls) {
            assert(msgs(hist@.take(i + 1)) =~= msgs(hist@.take(i as int)).push(hist@[i as int]@));
            i += 1;
        } else {
            let _ = hist.remove(i);
            proof {
                gone = gone + 1;
            }
            assert(hist@.take(i as int) =~= before.take(i as int));
            assert forall|k: int| i <= k < hist@.len() implies (#[trigger] hist@[k])@ == h[k
                + gone] by {
                assert(hist@[k] == before[k + 1]);
            }
        }
    }
    assert(h.take(h.len() as int) =~= h);
    assert(hist@.take(i as int) =~= hist@);
}

/// Repairs a history that providers would reject: drops each tool message with a result that
/// no call asked for, and puts a placeholder behind each message with calls that have no
/// result, after the results that it did get.
///
/// Returns the number of messages inserted or removed, or the largest `usize` where there
/// are more.
pub fn repair_tool_calls(hist: &mut Vec<Msg>) -> (r: usize)
    ensures
        msgs(final(hist)@) == repaired(msgs(old(hist)@)),
        r == at_most_max(repairs(msgs(old(hist)@))),
{
    let ghost h0 = msgs(hist@);
    let calls = collect_calls(hist);
    let before: usize = hist.len();
    drop_orphans(hist, &calls);
    proof {
        retained_len(h0, called(h0));
    }
    let mut fixed: usize = before - hist.len();
    let ghost h1 = msgs(hist@);
    let results = collect_results(hist);
    let ghost a = texts(results@);
    let ghost goal = filled(h1, a);
    let mut i: usize = 0;
    assert(msgs(hist@).take(0) + filled(msgs(hist@).skip(0), a) =~= filled(h1, a)) by {
        assert(msgs(hist@).skip(0) =~= h1);
    }
    proof {
        filled_len(h1, a);
    }
    while i < hist.len()
        invariant
            i <= hist.len(),
            a == texts(results@),
            goal == filled(h1, a),
            msgs(hist@).take(i as int) + filled(msgs(hist@).skip(i as int), a) == goal,
            hist@.len() >= h1.len(),
            fixed == at_most_max(before - h1.len() + (hist@.len() - h1.len())),
            before >= h1.len(),
        decreases goal.len() - i,
    {
        let ghost cur = msgs(hist@);
        let ghost tail = cur.skip(i as int);
        proof {
            filled_len(tail, a);
        }
        assert(tail[0] == hist@[i as int]@);
        let gaps = find_missing(&hist[i], &results);
        let ghost g = pair_views(gaps@);
        if gaps.len() == 0 {
            assert(tail.skip(1) =~= cur.skip(i + 1));
            assert(cur.take(i as int) + (seq![tail[0]] + filled(tail.skip(1), a)) =~= cur.take(
                i + 1,
            ) + filled(cur.skip(i + 1), a));
            i += 1;
        } else {
            let mut at: usize = i + 1;
            assert(tail.len() >= 1);
            while at < hist.len() && same(hist[at].role.as_str(), "tool")
                invariant
                    i < at <= hist.len(),
                    cur == msgs(hist@),
                    tail == cur.skip(i as int),
                    (at - i) + tool_run(tail, at - i) == 1 + tool_run(tail, 1),
                decreases hist.len() - at,
            {
                assert(tail[at - i] == hist@[at as int]@);
                at += 1;
            }
            proof {
                if at < hist.len() {
                    assert(tail[at - i] == hist@[at as int]@);
                }
                assert(tool_run(tail, at - i) == 0);
            }
            let ghost n = 1 + tool_run(tail, 1);
            assert(at == i + n);
            let ghost rest = filled(tail.skip(n as int), a);
            assert(tail.skip(n as int) =~= cur.skip(at as int));
            proof {
                filled_len(tail.skip(n as int), a);
            }
            assert(filled(tail, a) == tail.take(n as int) + placeholders(g) + rest);
            assert(goal.len() == i + n + g.len() + rest.len());
            let mut k: usize = 0;
            while k < gaps.len()
                invariant
                    k <= gaps.len(),
                    g == pair_views(gaps@),
                    at + k <= hist.len(),
                    hist@.len() == cur.len() + k,
                    at <= cur.len(),
                    cur.len() + g.len() <= goal.len(),
                    fixed == at_most_max(before - h1.len() + (hist@.len() - h1.len())),
                    before >= h1.len(),
                    cur.len() >= h1.len(),
                    msgs(hist@) == cur.take(at as int) + placeholders(g).take(k as int) + cur.skip(
                        at as int,
                    ),
                decreases gaps.len() - k,
            {
                let m = Msg::tool_result(
                    gaps[k].0.as_str(),
                    gaps[k].1.as_str(),
                    INTERRUPTED_TOOL_RESULT.to_string(),
                );
                assert(m@ == placeholders(g)[k as int]);
                let ghost prev = hist@;
                hist.insert(at + k, m);
                assert(msgs(hist@) =~= msgs(prev).insert(at + k, m@));
                assert(msgs(hist@) =~= cur.take(at as int) + placeholders(g).take(k + 1)
                    + cur.skip(at as int));
                if fixed < usize::MAX {
                    fixed += 1;
                }
                k += 1;
            }
            assert(placeholders(g).take(g.len() as int) =~= placeholders(g));
            assert(cur.take(i as int) + tail.take(n as int) =~= cur.take(at as int));
            let ghost now = msgs(hist@);
            assert(at + gaps.len() <= hist.len());
            i = at + gaps.len();
            assert(now.take(i as int) =~= cur.take(at as int) + placeholders(g));
            assert(now.skip(i as int) =~= cur.skip(at as int));
            assert(now.take(i as int) + filled(now.skip(i as int), a) =~= goal);
        }
    }
    assert(msgs(hist@).take(i as int) =~= msgs(hist@));
    assert(msgs(hist@).skip(i as int).len() == 0);
    assert(msgs(hist@) =~= goal);
    fixed
}

// ---- what a repair achieves ---------------------------------------------------------------

/// Whether a provider accepts a history: every call is answered, and every tool message
/// answers calls of the history.
pub open spec fn healthy(h: Seq<MsgV>) -> bool {
    &&& all_in(called(h), answered(h))
    &&& forall|i: int| 0 <= i < h.len() ==> asked_for(#[trigger] h[i], called(h))
}

/// Whether the calls of a history stand outside its tool messages.
pub open spec fn tools_only_answer(h: Seq<MsgV>) -> bool {
    forall|i: int|
        0 <= i < h.len() && (#[trigger] h[i]).role == "tool"@ ==> part_calls(h[i].parts).len() == 0
}

spec fn has_call(h: Seq<MsgV>, id: Seq<char>) -> bool {
    exists|i: int| 0 <= i < h.len() && part_calls((#[trigger] h[i]).parts).contains(id)
}

spec fn has_result(h: Seq<MsgV>, id: Seq<char>) -> bool {
    exists|i: int| 0 <= i < h.len() && part_results((#[trigger] h[i]).parts).contains(id)
}

proof fn contains_concat(a: Seq<Seq<char>>, b: Seq<Seq<char>>, id: Seq<char>)
    ensures
        (a + b).contains(id) <==> a.contains(id) || b.contains(id),
{
    if a.contains(id) {
        let i = choose|i: int| 0 <= i < a.len() && a[i] == id;
        assert((a + b)[i] == id);
    }
    if b.contains(id) {
        let i = choose|i: int| 0 <= i < b.len() && b[i] == id;
        assert((a + b)[a.len() + i] == id);
    }
}

proof fn called_means(h: Seq<MsgV>, id: Seq<char>)
    ensures
        called(h).contains(id) <==> has_call(h, id),
        answered(h).contains(id) <==> has_result(h, id),
    decreases h.len(),
{
    if h.len() > 0 {
        let d = h.drop_last();
        called_means(d, id);
        contains_concat(called(d), part_calls(h.last().parts), id);
        contains_concat(answered(d), part_results(h.last().parts), id);
        if has_call(d, id) {
            let i = choose|i: int| 0 <= i < d.len() && part_calls((#[trigger] d[i]).parts).contains(id);
            assert(h[i] == d[i]);
        }
        if has_result(d, id) {
            let i = choose|i: int|
                0 <= i < d.len() && part_results((#[trigger] d[i]).parts).contains(id);
            assert(h[i] == d[i]);
        }
        if has_call(h, id) {
            let i = choose|i: int| 0 <= i < h.len() && part_calls((#[trigger] h[i]).parts).contains(id);
            if i < d.len() {
                assert(d[i] == h[i]);
            }
        }
        if has_result(h, id) {
            let i = choose|i: int|
                0 <= i < h.len() && part_results((#[trigger] h[i]).parts).contains(id);
            if i < d.len() {
                assert(d[i] == h[i]);
            }
        }
        assert(h[h.len() - 1] == h.last());
    }
}

proof fn has_concat(a: Seq<MsgV>, b: Seq<MsgV>, id: Seq<char>)
    ensures
        has_call(a + b, id) <==> has_call(a, id) || has_call(b, id),
        has_result(a + b, id) <==> has_result(a, id) || has_result(b, id),
{
    let s = a + b;
    assert forall|i: int| 0 <= i < a.len() implies #[trigger] a[i] == s[i] by {}
    assert forall|i: int| 0 <= i < b.len() implies #[trigger] b[i] == s[a.len() + i] by {}
    if has_call(s, id) {
        let i = choose|i: int| 0 <= i < s.len() && part_calls((#[trigger] s[i]).parts).contains(id);
        if i < a.len() {
            assert(a[i] == s[i]);
        } else {
            assert(b[i - a.len()] == s[i]);
        }
    }
    if has_result(s, id) {
        let i = choose|i: int| 0 <= i < s.len() && part_results((#[trigger] s[i]).parts).contains(id);
        if i < a.len() {
            assert(a[i] == s[i]);
        } else {
            assert(b[i - a.len()] == s[i]);
        }
    }
}

proof fn retained_facts(h: Seq<MsgV>, calls: Seq<Seq<char>>, id: Seq<char>)
    requires
        tools_only_answer(h),
    ensures
        has_call(retained(h, calls), id) <==> has_call(h, id),
        tools_only_answer(retained(h, calls)),
        forall|i: int|
            0 <= i < retained(h, calls).len() ==> asked_for(
                #[trigger] retained(h, calls)[i],
                calls,
            ),
    decreases h.len(),
{
    if h.len() > 0 {
        let d = h.drop_last();
        assert(tools_only_answer(d)) by {
            assert forall|i: int| 0 <= i < d.len() && (#[trigger] d[i]).role == "tool"@ implies part_calls(
                d[i].parts,
            ).len() == 0 by {
                assert(h[i] == d[i]);
            }
        }
        retained_facts(d, calls, id);
        let one = seq![h.last()];
        assert(h =~= d + one);
        has_concat(d, one, id);
        assert(h[h.len() - 1] == h.last());
        if asked_for(h.last(), calls) {
            assert(retained(h, calls) =~= retained(d, calls) + one);
            has_concat(retained(d, calls), one, id);
        } else {
            assert(part_calls(h.last().parts).len() == 0);
            if has_call(one, id) {
                assert(part_calls(one[0].parts).contains(id));
            }
        }
    }
}

proof fn missing_means(parts: Seq<PartV>, results: Seq<Seq<char>>, id: Seq<char>)
    ensures
        (exists|k: int| 0 <= k < missing(parts, results).len() && (#[trigger] missing(parts, results)[k]).0 == id)
            <==> part_calls(parts).contains(id) && !results.contains(id),
    decreases parts.len(),
{
    if parts.len() > 0 {
        let d = parts.drop_last();
        missing_means(d, results, id);
        let m = missing(parts, results);
        let md = missing(d, results);
        match parts.last() {
            PartV::ToolCall(tc) => {
                let c = part_calls(d);
                contains_concat(c, seq![tc.id], id);
                assert(part_calls(parts) =~= c + seq![tc.id]);
                if tc.id == id {
                    assert(seq![tc.id][0] == id);
                }
                if exists|k: int| 0 <= k < md.len() && (#[trigger] md[k]).0 == id {
                    let k = choose|k: int| 0 <= k < md.len() && (#[trigger] md[k]).0 == id;
                    assert(m[k].0 == id);
                }
                if exists|k: int| 0 <= k < m.len() && (#[trigger] m[k]).0 == id {
                    let k = choose|k: int| 0 <= k < m.len() && (#[trigger] m[k]).0 == id;
                    if k < md.len() {
                        assert(md[k].0 == id);
                    } else {
                        assert(tc.id == id);
                    }
                }
                if !results.contains(tc.id) && tc.id == id {
                    assert(m[m.len() - 1].0 == id);
                }
            },
            _ => {},
        }
    }
}

proof fn one_result(id: Seq<char>, name: Seq<char>, content: Seq<char>)
    ensures
        part_results(result_msg(id, name, content).parts) == seq![id],
        part_calls(result_msg(id, name, content).parts).len() == 0,
{
    let p = result_msg(id, name, content).parts;
    assert(p.drop_last() =~= Seq::empty());
    assert(part_results(p.drop_last()) =~= Seq::empty());
    assert(part_results(p) =~= seq![id]);
    assert(part_calls(p.drop_last()) =~= Seq::empty());
}

proof fn placeholder_facts(gaps: Seq<(Seq<char>, Seq<char>)>, id: Seq<char>)
    ensures
        !has_call(placeholders(gaps), id),
        has_result(placeholders(gaps), id) <==> exists|k: int|
            0 <= k < gaps.len() && (#[trigger] gaps[k]).0 == id,
{
    let p = placeholders(gaps);
    if has_call(p, id) {
        let i = choose|i: int| 0 <= i < p.len() && part_calls((#[trigger] p[i]).parts).contains(id);
        one_result(gaps[i].0, gaps[i].1, INTERRUPTED_TOOL_RESULT@);
    }
    if has_result(p, id) {
        let i = choose|i: int| 0 <= i < p.len() && part_results((#[trigger] p[i]).parts).contains(id);
        one_result(gaps[i].0, gaps[i].1, INTERRUPTED_TOOL_RESULT@);
        assert(gaps[i].0 == id);
    }
    if exists|k: int| 0 <= k < gaps.len() && (#[trigger] gaps[k]).0 == id {
        let k = choose|k: int| 0 <= k < gaps.len() && (#[trigger] gaps[k]).0 == id;
        one_result(gaps[k].0, gaps[k].1, INTERRUPTED_TOOL_RESULT@);
        assert(part_results(p[k].parts)[0] == id);
        assert(part_results(p[k].parts).contains(id));
    }
}

proof fn filled_facts(h: Seq<MsgV>, results: Seq<Seq<char>>, id: Seq<char>)
    requires
        tools_only_answer(h),
    ensures
        has_call(filled(h, results), id) <==> has_call(h, id),
        has_result(h, id) ==> has_result(filled(h, results), id),
        has_call(h, id) && !results.contains(id) ==> has_result(filled(h, results), id),
    decreases h.len(),
{
    if h.len() > 0 {
        let gaps = missing(h[0].parts, results);
        tool_run_bound(h, 1);
        let n: int = if gaps.len() == 0 {
            1
        } else {
            1 + tool_run(h, 1) as int
        };
        let head = h.take(n);
        let tail = h.skip(n);
        assert(h =~= head + tail);
        assert forall|i: int| 0 <= i < tail.len() && (#[trigger] tail[i]).role == "tool"@ implies part_calls(
            tail[i].parts,
        ).len() == 0 by {
            assert(h[n + i] == tail[i]);
        }
        filled_facts(tail, results, id);
        has_concat(head, tail, id);
        missing_means(h[0].parts, results, id);
        if has_call(head, id) {
            let i = choose|i: int| 0 <= i < head.len() && part_calls((#[trigger] head[i]).parts).contains(id);
            assert(h[i] == head[i]);
            if i > 0 {
                assert(h[i].role == "tool"@);
            }
            assert(i == 0);
        }
        if gaps.len() == 0 {
            assert(filled(h, results) =~= head + filled(tail, results));
            has_concat(head, filled(tail, results), id);
        } else {
            placeholder_facts(gaps, id);
            has_concat(head + placeholders(gaps), filled(tail, results), id);
            has_concat(head, placeholders(gaps), id);
        }
    }
}

proof fn filled_asked_for(h: Seq<MsgV>, results: Seq<Seq<char>>, calls: Seq<Seq<char>>)
    requires
        forall|i: int| 0 <= i < h.len() ==> asked_for(#[trigger] h[i], calls),
        forall|id: Seq<char>| has_call(h, id) ==> #[trigger] calls.contains(id),
    ensures
        forall|i: int|
            0 <= i < filled(h, results).len() ==> asked_for(#[trigger] filled(h, results)[i], calls),
    decreases h.len(),
{
    if h.len() > 0 {
        let gaps = missing(h[0].parts, results);
        tool_run_bound(h, 1);
        let n: int = if gaps.len() == 0 {
            1
        } else {
            1 + tool_run(h, 1) as int
        };
        let head = h.take(n);
        let tail = h.skip(n);
        assert(h =~= head + tail);
        assert forall|i: int| 0 <= i < tail.len() implies asked_for(#[trigger] tail[i], calls) by {
            assert(h[n + i] == tail[i]);
        }
        assert forall|id: Seq<char>| has_call(tail, id) implies #[trigger] calls.contains(id) by {
            has_concat(head, tail, id);
        }
        filled_asked_for(tail, results, calls);
        let f = filled(h, results);
        let p = placeholders(gaps);
        assert forall|i: int| 0 <= i < f.len() implies asked_for(#[trigger] f[i], calls) by {
            if gaps.len() == 0 {
                if i == 0 {
                    assert(f[i] == h[0]);
                } else {
                    assert(f[i] == filled(tail, results)[i - 1]);
                }
            } else if i < n {
                assert(f[i] == h[i]);
            } else if i < n + p.len() {
                let k = i - n;
                assert(f[i] == p[k]);
                one_result(gaps[k].0, gaps[k].1, INTERRUPTED_TOOL_RESULT@);
                missing_means(h[0].parts, results, gaps[k].0);
                assert(part_calls(h[0].parts).contains(gaps[k].0));
                assert(has_call(h, gaps[k].0));
                assert(calls.contains(gaps[k].0));
            } else {
                assert(f[i] == filled(tail, results)[i - n - p.len()]);
            }
        }
    }
}

/// A history that a provider accepts is left alone.
pub proof fn healthy_history_is_unchanged(h: Seq<MsgV>)
    requires
        healthy(h),
    ensures
        repaired(h) == h,
        repairs(h) == 0,
{
    all_retained(h, called(h));
    nothing_missing(h, h, answered(h));
}

proof fn all_retained(h: Seq<MsgV>, calls: Seq<Seq<char>>)
    requires
        forall|i: int| 0 <= i < h.len() ==> asked_for(#[trigger] h[i], calls),
    ensures
        retained(h, calls) == h,
    decreases h.len(),
{
    if h.len() > 0 {
        let d = h.drop_last();
        assert forall|i: int| 0 <= i < d.len() implies asked_for(#[trigger] d[i], calls) by {
            assert(h[i] == d[i]);
        }
        all_retained(d, calls);
        assert(asked_for(h[h.len() - 1], calls));
        assert(d.push(h.last()) =~= h);
    }
}

proof fn nothing_missing(whole: Seq<MsgV>, h: Seq<MsgV>, results: Seq<Seq<char>>)
    requires
        all_in(called(whole), results),
        forall|id: Seq<char>| has_call(h, id) ==> #[trigger] has_call(whole, id),
    ensures
        filled(h, results) == h,
    decreases h.len(),
{
    if h.len() > 0 {
        let gaps = missing(h[0].parts, results);
        if gaps.len() > 0 {
            let id = gaps[0].0;
            missing_means(h[0].parts, results, id);
            assert(part_calls(h[0].parts).contains(id));
            assert(has_call(h, id));
            assert(has_call(whole, id));
            called_means(whole, id);
            let k = choose|k: int| 0 <= k < called(whole).len() && called(whole)[k] == id;
            assert(results.contains(called(whole)[k]));
            assert(false);
        }
        let head = h.take(1);
        let tail = h.skip(1);
        assert(h =~= head + tail);
        assert forall|id: Seq<char>| has_call(tail, id) implies #[trigger] has_call(whole, id) by {
            has_concat(head, tail, id);
        }
        nothing_missing(whole, tail, results);
        assert(seq![h[0]] + tail =~= h);
    }
}

/// After a repair every call has a result and every result has its call.
pub proof fn repaired_history_is_healthy(h: Seq<MsgV>)
    requires
        tools_only_answer(h),
    ensures
        healthy(repaired(h)),
{
    let c = called(h);
    let r = retained(h, c);
    let a = answered(r);
    let f = repaired(h);
    assert forall|id: Seq<char>| has_call(r, id) implies #[trigger] c.contains(id) by {
        retained_facts(h, c, id);
        called_means(h, id);
    }
    assert(forall|i: int| 0 <= i < r.len() ==> asked_for(#[trigger] r[i], c)) by {
        retained_facts(h, c, Seq::empty());
    }
    filled_asked_for(r, a, c);
    retained_facts(h, c, Seq::empty());
    assert forall|i: int| 0 <= i < called(f).len() implies answered(f).contains(
        #[trigger] called(f)[i],
    ) by {
        let id = called(f)[i];
        assert(called(f).contains(id));
        called_means(f, id);
        filled_facts(r, a, id);
        called_means(r, id);
    }
    assert forall|i: int| 0 <= i < f.len() implies asked_for(#[trigger] f[i], called(f)) by {
        if f[i].role == "tool"@ {
            let p = part_results(f[i].parts);
            assert forall|k: int| 0 <= k < p.len() implies called(f).contains(#[trigger] p[k]) by {
                assert(c.contains(p[k]));
                called_means(h, p[k]);
                retained_facts(h, c, p[k]);
                filled_facts(r, a, p[k]);
                called_means(f, p[k]);
            }
        }
    }
}

/// Repairing twice is repairing once.
pub proof fn repair_is_idempotent(h: Seq<MsgV>)
    requires
        tools_only_answer(h),
    ensures
        repaired(repaired(h)) == repaired(h),
        repairs(repaired(h)) == 0,
{
    repaired_history_is_healthy(h);
    healthy_history_is_unchanged(repaired(h));
}

// ---- what a repair leaves alone --------------------------------------------------------------------

/// A repair drops tool messages only: every other message stays.
pub proof fn what_was_said_stays(h: Seq<MsgV>, i: int)
    requires
        0 <= i < h.len(),
        h[i].role != "tool"@,
    ensures
        repaired(h).contains(h[i]),
{
    let w = without_orphans(h);
    retained_holds(h, called(h), i);
    let k = choose|k: int| 0 <= k < w.len() && w[k] == h[i];
    filled_holds(w, answered(w), k);
}

/// A result that a call asked for stays, with its content.
pub proof fn an_answer_stays(h: Seq<MsgV>, i: int, id: Seq<char>, name: Seq<char>, content: Seq<char>)
    requires
        0 <= i < h.len(),
        h[i].parts == seq![PartV::ToolResult { id, name, content }],
        exists|j: int, k: int|
            0 <= j < h.len() && 0 <= k < h[j].parts.len() && (#[trigger] h[j].parts[k] matches PartV::ToolCall(
                tc,
            ) && tc.id == id),
    ensures
        repaired(h).contains(h[i]),
{
    let (j, k) = choose|j: int, k: int|
        0 <= j < h.len() && 0 <= k < h[j].parts.len() && (#[trigger] h[j].parts[k] matches PartV::ToolCall(
            tc,
        ) && tc.id == id);
    a_call_counts(h[j].parts, k);
    assert(has_call(h, id));
    called_means(h, id);
    one_result(id, name, content);
    assert(h[i].parts =~= result_msg(id, name, content).parts);
    assert(asked_for(h[i], called(h)));
    let w = without_orphans(h);
    retained_holds(h, called(h), i);
    let n = choose|n: int| 0 <= n < w.len() && w[n] == h[i];
    filled_holds(w, answered(w), n);
}

/// A call that nothing answers is answered, under its id and its name, by a message that says that
/// the run was interrupted.
pub proof fn an_interrupted_call_is_answered(h: Seq<MsgV>, i: int, k: int)
    requires
        0 <= i < h.len(),
        h[i].role != "tool"@,
        0 <= k < h[i].parts.len(),
        h[i].parts[k] is ToolCall,
        forall|j: int, l: int|
            0 <= j < h.len() && 0 <= l < h[j].parts.len() ==> !((#[trigger] h[j].parts[l]) matches PartV::ToolResult {
                id,
                name,
                content,
            } && id == h[i].parts[k]->ToolCall_0.id),
    ensures
        ({
            let tc = h[i].parts[k]->ToolCall_0;
            exists|n: int|
                0 <= n < repaired(h).len() && (#[trigger] repaired(h)[n]).role == "tool"@
                    && repaired(h)[n].parts == seq![
                    PartV::ToolResult {
                        id: tc.id,
                        name: tc.name,
                        content: INTERRUPTED_TOOL_RESULT@,
                    },
                ]
        }),
{
    let tc = h[i].parts[k]->ToolCall_0;
    let w = without_orphans(h);
    let results = answered(w);
    retained_holds(h, called(h), i);
    let n = choose|n: int| 0 <= n < w.len() && w[n] == h[i];
    assert(!results.contains(tc.id)) by {
        called_means(w, tc.id);
        if has_result(w, tc.id) {
            let j = choose|j: int|
                0 <= j < w.len() && part_results((#[trigger] w[j]).parts).contains(tc.id);
            retained_was_there(h, called(h), j);
            let q = choose|q: int| 0 <= q < h.len() && h[q] == w[j];
            a_result_is_a_part(h[q].parts, tc.id);
            let l = choose|l: int|
                0 <= l < h[q].parts.len() && ((#[trigger] h[q].parts[l]) matches PartV::ToolResult {
                    id,
                    name,
                    content,
                } && id == tc.id);
            assert(!(h[q].parts[l] matches PartV::ToolResult { id, name, content } && id == tc.id));
        }
    }
    gap_of_call(h[i].parts, results, k);
    filled_answers(w, results, n, (tc.id, tc.name));
    let f = repaired(h);
    let m = result_msg(tc.id, tc.name, INTERRUPTED_TOOL_RESULT@);
    let at = choose|at: int| 0 <= at < f.len() && f[at] == m;
    assert(f[at].parts =~= seq![
        PartV::ToolResult { id: tc.id, name: tc.name, content: INTERRUPTED_TOOL_RESULT@ },
    ]);
}

/// A repair makes up nothing: what is in the history after it was there before, or answers a call
/// with the word that the run was interrupted.
pub proof fn a_repair_makes_up_nothing(h: Seq<MsgV>, n: int)
    requires
        0 <= n < repaired(h).len(),
    ensures
        h.contains(repaired(h)[n]) || (repaired(h)[n].role == "tool"@ && exists|id: Seq<char>, name: Seq<
            char,
        >|
            repaired(h)[n].parts == #[trigger] seq![
                PartV::ToolResult { id, name, content: INTERRUPTED_TOOL_RESULT@ },
            ]),
{
    let w = without_orphans(h);
    let m = repaired(h)[n];
    filled_adds_placeholders(w, answered(w), n);
    if w.contains(m) {
        let j = choose|j: int| 0 <= j < w.len() && w[j] == m;
        retained_was_there(h, called(h), j);
    } else {
        let (id, name) = choose|id: Seq<char>, name: Seq<char>|
            m == #[trigger] result_msg(id, name, INTERRUPTED_TOOL_RESULT@);
        assert(m.parts =~= seq![
            PartV::ToolResult { id, name, content: INTERRUPTED_TOOL_RESULT@ },
        ]);
    }
}

proof fn retained_holds(h: Seq<MsgV>, calls: Seq<Seq<char>>, i: int)
    requires
        0 <= i < h.len(),
        asked_for(h[i], calls),
    ensures
        retained(h, calls).contains(h[i]),
    decreases h.len(),
{
    let r = retained(h, calls);
    if i == h.len() - 1 {
        assert(r[r.len() - 1] == h[i]);
    } else {
        let d = h.drop_last();
        retained_holds(d, calls, i);
        let p = retained(d, calls);
        let k = choose|k: int| 0 <= k < p.len() && p[k] == d[i];
        assert(r[k] == h[i]);
    }
}

proof fn retained_was_there(h: Seq<MsgV>, calls: Seq<Seq<char>>, k: int)
    requires
        0 <= k < retained(h, calls).len(),
    ensures
        h.contains(retained(h, calls)[k]),
    decreases h.len(),
{
    if h.len() > 0 {
        let d = h.drop_last();
        let p = retained(d, calls);
        if k < p.len() {
            retained_was_there(d, calls, k);
            let i = choose|i: int| 0 <= i < d.len() && d[i] == p[k];
            assert(h[i] == retained(h, calls)[k]);
        } else {
            assert(h[h.len() - 1] == retained(h, calls)[k]);
        }
    }
}

proof fn filled_holds(h: Seq<MsgV>, results: Seq<Seq<char>>, i: int)
    requires
        0 <= i < h.len(),
    ensures
        filled(h, results).contains(h[i]),
    decreases h.len(),
{
    let f = filled(h, results);
    let gaps = missing(h[0].parts, results);
    let n = if gaps.len() == 0 {
        1
    } else {
        1 + tool_run(h, 1) as int
    };
    if gaps.len() > 0 {
        tool_run_bound(h, 1);
    }
    if i < n {
        assert(f[i] == h[i]);
    } else {
        let rest = h.skip(n);
        filled_holds(rest, results, i - n);
        let g = filled(rest, results);
        let k = choose|k: int| 0 <= k < g.len() && g[k] == rest[i - n];
        let off = n + if gaps.len() == 0 {
            0
        } else {
            gaps.len() as int
        };
        assert(f[off + k] == h[i]);
    }
}

proof fn filled_answers(
    h: Seq<MsgV>,
    results: Seq<Seq<char>>,
    i: int,
    gap: (Seq<char>, Seq<char>),
)
    requires
        0 <= i < h.len(),
        h[i].role != "tool"@,
        missing(h[i].parts, results).contains(gap),
    ensures
        filled(h, results).contains(result_msg(gap.0, gap.1, INTERRUPTED_TOOL_RESULT@)),
    decreases h.len(),
{
    let f = filled(h, results);
    let m = result_msg(gap.0, gap.1, INTERRUPTED_TOOL_RESULT@);
    let gaps = missing(h[0].parts, results);
    let n = if gaps.len() == 0 {
        1
    } else {
        1 + tool_run(h, 1) as int
    };
    if gaps.len() > 0 {
        tool_run_bound(h, 1);
    }
    if i == 0 {
        let k = choose|k: int| 0 <= k < gaps.len() && gaps[k] == gap;
        assert(placeholders(gaps)[k] == m);
        assert(f[n + k] == m);
    } else {
        if i < n {
            assert(h[i].role == "tool"@);
        }
        let rest = h.skip(n);
        filled_answers(rest, results, i - n, gap);
        let g = filled(rest, results);
        let k = choose|k: int| 0 <= k < g.len() && g[k] == m;
        let off = n + if gaps.len() == 0 {
            0
        } else {
            gaps.len() as int
        };
        assert(f[off + k] == m);
    }
}

proof fn filled_adds_placeholders(h: Seq<MsgV>, results: Seq<Seq<char>>, k: int)
    requires
        0 <= k < filled(h, results).len(),
    ensures
        h.contains(filled(h, results)[k]) || exists|id: Seq<char>, name: Seq<char>|
            filled(h, results)[k] == #[trigger] result_msg(id, name, INTERRUPTED_TOOL_RESULT@),
    decreases h.len(),
{
    if h.len() > 0 {
        let f = filled(h, results);
        let gaps = missing(h[0].parts, results);
        let n = if gaps.len() == 0 {
            1
        } else {
            1 + tool_run(h, 1) as int
        };
        if gaps.len() > 0 {
            tool_run_bound(h, 1);
        }
        let off = n + if gaps.len() == 0 {
            0
        } else {
            gaps.len() as int
        };
        if k < n {
            assert(f[k] == h[k]);
        } else if k < off {
            assert(f[k] == placeholders(gaps)[k - n]);
        } else {
            let rest = h.skip(n);
            assert(f[k] == filled(rest, results)[k - off]);
            filled_adds_placeholders(rest, results, k - off);
            if rest.contains(f[k]) {
                let j = choose|j: int| 0 <= j < rest.len() && rest[j] == f[k];
                assert(h[n + j] == f[k]);
            }
        }
    }
}

proof fn a_call_counts(parts: Seq<PartV>, k: int)
    requires
        0 <= k < parts.len(),
        parts[k] is ToolCall,
    ensures
        part_calls(parts).contains(parts[k]->ToolCall_0.id),
    decreases parts.len(),
{
    let r = part_calls(parts);
    if k == parts.len() - 1 {
        assert(r[r.len() - 1] == parts[k]->ToolCall_0.id);
    } else {
        let d = parts.drop_last();
        a_call_counts(d, k);
        let p = part_calls(d);
        let j = choose|j: int| 0 <= j < p.len() && p[j] == d[k]->ToolCall_0.id;
        assert(r[j] == p[j]);
    }
}

proof fn a_result_is_a_part(parts: Seq<PartV>, wanted: Seq<char>)
    requires
        part_results(parts).contains(wanted),
    ensures
        exists|l: int|
            0 <= l < parts.len() && ((#[trigger] parts[l]) matches PartV::ToolResult {
                id,
                name,
                content,
            } && id == wanted),
    decreases parts.len(),
{
    let r = part_results(parts);
    let k = choose|k: int| 0 <= k < r.len() && r[k] == wanted;
    let d = parts.drop_last();
    let p = part_results(d);
    if k < p.len() {
        assert(p[k] == wanted);
        a_result_is_a_part(d, wanted);
        let l = choose|l: int|
            0 <= l < d.len() && ((#[trigger] d[l]) matches PartV::ToolResult { id, name, content } && id
                == wanted);
        assert(parts[l] == d[l]);
    } else {
        assert(parts[parts.len() - 1] is ToolResult);
    }
}

proof fn gap_of_call(parts: Seq<PartV>, results: Seq<Seq<char>>, k: int)
    requires
        0 <= k < parts.len(),
        parts[k] is ToolCall,
        !results.contains(parts[k]->ToolCall_0.id),
    ensures
        missing(parts, results).contains(
            (parts[k]->ToolCall_0.id, parts[k]->ToolCall_0.name),
        ),
    decreases parts.len(),
{
    let r = missing(parts, results);
    let gap = (parts[k]->ToolCall_0.id, parts[k]->ToolCall_0.name);
    if k == parts.len() - 1 {
        assert(r[r.len() - 1] == gap);
    } else {
        let d = parts.drop_last();
        gap_of_call(d, results, k);
        let p = missing(d, results);
        let j = choose|j: int| 0 <= j < p.len() && p[j] == gap;
        assert(r[j] == gap);
    }
}

/// What was said keeps its order: but for tool messages, the history is the same before and after a
/// repair.
pub proof fn what_was_said_keeps_its_order(h: Seq<MsgV>)
    ensures
        repaired(h).filter(|m: MsgV| m.role != "tool"@) == h.filter(|m: MsgV| m.role != "tool"@),
{
    let w = without_orphans(h);
    retained_keeps_speech(h, called(h));
    filled_keeps_speech(w, answered(w));
}

proof fn retained_keeps_speech(h: Seq<MsgV>, calls: Seq<Seq<char>>)
    ensures
        retained(h, calls).filter(|m: MsgV| m.role != "tool"@) == h.filter(
            |m: MsgV| m.role != "tool"@,
        ),
    decreases h.len(),
{
    reveal(Seq::filter);
    let said = |m: MsgV| m.role != "tool"@;
    if h.len() > 0 {
        let d = h.drop_last();
        retained_keeps_speech(d, calls);
        if asked_for(h.last(), calls) {
            assert(retained(h, calls).drop_last() =~= retained(d, calls));
        }
    }
}

proof fn filled_keeps_speech(h: Seq<MsgV>, results: Seq<Seq<char>>)
    ensures
        filled(h, results).filter(|m: MsgV| m.role != "tool"@) == h.filter(
            |m: MsgV| m.role != "tool"@,
        ),
    decreases h.len(),
{
    let said = |m: MsgV| m.role != "tool"@;
    if h.len() > 0 {
        let gaps = missing(h[0].parts, results);
        if gaps.len() == 0 {
            let rest = h.skip(1);
            filled_keeps_speech(rest, results);
            Seq::filter_distributes_over_add(seq![h[0]], filled(rest, results), said);
            Seq::filter_distributes_over_add(seq![h[0]], rest, said);
            assert(seq![h[0]] + rest =~= h);
        } else {
            tool_run_bound(h, 1);
            let n = 1 + tool_run(h, 1) as int;
            let rest = h.skip(n);
            let head = h.take(n);
            let p = placeholders(gaps);
            filled_keeps_speech(rest, results);
            Seq::filter_distributes_over_add(head + p, filled(rest, results), said);
            Seq::filter_distributes_over_add(head, p, said);
            Seq::filter_distributes_over_add(head, rest, said);
            placeholders_say_nothing(p);
            assert(head + rest =~= h);
            assert(head.filter(said) + Seq::<MsgV>::empty() =~= head.filter(said));
        }
    } else {
        reveal(Seq::filter);
        assert(filled(h, results) =~= Seq::empty());
    }
}

proof fn placeholders_say_nothing(p: Seq<MsgV>)
    requires
        forall|i: int| 0 <= i < p.len() ==> (#[trigger] p[i]).role == "tool"@,
    ensures
        p.filter(|m: MsgV| m.role != "tool"@) == Seq::<MsgV>::empty(),
    decreases p.len(),
{
    reveal(Seq::filter);
    if p.len() > 0 {
        assert forall|i: int| 0 <= i < p.drop_last().len() implies (#[trigger] p.drop_last()[i]).role
            == "tool"@ by {
            assert(p.drop_last()[i] == p[i]);
        }
        placeholders_say_nothing(p.drop_last());
    }
}

/// The answer to an interrupted call stands with it: behind the message that made the call, with
/// nothing but results between them.
pub proof fn an_interrupted_call_is_answered_in_place(h: Seq<MsgV>, i: int, k: int)
    requires
        0 <= i < h.len(),
        h[i].role != "tool"@,
        0 <= k < h[i].parts.len(),
        h[i].parts[k] is ToolCall,
        forall|j: int, l: int|
            0 <= j < h.len() && 0 <= l < h[j].parts.len() ==> !((#[trigger] h[j].parts[l]) matches PartV::ToolResult {
                id,
                name,
                content,
            } && id == h[i].parts[k]->ToolCall_0.id),
    ensures
        ({
            let tc = h[i].parts[k]->ToolCall_0;
            let r = repaired(h);
            exists|n: int, m: int|
                0 <= n < m < r.len() && (#[trigger] r[n]) == h[i] && (#[trigger] r[m]).parts == seq![
                    PartV::ToolResult {
                        id: tc.id,
                        name: tc.name,
                        content: INTERRUPTED_TOOL_RESULT@,
                    },
                ] && forall|q: int| n < q <= m ==> (#[trigger] r[q]).role == "tool"@
        }),
{
    let tc = h[i].parts[k]->ToolCall_0;
    let w = without_orphans(h);
    let results = answered(w);
    retained_holds(h, called(h), i);
    let at = choose|at: int| 0 <= at < w.len() && w[at] == h[i];
    nothing_answers(h, tc.id);
    gap_of_call(h[i].parts, results, k);
    let (n, m) = filled_in_place(w, results, at, (tc.id, tc.name));
    let r = repaired(h);
    assert(r[n] == h[i]);
    assert(r[m].parts =~= seq![
        PartV::ToolResult { id: tc.id, name: tc.name, content: INTERRUPTED_TOOL_RESULT@ },
    ]);
}

proof fn nothing_answers(h: Seq<MsgV>, wanted: Seq<char>)
    requires
        forall|j: int, l: int|
            0 <= j < h.len() && 0 <= l < h[j].parts.len() ==> !((#[trigger] h[j].parts[l]) matches PartV::ToolResult {
                id,
                name,
                content,
            } && id == wanted),
    ensures
        !answered(without_orphans(h)).contains(wanted),
{
    let w = without_orphans(h);
    called_means(w, wanted);
    if has_result(w, wanted) {
        let j = choose|j: int|
            0 <= j < w.len() && part_results((#[trigger] w[j]).parts).contains(wanted);
        retained_was_there(h, called(h), j);
        let q = choose|q: int| 0 <= q < h.len() && h[q] == w[j];
        a_result_is_a_part(h[q].parts, wanted);
        let l = choose|l: int|
            0 <= l < h[q].parts.len() && ((#[trigger] h[q].parts[l]) matches PartV::ToolResult {
                id,
                name,
                content,
            } && id == wanted);
        assert(!(h[q].parts[l] matches PartV::ToolResult { id, name, content } && id == wanted));
    }
}

proof fn filled_in_place(
    h: Seq<MsgV>,
    results: Seq<Seq<char>>,
    i: int,
    gap: (Seq<char>, Seq<char>),
) -> (r: (int, int))
    requires
        0 <= i < h.len(),
        h[i].role != "tool"@,
        missing(h[i].parts, results).contains(gap),
    ensures
        0 <= r.0 < r.1 < filled(h, results).len(),
        filled(h, results)[r.0] == h[i],
        filled(h, results)[r.1] == result_msg(gap.0, gap.1, INTERRUPTED_TOOL_RESULT@),
        forall|q: int| r.0 < q <= r.1 ==> (#[trigger] filled(h, results)[q]).role == "tool"@,
    decreases h.len(),
{
    let f = filled(h, results);
    let m = result_msg(gap.0, gap.1, INTERRUPTED_TOOL_RESULT@);
    let gaps = missing(h[0].parts, results);
    let n: int = if gaps.len() == 0 {
        1
    } else {
        1 + tool_run(h, 1) as int
    };
    if gaps.len() > 0 {
        tool_run_bound(h, 1);
    }
    if i == 0 {
        let k = choose|k: int| 0 <= k < gaps.len() && gaps[k] == gap;
        assert(placeholders(gaps)[k] == m);
        assert(f[n + k] == m);
        assert(f[0] == h[0]);
        assert forall|q: int| 0 < q <= n + k implies (#[trigger] f[q]).role == "tool"@ by {
            if q < n {
                assert(f[q] == h[q]);
            } else {
                assert(f[q] == placeholders(gaps)[q - n]);
            }
        }
        (0, n + k)
    } else {
        if i < n {
            assert(h[i].role == "tool"@);
        }
        let rest = h.skip(n);
        let (a, b) = filled_in_place(rest, results, i - n, gap);
        let g = filled(rest, results);
        let off: int = n + if gaps.len() == 0 {
            0
        } else {
            gaps.len() as int
        };
        assert(f[off + a] == g[a]);
        assert(f[off + b] == g[b]);
        assert forall|q: int| off + a < q <= off + b implies (#[trigger] f[q]).role == "tool"@ by {
            assert(f[q] == g[q - off]);
        }
        (off + a, off + b)
    }
}

/// In a history that providers accept, every call has a result, and every result of a tool message
/// answers a call.
pub proof fn a_healthy_history_answers_every_call(h: Seq<MsgV>, i: int, k: int)
    requires
        healthy(h),
        0 <= i < h.len(),
        0 <= k < h[i].parts.len(),
    ensures
        h[i].parts[k] matches PartV::ToolCall(tc) ==> exists|j: int, l: int|
            0 <= j < h.len() && 0 <= l < h[j].parts.len() && ((#[trigger] h[j].parts[l]) matches PartV::ToolResult {
                id,
                name,
                content,
            } && id == tc.id),
        h[i].parts[k] matches PartV::ToolResult { id: wanted, name, content } ==> h[i].role == "tool"@
            ==> exists|j: int, l: int|
            0 <= j < h.len() && 0 <= l < h[j].parts.len() && ((#[trigger] h[j].parts[l]) matches PartV::ToolCall(
                tc,
            ) && tc.id == wanted),
{
    match h[i].parts[k] {
        PartV::ToolCall(tc) => {
            a_call_counts(h[i].parts, k);
            assert(has_call(h, tc.id));
            called_means(h, tc.id);
            let c = called(h);
            let n = choose|n: int| 0 <= n < c.len() && c[n] == tc.id;
            assert(answered(h).contains(c[n]));
            let j = choose|j: int|
                0 <= j < h.len() && part_results((#[trigger] h[j]).parts).contains(tc.id);
            a_result_is_a_part(h[j].parts, tc.id);
            let l = choose|l: int|
                0 <= l < h[j].parts.len() && ((#[trigger] h[j].parts[l]) matches PartV::ToolResult {
                    id,
                    name,
                    content,
                } && id == tc.id);
            assert(h[j].parts[l] is ToolResult);
        },
        PartV::ToolResult { id: wanted, name, content } => {
            if h[i].role == "tool"@ {
                assert(asked_for(h[i], called(h)));
                a_result_counts(h[i].parts, k);
                let p = part_results(h[i].parts);
                let n = choose|n: int| 0 <= n < p.len() && p[n] == wanted;
                assert(called(h).contains(p[n]));
                called_means(h, wanted);
                let j = choose|j: int|
                    0 <= j < h.len() && part_calls((#[trigger] h[j]).parts).contains(wanted);
                a_call_is_a_part(h[j].parts, wanted);
                let l = choose|l: int|
                    0 <= l < h[j].parts.len() && ((#[trigger] h[j].parts[l]) matches PartV::ToolCall(
                        tc,
                    ) && tc.id == wanted);
                assert(h[j].parts[l] is ToolCall);
            }
        },
        _ => {},
    }
}

proof fn a_result_counts(parts: Seq<PartV>, k: int)
    requires
        0 <= k < parts.len(),
        parts[k] is ToolResult,
    ensures
        part_results(parts).contains(parts[k]->ToolResult_id),
    decreases parts.len(),
{
    let r = part_results(parts);
    if k == parts.len() - 1 {
        assert(r[r.len() - 1] == parts[k]->ToolResult_id);
    } else {
        let d = parts.drop_last();
        a_result_counts(d, k);
        let p = part_results(d);
        let j = choose|j: int| 0 <= j < p.len() && p[j] == d[k]->ToolResult_id;
        assert(r[j] == p[j]);
    }
}

proof fn a_call_is_a_part(parts: Seq<PartV>, wanted: Seq<char>)
    requires
        part_calls(parts).contains(wanted),
    ensures
        exists|l: int|
            0 <= l < parts.len() && ((#[trigger] parts[l]) matches PartV::ToolCall(tc) && tc.id == wanted),
    decreases parts.len(),
{
    let r = part_calls(parts);
    let k = choose|k: int| 0 <= k < r.len() && r[k] == wanted;
    let d = parts.drop_last();
    let p = part_calls(d);
    if k < p.len() {
        assert(p[k] == wanted);
        a_call_is_a_part(d, wanted);
        let l = choose|l: int|
            0 <= l < d.len() && ((#[trigger] d[l]) matches PartV::ToolCall(tc) && tc.id == wanted);
        assert(parts[l] == d[l]);
    } else {
        assert(parts[parts.len() - 1] is ToolCall);
    }
}

/// A repair is counted: as many as were dropped and as were put in.
pub proof fn a_repair_is_counted(h: Seq<MsgV>)
    ensures
        repairs(h) >= 0,
        repaired(h).len() != h.len() ==> repairs(h) > 0,
        repairs(h) <= usize::MAX ==> at_most_max(repairs(h)) == repairs(h),
{
    retained_len(h, called(h));
    filled_len(without_orphans(h), answered(without_orphans(h)));
}

/// A message of results stays where every one of them was asked for, and leaves where one was not.
pub proof fn results_that_were_asked_for_stay(h: Seq<MsgV>, i: int)
    requires
        0 <= i < h.len(),
        h[i].role == "tool"@,
        forall|l: int|
            0 <= l < h[i].parts.len() ==> ((#[trigger] h[i].parts[l]) matches PartV::ToolResult {
                id,
                name,
                content,
            } ==> has_call_for(h, id)),
    ensures
        repaired(h).contains(h[i]),
{
    let p = part_results(h[i].parts);
    assert forall|n: int| 0 <= n < p.len() implies called(h).contains(#[trigger] p[n]) by {
        assert(p.contains(p[n]));
        a_result_is_a_part(h[i].parts, p[n]);
        let l = choose|l: int|
            0 <= l < h[i].parts.len() && ((#[trigger] h[i].parts[l]) matches PartV::ToolResult {
                id,
                name,
                content,
            } && id == p[n]);
        assert(has_call_for(h, p[n]));
        let (j, k) = choose|j: int, k: int|
            0 <= j < h.len() && 0 <= k < h[j].parts.len() && (#[trigger] h[j].parts[k] matches PartV::ToolCall(
                tc,
            ) && tc.id == p[n]);
        a_call_counts(h[j].parts, k);
        assert(has_call(h, p[n]));
        called_means(h, p[n]);
    }
    assert(asked_for(h[i], called(h)));
    let w = without_orphans(h);
    retained_holds(h, called(h), i);
    let n = choose|n: int| 0 <= n < w.len() && w[n] == h[i];
    filled_holds(w, answered(w), n);
}

/// Whether a history makes a call with an id.
pub open spec fn has_call_for(h: Seq<MsgV>, wanted: Seq<char>) -> bool {
    exists|j: int, k: int|
        0 <= j < h.len() && 0 <= k < h[j].parts.len() && (#[trigger] h[j].parts[k] matches PartV::ToolCall(
            tc,
        ) && tc.id == wanted)
}

} // verus!
