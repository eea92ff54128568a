//! Searching the chats.

use vstd::prelude::*;
use vstd::utf8::*;

use crate::bytes::{
    a_window_shows_what_is_between, ceil_boundary, floor_boundary, window, window_of,
};
use crate::engine::sessions::{sessions_view, SessionMeta, SessionV};
use crate::engine::{msgs, plain_text, Msg, MsgV, COMPACTION_MARKER};
use crate::json::{a_field_reads_back, array, jsons, no_field_to_read, obj, object, Json, JsonV};
use crate::text::{
    a_search_finds_what_is_there, after, byte_len, find, find_of, first_from_is_first, len_of,
    lowercase, lowercase_of, same, slice, strip_prefix, trim, trim_of, within,
};

verus! {

/// The bytes of `text` from 40 before `pos` to 80 behind the `len` bytes that start there, out to
/// whole characters.
pub open spec fn snippet(text: Seq<char>, pos: int, len: int) -> Seq<char> {
    window(
        text,
        if pos >= 40 {
            pos - 40
        } else {
            0
        },
        if pos + len + 80 <= usize::MAX {
            pos + len + 80
        } else {
            usize::MAX as int
        },
    )
}

/// The text around a match, cut at whole characters: a position inside one would be an error.
pub fn snippet_around(text: &str, pos: usize, len: usize) -> (r: String)
    ensures
        r@ == snippet(text@, pos as int, len as int),
{
    let from: usize = if pos >= 40 {
        pos - 40
    } else {
        0
    };
    let to: usize = if len <= usize::MAX - pos && 80 <= usize::MAX - pos - len {
        pos + len + 80
    } else {
        usize::MAX
    };
    window_of(text, from, to)
}

/// The text of a message that is searched: a summary without its marker.
pub open spec fn searched_text(m: MsgV) -> Seq<char> {
    match after(plain_text(m), COMPACTION_MARKER@) {
        Some(s) => s,
        None => plain_text(m),
    }
}

/// Where a query is found in a message, in bytes.
pub open spec fn found_at(m: MsgV, q: Seq<char>) -> Option<int> {
    if m.role == "system"@ {
        None
    } else {
        match find_of(lowercase_of(searched_text(m)), q) {
            Some(i) => Some(byte_len(lowercase_of(searched_text(m)).take(i)) as int),
            None => None,
        }
    }
}

pub open spec fn name_hit(s: SessionV) -> JsonV {
    obj().with_text("session_id"@, s.id).with_text("session_name"@, s.name).with_text(
        "snippet"@,
        s.name,
    ).with_text("project"@, s.project)
}

pub open spec fn message_hit(s: SessionV, m: MsgV, pos: int, q: Seq<char>) -> JsonV {
    obj().with_text("session_id"@, s.id).with_text("session_name"@, s.name).with_text(
        "snippet"@,
        snippet(searched_text(m), pos, byte_len(q) as int),
    ).with_text("role"@, m.role).with_text("project"@, s.project)
}

/// The first message of a history in which a query is found.
pub open spec fn first_hit(s: SessionV, h: Seq<MsgV>, q: Seq<char>) -> Option<JsonV>
    decreases h.len(),
{
    if h.len() == 0 {
        None
    } else {
        match found_at(h[0], q) {
            Some(pos) => Some(message_hit(s, h[0], pos, q)),
            None => first_hit(s, h.skip(1), q),
        }
    }
}

/// What a chat has for a query: its name, or else its first message that holds it.
pub open spec fn chat_hit(s: SessionV, h: Seq<MsgV>, q: Seq<char>) -> Option<JsonV> {
    if find_of(lowercase_of(s.name), q) is Some {
        Some(name_hit(s))
    } else {
        first_hit(s, h, q)
    }
}

/// A query as it is looked for.
pub open spec fn query_of(query: Seq<char>) -> Seq<char> {
    lowercase_of(trim_of(query))
}

fn search_message(meta: &SessionMeta, m: &Msg, q: &str) -> (r: Option<Json>)
    ensures
        match r {
            Some(j) => found_at(m@, q@) matches Some(pos) && j@ == message_hit(
                meta@,
                m@,
                pos,
                q@,
            ),
            None => found_at(m@, q@) is None,
        },
{
    if same(m.role.as_str(), "system") {
        return None;
    }
    let plain = m.plain_text_parts();
    let text: String = match strip_prefix(plain.as_str(), COMPACTION_MARKER) {
        Some(s) => s,
        None => plain,
    };
    let lower = lowercase(text.as_str());
    match find(lower.as_str(), q) {
        Some(i) => {
            proof {
                first_from_is_first(lower@, q@, 0);
            }
            let head = slice(lower.as_str(), 0, i);
            assert(head@ =~= lower@.take(i as int));
            let pos: usize = len_of(head.as_str());
            let snip = snippet_around(text.as_str(), pos, len_of(q));
            Some(
                object().with_text("session_id", meta.id.as_str()).with_text(
                    "session_name",
                    meta.name.as_str(),
                ).with_text("snippet", snip.as_str()).with_text("role", m.role.as_str()).with_text(
                    "project",
                    meta.project.as_str(),
                ),
            )
        },
        None => None,
    }
}

/// What a chat has for a query that is not empty; one hit is enough.
pub fn search_chat(meta: &SessionMeta, hist: &Vec<Msg>, q: &str) -> (r: Option<Json>)
    ensures
        match r {
            Some(j) => chat_hit(meta@, msgs(hist@), q@) == Some(j@),
            None => chat_hit(meta@, msgs(hist@), q@) is None,
        },
{
    let name = lowercase(meta.name.as_str());
    if find(name.as_str(), q).is_some() {
        return Some(
            object().with_text("session_id", meta.id.as_str()).with_text(
                "session_name",
                meta.name.as_str(),
            ).with_text("snippet", meta.name.as_str()).with_text(
                "project",
                meta.project.as_str(),
            ),
        );
    }
    let ghost h = msgs(hist@);
    let mut i: usize = 0;
    assert(h.skip(0) =~= h);
    while i < hist.len()
        invariant
            i <= hist.len(),
            h == msgs(hist@),
            find_of(lowercase_of(meta@.name), q@) is None,
            first_hit(meta@, h, q@) == first_hit(meta@, h.skip(i as int), q@),
        decreases hist.len() - i,
    {
        assert(h.skip(i as int)[0] == hist@[i as int]@);
        match search_message(meta, &hist[i], q) {
            Some(j) => {
                return Some(j);
            },
            None => {},
        }
        assert(h.skip(i as int).skip(1) =~= h.skip(i + 1));
        i += 1;
    }
    None
}

pub open spec fn histories(v: Seq<Vec<Msg>>) -> Seq<Seq<MsgV>> {
    Seq::new(v.len(), |i: int| msgs(v[i]@))
}

/// What the chats have for a query.
pub open spec fn hits(ss: Seq<SessionV>, hs: Seq<Seq<MsgV>>, q: Seq<char>) -> Seq<JsonV>
    decreases ss.len(),
{
    if ss.len() == 0 {
        Seq::empty()
    } else {
        let p = hits(ss.drop_last(), hs, q);
        match chat_hit(ss.last(), hs[ss.len() - 1], q) {
            Some(j) => p.push(j),
            None => p,
        }
    }
}

/// What a search comes to.
pub open spec fn results_of(ss: Seq<SessionV>, hs: Seq<Seq<MsgV>>, query: Seq<char>) -> JsonV {
    obj().with(
        "results"@,
        JsonV::Array(
            if query_of(query).len() == 0 {
                Seq::empty()
            } else {
                hits(ss, hs, query_of(query))
            },
        ),
    )
}

/// What the chats have for a query, given the history of each. An empty query finds nothing.
pub fn search_sessions(
    sessions: &Vec<SessionMeta>,
    hists: &Vec<Vec<Msg>>,
    query: &str,
) -> (r: Json)
    requires
        hists@.len() == sessions@.len(),
    ensures
        r@ == results_of(sessions_view(sessions@), histories(hists@), query@),
{
    let t = trim(query);
    let q = lowercase(t.as_str());
    let mut out: Vec<Json> = Vec::new();
    assert(jsons(out@) =~= Seq::empty());
    if q.as_str().unicode_len() == 0 {
        return object().with("results", array(out));
    }
    let ghost ss = sessions_view(sessions@);
    let ghost hs = histories(hists@);
    let mut i: usize = 0;
    assert(ss.take(0) =~= Seq::empty());
    while i < sessions.len()
        invariant
            i <= sessions.len(),
            hists@.len() == sessions@.len(),
            ss == sessions_view(sessions@),
            hs == histories(hists@),
            jsons(out@) == hits(ss.take(i as int), hs, q@),
        decreases sessions.len() - i,
    {
        assert(ss.take(i + 1).drop_last() =~= ss.take(i as int));
        assert(ss[i as int] == sessions@[i as int]@);
        assert(hs[i as int] == msgs(hists@[i as int]@));
        match search_chat(&sessions[i], &hists[i], q.as_str()) {
            Some(j) => {
                let ghost before = jsons(out@);
                out.push(j);
                assert(jsons(out@) =~= before.push(j@));
            },
            None => {},
        }
        i += 1;
    }
    assert(ss.take(ss.len() as int) =~= ss);
    object().with("results", array(out))
}

// ---- what a search is for ------------------------------------------------------------------------------

/// Whether a query stands in what a message says: in its text, or in the summary where it is one. A
/// system message says nothing.
pub open spec fn says(m: MsgV, q: Seq<char>) -> bool {
    m.role != "system"@ && within(q, lowercase_of(body_of(m)))
}

/// A message is found exactly where it says what is looked for, in any case of letters, and the
/// place is the first.
pub proof fn a_message_is_found_by_what_it_says(m: MsgV, q: Seq<char>)
    ensures
        found_at(m, q) is Some <==> says(m, q),
{
    a_search_finds_what_is_there(lowercase_of(searched_text(m)), q);
}

/// What a message says: its text, or the summary where it is one.
pub open spec fn body_of(m: MsgV) -> Seq<char> {
    let t = plain_text(m);
    let marker = COMPACTION_MARKER@;
    if t.len() >= marker.len() && t.take(marker.len() as int) == marker {
        t.skip(marker.len() as int)
    } else {
        t
    }
}

/// Whether a hit shows the text around the first place at which a message says what is looked for.
pub open spec fn shows_the_first(j: JsonV, m: MsgV, q: Seq<char>) -> bool {
    let body = body_of(m);
    let low = lowercase_of(body);
    exists|i: int|
        0 <= i && i + q.len() <= low.len() && #[trigger] low.subrange(i, i + q.len()) == q && (forall|k: int|
            0 <= k < i ==> #[trigger] low.subrange(k, k + q.len()) != q) && j.field("snippet"@)
            == Some(
            JsonV::Text(
                snippet(body, encode_utf8(low.take(i)).len() as int, encode_utf8(q).len() as int),
            ),
        )
}

/// A chat is found exactly where its name holds what is looked for, or some message says it. It is
/// found by its name first, and otherwise by the first message that says it.
pub proof fn a_chat_is_found_by_all_it_says(s: SessionV, h: Seq<MsgV>, q: Seq<char>)
    ensures
        chat_hit(s, h, q) is Some <==> within(q, lowercase_of(s.name)) || exists|i: int|
            0 <= i < h.len() && says(#[trigger] h[i], q),
        chat_hit(s, h, q) matches Some(j) ==> {
            &&& j.field("session_id"@) == Some(JsonV::Text(s.id))
            &&& j.field("session_name"@) == Some(JsonV::Text(s.name))
            &&& j.field("project"@) == Some(JsonV::Text(s.project))
            &&& within(q, lowercase_of(s.name)) ==> j.field("snippet"@) == Some(JsonV::Text(s.name))
                && j.field("role"@) is None
            &&& !within(q, lowercase_of(s.name)) ==> exists|i: int|
                0 <= i < h.len() && says(#[trigger] h[i], q) && (forall|k: int|
                    0 <= k < i ==> !says(#[trigger] h[k], q)) && j.field("role"@) == Some(
                    JsonV::Text(h[i].role),
                ) && shows_the_first(j, h[i], q)
        },
{
    broadcast use a_field_reads_back, no_field_to_read;

    reveal_strlit("session_id");
    reveal_strlit("session_name");
    reveal_strlit("snippet");
    reveal_strlit("role");
    reveal_strlit("project");
    assert("session_id"@.len() == 10);
    assert("session_name"@.len() == 12);
    assert("snippet"@.len() == 7);
    assert("role"@.len() == 4);
    assert("project"@.len() == 7);
    assert("snippet"@[0] == 's' && "project"@[0] == 'p');
    a_search_finds_what_is_there(lowercase_of(s.name), q);
    first_hit_is_first(s, h, q);
    if find_of(lowercase_of(s.name), q) is None {
        match first_hit(s, h, q) {
            Some(j) => {
                let i = choose|i: int|
                    0 <= i < h.len() && says(#[trigger] h[i], q) && (forall|k: int|
                        0 <= k < i ==> !says(#[trigger] h[k], q)) && found_at(h[i], q) is Some && j
                        == message_hit(s, h[i], found_at(h[i], q)->Some_0, q);
                assert(searched_text(h[i]) == body_of(h[i]));
                let low = lowercase_of(body_of(h[i]));
                a_search_finds_what_is_there(low, q);
                let at = find_of(low, q)->Some_0;
                assert(low.subrange(at, at + q.len()) == q);
                assert(j.field("snippet"@) == Some(
                    JsonV::Text(
                        snippet(
                            body_of(h[i]),
                            encode_utf8(low.take(at)).len() as int,
                            encode_utf8(q).len() as int,
                        ),
                    ),
                ));
                assert(shows_the_first(j, h[i], q));
            },
            None => {},
        }
    }
}

/// A query is looked for without the space around it and without regard to case.
pub proof fn a_query_is_what_was_typed(query: Seq<char>)
    ensures
        query_of(query) == lowercase_of(trim_of(query)),
{
}

proof fn first_hit_is_first(s: SessionV, h: Seq<MsgV>, q: Seq<char>)
    ensures
        match first_hit(s, h, q) {
            Some(j) => exists|i: int|
                0 <= i < h.len() && says(#[trigger] h[i], q) && (forall|k: int|
                    0 <= k < i ==> !says(#[trigger] h[k], q)) && found_at(h[i], q) is Some && j
                    == message_hit(s, h[i], found_at(h[i], q)->Some_0, q),
            None => forall|i: int| 0 <= i < h.len() ==> !says(#[trigger] h[i], q),
        },
    decreases h.len(),
{
    if h.len() > 0 {
        let t = h.skip(1);
        a_message_is_found_by_what_it_says(h[0], q);
        first_hit_is_first(s, t, q);
        if found_at(h[0], q) is Some {
            assert(says(h[0], q));
        } else {
            match first_hit(s, t, q) {
                Some(j) => {
                    let i = choose|i: int|
                        0 <= i < t.len() && says(#[trigger] t[i], q) && (forall|k: int|
                            0 <= k < i ==> !says(#[trigger] t[k], q)) && found_at(t[i], q) is Some && j
                            == message_hit(s, t[i], found_at(t[i], q)->Some_0, q);
                    assert(h[i + 1] == t[i]);
                    assert forall|k: int| 0 <= k < i + 1 implies !says(#[trigger] h[k], q) by {
                        if k > 0 {
                            assert(t[k - 1] == h[k]);
                        }
                    }
                },
                None => {
                    assert forall|i: int| 0 <= i < h.len() implies !says(#[trigger] h[i], q) by {
                        if i > 0 {
                            assert(t[i - 1] == h[i]);
                        }
                    }
                },
            }
        }
    }
}

/// The snippet shows what was found, with what stands around it: all of a match that lies in the
/// text, at least 40 bytes before it and 80 behind it as far as there are so many.
pub proof fn a_snippet_shows_the_match(text: Seq<char>, pos: int, len: int)
    requires
        0 <= pos,
        0 <= len,
        pos + len <= encode_utf8(text).len(),
        pos + len + 80 <= usize::MAX,
    ensures
        ({
            let e = encode_utf8(text);
            exists|i: int, j: int|
                0 <= i <= pos && pos + len <= j <= e.len() && (i == 0 || i <= pos - 40) && (j == e.len()
                    || j >= pos + len + 80) && encode_utf8(snippet(text, pos, len))
                    == #[trigger] e.subrange(i, j)
        }),
{
    let e = encode_utf8(text);
    let from = if pos >= 40 {
        pos - 40
    } else {
        0
    };
    let far = pos + len + 80;
    let to = if far <= e.len() {
        far
    } else {
        e.len() as int
    };
    a_window_shows_what_is_between(text, from, to);
    if far > e.len() {
        assert(ceil_boundary(text, far) == ceil_boundary(text, to));
    }
    let i = floor_boundary(text, from);
    let j = ceil_boundary(text, to);
    assert(encode_utf8(snippet(text, pos, len)) == e.subrange(i, j));
}

/// Every chat that is found is among the results, once, in the order of the chats.
pub proof fn every_chat_that_is_found_is_listed(
    ss: Seq<SessionV>,
    hs: Seq<Seq<MsgV>>,
    q: Seq<char>,
)
    requires
        ss.len() == hs.len(),
    ensures
        hits(ss, hs, q) == Seq::new(ss.len(), |i: int| chat_hit(ss[i], hs[i], q)).filter_map(
            |o: Option<JsonV>| o,
        ),
{
    listed_so_far(ss, hs, q);
}

proof fn listed_so_far(ss: Seq<SessionV>, hs: Seq<Seq<MsgV>>, q: Seq<char>)
    ensures
        hits(ss, hs, q) == Seq::new(ss.len(), |i: int| chat_hit(ss[i], hs[i], q)).filter_map(
            |o: Option<JsonV>| o,
        ),
    decreases ss.len(),
{
    let all = Seq::new(ss.len(), |i: int| chat_hit(ss[i], hs[i], q));
    let id = |o: Option<JsonV>| o;
    if ss.len() > 0 {
        let d = ss.drop_last();
        listed_so_far(d, hs, q);
        let before = Seq::new(d.len(), |i: int| chat_hit(d[i], hs[i], q));
        assert(all.drop_last() =~= before);
        assert(hits(ss, hs, q) =~= all.filter_map(id));
    } else {
        assert(hits(ss, hs, q) =~= all.filter_map(id));
    }
}

/// A search gives every chat that is found by what was typed, without the space around it and in any
/// case of letters; where nothing was typed, it finds nothing.
pub proof fn a_search_gives_every_chat_that_is_found(
    ss: Seq<SessionV>,
    hs: Seq<Seq<MsgV>>,
    query: Seq<char>,
)
    requires
        ss.len() == hs.len(),
    ensures
        ({
            let q = lowercase_of(trim_of(query));
            let all = Seq::new(ss.len(), |i: int| chat_hit(ss[i], hs[i], q));
            &&& q.len() > 0 ==> results_of(ss, hs, query).field("results"@) == Some(
                JsonV::Array(all.filter_map(|o: Option<JsonV>| o)),
            )
            &&& q.len() == 0 ==> results_of(ss, hs, query).field("results"@) == Some(
                JsonV::Array(Seq::empty()),
            )
        }),
{
    broadcast use a_field_reads_back, no_field_to_read;

    every_chat_that_is_found_is_listed(ss, hs, lowercase_of(trim_of(query)));
}

} // verus!
