//! What a provider says about its own models.
//!
//! Listings range from a bare `{id, object}` to fully described entries. Every field past the
//! id is optional, and `None` means that the listing did not say, never "no".

use vstd::prelude::*;

use crate::engine::provider::request::{trim_end_slashes, unslashed};
use crate::json::{fields_view, jsons, lookup, view_of_parts, Json, JsonV};
use crate::text::{
    blank, chars_of, copy_texts, lower_of, one_of, same, string_of, texts, to_ascii_lowercase, trim,
    trim_is_empty_iff_blank, trim_of,
};

verus! {

/// One entry of a provider's `/models` listing.
#[derive(Debug)]
pub struct ModelInfo {
    pub id: String,
    /// Usable context window in tokens, as advertised.
    pub context_window: Option<u64>,
    /// Whether this model takes a reasoning level.
    pub reasoning: Option<bool>,
    /// The levels it takes, where the listing enumerates them.
    pub reasoning_efforts: Vec<String>,
}

pub struct ModelInfoV {
    pub id: Seq<char>,
    pub context_window: Option<u64>,
    pub reasoning: Option<bool>,
    pub reasoning_efforts: Seq<Seq<char>>,
}

impl View for ModelInfo {
    type V = ModelInfoV;

    open spec fn view(&self) -> ModelInfoV {
        ModelInfoV {
            id: self.id@,
            context_window: self.context_window,
            reasoning: self.reasoning,
            reasoning_efforts: texts(self.reasoning_efforts@),
        }
    }
}

impl Clone for ModelInfo {
    fn clone(&self) -> (r: ModelInfo)
        ensures
            r@ == self@,
    {
        ModelInfo {
            id: self.id.clone(),
            context_window: self.context_window,
            reasoning: self.reasoning,
            reasoning_efforts: copy_texts(&self.reasoning_efforts),
        }
    }
}

pub open spec fn models_view(v: Seq<ModelInfo>) -> Seq<ModelInfoV> {
    Seq::new(v.len(), |i: int| v[i]@)
}

/// How deep capability keys are looked for. Providers nest them under blocks of many names,
/// so looking for the key beats knowing every path.
pub const SEARCH_DEPTH: usize = 3;

/// The keys that a context window goes by.
pub open spec fn window_keys() -> Seq<Seq<char>> {
    seq![
        "context_window"@,
        "context_length"@,
        "max_context_window_tokens"@,
        "max_context_length"@,
        "max_model_len"@,
        "max_input_tokens"@,
    ]
}

/// The keys whose presence says something about reasoning.
pub open spec fn reasoning_keys() -> Seq<Seq<char>> {
    seq![
        "reasoning"@,
        "reasoning_effort"@,
        "supports_reasoning"@,
        "supports_reasoning_effort"@,
        "include_reasoning"@,
        "thinking"@,
        "supported_reasoning_efforts"@,
        "reasoning_efforts"@,
    ]
}

/// The keys of a list of the request fields that a model accepts.
pub open spec fn param_list_keys() -> Seq<Seq<char>> {
    seq!["supported_parameters"@, "supported_params"@]
}

pub open spec fn names(v: Seq<&'static str>) -> Seq<Seq<char>> {
    Seq::new(v.len(), |i: int| v[i]@)
}

// ---- looking for keys ---------------------------------------------------------------------------

/// The values of those of `keys` that an object has.
pub open spec fn values_of(fields: Seq<(Seq<char>, JsonV)>, keys: Seq<Seq<char>>) -> Seq<JsonV>
    decreases keys.len(),
{
    if keys.len() == 0 {
        Seq::empty()
    } else {
        let p = values_of(fields, keys.drop_last());
        match lookup(fields, keys.last()) {
            Some(v) => p.push(v),
            None => p,
        }
    }
}

/// Every value filed under one of `keys` in an object and in the objects that it holds, down
/// to `depth` levels below it.
pub open spec fn collected(v: JsonV, keys: Seq<Seq<char>>, depth: nat) -> Seq<JsonV>
    decreases depth, 0nat,
{
    match v {
        JsonV::Object(fields) => if depth == 0 {
            values_of(fields, keys)
        } else {
            values_of(fields, keys) + collected_below(fields, keys, (depth - 1) as nat)
        },
        _ => Seq::empty(),
    }
}

pub open spec fn collected_below(
    fields: Seq<(Seq<char>, JsonV)>,
    keys: Seq<Seq<char>>,
    depth: nat,
) -> Seq<JsonV>
    decreases depth, fields.len(),
{
    if fields.len() == 0 {
        Seq::empty()
    } else {
        collected_below(fields.drop_last(), keys, depth) + collected(
            fields.last().1,
            keys,
            depth,
        )
    }
}

pub open spec fn refs(v: Seq<&Json>) -> Seq<JsonV> {
    Seq::new(v.len(), |i: int| v[i]@)
}

fn collect<'a>(v: &'a Json, keys: &Vec<&'static str>, depth: usize, out: &mut Vec<&'a Json>)
    ensures
        refs(final(out)@) == refs(old(out)@) + collected(v@, names(keys@), depth as nat),
    decreases depth,
{
    let ghost k = names(keys@);
    let ghost before = refs(out@);
    proof {
        view_of_parts(*v);
    }
    match v {
        Json::Object(fields) => {
            let ghost f = fields_view(fields@);
            let mut i: usize = 0;
            assert(before + values_of(f, k.take(0)) =~= before);
            while i < keys.len()
                invariant
                    i <= keys.len(),
                    k == names(keys@),
                    v@ == JsonV::Object(f),
                    refs(out@) == before + values_of(f, k.take(i as int)),
                decreases keys.len() - i,
            {
                assert(k.take(i + 1).drop_last() =~= k.take(i as int));
                match v.get(keys[i]) {
                    Some(found) => {
                        let ghost o = refs(out@);
                        out.push(found);
                        assert(refs(out@) =~= o.push(found@));
                        assert(o.push(found@) =~= before + values_of(f, k.take(i + 1)));
                    },
                    None => {},
                }
                i += 1;
            }
            assert(k.take(k.len() as int) =~= k);
            if depth == 0 {
                return;
            }
            let ghost mid = refs(out@);
            let mut j: usize = 0;
            assert(mid + collected_below(f.take(0), k, (depth - 1) as nat) =~= mid);
            while j < fields.len()
                invariant
                    j <= fields.len(),
                    depth > 0,
                    k == names(keys@),
                    f == fields_view(fields@),
                    refs(out@) == mid + collected_below(f.take(j as int), k, (depth - 1) as nat),
                decreases fields.len() - j,
            {
                assert(f.take(j + 1).drop_last() =~= f.take(j as int));
                let ghost o = refs(out@);
                collect(&fields[j].1, keys, depth - 1, out);
                assert(refs(out@) =~= mid + collected_below(
                    f.take(j + 1),
                    k,
                    (depth - 1) as nat,
                ));
                j += 1;
            }
            assert(f.take(f.len() as int) =~= f);
            assert(refs(out@) =~= before + collected(v@, k, depth as nat));
        },
        _ => {
            assert(before + collected(v@, k, depth as nat) =~= before);
        },
    }
}

// ---- the context window ----------------------------------------------------------------------------

/// The number of tokens that a value names, where it names any.
pub open spec fn window_value(v: JsonV) -> Option<u64> {
    match v {
        JsonV::Unsigned(n) => if n > 0 {
            Some(n)
        } else {
            None
        },
        JsonV::Fraction { text, whole } => if whole > 0 {
            Some(whole)
        } else {
            None
        },
        _ => None,
    }
}

pub open spec fn smaller(a: Option<u64>, b: Option<u64>) -> Option<u64> {
    match (a, b) {
        (Some(x), Some(y)) => if y < x {
            Some(y)
        } else {
            Some(x)
        },
        (Some(x), None) => Some(x),
        (None, y) => y,
    }
}

/// The smallest number of tokens that one of the values names.
pub open spec fn smallest_window(found: Seq<JsonV>) -> Option<u64>
    decreases found.len(),
{
    if found.len() == 0 {
        None
    } else {
        smaller(smallest_window(found.drop_last()), window_value(found.last()))
    }
}

/// The window of a listing entry.
pub open spec fn window_in(m: JsonV) -> Option<u64> {
    smallest_window(collected(m, window_keys(), SEARCH_DEPTH as nat))
}

/// The window is a number that the listing names, and no smaller one is named: it is a budget
/// to stay under, so of two numbers the smaller one is safe.
pub proof fn window_is_the_smallest_named(found: Seq<JsonV>)
    ensures
        smallest_window(found) matches Some(w) ==> {
            &&& exists|i: int| 0 <= i < found.len() && window_value(#[trigger] found[i]) == Some(w)
            &&& forall|i: int|
                0 <= i < found.len() && window_value(#[trigger] found[i]) is Some ==> w
                    <= window_value(found[i])->0
        },
        smallest_window(found) is None ==> forall|i: int|
            0 <= i < found.len() ==> window_value(#[trigger] found[i]) is None,
    decreases found.len(),
{
    if found.len() > 0 {
        let d = found.drop_last();
        window_is_the_smallest_named(d);
        assert forall|i: int| 0 <= i < found.len() - 1 implies found[i] == d[i] by {}
        match smallest_window(found) {
            Some(w) => {
                if smallest_window(d) == Some(w) {
                    let i = choose|i: int| 0 <= i < d.len() && window_value(#[trigger] d[i]) == Some(w);
                    assert(window_value(found[i]) == Some(w));
                } else {
                    assert(window_value(found[found.len() - 1]) == Some(w));
                }
            },
            None => {},
        }
    }
}

fn window_of(m: &Json) -> (r: Option<u64>)
    ensures
        r == window_in(m@),
{
    let mut keys: Vec<&'static str> = Vec::new();
    keys.push("context_window");
    keys.push("context_length");
    keys.push("max_context_window_tokens");
    keys.push("max_context_length");
    keys.push("max_model_len");
    keys.push("max_input_tokens");
    assert(names(keys@) =~= window_keys());
    let mut found: Vec<&Json> = Vec::new();
    collect(m, &keys, SEARCH_DEPTH, &mut found);
    let ghost f = refs(found@);
    assert(f =~= collected(m@, window_keys(), SEARCH_DEPTH as nat));
    let mut best: Option<u64> = None;
    let mut i: usize = 0;
    while i < found.len()
        invariant
            i <= found.len(),
            f == refs(found@),
            best == smallest_window(f.take(i as int)),
        decreases found.len() - i,
    {
        assert(f.take(i + 1).drop_last() =~= f.take(i as int));
        let n: Option<u64> = match found[i] {
            Json::Unsigned(n) => if *n > 0 {
                Some(*n)
            } else {
                None
            },
            Json::Fraction { text: _, whole } => if *whole > 0 {
                Some(*whole)
            } else {
                None
            },
            _ => None,
        };
        best = match (best, n) {
            (Some(x), Some(y)) => if y < x {
                Some(y)
            } else {
                Some(x)
            },
            (Some(x), None) => Some(x),
            (None, y) => y,
        };
        i += 1;
    }
    assert(f.take(f.len() as int) =~= f);
    best
}

// ---- reasoning ------------------------------------------------------------------------------------

/// A level as it is kept: without whitespace around it, in small letters.
pub open spec fn level(raw: Seq<char>) -> Seq<char> {
    lower_of(trim_of(raw))
}

/// Whether a level is none: nothing, or the name of the flag itself.
pub open spec fn no_level(e: Seq<char>) -> bool {
    e.len() == 0 || e == "true"@ || e == "false"@ || e == "reasoning"@ || e == "reasoning_effort"@
}

pub open spec fn with_effort(efforts: Seq<Seq<char>>, raw: Seq<char>) -> Seq<Seq<char>> {
    if no_level(level(raw)) || efforts.contains(level(raw)) {
        efforts
    } else {
        efforts.push(level(raw))
    }
}

/// The levels with those that the texts among `items` name.
pub open spec fn with_efforts(efforts: Seq<Seq<char>>, items: Seq<JsonV>) -> Seq<Seq<char>>
    decreases items.len(),
{
    if items.len() == 0 {
        efforts
    } else {
        let p = with_efforts(efforts, items.drop_last());
        match items.last() {
            JsonV::Text(s) => with_effort(p, s),
            _ => p,
        }
    }
}

/// The levels with those that the lists of an object name.
pub open spec fn with_listed(
    efforts: Seq<Seq<char>>,
    fields: Seq<(Seq<char>, JsonV)>,
) -> Seq<Seq<char>>
    decreases fields.len(),
{
    if fields.len() == 0 {
        efforts
    } else {
        let p = with_listed(efforts, fields.drop_last());
        match fields.last().1 {
            JsonV::Array(a) => with_efforts(p, a),
            _ => p,
        }
    }
}

/// What the values seen so far say about reasoning.
pub struct HintsV {
    pub yes: bool,
    pub no: bool,
    pub efforts: Seq<Seq<char>>,
}

pub open spec fn says_no(s: Seq<char>) -> bool {
    level(s) == "false"@ || level(s) == "none"@ || level(s) == "off"@
}

/// What one value under a reasoning key adds: a flag; a list of levels; a block, which is
/// itself the provider saying that the model reasons; or a word.
pub open spec fn with_hint(h: HintsV, v: JsonV) -> HintsV {
    match v {
        JsonV::Bool(b) => if b {
            HintsV { yes: true, ..h }
        } else {
            HintsV { no: true, ..h }
        },
        JsonV::Array(a) => HintsV { yes: true, efforts: with_efforts(h.efforts, a), ..h },
        JsonV::Object(f) => HintsV { yes: true, efforts: with_listed(h.efforts, f), ..h },
        JsonV::Text(s) => if says_no(s) {
            HintsV { no: true, ..h }
        } else if level(s).len() == 0 {
            h
        } else {
            HintsV { yes: true, efforts: with_effort(h.efforts, s), ..h }
        },
        _ => h,
    }
}

pub open spec fn with_hints(h: HintsV, found: Seq<JsonV>) -> HintsV
    decreases found.len(),
{
    if found.len() == 0 {
        h
    } else {
        with_hint(with_hints(h, found.drop_last()), found.last())
    }
}

/// Whether a request field is about reasoning.
pub open spec fn about_reasoning(v: JsonV) -> bool {
    match v {
        JsonV::Text(s) => lower_of(s) == "reasoning"@ || lower_of(s) == "reasoning_effort"@
            || lower_of(s) == "include_reasoning"@ || lower_of(s) == "thinking"@,
        _ => false,
    }
}

/// What a list of accepted request fields adds. One that omits reasoning is the one case in
/// which a listing says that a model takes no level.
pub open spec fn with_params(h: HintsV, v: JsonV) -> HintsV {
    match v {
        JsonV::Array(list) => if exists|i: int|
            0 <= i < list.len() && about_reasoning(#[trigger] list[i]) {
            HintsV { yes: true, ..h }
        } else if list.len() > 0 {
            HintsV { no: true, ..h }
        } else {
            h
        },
        _ => h,
    }
}

pub open spec fn with_all_params(h: HintsV, found: Seq<JsonV>) -> HintsV
    decreases found.len(),
{
    if found.len() == 0 {
        h
    } else {
        with_params(with_all_params(h, found.drop_last()), found.last())
    }
}

/// All that a listing entry says about reasoning.
pub open spec fn hints_in(m: JsonV) -> HintsV {
    with_all_params(
        with_hints(
            HintsV { yes: false, no: false, efforts: Seq::empty() },
            collected(m, reasoning_keys(), SEARCH_DEPTH as nat),
        ),
        collected(m, param_list_keys(), SEARCH_DEPTH as nat),
    )
}

pub open spec fn verdict_of(h: HintsV) -> Option<bool> {
    if h.yes {
        Some(true)
    } else if h.no {
        Some(false)
    } else {
        None
    }
}

/// The levels on offer: none unless the model is said to reason.
pub open spec fn levels_of(h: HintsV) -> Seq<Seq<char>> {
    if h.yes {
        h.efforts
    } else {
        Seq::empty()
    }
}

struct Hints {
    yes: bool,
    no: bool,
    efforts: Vec<String>,
}

impl View for Hints {
    type V = HintsV;

    closed spec fn view(&self) -> HintsV {
        HintsV { yes: self.yes, no: self.no, efforts: texts(self.efforts@) }
    }
}

fn push_effort(out: &mut Vec<String>, raw: &str)
    ensures
        texts(final(out)@) == with_effort(texts(old(out)@), raw@),
{
    let t = trim(raw);
    let e = to_ascii_lowercase(t.as_str());
    let s = e.as_str();
    if s.unicode_len() == 0 || same(s, "true") || same(s, "false") || same(s, "reasoning") || same(
        s,
        "reasoning_effort",
    ) {
        return;
    }
    if !one_of(s, out) {
        let ghost before = texts(out@);
        out.push(e);
        assert(texts(out@) =~= before.push(e@));
    }
}

fn push_efforts(out: &mut Vec<String>, items: &Vec<Json>)
    ensures
        texts(final(out)@) == with_efforts(texts(old(out)@), jsons(items@)),
{
    let ghost t = jsons(items@);
    let ghost e0 = texts(out@);
    let mut i: usize = 0;
    assert(t.take(0) =~= Seq::empty());
    while i < items.len()
        invariant
            i <= items.len(),
            t == jsons(items@),
            texts(out@) == with_efforts(e0, t.take(i as int)),
        decreases items.len() - i,
    {
        assert(t.take(i + 1).drop_last() =~= t.take(i as int));
        match &items[i] {
            Json::Text(s) => {
                push_effort(out, s.as_str());
            },
            _ => {},
        }
        i += 1;
    }
    assert(t.take(t.len() as int) =~= t);
}

fn push_listed(out: &mut Vec<String>, fields: &Vec<(String, Json)>)
    ensures
        texts(final(out)@) == with_listed(texts(old(out)@), fields_view(fields@)),
{
    let ghost f = fields_view(fields@);
    let ghost e0 = texts(out@);
    let mut i: usize = 0;
    assert(f.take(0) =~= Seq::empty());
    while i < fields.len()
        invariant
            i <= fields.len(),
            f == fields_view(fields@),
            texts(out@) == with_listed(e0, f.take(i as int)),
        decreases fields.len() - i,
    {
        assert(f.take(i + 1).drop_last() =~= f.take(i as int));
        proof {
            view_of_parts(fields@[i as int].1);
        }
        match &fields[i].1 {
            Json::Array(a) => {
                push_efforts(out, a);
            },
            _ => {},
        }
        i += 1;
    }
    assert(f.take(f.len() as int) =~= f);
}

impl Hints {
    fn hint(&mut self, v: &Json)
        ensures
            final(self)@ == with_hint(old(self)@, v@),
    {
        proof {
            view_of_parts(*v);
        }
        match v {
            Json::Bool(b) => {
                if *b {
                    self.yes = true;
                } else {
                    self.no = true;
                }
            },
            Json::Array(a) => {
                push_efforts(&mut self.efforts, a);
                self.yes = true;
            },
            Json::Object(f) => {
                self.yes = true;
                push_listed(&mut self.efforts, f);
            },
            Json::Text(s) => {
                let t = trim(s.as_str());
                let low = to_ascii_lowercase(t.as_str());
                let l = low.as_str();
                if same(l, "false") || same(l, "none") || same(l, "off") {
                    self.no = true;
                } else if l.unicode_len() > 0 {
                    self.yes = true;
                    push_effort(&mut self.efforts, s.as_str());
                }
            },
            _ => {},
        }
    }

    fn params(&mut self, v: &Json)
        ensures
            final(self)@ == with_params(old(self)@, v@),
    {
        proof {
            view_of_parts(*v);
        }
        match v {
            Json::Array(list) => {
                let ghost l = jsons(list@);
                let mut i: usize = 0;
                let mut found: bool = false;
                while i < list.len()
                    invariant
                        i <= list.len(),
                        l == jsons(list@),
                        *self == *old(self),
                        found == (exists|k: int| 0 <= k < i && about_reasoning(#[trigger] l[k])),
                    decreases list.len() - i,
                {
                    assert(l[i as int] == list@[i as int]@);
                    match &list[i] {
                        Json::Text(s) => {
                            let low = to_ascii_lowercase(s.as_str());
                            let t = low.as_str();
                            if same(t, "reasoning") || same(t, "reasoning_effort") || same(
                                t,
                                "include_reasoning",
                            ) || same(t, "thinking") {
                                assert(about_reasoning(l[i as int]));
                                found = true;
                            }
                        },
                        _ => {},
                    }
                    i += 1;
                }
                if found {
                    self.yes = true;
                } else if list.len() > 0 {
                    self.no = true;
                }
            },
            _ => {},
        }
    }
}

fn reasoning_of(m: &Json) -> (r: (Option<bool>, Vec<String>))
    ensures
        r.0 == verdict_of(hints_in(m@)),
        texts(r.1@) == levels_of(hints_in(m@)),
{
    let mut keys: Vec<&'static str> = Vec::new();
    keys.push("reasoning");
    keys.push("reasoning_effort");
    keys.push("supports_reasoning");
    keys.push("supports_reasoning_effort");
    keys.push("include_reasoning");
    keys.push("thinking");
    keys.push("supported_reasoning_efforts");
    keys.push("reasoning_efforts");
    assert(names(keys@) =~= reasoning_keys());
    let mut found: Vec<&Json> = Vec::new();
    collect(m, &keys, SEARCH_DEPTH, &mut found);
    let ghost f = refs(found@);
    assert(f =~= collected(m@, reasoning_keys(), SEARCH_DEPTH as nat));
    let mut h = Hints { yes: false, no: false, efforts: Vec::new() };
    let ghost h0 = HintsV { yes: false, no: false, efforts: Seq::empty() };
    assert(h@.efforts =~= h0.efforts);
    let mut i: usize = 0;
    assert(f.take(0) =~= Seq::empty());
    while i < found.len()
        invariant
            i <= found.len(),
            f == refs(found@),
            h@ == with_hints(h0, f.take(i as int)),
        decreases found.len() - i,
    {
        assert(f.take(i + 1).drop_last() =~= f.take(i as int));
        h.hint(found[i]);
        i += 1;
    }
    assert(f.take(f.len() as int) =~= f);
    let ghost h1 = h@;
    let mut pkeys: Vec<&'static str> = Vec::new();
    pkeys.push("supported_parameters");
    pkeys.push("supported_params");
    assert(names(pkeys@) =~= param_list_keys());
    let mut lists: Vec<&Json> = Vec::new();
    collect(m, &pkeys, SEARCH_DEPTH, &mut lists);
    let ghost l = refs(lists@);
    assert(l =~= collected(m@, param_list_keys(), SEARCH_DEPTH as nat));
    let mut j: usize = 0;
    assert(l.take(0) =~= Seq::empty());
    while j < lists.len()
        invariant
            j <= lists.len(),
            l == refs(lists@),
            h@ == with_all_params(h1, l.take(j as int)),
        decreases lists.len() - j,
    {
        assert(l.take(j + 1).drop_last() =~= l.take(j as int));
        h.params(lists[j]);
        j += 1;
    }
    assert(l.take(l.len() as int) =~= l);
    if h.yes {
        (Some(true), h.efforts)
    } else {
        let none: Vec<String> = Vec::new();
        assert(texts(none@) =~= Seq::empty());
        if h.no {
            (Some(false), none)
        } else {
            (None, none)
        }
    }
}

// ---- the listing ------------------------------------------------------------------------------------

/// The first of a model's names that is a text.
pub open spec fn name_in(m: JsonV) -> Option<Seq<char>> {
    match m.text_field("id"@) {
        Some(s) => Some(s),
        None => match m.text_field("model"@) {
            Some(s) => Some(s),
            None => match m.text_field("model_name"@) {
                Some(s) => Some(s),
                None => m.text_field("name"@),
            },
        },
    }
}

/// What a listing entry says; nothing where it names no model.
pub open spec fn info_in(m: JsonV) -> Option<ModelInfoV> {
    match name_in(m) {
        Some(id) => if blank(id) {
            None
        } else {
            Some(
                ModelInfoV {
                    id: trim_of(id),
                    context_window: window_in(m),
                    reasoning: verdict_of(hints_in(m)),
                    reasoning_efforts: levels_of(hints_in(m)),
                },
            )
        },
        None => None,
    }
}

pub open spec fn listed(models: Seq<ModelInfoV>, id: Seq<char>) -> bool {
    exists|i: int| 0 <= i < models.len() && (#[trigger] models[i]).id == id
}

/// The models of a list of entries, the first entry for an id kept.
pub open spec fn models_in(items: Seq<JsonV>) -> Seq<ModelInfoV>
    decreases items.len(),
{
    if items.len() == 0 {
        Seq::empty()
    } else {
        let p = models_in(items.drop_last());
        match info_in(items.last()) {
            Some(info) => if listed(p, info.id) {
                p
            } else {
                p.push(info)
            },
            None => p,
        }
    }
}

/// The entries of a listing: under `data`, under `models`, or the value itself.
pub open spec fn entries_in(v: JsonV) -> Option<Seq<JsonV>> {
    match v.field("data"@) {
        Some(JsonV::Array(a)) => Some(a),
        _ => match v.field("models"@) {
            Some(JsonV::Array(a)) => Some(a),
            _ => v.items(),
        },
    }
}

/// The models that a response lists.
pub open spec fn listing(v: JsonV) -> Seq<ModelInfoV> {
    match entries_in(v) {
        Some(items) => models_in(items),
        None => Seq::empty(),
    }
}

fn model_info(m: &Json) -> (r: Option<ModelInfo>)
    ensures
        match r {
            Some(i) => info_in(m@) == Some(i@),
            None => info_in(m@) is None,
        },
{
    let name: Option<String> = match m.get_str("id") {
        Some(s) => Some(s),
        None => match m.get_str("model") {
            Some(s) => Some(s),
            None => match m.get_str("model_name") {
                Some(s) => Some(s),
                None => m.get_str("name"),
            },
        },
    };
    match name {
        Some(n) => {
            let id = trim(n.as_str());
            proof {
                trim_is_empty_iff_blank(n@);
            }
            if id.as_str().unicode_len() == 0 {
                return None;
            }
            let (reasoning, reasoning_efforts) = reasoning_of(m);
            Some(ModelInfo { id, context_window: window_of(m), reasoning, reasoning_efforts })
        },
        None => None,
    }
}

fn entries<'a>(v: &'a Json) -> (r: Option<&'a Vec<Json>>)
    ensures
        match r {
            Some(a) => entries_in(v@) == Some(jsons(a@)),
            None => entries_in(v@) is None,
        },
{
    match v.get("data") {
        Some(d) => match d.as_array() {
            Some(a) => {
                return Some(a);
            },
            None => {},
        },
        None => {},
    }
    match v.get("models") {
        Some(d) => match d.as_array() {
            Some(a) => {
                return Some(a);
            },
            None => {},
        },
        None => {},
    }
    v.as_array()
}

/// Reads the models out of a `/models` response, with all that the provider says of each.
pub fn parse_models(v: &Json) -> (r: Vec<ModelInfo>)
    ensures
        models_view(r@) == listing(v@),
{
    let mut out: Vec<ModelInfo> = Vec::new();
    match entries(v) {
        Some(items) => {
            let ghost t = jsons(items@);
            let mut i: usize = 0;
            assert(models_view(out@) =~= models_in(t.take(0)));
            while i < items.len()
                invariant
                    i <= items.len(),
                    t == jsons(items@),
                    models_view(out@) == models_in(t.take(i as int)),
                decreases items.len() - i,
            {
                assert(t.take(i + 1).drop_last() =~= t.take(i as int));
                let ghost p = models_view(out@);
                match model_info(&items[i]) {
                    Some(info) => {
                        let mut k: usize = 0;
                        let mut seen: bool = false;
                        while k < out.len()
                            invariant
                                k <= out.len(),
                                p == models_view(out@),
                                seen == (exists|q: int| 0 <= q < k && (#[trigger] p[q]).id == info.id@),
                            decreases out.len() - k,
                        {
                            assert(p[k as int] == out@[k as int]@);
                            if same(out[k].id.as_str(), info.id.as_str()) {
                                assert(p[k as int].id == info.id@);
                                seen = true;
                            }
                            k += 1;
                        }
                        assert(seen == listed(p, info@.id));
                        if !seen {
                            out.push(info);
                            assert(models_view(out@) =~= p.push(info@));
                        }
                    },
                    None => {},
                }
                i += 1;
            }
            assert(t.take(t.len() as int) =~= t);
        },
        None => {
            assert(models_view(out@) =~= Seq::empty());
        },
    }
    out
}

/// Where a provider lists its models.
pub fn models_url(base_url: &str) -> (r: String)
    ensures
        r@ == unslashed(base_url@) + "/models"@,
{
    let mut s = trim_end_slashes(base_url);
    s.append("/models");
    s
}

/// The error for a listing that the provider refuses, with the beginning of what it said.
pub fn listing_refused(status_line: &str, body: &str) -> (r: String)
    ensures
        r@ == "provider returned "@ + status_line@ + ": "@ + (if body@.len() > 300 {
            body@.take(300)
        } else {
            body@
        }),
{
    let v = chars_of(body);
    let n: usize = if v.len() > 300 {
        300
    } else {
        v.len()
    };
    let cut = string_of(&v, 0, n);
    assert(cut@ =~= if body@.len() > 300 { body@.take(300) } else { body@ });
    let mut s = "provider returned ".to_string();
    s.append(status_line);
    s.append(": ");
    s.append(cut.as_str());
    s
}

/// The models that a response lists; one that lists none is an error, so that a bad reply does
/// not empty a list that works.
pub fn listed_models(v: &Json) -> (r: Result<Vec<ModelInfo>, String>)
    ensures
        match r {
            Ok(models) => models@.len() > 0 && models_view(models@) == listing(v@),
            Err(e) => listing(v@).len() == 0 && e@ == "the provider listed no models"@,
        },
{
    let models = parse_models(v);
    assert(models_view(models@).len() == models@.len());
    if models.len() == 0 {
        Err("the provider listed no models".to_string())
    } else {
        Ok(models)
    }
}

/// A model id is listed once, and every model has an id.
pub proof fn model_ids_are_unique(items: Seq<JsonV>)
    ensures
        forall|i: int, j: int|
            0 <= i < j < models_in(items).len() ==> models_in(items)[i].id != models_in(items)[j].id,
        forall|i: int| 0 <= i < models_in(items).len() ==> (#[trigger] models_in(items)[i]).id.len() > 0,
    decreases items.len(),
{
    if items.len() > 0 {
        let p = models_in(items.drop_last());
        model_ids_are_unique(items.drop_last());
        match info_in(items.last()) {
            Some(info) => {
                match name_in(items.last()) {
                    Some(id) => {
                        trim_is_empty_iff_blank(id);
                    },
                    None => {},
                }
                if !listed(p, info.id) {
                    let r = models_in(items);
                    assert(r == p.push(info));
                    assert forall|i: int, j: int| 0 <= i < j < r.len() implies r[i].id != r[j].id by {
                        assert(r[i] == p[i]);
                    }
                }
            },
            None => {},
        }
    }
}

/// Whether levels are kept as levels are: normalised, and each once.
pub open spec fn proper_levels(e: Seq<Seq<char>>) -> bool {
    &&& forall|i: int, j: int| 0 <= i < j < e.len() ==> e[i] != e[j]
    &&& forall|i: int| 0 <= i < e.len() ==> !no_level(#[trigger] e[i])
}

proof fn effort_is_proper(e: Seq<Seq<char>>, raw: Seq<char>)
    requires
        proper_levels(e),
    ensures
        proper_levels(with_effort(e, raw)),
{
    let r = with_effort(e, raw);
    if r != e {
        assert forall|i: int, j: int| 0 <= i < j < r.len() implies r[i] != r[j] by {
            assert(e.contains(e[i]));
        }
    }
}

proof fn efforts_are_proper(e: Seq<Seq<char>>, items: Seq<JsonV>)
    requires
        proper_levels(e),
    ensures
        proper_levels(with_efforts(e, items)),
    decreases items.len(),
{
    if items.len() > 0 {
        efforts_are_proper(e, items.drop_last());
        match items.last() {
            JsonV::Text(s) => effort_is_proper(with_efforts(e, items.drop_last()), s),
            _ => {},
        }
    }
}

proof fn listed_are_proper(e: Seq<Seq<char>>, fields: Seq<(Seq<char>, JsonV)>)
    requires
        proper_levels(e),
    ensures
        proper_levels(with_listed(e, fields)),
    decreases fields.len(),
{
    if fields.len() > 0 {
        listed_are_proper(e, fields.drop_last());
        match fields.last().1 {
            JsonV::Array(a) => efforts_are_proper(with_listed(e, fields.drop_last()), a),
            _ => {},
        }
    }
}

proof fn hints_are_proper(h: HintsV, found: Seq<JsonV>)
    requires
        proper_levels(h.efforts),
    ensures
        proper_levels(with_hints(h, found).efforts),
    decreases found.len(),
{
    if found.len() > 0 {
        let p = with_hints(h, found.drop_last());
        hints_are_proper(h, found.drop_last());
        match found.last() {
            JsonV::Array(a) => efforts_are_proper(p.efforts, a),
            JsonV::Object(f) => listed_are_proper(p.efforts, f),
            JsonV::Text(s) => effort_is_proper(p.efforts, s),
            _ => {},
        }
    }
}

proof fn params_keep_levels(h: HintsV, found: Seq<JsonV>)
    ensures
        with_all_params(h, found).efforts == h.efforts,
    decreases found.len(),
{
    if found.len() > 0 {
        params_keep_levels(h, found.drop_last());
    }
}

/// The levels of a model are real levels, each once, and a model that is not said to reason
/// offers none.
pub proof fn levels_are_normalised(m: JsonV)
    ensures
        proper_levels(levels_of(hints_in(m))),
        verdict_of(hints_in(m)) != Some(true) ==> levels_of(hints_in(m)).len() == 0,
{
    let h0 = HintsV { yes: false, no: false, efforts: Seq::<Seq<char>>::empty() };
    let found = collected(m, reasoning_keys(), SEARCH_DEPTH as nat);
    hints_are_proper(h0, found);
    params_keep_levels(
        with_hints(h0, found),
        collected(m, param_list_keys(), SEARCH_DEPTH as nat),
    );
}

// ---- what a listing is read for ----------------------------------------------------------------------

/// Whatever an object files under one of the keys is found.
pub proof fn what_is_filed_is_found(m: JsonV, keys: Seq<Seq<char>>, depth: nat, k: int)
    requires
        0 <= k < keys.len(),
        m.field(keys[k]) is Some,
    ensures
        collected(m, keys, depth).contains(m.field(keys[k])->Some_0),
{
    let fields = m->Object_0;
    values_hold(fields, keys, k);
    let a = values_of(fields, keys);
    let v = m.field(keys[k])->Some_0;
    let i = choose|i: int| 0 <= i < a.len() && a[i] == v;
    assert(collected(m, keys, depth)[i] == v);
}

proof fn values_hold(fields: Seq<(Seq<char>, JsonV)>, keys: Seq<Seq<char>>, k: int)
    requires
        0 <= k < keys.len(),
        lookup(fields, keys[k]) is Some,
    ensures
        values_of(fields, keys).contains(lookup(fields, keys[k])->Some_0),
    decreases keys.len(),
{
    let r = values_of(fields, keys);
    let v = lookup(fields, keys[k])->Some_0;
    if k == keys.len() - 1 {
        assert(r[r.len() - 1] == v);
    } else {
        let d = keys.drop_last();
        values_hold(fields, d, k);
        let p = values_of(fields, d);
        let i = choose|i: int| 0 <= i < p.len() && p[i] == v;
        assert(r[i] == v);
    }
}

/// Whatever is found in a value is found in the object that holds that value, as long as it is not
/// too deep.
pub proof fn what_is_nested_is_found(
    fields: Seq<(Seq<char>, JsonV)>,
    keys: Seq<Seq<char>>,
    depth: nat,
    i: int,
    v: JsonV,
)
    requires
        0 <= i < fields.len(),
        collected(fields[i].1, keys, depth).contains(v),
    ensures
        collected(JsonV::Object(fields), keys, depth + 1).contains(v),
{
    nested_values_hold(fields, keys, depth, i, v);
    let a = values_of(fields, keys);
    let b = collected_below(fields, keys, depth);
    let k = choose|k: int| 0 <= k < b.len() && b[k] == v;
    assert(collected(JsonV::Object(fields), keys, depth + 1) == a + b);
    assert((a + b)[a.len() + k] == v);
}

proof fn nested_values_hold(
    fields: Seq<(Seq<char>, JsonV)>,
    keys: Seq<Seq<char>>,
    depth: nat,
    i: int,
    v: JsonV,
)
    requires
        0 <= i < fields.len(),
        collected(fields[i].1, keys, depth).contains(v),
    ensures
        collected_below(fields, keys, depth).contains(v),
    decreases fields.len(),
{
    let d = fields.drop_last();
    let a = collected_below(d, keys, depth);
    let b = collected(fields.last().1, keys, depth);
    if i == fields.len() - 1 {
        let k = choose|k: int| 0 <= k < b.len() && b[k] == v;
        assert((a + b)[a.len() + k] == v);
    } else {
        nested_values_hold(d, keys, depth, i, v);
        let k = choose|k: int| 0 <= k < a.len() && a[k] == v;
        assert((a + b)[k] == v);
    }
}

/// What a value holds at the end of a path: at each step, the field with that place.
pub open spec fn held_at(m: JsonV, path: Seq<int>) -> Option<JsonV>
    decreases path.len(),
{
    if path.len() == 0 {
        Some(m)
    } else {
        match m {
            JsonV::Object(f) => if 0 <= path[0] < f.len() {
                held_at(f[path[0]].1, path.skip(1))
            } else {
                None
            },
            _ => None,
        }
    }
}

/// Whether a value is filed under a key in the object at the end of a path.
pub open spec fn told_at(m: JsonV, path: Seq<int>, key: Seq<char>, v: JsonV) -> bool {
    held_at(m, path) matches Some(o) && o.field(key) == Some(v)
}

proof fn what_is_told_is_found(
    m: JsonV,
    path: Seq<int>,
    keys: Seq<Seq<char>>,
    k: int,
    v: JsonV,
    depth: nat,
)
    requires
        0 <= k < keys.len(),
        told_at(m, path, keys[k], v),
        path.len() <= depth,
    ensures
        collected(m, keys, depth).contains(v),
    decreases depth,
{
    if path.len() == 0 {
        what_is_filed_is_found(m, keys, depth, k);
    } else {
        let f = m->Object_0;
        let i = path[0];
        what_is_told_is_found(f[i].1, path.skip(1), keys, k, v, (depth - 1) as nat);
        what_is_nested_is_found(f, keys, (depth - 1) as nat, i, v);
    }
}

/// A window that a listing names, under any of the names that providers have for it and up to three
/// objects down, is taken: the window is one, and no larger than that.
pub proof fn a_named_window_is_taken(m: JsonV, path: Seq<int>, key: Seq<char>, n: u64)
    requires
        key == "context_window"@ || key == "context_length"@ || key == "max_context_window_tokens"@
            || key == "max_context_length"@ || key == "max_model_len"@ || key
            == "max_input_tokens"@,
        path.len() <= 3,
        told_at(m, path, key, JsonV::Unsigned(n)),
        n > 0,
    ensures
        window_in(m) matches Some(w) && 0 < w <= n,
{
    let keys = window_keys();
    let k: int = if key == keys[0] {
        0
    } else if key == keys[1] {
        1
    } else if key == keys[2] {
        2
    } else if key == keys[3] {
        3
    } else if key == keys[4] {
        4
    } else {
        5
    };
    assert(keys[k] == key);
    what_is_told_is_found(m, path, keys, k, JsonV::Unsigned(n), 3);
    let found = collected(m, keys, 3);
    window_is_the_smallest_named(found);
    let i = choose|i: int| 0 <= i < found.len() && found[i] == JsonV::Unsigned(n);
    assert(window_value(found[i]) == Some(n));
}

proof fn hints_only_grow(h: HintsV, found: Seq<JsonV>, e: Seq<char>)
    ensures
        h.yes ==> with_hints(h, found).yes,
        h.efforts.contains(e) ==> with_hints(h, found).efforts.contains(e),
    decreases found.len(),
{
    if found.len() > 0 {
        let d = found.drop_last();
        hints_only_grow(h, d, e);
        a_hint_only_adds(with_hints(h, d), found.last(), e);
    }
}

proof fn an_effort_only_adds(efforts: Seq<Seq<char>>, raw: Seq<char>, e: Seq<char>)
    ensures
        efforts.contains(e) ==> with_effort(efforts, raw).contains(e),
        !no_level(level(raw)) ==> with_effort(efforts, raw).contains(level(raw)),
{
    let r = with_effort(efforts, raw);
    if efforts.contains(e) {
        let k = choose|k: int| 0 <= k < efforts.len() && efforts[k] == e;
        assert(r[k] == e);
    }
    if !no_level(level(raw)) && !efforts.contains(level(raw)) {
        assert(r[r.len() - 1] == level(raw));
    }
}

proof fn efforts_only_add(efforts: Seq<Seq<char>>, items: Seq<JsonV>, e: Seq<char>)
    ensures
        efforts.contains(e) ==> with_efforts(efforts, items).contains(e),
        forall|i: int|
            0 <= i < items.len() ==> ((#[trigger] items[i]) matches JsonV::Text(s) ==> level(s) == e
                ==> !no_level(e) ==> with_efforts(efforts, items).contains(e)),
    decreases items.len(),
{
    if items.len() > 0 {
        let d = items.drop_last();
        efforts_only_add(efforts, d, e);
        let p = with_efforts(efforts, d);
        match items.last() {
            JsonV::Text(s) => {
                an_effort_only_adds(p, s, e);
            },
            _ => {},
        }
        assert forall|i: int| 0 <= i < items.len() implies ((#[trigger] items[i]) matches JsonV::Text(s)
            ==> level(s) == e ==> !no_level(e) ==> with_efforts(efforts, items).contains(e)) by {
            if i < d.len() {
                assert(d[i] == items[i]);
            }
        }
    }
}

proof fn listed_only_add(efforts: Seq<Seq<char>>, fields: Seq<(Seq<char>, JsonV)>, e: Seq<char>)
    ensures
        efforts.contains(e) ==> with_listed(efforts, fields).contains(e),
        forall|k: int, i: int|
            0 <= k < fields.len() && fields[k].1 is Array && 0 <= i < fields[k].1->Array_0.len() && (
            #[trigger] fields[k].1->Array_0[i] matches JsonV::Text(s) && level(s) == e) && !no_level(e)
                ==> with_listed(efforts, fields).contains(e),
    decreases fields.len(),
{
    if fields.len() > 0 {
        let d = fields.drop_last();
        listed_only_add(efforts, d, e);
        let p = with_listed(efforts, d);
        match fields.last().1 {
            JsonV::Array(a) => {
                efforts_only_add(p, a, e);
            },
            _ => {},
        }
        assert forall|k: int, i: int|
            0 <= k < fields.len() && fields[k].1 is Array && 0 <= i < fields[k].1->Array_0.len() && (
            #[trigger] fields[k].1->Array_0[i] matches JsonV::Text(s) && level(s) == e) && !no_level(
                e,
            ) implies with_listed(efforts, fields).contains(e) by {
            if k < d.len() {
                assert(d[k] == fields[k]);
                assert(d[k].1->Array_0[i] == fields[k].1->Array_0[i]);
            }
        }
    }
}

proof fn a_hint_only_adds(h: HintsV, v: JsonV, e: Seq<char>)
    ensures
        h.yes ==> with_hint(h, v).yes,
        h.efforts.contains(e) ==> with_hint(h, v).efforts.contains(e),
{
    match v {
        JsonV::Array(a) => {
            efforts_only_add(h.efforts, a, e);
        },
        JsonV::Object(f) => {
            listed_only_add(h.efforts, f, e);
        },
        JsonV::Text(s) => {
            an_effort_only_adds(h.efforts, s, e);
        },
        _ => {},
    }
}

proof fn what_one_hint_says_counts(h: HintsV, found: Seq<JsonV>, i: int, e: Seq<char>)
    requires
        0 <= i < found.len(),
    ensures
        (forall|g: HintsV| (#[trigger] with_hint(g, found[i])).yes) ==> with_hints(h, found).yes,
        (forall|g: HintsV| (#[trigger] with_hint(g, found[i])).efforts.contains(e)) ==> with_hints(
            h,
            found,
        ).efforts.contains(e),
    decreases found.len(),
{
    let d = found.drop_last();
    if i < d.len() {
        assert(d[i] == found[i]);
        what_one_hint_says_counts(h, d, i, e);
        a_hint_only_adds(with_hints(h, d), found.last(), e);
    } else {
        assert(with_hints(h, found) == with_hint(with_hints(h, d), found[i]));
    }
}

proof fn params_never_take_back(h: HintsV, found: Seq<JsonV>)
    ensures
        h.yes ==> with_all_params(h, found).yes,
        with_all_params(h, found).efforts == h.efforts,
    decreases found.len(),
{
    if found.len() > 0 {
        params_never_take_back(h, found.drop_last());
    }
}

/// A listing that says of a model that it reasons is believed, under any of the names that providers
/// have for it and up to three objects down: by a flag, a list of levels, a block, or a word; and
/// every level that a list or a word names is on offer, in small letters and without space around it.
pub proof fn a_model_that_reasons_is_known_to(
    m: JsonV,
    path: Seq<int>,
    key: Seq<char>,
    v: JsonV,
    s: Seq<char>,
)
    requires
        key == "reasoning"@ || key == "reasoning_effort"@ || key == "supports_reasoning"@ || key
            == "supports_reasoning_effort"@ || key == "include_reasoning"@ || key == "thinking"@ || key
            == "supported_reasoning_efforts"@ || key == "reasoning_efforts"@,
        path.len() <= 3,
        told_at(m, path, key, v),
    ensures
        v == JsonV::Bool(true) || v is Array || v is Object ==> verdict_of(hints_in(m)) == Some(true),
        v == JsonV::Text(s) && !says_no(s) && level(s).len() > 0 ==> verdict_of(hints_in(m)) == Some(
            true,
        ),
        v == JsonV::Text(s) && !says_no(s) && !no_level(lower_of(trim_of(s))) ==> levels_of(
            hints_in(m),
        ).contains(lower_of(trim_of(s))),
        v matches JsonV::Array(a) ==> a.contains(JsonV::Text(s)) ==> !no_level(lower_of(trim_of(s)))
            ==> levels_of(hints_in(m)).contains(lower_of(trim_of(s))),
        v matches JsonV::Object(f) ==> (exists|k: int|
            0 <= k < f.len() && (#[trigger] f[k]).1 is Array && f[k].1->Array_0.contains(
                JsonV::Text(s),
            )) ==> !no_level(lower_of(trim_of(s))) ==> levels_of(hints_in(m)).contains(
            lower_of(trim_of(s)),
        ),
{
    let keys = reasoning_keys();
    let k: int = if key == keys[0] {
        0
    } else if key == keys[1] {
        1
    } else if key == keys[2] {
        2
    } else if key == keys[3] {
        3
    } else if key == keys[4] {
        4
    } else if key == keys[5] {
        5
    } else if key == keys[6] {
        6
    } else {
        7
    };
    assert(keys[k] == key);
    what_is_told_is_found(m, path, keys, k, v, 3);
    let found = collected(m, keys, 3);
    let i = choose|i: int| 0 <= i < found.len() && found[i] == v;
    let none = HintsV { yes: false, no: false, efforts: Seq::empty() };
    let e = level(s);
    let h = with_hints(none, found);
    params_never_take_back(h, collected(m, param_list_keys(), 3));
    what_one_hint_says_counts(none, found, i, e);
    match v {
        JsonV::Array(a) => {
            if a.contains(JsonV::Text(s)) && !no_level(e) {
                let j = choose|j: int| 0 <= j < a.len() && a[j] == JsonV::Text(s);
                assert forall|g: HintsV| (#[trigger] with_hint(g, v)).efforts.contains(e) by {
                    efforts_only_add(g.efforts, a, e);
                    assert(a[j] is Text);
                }
            }
        },
        JsonV::Object(f) => {
            if exists|k: int|
                0 <= k < f.len() && (#[trigger] f[k]).1 is Array && f[k].1->Array_0.contains(
                    JsonV::Text(s),
                ) {
                let k = choose|k: int|
                    0 <= k < f.len() && (#[trigger] f[k]).1 is Array && f[k].1->Array_0.contains(
                        JsonV::Text(s),
                    );
                let a = f[k].1->Array_0;
                let j = choose|j: int| 0 <= j < a.len() && a[j] == JsonV::Text(s);
                if !no_level(e) {
                    assert forall|g: HintsV| (#[trigger] with_hint(g, v)).efforts.contains(e) by {
                        listed_only_add(g.efforts, f, e);
                        assert(f[k].1->Array_0[j] is Text);
                    }
                }
            }
        },
        JsonV::Text(t) => {
            if t == s && !says_no(s) && !no_level(e) {
                assert forall|g: HintsV| (#[trigger] with_hint(g, v)).efforts.contains(e) by {
                    an_effort_only_adds(g.efforts, s, e);
                }
            }
        },
        _ => {},
    }
}

/// Every entry of a listing that names a model is listed, under its first name without space around
/// it, and by the first entry with that name: with the window and the levels that this entry says.
pub proof fn every_named_model_is_listed(items: Seq<JsonV>, i: int, id: Seq<char>)
    requires
        0 <= i < items.len(),
        !blank(id),
        items[i].field("id"@) == Some(JsonV::Text(id)) || (!(items[i].field("id"@) matches Some(JsonV::Text(_)))
            && (items[i].field("model"@) == Some(JsonV::Text(id)) || (!(items[i].field("model"@) matches Some(
            JsonV::Text(_),
        )) && (items[i].field("model_name"@) == Some(JsonV::Text(id)) || (!(items[i].field(
            "model_name"@,
        ) matches Some(JsonV::Text(_))) && items[i].field("name"@) == Some(JsonV::Text(id))))))),
    ensures
        listed(models_in(items), trim_of(id)),
        (forall|j: int|
            0 <= j < i ==> !(info_in(#[trigger] items[j]) matches Some(x) && x.id == trim_of(id)))
            ==> models_in(items).contains(
            ModelInfoV {
                id: trim_of(id),
                context_window: window_in(items[i]),
                reasoning: verdict_of(hints_in(items[i])),
                reasoning_efforts: levels_of(hints_in(items[i])),
            },
        ),
    decreases items.len(),
{
    let d = items.drop_last();
    let p = models_in(d);
    let r = models_in(items);
    let x = ModelInfoV {
        id: trim_of(id),
        context_window: window_in(items[i]),
        reasoning: verdict_of(hints_in(items[i])),
        reasoning_efforts: levels_of(hints_in(items[i])),
    };
    assert(info_in(items[i]) == Some(x));
    if i < d.len() {
        assert(d[i] == items[i]);
        every_named_model_is_listed(d, i, id);
        let k = choose|k: int| 0 <= k < p.len() && (#[trigger] p[k]).id == trim_of(id);
        assert(r[k].id == trim_of(id));
        if forall|j: int|
            0 <= j < i ==> !(info_in(#[trigger] items[j]) matches Some(x) && x.id == trim_of(id)) {
            assert forall|j: int| 0 <= j < i implies !(info_in(#[trigger] d[j]) matches Some(x) && x.id
                == trim_of(id)) by {
                assert(d[j] == items[j]);
            }
            let n = choose|n: int| 0 <= n < p.len() && p[n] == x;
            assert(r[n] == x);
        }
    } else {
        if listed(p, x.id) {
            let k = choose|k: int| 0 <= k < p.len() && (#[trigger] p[k]).id == x.id;
            assert(r[k].id == x.id);
            listed_was_named(d, x.id);
            let j = choose|j: int| 0 <= j < d.len() && (info_in(#[trigger] d[j]) matches Some(y) && y.id
                == x.id);
            assert(d[j] == items[j]);
        } else {
            assert(r[r.len() - 1] == x);
        }
    }
}

proof fn listed_was_named(items: Seq<JsonV>, id: Seq<char>)
    requires
        listed(models_in(items), id),
    ensures
        exists|j: int|
            0 <= j < items.len() && (info_in(#[trigger] items[j]) matches Some(y) && y.id == id),
    decreases items.len(),
{
    let r = models_in(items);
    let k = choose|k: int| 0 <= k < r.len() && (#[trigger] r[k]).id == id;
    if items.len() > 0 {
        let d = items.drop_last();
        let p = models_in(d);
        if k < p.len() {
            assert(p[k].id == id);
            listed_was_named(d, id);
            let j = choose|j: int| 0 <= j < d.len() && (info_in(#[trigger] d[j]) matches Some(y) && y.id
                == id);
            assert(items[j] == d[j]);
        } else {
            assert(info_in(items[items.len() - 1]) == Some(r[k]));
        }
    }
}

/// A listing is read wherever the provider puts it: under `data`, under `models`, or as it is.
pub proof fn a_listing_is_read_wherever_it_is(v: JsonV, items: Seq<JsonV>)
    ensures
        v.field("data"@) == Some(JsonV::Array(items)) ==> listing(v) == models_in(items),
        !(v.field("data"@) matches Some(JsonV::Array(_))) && v.field("models"@) == Some(
            JsonV::Array(items),
        ) ==> listing(v) == models_in(items),
        v == JsonV::Array(items) ==> listing(v) == models_in(items),
{
}

/// A list of accepted request fields says that a model reasons where it names reasoning, whatever
/// else is said.
pub proof fn an_accepted_field_says_that_it_reasons(m: JsonV, path: Seq<int>, key: Seq<char>, list: Seq<JsonV>, i: int, s: Seq<char>)
    requires
        key == "supported_parameters"@ || key == "supported_params"@,
        path.len() <= 3,
        told_at(m, path, key, JsonV::Array(list)),
        0 <= i < list.len(),
        list[i] == JsonV::Text(s),
        lower_of(s) == "reasoning"@ || lower_of(s) == "reasoning_effort"@ || lower_of(s)
            == "include_reasoning"@ || lower_of(s) == "thinking"@,
    ensures
        verdict_of(hints_in(m)) == Some(true),
{
    let keys = param_list_keys();
    let k: int = if key == keys[0] {
        0
    } else {
        1
    };
    assert(keys[k] == key);
    let v = JsonV::Array(list);
    what_is_told_is_found(m, path, keys, k, v, 3);
    let found = collected(m, keys, 3);
    let n = choose|n: int| 0 <= n < found.len() && found[n] == v;
    assert(about_reasoning(found[n]->Array_0[i]));
    let none = HintsV { yes: false, no: false, efforts: Seq::empty() };
    one_list_suffices(with_hints(none, collected(m, reasoning_keys(), 3)), found, n);
}

proof fn one_list_suffices(h: HintsV, found: Seq<JsonV>, n: int)
    requires
        0 <= n < found.len(),
        found[n] is Array,
        exists|i: int|
            0 <= i < found[n]->Array_0.len() && about_reasoning(#[trigger] found[n]->Array_0[i]),
    ensures
        with_all_params(h, found).yes,
    decreases found.len(),
{
    let d = found.drop_last();
    if n < d.len() {
        assert(d[n] == found[n]);
        one_list_suffices(h, d, n);
    }
}

/// Where nothing is said of reasoning, nothing is known of it: no listing is taken to say no by
/// saying nothing.
pub proof fn silence_says_nothing(m: JsonV)
    requires
        collected(m, reasoning_keys(), 3).len() == 0,
        collected(m, param_list_keys(), 3).len() == 0,
    ensures
        verdict_of(hints_in(m)) is None,
        levels_of(hints_in(m)).len() == 0,
{
}

/// A list of accepted request fields that does not name reasoning says that a model takes no level,
/// where nothing else is said of it.
pub proof fn a_list_without_reasoning_says_no(m: JsonV, list: Seq<JsonV>)
    requires
        collected(m, reasoning_keys(), 3).len() == 0,
        collected(m, param_list_keys(), 3) == seq![JsonV::Array(list)],
        list.len() > 0,
        forall|i: int| 0 <= i < list.len() ==> !about_reasoning(#[trigger] list[i]),
    ensures
        verdict_of(hints_in(m)) == Some(false),
        levels_of(hints_in(m)).len() == 0,
{
    let found = collected(m, param_list_keys(), 3);
    assert(found.drop_last() =~= Seq::empty());
    assert(found.last() == JsonV::Array(list));
    reveal_with_fuel(with_all_params, 2);
}

/// Nothing is found that was not told: what is found stands under one of the keys, in the object or
/// in one that it holds, not too far down.
pub proof fn what_is_found_was_told(m: JsonV, keys: Seq<Seq<char>>, depth: nat, v: JsonV) -> (r: (
    Seq<int>,
    int,
))
    requires
        collected(m, keys, depth).contains(v),
    ensures
        r.0.len() <= depth,
        0 <= r.1 < keys.len(),
        told_at(m, r.0, keys[r.1], v),
    decreases depth, 0nat,
{
    let f = m->Object_0;
    let a = values_of(f, keys);
    if a.contains(v) {
        let k = value_was_filed(f, keys, v);
        (Seq::empty(), k)
    } else {
        let c = collected(m, keys, depth);
        let n = choose|n: int| 0 <= n < c.len() && c[n] == v;
        if n < a.len() {
            assert(a[n] == v);
        }
        assert(depth > 0);
        let b = collected_below(f, keys, (depth - 1) as nat);
        assert(b[n - a.len()] == v);
        let (path, k) = nested_was_told(f, keys, (depth - 1) as nat, v);
        (path, k)
    }
}

proof fn nested_was_told(
    fields: Seq<(Seq<char>, JsonV)>,
    keys: Seq<Seq<char>>,
    depth: nat,
    v: JsonV,
) -> (r: (Seq<int>, int))
    requires
        collected_below(fields, keys, depth).contains(v),
    ensures
        r.0.len() <= depth + 1,
        0 <= r.1 < keys.len(),
        told_at(JsonV::Object(fields), r.0, keys[r.1], v),
        r.0.len() > 0,
    decreases depth, fields.len() + 1,
{
    let d = fields.drop_last();
    let a = collected_below(d, keys, depth);
    let b = collected(fields.last().1, keys, depth);
    if b.contains(v) {
        let (p, k) = what_is_found_was_told(fields.last().1, keys, depth, v);
        let path = seq![fields.len() - 1] + p;
        assert(path.skip(1) =~= p);
        assert(path[0] == fields.len() - 1);
        (path, k)
    } else {
        let c = a + b;
        let n = choose|n: int| 0 <= n < c.len() && c[n] == v;
        if n >= a.len() {
            assert(b[n - a.len()] == v);
        }
        assert(a[n] == v);
        let (path, k) = nested_was_told(d, keys, depth, v);
        assert(0 <= path[0] < d.len());
        assert(d[path[0]] == fields[path[0]]);
        (path, k)
    }
}

proof fn value_was_filed(fields: Seq<(Seq<char>, JsonV)>, keys: Seq<Seq<char>>, v: JsonV) -> (k: int)
    requires
        values_of(fields, keys).contains(v),
    ensures
        0 <= k < keys.len(),
        lookup(fields, keys[k]) == Some(v),
    decreases keys.len(),
{
    let r = values_of(fields, keys);
    let n = choose|n: int| 0 <= n < r.len() && r[n] == v;
    let d = keys.drop_last();
    let p = values_of(fields, d);
    if n < p.len() {
        assert(p[n] == v);
        value_was_filed(fields, d, v)
    } else {
        keys.len() - 1
    }
}

/// A window is never made up: it is a number that the listing gives under one of the names that
/// providers have for it.
pub proof fn a_window_is_never_made_up(m: JsonV)
    requires
        window_in(m) is Some,
    ensures
        exists|path: Seq<int>, key: Seq<char>, v: JsonV|
            path.len() <= 3 && #[trigger] told_at(m, path, key, v) && (key == "context_window"@ || key
                == "context_length"@ || key == "max_context_window_tokens"@ || key
                == "max_context_length"@ || key == "max_model_len"@ || key == "max_input_tokens"@) && (
            v == JsonV::Unsigned(window_in(m)->Some_0) || (v matches JsonV::Fraction { text, whole }
                && whole == window_in(m)->Some_0)),
{
    let keys = window_keys();
    let found = collected(m, keys, 3);
    window_is_the_smallest_named(found);
    let w = window_in(m)->Some_0;
    let i = choose|i: int| 0 <= i < found.len() && window_value(#[trigger] found[i]) == Some(w);
    let (path, k) = what_is_found_was_told(m, keys, 3, found[i]);
    assert(told_at(m, path, keys[k], found[i]));
    assert(keys[0] == "context_window"@ && keys[1] == "context_length"@ && keys[2]
        == "max_context_window_tokens"@ && keys[3] == "max_context_length"@ && keys[4]
        == "max_model_len"@ && keys[5] == "max_input_tokens"@);
}

/// A model is never taken to reason where nothing says so: some value under a reasoning key, or some
/// list of accepted fields, does.
pub proof fn reasoning_is_never_made_up(m: JsonV)
    requires
        verdict_of(hints_in(m)) is Some,
    ensures
        exists|path: Seq<int>, key: Seq<char>, v: JsonV|
            path.len() <= 3 && #[trigger] told_at(m, path, key, v) && (reasoning_keys().contains(key)
                || param_list_keys().contains(key)),
{
    let a = collected(m, reasoning_keys(), 3);
    let b = collected(m, param_list_keys(), 3);
    if a.len() == 0 && b.len() == 0 {
        silence_says_nothing(m);
    } else if a.len() > 0 {
        assert(a.contains(a[0]));
        let (path, k) = what_is_found_was_told(m, reasoning_keys(), 3, a[0]);
        assert(reasoning_keys().contains(reasoning_keys()[k]));
        assert(told_at(m, path, reasoning_keys()[k], a[0]));
    } else {
        assert(b.contains(b[0]));
        let (path, k) = what_is_found_was_told(m, param_list_keys(), 3, b[0]);
        assert(param_list_keys().contains(param_list_keys()[k]));
        assert(told_at(m, path, param_list_keys()[k], b[0]));
    }
}

/// What is no level, and what says no: nothing, the names of the flag itself and of its values; and
/// the words for off.
pub proof fn what_is_no_level(s: Seq<char>)
    ensures
        ({
            let t = lower_of(trim_of(s));
            &&& no_level(level(s)) <==> t.len() == 0 || t == "true"@ || t == "false"@ || t
                == "reasoning"@ || t == "reasoning_effort"@
            &&& says_no(s) <==> t == "false"@ || t == "none"@ || t == "off"@
        }),
{
}

} // verus!
