//! JSON values, and the two calls that turn text into them and back.

use vstd::prelude::*;

use crate::text::{precedes, same};

verus! {

/// A JSON value. The fields of an object stand in the order in which they are walked.
#[derive(Debug, PartialEq, Eq)]
pub enum Json {
    Null,
    Bool(bool),
    Unsigned(u64),
    Negative(i64),
    /// A number that is not an integer of 64 bits: as it is written, and cut down to a `u64`.
    Fraction { text: String, whole: u64 },
    Text(String),
    Array(Vec<Json>),
    Object(Vec<(String, Json)>),
}

/// The model of a [`Json`].
pub enum JsonV {
    Null,
    Bool(bool),
    Unsigned(u64),
    Negative(i64),
    Fraction { text: Seq<char>, whole: u64 },
    Text(Seq<char>),
    Array(Seq<JsonV>),
    Object(Seq<(Seq<char>, JsonV)>),
}

pub open spec fn json_view(j: Json) -> JsonV
    decreases j,
{
    match j {
        Json::Null => JsonV::Null,
        Json::Bool(b) => JsonV::Bool(b),
        Json::Unsigned(n) => JsonV::Unsigned(n),
        Json::Negative(n) => JsonV::Negative(n),
        Json::Fraction { text, whole } => JsonV::Fraction { text: text@, whole },
        Json::Text(s) => JsonV::Text(s@),
        Json::Array(items) => JsonV::Array(
            Seq::new(
                items@.len(),
                |i: int|
                    if 0 <= i < items.len() {
                        json_view(items[i])
                    } else {
                        JsonV::Null
                    },
            ),
        ),
        Json::Object(fields) => JsonV::Object(
            Seq::new(
                fields@.len(),
                |i: int|
                    if 0 <= i < fields.len() {
                        (fields[i].0@, json_view(fields[i].1))
                    } else {
                        (Seq::empty(), JsonV::Null)
                    },
            ),
        ),
    }
}

impl View for Json {
    type V = JsonV;

    open spec fn view(&self) -> JsonV {
        json_view(*self)
    }
}

/// The models of a list of values.
pub open spec fn jsons(v: Seq<Json>) -> Seq<JsonV> {
    Seq::new(v.len(), |i: int| v[i]@)
}

/// The models of a list of fields.
pub open spec fn fields_view(v: Seq<(String, Json)>) -> Seq<(Seq<char>, JsonV)> {
    Seq::new(v.len(), |i: int| (v[i].0@, v[i].1@))
}

pub open spec fn opt_json(o: Option<Json>) -> Option<JsonV> {
    match o {
        Some(j) => Some(j@),
        None => None,
    }
}

/// The view of an array or an object, over the views of what it holds.
pub proof fn view_of_parts(j: Json)
    ensures
        j matches Json::Array(items) ==> j@ == JsonV::Array(jsons(items@)),
        j matches Json::Object(fields) ==> j@ == JsonV::Object(fields_view(fields@)),
{
    match j {
        Json::Array(items) => {
            assert(j@->Array_0 =~= jsons(items@));
        },
        Json::Object(fields) => {
            assert(j@->Object_0 =~= fields_view(fields@));
        },
        _ => {},
    }
}

// ---- reading -------------------------------------------------------------------------

/// The value of the first field named `key`.
pub open spec fn lookup(fields: Seq<(Seq<char>, JsonV)>, key: Seq<char>) -> Option<JsonV>
    decreases fields.len(),
{
    if fields.len() == 0 {
        None
    } else if fields[0].0 == key {
        Some(fields[0].1)
    } else {
        lookup(fields.skip(1), key)
    }
}

impl JsonV {
    /// The value of a field of an object; nothing of any other value.
    pub open spec fn field(self, key: Seq<char>) -> Option<JsonV> {
        match self {
            JsonV::Object(fields) => lookup(fields, key),
            _ => None,
        }
    }

    pub open spec fn text(self) -> Option<Seq<char>> {
        match self {
            JsonV::Text(s) => Some(s),
            _ => None,
        }
    }

    pub open spec fn unsigned(self) -> Option<u64> {
        match self {
            JsonV::Unsigned(n) => Some(n),
            _ => None,
        }
    }

    pub open spec fn boolean(self) -> Option<bool> {
        match self {
            JsonV::Bool(b) => Some(b),
            _ => None,
        }
    }

    pub open spec fn items(self) -> Option<Seq<JsonV>> {
        match self {
            JsonV::Array(v) => Some(v),
            _ => None,
        }
    }

    /// The text of a field.
    pub open spec fn text_field(self, key: Seq<char>) -> Option<Seq<char>> {
        match self.field(key) {
            Some(v) => v.text(),
            None => None,
        }
    }

    /// The unsigned integer of a field.
    pub open spec fn unsigned_field(self, key: Seq<char>) -> Option<u64> {
        match self.field(key) {
            Some(v) => v.unsigned(),
            None => None,
        }
    }
}

impl Json {
    /// The value of a field of an object; nothing of any other value.
    pub fn get(&self, key: &str) -> (r: Option<&Json>)
        ensures
            match r {
                Some(v) => self@.field(key@) == Some(v@),
                None => self@.field(key@) is None,
            },
            r matches Some(v) ==> decreases_to!(*self => *v),
    {
        proof {
            view_of_parts(*self);
        }
        match self {
            Json::Object(fields) => {
                let ghost f = fields_view(fields@);
                let mut i: usize = 0;
                assert(f.skip(0) =~= f);
                while i < fields.len()
                    invariant
                        i <= fields.len(),
                        f == fields_view(fields@),
                        lookup(f, key@) == lookup(f.skip(i as int), key@),
                        self is Object,
                        *fields == self->Object_0,
                        self@ == JsonV::Object(f),
                    decreases fields.len() - i,
                {
                    if same(fields[i].0.as_str(), key) {
                        assert(decreases_to!(*self => *fields));
                        assert(decreases_to!(*fields => fields[i as int]));
                        assert(decreases_to!(fields[i as int] => fields[i as int].1));
                        return Some(&fields[i].1);
                    }
                    assert(f.skip(i as int).skip(1) =~= f.skip(i + 1));
                    i += 1;
                }
                None
            },
            _ => None,
        }
    }

    pub fn as_str(&self) -> (r: Option<&String>)
        ensures
            match r {
                Some(s) => self@.text() == Some(s@),
                None => self@.text() is None,
            },
    {
        match self {
            Json::Text(s) => Some(s),
            _ => None,
        }
    }

    pub fn as_u64(&self) -> (r: Option<u64>)
        ensures
            r == self@.unsigned(),
    {
        match self {
            Json::Unsigned(n) => Some(*n),
            _ => None,
        }
    }

    pub fn as_bool(&self) -> (r: Option<bool>)
        ensures
            r == self@.boolean(),
    {
        match self {
            Json::Bool(b) => Some(*b),
            _ => None,
        }
    }

    pub fn as_array(&self) -> (r: Option<&Vec<Json>>)
        ensures
            match r {
                Some(v) => self@.items() == Some(jsons(v@)) && *self == Json::Array(*v),
                None => self@.items() is None,
            },
    {
        proof {
            view_of_parts(*self);
        }
        match self {
            Json::Array(v) => Some(v),
            _ => None,
        }
    }

    /// The text of a field.
    pub fn get_str(&self, key: &str) -> (r: Option<String>)
        ensures
            crate::text::opt_text(r) == self@.text_field(key@),
    {
        match self.get(key) {
            Some(v) => match v.as_str() {
                Some(s) => Some(s.clone()),
                None => None,
            },
            None => None,
        }
    }

    /// The unsigned integer of a field.
    pub fn get_u64(&self, key: &str) -> (r: Option<u64>)
        ensures
            r == self@.unsigned_field(key@),
    {
        match self.get(key) {
            Some(v) => v.as_u64(),
            None => None,
        }
    }

    /// A copy of the value.
    pub fn copy(&self) -> (r: Json)
        ensures
            r@ == self@,
        decreases self,
    {
        proof {
            view_of_parts(*self);
        }
        match self {
            Json::Null => Json::Null,
            Json::Bool(b) => Json::Bool(*b),
            Json::Unsigned(n) => Json::Unsigned(*n),
            Json::Negative(n) => Json::Negative(*n),
            Json::Fraction { text, whole } => Json::Fraction { text: text.clone(), whole: *whole },
            Json::Text(s) => Json::Text(s.clone()),
            Json::Array(items) => {
                let mut out: Vec<Json> = Vec::new();
                let mut i: usize = 0;
                while i < items.len()
                    invariant
                        i <= items.len(),
                        self is Array,
                        *items == self->Array_0,
                        out@.len() == i,
                        forall|k: int| 0 <= k < i ==> (#[trigger] out@[k])@ == items@[k]@,
                    decreases items.len() - i,
                {
                    assert(decreases_to!(*self => *items));
                    assert(decreases_to!(*items => items[i as int]));
                    out.push(items[i].copy());
                    i += 1;
                }
                assert(jsons(out@) =~= jsons(items@));
                let r = Json::Array(out);
                proof {
                    view_of_parts(r);
                }
                r
            },
            Json::Object(fields) => {
                let mut out: Vec<(String, Json)> = Vec::new();
                let mut i: usize = 0;
                while i < fields.len()
                    invariant
                        i <= fields.len(),
                        self is Object,
                        *fields == self->Object_0,
                        out@.len() == i,
                        forall|k: int|
                            0 <= k < i ==> (#[trigger] out@[k]).0@ == fields@[k].0@ && out@[k].1@
                                == fields@[k].1@,
                    decreases fields.len() - i,
                {
                    assert(decreases_to!(*self => *fields));
                    assert(decreases_to!(*fields => fields[i as int]));
                    assert(decreases_to!(fields[i as int] => fields[i as int].1));
                    let k = fields[i].0.clone();
                    let v = fields[i].1.copy();
                    out.push((k, v));
                    i += 1;
                }
                assert(fields_view(out@) =~= fields_view(fields@));
                let r = Json::Object(out);
                proof {
                    view_of_parts(r);
                }
                r
            },
        }
    }
}

impl Clone for Json {
    fn clone(&self) -> (r: Json)
        ensures
            r@ == self@,
    {
        self.copy()
    }
}

/// The values of `list`, copied.
pub fn copy_jsons(list: &Vec<Json>) -> (r: Vec<Json>)
    ensures
        jsons(r@) == jsons(list@),
{
    let mut out: Vec<Json> = Vec::new();
    let mut i: usize = 0;
    while i < list.len()
        invariant
            i <= list.len(),
            out@.len() == i,
            forall|k: int| 0 <= k < i ==> (#[trigger] out@[k])@ == list@[k]@,
        decreases list.len() - i,
    {
        out.push(list[i].copy());
        i += 1;
    }
    assert(jsons(out@) =~= jsons(list@));
    out
}

// ---- building ------------------------------------------------------------------------

/// A text value.
pub fn text_value(s: &str) -> (r: Json)
    ensures
        r@ == JsonV::Text(s@),
{
    Json::Text(s.to_string())
}

/// An object with no field.
pub open spec fn obj() -> JsonV {
    JsonV::Object(Seq::empty())
}

impl JsonV {
    /// An object with one more field, placed last.
    pub open spec fn with(self, key: Seq<char>, value: JsonV) -> JsonV {
        JsonV::Object(self->Object_0.push((key, value)))
    }

    /// An object with one more text field, placed last.
    pub open spec fn with_text(self, key: Seq<char>, value: Seq<char>) -> JsonV {
        self.with(key, JsonV::Text(value))
    }
}

/// An object with no field.
pub fn object() -> (r: Json)
    ensures
        r@ == obj(),
{
    let r = Json::Object(Vec::new());
    proof {
        view_of_parts(r);
        assert(r@->Object_0 =~= Seq::empty());
    }
    r
}

/// An array of `items`.
pub fn array(items: Vec<Json>) -> (r: Json)
    ensures
        r@ == JsonV::Array(jsons(items@)),
{
    let r = Json::Array(items);
    proof {
        view_of_parts(r);
    }
    r
}

impl Json {
    /// The object with one more field, placed last.
    pub fn with(self, key: &str, value: Json) -> (r: Json)
        requires
            self@ is Object,
        ensures
            r@ == self@.with(key@, value@),
    {
        proof {
            view_of_parts(self);
        }
        match self {
            Json::Object(fields) => {
                let mut f = fields;
                let ghost before = fields_view(f@);
                f.push((key.to_string(), value));
                assert(fields_view(f@) =~= before.push((key@, value@)));
                let r = Json::Object(f);
                proof {
                    view_of_parts(r);
                }
                r
            },
            other => other,
        }
    }

    /// The object with one more text field, placed last.
    pub fn with_text(self, key: &str, value: &str) -> (r: Json)
        requires
            self@ is Object,
        ensures
            r@ == self@.with_text(key@, value@),
    {
        self.with(key, text_value(value))
    }
}

// ---- text to value and back -------------------------------------------------------------

#[verifier::external_type_specification]
#[verifier::external_body]
pub struct ExValue(serde_json::Value);

#[verifier::external_type_specification]
#[verifier::external_body]
pub struct ExError(serde_json::Error);

/// What a `serde_json::Value` holds, the fields of an object in the order in which they
/// are walked.
pub uninterp spec fn value_view(v: serde_json::Value) -> JsonV;

/// What `serde_json::from_str` reads from a text: the value, or nothing where the text is
/// no JSON.
pub uninterp spec fn json_parse(s: Seq<char>) -> Option<JsonV>;

/// The compact text that `serde_json::Value` is written as.
pub uninterp spec fn json_text(v: JsonV) -> Seq<char>;

/// A `serde_json::Value` with its outermost layer taken off.
pub enum Shape {
    Null,
    Bool(bool),
    Unsigned(u64),
    Negative(i64),
    Fraction { text: String, whole: u64 },
    Text(String),
    Array(Vec<serde_json::Value>),
    Object(Vec<(String, serde_json::Value)>),
}

pub open spec fn values_view(v: Seq<serde_json::Value>) -> Seq<JsonV> {
    Seq::new(v.len(), |i: int| value_view(v[i]))
}

pub open spec fn entries_view(v: Seq<(String, serde_json::Value)>) -> Seq<(Seq<char>, JsonV)> {
    Seq::new(v.len(), |i: int| (v[i].0@, value_view(v[i].1)))
}

pub open spec fn shape_view(s: Shape) -> JsonV {
    match s {
        Shape::Null => JsonV::Null,
        Shape::Bool(b) => JsonV::Bool(b),
        Shape::Unsigned(n) => JsonV::Unsigned(n),
        Shape::Negative(n) => JsonV::Negative(n),
        Shape::Fraction { text, whole } => JsonV::Fraction { text: text@, whole },
        Shape::Text(s) => JsonV::Text(s@),
        Shape::Array(items) => JsonV::Array(values_view(items@)),
        Shape::Object(fields) => JsonV::Object(entries_view(fields@)),
    }
}

/// `serde_json::from_str`, reading a `serde_json::Value`. What it reads is a function of
/// the text; the value it hands back is what `json_parse` names.
#[verifier::external_body]
fn parse_value(s: &str) -> (r: Result<serde_json::Value, serde_json::Error>)
    ensures
        match r {
            Ok(v) => json_parse(s@) == Some(value_view(v)),
            Err(_) => json_parse(s@) is None,
        },
{
    serde_json::from_str(s)
}

/// The variants of `serde_json::Value`, told apart. A number is an unsigned or a negative
/// integer where `as_u64` or `as_i64` says so, and otherwise kept as `Number` writes it.
#[verifier::external_body]
fn take_apart(v: serde_json::Value) -> (r: Shape)
    ensures
        shape_view(r) == value_view(v),
{
    match v {
        serde_json::Value::Null => Shape::Null,
        serde_json::Value::Bool(b) => Shape::Bool(b),
        serde_json::Value::Number(n) => match (n.as_u64(), n.as_i64()) {
            (Some(u), _) => Shape::Unsigned(u),
            (_, Some(i)) => Shape::Negative(i),
            _ => Shape::Fraction {
                text: n.to_string(),
                whole: n.as_f64().map_or(0, |x| x as u64),
            },
        },
        serde_json::Value::String(s) => Shape::Text(s),
        serde_json::Value::Array(a) => Shape::Array(a),
        serde_json::Value::Object(m) => Shape::Object(m.into_iter().collect()),
    }
}

/// `fields` with `key` set to `value`, the fields in the order of their keys.
pub open spec fn with_key(
    fields: Seq<(Seq<char>, JsonV)>,
    key: Seq<char>,
    value: JsonV,
) -> Seq<(Seq<char>, JsonV)>
    decreases fields.len(),
{
    if fields.len() == 0 {
        seq![(key, value)]
    } else if fields[0].0 == key {
        seq![(key, value)] + fields.skip(1)
    } else if precedes(key, fields[0].0) {
        seq![(key, value)] + fields
    } else {
        seq![fields[0]] + with_key(fields.skip(1), key, value)
    }
}

/// The fields by key, in the order of the keys, the last of equal keys kept.
pub open spec fn keyed(fields: Seq<(Seq<char>, JsonV)>) -> Seq<(Seq<char>, JsonV)>
    decreases fields.len(),
{
    if fields.len() == 0 {
        Seq::empty()
    } else {
        with_key(keyed(fields.drop_last()), fields.last().0, fields.last().1)
    }
}

/// The variants of `serde_json::Value`, put together. `serde_json::Map` keeps its entries
/// by key, in the order of the keys, and of two equal keys the later value.
#[verifier::external_body]
fn put_together(s: Shape) -> (r: serde_json::Value)
    requires
        !(s is Fraction),
        s matches Shape::Negative(n) ==> n < 0,
    ensures
        match s {
            Shape::Object(fields) => value_view(r) == JsonV::Object(keyed(entries_view(fields@))),
            _ => value_view(r) == shape_view(s),
        },
{
    match s {
        Shape::Null => serde_json::Value::Null,
        Shape::Bool(b) => serde_json::Value::Bool(b),
        Shape::Unsigned(n) => serde_json::Value::from(n),
        Shape::Negative(n) => serde_json::Value::from(n),
        Shape::Fraction { text, .. } => serde_json::Value::String(text),
        Shape::Text(s) => serde_json::Value::String(s),
        Shape::Array(a) => serde_json::Value::Array(a),
        Shape::Object(fields) => serde_json::Value::Object(fields.into_iter().collect()),
    }
}

/// `serde_json::Value` written as compact JSON, by its `to_string`.
#[verifier::external_body]
fn value_text(v: &serde_json::Value) -> (r: String)
    ensures
        r@ == json_text(value_view(*v)),
{
    v.to_string()
}

fn from_value(v: serde_json::Value) -> (r: Json)
    ensures
        r@ == value_view(v),
    decreases value_view(v),
{
    let s = take_apart(v);
    match s {
        Shape::Null => Json::Null,
        Shape::Bool(b) => Json::Bool(b),
        Shape::Unsigned(n) => Json::Unsigned(n),
        Shape::Negative(n) => Json::Negative(n),
        Shape::Fraction { text, whole } => Json::Fraction { text, whole },
        Shape::Text(t) => Json::Text(t),
        Shape::Array(a) => {
            let ghost all = values_view(a@);
            let mut rest = a;
            let mut out: Vec<Json> = Vec::new();
            while rest.len() > 0
                invariant
                    value_view(v) is Array,
                    all == value_view(v)->Array_0,
                    rest@.len() + out@.len() == all.len(),
                    forall|k: int|
                        0 <= k < rest@.len() ==> value_view(#[trigger] rest@[k]) == all[out@.len()
                            + k],
                    forall|k: int| 0 <= k < out@.len() ==> (#[trigger] out@[k])@ == all[k],
                decreases rest.len(),
            {
                let ghost before = rest@;
                let first = rest.remove(0);
                assert(value_view(first) == all[out@.len() as int]);
                assert(decreases_to!(value_view(v) => all));
                out.push(from_value(first));
                assert forall|k: int| 0 <= k < rest@.len() implies value_view(#[trigger] rest@[k])
                    == all[out@.len() + k] by {
                    assert(rest@[k] == before[k + 1]);
                }
            }
            assert(jsons(out@) =~= all);
            array(out)
        },
        Shape::Object(m) => {
            let ghost all = entries_view(m@);
            let mut rest = m;
            let mut out: Vec<(String, Json)> = Vec::new();
            while rest.len() > 0
                invariant
                    value_view(v) is Object,
                    all == value_view(v)->Object_0,
                    rest@.len() + out@.len() == all.len(),
                    forall|k: int|
                        0 <= k < rest@.len() ==> (#[trigger] rest@[k]).0@ == all[out@.len() + k].0
                            && value_view(rest@[k].1) == all[out@.len() + k].1,
                    forall|k: int|
                        0 <= k < out@.len() ==> (#[trigger] out@[k]).0@ == all[k].0 && out@[k].1@
                            == all[k].1,
                decreases rest.len(),
            {
                let ghost before = rest@;
                let (key, first) = rest.remove(0);
                assert(before[0].1 == first);
                assert(decreases_to!(value_view(v) => all));
                assert(decreases_to!(all => all[out@.len() as int]));
                assert(decreases_to!(all[out@.len() as int] => all[out@.len() as int].1));
                let value = from_value(first);
                out.push((key, value));
                assert forall|k: int| 0 <= k < rest@.len() implies (#[trigger] rest@[k]).0@
                    == all[out@.len() + k].0 && value_view(rest@[k].1) == all[out@.len() + k].1 by {
                    assert(rest@[k] == before[k + 1]);
                }
            }
            assert(fields_view(out@) =~= all);
            let r = Json::Object(out);
            proof {
                view_of_parts(r);
            }
            r
        },
    }
}

/// Reads a JSON text.
pub fn parse(s: &str) -> (r: Option<Json>)
    ensures
        opt_json(r) == json_parse(s@),
{
    match parse_value(s) {
        Ok(v) => Some(from_value(v)),
        Err(_) => None,
    }
}

/// The value as `serde_json` holds it: the fields of its objects by key, a number that is no
/// integer read from the way it is written, and an integer that is not below 0 as unsigned.
pub open spec fn canonical(v: JsonV) -> JsonV
    decreases v,
{
    match v {
        JsonV::Fraction { text, whole } => match json_parse(text) {
            Some(n) => n,
            None => JsonV::Null,
        },
        JsonV::Negative(n) => if n < 0 {
            v
        } else {
            JsonV::Unsigned(n as u64)
        },
        JsonV::Array(items) => JsonV::Array(
            Seq::new(
                items.len(),
                |i: int|
                    if 0 <= i < items.len() {
                        canonical(items[i])
                    } else {
                        JsonV::Null
                    },
            ),
        ),
        JsonV::Object(fields) => JsonV::Object(keyed(canonical_fields(fields))),
        other => other,
    }
}

pub open spec fn canonical_fields(fields: Seq<(Seq<char>, JsonV)>) -> Seq<(Seq<char>, JsonV)>
    decreases fields,
{
    Seq::new(
        fields.len(),
        |i: int|
            if 0 <= i < fields.len() {
                (fields[i].0, canonical(fields[i].1))
            } else {
                (Seq::empty(), JsonV::Null)
            },
    )
}

fn to_value(j: &Json) -> (r: serde_json::Value)
    ensures
        value_view(r) == canonical(j@),
    decreases j,
{
    proof {
        view_of_parts(*j);
    }
    match j {
        Json::Null => put_together(Shape::Null),
        Json::Bool(b) => put_together(Shape::Bool(*b)),
        Json::Unsigned(n) => put_together(Shape::Unsigned(*n)),
        Json::Negative(n) => {
            if *n < 0 {
                put_together(Shape::Negative(*n))
            } else {
                put_together(Shape::Unsigned(*n as u64))
            }
        },
        Json::Fraction { text, whole: _ } => match parse_value(text.as_str()) {
            Ok(v) => v,
            Err(_) => put_together(Shape::Null),
        },
        Json::Text(s) => put_together(Shape::Text(s.clone())),
        Json::Array(items) => {
            let mut out: Vec<serde_json::Value> = Vec::new();
            let mut i: usize = 0;
            while i < items.len()
                invariant
                    i <= items.len(),
                    j is Array,
                    *items == j->Array_0,
                    out@.len() == i,
                    forall|k: int|
                        0 <= k < i ==> value_view(#[trigger] out@[k]) == canonical(items@[k]@),
                decreases items.len() - i,
            {
                assert(decreases_to!(*j => *items));
                assert(decreases_to!(*items => items[i as int]));
                out.push(to_value(&items[i]));
                i += 1;
            }
            assert(values_view(out@) =~= canonical(j@)->Array_0);
            put_together(Shape::Array(out))
        },
        Json::Object(fields) => {
            let mut out: Vec<(String, serde_json::Value)> = Vec::new();
            let mut i: usize = 0;
            while i < fields.len()
                invariant
                    i <= fields.len(),
                    j is Object,
                    *fields == j->Object_0,
                    out@.len() == i,
                    forall|k: int|
                        0 <= k < i ==> (#[trigger] out@[k]).0@ == fields@[k].0@ && value_view(
                            out@[k].1,
                        ) == canonical(fields@[k].1@),
                decreases fields.len() - i,
            {
                assert(decreases_to!(*j => *fields));
                assert(decreases_to!(*fields => fields[i as int]));
                assert(decreases_to!(fields[i as int] => fields[i as int].1));
                let k = fields[i].0.clone();
                let v = to_value(&fields[i].1);
                out.push((k, v));
                i += 1;
            }
            let ghost f = fields_view(fields@);
            assert(entries_view(out@) =~= canonical_fields(f));
            put_together(Shape::Object(out))
        },
    }
}

/// What a value is written as.
pub open spec fn written(v: JsonV) -> Seq<char> {
    json_text(canonical(v))
}

/// The value as compact JSON.
pub fn render(j: &Json) -> (r: String)
    ensures
        r@ == written(j@),
{
    let v = to_value(j);
    value_text(&v)
}

// ---- what holds of every object ----------------------------------------------------------------------

proof fn lookup_in_longer(fields: Seq<(Seq<char>, JsonV)>, key: Seq<char>, value: JsonV, k: Seq<char>)
    ensures
        lookup(fields.push((key, value)), k) == if lookup(fields, k) is Some {
            lookup(fields, k)
        } else if k == key {
            Some(value)
        } else {
            None
        },
    decreases fields.len(),
{
    let more = fields.push((key, value));
    if fields.len() == 0 {
        assert(more.skip(1) =~= Seq::empty());
        assert(lookup(more.skip(1), k) is None);
    } else {
        lookup_in_longer(fields.skip(1), key, value, k);
        assert(more.skip(1) =~= fields.skip(1).push((key, value)));
    }
}

/// A field that is put in reads back, and puts out no other.
pub broadcast proof fn a_field_reads_back(o: JsonV, key: Seq<char>, value: JsonV, k: Seq<char>)
    requires
        o is Object,
    ensures
        (#[trigger] o.with(key, value).field(k)) == if o.field(k) is Some {
            o.field(k)
        } else if k == key {
            Some(value)
        } else {
            None
        },
{
    lookup_in_longer(o->Object_0, key, value, k);
}

/// An object with no field has none.
pub broadcast proof fn no_field_to_read(k: Seq<char>)
    ensures
        (#[trigger] obj().field(k)) is None,
{
}

/// A field is found by its name: what is found stands in the object under that name, and whatever
/// stands there under a name is found or hidden by an earlier one of the same name.
pub proof fn a_field_is_found_by_its_name(fields: Seq<(Seq<char>, JsonV)>, key: Seq<char>)
    ensures
        JsonV::Object(fields).field(key) matches Some(v) ==> exists|i: int|
            0 <= i < fields.len() && #[trigger] fields[i] == (key, v) && forall|j: int|
                0 <= j < i ==> (#[trigger] fields[j]).0 != key,
        JsonV::Object(fields).field(key) is None ==> forall|i: int|
            0 <= i < fields.len() ==> (#[trigger] fields[i]).0 != key,
    decreases fields.len(),
{
    if fields.len() > 0 {
        let rest = fields.skip(1);
        a_field_is_found_by_its_name(rest, key);
        if fields[0].0 == key {
            assert(fields[0] == (key, fields[0].1));
        } else {
            match JsonV::Object(rest).field(key) {
                Some(v) => {
                    let i = choose|i: int|
                        0 <= i < rest.len() && #[trigger] rest[i] == (key, v) && forall|j: int|
                            0 <= j < i ==> (#[trigger] rest[j]).0 != key;
                    assert(fields[i + 1] == (key, v));
                    assert forall|j: int| 0 <= j < i + 1 implies (#[trigger] fields[j]).0 != key by {
                        if j > 0 {
                            assert(rest[j - 1] == fields[j]);
                        }
                    }
                },
                None => {
                    assert forall|i: int| 0 <= i < fields.len() implies (#[trigger] fields[i]).0
                        != key by {
                        if i > 0 {
                            assert(rest[i - 1] == fields[i]);
                        }
                    }
                },
            }
        }
    }
}

proof fn key_is_set(fields: Seq<(Seq<char>, JsonV)>, key: Seq<char>, value: JsonV, k: Seq<char>)
    ensures
        lookup(with_key(fields, key, value), k) == if k == key {
            Some(value)
        } else {
            lookup(fields, k)
        },
    decreases fields.len(),
{
    let r = with_key(fields, key, value);
    if fields.len() == 0 {
        assert(r.skip(1) =~= Seq::empty());
        assert(lookup(r.skip(1), k) is None);
    } else if fields[0].0 == key {
        assert(r.skip(1) =~= fields.skip(1));
    } else if precedes(key, fields[0].0) {
        assert(r.skip(1) =~= fields);
    } else {
        key_is_set(fields.skip(1), key, value, k);
        assert(r.skip(1) =~= with_key(fields.skip(1), key, value));
        assert(r[0] == fields[0]);
    }
}

/// The fields of an object by key are its fields: under each key stands the last value that was given
/// under it.
pub proof fn the_last_of_equal_keys_counts(fields: Seq<(Seq<char>, JsonV)>, i: int, k: Seq<char>)
    ensures
        0 <= i < fields.len() && (forall|j: int|
            i < j < fields.len() ==> (#[trigger] fields[j]).0 != fields[i].0) ==> lookup(
            keyed(fields),
            fields[i].0,
        ) == Some(fields[i].1),
        (forall|j: int| 0 <= j < fields.len() ==> (#[trigger] fields[j]).0 != k) ==> lookup(
            keyed(fields),
            k,
        ) is None,
    decreases fields.len(),
{
    if fields.len() > 0 {
        let d = fields.drop_last();
        let l = fields.last();
        the_last_of_equal_keys_counts(d, i, k);
        key_is_set(keyed(d), l.0, l.1, k);
        if forall|j: int| 0 <= j < fields.len() ==> (#[trigger] fields[j]).0 != k {
            assert forall|j: int| 0 <= j < d.len() implies (#[trigger] d[j]).0 != k by {
                assert(d[j] == fields[j]);
            }
            assert(fields[fields.len() - 1].0 != k);
        }
        if 0 <= i < fields.len() && (forall|j: int|
            i < j < fields.len() ==> (#[trigger] fields[j]).0 != fields[i].0) {
            key_is_set(keyed(d), l.0, l.1, fields[i].0);
            if i < d.len() {
                assert(d[i] == fields[i]);
                assert forall|j: int| i < j < d.len() implies (#[trigger] d[j]).0 != d[i].0 by {
                    assert(d[j] == fields[j]);
                }
                assert(fields[fields.len() - 1].0 != fields[i].0);
            }
        }
    }
}

/// What is written is the value: texts, flags and whole numbers as they are, lists item by item, and
/// objects field by field.
pub proof fn what_is_written_is_the_value(v: JsonV, i: int)
    ensures
        v is Null || v is Bool || v is Unsigned || v is Text ==> canonical(v) == v,
        v matches JsonV::Negative(n) ==> n < 0 ==> canonical(v) == v,
        v matches JsonV::Array(items) ==> (canonical(v) matches JsonV::Array(r) && r.len()
            == items.len() && (0 <= i < items.len() ==> r[i] == canonical(items[i]))),
        v matches JsonV::Object(f) ==> 0 <= i < f.len() ==> (forall|j: int|
            i < j < f.len() ==> (#[trigger] f[j]).0 != f[i].0) ==> canonical(v).field(f[i].0) == Some(
            canonical(f[i].1),
        ),
{
    match v {
        JsonV::Object(f) => {
            let c = canonical_fields(f);
            if 0 <= i < f.len() && (forall|j: int| i < j < f.len() ==> (#[trigger] f[j]).0 != f[i].0) {
                assert forall|j: int| i < j < c.len() implies (#[trigger] c[j]).0 != c[i].0 by {
                    assert(c[j].0 == f[j].0);
                }
                the_last_of_equal_keys_counts(c, i, f[i].0);
            }
        },
        _ => {},
    }
}

} // verus!
