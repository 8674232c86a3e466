//! A JSON document model owned by the library.
//!
//! Documents are parsed and printed by `serde_json`; the library reads and
//! builds them through `JsonValue`, whose view `JsonView` is a mathematical
//! tree. Objects keep the order `serde_json::Map` gives them (sorted keys).
use serde_json::Value as SerdeJson;
use vstd::prelude::*;
use crate::text::{chars_eq, chars_of, decimal, decimal_exec, string_of};

verus! {

/// A JSON number: a non-negative integer, a negative integer, or a float
/// carried by its shortest decimal text.
#[derive(Debug, PartialEq)]
pub enum JsonNumber {
    PosInt(u64),
    NegInt(i64),
    Float(String),
}

#[derive(Debug, PartialEq)]
pub enum JsonValue {
    Null,
    Bool(bool),
    Number(JsonNumber),
    String(String),
    Array(Vec<JsonValue>),
    Object(Vec<(String, JsonValue)>),
}

pub enum NumberView {
    PosInt(u64),
    NegInt(i64),
    Float(Seq<char>),
}

pub enum JsonView {
    Null,
    Bool(bool),
    Number(NumberView),
    Str(Seq<char>),
    Array(Seq<JsonView>),
    Object(Seq<(Seq<char>, JsonView)>),
}

pub open spec fn number_view(n: JsonNumber) -> NumberView {
    match n {
        JsonNumber::PosInt(u) => NumberView::PosInt(u),
        JsonNumber::NegInt(i) => NumberView::NegInt(i),
        JsonNumber::Float(t) => NumberView::Float(t@),
    }
}

pub open spec fn json_view(v: JsonValue) -> JsonView
    decreases v,
{
    match v {
        JsonValue::Null => JsonView::Null,
        JsonValue::Bool(b) => JsonView::Bool(b),
        JsonValue::Number(n) => JsonView::Number(number_view(n)),
        JsonValue::String(s) => JsonView::Str(s@),
        JsonValue::Array(items) => JsonView::Array(json_views(items@)),
        JsonValue::Object(entries) => JsonView::Object(entry_views(entries@)),
    }
}

pub open spec fn json_views(s: Seq<JsonValue>) -> Seq<JsonView>
    decreases s,
{
    if s.len() == 0 {
        Seq::empty()
    } else {
        json_views(s.drop_last()).push(json_view(s.last()))
    }
}

pub open spec fn entry_views(s: Seq<(String, JsonValue)>) -> Seq<(Seq<char>, JsonView)>
    decreases s,
{
    if s.len() == 0 {
        Seq::empty()
    } else {
        entry_views(s.drop_last()).push((s.last().0@, json_view(s.last().1)))
    }
}

impl View for JsonValue {
    type V = JsonView;

    open spec fn view(&self) -> JsonView {
        json_view(*self)
    }
}

pub proof fn lemma_json_views(s: Seq<JsonValue>)
    ensures
        json_views(s).len() == s.len(),
        forall|i: int| 0 <= i < s.len() ==> #[trigger] json_views(s)[i] == json_view(s[i]),
    decreases s.len(),
{
    if s.len() > 0 {
        lemma_json_views(s.drop_last());
    }
}

pub proof fn lemma_entry_views(s: Seq<(String, JsonValue)>)
    ensures
        entry_views(s).len() == s.len(),
        forall|i: int|
            0 <= i < s.len() ==> #[trigger] entry_views(s)[i] == (s[i].0@, json_view(s[i].1)),
    decreases s.len(),
{
    if s.len() > 0 {
        lemma_entry_views(s.drop_last());
    }
}

// ---------------------------------------------------------------------------
// Reading values (the `serde_json::Value` accessors)
// ---------------------------------------------------------------------------

/// The value of the first entry named `key`.
pub open spec fn assoc_get(entries: Seq<(Seq<char>, JsonView)>, key: Seq<char>) -> Option<JsonView>
    decreases entries.len(),
{
    if entries.len() == 0 {
        None
    } else if entries[0].0 == key {
        Some(entries[0].1)
    } else {
        assoc_get(entries.drop_first(), key)
    }
}

/// `Value::get(key)`: the member `key` of an object, `None` for anything else.
pub open spec fn view_get(v: JsonView, key: Seq<char>) -> Option<JsonView> {
    match v {
        JsonView::Object(entries) => assoc_get(entries, key),
        _ => None,
    }
}

/// `Option<&Value>::and_then(|v| v.get(key))`.
pub open spec fn opt_get(v: Option<JsonView>, key: Seq<char>) -> Option<JsonView> {
    match v {
        Some(x) => view_get(x, key),
        None => None,
    }
}

/// `Value::as_str`.
pub open spec fn view_as_str(v: JsonView) -> Option<Seq<char>> {
    match v {
        JsonView::Str(s) => Some(s),
        _ => None,
    }
}

/// `Value::as_u64`.
pub open spec fn view_as_u64(v: JsonView) -> Option<u64> {
    match v {
        JsonView::Number(NumberView::PosInt(u)) => Some(u),
        _ => None,
    }
}

/// `Value::as_bool`.
pub open spec fn view_as_bool(v: JsonView) -> Option<bool> {
    match v {
        JsonView::Bool(b) => Some(b),
        _ => None,
    }
}

/// `Value::as_array`.
pub open spec fn view_as_array(v: JsonView) -> Option<Seq<JsonView>> {
    match v {
        JsonView::Array(items) => Some(items),
        _ => None,
    }
}

/// `Value::as_object`.
pub open spec fn view_is_object(v: JsonView) -> bool {
    v is Object
}

/// The text `Display` gives a JSON number.
pub open spec fn number_text(n: NumberView) -> Seq<char> {
    match n {
        NumberView::PosInt(u) => decimal(u as nat),
        NumberView::NegInt(i) => if i < 0 {
            seq!['-'] + decimal((-i) as nat)
        } else {
            decimal(i as nat)
        },
        NumberView::Float(t) => t,
    }
}

/// A deep copy of a JSON value.
pub fn copy_json(v: &JsonValue) -> (r: JsonValue)
    ensures
        r@ == v@,
    decreases v,
{
    match v {
        JsonValue::Null => JsonValue::Null,
        JsonValue::Bool(b) => JsonValue::Bool(*b),
        JsonValue::Number(n) => JsonValue::Number(
            match n {
                JsonNumber::PosInt(u) => JsonNumber::PosInt(*u),
                JsonNumber::NegInt(i) => JsonNumber::NegInt(*i),
                JsonNumber::Float(t) => JsonNumber::Float(t.clone()),
            },
        ),
        JsonValue::String(s) => JsonValue::String(s.clone()),
        JsonValue::Array(items) => {
            let mut out: Vec<JsonValue> = Vec::new();
            let mut i: usize = 0;
            while i < items.len()
                invariant
                    i <= items@.len(),
                    *v == JsonValue::Array(*items),
                    json_views(out@) == json_views(items@.take(i as int)),
                decreases items.len() - i,
            {
                assert(decreases_to!(*v => v->Array_0));
                assert(decreases_to!(v->Array_0 => items@));
                assert(decreases_to!(items@ => items@[i as int]));
                let c = copy_json(&items[i]);
                let ghost before = out@;
                out.push(c);
                proof {
                    assert(out@.drop_last() =~= before);
                    assert(items@.take(i + 1).drop_last() =~= items@.take(i as int));
                }
                i = i + 1;
            }
            assert(items@.take(items@.len() as int) =~= items@);
            JsonValue::Array(out)
        },
        JsonValue::Object(entries) => {
            let mut out: Vec<(String, JsonValue)> = Vec::new();
            let mut i: usize = 0;
            while i < entries.len()
                invariant
                    i <= entries@.len(),
                    *v == JsonValue::Object(*entries),
                    entry_views(out@) == entry_views(entries@.take(i as int)),
                decreases entries.len() - i,
            {
                assert(decreases_to!(*v => v->Object_0));
                assert(decreases_to!(v->Object_0 => entries@));
                assert(decreases_to!(entries@ => entries@[i as int]));
                assert(decreases_to!(entries@[i as int] => entries@[i as int].1));
                let c = copy_json(&entries[i].1);
                let k = entries[i].0.clone();
                let ghost before = out@;
                out.push((k, c));
                proof {
                    assert(out@.drop_last() =~= before);
                    assert(entries@.take(i + 1).drop_last() =~= entries@.take(i as int));
                }
                i = i + 1;
            }
            assert(entries@.take(entries@.len() as int) =~= entries@);
            JsonValue::Object(out)
        },
    }
}

impl JsonValue {
    /// `Value::get`: the member `key` of an object.
    pub fn get(&self, key: &str) -> (r: Option<&JsonValue>)
        ensures
            r matches Some(x) ==> view_get(self@, key@) == Some(x@),
            r is None ==> view_get(self@, key@) is None,
    {
        match self {
            JsonValue::Object(entries) => {
                let kv = chars_of(key);
                let mut i: usize = 0;
                proof {
                    lemma_entry_views(entries@);
                    assert(entry_views(entries@).skip(0) =~= entry_views(entries@));
                }
                while i < entries.len()
                    invariant
                        i <= entries@.len(),
                        *self == JsonValue::Object(*entries),
                        kv@ == key@,
                        entry_views(entries@).len() == entries@.len(),
                        forall|j: int|
                            0 <= j < entries@.len() ==> #[trigger] entry_views(entries@)[j] == (
                            entries@[j].0@,
                            json_view(entries@[j].1),
                        ),
                        assoc_get(entry_views(entries@), key@) == assoc_get(
                            entry_views(entries@).skip(i as int),
                            key@,
                        ),
                    decreases entries.len() - i,
                {
                    let ghost rest = entry_views(entries@).skip(i as int);
                    let ek = chars_of(entries[i].0.as_str());
                    if chars_eq(ek.as_slice(), kv.as_slice()) {
                        assert(rest[0] == entry_views(entries@)[i as int]);
                        assert(rest[0].0 == key@);
                        assert(assoc_get(rest, key@) == Some(rest[0].1));
                        return Some(&entries[i].1);
                    }
                    assert(rest.drop_first() =~= entry_views(entries@).skip(i + 1));
                    i = i + 1;
                }
                None
            },
            _ => None,
        }
    }

    /// `Value::as_str`.
    pub fn as_str(&self) -> (r: Option<&String>)
        ensures
            r matches Some(s) ==> view_as_str(self@) == Some(s@),
            r is None ==> view_as_str(self@) is None,
    {
        match self {
            JsonValue::String(s) => Some(s),
            _ => None,
        }
    }

    /// `Value::as_u64`.
    pub fn as_u64(&self) -> (r: Option<u64>)
        ensures
            r == view_as_u64(self@),
    {
        match self {
            JsonValue::Number(JsonNumber::PosInt(u)) => Some(*u),
            _ => None,
        }
    }

    /// `Value::as_bool`.
    pub fn as_bool(&self) -> (r: Option<bool>)
        ensures
            r == view_as_bool(self@),
    {
        match self {
            JsonValue::Bool(b) => Some(*b),
            _ => None,
        }
    }

    /// `Value::as_array`.
    pub fn as_array(&self) -> (r: Option<&Vec<JsonValue>>)
        ensures
            r matches Some(items) ==> view_as_array(self@) == Some(json_views(items@)),
            r is None ==> view_as_array(self@) is None,
    {
        match self {
            JsonValue::Array(items) => Some(items),
            _ => None,
        }
    }

    /// `Value::is_object`.
    pub fn is_object(&self) -> (r: bool)
        ensures
            r == view_is_object(self@),
    {
        match self {
            JsonValue::Object(_) => true,
            _ => false,
        }
    }

    /// `Value::is_null`.
    pub fn is_null(&self) -> (r: bool)
        ensures
            r == (self@ is Null),
    {
        match self {
            JsonValue::Null => true,
            _ => false,
        }
    }
}

/// `Number::to_string`.
pub fn number_to_string(n: &JsonNumber) -> (r: String)
    ensures
        r@ == number_text(number_view(*n)),
{
    match n {
        JsonNumber::PosInt(u) => {
            let d = decimal_exec(*u);
            string_of(d.as_slice())
        },
        JsonNumber::NegInt(i) => {
            if *i < 0 {
                let mag: u64 = if *i == i64::MIN {
                    9223372036854775808u64
                } else {
                    (-*i) as u64
                };
                let d = decimal_exec(mag);
                let mut v: Vec<char> = Vec::new();
                v.push('-');
                let mut k: usize = 0;
                while k < d.len()
                    invariant
                        k <= d@.len(),
                        v@ == seq!['-'] + d@.take(k as int),
                    decreases d.len() - k,
                {
                    v.push(d[k]);
                    k = k + 1;
                    assert(v@ =~= seq!['-'] + d@.take(k as int));
                }
                assert(d@.take(d@.len() as int) =~= d@);
                string_of(v.as_slice())
            } else {
                let d = decimal_exec(*i as u64);
                string_of(d.as_slice())
            }
        },
        JsonNumber::Float(t) => t.clone(),
    }
}

// ---------------------------------------------------------------------------
// Parsing and printing through serde_json
// ---------------------------------------------------------------------------

#[verifier::external_type_specification]
#[verifier::external_body]
pub struct ExSerdeJsonValue(serde_json::Value);

/// What `serde_json::from_str::<serde_json::Value>` gives for a text, in this
/// model: the document, or the error as `serde_json::Error`'s `Display` prints it.
pub uninterp spec fn spec_json_outcome(text: Seq<char>) -> Result<JsonView, Seq<char>>;

/// The document a text parses to, if any.
pub open spec fn spec_json_parse(text: Seq<char>) -> Option<JsonView> {
    match spec_json_outcome(text) {
        Ok(v) => Some(v),
        Err(_) => None,
    }
}

/// The printed error for a text that is not JSON.
pub open spec fn spec_json_error(text: Seq<char>) -> Seq<char> {
    match spec_json_outcome(text) {
        Ok(_) => Seq::empty(),
        Err(m) => m,
    }
}

/// What `serde_json::to_string` prints for a value, in this model.
pub uninterp spec fn spec_json_text(v: JsonView) -> Seq<char>;

#[verifier::external_type_specification]
#[verifier::external_body]
pub struct ExSerdeJsonNumber(serde_json::Number);

/// Converts a `serde_json::Number`: an integer keeps its `u64`/`i64` value, a
/// float its printed text.
#[verifier::external_body]
fn json_number_from_serde(n: serde_json::Number) -> JsonNumber {
    match (n.as_u64(), n.as_i64()) {
        (Some(u), _) => JsonNumber::PosInt(u),
        (None, Some(i)) => JsonNumber::NegInt(i),
        (None, None) => JsonNumber::Float(n.to_string()),
    }
}

/// The inverse of `json_number_from_serde`: a float is read back from its text.
#[verifier::external_body]
fn json_number_to_serde(n: &JsonNumber) -> SerdeJson {
    match n {
        JsonNumber::PosInt(u) => SerdeJson::from(*u),
        JsonNumber::NegInt(i) => SerdeJson::from(*i),
        JsonNumber::Float(t) => serde_json::from_str(t).unwrap_or(SerdeJson::Null),
    }
}

/// Rebuilds a `serde_json::Value` as a `JsonValue`, one node for one node.
/// Called only by the wrappers below.
#[verifier::external_body]
fn json_from_serde(value: SerdeJson) -> JsonValue {
    match value {
        SerdeJson::Null => JsonValue::Null,
        SerdeJson::Bool(b) => JsonValue::Bool(b),
        SerdeJson::Number(n) => JsonValue::Number(json_number_from_serde(n)),
        SerdeJson::String(s) => JsonValue::String(s),
        SerdeJson::Array(items) => JsonValue::Array(items.into_iter().map(json_from_serde).collect()),
        SerdeJson::Object(map) => JsonValue::Object(map.into_iter().map(|(k, v)| (k, json_from_serde(v))).collect()),
    }
}

/// The inverse of `json_from_serde`.
#[verifier::external_body]
fn json_to_serde(value: &JsonValue) -> SerdeJson {
    match value {
        JsonValue::Null => SerdeJson::Null,
        JsonValue::Bool(b) => SerdeJson::Bool(*b),
        JsonValue::Number(n) => json_number_to_serde(n),
        JsonValue::String(s) => SerdeJson::String(s.clone()),
        JsonValue::Array(items) => SerdeJson::Array(items.iter().map(json_to_serde).collect()),
        JsonValue::Object(entries) => SerdeJson::Object(entries.iter().map(|(k, v)| (k.clone(), json_to_serde(v))).collect()),
    }
}

/// Calls `serde_json::from_str::<serde_json::Value>`, printing the error when
/// there is one. The contract claims only that the outcome is a function of
/// the text: an error exactly where serde_json rejects the text.
#[verifier::external_body]
pub(crate) fn parse_json(text: &str) -> (r: Result<JsonValue, String>)
    ensures
        r matches Ok(v) ==> (spec_json_outcome(text@) matches Ok(got) && got == v@),
        r matches Err(m) ==> (spec_json_outcome(text@) matches Err(got) && got == m@),
{
    match serde_json::from_str::<SerdeJson>(text) {
        Ok(value) => Ok(json_from_serde(value)),
        Err(error) => Err(error.to_string()),
    }
}

/// Calls `serde_json::to_string` (the compact form `Value::to_string` also gives).
/// The contract claims only that the text is a function of the value.
#[verifier::external_body]
pub(crate) fn json_to_text(v: &JsonValue) -> (r: String)
    ensures
        r@ == spec_json_text(v@),
{
    json_to_serde(v).to_string()
}

} // verus!
