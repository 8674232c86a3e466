//! A YAML document model owned by the library.
//!
//! Documents are parsed and printed by `serde_yaml`; the library reads and
//! builds them through `YamlValue`, whose view `YamlView` is a mathematical tree.
use serde_yaml::value::{Tag, TaggedValue};
use serde_yaml::Value as SerdeYaml;
use vstd::prelude::*;
use crate::json::NumberView;
use crate::text::{chars_eq, chars_of};

verus! {

/// A YAML number: a non-negative integer, a negative integer, or a float
/// carried by its text.
#[derive(Debug, PartialEq)]
pub enum YamlNumber {
    PosInt(u64),
    NegInt(i64),
    Float(String),
}

#[derive(Debug, PartialEq)]
pub enum YamlValue {
    Null,
    Bool(bool),
    Number(YamlNumber),
    String(String),
    Sequence(Vec<YamlValue>),
    /// Entries in document order, keys distinct.
    Mapping(Vec<(YamlValue, YamlValue)>),
    /// A value with a tag such as `!include`.
    Tagged(String, Box<YamlValue>),
}

pub enum YamlView {
    Null,
    Bool(bool),
    Number(NumberView),
    Str(Seq<char>),
    List(Seq<YamlView>),
    Dict(Seq<(YamlView, YamlView)>),
    Tagged(Seq<char>, Box<YamlView>),
}

pub open spec fn yaml_number_view(n: YamlNumber) -> NumberView {
    match n {
        YamlNumber::PosInt(u) => NumberView::PosInt(u),
        YamlNumber::NegInt(i) => NumberView::NegInt(i),
        YamlNumber::Float(t) => NumberView::Float(t@),
    }
}

pub open spec fn yaml_view(v: YamlValue) -> YamlView
    decreases v,
{
    match v {
        YamlValue::Null => YamlView::Null,
        YamlValue::Bool(b) => YamlView::Bool(b),
        YamlValue::Number(n) => YamlView::Number(yaml_number_view(n)),
        YamlValue::String(s) => YamlView::Str(s@),
        YamlValue::Sequence(items) => YamlView::List(yaml_views(items@)),
        YamlValue::Mapping(entries) => YamlView::Dict(yaml_entry_views(entries@)),
        YamlValue::Tagged(tag, inner) => YamlView::Tagged(tag@, Box::new(yaml_view(*inner))),
    }
}

pub open spec fn yaml_views(s: Seq<YamlValue>) -> Seq<YamlView>
    decreases s,
{
    if s.len() == 0 {
        Seq::empty()
    } else {
        yaml_views(s.drop_last()).push(yaml_view(s.last()))
    }
}

pub open spec fn yaml_entry_views(s: Seq<(YamlValue, YamlValue)>) -> Seq<(YamlView, YamlView)>
    decreases s,
{
    if s.len() == 0 {
        Seq::empty()
    } else {
        yaml_entry_views(s.drop_last()).push((yaml_view(s.last().0), yaml_view(s.last().1)))
    }
}

impl View for YamlValue {
    type V = YamlView;

    open spec fn view(&self) -> YamlView {
        yaml_view(*self)
    }
}

pub proof fn lemma_yaml_views(s: Seq<YamlValue>)
    ensures
        yaml_views(s).len() == s.len(),
        forall|i: int| 0 <= i < s.len() ==> #[trigger] yaml_views(s)[i] == yaml_view(s[i]),
    decreases s.len(),
{
    if s.len() > 0 {
        lemma_yaml_views(s.drop_last());
    }
}

pub proof fn lemma_yaml_entry_views(s: Seq<(YamlValue, YamlValue)>)
    ensures
        yaml_entry_views(s).len() == s.len(),
        forall|i: int|
            0 <= i < s.len() ==> #[trigger] yaml_entry_views(s)[i] == (yaml_view(s[i].0), yaml_view(s[i].1)),
    decreases s.len(),
{
    if s.len() > 0 {
        lemma_yaml_entry_views(s.drop_last());
    }
}

// ---------------------------------------------------------------------------
// Reading values (the `serde_yaml::Value` accessors, which look through tags)
// ---------------------------------------------------------------------------

/// The value without its tags.
pub open spec fn untag(v: YamlView) -> YamlView
    decreases v,
{
    match v {
        YamlView::Tagged(_, inner) => untag(*inner),
        _ => v,
    }
}

/// `Mapping::get(Value::String(key))`: the value of the entry whose key is the string `key`.
pub open spec fn ymap_get(entries: Seq<(YamlView, YamlView)>, key: Seq<char>) -> Option<YamlView>
    decreases entries.len(),
{
    if entries.len() == 0 {
        None
    } else if entries[0].0 == YamlView::Str(key) {
        Some(entries[0].1)
    } else {
        ymap_get(entries.drop_first(), key)
    }
}

/// The first of `keys` that the mapping holds, and its value.
pub open spec fn ymap_get_any(entries: Seq<(YamlView, YamlView)>, keys: Seq<Seq<char>>) -> Option<YamlView>
    decreases keys.len(),
{
    if keys.len() == 0 {
        None
    } else {
        match ymap_get(entries, keys[0]) {
            Some(v) => Some(v),
            None => ymap_get_any(entries, keys.drop_first()),
        }
    }
}

pub open spec fn y_as_str(v: YamlView) -> Option<Seq<char>> {
    match untag(v) {
        YamlView::Str(s) => Some(s),
        _ => None,
    }
}

pub open spec fn y_as_bool(v: YamlView) -> Option<bool> {
    match untag(v) {
        YamlView::Bool(b) => Some(b),
        _ => None,
    }
}

pub open spec fn y_as_i64(v: YamlView) -> Option<i64> {
    match untag(v) {
        YamlView::Number(NumberView::PosInt(u)) => if u <= i64::MAX {
            Some(u as i64)
        } else {
            None
        },
        YamlView::Number(NumberView::NegInt(i)) => Some(i),
        _ => None,
    }
}

pub open spec fn y_as_list(v: YamlView) -> Option<Seq<YamlView>> {
    match untag(v) {
        YamlView::List(items) => Some(items),
        _ => None,
    }
}

pub open spec fn y_as_map(v: YamlView) -> Option<Seq<(YamlView, YamlView)>> {
    match untag(v) {
        YamlView::Dict(entries) => Some(entries),
        _ => None,
    }
}

impl YamlValue {
    /// `Value::untag_ref`.
    pub fn untagged(&self) -> (r: &YamlValue)
        ensures
            r@ == untag(self@),
        decreases self,
    {
        match self {
            YamlValue::Tagged(_, inner) => inner.untagged(),
            _ => self,
        }
    }

    /// `Value::as_str`.
    pub fn as_str(&self) -> (r: Option<&String>)
        ensures
            r matches Some(s) ==> y_as_str(self@) == Some(s@),
            r is None ==> y_as_str(self@) is None,
    {
        match self.untagged() {
            YamlValue::String(s) => Some(s),
            _ => None,
        }
    }

    /// `Value::as_bool`.
    pub fn as_bool(&self) -> (r: Option<bool>)
        ensures
            r == y_as_bool(self@),
    {
        match self.untagged() {
            YamlValue::Bool(b) => Some(*b),
            _ => None,
        }
    }

    /// `Value::as_i64`.
    pub fn as_i64(&self) -> (r: Option<i64>)
        ensures
            r == y_as_i64(self@),
    {
        match self.untagged() {
            YamlValue::Number(YamlNumber::PosInt(u)) => if *u <= 9223372036854775807u64 {
                Some(*u as i64)
            } else {
                None
            },
            YamlValue::Number(YamlNumber::NegInt(i)) => Some(*i),
            _ => None,
        }
    }

    /// `Value::as_sequence`.
    pub fn as_sequence(&self) -> (r: Option<&Vec<YamlValue>>)
        ensures
            r matches Some(items) ==> y_as_list(self@) == Some(yaml_views(items@)),
            r is None ==> y_as_list(self@) is None,
    {
        match self.untagged() {
            YamlValue::Sequence(items) => Some(items),
            _ => None,
        }
    }

    /// `Value::as_mapping`.
    pub fn as_mapping(&self) -> (r: Option<&Vec<(YamlValue, YamlValue)>>)
        ensures
            r matches Some(entries) ==> y_as_map(self@) == Some(yaml_entry_views(entries@)),
            r is None ==> y_as_map(self@) is None,
    {
        match self.untagged() {
            YamlValue::Mapping(entries) => Some(entries),
            _ => None,
        }
    }
}

/// `Mapping::get` with a string key.
pub fn yaml_map_get<'a>(entries: &'a Vec<(YamlValue, YamlValue)>, key: &str) -> (r: Option<&'a YamlValue>)
    ensures
        r matches Some(x) ==> ymap_get(yaml_entry_views(entries@), key@) == Some(x@),
        r is None ==> ymap_get(yaml_entry_views(entries@), key@) is None,
{
    let kv = chars_of(key);
    let ghost ev = yaml_entry_views(entries@);
    proof {
        lemma_yaml_entry_views(entries@);
        assert(ev.skip(0) =~= ev);
    }
    let mut i: usize = 0;
    while i < entries.len()
        invariant
            i <= entries@.len(),
            kv@ == key@,
            ev == yaml_entry_views(entries@),
            ev.len() == entries@.len(),
            forall|j: int| 0 <= j < entries@.len() ==> #[trigger] ev[j] == (yaml_view(entries@[j].0), yaml_view(entries@[j].1)),
            ymap_get(ev, key@) == ymap_get(ev.skip(i as int), key@),
        decreases entries.len() - i,
    {
        let ghost rest = ev.skip(i as int);
        assert(rest[0] == ev[i as int]);
        match &entries[i].0 {
            YamlValue::String(k) => {
                let kc = chars_of(k.as_str());
                if chars_eq(kc.as_slice(), kv.as_slice()) {
                    return Some(&entries[i].1);
                }
            },
            _ => {},
        }
        assert(rest.drop_first() =~= ev.skip(i + 1));
        i = i + 1;
    }
    None
}

/// The value of the first of `keys` that the mapping holds.
pub fn yaml_map_get_any<'a>(entries: &'a Vec<(YamlValue, YamlValue)>, keys: &[&str]) -> (r: Option<&'a YamlValue>)
    ensures
        r matches Some(x) ==> ymap_get_any(yaml_entry_views(entries@), keys@.map_values(|k: &str| k@)) == Some(x@),
        r is None ==> ymap_get_any(yaml_entry_views(entries@), keys@.map_values(|k: &str| k@)) is None,
{
    let ghost ks = keys@.map_values(|k: &str| k@);
    let ghost ev = yaml_entry_views(entries@);
    assert(ks.skip(0) =~= ks);
    let mut i: usize = 0;
    while i < keys.len()
        invariant
            i <= keys@.len(),
            ks == keys@.map_values(|k: &str| k@),
            ev == yaml_entry_views(entries@),
            ymap_get_any(ev, ks) == ymap_get_any(ev, ks.skip(i as int)),
        decreases keys.len() - i,
    {
        assert(ks.skip(i as int)[0] == keys@[i as int]@);
        assert(ks.skip(i as int).drop_first() =~= ks.skip(i + 1));
        match yaml_map_get(entries, keys[i]) {
            Some(v) => return Some(v),
            None => {},
        }
        i = i + 1;
    }
    None
}

/// A deep copy of a YAML value.
pub fn copy_yaml(v: &YamlValue) -> (r: YamlValue)
    ensures
        r@ == v@,
    decreases v,
{
    match v {
        YamlValue::Null => YamlValue::Null,
        YamlValue::Bool(b) => YamlValue::Bool(*b),
        YamlValue::Number(n) => YamlValue::Number(
            match n {
                YamlNumber::PosInt(u) => YamlNumber::PosInt(*u),
                YamlNumber::NegInt(i) => YamlNumber::NegInt(*i),
                YamlNumber::Float(t) => YamlNumber::Float(t.clone()),
            },
        ),
        YamlValue::String(s) => YamlValue::String(s.clone()),
        YamlValue::Sequence(items) => {
            let mut out: Vec<YamlValue> = Vec::new();
            let mut i: usize = 0;
            while i < items.len()
                invariant
                    i <= items@.len(),
                    *v == YamlValue::Sequence(*items),
                    yaml_views(out@) == yaml_views(items@.take(i as int)),
                decreases items.len() - i,
            {
                assert(decreases_to!(*v => v->Sequence_0));
                assert(decreases_to!(v->Sequence_0 => items@));
                assert(decreases_to!(items@ => items@[i as int]));
                let c = copy_yaml(&items[i]);
                let ghost before = out@;
                out.push(c);
                proof {
                    assert(out@.drop_last() =~= before);
                    assert(items@.take(i + 1).drop_last() =~= items@.take(i as int));
                }
                i = i + 1;
            }
            assert(items@.take(items@.len() as int) =~= items@);
            YamlValue::Sequence(out)
        },
        YamlValue::Mapping(entries) => {
            let mut out: Vec<(YamlValue, YamlValue)> = Vec::new();
            let mut i: usize = 0;
            while i < entries.len()
                invariant
                    i <= entries@.len(),
                    *v == YamlValue::Mapping(*entries),
                    yaml_entry_views(out@) == yaml_entry_views(entries@.take(i as int)),
                decreases entries.len() - i,
            {
                assert(decreases_to!(*v => v->Mapping_0));
                assert(decreases_to!(v->Mapping_0 => entries@));
                assert(decreases_to!(entries@ => entries@[i as int]));
                assert(decreases_to!(entries@[i as int] => entries@[i as int].0));
                assert(decreases_to!(entries@[i as int] => entries@[i as int].1));
                let k = copy_yaml(&entries[i].0);
                let c = copy_yaml(&entries[i].1);
                let ghost before = out@;
                out.push((k, c));
                proof {
                    assert(out@.drop_last() =~= before);
                    assert(entries@.take(i + 1).drop_last() =~= entries@.take(i as int));
                }
                i = i + 1;
            }
            assert(entries@.take(entries@.len() as int) =~= entries@);
            YamlValue::Mapping(out)
        },
        YamlValue::Tagged(tag, inner) => {
            assert(decreases_to!(*v => v->Tagged_1));
            YamlValue::Tagged(tag.clone(), Box::new(copy_yaml(inner)))
        },
    }
}

// ---------------------------------------------------------------------------
// serde_yaml
// ---------------------------------------------------------------------------

#[verifier::external_type_specification]
#[verifier::external_body]
pub struct ExSerdeYamlValue(serde_yaml::Value);

/// Every tag is non-empty (`Tag::new` refuses an empty tag).
pub open spec fn tags_nonempty(v: YamlView) -> bool
    decreases v,
{
    match v {
        YamlView::Tagged(t, inner) => t.len() > 0 && tags_nonempty(*inner),
        YamlView::List(items) => tags_items(items),
        YamlView::Dict(entries) => tags_entries(entries),
        _ => true,
    }
}

pub open spec fn tags_items(items: Seq<YamlView>) -> bool
    decreases items,
{
    if items.len() == 0 {
        true
    } else {
        tags_items(items.drop_last()) && tags_nonempty(items.last())
    }
}

pub open spec fn tags_entries(entries: Seq<(YamlView, YamlView)>) -> bool
    decreases entries,
{
    if entries.len() == 0 {
        true
    } else {
        tags_entries(entries.drop_last()) && tags_nonempty(entries.last().0) && tags_nonempty(entries.last().1)
    }
}

/// What `serde_yaml::from_str::<serde_yaml::Value>` gives for a text, in this model.
pub uninterp spec fn spec_yaml_parse(text: Seq<char>) -> Option<YamlView>;

/// What `serde_yaml::to_string` gives for a value: the text, or the error as
/// `serde_yaml::Error`'s `Display` prints it.
pub uninterp spec fn spec_yaml_print(v: YamlView) -> Result<Seq<char>, Seq<char>>;

/// The text a value prints as, `None` where printing fails.
pub open spec fn spec_yaml_text(v: YamlView) -> Option<Seq<char>> {
    match spec_yaml_print(v) {
        Ok(t) => Some(t),
        Err(_) => None,
    }
}

/// The printed error for a value that cannot be printed.
pub open spec fn spec_yaml_error(v: YamlView) -> Seq<char> {
    match spec_yaml_print(v) {
        Ok(_) => Seq::empty(),
        Err(m) => m,
    }
}

#[verifier::external_type_specification]
#[verifier::external_body]
pub struct ExSerdeYamlNumber(serde_yaml::Number);

/// Converts a `serde_yaml::Number`: an integer keeps its value, a float its printed text.
#[verifier::external_body]
fn yaml_number_from_serde(n: serde_yaml::Number) -> YamlNumber {
    match (n.as_u64(), n.as_i64()) {
        (Some(u), _) => YamlNumber::PosInt(u),
        (None, Some(i)) => YamlNumber::NegInt(i),
        (None, None) => YamlNumber::Float(n.to_string()),
    }
}

/// The inverse of `yaml_number_from_serde`: a float is read back from its text.
#[verifier::external_body]
fn yaml_number_to_serde(n: &YamlNumber) -> SerdeYaml {
    match n {
        YamlNumber::PosInt(u) => SerdeYaml::from(*u),
        YamlNumber::NegInt(i) => SerdeYaml::from(*i),
        YamlNumber::Float(t) => serde_yaml::from_str(t).unwrap_or(SerdeYaml::Null),
    }
}

/// Converts a `serde_yaml::Value` node for node; a tag keeps its printed form
/// (with the leading `!`).
#[verifier::external_body]
fn yaml_from_serde(value: SerdeYaml) -> YamlValue {
    match value {
        SerdeYaml::Null => YamlValue::Null,
        SerdeYaml::Bool(b) => YamlValue::Bool(b),
        SerdeYaml::Number(n) => YamlValue::Number(yaml_number_from_serde(n)),
        SerdeYaml::String(s) => YamlValue::String(s),
        SerdeYaml::Sequence(items) => YamlValue::Sequence(items.into_iter().map(yaml_from_serde).collect()),
        SerdeYaml::Mapping(map) => YamlValue::Mapping(map.into_iter().map(|(k, v)| (yaml_from_serde(k), yaml_from_serde(v))).collect()),
        SerdeYaml::Tagged(t) => YamlValue::Tagged(t.tag.to_string(), Box::new(yaml_from_serde(t.value))),
    }
}

/// The inverse of `yaml_from_serde`.
#[verifier::external_body]
fn yaml_to_serde(value: &YamlValue) -> SerdeYaml {
    match value {
        YamlValue::Null => SerdeYaml::Null,
        YamlValue::Bool(b) => SerdeYaml::Bool(*b),
        YamlValue::Number(n) => yaml_number_to_serde(n),
        YamlValue::String(s) => SerdeYaml::String(s.clone()),
        YamlValue::Sequence(items) => SerdeYaml::Sequence(items.iter().map(yaml_to_serde).collect()),
        YamlValue::Mapping(entries) => SerdeYaml::Mapping(entries.iter().map(|(k, v)| (yaml_to_serde(k), yaml_to_serde(v))).collect()),
        YamlValue::Tagged(tag, inner) => SerdeYaml::Tagged(Box::new(TaggedValue { tag: Tag::new(tag.clone()), value: yaml_to_serde(inner) })),
    }
}

/// Calls `serde_yaml::from_str::<serde_yaml::Value>`. The contract claims that
/// the result is a function of the text and that every tag it holds is
/// non-empty (a tag prints with a leading `!`).
#[verifier::external_body]
pub(crate) fn parse_yaml(text: &str) -> (r: Option<YamlValue>)
    ensures
        r matches Some(v) ==> spec_yaml_parse(text@) == Some(v@) && tags_nonempty(v@),
        r is None ==> spec_yaml_parse(text@) is None,
{
    serde_yaml::from_str::<SerdeYaml>(text).ok().map(yaml_from_serde)
}

/// Calls `serde_yaml::to_string`; the error is printed. The contract claims
/// only that the outcome is a function of the value.
#[verifier::external_body]
pub(crate) fn yaml_to_text(value: &YamlValue) -> (r: Result<String, String>)
    requires
        tags_nonempty(value@),
    ensures
        r matches Ok(s) ==> (spec_yaml_print(value@) matches Ok(got) && got == s@),
        r matches Err(m) ==> (spec_yaml_print(value@) matches Err(got) && got == m@),
{
    serde_yaml::to_string(&yaml_to_serde(value)).map_err(|e| e.to_string())
}

} // verus!
