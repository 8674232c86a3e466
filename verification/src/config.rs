//! Plugin configurations and their schema: the checks of string, integer,
//! boolean and enumerated values, the keys a configuration may hold, and how
//! values (secret ones among them) are stored and shown.
use vstd::prelude::*;
use crate::error::CoreError;
use crate::json::{spec_json_parse, JsonNumber, JsonValue, JsonView, NumberView};
use crate::text::{chars_eq, chars_of, decimal, decimal_exec, string_from_str, string_of};
use crate::uri::concat;

verus! {

/// What `regex::Regex::new` gives for a pattern: acceptance, or the error as
/// `regex::Error`'s `Display` prints it.
pub uninterp spec fn spec_regex_compile(pattern: Seq<char>) -> Result<(), Seq<char>>;

/// Whether `regex::Regex::new` accepts a pattern.
pub open spec fn spec_regex_accepts(pattern: Seq<char>) -> bool {
    spec_regex_compile(pattern) is Ok
}

/// The printed error for a pattern that is refused.
pub open spec fn spec_regex_error(pattern: Seq<char>) -> Seq<char> {
    match spec_regex_compile(pattern) {
        Ok(_) => Seq::empty(),
        Err(m) => m,
    }
}

/// Whether the compiled pattern matches somewhere in a text (`Regex::is_match`).
pub uninterp spec fn spec_regex_is_match(pattern: Seq<char>, text: Seq<char>) -> bool;

/// Compiles the pattern with `regex::Regex::new` and calls `is_match` on the
/// text; a refused pattern gives the error printed. The contract claims only
/// that the outcomes are functions of their arguments.
#[verifier::external_body]
fn regex_match(pattern: &str, text: &str) -> (r: Result<bool, String>)
    ensures
        r is Ok <==> spec_regex_compile(pattern@) is Ok,
        r matches Ok(b) ==> b == spec_regex_is_match(pattern@, text@),
        r matches Err(m) ==> (spec_regex_compile(pattern@) matches Err(got) && got == m@),
{
    regex::Regex::new(pattern).map(|regex| regex.is_match(text)).map_err(|error| error.to_string())
}

/// `字段 {field} ` followed by `rest`.
pub open spec fn field_message(field: Seq<char>, rest: Seq<char>) -> Seq<char> {
    "字段 "@ + field + rest
}

fn field_error(field: &str, rest: &str) -> (e: CoreError)
    ensures
        e matches CoreError::ConfigInvalid(m) && m@ == field_message(field@, rest@),
{
    let head = concat("字段 ", field);
    CoreError::ConfigInvalid(concat(head.as_str(), rest))
}

/// The outcome of checking a string value: its type, then its length in
/// characters against the bounds, then its pattern, which must itself be a
/// valid regular expression; each error message names the field.
pub open spec fn spec_string_check(
    field: Seq<char>,
    value: JsonView,
    min_length: Option<u64>,
    max_length: Option<u64>,
    pattern: Option<Seq<char>>,
) -> Result<Seq<char>, Seq<char>> {
    match value {
        JsonView::Str(text) => if min_length matches Some(min) && text.len() < min {
            Err(field_message(field, " 长度不能小于 "@ + decimal(min_length->0 as nat)))
        } else if max_length matches Some(max) && text.len() > max {
            Err(field_message(field, " 长度不能大于 "@ + decimal(max_length->0 as nat)))
        } else {
            match pattern {
                Some(p) => if !spec_regex_accepts(p) {
                    Err(field_message(field, " 的 pattern 非法："@ + spec_regex_error(p)))
                } else if !spec_regex_is_match(p, text) {
                    Err(field_message(field, " 不匹配 pattern 约束"@))
                } else {
                    Ok(text)
                },
                None => Ok(text),
            }
        },
        _ => Err(field_message(field, " 必须是 string"@)),
    }
}

/// Checks a value declared `string`; gives the string value.
pub fn validate_string_value(
    field_name: &str,
    value: &JsonValue,
    min_length: Option<u64>,
    max_length: Option<u64>,
    pattern: Option<&str>,
) -> (r: Result<JsonValue, CoreError>)
    ensures
        match spec_string_check(field_name@, value@, min_length, max_length, crate::web::sview(pattern)) {
            Ok(text) => r matches Ok(v) && v@ == JsonView::Str(text),
            Err(message) => r matches Err(e) && e matches CoreError::ConfigInvalid(m) && m@ == message,
        },
{
    let text = match value {
        JsonValue::String(t) => t,
        _ => return Err(field_error(field_name, " 必须是 string")),
    };
    let count = chars_of(text.as_str()).len();
    if let Some(min) = min_length {
        if (count as u64) < min {
            let digits = decimal_exec(min);
            let n = string_of(digits.as_slice());
            let rest = concat(" 长度不能小于 ", n.as_str());
            return Err(field_error(field_name, rest.as_str()));
        }
    }
    if let Some(max) = max_length {
        if (count as u64) > max {
            let digits = decimal_exec(max);
            let n = string_of(digits.as_slice());
            let rest = concat(" 长度不能大于 ", n.as_str());
            return Err(field_error(field_name, rest.as_str()));
        }
    }
    if let Some(p) = pattern {
        match regex_match(p, text.as_str()) {
            Ok(true) => {},
            Ok(false) => return Err(field_error(field_name, " 不匹配 pattern 约束")),
            Err(message) => {
                let rest = concat(" 的 pattern 非法：", message.as_str());
                return Err(field_error(field_name, rest.as_str()));
            },
        }
    }
    Ok(JsonValue::String(string_from_str(text.as_str())))
}

/// The integer a value declared `integer` holds: an `i64`, or a `u64` that fits one.
pub open spec fn spec_integer_value(value: JsonView) -> Option<i64> {
    match value {
        JsonView::Number(NumberView::NegInt(i)) => Some(i),
        JsonView::Number(NumberView::PosInt(u)) => if u <= i64::MAX {
            Some(u as i64)
        } else {
            None
        },
        _ => None,
    }
}

/// Reads a value declared `integer` (its bounds, compared as floats, are the caller's).
pub fn validate_integer_value(field_name: &str, value: &JsonValue) -> (r: Result<i64, CoreError>)
    ensures
        match spec_integer_value(value@) {
            Some(i) => r == Ok::<i64, CoreError>(i),
            None => r matches Err(e) && e matches CoreError::ConfigInvalid(m) && m@ == field_message(
                field_name@,
                " 必须是 integer"@,
            ),
        },
{
    match value {
        JsonValue::Number(JsonNumber::NegInt(i)) => Ok(*i),
        JsonValue::Number(JsonNumber::PosInt(u)) => if *u <= 9223372036854775807u64 {
            Ok(*u as i64)
        } else {
            Err(field_error(field_name, " 必须是 integer"))
        },
        _ => Err(field_error(field_name, " 必须是 integer")),
    }
}

/// The JSON form of an integer (`serde_json::Value::from(i64)`).
pub open spec fn integer_view(i: i64) -> JsonView {
    if i >= 0 {
        JsonView::Number(NumberView::PosInt(i as u64))
    } else {
        JsonView::Number(NumberView::NegInt(i))
    }
}

pub fn integer_json(i: i64) -> (r: JsonValue)
    ensures
        r@ == integer_view(i),
{
    if i >= 0 {
        JsonValue::Number(JsonNumber::PosInt(i as u64))
    } else {
        JsonValue::Number(JsonNumber::NegInt(i))
    }
}

/// Reads a value declared `boolean`.
pub fn validate_boolean_value(field_name: &str, value: &JsonValue) -> (r: Result<bool, CoreError>)
    ensures
        match value@ {
            JsonView::Bool(b) => r == Ok::<bool, CoreError>(b),
            _ => r matches Err(e) && e matches CoreError::ConfigInvalid(m) && m@ == field_message(
                field_name@,
                " 必须是 boolean"@,
            ),
        },
{
    match value {
        JsonValue::Bool(b) => Ok(*b),
        _ => Err(field_error(field_name, " 必须是 boolean")),
    }
}

/// The message for a property type the checks do not know.
pub fn unsupported_type_error(field_name: &str, property_type: &str) -> (e: CoreError)
    ensures
        e matches CoreError::ConfigInvalid(m) && m@ == field_message(field_name@, " 包含不支持类型："@) + property_type@,
{
    let rest = concat(" 包含不支持类型：", property_type);
    let e = field_error(field_name, rest.as_str());
    proof {
        assert(field_message(field_name@, rest@) =~= field_message(field_name@, " 包含不支持类型："@) + property_type@);
    }
    e
}

fn number_eq(a: &JsonNumber, b: &JsonNumber) -> (r: bool)
    ensures
        r == (crate::json::number_view(*a) == crate::json::number_view(*b)),
{
    match (a, b) {
        (JsonNumber::PosInt(x), JsonNumber::PosInt(y)) => *x == *y,
        (JsonNumber::NegInt(x), JsonNumber::NegInt(y)) => *x == *y,
        (JsonNumber::Float(x), JsonNumber::Float(y)) => {
            let xc = chars_of(x.as_str());
            let yc = chars_of(y.as_str());
            chars_eq(xc.as_slice(), yc.as_slice())
        },
        _ => false,
    }
}

/// Whether two documents are equal (a float compared by its printed text).
pub fn json_equal(a: &JsonValue, b: &JsonValue) -> (r: bool)
    ensures
        r == (a@ == b@),
    decreases a,
{
    match (a, b) {
        (JsonValue::Null, JsonValue::Null) => true,
        (JsonValue::Bool(x), JsonValue::Bool(y)) => *x == *y,
        (JsonValue::Number(x), JsonValue::Number(y)) => number_eq(x, y),
        (JsonValue::String(x), JsonValue::String(y)) => {
            let xc = chars_of(x.as_str());
            let yc = chars_of(y.as_str());
            chars_eq(xc.as_slice(), yc.as_slice())
        },
        (JsonValue::Array(xs), JsonValue::Array(ys)) => {
            proof {
                crate::json::lemma_json_views(xs@);
                crate::json::lemma_json_views(ys@);
            }
            if xs.len() != ys.len() {
                proof {
                    assert(a@->Array_0.len() != b@->Array_0.len());
                }
                return false;
            }
            let mut i: usize = 0;
            while i < xs.len()
                invariant
                    i <= xs@.len() == ys@.len(),
                    a@ == JsonView::Array(crate::json::json_views(xs@)),
                    b@ == JsonView::Array(crate::json::json_views(ys@)),
                    crate::json::json_views(xs@).len() == xs@.len(),
                    crate::json::json_views(ys@).len() == ys@.len(),
                    forall|k: int| 0 <= k < xs@.len() ==> #[trigger] crate::json::json_views(xs@)[k] == xs@[k]@,
                    forall|k: int| 0 <= k < ys@.len() ==> #[trigger] crate::json::json_views(ys@)[k] == ys@[k]@,
                    forall|k: int| 0 <= k < i ==> xs@[k]@ == ys@[k]@,
                    *a == JsonValue::Array(*xs),
                decreases xs.len() - i,
            {
                assert(decreases_to!(*a => a->Array_0));
                assert(decreases_to!(a->Array_0 => xs@));
                assert(decreases_to!(xs@ => xs@[i as int]));
                if !json_equal(&xs[i], &ys[i]) {
                    proof {
                        assert(crate::json::json_views(xs@)[i as int] != crate::json::json_views(ys@)[i as int]);
                    }
                    return false;
                }
                i = i + 1;
            }
            proof {
                assert(crate::json::json_views(xs@) =~= crate::json::json_views(ys@));
            }
            true
        },
        (JsonValue::Object(xs), JsonValue::Object(ys)) => {
            proof {
                crate::json::lemma_entry_views(xs@);
                crate::json::lemma_entry_views(ys@);
            }
            if xs.len() != ys.len() {
                proof {
                    assert(a@->Object_0.len() != b@->Object_0.len());
                }
                return false;
            }
            let mut i: usize = 0;
            while i < xs.len()
                invariant
                    i <= xs@.len() == ys@.len(),
                    a@ == JsonView::Object(crate::json::entry_views(xs@)),
                    b@ == JsonView::Object(crate::json::entry_views(ys@)),
                    crate::json::entry_views(xs@).len() == xs@.len(),
                    crate::json::entry_views(ys@).len() == ys@.len(),
                    forall|k: int|
                        0 <= k < xs@.len() ==> #[trigger] crate::json::entry_views(xs@)[k] == (xs@[k].0@, xs@[k].1@),
                    forall|k: int|
                        0 <= k < ys@.len() ==> #[trigger] crate::json::entry_views(ys@)[k] == (ys@[k].0@, ys@[k].1@),
                    forall|k: int| 0 <= k < i ==> xs@[k].0@ == ys@[k].0@ && xs@[k].1@ == ys@[k].1@,
                    *a == JsonValue::Object(*xs),
                decreases xs.len() - i,
            {
                assert(decreases_to!(*a => a->Object_0));
                assert(decreases_to!(a->Object_0 => xs@));
                assert(decreases_to!(xs@ => xs@[i as int]));
                assert(decreases_to!(xs@[i as int] => xs@[i as int].1));
                let kx = chars_of(xs[i].0.as_str());
                let ky = chars_of(ys[i].0.as_str());
                if !chars_eq(kx.as_slice(), ky.as_slice()) || !json_equal(&xs[i].1, &ys[i].1) {
                    proof {
                        assert(crate::json::entry_views(xs@)[i as int] != crate::json::entry_views(ys@)[i as int]);
                    }
                    return false;
                }
                i = i + 1;
            }
            proof {
                assert(crate::json::entry_views(xs@) =~= crate::json::entry_views(ys@));
            }
            true
        },
        _ => false,
    }
}

/// A checked value must be one of the enumerated values, when there are any.
pub fn check_enum_value(field_name: &str, validated: &JsonValue, enum_values: Option<&Vec<JsonValue>>) -> (r: Result<(), CoreError>)
    ensures
        enum_values is None ==> r is Ok,
        enum_values is Some ==> (r is Ok <==> exists|i: int|
            0 <= i < enum_values->0@.len() && #[trigger] enum_values->0@[i]@ == validated@),
        r matches Err(e) ==> (e matches CoreError::ConfigInvalid(m) && m@ == field_message(
            field_name@,
            " 必须在枚举值范围内"@,
        )),
{
    let items = match enum_values {
        Some(items) => items,
        None => return Ok(()),
    };
    let mut i: usize = 0;
    while i < items.len()
        invariant
            i <= items@.len(),
            enum_values == Some(items),
            forall|k: int| 0 <= k < i ==> items@[k]@ != validated@,
        decreases items.len() - i,
    {
        if json_equal(&items[i], validated) {
            assert(items@[i as int]@ == validated@);
            assert(enum_values->0@ == items@);
            assert(enum_values->0@[i as int]@ == validated@);
            return Ok(());
        }
        i = i + 1;
    }
    Err(field_error(field_name, " 必须在枚举值范围内"))
}

// ---------------------------------------------------------------------------
// Stored configuration values
// ---------------------------------------------------------------------------

/// What a secret configuration value is shown as.
pub const SECRET_PLACEHOLDER: &'static str = "••••••";

/// A string, a number or a boolean.
pub open spec fn spec_is_scalar(v: JsonView) -> bool {
    v is Str || v is Number || v is Bool
}

pub fn is_scalar_json(value: &JsonValue) -> (r: bool)
    ensures
        r == spec_is_scalar(value@),
{
    match value {
        JsonValue::String(_) | JsonValue::Number(_) | JsonValue::Bool(_) => true,
        _ => false,
    }
}

/// The entries with the value of each secret field that is present replaced
/// by the placeholder; keys and order are kept.
pub open spec fn spec_masked(secret_fields: Seq<Seq<char>>, entries: Seq<(Seq<char>, JsonView)>) -> Seq<(Seq<char>, JsonView)> {
    entries.map_values(
        |e: (Seq<char>, JsonView)|
            if secret_fields.contains(e.0) {
                (e.0, JsonView::Str(SECRET_PLACEHOLDER@))
            } else {
                e
            },
    )
}

fn contains_text(items: &Vec<String>, key: &str) -> (r: bool)
    ensures
        r == crate::uri::strings_view(items@).contains(key@),
{
    let ghost v = crate::uri::strings_view(items@);
    let mut i: usize = 0;
    while i < items.len()
        invariant
            i <= items@.len(),
            v == crate::uri::strings_view(items@),
            v.len() == items@.len(),
            forall|j: int| 0 <= j < i ==> v[j] != key@,
        decreases items.len() - i,
    {
        let a = chars_of(items[i].as_str());
        let b = chars_of(key);
        if chars_eq(a.as_slice(), b.as_slice()) {
            assert(v[i as int] == key@);
            return true;
        }
        i = i + 1;
    }
    false
}

/// A configuration as it is shown: each secret field holds the placeholder.
pub fn masked_config(secret_fields: &Vec<String>, normalized: &Vec<(String, JsonValue)>) -> (r: Vec<(String, JsonValue)>)
    ensures
        crate::json::entry_views(r@) == spec_masked(crate::uri::strings_view(secret_fields@), crate::json::entry_views(normalized@)),
{
    proof {
        crate::json::lemma_entry_views(normalized@);
    }
    let ghost sf = crate::uri::strings_view(secret_fields@);
    let ghost target = spec_masked(sf, crate::json::entry_views(normalized@));
    let mut out: Vec<(String, JsonValue)> = Vec::new();
    let mut i: usize = 0;
    while i < normalized.len()
        invariant
            i <= normalized@.len(),
            sf == crate::uri::strings_view(secret_fields@),
            target == spec_masked(sf, crate::json::entry_views(normalized@)),
            crate::json::entry_views(normalized@).len() == normalized@.len(),
            forall|k: int|
                0 <= k < normalized@.len() ==> #[trigger] crate::json::entry_views(normalized@)[k] == (
                    normalized@[k].0@,
                    normalized@[k].1@,
                ),
            crate::json::entry_views(out@) =~= target.take(i as int),
        decreases normalized.len() - i,
    {
        proof {
            crate::json::lemma_entry_views(out@);
        }
        let key = string_from_str(normalized[i].0.as_str());
        let value = if contains_text(secret_fields, normalized[i].0.as_str()) {
            JsonValue::String(string_from_str(SECRET_PLACEHOLDER))
        } else {
            crate::json::copy_json(&normalized[i].1)
        };
        let ghost before = out@;
        out.push((key, value));
        proof {
            crate::json::lemma_entry_views(out@);
            crate::json::lemma_entry_views(before);
            assert(crate::json::entry_views(out@) =~= crate::json::entry_views(before).push((key@, value@)));
        }
        i = i + 1;
    }
    assert(target.take(normalized@.len() as int) =~= target);
    out
}

/// The text a secret value is stored as, for a property of type
/// `property_type`: `Ok(None)` for a float number, whose text the caller
/// prints; an error when the value does not have the declared type.
pub open spec fn spec_secret_text(field: Seq<char>, property_type: Seq<char>, value: JsonView) -> Result<
    Option<Seq<char>>,
    Seq<char>,
> {
    if property_type == "string"@ {
        match value {
            JsonView::Str(s) => Ok(Some(s)),
            _ => Err(field_message(field, " 必须是 string"@)),
        }
    } else if property_type == "number"@ || property_type == "integer"@ {
        match value {
            JsonView::Number(NumberView::PosInt(u)) => Ok(Some(decimal(u as nat))),
            JsonView::Number(NumberView::NegInt(i)) => Ok(Some(crate::text::signed_decimal(i as int))),
            JsonView::Number(NumberView::Float(_)) => Ok(None),
            _ => Err(field_message(field, " 必须是 number/integer"@)),
        }
    } else if property_type == "boolean"@ {
        match value {
            JsonView::Bool(b) => Ok(Some(if b { "true"@ } else { "false"@ })),
            _ => Err(field_message(field, " 必须是 boolean"@)),
        }
    } else {
        Err(field_message(field, " 包含不支持类型："@) + property_type)
    }
}

/// The text a validated secret value is stored as (see `spec_secret_text`).
pub fn stringify_secret_value(field_name: &str, property_type: &str, value: &JsonValue) -> (r: Result<Option<String>, CoreError>)
    ensures
        match spec_secret_text(field_name@, property_type@, value@) {
            Ok(t) => r matches Ok(o) && crate::uri::opt_str_view(o) == t,
            Err(m) => r matches Err(e) && e matches CoreError::ConfigInvalid(msg) && msg@ == m,
        },
{
    let t = chars_of(property_type);
    if crate::text::chars_eq_str(t.as_slice(), "string") {
        match value {
            JsonValue::String(s) => Ok(Some(string_from_str(s.as_str()))),
            _ => Err(field_error(field_name, " 必须是 string")),
        }
    } else if crate::text::chars_eq_str(t.as_slice(), "number") || crate::text::chars_eq_str(t.as_slice(), "integer") {
        match value {
            JsonValue::Number(JsonNumber::PosInt(u)) => {
                let d = decimal_exec(*u);
                Ok(Some(string_of(d.as_slice())))
            },
            JsonValue::Number(JsonNumber::NegInt(i)) => Ok(Some(crate::text::signed_decimal_exec(*i as i128))),
            JsonValue::Number(JsonNumber::Float(_)) => Ok(None),
            _ => Err(field_error(field_name, " 必须是 number/integer")),
        }
    } else if crate::text::chars_eq_str(t.as_slice(), "boolean") {
        match value {
            JsonValue::Bool(b) => Ok(Some(string_from_str(if *b { "true" } else { "false" }))),
            _ => Err(field_error(field_name, " 必须是 boolean")),
        }
    } else {
        Err(unsupported_type_error(field_name, property_type))
    }
}

/// The value a stored text stands for, before it is checked against its
/// property: the text read as JSON when it is JSON; otherwise (texts stored
/// bare) the text itself for `string`, its `i64` for `integer` and its
/// boolean for `boolean`. `Ok(None)` for a bare `number`, which the caller
/// reads as a float.
pub open spec fn spec_stored_value(field: Seq<char>, property_type: Seq<char>, raw: Seq<char>) -> Result<
    Option<JsonView>,
    Seq<char>,
> {
    match spec_json_parse(raw) {
        Some(v) => Ok(Some(v)),
        None => if property_type == "string"@ {
            Ok(Some(JsonView::Str(raw)))
        } else if property_type == "number"@ {
            Ok(None)
        } else if property_type == "integer"@ {
            match crate::text::parse_i64(raw) {
                Some(i) => Ok(Some(integer_view(i as i64))),
                None => Err(field_message(field, " integer 解析失败："@ + crate::text::i64_error_text(raw))),
            }
        } else if property_type == "boolean"@ {
            if raw == "true"@ {
                Ok(Some(JsonView::Bool(true)))
            } else if raw == "false"@ {
                Ok(Some(JsonView::Bool(false)))
            } else {
                Err(field_message(field, " boolean 解析失败：provided string was not `true` or `false`"@))
            }
        } else {
            Err(field_message(field, " 包含不支持类型："@) + property_type)
        },
    }
}

/// Reads a stored configuration text (see `spec_stored_value`).
pub fn stored_typed_value(field_name: &str, property_type: &str, raw: &str) -> (r: Result<Option<JsonValue>, CoreError>)
    ensures
        match spec_stored_value(field_name@, property_type@, raw@) {
            Ok(v) => r matches Ok(o) && match o {
                Some(x) => v == Some(x@),
                None => v is None,
            },
            Err(m) => r matches Err(e) && e matches CoreError::ConfigInvalid(msg) && msg@ == m,
        },
{
    match crate::json::parse_json(raw) {
        Ok(v) => return Ok(Some(v)),
        Err(_) => {},
    }
    let t = chars_of(property_type);
    if crate::text::chars_eq_str(t.as_slice(), "string") {
        Ok(Some(JsonValue::String(string_from_str(raw))))
    } else if crate::text::chars_eq_str(t.as_slice(), "number") {
        Ok(None)
    } else if crate::text::chars_eq_str(t.as_slice(), "integer") {
        let c = chars_of(raw);
        match crate::text::parse_i64_exec(c.as_slice()) {
            Ok(i) => Ok(Some(integer_json(i))),
            Err(m) => {
                let rest = concat(" integer 解析失败：", m.as_str());
                Err(field_error(field_name, rest.as_str()))
            },
        }
    } else if crate::text::chars_eq_str(t.as_slice(), "boolean") {
        let c = chars_of(raw);
        if crate::text::chars_eq_str(c.as_slice(), "true") {
            Ok(Some(JsonValue::Bool(true)))
        } else if crate::text::chars_eq_str(c.as_slice(), "false") {
            Ok(Some(JsonValue::Bool(false)))
        } else {
            Err(field_error(field_name, " boolean 解析失败：provided string was not `true` or `false`"))
        }
    } else {
        Err(unsupported_type_error(field_name, property_type))
    }
}

/// The keys of a configuration checked against its schema: every required
/// field is present (the first missing one is named), and, unless the schema
/// allows additional properties, every key is a declared property (the first
/// undeclared key, in the given order, is named).
pub open spec fn spec_config_keys_error(
    required: Seq<Seq<char>>,
    properties: Seq<Seq<char>>,
    additional_properties: Option<bool>,
    config_keys: Seq<Seq<char>>,
) -> Option<Seq<char>> {
    match first_absent(required, config_keys) {
        Some(k) => Some("缺少必填字段："@ + k),
        None => if additional_properties == Some(true) {
            None
        } else {
            match first_absent(config_keys, properties) {
                Some(k) => Some("字段未在 schema 中定义："@ + k),
                None => None,
            }
        },
    }
}

/// The first of `items` that `pool` does not hold.
pub open spec fn first_absent(items: Seq<Seq<char>>, pool: Seq<Seq<char>>) -> Option<Seq<char>>
    decreases items.len(),
{
    if items.len() == 0 {
        None
    } else if !pool.contains(items[0]) {
        Some(items[0])
    } else {
        first_absent(items.drop_first(), pool)
    }
}

fn first_absent_exec(items: &Vec<String>, pool: &Vec<String>) -> (r: Option<String>)
    ensures
        crate::uri::opt_str_view(r) == first_absent(crate::uri::strings_view(items@), crate::uri::strings_view(pool@)),
{
    let ghost iv = crate::uri::strings_view(items@);
    let ghost pv = crate::uri::strings_view(pool@);
    let mut i: usize = 0;
    assert(iv.skip(0) =~= iv);
    while i < items.len()
        invariant
            i <= items@.len(),
            iv == crate::uri::strings_view(items@),
            pv == crate::uri::strings_view(pool@),
            iv.len() == items@.len(),
            first_absent(iv, pv) == first_absent(iv.skip(i as int), pv),
        decreases items.len() - i,
    {
        assert(iv.skip(i as int)[0] == iv[i as int]);
        assert(iv.skip(i as int).drop_first() =~= iv.skip(i + 1));
        if !contains_text(pool, items[i].as_str()) {
            return Some(string_from_str(items[i].as_str()));
        }
        i = i + 1;
    }
    None
}

/// Checks the keys of a configuration against its schema (see `spec_config_keys_error`).
pub fn check_config_keys(
    required: &Vec<String>,
    properties: &Vec<String>,
    additional_properties: Option<bool>,
    config_keys: &Vec<String>,
) -> (r: Result<(), CoreError>)
    ensures
        match spec_config_keys_error(
            crate::uri::strings_view(required@),
            crate::uri::strings_view(properties@),
            additional_properties,
            crate::uri::strings_view(config_keys@),
        ) {
            None => r is Ok,
            Some(m) => r matches Err(e) && e matches CoreError::ConfigInvalid(msg) && msg@ == m,
        },
{
    if let Some(k) = first_absent_exec(required, config_keys) {
        return Err(CoreError::ConfigInvalid(concat("缺少必填字段：", k.as_str())));
    }
    if additional_properties == Some(true) {
        return Ok(());
    }
    match first_absent_exec(config_keys, properties) {
        Some(k) => Err(CoreError::ConfigInvalid(concat("字段未在 schema 中定义：", k.as_str()))),
        None => Ok(()),
    }
}

} // verus!
