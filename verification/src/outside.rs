//! Reading JSON, TOML and RFC 3339 times. What the outside parsers return is
//! given names, over which the rest of the library is exact.

use crate::text::{parse_signed, same, signed_decimal, signed_decimal_text, signed_value};
use vstd::prelude::*;
use vstd::string::*;

verus! {

broadcast use vstd::group_vstd_default;

/// The kinds of JSON text.
#[derive(Debug, Clone, Copy, PartialEq, Eq, Structural)]
pub enum JsonKind {
    Broken,
    Null,
    Bool,
    Number,
    Text,
    Array,
    Object,
}

/// What kind of value a JSON text holds.
pub uninterp spec fn json_kind(text: Seq<char>) -> JsonKind;

/// Why a text is no JSON; none where it is.
pub uninterp spec fn json_problem(text: Seq<char>) -> Option<Seq<char>>;

/// The string that a JSON text holds, where it holds a string.
pub uninterp spec fn json_string(text: Seq<char>) -> Option<Seq<char>>;

/// The signed integer that a JSON text holds, where it holds one that fits.
pub uninterp spec fn json_integer(text: Seq<char>) -> Option<i64>;

/// The unsigned integer that a JSON text holds, where it holds one that fits.
pub uninterp spec fn json_unsigned(text: Seq<char>) -> Option<u64>;

/// The member of a JSON object under a key, as JSON text.
pub uninterp spec fn json_member(text: Seq<char>, key: Seq<char>) -> Option<Seq<char>>;

/// The string at a JSON pointer.
pub uninterp spec fn json_string_at(text: Seq<char>, pointer: Seq<char>) -> Option<Seq<char>>;

/// A JSON text in compact form; a text that is no JSON stays as it is.
pub uninterp spec fn json_compact(text: Seq<char>) -> Seq<char>;

/// The JSON text of a string.
pub uninterp spec fn json_quoted(value: Seq<char>) -> Seq<char>;

/// The seconds since the epoch of an RFC 3339 time, or what is wrong with it.
pub uninterp spec fn rfc3339_seconds(text: Seq<char>) -> Result<i64, Seq<char>>;

/// `serde_json::from_str` into a `serde_json::Value`, whose variant is told.
/// The result is named: it depends on the text alone.
#[verifier::external_body]
pub(crate) fn kind_of_json(text: &str) -> (r: JsonKind)
    ensures
        r == json_kind(text@),
{
    match serde_json::from_str::<serde_json::Value>(text) {
        Err(_) => JsonKind::Broken,
        Ok(serde_json::Value::Null) => JsonKind::Null,
        Ok(serde_json::Value::Bool(_)) => JsonKind::Bool,
        Ok(serde_json::Value::Number(_)) => JsonKind::Number,
        Ok(serde_json::Value::String(_)) => JsonKind::Text,
        Ok(serde_json::Value::Array(_)) => JsonKind::Array,
        Ok(serde_json::Value::Object(_)) => JsonKind::Object,
    }
}

/// The error of `serde_json::from_str`, as text. The result is named: it
/// depends on the text alone.
#[verifier::external_body]
pub(crate) fn problem_of_json(text: &str) -> (r: Option<String>)
    ensures
        r.deep_view() == json_problem(text@),
{
    serde_json::from_str::<serde_json::Value>(text).err().map(|error| error.to_string())
}

/// `serde_json::Value::as_str` on a parsed text. The result is named: it
/// depends on the text alone.
#[verifier::external_body]
pub(crate) fn string_of_json(text: &str) -> (r: Option<String>)
    ensures
        r.deep_view() == json_string(text@),
{
    let value = serde_json::from_str::<serde_json::Value>(text).ok()?;
    value.as_str().map(str::to_owned)
}

/// `serde_json::Value::as_i64` on a parsed text. The result is named: it
/// depends on the text alone.
#[verifier::external_body]
pub(crate) fn integer_of_json(text: &str) -> (r: Option<i64>)
    ensures
        r == json_integer(text@),
{
    serde_json::from_str::<serde_json::Value>(text).ok()?.as_i64()
}

/// `serde_json::Value::as_u64` on a parsed text. The result is named: it
/// depends on the text alone.
#[verifier::external_body]
pub(crate) fn unsigned_of_json(text: &str) -> (r: Option<u64>)
    ensures
        r == json_unsigned(text@),
{
    serde_json::from_str::<serde_json::Value>(text).ok()?.as_u64()
}

/// `serde_json::Value::get` on a parsed text; the member is rendered as text.
/// The result is named: it depends on the text and the key alone.
#[verifier::external_body]
pub(crate) fn member_of_json(text: &str, key: &str) -> (r: Option<String>)
    ensures
        r.deep_view() == json_member(text@, key@),
{
    let value = serde_json::from_str::<serde_json::Value>(text).ok()?;
    value.get(key).map(|member| member.to_string())
}

/// `serde_json::Value::pointer` on a parsed text, where a string stands there.
/// The result is named: it depends on the text and the pointer alone.
#[verifier::external_body]
pub(crate) fn string_at_pointer(text: &str, pointer: &str) -> (r: Option<String>)
    ensures
        r.deep_view() == json_string_at(text@, pointer@),
{
    let value = serde_json::from_str::<serde_json::Value>(text).ok()?;
    value.pointer(pointer)?.as_str().map(str::to_owned)
}

/// The `Display` form of the `serde_json::Value` of a text. The result is
/// named: it depends on the text alone.
#[verifier::external_body]
pub(crate) fn compact_json(text: &str) -> (r: String)
    ensures
        r@ == json_compact(text@),
{
    match serde_json::from_str::<serde_json::Value>(text) {
        Ok(value) => value.to_string(),
        Err(_) => text.to_owned(),
    }
}

/// The `Display` form of a `serde_json::Value::String`. The result is named:
/// it depends on the string alone.
#[verifier::external_body]
pub(crate) fn quote_json(value: &str) -> (r: String)
    ensures
        r@ == json_quoted(value@),
{
    serde_json::Value::String(value.to_owned()).to_string()
}

/// `chrono::DateTime::parse_from_rfc3339` and `chrono::DateTime::timestamp`.
/// The result is named: it depends on the text alone.
#[verifier::external_body]
pub(crate) fn seconds_of_rfc3339(text: &str) -> (r: Result<i64, String>)
    ensures
        match r {
            Ok(seconds) => rfc3339_seconds(text@) == Ok::<i64, Seq<char>>(seconds),
            Err(problem) => rfc3339_seconds(text@) == Err::<i64, Seq<char>>(problem@),
        },
{
    match chrono::DateTime::parse_from_rfc3339(text) {
        Ok(time) => Ok(time.timestamp()),
        Err(error) => Err(error.to_string()),
    }
}

/// What a TOML text holds under a key.
#[derive(Debug, PartialEq, Eq)]
pub enum TomlField {
    Broken(String),
    Absent,
    NotText,
    Text(String),
}

#[verifier::ext_equal]
pub enum TomlFieldView {
    Broken(Seq<char>),
    Absent,
    NotText,
    Text(Seq<char>),
}

impl DeepView for TomlField {
    type V = TomlFieldView;

    open spec fn deep_view(&self) -> TomlFieldView {
        match self {
            TomlField::Broken(problem) => TomlFieldView::Broken(problem@),
            TomlField::Absent => TomlFieldView::Absent,
            TomlField::NotText => TomlFieldView::NotText,
            TomlField::Text(value) => TomlFieldView::Text(value@),
        }
    }
}

/// What a TOML text holds under a key.
pub uninterp spec fn toml_field(text: Seq<char>, key: Seq<char>) -> TomlFieldView;

/// `toml::from_str` into a `toml::Value`, then `get` and `as_str`. The result
/// is named: it depends on the text and the key alone.
#[verifier::external_body]
pub(crate) fn field_of_toml(text: &str, key: &str) -> (r: TomlField)
    ensures
        r.deep_view() == toml_field(text@, key@),
{
    match toml::from_str::<toml::Value>(text) {
        Err(error) => TomlField::Broken(error.to_string()),
        Ok(table) => match table.get(key) {
            None => TomlField::Absent,
            Some(toml::Value::String(value)) => TomlField::Text(value.clone()),
            Some(_) => TomlField::NotText,
        },
    }
}

/// Bytes read as UTF-8, with what is no UTF-8 replaced.
pub uninterp spec fn lossy_text(bytes: Seq<u8>) -> Seq<char>;

/// `String::from_utf8_lossy`. The result is named: it depends on the bytes
/// alone.
#[verifier::external_body]
pub(crate) fn text_from_bytes(bytes: &Vec<u8>) -> (r: String)
    ensures
        r@ == lossy_text(bytes@),
{
    String::from_utf8_lossy(bytes).into_owned()
}

/// A JSON value: the text of any value, or a string or an integer that stands
/// for itself.
#[derive(Debug, PartialEq, Eq)]
pub enum JsonValue {
    Raw(String),
    Text(String),
    Integer(i64),
}

#[verifier::ext_equal]
pub enum JsonView {
    Raw(Seq<char>),
    Text(Seq<char>),
    Integer(i64),
}

impl DeepView for JsonValue {
    type V = JsonView;

    open spec fn deep_view(&self) -> JsonView {
        match self {
            JsonValue::Raw(text) => JsonView::Raw(text@),
            JsonValue::Text(value) => JsonView::Text(value@),
            JsonValue::Integer(value) => JsonView::Integer(*value),
        }
    }
}

impl Clone for JsonValue {
    fn clone(&self) -> (r: Self)
        ensures
            r.deep_view() == self.deep_view(),
    {
        match self {
            JsonValue::Raw(text) => JsonValue::Raw(text.clone()),
            JsonValue::Text(value) => JsonValue::Text(value.clone()),
            JsonValue::Integer(value) => JsonValue::Integer(*value),
        }
    }
}

/// The string that a value is.
pub open spec fn as_string(value: JsonView) -> Option<Seq<char>> {
    match value {
        JsonView::Raw(text) => json_string(text),
        JsonView::Text(value) => Some(value),
        JsonView::Integer(_) => None,
    }
}

/// The string at a pointer into a value. The empty pointer leads to the value
/// itself.
pub open spec fn string_below(value: JsonView, pointer: Seq<char>) -> Option<Seq<char>> {
    match value {
        JsonView::Raw(text) => json_string_at(text, pointer),
        JsonView::Text(value) => if pointer == ""@ {
            Some(value)
        } else {
            None
        },
        JsonView::Integer(_) => None,
    }
}

/// A value has a member under a key.
pub open spec fn has_member(value: JsonView, key: Seq<char>) -> bool {
    match value {
        JsonView::Raw(text) => json_member(text, key) is Some,
        _ => false,
    }
}

/// A value is null.
pub open spec fn is_null(value: JsonView) -> bool {
    value matches JsonView::Raw(text) && json_kind(text) is Null
}

/// How a value is written in a message.
pub open spec fn rendered(value: JsonView) -> Seq<char> {
    match value {
        JsonView::Raw(text) => json_compact(text),
        JsonView::Text(value) => json_quoted(value),
        JsonView::Integer(value) => signed_decimal(value as int),
    }
}

/// The second that a string gives: a decimal number, else an RFC 3339 time.
pub open spec fn second_of_text(text: Seq<char>) -> Option<int> {
    match signed_value(text) {
        Some(n) => Some(n),
        None => match rfc3339_seconds(text) {
            Ok(seconds) => Some(seconds as int),
            Err(_) => None,
        },
    }
}

/// The second that a value gives, where it is an integer or a string that
/// gives one.
pub open spec fn second_of(value: JsonView) -> Option<int> {
    match value {
        JsonView::Raw(text) => if json_kind(text) is Number {
            match json_integer(text) {
                Some(n) => Some(n as int),
                None => None,
            }
        } else if json_kind(text) is Text {
            match json_string(text) {
                Some(inner) => second_of_text(inner),
                None => None,
            }
        } else {
            None
        },
        JsonView::Text(inner) => second_of_text(inner),
        JsonView::Integer(n) => Some(n as int),
    }
}

/// The second that a string gives, with what an RFC 3339 reader said of it.
pub fn second_from(text: &str, time: Result<i64, String>) -> (r: Option<i64>)
    ensures
        match signed_value(text@) {
            Some(n) => r matches Some(m) && m == n,
            None => r == match time {
                Ok(seconds) => Some(seconds),
                Err(_) => None,
            },
        },
{
    match parse_signed(text) {
        Some(n) => Some(n),
        None => match time {
            Ok(seconds) => Some(seconds),
            Err(_) => None,
        },
    }
}

/// The second that a value gives.
pub fn parse_timestamp(value: &JsonValue) -> (r: Option<i64>)
    ensures
        match second_of(value.deep_view()) {
            Some(n) => r matches Some(m) && m == n,
            None => r is None,
        },
{
    match value {
        JsonValue::Raw(text) => match kind_of_json(text.as_str()) {
            JsonKind::Number => integer_of_json(text.as_str()),
            JsonKind::Text => match string_of_json(text.as_str()) {
                Some(inner) => second_from(inner.as_str(), seconds_of_rfc3339(inner.as_str())),
                None => None,
            },
            _ => None,
        },
        JsonValue::Text(inner) => second_from(inner.as_str(), seconds_of_rfc3339(inner.as_str())),
        JsonValue::Integer(n) => Some(*n),
    }
}

impl JsonValue {
    pub fn as_str(&self) -> (r: Option<String>)
        ensures
            r.deep_view() == as_string(self.deep_view()),
    {
        match self {
            JsonValue::Raw(text) => string_of_json(text.as_str()),
            JsonValue::Text(value) => Some(value.clone()),
            JsonValue::Integer(_) => None,
        }
    }

    pub fn string_at(&self, pointer: &str) -> (r: Option<String>)
        ensures
            r.deep_view() == string_below(self.deep_view(), pointer@),
    {
        match self {
            JsonValue::Raw(text) => string_at_pointer(text.as_str(), pointer),
            JsonValue::Text(value) => if same(pointer, "") {
                Some(value.clone())
            } else {
                None
            },
            JsonValue::Integer(_) => None,
        }
    }

    pub fn has(&self, key: &str) -> (r: bool)
        ensures
            r == has_member(self.deep_view(), key@),
    {
        match self {
            JsonValue::Raw(text) => member_of_json(text.as_str(), key).is_some(),
            _ => false,
        }
    }

    pub fn null(&self) -> (r: bool)
        ensures
            r == is_null(self.deep_view()),
    {
        match self {
            JsonValue::Raw(text) => kind_of_json(text.as_str()) == JsonKind::Null,
            _ => false,
        }
    }

    /// How the value is written in a message.
    pub fn render(&self) -> (r: String)
        ensures
            r@ == rendered(self.deep_view()),
    {
        match self {
            JsonValue::Raw(text) => compact_json(text.as_str()),
            JsonValue::Text(value) => quote_json(value.as_str()),
            JsonValue::Integer(value) => signed_decimal_text(*value),
        }
    }
}

} // verus!
