//! A TOML document as the manifest logic reads it, with the lookups that
//! `toml::Value` offers (`get`, `as_str`, `as_array`, `as_integer`).
use vstd::prelude::*;
use crate::text::text_is;

verus! {

/// A TOML value. A table keeps its entries with their keys; floats and
/// date-times are told apart from the other kinds, but their contents are
/// never read.
pub enum TomlValue {
    String(String),
    Integer(i64),
    Float,
    Boolean(bool),
    Datetime,
    Array(Vec<TomlValue>),
    Table(Vec<(String, TomlValue)>),
}

/// The value of the first entry of a table under `key`.
pub open spec fn table_lookup(t: Seq<(String, TomlValue)>, key: Seq<char>) -> Option<TomlValue>
    decreases t.len(),
{
    if t.len() == 0 {
        None
    } else if t[0].0@ == key {
        Some(t[0].1)
    } else {
        table_lookup(t.drop_first(), key)
    }
}

/// `Value::get` with a string key: a lookup when the value is a table.
pub open spec fn toml_get(v: TomlValue, key: Seq<char>) -> Option<TomlValue> {
    match v {
        TomlValue::Table(t) => table_lookup(t@, key),
        _ => None,
    }
}

/// `Value::as_str`.
pub open spec fn toml_as_str(v: TomlValue) -> Option<Seq<char>> {
    match v {
        TomlValue::String(s) => Some(s@),
        _ => None,
    }
}

/// `Value::as_integer`.
pub open spec fn toml_as_integer(v: TomlValue) -> Option<i64> {
    match v {
        TomlValue::Integer(i) => Some(i),
        _ => None,
    }
}

/// An optional reference holds what an optional value holds.
pub open spec fn toml_refers_to(r: Option<&TomlValue>, v: Option<TomlValue>) -> bool {
    match r {
        Some(x) => v == Some(*x),
        None => v is None,
    }
}

/// The value of the first entry of a table under `key` (`Table::get`).
pub fn table_lookup_ref<'a>(t: &'a Vec<(String, TomlValue)>, key: &str) -> (r: Option<
    &'a TomlValue,
>)
    ensures
        toml_refers_to(r, table_lookup(t@, key@)),
{
    let n = t.len();
    let mut i: usize = 0;
    assert(t@.skip(0) == t@);
    while i < n
        invariant
            n == t@.len(),
            i <= n,
            table_lookup(t@, key@) == table_lookup(t@.skip(i as int), key@),
        decreases n - i,
    {
        assert(t@.skip(i as int).drop_first() == t@.skip(i + 1));
        assert(t@.skip(i as int)[0] == t@[i as int]);
        let (k, v) = &t[i];
        if text_is(k, key) {
            return Some(v);
        }
        i = i + 1;
    }
    None
}

/// `Value::get` with a string key.
pub fn toml_get_ref<'a>(v: &'a TomlValue, key: &str) -> (r: Option<&'a TomlValue>)
    ensures
        toml_refers_to(r, toml_get(*v, key@)),
{
    match v {
        TomlValue::Table(t) => table_lookup_ref(t, key),
        _ => None,
    }
}


// ---------------------------------------------------------------------------
// Reading TOML text
// ---------------------------------------------------------------------------

/// `toml::Value`, carried through without looking inside.
#[verifier::external_type_specification]
#[verifier::external_body]
pub struct ExTomlValue(toml::Value);

/// The view of an optional table.
pub open spec fn table_view(t: Option<Vec<(String, TomlValue)>>) -> Option<Seq<(String, TomlValue)>> {
    match t {
        Some(v) => Some(v@),
        None => None,
    }
}

/// The table that `toml::from_str::<toml::Table>` reads from a text, as
/// entries of `TomlValue`s; `None` when the text is no TOML table.
pub uninterp spec fn toml_document(text: Seq<char>) -> Option<Seq<(String, TomlValue)>>;

/// Turns a `toml::Value` into a `TomlValue`, variant for variant. Nothing is
/// stated of the result: `parse_toml`'s contract names the composition.
#[verifier::external_body]
fn toml_model(v: toml::Value) -> TomlValue {
    match v {
        toml::Value::String(s) => TomlValue::String(s),
        toml::Value::Integer(i) => TomlValue::Integer(i),
        toml::Value::Float(_) => TomlValue::Float,
        toml::Value::Boolean(b) => TomlValue::Boolean(b),
        toml::Value::Datetime(_) => TomlValue::Datetime,
        toml::Value::Array(a) => TomlValue::Array(a.into_iter().map(toml_model).collect()),
        toml::Value::Table(t) => TomlValue::Table(t.into_iter().map(toml_entry).collect()),
    }
}

/// Turns one table entry of `toml` into an entry of `TomlValue`.
#[verifier::external_body]
fn toml_entry(entry: (String, toml::Value)) -> (String, TomlValue) {
    (entry.0, toml_model(entry.1))
}

/// Calls `toml::from_str::<toml::Table>(text)` and turns the table into
/// entries of `TomlValue`s; `None` when it fails. The outcome is the name
/// `toml_document` of the text; which texts TOML accepts is not stated.
#[verifier::external_body]
pub(crate) fn parse_toml(text: &str) -> (r: Option<Vec<(String, TomlValue)>>)
    ensures
        table_view(r) == toml_document(text@),
{
    match toml::from_str::<toml::Table>(text) {
        Ok(t) => Some(t.into_iter().map(toml_entry).collect()),
        Err(_) => None,
    }
}

} // verus!
