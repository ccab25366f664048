//! A YAML document as the manifest logic reads it, with the lookups that
//! `serde_yaml::Value` offers (`get`, `as_str`, `as_u64`, `as_sequence`).
use vstd::prelude::*;
use crate::text::text_is;

verus! {

/// A YAML number: a non-negative integer, a negative integer, or a float
/// (whose value the logic never reads).
pub enum YamlNumber {
    PosInt(u64),
    NegInt(i64),
    Float,
}

/// A YAML value. A mapping keeps its entries in document order; a tagged value
/// (`!Tag value`) keeps its tag and the value it tags.
pub enum YamlValue {
    Null,
    Bool(bool),
    Number(YamlNumber),
    String(String),
    Sequence(Vec<YamlValue>),
    Mapping(Vec<(YamlValue, YamlValue)>),
    Tagged(String, Box<YamlValue>),
}

/// The value with all tags around it removed.
pub open spec fn untag(v: YamlValue) -> YamlValue
    decreases v,
{
    match v {
        YamlValue::Tagged(_, inner) => untag(*inner),
        _ => v,
    }
}

/// The value of the first entry whose key is the string `key`.
pub open spec fn entry_lookup(entries: Seq<(YamlValue, YamlValue)>, key: Seq<char>) -> Option<
    YamlValue,
>
    decreases entries.len(),
{
    if entries.len() == 0 {
        None
    } else if entries[0].0 matches YamlValue::String(k) && k@ == key {
        Some(entries[0].1)
    } else {
        entry_lookup(entries.drop_first(), key)
    }
}

/// `Value::get` with a string key: a lookup in the (untagged) mapping.
pub open spec fn yaml_get(v: YamlValue, key: Seq<char>) -> Option<YamlValue> {
    match untag(v) {
        YamlValue::Mapping(m) => entry_lookup(m@, key),
        _ => None,
    }
}

/// `Value::as_str`.
pub open spec fn yaml_as_str(v: YamlValue) -> Option<Seq<char>> {
    match untag(v) {
        YamlValue::String(s) => Some(s@),
        _ => None,
    }
}

/// `Value::as_u64`.
pub open spec fn yaml_as_u64(v: YamlValue) -> Option<u64> {
    match untag(v) {
        YamlValue::Number(YamlNumber::PosInt(n)) => Some(n),
        _ => None,
    }
}

/// `Value::as_sequence`.
pub open spec fn yaml_as_sequence(v: YamlValue) -> Option<Seq<YamlValue>> {
    match untag(v) {
        YamlValue::Sequence(s) => Some(s@),
        _ => None,
    }
}

/// An optional reference holds what an optional value holds.
pub open spec fn refers_to(r: Option<&YamlValue>, v: Option<YamlValue>) -> bool {
    match r {
        Some(x) => v == Some(*x),
        None => v is None,
    }
}

/// The value with all tags around it removed.
pub fn untag_ref(v: &YamlValue) -> (r: &YamlValue)
    ensures
        *r == untag(*v),
    decreases v,
{
    match v {
        YamlValue::Tagged(_, inner) => untag_ref(inner),
        _ => v,
    }
}

/// The value of the first entry whose key is the string `key`.
pub fn entry_lookup_ref<'a>(entries: &'a Vec<(YamlValue, YamlValue)>, key: &str) -> (r: Option<
    &'a YamlValue,
>)
    ensures
        refers_to(r, entry_lookup(entries@, key@)),
{
    let n = entries.len();
    let mut i: usize = 0;
    assert(entries@.skip(0) == entries@);
    while i < n
        invariant
            n == entries@.len(),
            i <= n,
            entry_lookup(entries@, key@) == entry_lookup(entries@.skip(i as int), key@),
        decreases n - i,
    {
        assert(entries@.skip(i as int).drop_first() == entries@.skip(i + 1));
        assert(entries@.skip(i as int)[0] == entries@[i as int]);
        let (k, v) = &entries[i];
        if let YamlValue::String(ks) = k {
            if text_is(ks, key) {
                return Some(v);
            }
        }
        i = i + 1;
    }
    None
}

/// `Value::get` with a string key.
pub fn yaml_get_ref<'a>(v: &'a YamlValue, key: &str) -> (r: Option<&'a YamlValue>)
    ensures
        refers_to(r, yaml_get(*v, key@)),
{
    match untag_ref(v) {
        YamlValue::Mapping(m) => entry_lookup_ref(m, key),
        _ => None,
    }
}

/// `Value::as_str`.
pub fn yaml_as_str_ref(v: &YamlValue) -> (r: Option<&String>)
    ensures
        r is Some <==> yaml_as_str(*v) is Some,
        r matches Some(s) ==> yaml_as_str(*v) == Some(s@),
{
    match untag_ref(v) {
        YamlValue::String(s) => Some(s),
        _ => None,
    }
}

/// `Value::as_u64`.
pub fn yaml_as_u64_val(v: &YamlValue) -> (r: Option<u64>)
    ensures
        r == yaml_as_u64(*v),
{
    match untag_ref(v) {
        YamlValue::Number(YamlNumber::PosInt(n)) => Some(*n),
        _ => None,
    }
}

/// `Value::as_sequence`.
pub fn yaml_as_sequence_ref(v: &YamlValue) -> (r: Option<&Vec<YamlValue>>)
    ensures
        r is Some <==> yaml_as_sequence(*v) is Some,
        r matches Some(s) ==> yaml_as_sequence(*v) == Some(s@),
{
    match untag_ref(v) {
        YamlValue::Sequence(s) => Some(s),
        _ => None,
    }
}


// ---------------------------------------------------------------------------
// Reading YAML text
// ---------------------------------------------------------------------------

/// `serde_yaml::Value`, carried through without looking inside.
#[verifier::external_type_specification]
#[verifier::external_body]
pub struct ExSerdeYamlValue(serde_yaml::Value);

/// The document that `serde_yaml::from_str::<serde_yaml::Value>` reads from a
/// text, as a `YamlValue`; `None` when the text is no YAML.
pub uninterp spec fn yaml_document(text: Seq<char>) -> Option<YamlValue>;

/// Turns a `serde_yaml::Value` into a `YamlValue`, variant for variant (a
/// number by `as_u64` / `as_i64`, a tag by its text). Nothing is
/// stated of the result: `parse_yaml`'s contract names the composition.
#[verifier::external_body]
fn yaml_model(v: serde_yaml::Value) -> YamlValue {
    match v {
        serde_yaml::Value::Null => YamlValue::Null,
        serde_yaml::Value::Bool(b) => YamlValue::Bool(b),
        serde_yaml::Value::Number(_) => YamlValue::Number(yaml_number(&v)),
        serde_yaml::Value::String(s) => YamlValue::String(s),
        serde_yaml::Value::Sequence(q) => YamlValue::Sequence(q.into_iter().map(yaml_model).collect()),
        serde_yaml::Value::Mapping(m) => YamlValue::Mapping(m.into_iter().map(yaml_entry).collect()),
        serde_yaml::Value::Tagged(t) => YamlValue::Tagged(t.tag.to_string(), Box::new(yaml_model(t.value))),
    }
}

/// Turns one mapping entry of `serde_yaml` into a pair of `YamlValue`s.
#[verifier::external_body]
fn yaml_entry(entry: (serde_yaml::Value, serde_yaml::Value)) -> (YamlValue, YamlValue) {
    (yaml_model(entry.0), yaml_model(entry.1))
}

/// Turns a number held in a `serde_yaml::Value` into a `YamlNumber` by
/// `Value::as_u64` and `Value::as_i64`.
#[verifier::external_body]
fn yaml_number(n: &serde_yaml::Value) -> YamlNumber {
    match (n.as_u64(), n.as_i64()) {
        (Some(u), _) => YamlNumber::PosInt(u),
        (None, Some(i)) => YamlNumber::NegInt(i),
        (None, None) => YamlNumber::Float,
    }
}

/// Calls `serde_yaml::from_str::<serde_yaml::Value>(text)` and turns the
/// value into a `YamlValue`; `None` when it fails. The outcome is the name
/// `yaml_document` of the text; which texts YAML accepts is not stated.
#[verifier::external_body]
pub(crate) fn parse_yaml(text: &str) -> (r: Option<YamlValue>)
    ensures
        r == yaml_document(text@),
{
    serde_yaml::from_str::<serde_yaml::Value>(text).ok().map(yaml_model)
}

} // verus!
