//! The gift manifest endpoint: a package manifest in YAML, JSON or TOML form
//! is checked for the magic keyword and its orders are listed, one
//! `item: quantity` line per order.
use vstd::prelude::*;
use crate::text::{
    append_chars, append_str, chars_of, contains_chars, contains_seq, decimal, push_decimal,
    push_signed_decimal, signed_decimal, string_of, text_is, trim, trim_chars,
};
use crate::yaml::{
    parse_yaml, yaml_document, entry_lookup, entry_lookup_ref, yaml_as_sequence, yaml_as_sequence_ref, yaml_as_str,
    yaml_as_str_ref, yaml_as_u64, yaml_as_u64_val, yaml_get, yaml_get_ref, YamlValue,
};
use crate::tomldoc::{
    parse_toml, table_lookup, table_lookup_ref, table_view, toml_document, toml_get, toml_get_ref,
    TomlValue,
};

verus! {

broadcast use vstd::string::group_string_axioms;

/// The refusals of the manifest endpoint: `A` is answered with status 204,
/// `B` with 400 and `C` with 416, each with its message.
#[derive(Debug, PartialEq, Eq)]
pub enum MapsErrorResponse {
    A(String),
    B(String),
    C(String),
}

/// A refusal with its message as text.
pub enum Rejection {
    A(Seq<char>),
    B(Seq<char>),
    C(Seq<char>),
}

impl View for MapsErrorResponse {
    type V = Rejection;

    open spec fn view(&self) -> Rejection {
        match self {
            MapsErrorResponse::A(s) => Rejection::A(s@),
            MapsErrorResponse::B(s) => Rejection::B(s@),
            MapsErrorResponse::C(s) => Rejection::C(s@),
        }
    }
}

/// A reply with its texts as sequences.
pub open spec fn reply_view(r: Result<String, MapsErrorResponse>) -> Result<Seq<char>, Rejection> {
    match r {
        Ok(s) => Ok(s@),
        Err(e) => Err(e@),
    }
}

fn reject_a(msg: &str) -> (r: MapsErrorResponse)
    ensures
        r@ == Rejection::A(msg@),
{
    MapsErrorResponse::A(msg.to_string())
}

fn reject_b(msg: &str) -> (r: MapsErrorResponse)
    ensures
        r@ == Rejection::B(msg@),
{
    MapsErrorResponse::B(msg.to_string())
}

// ---------------------------------------------------------------------------
// YAML manifests
// ---------------------------------------------------------------------------

/// The line listed for one YAML order: a mapping with a non-zero `quantity`
/// gives `item: quantity` (item `null` when it is missing or no string).
pub open spec fn yaml_order_line(order: YamlValue) -> Seq<char> {
    match order {
        YamlValue::Mapping(m) => {
            let item = match entry_lookup(m@, "item"@) {
                Some(v) => match yaml_as_str(v) {
                    Some(s) => s,
                    None => "null"@,
                },
                None => "null"@,
            };
            let quantity: u64 = match entry_lookup(m@, "quantity"@) {
                Some(v) => match yaml_as_u64(v) {
                    Some(q) => q,
                    None => 0,
                },
                None => 0,
            };
            if quantity != 0 {
                item + ": "@ + decimal(quantity as nat) + "\n"@
            } else {
                Seq::<char>::empty()
            }
        },
        _ => Seq::<char>::empty(),
    }
}

/// The lines of a list of YAML orders, in order.
pub open spec fn yaml_orders_text(orders: Seq<YamlValue>) -> Seq<char>
    decreases orders.len(),
{
    if orders.len() == 0 {
        Seq::<char>::empty()
    } else {
        yaml_orders_text(orders.drop_last()) + yaml_order_line(orders.last())
    }
}

/// The order lines of a YAML manifest: those of `package.metadata.orders`
/// when the package and its metadata are mappings and the orders a sequence.
pub open spec fn yaml_report(doc: YamlValue) -> Seq<char> {
    match yaml_get(doc, "package"@) {
        Some(YamlValue::Mapping(package)) => match entry_lookup(package@, "metadata"@) {
            Some(YamlValue::Mapping(metadata)) => match entry_lookup(metadata@, "orders"@) {
                Some(YamlValue::Sequence(orders)) => yaml_orders_text(orders@),
                _ => Seq::<char>::empty(),
            },
            _ => Seq::<char>::empty(),
        },
        _ => Seq::<char>::empty(),
    }
}

fn yaml_order_line_into(order: &YamlValue, out: &mut Vec<char>)
    ensures
        final(out)@ == old(out)@ + yaml_order_line(*order),
{
    if let YamlValue::Mapping(m) = order {
        let item: Vec<char> = match entry_lookup_ref(m, "item") {
            Some(v) => match yaml_as_str_ref(v) {
                Some(s) => chars_of(s.as_str()),
                None => chars_of("null"),
            },
            None => chars_of("null"),
        };
        let quantity: u64 = match entry_lookup_ref(m, "quantity") {
            Some(v) => match yaml_as_u64_val(v) {
                Some(q) => q,
                None => 0,
            },
            None => 0,
        };
        if quantity != 0 {
            append_chars(out, &item);
            append_str(out, ": ");
            push_decimal(out, quantity);
            append_str(out, "\n");
            assert(out@ =~= old(out)@ + yaml_order_line(*order));
        } else {
            assert(out@ =~= old(out)@ + yaml_order_line(*order));
        }
    } else {
        assert(out@ =~= old(out)@ + yaml_order_line(*order));
    }
}

/// The order lines of a YAML manifest (before trimming).
pub fn deal_with_yaml(yam: &YamlValue) -> (r: String)
    requires
        yaml_get(*yam, "package"@) is Some,
    ensures
        r@ == yaml_report(*yam),
{
    let mut out: Vec<char> = Vec::new();
    if let Some(YamlValue::Mapping(package)) = yaml_get_ref(yam, "package") {
        if let Some(YamlValue::Mapping(metadata)) = entry_lookup_ref(package, "metadata") {
            if let Some(YamlValue::Sequence(orders)) = entry_lookup_ref(metadata, "orders") {
                for i in 0..orders.len()
                    invariant
                        out@ == yaml_orders_text(orders@.take(i as int)),
                {
                    assert(orders@.take(i + 1).drop_last() == orders@.take(i as int));
                    yaml_order_line_into(&orders[i], &mut out);
                }
                assert(orders@.take(orders@.len() as int) == orders@);
            }
        }
    }
    string_of(&out)
}

/// The package's `keywords` are missing, or are a sequence holding an entry
/// that is not the string `Christmas 2024`.
pub open spec fn yaml_keywords_rejected(package: Seq<(YamlValue, YamlValue)>) -> bool {
    match entry_lookup(package, "keywords"@) {
        Some(keywords) => match yaml_as_sequence(keywords) {
            Some(items) => exists|i: int|
                0 <= i < items.len() && #[trigger] yaml_as_str(items[i]) != Some(
                    "Christmas 2024"@,
                ),
            None => false,
        },
        None => true,
    }
}

/// The reply to a YAML manifest.
pub open spec fn yaml_outcome(doc: YamlValue) -> Result<Seq<char>, Rejection> {
    match yaml_get(doc, "package"@) {
        Some(YamlValue::Mapping(package)) => if yaml_keywords_rejected(package@) {
            Err(Rejection::B("Magic keyword not provided"@))
        } else if entry_lookup(package@, "rust-version"@) == Some(YamlValue::Bool(true)) {
            Err(Rejection::B("Invalid manifest"@))
        } else {
            Ok(trim(yaml_report(doc)))
        },
        _ => Ok(trim(yaml_report(doc))),
    }
}

fn yaml_keywords_rejected_exec(package: &Vec<(YamlValue, YamlValue)>) -> (r: bool)
    ensures
        r == yaml_keywords_rejected(package@),
{
    match entry_lookup_ref(package, "keywords") {
        Some(keywords) => match yaml_as_sequence_ref(keywords) {
            Some(items) => {
                for i in 0..items.len()
                    invariant
                        entry_lookup(package@, "keywords"@) == Some(*keywords),
                        yaml_as_sequence(*keywords) == Some(items@),
                        forall|j: int|
                            0 <= j < i ==> #[trigger] yaml_as_str(items@[j]) == Some(
                                "Christmas 2024"@,
                            ),
                {
                    let same = match yaml_as_str_ref(&items[i]) {
                        Some(s) => text_is(s, "Christmas 2024"),
                        None => false,
                    };
                    if !same {
                        assert(yaml_as_str(items@[i as int]) != Some("Christmas 2024"@));
                        return true;
                    }
                }
                false
            },
            None => false,
        },
        None => true,
    }
}

/// The reply to a YAML manifest whose document has a `package` entry.
pub fn manifest_from_yaml(doc: &YamlValue) -> (r: Result<String, MapsErrorResponse>)
    requires
        yaml_get(*doc, "package"@) is Some,
    ensures
        reply_view(r) == yaml_outcome(*doc),
{
    let result = deal_with_yaml(doc);
    if let Some(YamlValue::Mapping(package)) = yaml_get_ref(doc, "package") {
        if yaml_keywords_rejected_exec(package) {
            return Err(reject_b("Magic keyword not provided"));
        }
        if let Some(rust_version) = entry_lookup_ref(package, "rust-version") {
            let is_true = match rust_version {
                YamlValue::Bool(b) => *b,
                _ => false,
            };
            if is_true {
                return Err(reject_b("Invalid manifest"));
            }
        }
    }
    let trimmed = trim_chars(&chars_of(result.as_str()));
    Ok(string_of(&trimmed))
}

/// Whether a YAML document has a `package` entry.
pub fn yaml_has_package(doc: &YamlValue) -> (r: bool)
    ensures
        r == (yaml_get(*doc, "package"@) is Some),
{
    yaml_get_ref(doc, "package").is_some()
}

// ---------------------------------------------------------------------------
// TOML manifests
// ---------------------------------------------------------------------------

/// The quantity of a TOML order: an integer as it is, a float or nothing as
/// zero; a string or any other kind is refused.
pub open spec fn toml_quantity(entry: Option<TomlValue>) -> Result<i64, Rejection> {
    match entry {
        Some(TomlValue::Integer(q)) => Ok(q),
        Some(TomlValue::Float) => Ok(0),
        Some(TomlValue::String(_)) => Err(Rejection::A("invalid quantity"@)),
        Some(_) => Err(Rejection::B("invalid quantity"@)),
        None => Ok(0),
    }
}

/// One TOML order: its line (empty for a zero quantity) or its refusal.
pub open spec fn toml_order_step(order: TomlValue) -> Result<Seq<char>, Rejection> {
    match order {
        TomlValue::Table(t) => {
            let item = match table_lookup(t@, "item"@) {
                Some(TomlValue::String(s)) => s@,
                _ => Seq::<char>::empty(),
            };
            match toml_quantity(table_lookup(t@, "quantity"@)) {
                Err(e) => Err(e),
                Ok(q) => if item.len() == 0 {
                    Err(Rejection::A("Invalid item in order"@))
                } else if q < 0 {
                    Err(Rejection::A("invalid quantity type"@))
                } else if q == 0 {
                    Ok(Seq::<char>::empty())
                } else {
                    Ok(item + ": "@ + signed_decimal(q as int) + "\n"@)
                },
            }
        },
        _ => Err(Rejection::A("Invalid order format"@)),
    }
}

/// The lines of a list of TOML orders, or the refusal of the first order
/// that is refused.
pub open spec fn toml_orders_report(orders: Seq<TomlValue>) -> Result<Seq<char>, Rejection>
    decreases orders.len(),
{
    if orders.len() == 0 {
        Ok(Seq::<char>::empty())
    } else {
        match toml_orders_report(orders.drop_last()) {
            Err(e) => Err(e),
            Ok(text) => match toml_order_step(orders.last()) {
                Err(e) => Err(e),
                Ok(line) => Ok(text + line),
            },
        }
    }
}

/// A refusal in the first `k` orders is the refusal of all of them.
pub proof fn lemma_orders_report_prefix_refusal(orders: Seq<TomlValue>, k: int)
    requires
        0 <= k <= orders.len(),
        toml_orders_report(orders.take(k)) is Err,
    ensures
        toml_orders_report(orders) == toml_orders_report(orders.take(k)),
    decreases orders.len(),
{
    if k < orders.len() {
        assert(orders.drop_last().take(k) == orders.take(k));
        lemma_orders_report_prefix_refusal(orders.drop_last(), k);
    } else {
        assert(orders.take(k) == orders);
    }
}

/// The package lists `Christmas 2024` among its `keywords` array.
pub open spec fn toml_has_magic_keyword(package: TomlValue) -> bool {
    match toml_get(package, "keywords"@) {
        Some(TomlValue::Array(a)) => exists|i: int|
            0 <= i < a@.len() && #[trigger] toml_keyword_is_magic(a@[i]),
        _ => false,
    }
}

/// A keyword that is the string `Christmas 2024`.
pub open spec fn toml_keyword_is_magic(v: TomlValue) -> bool {
    v matches TomlValue::String(s) && s@ == "Christmas 2024"@
}

/// The package's `name` is the string `chig-bungus`.
pub open spec fn toml_named_chig_bungus(package: TomlValue) -> bool {
    toml_get(package, "name"@) matches Some(TomlValue::String(n)) && n@ == "chig-bungus"@
}

/// `workspace.resolver` is the integer 2 or the string `2`.
pub open spec fn toml_resolver_is_two(t: Seq<(String, TomlValue)>) -> bool {
    match table_lookup(t, "workspace"@) {
        Some(w) => match toml_get(w, "resolver"@) {
            Some(TomlValue::Integer(r)) => r == 2,
            Some(TomlValue::String(s)) => s@ == "2"@,
            _ => false,
        },
        None => false,
    }
}

/// The reply to a manifest read as TOML (`None`: it is no TOML).
pub open spec fn toml_outcome(manifest: Seq<char>, table: Option<Seq<(String, TomlValue)>>) -> Result<
    Seq<char>,
    Rejection,
> {
    match table {
        None => Err(Rejection::B("Invalid TOML format"@)),
        Some(t) => if contains_seq(manifest, "package.metadata.orders = []"@) {
            Err(Rejection::A("orders noted"@))
        } else {
            match table_lookup(t, "package"@) {
                None => Err(Rejection::B("missing package section"@)),
                Some(package) => {
                    let flag = toml_has_magic_keyword(package);
                    let named = toml_named_chig_bungus(package);
                    if !flag && !named {
                        Err(Rejection::B("Magic keyword not provided"@))
                    } else if !flag && toml_resolver_is_two(t) {
                        Err(Rejection::B("Magic keyword not provided"@))
                    } else {
                        match toml_get(package, "metadata"@) {
                            None => Err(Rejection::B("Invalid manifest"@)),
                            Some(metadata) => match toml_get(metadata, "orders"@) {
                                None => if toml_get(metadata, "stuff"@) is Some {
                                    Err(Rejection::A("no orders but there is stuff"@))
                                } else {
                                    Err(Rejection::B("orders is missing"@))
                                },
                                Some(TomlValue::Array(orders)) => if orders@.len() == 0 {
                                    Err(Rejection::A("orders array is empty"@))
                                } else {
                                    match toml_orders_report(orders@) {
                                        Ok(text) => Ok(trim(text)),
                                        Err(e) => Err(e),
                                    }
                                },
                                Some(_) => Err(Rejection::B("orders is not valid"@)),
                            },
                        }
                    }
                },
            }
        },
    }
}

/// A line or a refusal, with its texts as sequences.
pub open spec fn step_view(r: Result<Vec<char>, MapsErrorResponse>) -> Result<Seq<char>, Rejection> {
    match r {
        Ok(v) => Ok(v@),
        Err(e) => Err(e@),
    }
}

fn toml_order_step_exec(order: &TomlValue) -> (r: Result<Vec<char>, MapsErrorResponse>)
    ensures
        step_view(r) == toml_order_step(*order),
{
    match order {
        TomlValue::Table(t) => {
            let item: Vec<char> = match table_lookup_ref(t, "item") {
                Some(TomlValue::String(s)) => chars_of(s.as_str()),
                _ => Vec::new(),
            };
            let quantity: i64 = match table_lookup_ref(t, "quantity") {
                Some(TomlValue::Integer(q)) => *q,
                Some(TomlValue::Float) => 0,
                Some(TomlValue::String(_)) => {
                    return Err(reject_a("invalid quantity"));
                },
                Some(_) => {
                    return Err(reject_b("invalid quantity"));
                },
                None => 0,
            };
            if item.len() == 0 {
                return Err(reject_a("Invalid item in order"));
            }
            if quantity < 0 {
                return Err(reject_a("invalid quantity type"));
            }
            let mut line: Vec<char> = Vec::new();
            if quantity != 0 {
                append_chars(&mut line, &item);
                append_str(&mut line, ": ");
                push_signed_decimal(&mut line, quantity);
                append_str(&mut line, "\n");
            }
            assert(line@ =~= toml_order_step(*order)->Ok_0);
            Ok(line)
        },
        _ => Err(reject_a("Invalid order format")),
    }
}

fn toml_orders_exec(orders: &Vec<TomlValue>) -> (r: Result<String, MapsErrorResponse>)
    ensures
        reply_view(r) == match toml_orders_report(orders@) {
            Ok(text) => Ok(trim(text)),
            Err(e) => Err(e),
        },
{
    let mut text: Vec<char> = Vec::new();
    assert(orders@.take(0) =~= Seq::<TomlValue>::empty());
    for i in 0..orders.len()
        invariant
            toml_orders_report(orders@.take(i as int)) == Ok::<Seq<char>, Rejection>(text@),
    {
        assert(orders@.take(i + 1).drop_last() == orders@.take(i as int));
        assert(orders@.take(i + 1).last() == orders@[i as int]);
        match toml_order_step_exec(&orders[i]) {
            Ok(line) => {
                append_chars(&mut text, &line);
            },
            Err(e) => {
                proof {
                    lemma_orders_report_prefix_refusal(orders@, i + 1);
                }
                return Err(e);
            },
        }
    }
    assert(orders@.take(orders@.len() as int) == orders@);
    Ok(string_of(&trim_chars(&text)))
}

fn toml_has_magic_keyword_exec(package: &TomlValue) -> (r: bool)
    ensures
        r == toml_has_magic_keyword(*package),
{
    match toml_get_ref(package, "keywords") {
        Some(TomlValue::Array(a)) => {
            for i in 0..a.len()
                invariant
                    toml_get(*package, "keywords"@) matches Some(TomlValue::Array(aa)) && aa@ == a@,
                    forall|j: int| 0 <= j < i ==> !#[trigger] toml_keyword_is_magic(a@[j]),
            {
                if let TomlValue::String(s) = &a[i] {
                    if text_is(s, "Christmas 2024") {
                        assert(toml_keyword_is_magic(a@[i as int]));
                        return true;
                    }
                }
            }
            false
        },
        _ => false,
    }
}

fn toml_resolver_is_two_exec(t: &Vec<(String, TomlValue)>) -> (r: bool)
    ensures
        r == toml_resolver_is_two(t@),
{
    match table_lookup_ref(t, "workspace") {
        Some(w) => match toml_get_ref(w, "resolver") {
            Some(TomlValue::Integer(r)) => *r == 2,
            Some(TomlValue::String(s)) => text_is(s, "2"),
            _ => false,
        },
        None => false,
    }
}

/// The reply to a manifest read as TOML; `table` is the document when the
/// manifest parses as a TOML table, `None` when it does not.
pub fn manifest_from_toml_table(manifest: &str, table: &Option<Vec<(String, TomlValue)>>) -> (r: Result<
    String,
    MapsErrorResponse,
>)
    ensures
        reply_view(r) == toml_outcome(manifest@, table_view(*table)),
{
    let mani = match table {
        Some(t) => t,
        None => return Err(reject_b("Invalid TOML format")),
    };
    let text = chars_of(manifest);
    let marker = chars_of("package.metadata.orders = []");
    if contains_chars(&text, &marker) {
        return Err(reject_a("orders noted"));
    }
    let package = match table_lookup_ref(mani, "package") {
        Some(p) => p,
        None => return Err(reject_b("missing package section")),
    };
    let flag = toml_has_magic_keyword_exec(package);
    let named = match toml_get_ref(package, "name") {
        Some(TomlValue::String(n)) => text_is(n, "chig-bungus"),
        _ => false,
    };
    if !flag && !named {
        return Err(reject_b("Magic keyword not provided"));
    } else if !flag && named {
        if toml_resolver_is_two_exec(mani) {
            return Err(reject_b("Magic keyword not provided"));
        }
    }
    let metadata = match toml_get_ref(package, "metadata") {
        Some(m) => m,
        None => return Err(reject_b("Invalid manifest")),
    };
    match toml_get_ref(metadata, "orders") {
        None => {
            if toml_get_ref(metadata, "stuff").is_some() {
                Err(reject_a("no orders but there is stuff"))
            } else {
                Err(reject_b("orders is missing"))
            }
        },
        Some(TomlValue::Array(orders)) => {
            if orders.len() == 0 {
                Err(reject_a("orders array is empty"))
            } else {
                toml_orders_exec(orders)
            }
        },
        Some(_) => Err(reject_b("orders is not valid")),
    }
}

// ---------------------------------------------------------------------------
// The endpoint
// ---------------------------------------------------------------------------

/// Whether `serde_json::from_str::<serde_json::Value>` accepts the text.
pub uninterp spec fn json_valid(text: Seq<char>) -> bool;

/// Calls `serde_json::from_str::<serde_json::Value>(input)` and reports
/// whether it succeeded; the answer is the name `json_valid` of the text.
/// What JSON it accepts is not stated.
#[verifier::external_body]
fn is_json_check(input: &str) -> (r: bool)
    ensures
        r == json_valid(input@),
{
    serde_json::from_str::<serde_json::Value>(input).is_ok()
}

/// The reply to a manifest read as TOML: the text is parsed as a TOML table.
pub fn manifest_from_toml(manifest: &str) -> (r: Result<String, MapsErrorResponse>)
    ensures
        reply_view(r) == toml_outcome(manifest@, toml_document(manifest@)),
{
    let table = parse_toml(manifest);
    manifest_from_toml_table(manifest, &table)
}

/// Manifests that get a reply: a YAML document must have a `package` entry,
/// and a text that is no YAML must not be JSON (that path has no reply).
pub open spec fn manifest_answerable(manifest: Seq<char>) -> bool {
    match yaml_document(manifest) {
        Some(doc) => yaml_get(doc, "package"@) is Some,
        None => !json_valid(manifest),
    }
}

/// The reply to a manifest: from its YAML document when it parsed as YAML,
/// else from its TOML table.
pub open spec fn manifest_reply(
    manifest: Seq<char>,
    yaml: Option<YamlValue>,
    table: Option<Seq<(String, TomlValue)>>,
) -> Result<Seq<char>, Rejection> {
    match yaml {
        Some(doc) => yaml_outcome(doc),
        None => toml_outcome(manifest, table),
    }
}

/// Whether a manifest gets a reply (see `manifest_answerable`).
pub fn manifest_ready(manifest: &str) -> (r: bool)
    ensures
        r == manifest_answerable(manifest@),
{
    match parse_yaml(manifest) {
        Some(doc) => yaml_has_package(&doc),
        None => !is_json_check(manifest),
    }
}

/// The reply to a posted manifest: read as YAML when it parses as YAML
/// (a document with a `package` entry), else read as TOML.
pub fn gift_manifest(manifest: &str) -> (r: Result<String, MapsErrorResponse>)
    requires
        manifest_answerable(manifest@),
    ensures
        reply_view(r) == manifest_reply(manifest@, yaml_document(manifest@), toml_document(manifest@)),
{
    match parse_yaml(manifest) {
        Some(doc) => manifest_from_yaml(&doc),
        None => manifest_from_toml(manifest),
    }
}

/// The reply to a posted manifest when it gets one (`manifest_ready`),
/// `None` otherwise.
pub fn gift_manifest_checked(manifest: &str) -> (r: Option<Result<String, MapsErrorResponse>>)
    ensures
        r is Some <==> manifest_answerable(manifest@),
        r matches Some(x) ==> reply_view(x) == manifest_reply(
            manifest@,
            yaml_document(manifest@),
            toml_document(manifest@),
        ),
{
    if manifest_ready(manifest) {
        Some(gift_manifest(manifest))
    } else {
        None
    }
}


// ---------------------------------------------------------------------------
// Laws of the TOML reply
// ---------------------------------------------------------------------------

/// The only refusal with status 400 that a list of orders gives is
/// `invalid quantity`.
proof fn lemma_orders_report_refusal_b(orders: Seq<TomlValue>)
    ensures
        toml_orders_report(orders) matches Err(Rejection::B(m)) ==> m == "invalid quantity"@,
    decreases orders.len(),
{
    if orders.len() > 0 {
        lemma_orders_report_refusal_b(orders.drop_last());
    }
}

/// A package whose `keywords` array holds the string `Christmas 2024` at
/// any position passes the magic-keyword test: the TOML reply is never the
/// refusal `Magic keyword not provided`, whatever the other keywords and
/// their order.
pub proof fn law_magic_keyword_anywhere(manifest: Seq<char>, t: Seq<(String, TomlValue)>, i: int)
    requires
        table_lookup(t, "package"@) is Some,
        toml_get(table_lookup(t, "package"@)->Some_0, "keywords"@) matches Some(TomlValue::Array(keywords))
            && 0 <= i < keywords@.len() && (keywords@[i] matches TomlValue::String(s) && s@
            == "Christmas 2024"@),
    ensures
        toml_outcome(manifest, Some(t)) != Err::<Seq<char>, Rejection>(
            Rejection::B("Magic keyword not provided"@),
        ),
{
    let package = table_lookup(t, "package"@)->Some_0;
    let keywords = toml_get(package, "keywords"@)->Some_0->Array_0;
    assert(toml_keyword_is_magic(keywords@[i]));
    assert(toml_has_magic_keyword(package));
    reveal_strlit("Magic keyword not provided");
    reveal_strlit("Invalid manifest");
    reveal_strlit("orders is missing");
    reveal_strlit("orders is not valid");
    reveal_strlit("invalid quantity");
    assert("Magic keyword not provided"@.len() == 26);
    assert("Invalid manifest"@.len() == 16);
    assert("orders is missing"@.len() == 17);
    assert("orders is not valid"@.len() == 19);
    assert("invalid quantity"@.len() == 16);
    if let Some(metadata) = toml_get(package, "metadata"@) {
        if let Some(TomlValue::Array(orders)) = toml_get(metadata, "orders"@) {
            lemma_orders_report_refusal_b(orders@);
        }
    }
}

/// A package that is not named `chig-bungus` and has no `Christmas 2024`
/// string among its `keywords` (or no `keywords` array) is refused with
/// `Magic keyword not provided`, unless the manifest text holds the
/// `package.metadata.orders = []` marker.
pub proof fn law_magic_keyword_missing(manifest: Seq<char>, t: Seq<(String, TomlValue)>)
    requires
        !contains_seq(manifest, "package.metadata.orders = []"@),
        table_lookup(t, "package"@) is Some,
        !(toml_get(table_lookup(t, "package"@)->Some_0, "name"@) matches Some(TomlValue::String(n))
            && n@ == "chig-bungus"@),
        toml_get(table_lookup(t, "package"@)->Some_0, "keywords"@) matches Some(TomlValue::Array(keywords))
            ==> forall|i: int|
            #![trigger keywords@[i]]
            0 <= i < keywords@.len() ==> !(keywords@[i] matches TomlValue::String(s) && s@
                == "Christmas 2024"@),
    ensures
        toml_outcome(manifest, Some(t)) == Err::<Seq<char>, Rejection>(
            Rejection::B("Magic keyword not provided"@),
        ),
{
    let package = table_lookup(t, "package"@)->Some_0;
    if toml_has_magic_keyword(package) {
        let keywords = toml_get(package, "keywords"@)->Some_0->Array_0;
        let i = choose|i: int| 0 <= i < keywords@.len() && #[trigger] toml_keyword_is_magic(keywords@[i]);
        assert(!(keywords@[i] matches TomlValue::String(s) && s@ == "Christmas 2024"@));
    }
}

} // verus!
