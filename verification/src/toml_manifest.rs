//! The TOML-only manifest listing: the orders of a TOML manifest with a
//! non-zero integer quantity, one `item: quantity` line each.
use vstd::prelude::*;
use crate::manifest::{reply_view, MapsErrorResponse, Rejection};
use crate::text::{
    append_chars, append_str, chars_of, push_signed_decimal, signed_decimal, string_of, trim,
    trim_chars,
};
use crate::tomldoc::{
    parse_toml, table_lookup, table_lookup_ref, toml_document, toml_get, toml_get_ref, TomlValue,
};

verus! {

broadcast use vstd::string::group_string_axioms;

/// `package.metadata.orders`, when it is an array.
pub open spec fn orders_entry(t: Seq<(String, TomlValue)>) -> Option<Seq<TomlValue>> {
    match table_lookup(t, "package"@) {
        Some(package) => match toml_get(package, "metadata"@) {
            Some(metadata) => match toml_get(metadata, "orders"@) {
                Some(TomlValue::Array(orders)) => Some(orders@),
                _ => None,
            },
            None => None,
        },
        None => None,
    }
}

/// The quantity of an order: its integer `quantity`, else zero.
pub open spec fn listed_quantity(order: TomlValue) -> i64 {
    match toml_get(order, "quantity"@) {
        Some(TomlValue::Integer(q)) => q,
        _ => 0,
    }
}

/// The `item` string of an order.
pub open spec fn listed_item(order: TomlValue) -> Seq<char> {
    match toml_get(order, "item"@) {
        Some(TomlValue::String(s)) => s@,
        _ => Seq::<char>::empty(),
    }
}

/// An order with a non-zero quantity has an `item` string.
pub open spec fn listed_order_ok(order: TomlValue) -> bool {
    listed_quantity(order) != 0 ==> toml_get(order, "item"@) matches Some(TomlValue::String(_))
}

/// The line of one order: `item: quantity` when the quantity is not zero.
pub open spec fn listed_line(order: TomlValue) -> Seq<char> {
    let q = listed_quantity(order);
    if q != 0 {
        listed_item(order) + ": "@ + signed_decimal(q as int) + "\n"@
    } else {
        Seq::<char>::empty()
    }
}

/// The lines of a list of orders, in order.
pub open spec fn listed_text(orders: Seq<TomlValue>) -> Seq<char>
    decreases orders.len(),
{
    if orders.len() == 0 {
        Seq::<char>::empty()
    } else {
        listed_text(orders.drop_last()) + listed_line(orders.last())
    }
}

/// Documents the listing answers: every order with a non-zero quantity has
/// an `item` string.
pub open spec fn listing_ready(t: Seq<(String, TomlValue)>) -> bool {
    orders_entry(t) matches Some(orders) ==> forall|i: int|
        0 <= i < orders.len() ==> #[trigger] listed_order_ok(orders[i])
}

/// The reply: the trimmed lines, refused when there are no orders or no line.
pub open spec fn listing_outcome(t: Seq<(String, TomlValue)>) -> Result<Seq<char>, Rejection> {
    match orders_entry(t) {
        None => Err(Rejection::A("error"@)),
        Some(orders) => {
            let answer = trim(listed_text(orders));
            if answer.len() == 0 {
                Err(Rejection::A("error"@))
            } else {
                Ok(answer)
            }
        },
    }
}

fn orders_entry_ref(mani: &Vec<(String, TomlValue)>) -> (r: Option<&Vec<TomlValue>>)
    ensures
        r is Some <==> orders_entry(mani@) is Some,
        r matches Some(os) ==> orders_entry(mani@) == Some(os@),
{
    match table_lookup_ref(mani, "package") {
        Some(package) => match toml_get_ref(package, "metadata") {
            Some(metadata) => match toml_get_ref(metadata, "orders") {
                Some(TomlValue::Array(orders)) => Some(orders),
                _ => None,
            },
            None => None,
        },
        None => None,
    }
}

/// Whether the listing answers on this document (see `listing_ready`).
pub fn table_listable(mani: &Vec<(String, TomlValue)>) -> (r: bool)
    ensures
        r == listing_ready(mani@),
{
    let orders = match orders_entry_ref(mani) {
        Some(os) => os,
        None => return true,
    };
    for i in 0..orders.len()
        invariant
            orders_entry(mani@) == Some(orders@),
            forall|j: int| 0 <= j < i ==> #[trigger] listed_order_ok(orders@[j]),
    {
        let q: i64 = match toml_get_ref(&orders[i], "quantity") {
            Some(TomlValue::Integer(q)) => *q,
            _ => 0,
        };
        if q != 0 {
            let has_item = match toml_get_ref(&orders[i], "item") {
                Some(TomlValue::String(_)) => true,
                _ => false,
            };
            if !has_item {
                let ghost os = orders_entry(mani@)->Some_0;
                assert(os == orders@);
                assert(!listed_order_ok(os[i as int]));
                return false;
            }
        }
    }
    true
}

/// Lists the orders of a TOML manifest document: every order with a non-zero
/// integer quantity gives `item: quantity`; the trimmed lines are the reply,
/// which is refused when `package.metadata.orders` is no array or no line is
/// listed.
pub fn listing_from_table(mani: &Vec<(String, TomlValue)>) -> (r: Result<String, MapsErrorResponse>)
    requires
        listing_ready(mani@),
    ensures
        reply_view(r) == listing_outcome(mani@),
{
    let orders = match orders_entry_ref(mani) {
        Some(os) => os,
        None => return Err(MapsErrorResponse::A("error".to_string())),
    };
    let mut text: Vec<char> = Vec::new();
    for i in 0..orders.len()
        invariant
            orders_entry(mani@) == Some(orders@),
            listing_ready(mani@),
            text@ == listed_text(orders@.take(i as int)),
    {
        assert(orders@.take(i + 1).drop_last() == orders@.take(i as int));
        assert(orders@.take(i + 1).last() == orders@[i as int]);
        let order = &orders[i];
        let nums: i64 = match toml_get_ref(order, "quantity") {
            Some(TomlValue::Integer(q)) => *q,
            _ => 0,
        };
        if nums != 0 {
            let ghost os = orders_entry(mani@)->Some_0;
            assert(os == orders@);
            assert(0 <= i < os.len());
            assert(listed_order_ok(os[i as int]));
            assert(listed_order_ok(orders@[i as int]));
            let item = match toml_get_ref(order, "item") {
                Some(TomlValue::String(s)) => chars_of(s.as_str()),
                _ => Vec::new(),
            };
            append_chars(&mut text, &item);
            append_str(&mut text, ": ");
            push_signed_decimal(&mut text, nums);
            append_str(&mut text, "\n");
        }
        assert(text@ =~= listed_text(orders@.take(i + 1)));
    }
    assert(orders@.take(orders@.len() as int) == orders@);
    let answer = trim_chars(&text);
    if answer.len() == 0 {
        Err(MapsErrorResponse::A("error".to_string()))
    } else {
        Ok(string_of(&answer))
    }
}


/// Manifest texts the listing answers: they parse as a TOML table on which
/// the listing is ready.
pub open spec fn listing_answerable(manifest: Seq<char>) -> bool {
    toml_document(manifest) matches Some(t) && listing_ready(t)
}

/// Whether the listing answers on a manifest text (see `listing_answerable`).
pub fn manifest_listable(manifest: &str) -> (r: bool)
    ensures
        r == listing_answerable(manifest@),
{
    match parse_toml(manifest) {
        Some(t) => table_listable(&t),
        None => false,
    }
}

/// Lists the orders of a TOML manifest text (see `listing_from_table`).
pub fn gift_manifest(manifest: &str) -> (r: Result<String, MapsErrorResponse>)
    requires
        listing_answerable(manifest@),
    ensures
        reply_view(r) == listing_outcome(toml_document(manifest@)->Some_0),
{
    match parse_toml(manifest) {
        Some(t) => listing_from_table(&t),
        None => Err(MapsErrorResponse::A("error".to_string())),
    }
}

/// The listing of a manifest text when it answers (`manifest_listable`),
/// `None` otherwise.
pub fn gift_manifest_checked(manifest: &str) -> (r: Option<Result<String, MapsErrorResponse>>)
    ensures
        r is Some <==> listing_answerable(manifest@),
        r matches Some(x) ==> reply_view(x) == listing_outcome(toml_document(manifest@)->Some_0),
{
    if manifest_listable(manifest) {
        Some(gift_manifest(manifest))
    } else {
        None
    }
}


// ---------------------------------------------------------------------------
// Laws of the listing
// ---------------------------------------------------------------------------

/// The line an order contributes, read from the order itself: `item: q` and a
/// newline for a non-zero integer quantity `q`, nothing otherwise.
pub open spec fn order_line(order: TomlValue) -> Seq<char> {
    match toml_get(order, "quantity"@) {
        Some(TomlValue::Integer(q)) => if q != 0 {
            let item = match toml_get(order, "item"@) {
                Some(TomlValue::String(s)) => s@,
                _ => Seq::<char>::empty(),
            };
            item + ": "@ + signed_decimal(q as int) + "\n"@
        } else {
            Seq::<char>::empty()
        },
        _ => Seq::<char>::empty(),
    }
}

/// The listed text of two runs of orders is the text of the first followed
/// by the text of the second: no order changes what another one lists.
pub proof fn law_listed_text_concat(a: Seq<TomlValue>, b: Seq<TomlValue>)
    ensures
        listed_text(a + b) == listed_text(a) + listed_text(b),
    decreases b.len(),
{
    if b.len() == 0 {
        assert(a + b == a);
        assert(listed_text(b) == Seq::<char>::empty());
        assert(listed_text(a) + listed_text(b) == listed_text(a));
    } else {
        assert((a + b).drop_last() == a + b.drop_last());
        assert((a + b).last() == b.last());
        law_listed_text_concat(a, b.drop_last());
        assert(listed_text(a) + listed_text(b.drop_last()) + listed_line(b.last()) == listed_text(a)
            + (listed_text(b.drop_last()) + listed_line(b.last())));
    }
}

/// Appending an order appends exactly that order's line, whatever the
/// quantities of the orders before it.
pub proof fn law_listed_text_push(orders: Seq<TomlValue>, o: TomlValue)
    ensures
        listed_text(orders.push(o)) == listed_text(orders) + order_line(o),
{
    assert(orders.push(o).drop_last() == orders);
    assert(listed_line(o) == order_line(o));
}

/// Every order is listed in its place: the listed text is the in-order
/// concatenation of the orders' lines.
pub proof fn law_listed_text_lines(orders: Seq<TomlValue>, i: int)
    requires
        0 <= i < orders.len(),
    ensures
        listed_text(orders) == listed_text(orders.take(i)) + order_line(orders[i]) + listed_text(
            orders.skip(i + 1),
        ),
{
    let a = orders.take(i);
    let b = orders.skip(i + 1);
    assert(orders == a.push(orders[i]) + b);
    law_listed_text_concat(a.push(orders[i]), b);
    law_listed_text_push(a, orders[i]);
}

/// An order without a non-zero integer quantity may stand anywhere in
/// `package.metadata.orders` without changing the reply: the orders after it
/// are listed all the same.
pub proof fn law_listing_skips_zero(
    t1: Seq<(String, TomlValue)>,
    t2: Seq<(String, TomlValue)>,
    a: Seq<TomlValue>,
    b: Seq<TomlValue>,
    o: TomlValue,
)
    requires
        orders_entry(t1) == Some(a + b),
        orders_entry(t2) == Some(a + seq![o] + b),
        !(toml_get(o, "quantity"@) matches Some(TomlValue::Integer(q)) && q != 0),
    ensures
        listing_outcome(t1) == listing_outcome(t2),
{
    law_listed_text_concat(a, b);
    law_listed_text_concat(a + seq![o], b);
    law_listed_text_push(a, o);
    assert(a.push(o) == a + seq![o]);
    assert(order_line(o) == Seq::<char>::empty());
    assert(listed_text(a) + Seq::<char>::empty() == listed_text(a));
}

} // verus!
