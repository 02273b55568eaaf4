//! A JSON value, as this crate reads and builds one.
//!
//! A document, a request body and the value one flag carries are all JSON,
//! and the rules this crate states about them — which keys a schema requires,
//! what a flag's value becomes on the wire — are stated over this type. A
//! number read from a document is carried as the parser gave it and never
//! looked inside; a whole number this crate builds itself is an `i64`.

use vstd::prelude::*;

verus! {

/// A number that is not a whole `i64`, carried as `serde_json` read it.
#[verifier::external_type_specification]
#[verifier::external_body]
pub struct ExNumber(serde_json::Number);

/// One JSON value. An object keeps its keys in the order it was read in.
#[derive(Debug, PartialEq)]
pub enum Json {
    Null,
    Bool(bool),
    /// A whole number this crate builds, such as a flag's value.
    Integer(i64),
    /// A number as `serde_json` holds it: every number a document carries,
    /// and a fraction a flag's value reads as.
    Number(serde_json::Number),
    String(String),
    Array(Vec<Json>),
    Object(Vec<(String, Json)>),
}

/// A JSON value as `serde_json` holds one.
#[verifier::external_type_specification]
#[verifier::external_body]
pub struct ExValue(serde_json::Value);

/// The compact text `serde_json` writes `value` as: no whitespace, an object's
/// keys in the order its map keeps them.
pub uninterp spec fn json_written(value: Json) -> Seq<char>;

/// `serde_json`'s own value for `value`, built constructor by constructor.
#[verifier::external_body]
pub(crate) fn to_value(value: &Json) -> serde_json::Value {
    match value {
        Json::Null => serde_json::Value::Null,
        Json::Bool(b) => serde_json::Value::Bool(*b),
        Json::Integer(i) => serde_json::Value::from(*i),
        Json::Number(n) => serde_json::Value::Number(n.clone()),
        Json::String(s) => serde_json::Value::String(s.clone()),
        Json::Array(items) => serde_json::Value::Array(items.iter().map(to_value).collect()),
        Json::Object(fields) => serde_json::Value::Object(
            fields.iter().map(|(k, v)| (k.clone(), to_value(v))).collect(),
        ),
    }
}

/// `Value`'s `Display` (`serde_json::to_string`): the compact JSON text of
/// `value`. Which text that is, is named and not stated here.
#[verifier::external_body]
pub(crate) fn json_text(value: &Json) -> (r: String)
    ensures
        r@ == json_written(*value),
{
    to_value(value).to_string()
}

/// `Clone` on `serde_json::Number`, which is derived: the copy is the number.
pub assume_specification[ <serde_json::Number as std::clone::Clone>::clone ](n: &serde_json::Number) -> (r:
    serde_json::Number)
    ensures
        r == *n,
;

/// Whether two values are the same JSON down to `depth` levels: the same
/// constructor, and the same contents item by item and key by key.
pub open spec fn same_json_to(a: Json, b: Json, depth: int) -> bool
    decreases depth, 0int,
{
    if depth <= 0 {
        false
    } else {
        match a {
            Json::Null => b is Null,
            Json::Bool(x) => b == Json::Bool(x),
            Json::Integer(x) => b == Json::Integer(x),
            Json::Number(x) => b == Json::Number(x),
            Json::String(x) => b matches Json::String(y) && x@ == y@,
            Json::Array(x) => match b {
                Json::Array(y) => same_items(x@, y@, depth - 1),
                _ => false,
            },
            Json::Object(x) => match b {
                Json::Object(y) => same_fields(x@, y@, depth - 1),
                _ => false,
            },
        }
    }
}

/// Whether two lists hold the same JSON, item by item.
pub open spec fn same_items(x: Seq<Json>, y: Seq<Json>, depth: int) -> bool
    decreases depth, x.len(),
{
    if x.len() != y.len() {
        false
    } else if x.len() == 0 {
        true
    } else {
        same_items(x.drop_last(), y.drop_last(), depth) && same_json_to(x.last(), y.last(), depth)
    }
}

/// Whether two objects hold the same keys, in order, with the same JSON under
/// each.
pub open spec fn same_fields(x: Seq<(String, Json)>, y: Seq<(String, Json)>, depth: int) -> bool
    decreases depth, x.len(),
{
    if x.len() != y.len() {
        false
    } else if x.len() == 0 {
        true
    } else {
        same_fields(x.drop_last(), y.drop_last(), depth) && x.last().0@ == y.last().0@
            && same_json_to(x.last().1, y.last().1, depth)
    }
}

/// Whether two values are the same JSON, however deep they go.
pub open spec fn same_json(a: Json, b: Json) -> bool {
    exists|depth: int| #[trigger] same_json_to(a, b, depth)
}

/// Sameness down to some depth holds at every greater depth.
pub proof fn lemma_same_json_deeper(a: Json, b: Json, n: int, m: int)
    requires
        same_json_to(a, b, n),
        n <= m,
    ensures
        same_json_to(a, b, m),
    decreases n, 0int,
{
    match a {
        Json::Array(x) => match b {
            Json::Array(y) => lemma_same_items_deeper(x@, y@, n - 1, m - 1),
            _ => {},
        },
        Json::Object(x) => match b {
            Json::Object(y) => lemma_same_fields_deeper(x@, y@, n - 1, m - 1),
            _ => {},
        },
        _ => {},
    }
}

/// The same, for lists.
pub proof fn lemma_same_items_deeper(x: Seq<Json>, y: Seq<Json>, n: int, m: int)
    requires
        same_items(x, y, n),
        n <= m,
    ensures
        same_items(x, y, m),
    decreases n, x.len(),
{
    if x.len() > 0 {
        lemma_same_items_deeper(x.drop_last(), y.drop_last(), n, m);
        lemma_same_json_deeper(x.last(), y.last(), n, m);
    }
}

/// The same, for objects.
pub proof fn lemma_same_fields_deeper(x: Seq<(String, Json)>, y: Seq<(String, Json)>, n: int, m: int)
    requires
        same_fields(x, y, n),
        n <= m,
    ensures
        same_fields(x, y, m),
    decreases n, x.len(),
{
    if x.len() > 0 {
        lemma_same_fields_deeper(x.drop_last(), y.drop_last(), n, m);
        lemma_same_json_deeper(x.last().1, y.last().1, n, m);
    }
}

/// The same value again, constructor by constructor.
pub fn copy_json(value: &Json) -> (r: Json)
    ensures
        same_json(r, *value),
    decreases *value,
{
    match value {
        Json::Null => {
            assert(same_json_to(Json::Null, *value, 1));
            Json::Null
        },
        Json::Bool(b) => {
            assert(same_json_to(Json::Bool(*b), *value, 1));
            Json::Bool(*b)
        },
        Json::Integer(i) => {
            assert(same_json_to(Json::Integer(*i), *value, 1));
            Json::Integer(*i)
        },
        Json::Number(n) => {
            let r = Json::Number(n.clone());
            assert(same_json_to(r, *value, 1));
            r
        },
        Json::String(s) => {
            let r = Json::String(s.clone());
            assert(same_json_to(r, *value, 1));
            r
        },
        Json::Array(items) => {
            let mut out: Vec<Json> = Vec::new();
            let ghost mut deepest: int = 0;
            let mut i: usize = 0;
            while i < items.len()
                invariant
                    *value == Json::Array(*items),
                    i <= items@.len(),
                    out@.len() == i,
                    deepest >= 0,
                    same_items(out@, items@.take(i as int), deepest),
                decreases items.len() - i,
            {
                proof {
                    assert(decreases_to!(*value => (*value)->Array_0));
                    vstd::std_specs::vec::axiom_vec_index_decreases(*items, i as int);
                }
                let v = copy_json(&items[i]);
                proof {
                    let n = choose|n: int| #[trigger] same_json_to(v, items@[i as int], n);
                    let next: int = if n > deepest { n } else { deepest };
                    lemma_same_items_deeper(out@, items@.take(i as int), deepest, next);
                    lemma_same_json_deeper(v, items@[i as int], n, next);
                    deepest = next;
                    assert(out@.push(v).drop_last() =~= out@);
                    assert(items@.take(i + 1).drop_last() =~= items@.take(i as int));
                }
                out.push(v);
                i += 1;
            }
            proof {
                assert(items@.take(items@.len() as int) =~= items@);
            }
            let r = Json::Array(out);
            assert(same_json_to(r, *value, deepest + 1));
            r
        },
        Json::Object(fields) => {
            let mut out: Vec<(String, Json)> = Vec::new();
            let ghost mut deepest: int = 0;
            let mut i: usize = 0;
            while i < fields.len()
                invariant
                    *value == Json::Object(*fields),
                    i <= fields@.len(),
                    out@.len() == i,
                    deepest >= 0,
                    same_fields(out@, fields@.take(i as int), deepest),
                decreases fields.len() - i,
            {
                proof {
                    assert(decreases_to!(*value => (*value)->Object_0));
                    vstd::std_specs::vec::axiom_vec_index_decreases(*fields, i as int);
                    assert(decreases_to!(fields@[i as int] => fields@[i as int].1));
                }
                let v = copy_json(&fields[i].1);
                let key = fields[i].0.clone();
                proof {
                    let n = choose|n: int| #[trigger] same_json_to(v, fields@[i as int].1, n);
                    let next: int = if n > deepest { n } else { deepest };
                    lemma_same_fields_deeper(out@, fields@.take(i as int), deepest, next);
                    lemma_same_json_deeper(v, fields@[i as int].1, n, next);
                    deepest = next;
                    assert(out@.push((key, v)).drop_last() =~= out@);
                    assert(fields@.take(i + 1).drop_last() =~= fields@.take(i as int));
                }
                out.push((key, v));
                i += 1;
            }
            proof {
                assert(fields@.take(fields@.len() as int) =~= fields@);
            }
            let r = Json::Object(out);
            assert(same_json_to(r, *value, deepest + 1));
            r
        },
    }
}

} // verus!
