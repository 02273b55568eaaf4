//! A document's schemas as the JSON Schema a type generator reads: the same
//! values, with every reference into `#/components/schemas/` pointed into
//! `#/definitions/` instead.

use vstd::prelude::*;

use crate::json::{same_json_to, Json};
use crate::text::{append_chars, chars_of, str_is, string_of};

verus! {

/// `s` with every occurrence of `from`, taken left to right and without
/// overlap, replaced by `to`, as `str::replace` does for a non-empty `from`.
pub open spec fn replaced(s: Seq<char>, from: Seq<char>, to: Seq<char>) -> Seq<char>
    recommends
        from.len() > 0,
    decreases s.len(),
{
    if s.len() == 0 || from.len() == 0 {
        s
    } else if s.len() >= from.len() && s.take(from.len() as int) == from {
        to + replaced(s.skip(from.len() as int), from, to)
    } else {
        seq![s[0]] + replaced(s.drop_first(), from, to)
    }
}

/// Where a reference into the document's schemas points once they are
/// definitions.
pub open spec fn retarget(reference: Seq<char>) -> Seq<char> {
    replaced(reference, "#/components/schemas/"@, "#/definitions/"@)
}

/// Whether `pat` stands in `s` at `at`.
fn stands_at(s: &[char], at: usize, pat: &[char]) -> (r: bool)
    requires
        at <= s@.len(),
    ensures
        r == (at + pat@.len() <= s@.len() && s@.subrange(at as int, at + pat@.len()) == pat@),
{
    let n = s.len();
    if pat.len() > n - at {
        return false;
    }
    let mut k: usize = 0;
    while k < pat.len()
        invariant
            n == s@.len(),
            at + pat@.len() <= n,
            k <= pat@.len(),
            forall|j: int| 0 <= j < k ==> s@[at + j] == pat@[j],
        decreases pat.len() - k,
    {
        if s[at + k] != pat[k] {
            assert(s@.subrange(at as int, at + pat@.len())[k as int] != pat@[k as int]);
            return false;
        }
        k += 1;
    }
    assert(s@.subrange(at as int, at + pat@.len()) =~= pat@);
    true
}

/// A reference pointed into `#/definitions/`.
fn retargeted(reference: &str) -> (r: String)
    ensures
        r@ == retarget(reference@),
{
    proof {
        reveal_strlit("#/components/schemas/");
    }
    let s = chars_of(reference);
    let from = chars_of("#/components/schemas/");
    let to = chars_of("#/definitions/");
    let ghost whole = replaced(s@, from@, to@);
    let mut out: Vec<char> = Vec::new();
    let mut i: usize = 0;
    assert(s@.skip(0) =~= s@);
    while i < s.len()
        invariant
            i <= s@.len(),
            from@.len() > 0,
            out@ + replaced(s@.skip(i as int), from@, to@) == whole,
        decreases s.len() - i,
    {
        let ghost rest = s@.skip(i as int);
        if stands_at(s.as_slice(), i, from.as_slice()) {
            assert(rest.take(from@.len() as int) =~= s@.subrange(i as int, i + from@.len()));
            assert(rest.skip(from@.len() as int) =~= s@.skip(i + from@.len()));
            append_chars(&mut out, to.as_slice());
            i = i + from.len();
            assert(out@ + replaced(s@.skip(i as int), from@, to@) =~= whole);
        } else {
            proof {
                if rest.len() >= from@.len() {
                    assert(rest.take(from@.len() as int) =~= s@.subrange(i as int, i + from@.len()));
                }
                assert(rest.drop_first() =~= s@.skip(i + 1));
                assert(rest[0] == s@[i as int]);
            }
            out.push(s[i]);
            i = i + 1;
            assert(out@ + replaced(s@.skip(i as int), from@, to@) =~= whole);
        }
    }
    assert(s@.skip(i as int) =~= Seq::<char>::empty());
    assert(out@ =~= whole);
    string_of(out.as_slice())
}

/// Whether `r` is `a` as a definition, down to `depth` levels: the same value,
/// key for key and item for item, except that the reference a `$ref` key holds
/// is pointed into `#/definitions/`.
pub open spec fn definition_to(a: Json, r: Json, depth: int) -> bool
    decreases depth,
{
    if depth <= 0 {
        false
    } else {
        match a {
            Json::Array(x) => match r {
                Json::Array(y) => x@.len() == y@.len() && forall|i: int|
                    0 <= i < x@.len() ==> definition_to(#[trigger] x@[i], y@[i], depth - 1),
                _ => false,
            },
            Json::Object(x) => match r {
                Json::Object(y) => x@.len() == y@.len() && forall|i: int|
                    0 <= i < x@.len() ==> {
                        &&& (#[trigger] y@[i]).0@ == x@[i].0@
                        &&& if x@[i].0@ == "$ref"@ && x@[i].1 is String {
                            y@[i].1 matches Json::String(t) && t@ == retarget(x@[i].1->String_0@)
                        } else {
                            definition_to(x@[i].1, y@[i].1, depth - 1)
                        }
                    },
                _ => false,
            },
            _ => same_json_to(a, r, 1),
        }
    }
}

/// Whether `r` is `a` as a definition, however deep it goes.
pub open spec fn definition(a: Json, r: Json) -> bool {
    exists|depth: int| #[trigger] definition_to(a, r, depth)
}

/// Holding down to some depth holds at every greater depth.
proof fn lemma_definition_deeper(a: Json, r: Json, n: int, m: int)
    requires
        definition_to(a, r, n),
        n <= m,
    ensures
        definition_to(a, r, m),
    decreases n,
{
    match a {
        Json::Array(x) => match r {
            Json::Array(y) => {
                assert forall|i: int| 0 <= i < x@.len() implies definition_to(#[trigger] x@[i], y@[i], m - 1) by {
                    lemma_definition_deeper(x@[i], y@[i], n - 1, m - 1);
                }
            },
            _ => {},
        },
        Json::Object(x) => match r {
            Json::Object(y) => {
                assert forall|i: int| 0 <= i < x@.len() && !(x@[i].0@ == "$ref"@ && x@[i].1 is String) implies definition_to(
                    x@[i].1,
                    #[trigger] y@[i].1,
                    m - 1,
                ) by {
                    assert(y@[i].0@ == x@[i].0@);
                    lemma_definition_deeper(x@[i].1, y@[i].1, n - 1, m - 1);
                }
            },
            _ => {},
        },
        _ => {},
    }
}

/// `value` as the JSON Schema a type generator reads: the same value, with
/// the reference every `$ref` key holds pointed from `#/components/schemas/`
/// into `#/definitions/`.
pub fn as_json_schema(value: &Json) -> (r: Json)
    ensures
        definition(*value, r),
    decreases *value,
{
    match value {
        Json::Null => {
            assert(definition_to(*value, Json::Null, 1));
            Json::Null
        },
        Json::Bool(b) => {
            assert(definition_to(*value, Json::Bool(*b), 1));
            Json::Bool(*b)
        },
        Json::Integer(n) => {
            assert(definition_to(*value, Json::Integer(*n), 1));
            Json::Integer(*n)
        },
        Json::Number(n) => {
            let r = Json::Number(n.clone());
            assert(definition_to(*value, r, 1));
            r
        },
        Json::String(t) => {
            let r = Json::String(t.clone());
            assert(definition_to(*value, r, 1));
            r
        },
        Json::Array(items) => {
            let mut out: Vec<Json> = Vec::new();
            let ghost mut deepest: int = 0;
            let mut i: usize = 0;
            while i < items.len()
                invariant
                    *value == Json::Array(*items),
                    i <= items@.len(),
                    out@.len() == i,
                    deepest >= 0,
                    forall|k: int| 0 <= k < i ==> definition_to(#[trigger] items@[k], out@[k], deepest),
                decreases items.len() - i,
            {
                proof {
                    assert(decreases_to!(*value => (*value)->Array_0));
                    vstd::std_specs::vec::axiom_vec_index_decreases(*items, i as int);
                }
                let v = as_json_schema(&items[i]);
                proof {
                    let n = choose|n: int| #[trigger] definition_to(items@[i as int], v, n);
                    let next: int = if n > deepest { n } else { deepest };
                    assert forall|k: int| 0 <= k < i implies definition_to(#[trigger] items@[k], out@[k], next) by {
                        lemma_definition_deeper(items@[k], out@[k], deepest, next);
                    }
                    lemma_definition_deeper(items@[i as int], v, n, next);
                    deepest = next;
                }
                out.push(v);
                i += 1;
            }
            let r = Json::Array(out);
            assert(definition_to(*value, r, deepest + 1));
            r
        },
        Json::Object(fields) => {
            let mut out: Vec<(String, Json)> = Vec::new();
            let ghost mut deepest: int = 0;
            let mut i: usize = 0;
            while i < fields.len()
                invariant
                    *value == Json::Object(*fields),
                    i <= fields@.len(),
                    out@.len() == i,
                    deepest >= 0,
                    forall|k: int|
                        0 <= k < i ==> {
                            &&& (#[trigger] out@[k]).0@ == fields@[k].0@
                            &&& if fields@[k].0@ == "$ref"@ && fields@[k].1 is String {
                                out@[k].1 matches Json::String(t) && t@ == retarget(fields@[k].1->String_0@)
                            } else {
                                definition_to(fields@[k].1, out@[k].1, deepest)
                            }
                        },
                decreases fields.len() - i,
            {
                let key = fields[i].0.clone();
                let is_ref = str_is(fields[i].0.as_str(), "$ref");
                let entry = match &fields[i].1 {
                    Json::String(target) => {
                        if is_ref {
                            (key, Json::String(retargeted(target.as_str())))
                        } else {
                            let t = Json::String(target.clone());
                            assert(definition_to(fields@[i as int].1, t, 1));
                            (key, t)
                        }
                    },
                    _ => {
                        proof {
                            assert(decreases_to!(*value => (*value)->Object_0));
                            vstd::std_specs::vec::axiom_vec_index_decreases(*fields, i as int);
                            assert(decreases_to!(fields@[i as int] => fields@[i as int].1));
                        }
                        (key, as_json_schema(&fields[i].1))
                    },
                };
                proof {
                    let ghost_next: int = if !(fields@[i as int].0@ == "$ref"@ && fields@[i as int].1 is String) {
                        let n = choose|n: int| #[trigger] definition_to(fields@[i as int].1, entry.1, n);
                        if n > deepest { n } else { deepest }
                    } else {
                        deepest
                    };
                    assert forall|k: int| 0 <= k < i && !(fields@[k].0@ == "$ref"@ && fields@[k].1 is String) implies definition_to(
                        fields@[k].1,
                        #[trigger] out@[k].1,
                        ghost_next,
                    ) by {
                        lemma_definition_deeper(fields@[k].1, out@[k].1, deepest, ghost_next);
                    }
                    if !(fields@[i as int].0@ == "$ref"@ && fields@[i as int].1 is String) {
                        let n = choose|n: int| #[trigger] definition_to(fields@[i as int].1, entry.1, n);
                        lemma_definition_deeper(fields@[i as int].1, entry.1, n, ghost_next);
                    }
                    deepest = ghost_next;
                }
                out.push(entry);
                i += 1;
            }
            let r = Json::Object(out);
            assert(definition_to(*value, r, deepest + 1));
            r
        },
    }
}

} // verus!
