//! A skeleton of one JSON body, as the text a user redirects into a file.
//!
//! The body that goes through a file is the body with no per-field flags, and
//! the flags are where this crate says what a field is called and what it
//! accepts — so that body is the one a `--help` page cannot describe. The
//! skeleton is what the walk that decided it was not flat saw on the way.

use vstd::prelude::*;

use crate::json::{same_json, Json};
use crate::openapi::{KindSpec, SchemaRef, SchemaSpec};
use crate::resolve::{resolve_schema, resolved, scalar_for, scalar_of, stated, stated_from};
use crate::scalar::Scalar;
use crate::schema::RefError;
use crate::text::str_is;

verus! {

/// How deep a skeleton goes before it stops descending: a schema that refers
/// to itself still has a finite skeleton.
pub const MAX_DEPTH: usize = 8;

/// The pretty text `serde_json` writes `value` as: two-space indents, one key
/// per line, an object's keys in the order its map keeps them.
pub uninterp spec fn json_pretty_written(value: Json) -> Seq<char>;

/// `serde_json::to_string_pretty` of `value` moved into `serde_json`'s own
/// value. Which text that is, is named and not stated here.
#[verifier::external_body]
fn pretty_text(value: &Json) -> (r: Option<String>)
    ensures
        r is Some,
        r matches Some(s) ==> s@ == json_pretty_written(*value),
{
    serde_json::to_string_pretty(&crate::json::to_value(value)).ok()
}

/// The number `0.0` as `serde_json` reads that text; it writes back as
/// `0.0`.
#[verifier::external_body]
fn fraction_zero() -> (r: serde_json::Number)
    ensures
        crate::json::json_written(Json::Number(r)) == "0.0"@,
{
    "0.0".parse().unwrap()
}

/// What a property states as its `example`, else what the schema it points at
/// states: the field's own value wins.
pub open spec fn example_for(schema: SchemaRef, section: Seq<(String, SchemaRef)>) -> Result<
    Option<Json>,
    RefError,
> {
    match resolved(schema, section, Set::empty()) {
        Err(e) => Err(e),
        Ok(own) => if own.example is Some {
            Ok(own.example)
        } else {
            match stated_from(schema, section, Set::empty()) {
                Err(e) => Err(e),
                Ok(node) => Ok(node.example),
            }
        },
    }
}

/// The example a schema states, its own before the one it points at.
fn example_of<'c>(schema: &'c SchemaRef, section: &'c [(String, SchemaRef)]) -> (r: Result<
    Option<&'c Json>,
    RefError,
>)
    ensures
        match example_for(*schema, section@) {
            Err(e) => r == Err::<Option<&Json>, RefError>(e),
            Ok(Some(v)) => r matches Ok(Some(x)) && *x == v,
            Ok(None) => r matches Ok(None),
        },
{
    let own = match resolve_schema(schema, section) {
        Ok(own) => own,
        Err(e) => return Err(e),
    };
    match &own.example {
        Some(v) => return Ok(Some(v)),
        None => {},
    }
    match stated(schema, section) {
        Ok(node) => match &node.example {
            Some(v) => Ok(Some(v)),
            None => Ok(None),
        },
        Err(e) => Err(e),
    }
}

/// A skeleton as a value of the specification: what each place of the
/// template holds.
pub enum Sketch {
    /// An `example` the document states, taken whole.
    Given(Json),
    Null,
    Bool(bool),
    Integer(i64),
    Number(serde_json::Number),
    Text(Seq<char>),
    Items(Seq<Sketch>),
    Keys(Seq<(Seq<char>, Sketch)>),
}

/// The emptiest value of the kind a stated schema fitting on a flag is: an
/// empty string for text and an amount, zero for a number and an integer,
/// `false`, and the first value an enumeration lists. Empty on purpose: `""`
/// and `0` claim no more than that a value belongs here.
pub open spec fn node_sketch(node: SchemaSpec, zero: serde_json::Number) -> Sketch {
    match node.kind {
        KindSpec::Str { enumeration, .. } => if crate::resolve::present(enumeration@).len() > 0 {
            Sketch::Text(crate::resolve::present(enumeration@)[0])
        } else {
            Sketch::Text(seq![])
        },
        KindSpec::Number { .. } => Sketch::Number(zero),
        KindSpec::Integer { .. } => Sketch::Integer(0),
        _ => Sketch::Bool(false),
    }
}

/// Whether an object lists `name` among the properties it requires.
pub open spec fn listed_in(required: Seq<String>, name: Seq<char>) -> bool {
    exists|i: int| 0 <= i < required.len() && #[trigger] required[i]@ == name
}

/// The properties an object requires, in the order it declares them.
pub open spec fn required_props(props: Seq<(String, SchemaRef)>, required: Seq<String>) -> Seq<
    (String, SchemaRef),
>
    decreases props.len(),
{
    if props.len() == 0 {
        seq![]
    } else {
        let rest = required_props(props.drop_last(), required);
        if listed_in(required, props.last().0@) {
            rest.push(props.last())
        } else {
            rest
        }
    }
}

/// The skeleton of `schema` at `depth`: the `example` the document states,
/// taken whole; the emptiest value where the schema fits on a flag; an
/// object of the required properties' skeletons; a list of one item's
/// skeleton; and `null` for a schema with no reading. Below the deepest level
/// an object is `{}` and a list `[]`.
pub open spec fn skeleton_for(
    schema: SchemaRef,
    section: Seq<(String, SchemaRef)>,
    depth: int,
    zero: serde_json::Number,
) -> Result<Sketch, RefError>
    decreases MAX_DEPTH + 1 - depth, 1int,
{
    match example_for(schema, section) {
        Err(e) => Err(e),
        Ok(Some(v)) => Ok(Sketch::Given(v)),
        Ok(None) => match stated_from(schema, section, Set::empty()) {
            Err(e) => Err(e),
            Ok(node) => match node.kind {
                KindSpec::Str { .. } | KindSpec::Number { .. } | KindSpec::Integer { .. }
                | KindSpec::Boolean => Ok(node_sketch(node, zero)),
                KindSpec::Object { properties, required } => if depth >= MAX_DEPTH || depth < 0 {
                    Ok(Sketch::Keys(seq![]))
                } else {
                    match fields_for(required_props(properties@, required@), section, depth + 1, zero) {
                        Err(e) => Err(e),
                        Ok(fields) => Ok(Sketch::Keys(fields)),
                    }
                },
                KindSpec::Array { items } => match items {
                    Some(i) => if depth >= MAX_DEPTH || depth < 0 {
                        Ok(Sketch::Items(seq![]))
                    } else {
                        match skeleton_for(i, section, depth + 1, zero) {
                            Err(e) => Err(e),
                            Ok(x) => Ok(Sketch::Items(seq![x])),
                        }
                    },
                    None => Ok(Sketch::Items(seq![])),
                },
                _ => Ok(Sketch::Null),
            },
        },
    }
}

/// The skeletons of `props`, key by key, or the first failure among them.
pub open spec fn fields_for(
    props: Seq<(String, SchemaRef)>,
    section: Seq<(String, SchemaRef)>,
    depth: int,
    zero: serde_json::Number,
) -> Result<Seq<(Seq<char>, Sketch)>, RefError>
    decreases MAX_DEPTH + 1 - depth, 2 + props.len(),
{
    if props.len() == 0 {
        Ok(seq![])
    } else {
        match fields_for(props.drop_last(), section, depth, zero) {
            Err(e) => Err(e),
            Ok(fields) => match skeleton_for(props.last().1, section, depth, zero) {
                Err(e) => Err(e),
                Ok(s) => Ok(fields.push((props.last().0@, s))),
            },
        }
    }
}

/// Whether `v` is what `s` sketches, down to `depth` levels.
pub open spec fn depicts(v: Json, s: Sketch, depth: int) -> bool
    decreases depth, 0int,
{
    if depth <= 0 {
        false
    } else {
        match s {
            Sketch::Given(j) => same_json(v, j),
            Sketch::Null => v is Null,
            Sketch::Bool(b) => v == Json::Bool(b),
            Sketch::Integer(i) => v == Json::Integer(i),
            Sketch::Number(n) => v == Json::Number(n),
            Sketch::Text(t) => v matches Json::String(x) && x@ == t,
            Sketch::Items(items) => match v {
                Json::Array(x) => depicts_items(x@, items, depth - 1),
                _ => false,
            },
            Sketch::Keys(fields) => match v {
                Json::Object(x) => depicts_fields(x@, fields, depth - 1),
                _ => false,
            },
        }
    }
}

/// Whether each item is what the sketch beside it sketches.
pub open spec fn depicts_items(x: Seq<Json>, s: Seq<Sketch>, depth: int) -> bool
    decreases depth, x.len(),
{
    if x.len() != s.len() {
        false
    } else if x.len() == 0 {
        true
    } else {
        depicts_items(x.drop_last(), s.drop_last(), depth) && depicts(x.last(), s.last(), depth)
    }
}

/// Whether each field has the key, and the value, its sketch gives.
pub open spec fn depicts_fields(x: Seq<(String, Json)>, s: Seq<(Seq<char>, Sketch)>, depth: int) -> bool
    decreases depth, x.len(),
{
    if x.len() != s.len() {
        false
    } else if x.len() == 0 {
        true
    } else {
        depicts_fields(x.drop_last(), s.drop_last(), depth) && x.last().0@ == s.last().0
            && depicts(x.last().1, s.last().1, depth)
    }
}

/// Whether `v` is what `s` sketches, however deep.
pub open spec fn depicted(v: Json, s: Sketch) -> bool {
    exists|depth: int| #[trigger] depicts(v, s, depth)
}

/// A sketch holds at every depth past one where it holds.
pub proof fn lemma_depicts_deeper(v: Json, s: Sketch, n: int, m: int)
    requires
        depicts(v, s, n),
        n <= m,
    ensures
        depicts(v, s, m),
    decreases n, 0int,
{
    match s {
        Sketch::Items(items) => match v {
            Json::Array(x) => lemma_items_deeper(x@, items, n - 1, m - 1),
            _ => {},
        },
        Sketch::Keys(fields) => match v {
            Json::Object(x) => lemma_fields_deeper(x@, fields, n - 1, m - 1),
            _ => {},
        },
        _ => {},
    }
}

/// The same, for lists.
pub proof fn lemma_items_deeper(x: Seq<Json>, s: Seq<Sketch>, n: int, m: int)
    requires
        depicts_items(x, s, n),
        n <= m,
    ensures
        depicts_items(x, s, m),
    decreases n, x.len(),
{
    if x.len() > 0 {
        lemma_items_deeper(x.drop_last(), s.drop_last(), n, m);
        lemma_depicts_deeper(x.last(), s.last(), n, m);
    }
}

/// The same, for objects.
pub proof fn lemma_fields_deeper(x: Seq<(String, Json)>, s: Seq<(Seq<char>, Sketch)>, n: int, m: int)
    requires
        depicts_fields(x, s, n),
        n <= m,
    ensures
        depicts_fields(x, s, m),
    decreases n, x.len(),
{
    if x.len() > 0 {
        lemma_fields_deeper(x.drop_last(), s.drop_last(), n, m);
        lemma_depicts_deeper(x.last().1, s.last().1, n, m);
    }
}

/// Whether `r` is what the skeleton `sk` of some schema is built as.
pub open spec fn built(sk: Result<Sketch, RefError>, r: Result<Json, RefError>) -> bool {
    match sk {
        Err(e) => r == Err::<Json, RefError>(e),
        Ok(s) => r matches Ok(v) && depicted(v, s),
    }
}

/// The emptiest value of one kind.
fn empty(scalar: &Scalar, zero: &serde_json::Number, Ghost(node): Ghost<SchemaSpec>) -> (v: Json)
    requires
        scalar_for(node, Some(*scalar)),
    ensures
        depicts(v, node_sketch(node, *zero), 1),
{
    match scalar {
        Scalar::Text(_) | Scalar::Money(_) => Json::String(String::new()),
        Scalar::Integer => Json::Integer(0),
        Scalar::Number => Json::Number(zero.clone()),
        Scalar::Boolean => Json::Bool(false),
        Scalar::Choice(values) => {
            assert(values@.map_values(|x: String| x@).len() == values@.len());
            let r = Json::String(values[0].clone());
            assert(values@.map_values(|x: String| x@)[0] == values@[0]@);
            r
        },
    }
}

/// Whether `name` is one of `required`.
pub fn is_listed(required: &Vec<String>, name: &str) -> (r: bool)
    ensures
        r == listed_in(required@, name@),
{
    let mut i: usize = 0;
    while i < required.len()
        invariant
            i <= required@.len(),
            forall|j: int| 0 <= j < i ==> (#[trigger] required@[j])@ != name@,
        decreases required.len() - i,
    {
        if str_is(required[i].as_str(), name) {
            return true;
        }
        i += 1;
    }
    false
}

/// One schema as the emptiest value that fits it.
#[verifier::rlimit(60)]
fn skeleton(schema: &SchemaRef, section: &[(String, SchemaRef)], depth: usize, zero: &serde_json::Number) -> (r:
    Result<Json, RefError>)
    requires
        depth <= MAX_DEPTH,
    ensures
        built(skeleton_for(*schema, section@, depth as int, *zero), r),
    decreases MAX_DEPTH + 1 - depth, 1int,
{
    match example_of(schema, section) {
        Err(e) => return Err(e),
        Ok(Some(v)) => {
            let x = crate::json::copy_json(v);
            proof {
                let n = choose|n: int| #[trigger] crate::json::same_json_to(x, *v, n);
                assert(n > 0);
                assert(depicts(x, Sketch::Given(*v), n));
            }
            return Ok(x);
        },
        Ok(None) => {},
    }
    match scalar_of(schema, section) {
        Err(e) => return Err(e),
        Ok(Some(s)) => {
            let ghost node = stated_from(*schema, section@, Set::empty())->Ok_0;
            let v = empty(&s, zero, Ghost(node));
            return Ok(v);
        },
        Ok(None) => {},
    }
    let node = match stated(schema, section) {
        Ok(node) => node,
        Err(e) => return Err(e),
    };
    match &node.kind {
        KindSpec::Object { properties, required } => {
            if depth >= MAX_DEPTH {
                let r = Json::Object(Vec::new());
                assert(depicts(r, Sketch::Keys(seq![]), 2));
                return Ok(r);
            }
            let fields = object_skeleton(properties, required, section, depth + 1, zero);
            match fields {
                Err(e) => Err(e),
                Ok(fields) => {
                    let ghost fs = fields_for(required_props(properties@, required@), section@, depth + 1, *zero)->Ok_0;
                    let ghost n = choose|n: int| #[trigger] depicts_fields(fields@, fs, n);
                    let ghost m: int = if n > 0 { n } else { 0 };
                    proof {
                        lemma_fields_deeper(fields@, fs, n, m);
                    }
                    let r = Json::Object(fields);
                    assert(depicts(r, Sketch::Keys(fs), m + 1));
                    Ok(r)
                },
            }
        },
        KindSpec::Array { items } => match items {
            None => {
                let r = Json::Array(Vec::new());
                assert(depicts(r, Sketch::Items(seq![]), 2));
                Ok(r)
            },
            Some(i) => {
                if depth >= MAX_DEPTH {
                    let r = Json::Array(Vec::new());
                    assert(depicts(r, Sketch::Items(seq![]), 2));
                    return Ok(r);
                }
                let sub = skeleton(i, section, depth + 1, zero);
                match sub {
                    Err(e) => Err(e),
                    Ok(x) => {
                        let ghost s = skeleton_for(*i, section@, depth + 1, *zero)->Ok_0;
                        let ghost n = choose|n: int| #[trigger] depicts(x, s, n);
                        let mut v: Vec<Json> = Vec::new();
                        v.push(x);
                        proof {
                            assert(v@.drop_last() =~= Seq::<Json>::empty());
                            assert(seq![s].drop_last() =~= Seq::<Sketch>::empty());
                            assert(depicts_items(Seq::<Json>::empty(), Seq::<Sketch>::empty(), n));
                            assert(v@.last() == x);
                            assert(seq![s].last() == s);
                            assert(depicts_items(v@, seq![s], n));
                        }
                        let r = Json::Array(v);
                        assert(depicts(r, Sketch::Items(seq![s]), n + 1));
                        Ok(r)
                    },
                }
            },
        },
        _ => {
            assert(depicts(Json::Null, Sketch::Null, 1));
            Ok(Json::Null)
        },
    }
}

/// The required properties, in the order the document declares them, and
/// nothing else: an optional key carrying an empty value is a key the caller
/// never asked to send.
fn object_skeleton(
    properties: &Vec<(String, SchemaRef)>,
    required: &Vec<String>,
    section: &[(String, SchemaRef)],
    depth: usize,
    zero: &serde_json::Number,
) -> (r: Result<Vec<(String, Json)>, RefError>)
    requires
        1 <= depth <= MAX_DEPTH,
    ensures
        match fields_for(required_props(properties@, required@), section@, depth as int, *zero) {
            Err(e) => r == Err::<Vec<(String, Json)>, RefError>(e),
            Ok(s) => r matches Ok(v) && exists|n: int| #[trigger] depicts_fields(v@, s, n),
        },
    decreases MAX_DEPTH + 1 - depth, 2int,
{
    let mut fields: Vec<(String, Json)> = Vec::new();
    let ghost mut deepest: int = 0;
    let mut i: usize = 0;
    while i < properties.len()
        invariant
            i <= properties@.len(),
            1 <= depth <= MAX_DEPTH,
            fields_for(required_props(properties@.take(i as int), required@), section@, depth as int, *zero)
                matches Ok(s) && depicts_fields(fields@, s, deepest),
        decreases properties.len() - i,
    {
        let ghost before = required_props(properties@.take(i as int), required@);
        proof {
            assert(properties@.take(i + 1).drop_last() =~= properties@.take(i as int));
            assert(properties@.take(i + 1).last() == properties@[i as int]);
        }
        let name = properties[i].0.as_str();
        if is_listed(required, name) {
            let sub = skeleton(&properties[i].1, section, depth, zero);
            let ghost after = required_props(properties@.take(i + 1), required@);
            assert(after == before.push(properties@[i as int]));
            assert(after.drop_last() =~= before);
            match sub {
                Err(e) => {
                    proof {
                        lemma_fields_after(properties@, required@, section@, depth as int, *zero, i as int + 1);
                    }
                    return Err(e);
                },
                Ok(v) => {
                    let key = properties[i].0.clone();
                    proof {
                        let s = skeleton_for(properties@[i as int].1, section@, depth as int, *zero)->Ok_0;
                        let n = choose|n: int| #[trigger] depicts(v, s, n);
                        let next: int = if n > deepest { n } else { deepest };
                        let fs = fields_for(before, section@, depth as int, *zero)->Ok_0;
                        lemma_fields_deeper(fields@, fs, deepest, next);
                        lemma_depicts_deeper(v, s, n, next);
                        deepest = next;
                        assert(fields@.push((key, v)).drop_last() =~= fields@);
                        assert(fs.push((key@, s)).drop_last() =~= fs);
                    }
                    fields.push((key, v));
                },
            }
        } else {
            assert(required_props(properties@.take(i + 1), required@) == before);
        }
        i += 1;
    }
    proof {
        assert(properties@.take(properties@.len() as int) =~= properties@);
        assert(required_props(properties@.take(properties@.len() as int), required@) == required_props(
            properties@,
            required@,
        ));
        assert(fields_for(required_props(properties@, required@), section@, depth as int, *zero) is Ok);
        let fs = fields_for(required_props(properties@, required@), section@, depth as int, *zero)->Ok_0;
        assert(depicts_fields(fields@, fs, deepest));
    }
    let r: Result<Vec<(String, Json)>, RefError> = Ok(fields);
    assert(r matches Ok(v) && depicts_fields(v@, fields_for(required_props(properties@, required@), section@, depth as int, *zero)->Ok_0, deepest));
    r
}

/// Once the skeletons of a prefix's required properties fail, so do those of
/// any longer prefix, with the same failure.
proof fn lemma_fields_after(
    props: Seq<(String, SchemaRef)>,
    required: Seq<String>,
    section: Seq<(String, SchemaRef)>,
    depth: int,
    zero: serde_json::Number,
    n: int,
)
    requires
        0 <= n <= props.len(),
        fields_for(required_props(props.take(n), required), section, depth, zero) is Err,
    ensures
        fields_for(required_props(props, required), section, depth, zero) == fields_for(
            required_props(props.take(n), required),
            section,
            depth,
            zero,
        ),
    decreases props.len() - n,
{
    if n < props.len() {
        assert(props.take(n + 1).drop_last() =~= props.take(n));
        assert(props.take(n + 1).last() == props[n]);
        let before = required_props(props.take(n), required);
        let after = required_props(props.take(n + 1), required);
        if after != before {
            assert(after.drop_last() =~= before);
        }
        lemma_fields_after(props, required, section, depth, zero, n + 1);
    } else {
        assert(props.take(n) =~= props);
    }
}

/// Whether `r` is the template a skeleton gives: none for a `null`
/// skeleton, its pretty text otherwise, and the skeleton's failure as it is.
pub open spec fn template_from(sk: Result<Sketch, RefError>, r: Result<Option<String>, RefError>) -> bool {
    match sk {
        Err(e) => r == Err::<Option<String>, RefError>(e),
        Ok(s) => if s == Sketch::Null || s == Sketch::Given(Json::Null) {
            r == Ok::<Option<String>, RefError>(None)
        } else {
            r matches Ok(t) && (t matches Some(text) ==> exists|v: Json|
                depicted(v, s) && text@ == #[trigger] json_pretty_written(v))
        },
    }
}

/// Whether `r` is the template of `schema`, a number's place holding the
/// number `serde_json` writes as `0.0`.
pub open spec fn template_is(schema: SchemaRef, section: Seq<(String, SchemaRef)>, r: Result<Option<String>, RefError>) -> bool {
    exists|zero: serde_json::Number|
        crate::json::json_written(Json::Number(zero)) == "0.0"@ && template_from(#[trigger] skeleton_for(schema, section, 0, zero), r)
}

/// A skeleton of one JSON body, as the text a user redirects into a file.
///
/// `None` where there is no shape to write down: a schema that is a
/// composition this crate has no reading for. The number a skeleton puts in a
/// number's place is `0.0`, as `serde_json` reads it.
pub fn template(schema: &SchemaRef, section: &[(String, SchemaRef)]) -> (r: Result<Option<String>, RefError>)
    ensures
        template_is(*schema, section@, r),
{
    let zero = fraction_zero();
    let sk = skeleton(schema, section, 0, &zero);
    let ghost s = skeleton_for(*schema, section@, 0, zero);
    match sk {
        Err(e) => {
            assert(template_from(s, Err(e)));
            Err(e)
        },
        Ok(v) => match v {
            Json::Null => {
                proof {
                    let sketch = s->Ok_0;
                    let n = choose|n: int| #[trigger] depicts(v, sketch, n);
                    assert(depicts(Json::Null, sketch, n));
                    match sketch {
                        Sketch::Given(j) => {
                            let m = choose|m: int| #[trigger] crate::json::same_json_to(Json::Null, j, m);
                            assert(j is Null);
                        },
                        _ => {},
                    }
                }
                Ok(None)
            },
            _ => {
                let t = pretty_text(&v);
                proof {
                    let sketch = s->Ok_0;
                    let n = choose|n: int| #[trigger] depicts(v, sketch, n);
                    match sketch {
                        Sketch::Given(j) => {
                            if j == Json::Null {
                                let m = choose|m: int| #[trigger] crate::json::same_json_to(v, j, m);
                                assert(false);
                            }
                        },
                        _ => {},
                    }
                    assert(template_from(s, Ok(t)));
                }
                Ok(t)
            },
        },
    }
}

} // verus!

verus! {

/// A schema whose own node states an `example` is sketched as that example,
/// taken whole, at every depth: the template shows what the document stated
/// rather than an empty value of the schema's kind.
pub proof fn lemma_own_example_given(
    schema: SchemaRef,
    section: Seq<(String, SchemaRef)>,
    v: Json,
    depth: int,
    zero: serde_json::Number,
)
    requires
        resolved(schema, section, Set::empty()) matches Ok(own) && own.example == Some(v),
    ensures
        skeleton_for(schema, section, depth, zero) == Ok::<Sketch, RefError>(Sketch::Given(v)),
{
}

/// A schema whose own node states no `example`, but whose stated node does,
/// is sketched as the stated node's example.
pub proof fn lemma_stated_example_given(
    schema: SchemaRef,
    section: Seq<(String, SchemaRef)>,
    v: Json,
    depth: int,
    zero: serde_json::Number,
)
    requires
        resolved(schema, section, Set::empty()) matches Ok(own) && own.example is None,
        stated_from(schema, section, Set::empty()) matches Ok(node) && node.example == Some(v),
    ensures
        skeleton_for(schema, section, depth, zero) == Ok::<Sketch, RefError>(Sketch::Given(v)),
{
}

/// The template of a schema whose own node states an example that is not
/// `null` is that example, written out: any text it gives is the pretty text
/// of a value that is the example.
pub proof fn lemma_template_shows_example(
    schema: SchemaRef,
    section: Seq<(String, SchemaRef)>,
    v: Json,
    r: Result<Option<String>, RefError>,
)
    requires
        resolved(schema, section, Set::empty()) matches Ok(own) && own.example == Some(v),
        !(v is Null),
        template_is(schema, section, r),
    ensures
        r matches Ok(t) && (t matches Some(text) ==> exists|w: Json|
            same_json(w, v) && text@ == #[trigger] json_pretty_written(w)),
{
    let zero = choose|zero: serde_json::Number|
        crate::json::json_written(Json::Number(zero)) == "0.0"@ && template_from(
            #[trigger] skeleton_for(schema, section, 0, zero),
            r,
        );
    lemma_own_example_given(schema, section, v, 0, zero);
    assert(Sketch::Given(v) != Sketch::Given(Json::Null));
    match r {
        Ok(Some(text)) => {
            let w = choose|w: Json| depicted(w, Sketch::Given(v)) && text@ == #[trigger] json_pretty_written(w);
            let n = choose|n: int| #[trigger] depicts(w, Sketch::Given(v), n);
            assert(same_json(w, v));
        },
        _ => {},
    }
}

proof fn lemma_fields_keys(
    props: Seq<(String, SchemaRef)>,
    section: Seq<(String, SchemaRef)>,
    depth: int,
    zero: serde_json::Number,
    fs: Seq<(Seq<char>, Sketch)>,
)
    requires
        fields_for(props, section, depth, zero) == Ok::<Seq<(Seq<char>, Sketch)>, RefError>(fs),
    ensures
        fs.len() == props.len(),
        forall|k: int| 0 <= k < fs.len() ==> #[trigger] fs[k].0 == props[k].0@,
    decreases props.len(),
{
    if props.len() > 0 {
        let before = fields_for(props.drop_last(), section, depth, zero)->Ok_0;
        lemma_fields_keys(props.drop_last(), section, depth, zero, before);
        assert forall|k: int| 0 <= k < fs.len() implies #[trigger] fs[k].0 == props[k].0@ by {
            if k < fs.len() - 1 {
                assert(fs[k] == before[k]);
                assert(props.drop_last()[k] == props[k]);
            }
        }
    }
}

/// Whether `e` is one of `props` and named by `required`.
pub open spec fn declared_and_required(
    props: Seq<(String, SchemaRef)>,
    required: Seq<String>,
    e: (String, SchemaRef),
) -> bool {
    &&& exists|i: int| 0 <= i < required.len() && #[trigger] required[i]@ == e.0@
    &&& exists|j: int| 0 <= j < props.len() && #[trigger] props[j] == e
}

proof fn lemma_required_props(props: Seq<(String, SchemaRef)>, required: Seq<String>)
    ensures
        forall|k: int| 0 <= k < required_props(props, required).len() ==> declared_and_required(
            props,
            required,
            #[trigger] required_props(props, required)[k],
        ),
        forall|j: int| 0 <= j < props.len() && (exists|i: int| 0 <= i < required.len() && required[i]@ == (#[trigger] props[j]).0@)
            ==> exists|k: int| 0 <= k < required_props(props, required).len() && required_props(props, required)[k] == props[j],
    decreases props.len(),
{
    if props.len() > 0 {
        let init = props.drop_last();
        lemma_required_props(init, required);
        let rest = required_props(init, required);
        let rp = required_props(props, required);
        assert forall|k: int| 0 <= k < rp.len() implies declared_and_required(props, required, #[trigger] rp[k]) by {
            if k < rest.len() {
                assert(rp[k] == rest[k]);
                assert(declared_and_required(init, required, rest[k]));
                let j = choose|j: int| 0 <= j < init.len() && #[trigger] init[j] == rest[k];
                assert(props[j] == init[j]);
            } else {
                assert(listed_in(required, props.last().0@));
                assert(rp[k] == props.last());
                assert(props[props.len() - 1] == props.last());
                let i = choose|i: int| 0 <= i < required.len() && #[trigger] required[i]@ == props.last().0@;
                assert(required[i]@ == rp[k].0@);
            }
        }
        assert forall|j: int| 0 <= j < props.len() && (exists|i: int| 0 <= i < required.len() && required[i]@ == (#[trigger] props[j]).0@)
            implies exists|k: int| 0 <= k < rp.len() && rp[k] == props[j] by {
            if j < props.len() - 1 {
                assert(init[j] == props[j]);
                let k = choose|k: int| 0 <= k < rest.len() && rest[k] == init[j];
                assert(rp[k] == rest[k]);
            } else {
                assert(rp[rp.len() - 1] == props[j]);
            }
        }
    }
}

/// An object that states no example is sketched with exactly its required
/// properties: every key the template holds is one the object declares and
/// requires, and every property it declares and requires is there.
pub proof fn lemma_object_template_keys(
    schema: SchemaRef,
    section: Seq<(String, SchemaRef)>,
    depth: int,
    zero: serde_json::Number,
    properties: Vec<(String, SchemaRef)>,
    required: Vec<String>,
    fs: Seq<(Seq<char>, Sketch)>,
)
    requires
        resolved(schema, section, Set::empty()) matches Ok(own) && own.example is None,
        stated_from(schema, section, Set::empty()) matches Ok(node) && node.example is None && node.kind
            == (KindSpec::Object { properties, required }),
        0 <= depth < MAX_DEPTH,
        skeleton_for(schema, section, depth, zero) == Ok::<Sketch, RefError>(Sketch::Keys(fs)),
    ensures
        forall|k: int| 0 <= k < fs.len() ==> {
            &&& exists|i: int| 0 <= i < required@.len() && required@[i]@ == (#[trigger] fs[k]).0
            &&& exists|j: int| 0 <= j < properties@.len() && properties@[j].0@ == fs[k].0
        },
        forall|j: int|
            0 <= j < properties@.len() && (exists|i: int| 0 <= i < required@.len() && required@[i]@ == (#[trigger] properties@[j]).0@)
                ==> exists|k: int| 0 <= k < fs.len() && fs[k].0 == properties@[j].0@,
{
    let rp = required_props(properties@, required@);
    assert(fields_for(rp, section, depth + 1, zero) == Ok::<Seq<(Seq<char>, Sketch)>, RefError>(fs));
    lemma_fields_keys(rp, section, depth + 1, zero, fs);
    lemma_required_props(properties@, required@);
    assert forall|k: int| 0 <= k < fs.len() implies {
        &&& exists|i: int| 0 <= i < required@.len() && required@[i]@ == (#[trigger] fs[k]).0
        &&& exists|j: int| 0 <= j < properties@.len() && properties@[j].0@ == fs[k].0
    } by {
        assert(fs[k].0 == rp[k].0@);
        assert(declared_and_required(properties@, required@, rp[k]));
        let j = choose|j: int| 0 <= j < properties@.len() && #[trigger] properties@[j] == rp[k];
        assert(properties@[j].0@ == fs[k].0);
    }
    assert forall|j: int|
        0 <= j < properties@.len() && (exists|i: int| 0 <= i < required@.len() && required@[i]@ == (#[trigger] properties@[j]).0@)
            implies exists|k: int| 0 <= k < fs.len() && fs[k].0 == properties@[j].0@ by {
        let k = choose|k: int| 0 <= k < rp.len() && rp[k] == properties@[j];
        assert(fs[k].0 == rp[k].0@);
    }
}

/// A list that states no example is sketched with exactly one item, where its
/// items are stated.
pub proof fn lemma_list_template_one_item(
    schema: SchemaRef,
    section: Seq<(String, SchemaRef)>,
    depth: int,
    zero: serde_json::Number,
    items: SchemaRef,
    xs: Seq<Sketch>,
)
    requires
        resolved(schema, section, Set::empty()) matches Ok(own) && own.example is None,
        stated_from(schema, section, Set::empty()) matches Ok(node) && node.example is None && node.kind
            == (KindSpec::Array { items: Some(items) }),
        0 <= depth < MAX_DEPTH,
        skeleton_for(schema, section, depth, zero) == Ok::<Sketch, RefError>(Sketch::Items(xs)),
    ensures
        xs.len() == 1,
{
}

} // verus!
