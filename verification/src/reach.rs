//! Where the walk for phantom keys goes: every position the OpenAPI
//! specification puts a schema under is reached, so a `required` list there is
//! judged.

use vstd::prelude::*;

use crate::json::Json;
use crate::required::{
    composed, conditional, enclosing_for, extension, keyword_route, method_key, phantom_at, phantom_entries,
    phantom_members,
    phantom_entry_list, phantom_fields, phantom_in, phantom_under, required_names_of, route_for, Kind, Route,
};

verus! {

/// Two texts that differ in length or in their first character differ.
proof fn lemma_ne(a: Seq<char>, b: Seq<char>)
    requires
        a.len() != b.len() || (a.len() > 0 && b.len() > 0 && a[0] != b[0]),
    ensures
        a != b,
{
    if a == b {
        if a.len() > 0 {
            assert(a[0] == b[0]);
        }
    }
}

/// Whether `node` is an object holding `value` under `key`.
pub open spec fn holds(node: Json, key: Seq<char>, value: Json) -> bool {
    node matches Json::Object(f) && exists|i: int| 0 <= i < f@.len() && (#[trigger] f@[i]).0@ == key && f@[i].1 == value
}

proof fn lemma_fields_reach(kind: Kind, node: Json, fields: Seq<(String, Json)>, doc: Json, enclosing: Seq<Json>, d: nat, i: int)
    requires
        0 <= i < fields.len(),
        phantom_under(kind, node, fields[i].0@, fields[i].1, doc, enclosing, d),
    ensures
        phantom_fields(kind, node, fields, doc, enclosing, d),
    decreases fields.len(),
{
    if i < fields.len() - 1 {
        lemma_fields_reach(kind, node, fields.drop_last(), doc, enclosing, d, i);
    }
}

/// A node whose key leads to a phantom holds one, one level further out.
proof fn lemma_field_reach(kind: Kind, node: Json, key: Seq<char>, value: Json, doc: Json, enclosing: Seq<Json>, d: nat)
    requires
        holds(node, key, value),
        phantom_under(kind, node, key, value, doc, enclosing, d),
    ensures
        phantom_in(kind, node, doc, enclosing, d + 1),
{
    let f = node->Object_0;
    let i = choose|i: int| 0 <= i < f@.len() && (#[trigger] f@[i]).0@ == key && f@[i].1 == value;
    lemma_fields_reach(kind, node, f@, doc, enclosing, d, i);
}

proof fn lemma_entries_reach(kind: Kind, fields: Seq<(String, Json)>, doc: Json, enclosing: Seq<Json>, d: nat, i: int)
    requires
        0 <= i < fields.len(),
        kind == Kind::Schema || !extension(fields[i].0@),
        phantom_in(kind, fields[i].1, doc, enclosing, d),
    ensures
        phantom_entry_list(kind, fields, doc, enclosing, d),
    decreases fields.len(),
{
    if i < fields.len() - 1 {
        lemma_entries_reach(kind, fields.drop_last(), doc, enclosing, d, i);
    }
}

/// A map one of whose entries holds a phantom holds one, one level further
/// out.
proof fn lemma_entry_reach(kind: Kind, map: Json, key: Seq<char>, value: Json, doc: Json, enclosing: Seq<Json>, d: nat)
    requires
        holds(map, key, value),
        kind == Kind::Schema || !extension(key),
        phantom_in(kind, value, doc, enclosing, d),
    ensures
        phantom_entries(kind, map, doc, enclosing, d + 1),
{
    let f = map->Object_0;
    let i = choose|i: int| 0 <= i < f@.len() && (#[trigger] f@[i]).0@ == key && f@[i].1 == value;
    lemma_entries_reach(kind, f@, doc, enclosing, d, i);
}

/// A schema that lists a name nothing it is held to declares is found by the
/// walk, wherever it is reached from.
proof fn lemma_phantom_schema(doc: Json, schema: Json)
    requires
        phantom_at(doc, schema, Seq::<Json>::empty()),
    ensures
        phantom_in(Kind::Schema, schema, doc, Seq::<Json>::empty(), 1),
{
    assert(required_names_of(schema) is Some);
    assert(schema is Object);
}

/// The keys of the specification's structure that lead on to a different value
/// are not ones a schema composes with.
proof fn lemma_plain_keys()
    ensures
        !composed("paths"@) && !conditional("paths"@),
        !composed("requestBody"@) && !conditional("requestBody"@),
        !composed("content"@) && !conditional("content"@),
        !composed("schema"@) && !conditional("schema"@),
        !composed("responses"@) && !conditional("responses"@),
        !composed("components"@) && !conditional("components"@),
        !composed("schemas"@) && !conditional("schemas"@),
        forall|m: Seq<char>| method_key(m) ==> !composed(m) && !conditional(m),
{
    reveal_strlit("paths");
    reveal_strlit("requestBody");
    reveal_strlit("content");
    reveal_strlit("schema");
    reveal_strlit("responses");
    reveal_strlit("components");
    reveal_strlit("schemas");
    reveal_strlit("get");
    reveal_strlit("put");
    reveal_strlit("post");
    reveal_strlit("delete");
    reveal_strlit("options");
    reveal_strlit("head");
    reveal_strlit("patch");
    reveal_strlit("trace");
    reveal_strlit("allOf");
    reveal_strlit("anyOf");
    reveal_strlit("oneOf");
    reveal_strlit("not");
    reveal_strlit("if");
    reveal_strlit("then");
    reveal_strlit("else");
    lemma_ne("paths"@, "allOf"@);
    lemma_ne("paths"@, "anyOf"@);
    lemma_ne("paths"@, "oneOf"@);
    lemma_ne("paths"@, "not"@);
    lemma_ne("paths"@, "if"@);
    lemma_ne("paths"@, "then"@);
    lemma_ne("paths"@, "else"@);
    lemma_ne("requestBody"@, "allOf"@);
    lemma_ne("requestBody"@, "anyOf"@);
    lemma_ne("requestBody"@, "oneOf"@);
    lemma_ne("requestBody"@, "not"@);
    lemma_ne("requestBody"@, "if"@);
    lemma_ne("requestBody"@, "then"@);
    lemma_ne("requestBody"@, "else"@);
    lemma_ne("content"@, "allOf"@);
    lemma_ne("content"@, "anyOf"@);
    lemma_ne("content"@, "oneOf"@);
    lemma_ne("content"@, "not"@);
    lemma_ne("content"@, "if"@);
    lemma_ne("content"@, "then"@);
    lemma_ne("content"@, "else"@);
    lemma_ne("schema"@, "allOf"@);
    lemma_ne("schema"@, "anyOf"@);
    lemma_ne("schema"@, "oneOf"@);
    lemma_ne("schema"@, "not"@);
    lemma_ne("schema"@, "if"@);
    lemma_ne("schema"@, "then"@);
    lemma_ne("schema"@, "else"@);
    lemma_ne("responses"@, "allOf"@);
    lemma_ne("responses"@, "anyOf"@);
    lemma_ne("responses"@, "oneOf"@);
    lemma_ne("responses"@, "not"@);
    lemma_ne("responses"@, "if"@);
    lemma_ne("responses"@, "then"@);
    lemma_ne("responses"@, "else"@);
    lemma_ne("components"@, "allOf"@);
    lemma_ne("components"@, "anyOf"@);
    lemma_ne("components"@, "oneOf"@);
    lemma_ne("components"@, "not"@);
    lemma_ne("components"@, "if"@);
    lemma_ne("components"@, "then"@);
    lemma_ne("components"@, "else"@);
    lemma_ne("schemas"@, "allOf"@);
    lemma_ne("schemas"@, "anyOf"@);
    lemma_ne("schemas"@, "oneOf"@);
    lemma_ne("schemas"@, "not"@);
    lemma_ne("schemas"@, "if"@);
    lemma_ne("schemas"@, "then"@);
    lemma_ne("schemas"@, "else"@);
    lemma_ne("get"@, "allOf"@);
    lemma_ne("get"@, "anyOf"@);
    lemma_ne("get"@, "oneOf"@);
    lemma_ne("get"@, "not"@);
    lemma_ne("get"@, "if"@);
    lemma_ne("get"@, "then"@);
    lemma_ne("get"@, "else"@);
    lemma_ne("put"@, "allOf"@);
    lemma_ne("put"@, "anyOf"@);
    lemma_ne("put"@, "oneOf"@);
    lemma_ne("put"@, "not"@);
    lemma_ne("put"@, "if"@);
    lemma_ne("put"@, "then"@);
    lemma_ne("put"@, "else"@);
    lemma_ne("post"@, "allOf"@);
    lemma_ne("post"@, "anyOf"@);
    lemma_ne("post"@, "oneOf"@);
    lemma_ne("post"@, "not"@);
    lemma_ne("post"@, "if"@);
    lemma_ne("post"@, "then"@);
    lemma_ne("post"@, "else"@);
    lemma_ne("delete"@, "allOf"@);
    lemma_ne("delete"@, "anyOf"@);
    lemma_ne("delete"@, "oneOf"@);
    lemma_ne("delete"@, "not"@);
    lemma_ne("delete"@, "if"@);
    lemma_ne("delete"@, "then"@);
    lemma_ne("delete"@, "else"@);
    lemma_ne("options"@, "allOf"@);
    lemma_ne("options"@, "anyOf"@);
    lemma_ne("options"@, "oneOf"@);
    lemma_ne("options"@, "not"@);
    lemma_ne("options"@, "if"@);
    lemma_ne("options"@, "then"@);
    lemma_ne("options"@, "else"@);
    lemma_ne("head"@, "allOf"@);
    lemma_ne("head"@, "anyOf"@);
    lemma_ne("head"@, "oneOf"@);
    lemma_ne("head"@, "not"@);
    lemma_ne("head"@, "if"@);
    lemma_ne("head"@, "then"@);
    lemma_ne("head"@, "else"@);
    lemma_ne("patch"@, "allOf"@);
    lemma_ne("patch"@, "anyOf"@);
    lemma_ne("patch"@, "oneOf"@);
    lemma_ne("patch"@, "not"@);
    lemma_ne("patch"@, "if"@);
    lemma_ne("patch"@, "then"@);
    lemma_ne("patch"@, "else"@);
    lemma_ne("trace"@, "allOf"@);
    lemma_ne("trace"@, "anyOf"@);
    lemma_ne("trace"@, "oneOf"@);
    lemma_ne("trace"@, "not"@);
    lemma_ne("trace"@, "if"@);
    lemma_ne("trace"@, "then"@);
    lemma_ne("trace"@, "else"@);
}

/// The routes the specification's structure takes to a schema.
proof fn lemma_structure_routes()
    ensures
        route_for(Kind::Root, "paths"@) == Some(Route::Entries(Kind::PathItem)),
        route_for(Kind::Root, "components"@) == Some(Route::Node(Kind::Components)),
        route_for(Kind::Components, "schemas"@) == Some(Route::Entries(Kind::Schema)),
        forall|m: Seq<char>| method_key(m) ==> route_for(Kind::PathItem, m) == Some(Route::Node(Kind::Operation)),
        route_for(Kind::Operation, "requestBody"@) == Some(Route::Node(Kind::RequestBody)),
        route_for(Kind::Operation, "responses"@) == Some(Route::Entries(Kind::Response)),
        route_for(Kind::RequestBody, "content"@) == Some(Route::Entries(Kind::MediaType)),
        route_for(Kind::Response, "content"@) == Some(Route::Entries(Kind::MediaType)),
        route_for(Kind::MediaType, "schema"@) == Some(Route::Node(Kind::Schema)),
{
    reveal_strlit("callbacks");
    reveal_strlit("components");
    reveal_strlit("content");
    reveal_strlit("encoding");
    reveal_strlit("headers");
    reveal_strlit("parameters");
    reveal_strlit("pathItems");
    reveal_strlit("paths");
    reveal_strlit("requestBodies");
    reveal_strlit("requestBody");
    reveal_strlit("responses");
    reveal_strlit("schema");
    reveal_strlit("schemas");
    reveal_strlit("webhooks");
    lemma_ne("paths"@, "components"@);
    lemma_ne("schemas"@, "pathItems"@);
    lemma_ne("schemas"@, "callbacks"@);
    lemma_ne("schemas"@, "parameters"@);
    lemma_ne("schemas"@, "requestBodies"@);
    lemma_ne("schemas"@, "responses"@);
    lemma_ne("schemas"@, "headers"@);
    lemma_ne("requestBody"@, "callbacks"@);
    lemma_ne("requestBody"@, "parameters"@);
    lemma_ne("responses"@, "callbacks"@);
    lemma_ne("responses"@, "parameters"@);
    lemma_ne("responses"@, "requestBody"@);
    lemma_ne("content"@, "headers"@);
    lemma_ne("schema"@, "encoding"@);
    lemma_ne("paths"@, "webhooks"@);
}

/// The media types of a request body or a response lead to the schema one
/// of them states.
proof fn lemma_content_reach(kind: Kind, holder: Json, content: Json, t: Seq<char>, media: Json, doc: Json, schema: Json)
    requires
        kind == Kind::RequestBody || kind == Kind::Response,
        holds(holder, "content"@, content),
        holds(content, t, media),
        !extension(t),
        holds(media, "schema"@, schema),
        phantom_at(doc, schema, Seq::<Json>::empty()),
    ensures
        phantom_in(kind, holder, doc, Seq::<Json>::empty(), 6),
{
    let e = Seq::<Json>::empty();
    lemma_plain_keys();
    lemma_structure_routes();
    lemma_phantom_schema(doc, schema);
    assert(enclosing_for("schema"@, media, e) == e);
    assert(phantom_under(Kind::MediaType, media, "schema"@, schema, doc, e, 2));
    lemma_field_reach(Kind::MediaType, media, "schema"@, schema, doc, e, 2);
    lemma_entry_reach(Kind::MediaType, content, t, media, doc, e, 3);
    assert(enclosing_for("content"@, holder, e) == e);
    assert(phantom_under(kind, holder, "content"@, content, doc, e, 5));
    lemma_field_reach(kind, holder, "content"@, content, doc, e, 5);
}

/// An operation's request body is walked: a schema stated inline for one of
/// its media types — `$.paths['/orders'].post.requestBody.content['application/json'].schema`
/// — that lists a name nothing it is held to declares makes the document's
/// check fail.
pub proof fn lemma_request_body_schema_judged(
    doc: Json,
    paths: Json,
    p: Seq<char>,
    item: Json,
    m: Seq<char>,
    op: Json,
    body: Json,
    content: Json,
    t: Seq<char>,
    media: Json,
    schema: Json,
)
    requires
        holds(doc, "paths"@, paths),
        holds(paths, p, item),
        !extension(p),
        method_key(m),
        holds(item, m, op),
        holds(op, "requestBody"@, body),
        holds(body, "content"@, content),
        holds(content, t, media),
        !extension(t),
        holds(media, "schema"@, schema),
        phantom_at(doc, schema, Seq::<Json>::empty()),
    ensures
        exists|d: nat| #[trigger] phantom_in(Kind::Root, doc, doc, Seq::<Json>::empty(), d),
{
    let e = Seq::<Json>::empty();
    lemma_plain_keys();
    lemma_structure_routes();
    lemma_content_reach(Kind::RequestBody, body, content, t, media, doc, schema);
    assert(enclosing_for("requestBody"@, op, e) == e);
    assert(phantom_under(Kind::Operation, op, "requestBody"@, body, doc, e, 7));
    lemma_field_reach(Kind::Operation, op, "requestBody"@, body, doc, e, 7);
    assert(enclosing_for(m, item, e) == e);
    assert(phantom_under(Kind::PathItem, item, m, op, doc, e, 9));
    lemma_field_reach(Kind::PathItem, item, m, op, doc, e, 9);
    lemma_entry_reach(Kind::PathItem, paths, p, item, doc, e, 10);
    assert(enclosing_for("paths"@, doc, e) == e);
    assert(phantom_under(Kind::Root, doc, "paths"@, paths, doc, e, 12));
    lemma_field_reach(Kind::Root, doc, "paths"@, paths, doc, e, 12);
    assert(phantom_in(Kind::Root, doc, doc, e, 13));
}

/// An operation's responses are walked: a schema stated inline for a media
/// type of one of them that lists a name nothing it is held to declares
/// makes the document's check fail.
pub proof fn lemma_response_schema_judged(
    doc: Json,
    paths: Json,
    p: Seq<char>,
    item: Json,
    m: Seq<char>,
    op: Json,
    responses: Json,
    code: Seq<char>,
    response: Json,
    content: Json,
    t: Seq<char>,
    media: Json,
    schema: Json,
)
    requires
        holds(doc, "paths"@, paths),
        holds(paths, p, item),
        !extension(p),
        method_key(m),
        holds(item, m, op),
        holds(op, "responses"@, responses),
        holds(responses, code, response),
        !extension(code),
        holds(response, "content"@, content),
        holds(content, t, media),
        !extension(t),
        holds(media, "schema"@, schema),
        phantom_at(doc, schema, Seq::<Json>::empty()),
    ensures
        exists|d: nat| #[trigger] phantom_in(Kind::Root, doc, doc, Seq::<Json>::empty(), d),
{
    let e = Seq::<Json>::empty();
    lemma_plain_keys();
    lemma_structure_routes();
    lemma_content_reach(Kind::Response, response, content, t, media, doc, schema);
    lemma_entry_reach(Kind::Response, responses, code, response, doc, e, 6);
    assert(enclosing_for("responses"@, op, e) == e);
    assert(phantom_under(Kind::Operation, op, "responses"@, responses, doc, e, 8));
    lemma_field_reach(Kind::Operation, op, "responses"@, responses, doc, e, 8);
    assert(enclosing_for(m, item, e) == e);
    assert(phantom_under(Kind::PathItem, item, m, op, doc, e, 10));
    lemma_field_reach(Kind::PathItem, item, m, op, doc, e, 10);
    lemma_entry_reach(Kind::PathItem, paths, p, item, doc, e, 11);
    assert(enclosing_for("paths"@, doc, e) == e);
    assert(phantom_under(Kind::Root, doc, "paths"@, paths, doc, e, 13));
    lemma_field_reach(Kind::Root, doc, "paths"@, paths, doc, e, 13);
    assert(phantom_in(Kind::Root, doc, doc, e, 14));
}

/// The document's named schemas are walked: one under
/// `components.schemas` that lists a name nothing it is held to declares
/// makes the document's check fail.
pub proof fn lemma_component_schema_judged(doc: Json, components: Json, schemas: Json, name: Seq<char>, schema: Json)
    requires
        holds(doc, "components"@, components),
        holds(components, "schemas"@, schemas),
        holds(schemas, name, schema),
        phantom_at(doc, schema, Seq::<Json>::empty()),
    ensures
        exists|d: nat| #[trigger] phantom_in(Kind::Root, doc, doc, Seq::<Json>::empty(), d),
{
    let e = Seq::<Json>::empty();
    lemma_plain_keys();
    lemma_structure_routes();
    lemma_phantom_schema(doc, schema);
    lemma_entry_reach(Kind::Schema, schemas, name, schema, doc, e, 1);
    assert(enclosing_for("schemas"@, components, e) == e);
    assert(phantom_under(Kind::Components, components, "schemas"@, schemas, doc, e, 3));
    lemma_field_reach(Kind::Components, components, "schemas"@, schemas, doc, e, 3);
    assert(enclosing_for("components"@, doc, e) == e);
    assert(phantom_under(Kind::Root, doc, "components"@, components, doc, e, 5));
    lemma_field_reach(Kind::Root, doc, "components"@, components, doc, e, 5);
    assert(phantom_in(Kind::Root, doc, doc, e, 6));
}

/// The routes inside an operation and a schema that lead to a schema.
proof fn lemma_inner_routes()
    ensures
        route_for(Kind::Operation, "parameters"@) == Some(Route::Node(Kind::Parameter)),
        route_for(Kind::Parameter, "schema"@) == Some(Route::Node(Kind::Schema)),
        route_for(Kind::Schema, "properties"@) == Some(Route::Entries(Kind::Schema)),
        route_for(Kind::Schema, "items"@) == Some(Route::Node(Kind::Schema)),
        !composed("parameters"@) && !conditional("parameters"@),
        !composed("properties"@) && !conditional("properties"@),
        !composed("items"@) && !conditional("items"@),
{
    reveal_strlit("parameters");
    reveal_strlit("callbacks");
    reveal_strlit("schema");
    reveal_strlit("content");
    reveal_strlit("properties");
    reveal_strlit("patternProperties");
    reveal_strlit("$defs");
    reveal_strlit("definitions");
    reveal_strlit("dependentSchemas");
    reveal_strlit("items");
    reveal_strlit("allOf");
    reveal_strlit("anyOf");
    reveal_strlit("oneOf");
    reveal_strlit("not");
    reveal_strlit("if");
    reveal_strlit("then");
    reveal_strlit("else");
    lemma_ne("parameters"@, "callbacks"@);
    lemma_ne("schema"@, "content"@);
    lemma_ne("items"@, "properties"@);
    lemma_ne("items"@, "patternProperties"@);
    lemma_ne("items"@, "$defs"@);
    lemma_ne("items"@, "definitions"@);
    lemma_ne("items"@, "dependentSchemas"@);
    lemma_ne("parameters"@, "allOf"@);
    lemma_ne("parameters"@, "anyOf"@);
    lemma_ne("parameters"@, "oneOf"@);
    lemma_ne("parameters"@, "not"@);
    lemma_ne("parameters"@, "if"@);
    lemma_ne("parameters"@, "then"@);
    lemma_ne("parameters"@, "else"@);
    lemma_ne("properties"@, "allOf"@);
    lemma_ne("properties"@, "anyOf"@);
    lemma_ne("properties"@, "oneOf"@);
    lemma_ne("properties"@, "not"@);
    lemma_ne("properties"@, "if"@);
    lemma_ne("properties"@, "then"@);
    lemma_ne("properties"@, "else"@);
    lemma_ne("items"@, "allOf"@);
    lemma_ne("items"@, "anyOf"@);
    lemma_ne("items"@, "oneOf"@);
    lemma_ne("items"@, "not"@);
    lemma_ne("items"@, "if"@);
    lemma_ne("items"@, "then"@);
    lemma_ne("items"@, "else"@);
}

/// A schema under a schema's `properties` is walked wherever the schema
/// holding it is: a phantom in the property is a phantom in the holder.
pub proof fn lemma_property_reached(doc: Json, node: Json, props: Json, name: Seq<char>, sub: Json, d: nat)
    requires
        holds(node, "properties"@, props),
        holds(props, name, sub),
        phantom_in(Kind::Schema, sub, doc, Seq::<Json>::empty(), d),
    ensures
        phantom_in(Kind::Schema, node, doc, Seq::<Json>::empty(), d + 3),
{
    let e = Seq::<Json>::empty();
    lemma_inner_routes();
    lemma_entry_reach(Kind::Schema, props, name, sub, doc, e, d);
    assert(enclosing_for("properties"@, node, e) == e);
    assert(phantom_under(Kind::Schema, node, "properties"@, props, doc, e, d + 2));
    lemma_field_reach(Kind::Schema, node, "properties"@, props, doc, e, d + 2);
}

/// A schema under a schema's `items` is walked wherever the schema holding it
/// is.
pub proof fn lemma_items_reached(doc: Json, node: Json, sub: Json, d: nat)
    requires
        holds(node, "items"@, sub),
        phantom_in(Kind::Schema, sub, doc, Seq::<Json>::empty(), d),
    ensures
        phantom_in(Kind::Schema, node, doc, Seq::<Json>::empty(), d + 2),
{
    let e = Seq::<Json>::empty();
    lemma_inner_routes();
    assert(enclosing_for("items"@, node, e) == e);
    assert(phantom_under(Kind::Schema, node, "items"@, sub, doc, e, d + 1));
    lemma_field_reach(Kind::Schema, node, "items"@, sub, doc, e, d + 1);
}

/// An operation reached under the document's `paths` is walked.
proof fn lemma_operation_reached(doc: Json, paths: Json, p: Seq<char>, item: Json, m: Seq<char>, op: Json, d: nat)
    requires
        holds(doc, "paths"@, paths),
        holds(paths, p, item),
        !extension(p),
        method_key(m),
        holds(item, m, op),
        phantom_in(Kind::Operation, op, doc, Seq::<Json>::empty(), d),
    ensures
        phantom_in(Kind::Root, doc, doc, Seq::<Json>::empty(), d + 5),
{
    let e = Seq::<Json>::empty();
    lemma_plain_keys();
    lemma_structure_routes();
    assert(enclosing_for(m, item, e) == e);
    assert(phantom_under(Kind::PathItem, item, m, op, doc, e, d + 1));
    lemma_field_reach(Kind::PathItem, item, m, op, doc, e, d + 1);
    lemma_entry_reach(Kind::PathItem, paths, p, item, doc, e, d + 2);
    assert(enclosing_for("paths"@, doc, e) == e);
    assert(phantom_under(Kind::Root, doc, "paths"@, paths, doc, e, d + 4));
    lemma_field_reach(Kind::Root, doc, "paths"@, paths, doc, e, d + 4);
}

/// An operation's parameters are walked: the schema of one of them that lists
/// a name nothing it is held to declares makes the document's check fail.
pub proof fn lemma_parameter_schema_judged(
    doc: Json,
    paths: Json,
    p: Seq<char>,
    item: Json,
    m: Seq<char>,
    op: Json,
    list: Seq<Json>,
    k: int,
    schema: Json,
)
    requires
        holds(doc, "paths"@, paths),
        holds(paths, p, item),
        !extension(p),
        method_key(m),
        holds(item, m, op),
        exists|v: Vec<Json>| #[trigger] holds(op, "parameters"@, Json::Array(v)) && v@ == list,
        0 <= k < list.len(),
        holds(list[k], "schema"@, schema),
        phantom_at(doc, schema, Seq::<Json>::empty()),
    ensures
        exists|d: nat| #[trigger] phantom_in(Kind::Root, doc, doc, Seq::<Json>::empty(), d),
{
    let e = Seq::<Json>::empty();
    let v = choose|v: Vec<Json>| #[trigger] holds(op, "parameters"@, Json::Array(v)) && v@ == list;
    lemma_inner_routes();
    lemma_phantom_schema(doc, schema);
    assert(enclosing_for("schema"@, list[k], e) == e) by {
        lemma_plain_keys();
    }
    assert(phantom_under(Kind::Parameter, list[k], "schema"@, schema, doc, e, 2));
    lemma_field_reach(Kind::Parameter, list[k], "schema"@, schema, doc, e, 2);
    lemma_members_reach(Kind::Parameter, list, doc, e, 3, k);
    assert(phantom_in(Kind::Parameter, Json::Array(v), doc, e, 4));
    assert(phantom_under(Kind::Operation, op, "parameters"@, Json::Array(v), doc, e, 5));
    lemma_field_reach(Kind::Operation, op, "parameters"@, Json::Array(v), doc, e, 5);
    lemma_operation_reached(doc, paths, p, item, m, op, 6);
    assert(phantom_in(Kind::Root, doc, doc, e, 11));
}

proof fn lemma_members_reach(kind: Kind, members: Seq<Json>, doc: Json, enclosing: Seq<Json>, d: nat, k: int)
    requires
        0 <= k < members.len(),
        phantom_in(kind, members[k], doc, enclosing, d),
    ensures
        phantom_members(kind, members, doc, enclosing, d),
    decreases members.len(),
{
    if k < members.len() - 1 {
        lemma_members_reach(kind, members.drop_last(), doc, enclosing, d, k);
    }
}

/// The routes under `components` to request bodies and responses.
proof fn lemma_component_routes()
    ensures
        route_for(Kind::Components, "requestBodies"@) == Some(Route::Entries(Kind::RequestBody)),
        route_for(Kind::Components, "responses"@) == Some(Route::Entries(Kind::Response)),
        !composed("requestBodies"@) && !conditional("requestBodies"@),
{
    reveal_strlit("allOf");
    reveal_strlit("anyOf");
    reveal_strlit("callbacks");
    reveal_strlit("else");
    reveal_strlit("if");
    reveal_strlit("not");
    reveal_strlit("oneOf");
    reveal_strlit("parameters");
    reveal_strlit("pathItems");
    reveal_strlit("requestBodies");
    reveal_strlit("responses");
    reveal_strlit("then");
    lemma_ne("requestBodies"@, "pathItems"@);
    lemma_ne("requestBodies"@, "callbacks"@);
    lemma_ne("requestBodies"@, "parameters"@);
    lemma_ne("responses"@, "pathItems"@);
    lemma_ne("responses"@, "callbacks"@);
    lemma_ne("responses"@, "parameters"@);
    lemma_ne("responses"@, "requestBodies"@);
    lemma_ne("requestBodies"@, "allOf"@);
    lemma_ne("requestBodies"@, "anyOf"@);
    lemma_ne("requestBodies"@, "oneOf"@);
    lemma_ne("requestBodies"@, "not"@);
    lemma_ne("requestBodies"@, "if"@);
    lemma_ne("requestBodies"@, "then"@);
    lemma_ne("requestBodies"@, "else"@);
}

/// A request body or a response declared once under `components` is walked:
/// a schema stated inline for one of its media types that lists a name
/// nothing it is held to declares makes the document's check fail.
pub proof fn lemma_component_content_judged(
    doc: Json,
    components: Json,
    section: Seq<char>,
    map: Json,
    name: Seq<char>,
    holder: Json,
    content: Json,
    t: Seq<char>,
    media: Json,
    schema: Json,
)
    requires
        section == "requestBodies"@ || section == "responses"@,
        holds(doc, "components"@, components),
        holds(components, section, map),
        holds(map, name, holder),
        !extension(name),
        holds(holder, "content"@, content),
        holds(content, t, media),
        !extension(t),
        holds(media, "schema"@, schema),
        phantom_at(doc, schema, Seq::<Json>::empty()),
    ensures
        exists|d: nat| #[trigger] phantom_in(Kind::Root, doc, doc, Seq::<Json>::empty(), d),
{
    let e = Seq::<Json>::empty();
    lemma_plain_keys();
    lemma_structure_routes();
    lemma_component_routes();
    let kind = if section == "requestBodies"@ { Kind::RequestBody } else { Kind::Response };
    lemma_content_reach(kind, holder, content, t, media, doc, schema);
    lemma_entry_reach(kind, map, name, holder, doc, e, 6);
    assert(enclosing_for(section, components, e) == e);
    assert(phantom_under(Kind::Components, components, section, map, doc, e, 8));
    lemma_field_reach(Kind::Components, components, section, map, doc, e, 8);
    assert(enclosing_for("components"@, doc, e) == e);
    assert(phantom_under(Kind::Root, doc, "components"@, components, doc, e, 10));
    lemma_field_reach(Kind::Root, doc, "components"@, components, doc, e, 10);
    assert(phantom_in(Kind::Root, doc, doc, e, 11));
}

} // verus!
