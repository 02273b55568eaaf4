//! The parts of an OpenAPI 3 document a reduction reads, as plain values.
//!
//! `openapiv3` reads the document — every default, every untagged choice of
//! what a schema is — and the values here are what it read, moved field by
//! field into types the reduction's contracts can speak of. Nothing is
//! decided while moving: a reference stays a reference, an extension stays the
//! JSON it was, and the order of every map is the order it was written in.

use vstd::prelude::*;

use openapiv3::Operation as ApiOperation;
use openapiv3::PathStyle as ApiPathStyle;
use openapiv3::QueryStyle as ApiQueryStyle;

use crate::json::Json;

verus! {

/// A parameter's schema, or the name of the one it points at.
#[derive(Debug)]
pub enum SchemaRef {
    Ref(String),
    Item(Box<SchemaSpec>),
}

/// A parameter, or the name of the one it points at.
#[derive(Debug)]
pub enum ParamRef {
    Ref(String),
    Item(ParamSpec),
}

/// A request body, or the name of the one it points at.
#[derive(Debug)]
pub enum BodyRef {
    Ref(String),
    Item(BodySpec),
}

/// A path item, or the name of the one it points at.
#[derive(Debug)]
pub enum PathRef {
    Ref(String),
    Item(PathSpec),
}

/// What a schema says, as far as a command line cares.
#[derive(Debug)]
pub struct SchemaSpec {
    pub description: Option<String>,
    pub example: Option<Json>,
    pub kind: KindSpec,
}

/// Which kind of schema it is.
#[derive(Debug)]
pub enum KindSpec {
    /// `type: string`, with its `format` as the document spells it, its
    /// `pattern`, and its `enum` (a `null` member is `None`).
    Str { format: Option<String>, pattern: Option<String>, enumeration: Vec<Option<String>> },
    /// `type: number`.
    Number { format: Option<String> },
    /// `type: integer`.
    Integer { format: Option<String> },
    /// `type: boolean`.
    Boolean,
    /// `type: object`: its properties in document order, and the names it
    /// requires.
    Object { properties: Vec<(String, SchemaRef)>, required: Vec<String> },
    /// `type: array`: what its items are, where it says.
    Array { items: Option<SchemaRef> },
    /// `allOf`: the schemas composed.
    AllOf(Vec<SchemaRef>),
    /// `oneOf`, `anyOf`, `not`, or a schema with no `type` at all.
    Other,
}

/// Where a parameter is sent, and in which style.
#[derive(Debug, Clone, Copy, PartialEq, Eq, Structural)]
pub enum ParamIn {
    Query(QueryStyle),
    Path(PathStyle),
    Header,
    Cookie,
}

/// A query parameter's `style`.
#[derive(Debug, Clone, Copy, PartialEq, Eq, Structural)]
pub enum QueryStyle {
    Form,
    SpaceDelimited,
    PipeDelimited,
    DeepObject,
}

/// A path parameter's `style`.
#[derive(Debug, Clone, Copy, PartialEq, Eq, Structural)]
pub enum PathStyle {
    Simple,
    Matrix,
    Label,
}

/// One parameter object.
#[derive(Debug)]
pub struct ParamSpec {
    pub name: String,
    pub description: Option<String>,
    pub required: bool,
    pub explode: Option<bool>,
    pub sent_in: ParamIn,
    /// The schema, or `None` for a parameter described by `content`.
    pub schema: Option<SchemaRef>,
    pub extensions: Vec<(String, Json)>,
}

/// One entry of a `content` map.
#[derive(Debug)]
pub struct MediaSpec {
    pub schema: Option<SchemaRef>,
}

/// A request body.
#[derive(Debug)]
pub struct BodySpec {
    pub required: bool,
    pub content: Vec<(String, MediaSpec)>,
}

/// One operation.
#[derive(Debug)]
pub struct OperationSpec {
    pub operation_id: Option<String>,
    pub summary: Option<String>,
    pub description: Option<String>,
    pub parameters: Vec<ParamRef>,
    pub request_body: Option<BodyRef>,
    pub extensions: Vec<(String, Json)>,
}

/// One path item: its operations under their lowercase method names, in the
/// order OpenAPI lists the methods, and the parameters they share.
#[derive(Debug)]
pub struct PathSpec {
    pub operations: Vec<(String, OperationSpec)>,
    pub parameters: Vec<ParamRef>,
}

/// The named halves every `$ref` resolves against.
#[derive(Debug)]
pub struct ComponentsSpec {
    pub schemas: Vec<(String, SchemaRef)>,
    pub parameters: Vec<(String, ParamRef)>,
    pub request_bodies: Vec<(String, BodyRef)>,
}

/// A whole document.
#[derive(Debug)]
pub struct Spec {
    /// The `url` of each `servers` entry, in order.
    pub servers: Vec<String>,
    pub paths: Vec<(String, PathRef)>,
    pub components: ComponentsSpec,
}

/// An OpenAPI document as `openapiv3` reads it.
#[verifier::external_type_specification]
#[verifier::external_body]
pub struct ExOpenApi(openapiv3::OpenAPI);

/// Why `serde_json` refused to read a value as something.
#[verifier::external_type_specification]
#[verifier::external_body]
pub struct ExJsonError(serde_json::Error);

/// A `$ref`, or the thing itself, as `openapiv3` reads one.
#[verifier::external_type_specification]
#[verifier::external_body]
#[verifier::reject_recursive_types(T)]
pub struct ExReferenceOr<T>(openapiv3::ReferenceOr<T>);

/// A schema as `openapiv3` reads one.
#[verifier::external_type_specification]
#[verifier::external_body]
pub struct ExSchema(openapiv3::Schema);

/// Which kind a schema is, as `openapiv3` reads it.
#[verifier::external_type_specification]
#[verifier::external_body]
pub struct ExSchemaKind(openapiv3::SchemaKind);

/// A `type: string` schema's own keywords.
#[verifier::external_type_specification]
#[verifier::external_body]
pub struct ExStringType(openapiv3::StringType);

/// A `type: number` schema's own keywords.
#[verifier::external_type_specification]
#[verifier::external_body]
pub struct ExNumberType(openapiv3::NumberType);

/// A `type: integer` schema's own keywords.
#[verifier::external_type_specification]
#[verifier::external_body]
pub struct ExIntegerType(openapiv3::IntegerType);

/// A query parameter's `style`, as `openapiv3` reads it.
#[verifier::external_type_specification]
#[verifier::external_body]
pub struct ExQueryStyle(ApiQueryStyle);

/// A path parameter's `style`, as `openapiv3` reads it.
#[verifier::external_type_specification]
#[verifier::external_body]
pub struct ExPathStyle(ApiPathStyle);

/// A `type: object` schema's own keywords.
#[verifier::external_type_specification]
#[verifier::external_body]
pub struct ExObjectType(openapiv3::ObjectType);

/// A parameter object as `openapiv3` reads one.
#[verifier::external_type_specification]
#[verifier::external_body]
pub struct ExParameter(openapiv3::Parameter);

/// A request body as `openapiv3` reads one.
#[verifier::external_type_specification]
#[verifier::external_body]
pub struct ExRequestBody(openapiv3::RequestBody);

/// An operation as `openapiv3` reads one.
#[verifier::external_type_specification]
#[verifier::external_body]
pub struct ExOperation(ApiOperation);

/// A path item as `openapiv3` reads one.
#[verifier::external_type_specification]
#[verifier::external_body]
pub struct ExPathItem(openapiv3::PathItem);


/// What a `serde_json` value is as [`Json`], variant by variant.
pub uninterp spec fn json_value(value: serde_json::Value) -> Json;

/// A `serde_json` value moved into [`Json`], variant by variant: a number is
/// carried as `serde_json` holds it, and an object keeps its keys in the
/// map's order.
#[verifier::external_body]
pub(crate) fn json_of(value: &serde_json::Value) -> (r: Json)
    ensures
        r == json_value(*value),
{
    match value {
        serde_json::Value::Null => Json::Null,
        serde_json::Value::Bool(b) => Json::Bool(*b),
        serde_json::Value::Number(n) => Json::Number(n.clone()),
        serde_json::Value::String(s) => Json::String(s.clone()),
        serde_json::Value::Array(items) => Json::Array(items.iter().map(json_of).collect()),
        serde_json::Value::Object(fields) => Json::Object(fields.iter().map(|(k, v)| (k.clone(), json_of(v))).collect()),
    }
}

/// What a schema reference or schema of `openapiv3` reads as in this crate's
/// model, field by field.
pub uninterp spec fn schema_ref_read(schema: openapiv3::ReferenceOr<openapiv3::Schema>) -> SchemaRef;

/// One schema reference or schema, moved field by field out of `openapiv3`'s
/// `ReferenceOr<Schema>`; what it reads as is named.
#[verifier::external_body]
fn schema_ref_of(schema: &openapiv3::ReferenceOr<openapiv3::Schema>) -> (r: SchemaRef)
    ensures
        r == schema_ref_read(*schema),
{
    match schema {
        openapiv3::ReferenceOr::Reference { reference } => SchemaRef::Ref(reference.clone()),
        openapiv3::ReferenceOr::Item(item) => SchemaRef::Item(Box::new(schema_of(item))),
    }
}

/// A schema reference or schema as `openapiv3` holds it, in this crate's own
/// model, for what is decided about it apart from the document it sits in.
pub fn schema_ref(schema: &openapiv3::ReferenceOr<openapiv3::Schema>) -> (r: SchemaRef)
    ensures
        r == schema_ref_read(*schema),
{
    schema_ref_of(schema)
}

/// One boxed schema reference or schema, moved.
#[verifier::external_body]
fn boxed_ref_of(schema: &openapiv3::ReferenceOr<Box<openapiv3::Schema>>) -> SchemaRef {
    match schema {
        openapiv3::ReferenceOr::Reference { reference } => SchemaRef::Ref(reference.clone()),
        openapiv3::ReferenceOr::Item(item) => SchemaRef::Item(Box::new(schema_of(item))),
    }
}

/// One schema, moved.
#[verifier::external_body]
fn schema_of(schema: &openapiv3::Schema) -> SchemaSpec {
    SchemaSpec {
        description: schema.schema_data.description.clone(),
        example: schema.schema_data.example.as_ref().map(json_of),
        kind: kind_of(&schema.schema_kind),
    }
}

/// A `type: string` schema's keywords, moved; its `format` spelled back by
/// `serde_json::to_value` as the document wrote it.
#[verifier::external_body]
fn string_kind(s: &openapiv3::StringType) -> KindSpec {
    KindSpec::Str {
        format: serde_json::to_value(&s.format).ok().and_then(|v| v.as_str().map(str::to_owned)),
        pattern: s.pattern.clone(),
        enumeration: s.enumeration.clone(),
    }
}

/// A `type: object` schema's keywords, moved.
#[verifier::external_body]
fn object_kind(o: &openapiv3::ObjectType) -> KindSpec {
    KindSpec::Object {
        properties: o.properties.iter().map(|(k, v)| (k.clone(), boxed_ref_of(v))).collect(),
        required: o.required.clone(),
    }
}

/// A number's `format`, spelled back by `serde_json::to_value` as the
/// document wrote it.
#[verifier::external_body]
fn number_format(n: &openapiv3::NumberType) -> Option<String> {
    serde_json::to_value(&n.format).ok().and_then(|v| v.as_str().map(str::to_owned))
}

/// An integer's `format`, spelled back by `serde_json::to_value` as the
/// document wrote it.
#[verifier::external_body]
fn integer_format(i: &openapiv3::IntegerType) -> Option<String> {
    serde_json::to_value(&i.format).ok().and_then(|v| v.as_str().map(str::to_owned))
}

/// Which kind a schema is, moved.
#[verifier::external_body]
fn kind_of(kind: &openapiv3::SchemaKind) -> KindSpec {
    match kind {
        openapiv3::SchemaKind::Type(openapiv3::Type::String(s)) => string_kind(s),
        openapiv3::SchemaKind::Type(openapiv3::Type::Number(n)) => KindSpec::Number { format: number_format(n) },
        openapiv3::SchemaKind::Type(openapiv3::Type::Integer(i)) => KindSpec::Integer { format: integer_format(i) },
        openapiv3::SchemaKind::Type(openapiv3::Type::Boolean(_)) => KindSpec::Boolean,
        openapiv3::SchemaKind::Type(openapiv3::Type::Object(o)) => object_kind(o),
        openapiv3::SchemaKind::Type(openapiv3::Type::Array(a)) => KindSpec::Array { items: a.items.as_ref().map(boxed_ref_of) },
        openapiv3::SchemaKind::AllOf { all_of } => KindSpec::AllOf(all_of.iter().map(schema_ref_of).collect()),
        _ => KindSpec::Other,
    }
}

/// A query parameter's `style`, moved.
#[verifier::external_body]
fn query_style_of(style: &ApiQueryStyle) -> QueryStyle {
    match style {
        openapiv3::QueryStyle::Form => QueryStyle::Form,
        openapiv3::QueryStyle::SpaceDelimited => QueryStyle::SpaceDelimited,
        openapiv3::QueryStyle::PipeDelimited => QueryStyle::PipeDelimited,
        openapiv3::QueryStyle::DeepObject => QueryStyle::DeepObject,
    }
}

/// A path parameter's `style`, moved.
#[verifier::external_body]
fn path_style_of(style: &ApiPathStyle) -> PathStyle {
    match style {
        openapiv3::PathStyle::Simple => PathStyle::Simple,
        openapiv3::PathStyle::Matrix => PathStyle::Matrix,
        openapiv3::PathStyle::Label => PathStyle::Label,
    }
}

/// Where a parameter is sent and in which style, moved.
#[verifier::external_body]
fn sent_in_of(param: &openapiv3::Parameter) -> ParamIn {
    match param {
        openapiv3::Parameter::Query { style, .. } => ParamIn::Query(query_style_of(style)),
        openapiv3::Parameter::Path { style, .. } => ParamIn::Path(path_style_of(style)),
        openapiv3::Parameter::Header { .. } => ParamIn::Header,
        openapiv3::Parameter::Cookie { .. } => ParamIn::Cookie,
    }
}

/// One parameter, moved.
#[verifier::external_body]
fn param_of(param: &openapiv3::Parameter) -> ParamSpec {
    let data = param.parameter_data_ref();
    ParamSpec {
        name: data.name.clone(),
        description: data.description.clone(),
        required: data.required,
        explode: data.explode,
        sent_in: sent_in_of(param),
        schema: match &data.format { openapiv3::ParameterSchemaOrContent::Schema(s) => Some(schema_ref_of(s)), openapiv3::ParameterSchemaOrContent::Content(_) => None },
        extensions: data.extensions.iter().map(|(k, v)| (k.clone(), json_of(v))).collect(),
    }
}

/// One parameter reference or parameter, moved.
#[verifier::external_body]
fn param_ref_of(param: &openapiv3::ReferenceOr<openapiv3::Parameter>) -> ParamRef {
    match param {
        openapiv3::ReferenceOr::Reference { reference } => ParamRef::Ref(reference.clone()),
        openapiv3::ReferenceOr::Item(item) => ParamRef::Item(param_of(item)),
    }
}

/// One request body, moved: its `required`, and its `content` in order.
#[verifier::external_body]
fn body_of(body: &openapiv3::RequestBody) -> BodySpec {
    BodySpec {
        required: body.required,
        content: body.content.iter().map(|(k, m)| (k.clone(), MediaSpec { schema: m.schema.as_ref().map(schema_ref_of) })).collect(),
    }
}

/// One request body reference or body, moved.
#[verifier::external_body]
fn body_ref_of(body: &openapiv3::ReferenceOr<openapiv3::RequestBody>) -> BodyRef {
    match body {
        openapiv3::ReferenceOr::Reference { reference } => BodyRef::Ref(reference.clone()),
        openapiv3::ReferenceOr::Item(item) => BodyRef::Item(body_of(item)),
    }
}

/// One operation, moved.
#[verifier::external_body]
fn operation_of(op: &ApiOperation) -> OperationSpec {
    OperationSpec {
        operation_id: op.operation_id.clone(),
        summary: op.summary.clone(),
        description: op.description.clone(),
        parameters: op.parameters.iter().map(param_ref_of).collect(),
        request_body: op.request_body.as_ref().map(body_ref_of),
        extensions: op.extensions.iter().map(|(k, v)| (k.clone(), json_of(v))).collect(),
    }
}

/// One path item, moved: `PathItem::iter` gives the operations in OpenAPI's
/// order of methods, under their lowercase names.
#[verifier::external_body]
fn path_of(item: &openapiv3::ReferenceOr<openapiv3::PathItem>) -> PathRef {
    match item {
        openapiv3::ReferenceOr::Reference { reference } => PathRef::Ref(reference.clone()),
        openapiv3::ReferenceOr::Item(item) => PathRef::Item(PathSpec {
            operations: item.iter().map(|(method, op)| (method.to_owned(), operation_of(op))).collect(),
            parameters: item.parameters.iter().map(param_ref_of).collect(),
        }),
    }
}

/// What `serde_json::from_value` into `openapiv3::OpenAPI` reads a document
/// as, moved: the servers' URLs, every path in order, and the components
/// where the document has them.
#[derive(Debug)]
pub struct SpecParts {
    pub servers: Vec<String>,
    pub paths: Vec<(String, PathRef)>,
    pub components: Option<ComponentsSpec>,
}

/// What `serde_json::from_value` reads `doc` as OpenAPI 3, moved; `None`
/// where `doc` is not an OpenAPI 3 document.
pub uninterp spec fn openapi_parts(doc: Json) -> Option<SpecParts>;

/// The components, moved, where the document has them.
#[verifier::external_body]
fn components_of(api: &openapiv3::OpenAPI) -> Option<ComponentsSpec> {
    api.components.as_ref().map(|components| ComponentsSpec {
        schemas: components.schemas.iter().map(|(k, v)| (k.clone(), schema_ref_of(v))).collect(),
        parameters: components.parameters.iter().map(|(k, v)| (k.clone(), param_ref_of(v))).collect(),
        request_bodies: components.request_bodies.iter().map(|(k, v)| (k.clone(), body_ref_of(v))).collect(),
    })
}

/// `serde_json::from_value` of `doc` into `openapiv3::OpenAPI`: the document
/// as `openapiv3` holds it, beside its servers, paths and components moved
/// into this crate's model, or why it is not OpenAPI 3. What it reads is
/// named.
#[verifier::external_body]
pub(crate) fn read_openapi(doc: &Json) -> (r: Result<(openapiv3::OpenAPI, SpecParts), serde_json::Error>)
    ensures
        r is Ok <==> openapi_parts(*doc) is Some,
        r matches Ok((_, p)) ==> openapi_parts(*doc) == Some(p),
{
    serde_json::from_value::<openapiv3::OpenAPI>(crate::json::to_value(doc)).map(|api| {
        let servers = api.servers.iter().map(|s| s.url.clone()).collect();
        let paths = api.paths.paths.iter().map(|(k, v)| (k.clone(), path_of(v))).collect();
        let components = components_of(&api);
        (api, SpecParts { servers, paths, components })
    })
}

/// Whether `spec` is the whole document a reading holds: its servers and
/// paths, and its components, none of any kind where it has none.
pub open spec fn spec_holds(parts: SpecParts, spec: Spec) -> bool {
    &&& spec.servers@ == parts.servers@
    &&& spec.paths@ == parts.paths@
    &&& match parts.components {
        Some(c) => spec.components == c,
        None => spec.components.schemas@.len() == 0 && spec.components.parameters@.len() == 0
            && spec.components.request_bodies@.len() == 0,
    }
}

/// The whole document a reading holds.
pub(crate) fn spec_from(parts: SpecParts) -> (r: Spec)
    ensures
        spec_holds(parts, r),
{
    let components = match parts.components {
        Some(components) => components,
        None => ComponentsSpec { schemas: Vec::new(), parameters: Vec::new(), request_bodies: Vec::new() },
    };
    Spec { servers: parts.servers, paths: parts.paths, components }
}

} // verus!
