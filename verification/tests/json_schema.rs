use typed_openapi::json::Json;
use typed_openapi::json_schema::as_json_schema;

fn object(fields: Vec<(&str, Json)>) -> Json {
    Json::Object(fields.into_iter().map(|(k, v)| (k.to_owned(), v)).collect())
}

fn text(s: &str) -> Json {
    Json::String(s.to_owned())
}

#[test]
fn every_reference_into_the_schemas_points_into_the_definitions() {
    let schema = object(vec![
        ("type", text("object")),
        (
            "properties",
            object(vec![
                ("total", object(vec![("$ref", text("#/components/schemas/Money"))])),
                (
                    "lines",
                    object(vec![
                        ("type", text("array")),
                        ("items", object(vec![("$ref", text("#/components/schemas/Line"))])),
                    ]),
                ),
            ]),
        ),
        ("allOf", Json::Array(vec![object(vec![("$ref", text("#/components/schemas/Base"))])])),
    ]);
    let expected = object(vec![
        ("type", text("object")),
        (
            "properties",
            object(vec![
                ("total", object(vec![("$ref", text("#/definitions/Money"))])),
                (
                    "lines",
                    object(vec![
                        ("type", text("array")),
                        ("items", object(vec![("$ref", text("#/definitions/Line"))])),
                    ]),
                ),
            ]),
        ),
        ("allOf", Json::Array(vec![object(vec![("$ref", text("#/definitions/Base"))])])),
    ]);
    assert_eq!(as_json_schema(&schema), expected);
}

#[test]
fn only_a_reference_is_pointed_elsewhere() {
    let schema = object(vec![
        ("description", text("see #/components/schemas/Money")),
        ("$ref", text("other.yaml#/components/schemas/Money")),
        ("example", Json::Integer(7)),
        ("nullable", Json::Bool(true)),
        ("default", Json::Null),
    ]);
    let expected = object(vec![
        ("description", text("see #/components/schemas/Money")),
        ("$ref", text("other.yaml#/definitions/Money")),
        ("example", Json::Integer(7)),
        ("nullable", Json::Bool(true)),
        ("default", Json::Null),
    ]);
    assert_eq!(as_json_schema(&schema), expected);
}
