use typed_openapi::json::Json;
use typed_openapi::overlay::{apply, parse, OverlayError};

const DOC: &str = r#"{"openapi":"3.0.3","info":{"title":"t","version":"1"},"paths":{}}"#;

/// The document as it stands, before any layer.
fn document() -> Json {
    parse(DOC).expect("the document parses")
}

/// The text under a path of keys, where there is text there.
fn text_at<'a>(doc: &'a Json, path: &[&str]) -> Option<&'a str> {
    let mut here = doc;
    for key in path {
        let Json::Object(fields) = here else { return None };
        here = &fields.iter().find(|(k, _)| k == key)?.1;
    }
    match here {
        Json::String(s) => Some(s.as_str()),
        _ => None,
    }
}

#[test]
fn an_empty_overlay_leaves_the_document_alone() {
    let out = apply(document(), "   \n").expect("an empty layer is no layer");
    assert_eq!(text_at(&out, &["openapi"]), Some("3.0.3"));
}

#[test]
fn an_action_that_matches_nothing_is_an_error_not_a_no_op() {
    let overlay = r#"
overlay: 1.1.0
info: { title: t, version: "1" }
actions:
  - target: $.components.schemas.Nothing
    remove: true
"#;
    let error = apply(document(), overlay).expect_err("zero matches must fail");
    assert!(matches!(error, OverlayError::Apply(_)), "{}", error.message());
}

#[test]
fn an_action_that_matches_is_applied() {
    let overlay = r#"
overlay: 1.1.0
info: { title: t, version: "1" }
actions:
  - target: $.info
    update: { title: patched }
"#;
    let out = apply(document(), overlay).expect("the action matches");
    assert_eq!(text_at(&out, &["info", "title"]), Some("patched"));
}

#[test]
fn layers_apply_in_the_order_they_are_given() {
    let layer = |title: &str| {
        format!(
            "overlay: 1.1.0\n\
             info: {{ title: t, version: \"1\" }}\n\
             actions:\n\
             \x20 - target: $.info\n\
             \x20   update: {{ title: {title} }}\n"
        )
    };
    let layered = |first: &str, second: &str| {
        let doc = apply(document(), &layer(first)).expect("the first layer applies");
        let out = apply(doc, &layer(second)).expect("the second layer applies");
        text_at(&out, &["info", "title"]).expect("a title").to_owned()
    };
    assert_eq!(layered("first", "second"), "second");
    assert_eq!(layered("second", "first"), "first");
}

#[test]
fn a_document_that_is_not_yaml_is_refused_as_the_document() {
    let error = parse("{ unclosed: [").expect_err("not YAML");
    assert!(matches!(error, OverlayError::Document(_)));
    assert!(error.message().starts_with("the OpenAPI document is not valid YAML or JSON: "));
}

#[test]
fn an_overlay_that_is_not_yaml_is_a_syntax_error() {
    let error = apply(document(), "overlay: [").expect_err("not YAML");
    assert!(matches!(error, OverlayError::Syntax(_)));
    assert!(error.message().starts_with("the Overlay document is not valid YAML or JSON: "));
}

#[test]
fn an_overlay_with_no_actions_is_invalid() {
    let overlay = "overlay: 1.1.0\ninfo: { title: t, version: \"1\" }\nactions: []\n";
    let error = apply(document(), overlay).expect_err("an Overlay must act");
    assert!(matches!(error, OverlayError::Invalid(_)));
    assert!(error.message().starts_with("the Overlay is not a valid Overlay 1.1 document: "));
}
