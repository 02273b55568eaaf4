use typed_openapi::schema::{is_json, is_media_type, is_multipart, RefError};

#[test]
fn a_media_type_is_a_type_and_a_subtype_and_a_bare_word_is_neither() {
    assert!(is_media_type("application/pdf"));
    assert!(is_media_type("text/csv; charset=utf-8"));
    assert!(is_media_type("application/vnd.api+json"));
    assert!(is_media_type("multipart/form-data; boundary=x"));
    assert!(is_media_type("application/x-www-form-urlencoded"));
    assert!(is_media_type(r#"multipart/form-data; boundary="a/b;c""#));

    assert!(!is_media_type("form-data"));
    assert!(!is_media_type(""));
    assert!(!is_media_type("application/"));
    assert!(!is_media_type("/json"));
    assert!(!is_media_type("application/ld/json"));
    assert!(!is_media_type("application/json charset=utf-8"));
}

#[test]
fn json_is_recognised_through_suffixes_and_parameters() {
    assert!(is_json("application/json"));
    assert!(is_json("application/json; charset=utf-8"));
    assert!(is_json("application/merge-patch+json"));
    assert!(!is_json("form-data"));
    assert!(!is_json("multipart/form-data"));
}

#[test]
fn only_the_correctly_spelled_multipart_type_is_assembled() {
    assert!(is_multipart("multipart/form-data"));
    assert!(is_multipart("Multipart/Form-Data; boundary=x"));
    assert!(!is_multipart("form-data"));
}

#[test]
fn a_reference_that_cannot_be_followed_says_which() {
    let missing = RefError::Missing { reference: "#/components/schemas/X".to_owned() };
    assert_eq!(missing.message(), "`#/components/schemas/X` does not resolve");
    let cycle = RefError::Cycle { reference: "#/components/schemas/Y".to_owned() };
    assert_eq!(cycle.message(), "`#/components/schemas/Y` is a reference cycle");
}

#[test]
fn the_essence_is_trimmed_and_lowercased() {
    assert!(is_json("  APPLICATION/JSON  ; q=1"));
    assert!(!is_json("application/jsonx"));
    assert!(is_multipart(" multipart/form-data"));
}
