use typed_openapi::model::Method;
use typed_openapi::names::{kebab, spelled, Clash, CommandName, Grouping, Namespace, Protected};

#[test]
fn names_kebab_case_into_the_allowed_alphabet() {
    for (raw, want) in [
        ("createVoucher", "create-voucher"),
        ("uploadDocumentMultipart", "upload-document-multipart"),
        ("getHTTPStatus", "get-http-status"),
        ("internal_ref", "internal-ref"),
        ("VoucherLineItem", "voucher-line-item"),
        ("Already-Kebab", "already-kebab"),
    ] {
        let name = CommandName::new("path segment", raw);
        assert_eq!(name.map(|n| n.as_str().to_owned()), Ok(want.to_owned()));
    }
}

#[test]
fn a_name_with_nothing_to_kebab_is_rejected_and_says_where_it_came_from() {
    assert!(CommandName::new("path segment", "").is_err());
    let error = CommandName::new("x-cli-command", "___").expect_err("nothing to kebab");
    assert_eq!(
        error.message(),
        "the x-cli-command `___` does not kebab-case into [a-z0-9-]"
    );
}

#[test]
fn the_group_is_the_segment_that_first_tells_operations_apart() {
    let grouping = Grouping::of(&["/vouchers", "/vouchers/{id}", "/contacts"]);
    let group = |path| {
        grouping
            .group(path)
            .map(|name| name.as_str().to_owned())
            .expect("a spellable segment")
    };
    assert_eq!(group("/vouchers/{id}"), "vouchers");
    assert_eq!(group("/contacts"), "contacts");
}

#[test]
fn a_shared_prefix_is_descended_past() {
    let grouping = Grouping::of(&["/v1/vouchers", "/v1/vouchers/{id}", "/v1/contacts"]);
    let group = |path| {
        grouping
            .group(path)
            .map(|name| name.as_str().to_owned())
            .expect("a spellable segment")
    };
    assert_eq!(group("/v1/vouchers/{id}"), "vouchers");
    assert_eq!(group("/v1/contacts"), "contacts");
}

#[test]
fn descending_stops_before_a_path_parameter() {
    let grouping = Grouping::of(&["/v1/{tenant}/vouchers", "/v1/{tenant}/contacts"]);
    assert_eq!(
        grouping
            .group("/v1/{tenant}/vouchers")
            .map(|name| name.as_str().to_owned()),
        Ok("v1".to_owned())
    );
}

#[test]
fn a_leaf_is_the_last_literal_segment_below_the_group() {
    let grouping = Grouping::of(&["/vouchers/{id}/render", "/contacts"]);
    assert_eq!(
        grouping
            .leaf("/vouchers/{id}/render", Method::Get)
            .map(|name| name.as_str().to_owned()),
        Ok("render".to_owned())
    );
}

#[test]
fn a_path_with_nothing_left_to_say_is_named_by_its_method() {
    let grouping = Grouping::of(&["/vouchers", "/vouchers/{id}"]);
    let leaf = |path, method: Method| {
        grouping
            .leaf(path, method)
            .map(|name| name.as_str().to_owned())
            .expect("a method always spells one")
    };
    assert_eq!(leaf("/vouchers", Method::Get), "list");
    assert_eq!(leaf("/vouchers/{id}", Method::Get), "get");
    assert_eq!(leaf("/vouchers", Method::Post), "create");
    assert_eq!(leaf("/vouchers/{id}", Method::Put), "update");
    assert_eq!(leaf("/vouchers/{id}", Method::Patch), "patch");
    assert_eq!(leaf("/vouchers/{id}", Method::Delete), "delete");
}

#[test]
fn a_body_field_moves_aside_for_a_parameter_of_the_same_name() {
    let mut flags = Namespace::guarding(&[], &["json-body"]);
    assert_eq!(flags.claim("id", "param").as_deref(), Ok("id"));
    assert_eq!(flags.claim("id", "body").as_deref(), Ok("body-id"));
    assert_eq!(flags.claim("id", "body").as_deref(), Ok("body-id-3"));
    assert_eq!(
        flags.claim("json-body", "body").as_deref(),
        Ok("body-json-body")
    );
}

#[test]
fn a_word_that_carries_consent_refuses_rather_than_moving_aside() {
    let mut flags = Namespace::guarding(
        &[("commit", Protected::Commit), ("enshrine", Protected::Gate)],
        &["json-body"],
    );

    assert_eq!(
        flags.claim("commit", "body"),
        Err(Clash {
            word: "commit".to_owned(),
            kind: Protected::Commit,
        })
    );
    assert_eq!(
        flags.claim("enshrine", "param"),
        Err(Clash {
            word: "enshrine".to_owned(),
            kind: Protected::Gate,
        })
    );
    assert_eq!(
        flags.claim("json-body", "body").as_deref(),
        Ok("body-json-body")
    );
    assert_eq!(flags.claim("id", "param").as_deref(), Ok("id"));
    assert_eq!(flags.claim("id", "body").as_deref(), Ok("body-id"));
}

#[test]
fn kebab_case_is_idempotent_on_examples() {
    for raw in ["createVoucher", "getHTTPStatus", "a__b", "Already-Kebab"] {
        let once = kebab(raw);
        assert_eq!(kebab(&once), once);
    }
    assert_eq!(kebab("a__b"), "a-b");
    assert_eq!(kebab("--x--"), "x");
}

#[test]
fn a_spelling_that_leaves_nothing_names_its_origin() {
    let error = spelled("parameter", "%%").unwrap_err();
    assert_eq!(error.origin, "parameter");
    assert_eq!(error.raw, "%%");
    assert_eq!(spelled("parameter", "pageSize").unwrap(), "page-size");
}
