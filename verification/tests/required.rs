use typed_openapi::json::Json;
use typed_openapi::required::{
    is_bare, is_extension, pointed_at, spelled, Admits, Phantom, PhantomKeys, Step,
};

#[test]
fn a_location_is_spelled_the_way_an_overlay_names_a_target() {
    assert_eq!(
        spelled(&[
            Step::Key("paths"),
            Step::Key("/ledger/{period}"),
            Step::Key("post"),
            Step::Key("requestBody"),
            Step::Key("content"),
            Step::Key("application/json"),
            Step::Key("schema"),
        ]),
        "$.paths['/ledger/{period}'].post.requestBody.content['application/json'].schema"
    );
    assert_eq!(spelled(&[Step::Key("allOf"), Step::Index(2)]), "$.allOf[2]");
    assert_eq!(spelled(&[Step::Key("x-cli-writes")]), "$['x-cli-writes']");
    assert_eq!(spelled(&[]), "$");
}

fn object(fields: Vec<(&str, Json)>) -> Json {
    Json::Object(fields.into_iter().map(|(k, v)| (k.to_owned(), v)).collect())
}

#[test]
fn a_pointer_is_unescaped_in_the_order_the_escape_rule_states() {
    let doc = object(vec![(
        "components",
        object(vec![(
            "schemas",
            object(vec![("a/b", Json::Integer(1)), ("~1", Json::Integer(2))]),
        )]),
    )]);
    assert_eq!(
        pointed_at(&doc, "#/components/schemas/a~1b"),
        Some(&Json::Integer(1))
    );
    assert_eq!(
        pointed_at(&doc, "#/components/schemas/~01"),
        Some(&Json::Integer(2))
    );
    assert_eq!(pointed_at(&doc, "#/components/schemas/nope"), None);
    assert_eq!(pointed_at(&doc, "ledger.yaml#/components/schemas/a"), None);
}

#[test]
fn a_key_with_a_quote_or_a_backslash_is_escaped_inside_brackets() {
    assert_eq!(spelled(&[Step::Key("it's")]), "$['it\\'s']");
    assert_eq!(spelled(&[Step::Key("a\\b")]), "$['a\\\\b']");
    assert!(is_bare("_private9"));
    assert!(!is_bare("9lives"));
    assert!(!is_bare(""));
    assert!(is_extension("x-total"));
    assert!(!is_extension("total"));
}

#[test]
fn a_refusal_names_every_node_and_every_key() {
    let refused = PhantomKeys {
        nodes: vec![
            Phantom { at: "$.components.schemas.Entry".to_owned(), names: vec!["account".to_owned()] },
            Phantom { at: "$.a".to_owned(), names: vec!["x".to_owned(), "y".to_owned()] },
        ],
    };
    assert_eq!(
        refused.message(),
        "the document requires keys that nothing declares; declare each key in an Overlay, or drop its name from the `required` that asks for it:\n  $.components.schemas.Entry requires `account`\n  $.a requires `x`, `y`"
    );
}

#[test]
fn an_open_ended_set_admits_every_name() {
    let closed = Admits { named: vec!["amount".to_owned()], any: false };
    assert!(closed.covers("amount"));
    assert!(!closed.covers("account"));
    let open = Admits { named: vec![], any: true };
    assert!(open.covers("account"));
}

fn read(document: &str) -> Result<(), typed_openapi::required::PhantomKeys> {
    let value: serde_json::Value = serde_yaml_ng::from_str(document).expect("the fixture parses");
    typed_openapi::required::check(&value)
}

#[test]
fn a_name_is_missing_only_when_nothing_reachable_declares_it() {
    let refused = read(
        "components:\n  schemas:\n    Entry:\n      required: [amount, account]\n\
         \x20     properties:\n        amount: { type: string }\n",
    )
    .expect_err("`account` is declared nowhere");
    assert_eq!(
        refused.nodes,
        [typed_openapi::required::Phantom {
            at: "$.components.schemas.Entry".to_owned(),
            names: vec!["account".to_owned()],
        }]
    );

    read(
        "components:\n  schemas:\n    Entry:\n      required: [amount, account]\n\
         \x20     properties:\n        amount: { type: string }\n        account: { type: string }\n",
    )
    .expect("both are declared");
}

#[test]
fn a_required_inside_a_composition_is_held_to_the_whole_composition() {
    read(
        "components:\n  schemas:\n    Entry:\n\
         \x20     properties:\n        amount: { type: string }\n\
         \x20     allOf:\n        - required: [amount]\n",
    )
    .expect("the composition declares what its member requires");

    let refused = read(
        "components:\n  schemas:\n    Entry:\n\
         \x20     properties:\n        amount: { type: string }\n\
         \x20     allOf:\n        - required: [account]\n",
    )
    .expect_err("nothing in the composition declares `account`");
    assert_eq!(refused.nodes.len(), 1, "{}", refused.message());
    assert_eq!(refused.nodes[0].at, "$.components.schemas.Entry.allOf[0]");
}

#[test]
fn a_reference_carries_its_names_and_a_broken_one_opens_the_node() {
    read(
        "components:\n  schemas:\n    Base:\n      properties:\n        id: { type: string }\n\
         \x20   Entry:\n      $ref: '#/components/schemas/Base'\n      required: [id]\n",
    )
    .expect("the reference declares `id`");
    read(
        "components:\n  schemas:\n    Entry:\n      $ref: 'other.yaml#/Base'\n      required: [id]\n",
    )
    .expect("a reference this walk cannot follow is open-ended");
}

#[test]
fn a_boolean_required_and_an_extension_are_not_judged() {
    read(
        "paths:\n  /a/{id}:\n    get:\n      parameters:\n        - name: id\n          in: path\n          required: true\n\
         \x20         schema: { type: string }\n      x-form:\n        required: [name]\n",
    )
    .expect("neither is a schema's list of keys");
}

#[test]
fn several_phantoms_are_named_at_once_in_document_order() {
    let refused = read(
        "components:\n  schemas:\n    A:\n      required: [x]\n    B:\n      required: [y, z]\n\
         \x20     properties:\n        z: { type: string }\n",
    )
    .expect_err("two nodes require what they do not declare");
    assert_eq!(refused.nodes.len(), 2);
    assert_eq!(refused.nodes[0].at, "$.components.schemas.A");
    assert_eq!(refused.nodes[1].names, vec!["y".to_owned()]);
    assert_eq!(
        refused.message(),
        "the document requires keys that nothing declares; declare each key in an Overlay, or drop its name from the `required` that asks for it:\n  $.components.schemas.A requires `x`\n  $.components.schemas.B requires `y`"
    );
}

#[test]
fn a_document_is_refused_only_for_a_required_list_the_walk_reaches() {
    read(
        "info:\n  required: [title]\n\
         components:\n  schemas:\n    Entry:\n      properties:\n        amount: { type: string }\n\
         \x20     example:\n        required: [nowhere]\n",
    )
    .expect("neither list sits where a schema is read");
    read("components:\n  schemas: {}\n").expect("nothing requires anything");
}
