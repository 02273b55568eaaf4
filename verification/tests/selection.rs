use typed_openapi::args::{body_args, command_args, gates, param_arg, Takes, COMMIT_HELP, FIELDS_BODY_HELP};
use typed_openapi::client::{answer, body_text};
use typed_openapi::json::Json;
use typed_openapi::model::{Document, Effect, FIELD_PART, FILE_PART, JSON_BODY};
use typed_openapi::overlay::{layered, OverlayError};
use typed_openapi::plan::{Answers, Plan};
use typed_openapi::scalar::Scalar;
use typed_openapi::tree::{
    answers, assembled, file_part, select, split_parts, text_parts, values, Asked, DispatchError, Selection,
};

const SHOP: &str = r#"
openapi: 3.0.3
info: { title: shop, version: "1" }
servers:
  - url: https://api.example.com/v1
paths:
  /vouchers/{id}:
    parameters:
      - name: id
        in: path
        required: true
        schema: { type: integer }
    get:
      operationId: getVoucher
      responses: {}
    put:
      operationId: enshrineVoucher
      x-cli-gates: [enshrine]
      responses: {}
      requestBody:
        required: true
        content:
          application/json:
            schema: { $ref: '#/components/schemas/Voucher' }
  /vouchers:
    get:
      operationId: listVouchers
      responses: {}
      parameters:
        - name: tags
          in: query
          description: Which tags.
          schema: { type: array, items: { type: string, enum: [a, b] } }
        - name: page_size
          in: query
          schema: { type: integer }
        - name: session
          in: cookie
          schema: { type: string }
    post:
      operationId: createVoucher
      responses: {}
      requestBody:
        content:
          multipart/form-data:
            schema:
              type: object
              properties:
                file: { type: string, format: binary }
                note: { type: string }
components:
  schemas:
    Voucher:
      type: object
      required: [amount]
      properties:
        amount: { type: string, format: money, description: The sum. }
        id: { type: string }
"#;

fn shop() -> Document {
    match Document::load(SHOP, &[]) {
        Ok(doc) => doc,
        Err(e) => panic!("the shop document loads: {:?}", e),
    }
}

#[test]
fn a_list_parameter_grows_a_repeatable_flag_with_its_join_in_the_help() {
    let doc = shop();
    let list = doc.get("listVouchers").expect("described");
    let tags = param_arg(&list.params()[0]).expect("a flag");
    assert_eq!(tags.long, "tags");
    assert!(tags.repeatable);
    assert!(!tags.required);
    assert!(matches!(tags.takes, Takes::Value(Scalar::Choice(_))));
    assert_eq!(
        tags.help.as_deref(),
        Some("Which tags. (repeatable; each value is sent as its own field)")
    );
    let size = param_arg(&list.params()[1]).expect("a flag");
    assert_eq!(size.long, "page-size");
    assert_eq!(
        size.help.as_deref(),
        Some("The `page_size` query parameter")
    );
    assert!(param_arg(&list.params()[2]).is_none());
}

#[test]
fn a_gated_write_grows_its_confirmation_and_a_required_gate_flag_last() {
    let doc = shop();
    let put = doc.get("enshrineVoucher").expect("described");
    let args = command_args(put);
    let longs: Vec<&str> = args.iter().map(|a| a.long).collect();
    assert_eq!(longs, ["id", "amount", "body-id", JSON_BODY, "commit", "enshrine"]);
    assert!(args[0].required);
    assert_eq!(args[1].unless, Some(JSON_BODY));
    assert!(!args[1].required);
    assert_eq!(args[1].help.as_deref(), Some("The sum. (e.g. 12.50)"));
    assert_eq!(args[2].help.as_deref(), Some("sends `id`"));
    assert_eq!(args[3].help.as_deref(), Some(FIELDS_BODY_HELP));
    assert!(matches!(args[3].takes, Takes::File));
    assert_eq!(args[4].help.as_deref(), Some(COMMIT_HELP));
    assert!(!args[4].required);
    assert!(args[5].required);
    assert_eq!(
        args[5].help.as_deref(),
        Some("Required, and demanded in addition to --commit: this operation stands behind the `enshrine` gate")
    );
    let gate_flags = gates(put);
    assert_eq!(gate_flags.len(), 1);
    assert_eq!(gate_flags[0].long, "enshrine");
}

#[test]
fn a_read_grows_no_confirmation_and_a_multipart_body_grows_two_part_flags() {
    let doc = shop();
    let get = doc.get("getVoucher").expect("described");
    let longs: Vec<&str> = command_args(get).iter().map(|a| a.long).collect();
    assert_eq!(longs, ["id"]);
    assert!(gates(get).is_empty());
    let post = doc.get("createVoucher").expect("described");
    let parts = body_args(post.body());
    assert_eq!(parts.len(), 2);
    assert_eq!(parts[0].long, FILE_PART);
    assert!(parts[0].repeatable);
    assert_eq!(
        parts[0].help.as_deref(),
        Some("One file part of the multipart body, repeatable. The document declares: file, note.")
    );
    assert!(matches!(parts[0].takes, Takes::Part("NAME=PATH")));
    assert_eq!(parts[1].long, FIELD_PART);
    assert!(matches!(parts[1].takes, Takes::Part("NAME=VALUE")));
}

#[test]
fn a_write_is_sent_only_with_its_confirmation_and_every_gate_typed() {
    let doc = shop();
    let put = doc.get("enshrineVoucher").expect("described");
    let typed = |words: &[&str]| -> Vec<String> { words.iter().map(|w| (*w).to_owned()).collect() };
    let all = answers(put, &typed(&["commit", "enshrine"]));
    assert!(all.confirmed());
    assert!(all.confirms(put));
    let no_gate = answers(put, &typed(&["commit"]));
    assert!(no_gate.confirmed());
    assert!(!no_gate.confirms(put));
    let no_commit = answers(put, &typed(&["enshrine"]));
    assert!(!no_commit.confirms(put));
    let get = doc.get("getVoucher").expect("described");
    let read = answers(get, &typed(&["commit"]));
    assert!(!read.confirmed());
}

#[test]
fn a_selection_plans_a_dry_run_until_the_gate_is_answered() {
    let doc = shop();
    let put = doc.get("enshrineVoucher").expect("described");
    let body = Json::Object(vec![("amount".to_owned(), Json::String("12.50".to_owned()))]);
    let held = Selection::new(
        put,
        values(put, &[("id".to_owned(), "7".to_owned())], None).json(body),
        Answers::new().commit(),
    );
    let plan = held.plan(doc.base()).expect("a request");
    assert!(matches!(plan, Plan::DryRun(_)));
    assert_eq!(plan.request().uri().path(), "/v1/vouchers/7");
    let body = Json::Object(vec![("amount".to_owned(), Json::String("12.50".to_owned()))]);
    let sent = Selection::new(
        put,
        values(put, &[("id".to_owned(), "7".to_owned())], None).json(body),
        Answers::new().commit().gate("enshrine"),
    );
    assert!(matches!(sent.plan(doc.base()).expect("a request"), Plan::Send(_)));
}

#[test]
fn a_selection_without_its_required_values_is_refused() {
    let doc = shop();
    let get = doc.get("getVoucher").expect("described");
    let selection = Selection::new(get, values(get, &[], None), Answers::new());
    assert!(matches!(selection.plan(doc.base()), Err(DispatchError::Plan(_))));
}

#[test]
fn flags_are_read_back_under_the_document_names_in_the_order_typed() {
    let doc = shop();
    let list = doc.get("listVouchers").expect("described");
    let given = [
        ("tags".to_owned(), "b".to_owned()),
        ("page-size".to_owned(), "20".to_owned()),
        ("tags".to_owned(), "a".to_owned()),
        ("elsewhere".to_owned(), "x".to_owned()),
    ];
    let read = values(list, &given, None);
    let pairs: Vec<(&str, &str)> = read.params().iter().map(|(k, v)| (k.as_str(), v.as_str())).collect();
    assert_eq!(pairs, [("tags", "b"), ("tags", "a"), ("page_size", "20")]);
    assert!(read.payload().is_none());
}

#[test]
fn the_two_names_select_an_operation_or_its_template() {
    let doc = shop();
    assert!(matches!(select(&doc, None, Some("get"), false), Err(DispatchError::NoCommand)));
    match select(&doc, Some("vouchers"), Some("nothing"), false) {
        Err(DispatchError::Unknown { group, command }) => {
            assert_eq!(group, "vouchers");
            assert_eq!(command, "nothing");
        },
        _ => panic!("an unknown operation"),
    }
    match select(&doc, Some("vouchers"), Some("get"), true) {
        Ok(Asked::Run(op)) => assert_eq!(op.id(), "getVoucher"),
        _ => panic!("the read runs: it keeps no template"),
    }
    let refused = DispatchError::Unknown { group: "a".to_owned(), command: "b".to_owned() };
    assert_eq!(refused.message(), "no operation named `a b` in the document");
}

#[test]
fn flags_beside_a_file_edit_the_file_rather_than_replace_it() {
    let doc = shop();
    let put = doc.get("enshrineVoucher").expect("described");
    let fields = put.body().fields();
    let base = Json::Object(vec![
        ("id".to_owned(), Json::String("old".to_owned())),
        ("amount".to_owned(), Json::String("1.00".to_owned())),
    ]);
    let given = [
        ("body-id".to_owned(), "new".to_owned()),
        ("amount".to_owned(), "not money".to_owned()),
    ];
    let merged = assembled(fields, Some(base), &given);
    assert_eq!(
        merged,
        Json::Object(vec![
            ("id".to_owned(), Json::String("new".to_owned())),
            ("amount".to_owned(), Json::String("1.00".to_owned())),
        ])
    );
    let fresh = assembled(fields, None, &[("amount".to_owned(), "2.50".to_owned())]);
    assert_eq!(fresh, Json::Object(vec![("amount".to_owned(), Json::String("2.50".to_owned()))]));
    let list = Json::Array(vec![]);
    assert_eq!(assembled(fields, Some(list), &given), Json::Array(vec![]));
}

#[test]
fn parts_split_in_order_and_the_first_bad_one_is_named() {
    let raws = vec!["a=1".to_owned(), "b=x=y".to_owned()];
    let split = split_parts(FILE_PART, &raws).expect("both split");
    assert_eq!(split, vec![("a".to_owned(), "1".to_owned()), ("b".to_owned(), "x=y".to_owned())]);
    let bad = vec!["a=1".to_owned(), "=x".to_owned(), "nope".to_owned()];
    let refused = split_parts(FILE_PART, &bad).unwrap_err();
    assert_eq!(refused.raw, "=x");
    let texts = text_parts(&raws).expect("both split");
    assert_eq!(texts[1].name(), "b");
    assert_eq!(texts[1].bytes(), b"x=y");
    assert_eq!(texts[1].filename(), None);
    assert!(text_parts(&bad).is_err());
}

#[test]
fn a_file_part_is_named_after_the_file_and_after_the_part_where_the_path_names_none() {
    let named = file_part("receipt", "scans/march.PDF", vec![1, 2]);
    assert_eq!(named.filename(), Some("march.PDF"));
    assert_eq!(named.content_type(), Some("application/pdf"));
    let bare = file_part("receipt", "..", vec![]);
    assert_eq!(bare.filename(), Some("receipt"));
}

#[test]
fn a_response_is_judged_by_its_status_before_its_body_is_read() {
    assert_eq!(answer(200, b"{\"a\":1}").expect("a success"), b"{\"a\":1}".to_vec());
    assert_eq!(answer(204, b"").expect("a success"), b"null".to_vec());
    let refused = answer(404, b"not here").unwrap_err();
    assert_eq!(refused.status, 404);
    assert_eq!(refused.body, "not here");
    assert_eq!(refused.message(), "404: not here");
    assert!(answer(300, b"").is_err());
    assert!(answer(199, b"").is_err());
    assert_eq!(body_text(&[0x66, 0xff, 0x6f]), "f\u{fffd}o");
}

#[test]
fn the_first_input_that_refuses_is_the_one_named() {
    let doc = "openapi: 3.0.3\ninfo: { title: t, version: \"1\" }\npaths: {}\n";
    assert!(layered(doc, &["".to_owned(), "  \n".to_owned()]).is_ok());
    let refused = layered("{ [", &[]).unwrap_err();
    assert_eq!(refused.at, 0);
    assert!(matches!(refused.source, OverlayError::Document(_)));
    let bad = layered(doc, &["".to_owned(), "{ [".to_owned()]).unwrap_err();
    assert_eq!(bad.at, 2);
    assert!(matches!(bad.source, OverlayError::Syntax(_)));
}

#[test]
fn a_read_answers_nothing_whatever_was_typed() {
    let doc = shop();
    let get = doc.get("getVoucher").expect("described");
    let none = answers(get, &["commit".to_owned(), "enshrine".to_owned()]);
    assert!(!none.confirmed());
    assert!(!none.answered("enshrine"));
    assert_eq!(get.effect(), Effect::Read);
}

const NESTED: &str = r#"
openapi: 3.0.3
info: { title: nested, version: "1" }
servers:
  - url: https://api.example.com
paths:
  /orders:
    post:
      operationId: placeOrder
      responses: {}
      requestBody:
        required: true
        content:
          application/json:
            schema:
              type: object
              required: [customer, lines]
              properties:
                customer: { type: string }
                note: { type: string }
                lines:
                  type: array
                  items:
                    type: object
                    required: [sku, count, gift]
                    properties:
                      sku: { type: string, enum: [tea, cake] }
                      count: { type: integer }
                      gift: { type: boolean }
"#;

#[test]
fn a_nested_body_asks_for_its_template_instead_of_running() {
    let doc = match Document::load(NESTED, &[]) {
        Ok(doc) => doc,
        Err(e) => panic!("the nested document loads: {:?}", e),
    };
    let longs: Vec<&str> = command_args(doc.get("placeOrder").expect("described"))
        .iter()
        .map(|a| a.long)
        .collect();
    assert_eq!(longs, [JSON_BODY, "json-body-template", "commit"]);
    match select(&doc, Some("orders"), Some("create"), true) {
        Ok(Asked::Template(text)) => assert_eq!(
            text,
            "{\n  \"customer\": \"\",\n  \"lines\": [\n    {\n      \"sku\": \"tea\",\n      \"count\": 0,\n      \"gift\": false\n    }\n  ]\n}"
        ),
        Ok(Asked::Run(op)) => panic!("asked for a template, and {} would run", op.id()),
        Err(e) => panic!("the operation is there: {}", e.message()),
    }
    match select(&doc, Some("orders"), Some("create"), false) {
        Ok(Asked::Run(op)) => assert_eq!(op.id(), "placeOrder"),
        _ => panic!("not asked for a template, the operation runs"),
    }
}
