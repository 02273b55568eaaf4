use typed_openapi::generate::{corrected, CorrectError};
use typed_openapi::model::{Body, Document, Effect, Shape};
use typed_openapi::reduce::{LoadError, Loading};
use typed_openapi::request::Invocation;
use typed_openapi::values::Values;

const TOY: &str = r#"
openapi: 3.0.3
info: { title: toy, version: "1" }
servers:
  - url: https://api.example.com/v1
paths:
  /vouchers/{id}:
    parameters:
      - name: id
        in: path
        required: true
        schema: { type: integer }
    get:
      operationId: getVoucher
      summary: One voucher.
      responses: {}
    put:
      operationId: enshrineVoucher
      x-cli-gates: [enshrine]
      responses: {}
      requestBody:
        required: true
        content:
          application/json:
            schema: { $ref: '#/components/schemas/Voucher' }
  /vouchers:
    get:
      operationId: listVouchers
      responses: {}
      parameters:
        - name: tags
          in: query
          schema: { type: array, items: { type: string, enum: [a, b] } }
        - name: session
          in: cookie
          schema: { type: string }
    post:
      operationId: createVoucher
      responses: {}
      requestBody:
        content:
          multipart/form-data:
            schema:
              type: object
              properties:
                file: { type: string, format: binary }
                note: { type: string }
components:
  schemas:
    Voucher:
      type: object
      required: [amount]
      properties:
        amount: { type: string, format: money, description: The sum. }
        id: { type: string }
"#;

fn toy() -> Document {
    match Document::load(TOY, &[]) {
        Ok(doc) => doc,
        Err(e) => panic!("the toy document loads: {:?}", e),
    }
}

#[test]
fn a_document_loads_into_operations_in_document_order() {
    let doc = toy();
    let ids: Vec<&str> = doc.operations().iter().map(|op| op.id()).collect();
    assert_eq!(ids, ["getVoucher", "enshrineVoucher", "listVouchers", "createVoucher"]);
    let walked: Vec<&str> = doc.iter().map(|op| op.id()).collect();
    assert_eq!(walked, ids);
    assert_eq!(doc.commit(), "commit");
    assert_eq!(doc.base().scheme.as_deref(), Some("https"));
    assert_eq!(doc.base().authority.as_deref(), Some("api.example.com"));
    assert_eq!(doc.base().path, "/v1");
}

#[test]
fn each_operation_is_placed_and_judged() {
    let doc = toy();
    let get = doc.get("getVoucher").expect("described");
    assert_eq!(get.group().as_str(), "vouchers");
    assert_eq!(get.command().as_str(), "get");
    assert_eq!(get.effect(), Effect::Read);
    let put = doc.get("enshrineVoucher").expect("described");
    assert_eq!(put.effect(), Effect::Write);
    assert_eq!(put.gates().iter().map(|g| g.as_str()).collect::<Vec<_>>(), ["enshrine"]);
    let list = doc.get("listVouchers").expect("described");
    assert_eq!(list.command().as_str(), "list");
    assert!(list.params()[0].shape().repeatable());
    assert!(matches!(list.params()[1].shape(), Shape::Unreachable(_)));
}

#[test]
fn a_flat_body_grows_one_flag_per_property_and_the_id_moves_aside() {
    let doc = toy();
    let put = doc.get("enshrineVoucher").expect("described");
    let fields = put.body().fields();
    assert_eq!(fields.len(), 2);
    assert_eq!(fields[0].name(), "amount");
    assert_eq!(fields[0].flag(), "amount");
    assert!(fields[0].required());
    assert_eq!(fields[0].format(), Some("money"));
    assert_eq!(fields[0].description(), Some("The sum."));
    assert_eq!(fields[1].name(), "id");
    assert_eq!(fields[1].flag(), "body-id");
    assert!(fields[1].renamed());
    let post = doc.get("createVoucher").expect("described");
    match post.body() {
        Body::Multipart { names, .. } => assert_eq!(names, &["file".to_owned(), "note".to_owned()]),
        other => panic!("a multipart body, not {:?}", other),
    }
}

#[test]
fn a_loaded_operation_builds_its_request() {
    let doc = toy();
    let op = doc.get("getVoucher").expect("described");
    let invocation = Invocation::new(op, Values::new().param("id", "5")).expect("the values fit");
    let request = invocation.request(doc.base()).expect("a request");
    assert_eq!(request.uri().path(), "/v1/vouchers/5");
}

#[test]
fn the_confirmation_word_is_written_onto_every_operation() {
    let loading = Loading::new().commit("yes").expect("a word");
    let doc = Document::load_with(TOY, &[], &loading).expect("loads");
    assert_eq!(doc.commit(), "yes");
    assert_eq!(doc.get("enshrineVoucher").expect("described").commit(), "yes");
}

#[test]
fn an_overlay_is_applied_before_the_document_is_read() {
    let overlay = "overlay: 1.1.0\ninfo: { title: t, version: \"1\" }\nactions:\n  - target: $.paths['/vouchers'].get\n    update: { x-cli-command: browse }\n";
    let doc = Document::load(TOY, &[overlay]).expect("loads");
    assert_eq!(doc.get("listVouchers").expect("described").command().as_str(), "browse");
}

#[test]
fn a_document_without_a_server_is_refused() {
    let doc = "openapi: 3.0.3\ninfo: { title: t, version: \"1\" }\npaths: {}\n";
    assert!(matches!(Document::load(doc, &[]), Err(LoadError::NoServer)));
}

#[test]
fn two_operations_at_one_command_are_refused() {
    let doc = "openapi: 3.0.3\ninfo: { title: t, version: \"1\" }\nservers: [{ url: 'https://x' }]\npaths:\n  /a:\n    get: { operationId: one, x-cli-command: same, responses: {} }\n    post: { operationId: two, x-cli-command: same, responses: {} }\n";
    match Document::load(doc, &[]) {
        Err(LoadError::DuplicateCommand { first, second, .. }) => {
            assert_eq!(first, "one");
            assert_eq!(second, "two");
        },
        other => panic!("a duplicate command, not {:?}", other.map(|d| d.operations().len())),
    }
}

#[test]
fn a_gate_on_a_read_is_refused() {
    let doc = "openapi: 3.0.3\ninfo: { title: t, version: \"1\" }\nservers: [{ url: 'https://x' }]\npaths:\n  /a:\n    get: { operationId: one, x-cli-gates: [danger], responses: {} }\n";
    assert!(matches!(Document::load(doc, &[]), Err(LoadError::GatedRead { .. })));
}

#[test]
fn a_phantom_key_refuses_the_load() {
    let doc = "openapi: 3.0.3\ninfo: { title: t, version: \"1\" }\nservers: [{ url: 'https://x' }]\npaths: {}\ncomponents:\n  schemas:\n    A: { required: [x] }\n";
    assert!(matches!(Document::load(doc, &[]), Err(LoadError::Phantom(_))));
}

#[test]
fn a_document_that_is_not_yaml_is_refused_before_anything_else() {
    assert!(matches!(
        Document::load("{ [", &[]),
        Err(LoadError::Overlay(typed_openapi::overlay::OverlayError::Document(_)))
    ));
}

#[test]
fn a_correction_yields_yaml_a_model_and_the_document_it_was_read_from() {
    let retitle = "overlay: 1.1.0\ninfo: { title: t, version: \"1\" }\nactions:\n  - target: $.info\n    update: { title: corrected }\n".to_owned();
    let done = corrected(TOY, &[String::new(), retitle], &Loading::new()).expect("the correction applies");
    assert!(done.yaml.contains("title: corrected"), "{}", done.yaml);
    assert_eq!(done.api.info.title, "corrected");
    assert!(done.model.get("getVoucher").is_some());

    let nowhere = "overlay: 1.1.0\ninfo: { title: t, version: \"1\" }\nactions:\n  - target: $.nothing\n    remove: true\n".to_owned();
    match corrected(TOY, &[String::new(), nowhere], &Loading::new()) {
        Err(CorrectError::Layer(e)) => assert_eq!(e.at, 2),
        other => panic!("expected the second layer to refuse, got {other:?}"),
    }
}
