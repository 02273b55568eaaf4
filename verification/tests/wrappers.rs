use typed_openapi::model::Document;
use typed_openapi::openapi::{KindSpec, SchemaRef, SchemaSpec};
use typed_openapi::wrappers::{
    argument, bind, gate_note, ident, list_spelling, multipart_note, paragraphs, param_argument, scalar_spelling,
    ArgShape, Spelling,
};

#[test]
fn a_word_that_is_no_identifier_is_refused_by_the_parse() {
    for word in ["3RdFiring", "3rd_firing", ""] {
        assert!(typify::accept_as_ident(word), "{word:?} stands unquoted");
        assert_eq!(ident(word), None, "{word:?} is no identifier");
    }
    assert_eq!(ident("type"), Some("r#type".to_owned()));
    assert_eq!(ident("self"), Some("self_".to_owned()));
}

#[test]
fn a_wrapper_binds_each_of_its_arguments_to_a_name_of_its_own() {
    let mut names: Vec<String> = Vec::new();
    let mut bound = |word: &str| bind(&mut names, &ident(word).expect("a word that spells one"), word);
    assert_eq!(bound("ref"), "r#ref");
    assert_eq!(bound("ref"), "ref_2");
    assert_eq!(bound("ref"), "ref_3");
    assert_eq!(bound("self"), "self_");
    assert_eq!(bound("self"), "self_2");
    assert_eq!(bound("body"), "body");
    assert_eq!(bound("body"), "body_2");
}

#[test]
fn an_argument_that_moved_aside_is_accounted_for() {
    let mut names: Vec<String> = Vec::new();
    let mut notes: Vec<String> = Vec::new();
    assert_eq!(argument(&mut names, &mut notes, "id", "id", "sends the document's `id`"), "id");
    assert!(notes.is_empty());
    assert_eq!(argument(&mut names, &mut notes, "id", "id", "sends the document's `Id`"), "id_2");
    assert_eq!(
        notes,
        ["`id_2` sends the document's `Id`, under a name of its own: an argument declared before it had already spent the plain spelling."]
    );
}

#[test]
fn a_wrapper_says_what_a_command_line_demands_before_a_write() {
    let doc = Document::load(
        "openapi: 3.0.3\ninfo: { title: t, version: \"1\" }\nservers: [{ url: 'https://x' }]\npaths:\n  /a:\n    get: { operationId: look, responses: {} }\n    post: { operationId: make, responses: {} }\n    delete: { operationId: burn, x-cli-gates: [burn-it, really], responses: {} }\n",
        &[],
    )
    .expect("loads");
    assert_eq!(gate_note(doc.get("look").unwrap()), "A read.");
    assert_eq!(
        gate_note(doc.get("make").unwrap()),
        "This operation writes. A Rust caller is trusted; the CLI holds it behind `--commit`."
    );
    assert_eq!(
        gate_note(doc.get("burn").unwrap()),
        "This operation writes. A Rust caller is trusted; the CLI holds it behind `--commit` and `--burn-it` and `--really`."
    );
}

#[test]
fn paragraphs_are_trimmed_and_set_apart() {
    assert_eq!(
        paragraphs(&["  One. ".to_owned(), "\nTwo.\n".to_owned()]),
        "One.\n\nTwo."
    );
    assert_eq!(paragraphs(&[]), "");
}

#[test]
fn a_multipart_argument_names_the_parts_the_document_declares() {
    assert_eq!(
        multipart_note("parts", &[]),
        "`parts` are assembled into a `multipart/form-data` body."
    );
    assert_eq!(
        multipart_note("parts", &["file".to_owned(), "note".to_owned()]),
        "`parts` are assembled into a `multipart/form-data` body. The document declares: file, note."
    );
}

fn flag_param(name: &str, join: Option<typed_openapi::model::Join>, required: bool) -> typed_openapi::Param {
    typed_openapi::Param {
        name: name.to_owned(),
        required,
        shape: typed_openapi::model::Shape::Flag {
            flag: name.to_owned(),
            location: typed_openapi::Location::Query,
            scalar: typed_openapi::scalar::Scalar::Integer,
            join,
            format: None,
        },
        description: None,
        needs: Vec::new(),
    }
}

#[test]
fn a_parameter_becomes_an_argument_shaped_by_how_it_is_sent() {
    let mut names = Vec::new();
    let mut notes = Vec::new();
    let list = param_argument(&mut names, &mut notes, &flag_param("pageSize", Some(typed_openapi::model::Join::Pairs), false))
        .unwrap()
        .unwrap();
    assert_eq!((list.bound.as_str(), list.wire.as_str(), list.shape), ("page_size", "pageSize", ArgShape::List));
    let one = param_argument(&mut names, &mut notes, &flag_param("id", None, true)).unwrap().unwrap();
    assert_eq!(one.shape, ArgShape::Required);
    let maybe = param_argument(&mut names, &mut notes, &flag_param("type", None, false)).unwrap().unwrap();
    assert_eq!((maybe.bound.as_str(), maybe.shape), ("r#type", ArgShape::Optional));
    let again = param_argument(&mut names, &mut notes, &flag_param("page_size", None, false)).unwrap().unwrap();
    assert_eq!(again.bound, "page_size_2");
    assert_eq!(notes.len(), 1);
    assert!(notes[0].starts_with("`page_size_2` sends the document's `page_size`"));
}

#[test]
fn a_parameter_with_no_flag_is_no_argument_and_leaves_a_note() {
    let mut names = Vec::new();
    let mut notes = Vec::new();
    let session = typed_openapi::Param {
        name: "session".to_owned(),
        required: false,
        shape: typed_openapi::model::Shape::Unreachable(typed_openapi::model::Unsupported::Cookie),
        description: None,
        needs: Vec::new(),
    };
    assert!(param_argument(&mut names, &mut notes, &session).unwrap().is_none());
    assert!(names.is_empty());
    assert_eq!(
        notes,
        ["The document's `session` parameter is not an argument: it is `in: cookie`, which this CLI does not send. \
          A request built here does not carry it."]
    );
}

#[test]
fn a_schema_spells_the_scalar_an_argument_takes() {
    let item = |kind| SchemaRef::Item(Box::new(SchemaSpec { description: None, example: None, kind }));
    assert!(matches!(scalar_spelling(&item(KindSpec::Integer { format: None })), Ok(Spelling::Integer)));
    assert!(matches!(scalar_spelling(&item(KindSpec::Boolean)), Ok(Spelling::Boolean)));
    assert!(matches!(
        scalar_spelling(&SchemaRef::Ref("#/components/schemas/Period".to_owned())),
        Ok(Spelling::Named(n)) if n == "Period"
    ));
    assert_eq!(
        scalar_spelling(&SchemaRef::Ref("#/components/parameters/P".to_owned())).unwrap_err(),
        "only `#/components/schemas/` references are followed"
    );
    assert_eq!(scalar_spelling(&item(KindSpec::Other)).unwrap_err(), "only `type:` schemas have a scalar spelling");
    let list = item(KindSpec::Array { items: Some(item(KindSpec::Number { format: None })) });
    assert!(matches!(list_spelling("ids", &list), Ok(Spelling::Number)));
    assert_eq!(
        list_spelling("ids", &item(KindSpec::Boolean)).unwrap_err(),
        "`ids` is a list that is not an array"
    );
    assert_eq!(
        list_spelling("ids", &item(KindSpec::Array { items: None })).unwrap_err(),
        "`ids` is an array declaring no `items`"
    );
}
