use typed_openapi::json::Json;
use typed_openapi::model::{
    Base, Body, Effect, Gate, Join, Location, Method, Operation, Param, Shape, Unsupported,
};
use typed_openapi::multipart::encode as encode_parts;
use typed_openapi::names::CommandName;
use typed_openapi::plan::{Plan, PlanError};
use typed_openapi::request::{encode, render, rendered, Invocation, ValueError};
use typed_openapi::scalar::{Scalar, ScalarError};
use typed_openapi::values::{Part, Payload, Values};

#[test]
fn encoding_leaves_the_unreserved_set_alone_and_escapes_the_rest() {
    assert_eq!(encode("abc-123_x.y~z"), "abc-123_x.y~z");
    assert_eq!(encode("a b/c?d&e=f"), "a%20b%2Fc%3Fd%26e%3Df");
    assert_eq!(encode("Grüß"), "Gr%C3%BC%C3%9F");
}

#[test]
fn a_multipart_body_renders_every_part_header_and_summarises_only_what_is_not_text() {
    let encoded = encode_parts(&[
        Part::text("kind", "invoice"),
        Part::file("file", "receipt.pdf", vec![0x25, 0x50, 0xFF, 0xFE]),
    ]);
    let request = http::Request::builder()
        .method("POST")
        .uri("http://x/upload")
        .header(http::header::CONTENT_TYPE, &encoded.content_type)
        .body(encoded.bytes)
        .expect("a multipart request");

    let rendered = render(&request);
    let boundary = encoded
        .content_type
        .rsplit_once("boundary=")
        .expect("the encoder names its boundary")
        .1;

    assert!(
        rendered.ends_with(&format!(
            "\n--{boundary}\r\n\
             Content-Disposition: form-data; name=\"kind\"\r\n\
             \r\n\
             invoice\r\n\
             --{boundary}\r\n\
             Content-Disposition: form-data; name=\"file\"; filename=\"receipt.pdf\"\r\n\
             Content-Type: application/pdf\r\n\
             \r\n\
             <4 bytes>\r\n\
             --{boundary}--\r\n"
        )),
        "{rendered}"
    );
}

#[test]
fn a_binary_body_is_summarised_rather_than_printed() {
    let request = http::Request::builder()
        .uri("http://x/y")
        .body(vec![0xFF, 0xFE])
        .expect("a request with a two-byte body");
    assert!(render(&request).ends_with("<2 bytes>\n"), "{}", render(&request));
}

#[test]
fn a_dry_run_shows_the_request_line_the_host_and_the_headers() {
    let request = http::Request::builder()
        .method("PUT")
        .uri("https://api.example.com/v1/vouchers/5?embed=a")
        .header("X-Trace", "t1")
        .body(b"{}".to_vec())
        .unwrap();
    assert_eq!(
        render(&request),
        "PUT /v1/vouchers/5?embed=a HTTP/1.1\nhost: api.example.com\nx-trace: t1\n\n{}\n"
    );
    assert_eq!(
        rendered("GET", "/", None, &[("a".to_owned(), None)], &[]),
        "GET / HTTP/1.1\na: <non-utf8>\n"
    );
}

fn name(raw: &str) -> CommandName {
    CommandName::new("test", raw).unwrap()
}

fn flag(name: &str, location: Location, scalar: Scalar, join: Option<Join>, required: bool) -> Param {
    Param {
        name: name.to_owned(),
        required,
        shape: Shape::Flag {
            flag: name.to_owned(),
            location,
            scalar,
            join,
            format: None,
        },
        description: None,
        needs: Vec::new(),
    }
}

fn voucher(body: Body, effect: Effect) -> Operation {
    Operation {
        id: "putVoucher".to_owned(),
        group: name("vouchers"),
        command: name("update"),
        commit: "commit".to_owned(),
        method: Method::Put,
        path: "/vouchers/{id}".to_owned(),
        summary: None,
        description: None,
        params: vec![
            flag("id", Location::Path, Scalar::Integer, None, true),
            flag("embed", Location::Query, Scalar::Text(None), Some(Join::Pairs), false),
            flag("tags", Location::Query, Scalar::Text(None), Some(Join::Commas), false),
            flag("X-Trace", Location::Header, Scalar::Text(None), Some(Join::Commas), false),
            Param {
                name: "session".to_owned(),
                required: false,
                shape: Shape::Unreachable(Unsupported::Cookie),
                description: None,
                needs: Vec::new(),
            },
        ],
        body,
        effect,
        gates: Vec::<Gate>::new(),
    }
}

fn base() -> Base {
    Base {
        scheme: Some("https".to_owned()),
        authority: Some("api.example.com".to_owned()),
        path: "/v1/".to_owned(),
    }
}

#[test]
fn a_request_places_every_value_where_the_document_says() {
    let op = voucher(Body::Absent, Effect::Write);
    let values = Values::new()
        .param("id", "5")
        .param("embed", "a b")
        .param("tags", "x,y")
        .param("embed", "c")
        .param("tags", "z")
        .param("X-Trace", "t1")
        .param("X-Trace", "t2");
    let invocation = Invocation::new(&op, values).unwrap();
    let wire = invocation.wire(&base());
    assert_eq!(wire.method, Method::Put);
    assert_eq!(
        wire.url,
        "https://api.example.com/v1/vouchers/5?embed=a%20b&embed=c&tags=x%2Cy,z"
    );
    assert_eq!(wire.headers, vec![("X-Trace".to_owned(), "t1,t2".to_owned())]);
    assert!(wire.body.is_empty());
    let request = invocation.request(&base()).unwrap();
    assert_eq!(request.uri().path(), "/v1/vouchers/5");
}

#[test]
fn values_the_document_does_not_describe_are_refused() {
    let op = voucher(Body::Absent, Effect::Read);
    let unknown = Invocation::new(&op, Values::new().param("id", "5").param("nope", "1"));
    assert!(matches!(unknown, Err(ValueError::UnknownParam { .. })));
    assert_eq!(
        unknown.unwrap_err().message(),
        "putVoucher: there is no `nope` parameter"
    );
    let missing = Invocation::new(&op, Values::new()).unwrap_err();
    assert_eq!(missing.message(), "putVoucher: `id` is required");
    let bad = Invocation::new(&op, Values::new().param("id", "five")).unwrap_err();
    assert!(matches!(
        bad,
        ValueError::BadValue { source: ScalarError::Integer { .. }, .. }
    ));
    assert_eq!(bad.message(), "putVoucher: `id`: `five` is not an integer");
    let repeated =
        Invocation::new(&op, Values::new().param("id", "5").param("id", "6")).unwrap_err();
    assert_eq!(repeated.message(), "putVoucher: `id` takes one value, and was given 2");
    let cookie =
        Invocation::new(&op, Values::new().param("id", "5").param("session", "s")).unwrap_err();
    assert_eq!(
        cookie.message(),
        "putVoucher: `session` is `in: cookie`, which this CLI does not send, so there is nowhere in the request to put a value for it"
    );
}

#[test]
fn a_body_must_be_of_the_kind_the_operation_asks_for() {
    let none = voucher(Body::Absent, Effect::Write);
    let extra = Invocation::new(&none, Values::new().param("id", "1").raw(vec![1])).unwrap_err();
    assert_eq!(extra.message(), "putVoucher: takes no request body");

    let whole = voucher(Body::JsonWhole { required: true, template: None }, Effect::Write);
    let absent = Invocation::new(&whole, Values::new().param("id", "1")).unwrap_err();
    assert_eq!(absent.message(), "putVoucher: a request body is required");
    let wrong = Invocation::new(&whole, Values::new().param("id", "1").raw(vec![1])).unwrap_err();
    assert_eq!(wrong.message(), "putVoucher: expects a JSON body");

    let pdf = voucher(
        Body::Opaque { media_type: "application/pdf".to_owned(), required: false },
        Effect::Write,
    );
    let raw = Invocation::new(&pdf, Values::new().param("id", "1").raw(vec![1, 2])).unwrap();
    let wire = raw.wire(&base());
    assert_eq!(wire.body, vec![1, 2]);
    assert_eq!(
        wire.headers,
        vec![("content-type".to_owned(), "application/pdf".to_owned())]
    );
    let json = Invocation::new(&pdf, Values::new().param("id", "1").json(Json::Null)).unwrap_err();
    assert_eq!(json.message(), "putVoucher: expects a application/pdf body");
}

#[test]
fn a_json_body_goes_out_as_compact_json() {
    let whole = voucher(Body::JsonWhole { required: true, template: None }, Effect::Write);
    let body = Json::Object(vec![("total".to_owned(), Json::String("12.50".to_owned()))]);
    let invocation = Invocation::new(&whole, Values::new().param("id", "1").json(body)).unwrap();
    let wire = invocation.wire(&base());
    assert_eq!(wire.body, br#"{"total":"12.50"}"#.to_vec());
    assert_eq!(
        wire.headers,
        vec![("content-type".to_owned(), "application/json".to_owned())]
    );
}

#[test]
fn a_write_without_confirmation_is_a_dry_run_of_the_same_request() {
    let op = voucher(Body::Absent, Effect::Write);
    let dry = Plan::build(&op, &base(), Values::new().param("id", "5"), false).unwrap();
    assert!(matches!(dry, Plan::DryRun(_)));
    let sent = Plan::build(&op, &base(), Values::new().param("id", "5"), true).unwrap();
    assert!(matches!(sent, Plan::Send(_)));
    assert_eq!(render(dry.request()), render(sent.request()));

    let read = voucher(Body::Absent, Effect::Read);
    let on_sight = Plan::build(&read, &base(), Values::new().param("id", "5"), false).unwrap();
    assert!(matches!(on_sight, Plan::Send(_)));

    let refused = Plan::build(&read, &base(), Values::new(), true).unwrap_err();
    assert!(matches!(refused, PlanError::Value(ValueError::MissingParam { .. })));
    assert_eq!(refused.message(), "putVoucher: `id` is required");
}

#[test]
fn a_multipart_payload_goes_out_under_its_boundary() {
    let upload = voucher(Body::Multipart { names: vec!["file".to_owned()], required: true }, Effect::Write);
    let parts = vec![Part::text("kind", "invoice")];
    let expected = encode_parts(&parts);
    let invocation =
        Invocation::new(&upload, Values::new().param("id", "1").multipart(parts)).unwrap();
    let wire = invocation.wire(&base());
    assert_eq!(wire.body, expected.bytes);
    assert_eq!(wire.headers, vec![("content-type".to_owned(), expected.content_type)]);
    let _ = Payload::Raw(vec![]);
}

#[test]
fn a_route_is_the_method_and_the_path_without_the_query() {
    let request = http::Request::builder()
        .method("PUT")
        .uri("https://api.example.com/vouchers/7?dry=1")
        .body(Vec::new())
        .unwrap();
    assert_eq!(
        typed_openapi::request::route_of(&request),
        ("PUT".to_owned(), "/vouchers/7".to_owned())
    );
}
