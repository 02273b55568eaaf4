use typed_openapi::model::{
    Base, Body, Document, Effect, Gate, Location, Method, Operation, Param, Shape, Unsupported,
};
use typed_openapi::names::CommandName;
use typed_openapi::scalar::Scalar;

fn name(raw: &str) -> CommandName {
    CommandName::new("test", raw).unwrap()
}

fn op(id: &str, group: &str, effect: Effect, body: Body, gates: &[&str], params: Vec<Param>) -> Operation {
    Operation {
        id: id.to_owned(),
        group: name(group),
        command: name(id),
        commit: "commit".to_owned(),
        method: if effect == Effect::Read { Method::Get } else { Method::Post },
        path: format!("/{group}"),
        summary: None,
        description: None,
        params,
        body,
        effect,
        gates: gates.iter().map(|g| Gate::new("x-cli-gates", g).unwrap()).collect(),
    }
}

fn document() -> Document {
    let cookie = Param {
        name: "session".to_owned(),
        required: false,
        shape: Shape::Unreachable(Unsupported::Cookie),
        description: None,
        needs: Vec::new(),
    };
    let page = Param {
        name: "page".to_owned(),
        required: false,
        shape: Shape::Flag {
            flag: "page".to_owned(),
            location: Location::Query,
            scalar: Scalar::Integer,
            join: None,
            format: None,
        },
        description: None,
        needs: Vec::new(),
    };
    Document {
        base: Base { scheme: None, authority: None, path: String::new() },
        commit: "commit".to_owned(),
        ops: vec![
            op("listVouchers", "vouchers", Effect::Read, Body::Absent, &[], vec![page, cookie]),
            op("sendVoucher", "vouchers", Effect::Write, Body::JsonWhole { required: true, template: None }, &["email", "archive"], vec![]),
            op("makeContact", "contacts", Effect::Write, Body::JsonFields(vec![]), &["email"], vec![]),
        ],
    }
}

#[test]
fn every_count_is_taken_off_the_operations() {
    let summary = document().summary();
    assert_eq!(summary.operations(), 3);
    assert_eq!(summary.reads(), 1);
    assert_eq!(summary.writes(), 2);
    assert_eq!(summary.reads() + summary.writes(), summary.operations());
    assert_eq!(summary.bodiless(), 1);
    assert_eq!(summary.whole_bodies(), 2);
    let groups: Vec<&str> = summary.groups().iter().map(|g| g.as_str()).collect();
    assert_eq!(groups, ["vouchers", "contacts"]);
    let gates: Vec<(&str, usize)> = summary.gates().iter().map(|(g, n)| (g.as_str(), *n)).collect();
    assert_eq!(gates, [("archive", 1), ("email", 2)]);
    assert_eq!(summary.behind("email"), 2);
    assert_eq!(summary.behind("nothing"), 0);
    assert_eq!(summary.unreachable().len(), 1);
    assert_eq!(summary.unreachable()[0].operation(), "listVouchers");
    assert_eq!(summary.unreachable()[0].parameter(), "session");
    assert_eq!(summary.unreachable()[0].why(), &Unsupported::Cookie);
}

#[test]
fn the_page_states_the_same_counts() {
    let page = document().summary().render();
    assert!(page.starts_with("# What the reduction found\n\n"), "{page}");
    assert!(page.contains("| operations | 3 |\n"), "{page}");
    assert!(page.contains("| writes, held behind `--commit` | 2 |\n"), "{page}");
    assert!(page.contains("\n## Groups\n\n`vouchers`, `contacts`\n"), "{page}");
    assert!(
        page.contains("| gate | operations behind it |\n|---|---|\n| `--archive` | 1 |\n| `--email` | 2 |\n"),
        "{page}"
    );
    assert!(
        page.ends_with("| `listVouchers` | `session` | `in: cookie`, which this CLI does not send |\n"),
        "{page}"
    );
}

#[test]
fn an_empty_document_says_so_in_every_section() {
    let empty = Document {
        base: Base { scheme: None, authority: None, path: String::new() },
        commit: "commit".to_owned(),
        ops: vec![],
    };
    let page = empty.summary().render();
    assert!(page.contains("The document describes no operations.\n"), "{page}");
    assert!(page.contains("No operation names a gate, so `--commit` is the whole of the confirmation.\n"), "{page}");
    assert!(page.ends_with("None: every parameter the document declares reaches the request.\n"), "{page}");
}
