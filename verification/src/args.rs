//! The flags one subcommand grows, decided flag by flag: the name each one is
//! typed as, what it takes, whether it may be left out or given again, and
//! the help line beside it.
//!
//! A command-line parser builds the tree from these; nothing it shows a user
//! about a flag is decided anywhere else.

use vstd::prelude::*;

use crate::model::{
    Body, Effect, Field, Gate, Join, Location, Operation, Param, Shape, FIELD_PART, FILE_PART, JSON_BODY,
    JSON_BODY_TEMPLATE, RAW_BODY,
};
use crate::names::{kebab_of, renamed};
use crate::scalar::Scalar;
use crate::text::{append_chars, append_str, joined, string_of};
use crate::tree::{help_line, help_text, notes_of, wire};

verus! {

/// The help line of `--json-body` beside per-field flags.
pub const FIELDS_BODY_HELP: &'static str = "JSON body read from a file; `-` is stdin. It is the base document: the per-field flags above are merged over it, so a flag wins over the same key in the file";

/// The help line of `--json-body` for a body that is nested.
pub const WHOLE_BODY_HELP: &'static str = "JSON body read from a file; `-` is stdin. This body is nested, so it has no per-field flags";

/// The help line of `--json-body-template`.
pub const TEMPLATE_HELP: &'static str = "Print a skeleton of the JSON body and stop, for --json-body to be filled in from. Required properties only, with empty values. Nothing is built and nothing is sent, so this takes no other flag";

/// The help line of the write confirmation.
pub const COMMIT_HELP: &'static str = "Send the request. Without it this is a dry run that prints it";

/// The help line of `--field`.
pub const FIELD_PART_HELP: &'static str = "One text part of the multipart body, repeatable";

/// What a flag takes on the command line.
#[derive(Debug, Clone, Copy)]
pub enum Takes<'op> {
    /// A value, held to the rule of its kind as the command line is parsed:
    /// a `Choice` offers its values and refuses others.
    Value(&'op Scalar),
    /// The path of a file; `-` is stdin.
    File,
    /// One part of a multipart body, `NAME=...`, shown under this value name.
    Part(&'static str),
    /// A switch: given or not.
    Switch,
}

/// One flag of one subcommand.
#[derive(Debug)]
pub struct ArgSpec<'op> {
    /// The long name the flag is typed as, and the id it is read back by.
    pub long: &'op str,
    pub takes: Takes<'op>,
    /// Whether the command line is refused without it.
    pub required: bool,
    /// A flag whose presence excuses this one, where this one is required
    /// only in its absence.
    pub unless: Option<&'static str>,
    /// Whether it may be given more than once, every value kept in order.
    pub repeatable: bool,
    /// Whether it refuses every other flag beside it.
    pub exclusive: bool,
    pub help: Option<String>,
}

/// What a flag takes, as plain values.
pub enum TakesView {
    Value(Scalar),
    File,
    Part(Seq<char>),
    Switch,
}

/// One flag, as plain values.
pub struct ArgView {
    pub long: Seq<char>,
    pub takes: TakesView,
    pub required: bool,
    pub unless: Option<Seq<char>>,
    pub repeatable: bool,
    pub exclusive: bool,
    pub help: Option<Seq<char>>,
}

/// A text that may be absent, by its characters.
pub open spec fn text_view(text: Option<String>) -> Option<Seq<char>> {
    match text {
        Some(t) => Some(t@),
        None => None,
    }
}

/// A fixed name that may be absent, by its characters.
pub open spec fn word_view(word: Option<&'static str>) -> Option<Seq<char>> {
    match word {
        Some(w) => Some(w@),
        None => None,
    }
}

/// What a flag takes, by value.
pub open spec fn takes_view(takes: Takes) -> TakesView {
    match takes {
        Takes::Value(scalar) => TakesView::Value(*scalar),
        Takes::File => TakesView::File,
        Takes::Part(name) => TakesView::Part(name@),
        Takes::Switch => TakesView::Switch,
    }
}

impl<'op> View for ArgSpec<'op> {
    type V = ArgView;

    open spec fn view(&self) -> ArgView {
        ArgView {
            long: self.long@,
            takes: takes_view(self.takes),
            required: self.required,
            unless: word_view(self.unless),
            repeatable: self.repeatable,
            exclusive: self.exclusive,
            help: text_view(self.help),
        }
    }
}

/// Every flag of a list, by value.
pub open spec fn views(args: Seq<ArgSpec>) -> Seq<ArgView> {
    args.map_values(|a: ArgSpec| a@)
}

/// What a list flag's help line says about how its values are sent.
pub open spec fn join_note_text(join: Join) -> Seq<char> {
    match join {
        Join::Pairs => "repeatable; each value is sent as its own field"@,
        Join::Commas => "repeatable; the values are sent comma-separated in one field"@,
    }
}

/// Where a parameter goes, in the words of a help line.
pub open spec fn location_word(location: Location) -> Seq<char> {
    match location {
        Location::Path => "path"@,
        Location::Query => "query"@,
        Location::Header => "header"@,
    }
}

/// What a parameter's help line opens with: the document's description, or
/// where the value goes when the document describes nothing.
pub open spec fn param_described(param: Param, location: Location) -> Seq<char> {
    match param.description {
        Some(d) => d@,
        None => "The `"@ + param.name@ + "` "@ + location_word(location) + " parameter"@,
    }
}

/// The note a flag that moved aside from its wire name carries.
pub open spec fn wire_notes(moved: bool, name: Seq<char>) -> Seq<Seq<char>> {
    if moved {
        seq!["sends `"@ + name + "`"@]
    } else {
        Seq::empty()
    }
}

/// The notes a parameter's flag carries beyond its kind: how a list is sent,
/// then the wire name of a flag that moved aside.
pub open spec fn param_notes(param: Param, flag: Seq<char>, join: Option<Join>) -> Seq<Seq<char>> {
    (match join {
        Some(j) => seq![join_note_text(j)],
        None => Seq::empty(),
    }) + wire_notes(flag != kebab_of(param.name@), param.name@)
}

/// A flag that takes one value of a kind.
pub open spec fn value_arg_view(
    flag: Seq<char>,
    scalar: Scalar,
    help: Option<Seq<char>>,
    required: bool,
) -> ArgView {
    ArgView {
        long: flag,
        takes: TakesView::Value(scalar),
        required,
        unless: None,
        repeatable: false,
        exclusive: false,
        help,
    }
}

/// The flag one parameter grows, and none for one a command line cannot
/// supply.
pub open spec fn param_arg_view(param: Param) -> Option<ArgView> {
    match param.shape {
        Shape::Flag { flag, location, scalar, join, .. } => Some(
            ArgView {
                long: flag@,
                takes: TakesView::Value(scalar),
                required: param.required,
                unless: None,
                repeatable: join is Some,
                exclusive: false,
                help: help_text(
                    Some(param_described(param, location)),
                    notes_of(scalar, param_notes(param, flag@, join)),
                ),
            },
        ),
        Shape::Unreachable(_) => None,
    }
}

fn value_arg<'op>(flag: &'op str, scalar: &'op Scalar, help: Option<String>, required: bool) -> (a:
    ArgSpec<'op>)
    ensures
        a@ == value_arg_view(flag@, *scalar, text_view(help), required),
{
    ArgSpec {
        long: flag,
        takes: Takes::Value(scalar),
        required,
        unless: None,
        repeatable: false,
        exclusive: false,
        help,
    }
}

/// The flag one parameter grows — and nothing at all for one this CLI cannot
/// supply, which the subcommand's long help names instead.
pub fn param_arg<'op>(param: &'op Param) -> (r: Option<ArgSpec<'op>>)
    ensures
        match param_arg_view(*param) {
            Some(v) => r matches Some(a) && a@ == v,
            None => r is None,
        },
{
    match &param.shape {
        Shape::Flag { flag, location, scalar, join, .. } => {
            let described: String = match param.description() {
                Some(text) => text.to_owned(),
                None => {
                    let mut out: Vec<char> = Vec::new();
                    append_str(&mut out, "The `");
                    append_str(&mut out, param.name());
                    append_str(&mut out, "` ");
                    append_str(
                        &mut out,
                        match location {
                            Location::Path => "path",
                            Location::Query => "query",
                            Location::Header => "header",
                        },
                    );
                    append_str(&mut out, " parameter");
                    string_of(out.as_slice())
                },
            };
            assert(described@ == param_described(*param, *location));
            let mut notes: Vec<String> = Vec::new();
            match join {
                Some(j) => {
                    let n = j.note();
                    notes.push(n.to_owned());
                },
                None => {},
            }
            let ghost first = notes@.map_values(|s: String| s@);
            assert(first =~= match *join {
                Some(j) => seq![join_note_text(j)],
                None => Seq::<Seq<char>>::empty(),
            });
            let moved = renamed(flag.as_str(), param.name());
            match wire(moved, param.name()) {
                Some(n) => notes.push(n),
                None => {},
            }
            assert(notes@.map_values(|s: String| s@) =~= param_notes(*param, flag@, *join));
            let help = help_line(Some(described.as_str()), scalar, notes);
            Some(
                ArgSpec {
                    long: flag.as_str(),
                    takes: Takes::Value(scalar),
                    required: param.required(),
                    unless: None,
                    repeatable: join.is_some(),
                    exclusive: false,
                    help,
                },
            )
        },
        Shape::Unreachable(_) => None,
    }
}

/// A flag that takes the path of a file; `-` is stdin.
pub open spec fn file_arg_view(flag: Seq<char>, required: bool, help: Seq<char>) -> ArgView {
    ArgView {
        long: flag,
        takes: TakesView::File,
        required,
        unless: None,
        repeatable: false,
        exclusive: false,
        help: Some(help),
    }
}

/// A switch: `required` for a named gate, never for anything else.
pub open spec fn switch_view(flag: Seq<char>, required: bool, exclusive: bool, help: Seq<char>) -> ArgView {
    ArgView {
        long: flag,
        takes: TakesView::Switch,
        required,
        unless: None,
        repeatable: false,
        exclusive,
        help: Some(help),
    }
}

/// The help line of a named gate's flag.
pub open spec fn gate_help(gate: Seq<char>) -> Seq<char> {
    "Required, and demanded in addition to --commit: this operation stands behind the `"@ + gate
        + "` gate"@
}

/// One named gate: a switch that has to be typed beside the confirmation, and
/// that the command line is refused without.
pub open spec fn gate_arg_view(gate: Seq<char>) -> ArgView {
    switch_view(gate, true, false, gate_help(gate))
}

/// `--json-body-template`: a switch that takes no other flag beside it.
pub open spec fn template_arg_view() -> ArgView {
    switch_view(JSON_BODY_TEMPLATE@, false, true, TEMPLATE_HELP@)
}

/// The flag of one scalar property of a flat body: never demanded outright,
/// and demanded unless `--json-body` is given where the document requires the
/// property.
pub open spec fn field_arg_view(field: Field) -> ArgView {
    ArgView {
        long: field.flag@,
        takes: TakesView::Value(field.scalar),
        required: false,
        unless: if field.required {
            Some(JSON_BODY@)
        } else {
            None
        },
        repeatable: false,
        exclusive: false,
        help: help_text(
            text_view(field.description),
            notes_of(field.scalar, wire_notes(field.flag@ != kebab_of(field.name@), field.name@)),
        ),
    }
}

/// What the help of `--file` adds about the parts the document declares.
pub open spec fn declared_text(names: Seq<String>) -> Seq<char> {
    if names.len() == 0 {
        Seq::empty()
    } else {
        " The document declares: "@ + joined(names.map_values(|s: String| s@), ", "@) + "."@
    }
}

/// The flags of a multipart body: `--file` and `--field`, each repeatable.
pub open spec fn multipart_arg_views(names: Seq<String>, required: bool) -> Seq<ArgView> {
    seq![
        ArgView {
            long: FILE_PART@,
            takes: TakesView::Part("NAME=PATH"@),
            required,
            unless: None,
            repeatable: true,
            exclusive: false,
            help: Some("One file part of the multipart body, repeatable."@ + declared_text(names)),
        },
        ArgView {
            long: FIELD_PART@,
            takes: TakesView::Part("NAME=VALUE"@),
            required: false,
            unless: None,
            repeatable: true,
            exclusive: false,
            help: Some(FIELD_PART_HELP@),
        },
    ]
}

/// The help line of `--raw-body`, naming the media type it is sent as.
pub open spec fn raw_help(media_type: Seq<char>) -> Seq<char> {
    "Request body read from a file, sent verbatim as `"@ + media_type
        + "`; `-` is stdin. This CLI does not assemble that media type"@
}

/// The flags a body grows: one per scalar property and `--json-body` beside
/// them; `--json-body` alone, with `--json-body-template` where a skeleton was
/// kept; the two part flags; or `--raw-body`.
pub open spec fn body_arg_views(body: Body) -> Seq<ArgView> {
    match body {
        Body::Absent => Seq::empty(),
        Body::JsonFields(fields) => fields@.map_values(|f: Field| field_arg_view(f)).push(
            file_arg_view(JSON_BODY@, false, FIELDS_BODY_HELP@),
        ),
        Body::JsonWhole { required, template } => if template is Some {
            seq![file_arg_view(JSON_BODY@, required, WHOLE_BODY_HELP@), template_arg_view()]
        } else {
            seq![file_arg_view(JSON_BODY@, required, WHOLE_BODY_HELP@)]
        },
        Body::Multipart { names, required } => multipart_arg_views(names@, required),
        Body::Opaque { media_type, required } => seq![
            file_arg_view(RAW_BODY@, required, raw_help(media_type@)),
        ],
    }
}

/// The flags every parameter grows, in order, skipping those that grow none.
pub open spec fn params_arg_views(params: Seq<Param>) -> Seq<ArgView>
    decreases params.len(),
{
    if params.len() == 0 {
        Seq::empty()
    } else {
        params_arg_views(params.drop_last()) + match param_arg_view(params.last()) {
            Some(v) => seq![v],
            None => Seq::empty(),
        }
    }
}

/// Every flag of one operation's subcommand, in the order they are added:
/// the parameters', the body's, the confirmation of a write, then each named
/// gate.
pub open spec fn command_arg_views(op: Operation) -> Seq<ArgView> {
    params_arg_views(op.params@) + body_arg_views(op.body) + (if op.effect is Write {
        seq![switch_view(op.commit@, false, false, COMMIT_HELP@)]
    } else {
        Seq::empty()
    }) + op.gates@.map_values(|g: Gate| gate_arg_view(g@))
}

fn file_arg(flag: &'static str, required: bool, help: String) -> (a: ArgSpec<'static>)
    ensures
        a@ == file_arg_view(flag@, required, help@),
{
    ArgSpec {
        long: flag,
        takes: Takes::File,
        required,
        unless: None,
        repeatable: false,
        exclusive: false,
        help: Some(help),
    }
}

/// One named gate: a flag that has to be typed in addition to the
/// confirmation, and that the command line is refused without — a dry run of
/// the operation is still a command line somebody had to write it on.
pub fn gate_arg(gate: &Gate) -> (a: ArgSpec<'_>)
    ensures
        a@ == gate_arg_view(gate@),
{
    let mut help: Vec<char> = Vec::new();
    append_str(&mut help, "Required, and demanded in addition to --commit: this operation stands behind the `");
    append_str(&mut help, gate.as_str());
    append_str(&mut help, "` gate");
    ArgSpec {
        long: gate.as_str(),
        takes: Takes::Switch,
        required: true,
        unless: None,
        repeatable: false,
        exclusive: false,
        help: Some(string_of(help.as_slice())),
    }
}

/// The flags of the gates one operation names, in the order it names them; none for
/// an operation that names no gate. A command of the caller's own that fronts
/// a gated operation adds exactly these.
pub fn gates(op: &Operation) -> (r: Vec<ArgSpec<'_>>)
    ensures
        views(r@) == op.gates@.map_values(|g: Gate| gate_arg_view(g@)),
{
    let gates = op.gates();
    let mut out: Vec<ArgSpec<'_>> = Vec::new();
    let mut i: usize = 0;
    while i < gates.len()
        invariant
            i <= gates@.len(),
            gates@ == op.gates@,
            views(out@) =~= gates@.take(i as int).map_values(|g: Gate| gate_arg_view(g@)),
        decreases gates.len() - i,
    {
        let ghost before = out@;
        let arg = gate_arg(&gates[i]);
        out.push(arg);
        proof {
            assert(out@ =~= before.push(arg));
            assert(views(out@) =~= views(before).push(arg@));
            assert(gates@.take(i + 1) =~= gates@.take(i as int).push(gates@[i as int]));
        }
        i += 1;
    }
    assert(gates@.take(gates@.len() as int) =~= gates@);
    out
}

/// `--json-body-template`: the shape of the file `--json-body` wants. It takes
/// no other flag, so asking what a body looks like demands nothing the
/// operation would, and refuses a confirmation beside it.
fn template_arg() -> (a: ArgSpec<'static>)
    ensures
        a@ == template_arg_view(),
{
    ArgSpec {
        long: JSON_BODY_TEMPLATE,
        takes: Takes::Switch,
        required: false,
        unless: None,
        repeatable: false,
        exclusive: true,
        help: Some(TEMPLATE_HELP.to_owned()),
    }
}

/// The flag of one scalar property of a flat body.
fn field_arg(field: &Field) -> (a: ArgSpec<'_>)
    ensures
        a@ == field_arg_view(*field),
{
    let mut notes: Vec<String> = Vec::new();
    match wire(field.renamed(), field.name()) {
        Some(n) => notes.push(n),
        None => {},
    }
    assert(notes@.map_values(|s: String| s@) =~= wire_notes(
        field.flag@ != kebab_of(field.name@),
        field.name@,
    ));
    let help = help_line(field.description(), field.scalar(), notes);
    let mut arg = value_arg(field.flag(), field.scalar(), help, false);
    if field.required() {
        arg.unless = Some(JSON_BODY);
    }
    arg
}

/// One flag per scalar property, and `--json-body` as the base document they
/// are merged over.
fn json_field_args(fields: &[Field]) -> (r: Vec<ArgSpec<'_>>)
    ensures
        views(r@) == fields@.map_values(|f: Field| field_arg_view(f)).push(
            file_arg_view(JSON_BODY@, false, FIELDS_BODY_HELP@),
        ),
{
    let mut out: Vec<ArgSpec<'_>> = Vec::new();
    let mut i: usize = 0;
    while i < fields.len()
        invariant
            i <= fields@.len(),
            views(out@) =~= fields@.take(i as int).map_values(|f: Field| field_arg_view(f)),
        decreases fields.len() - i,
    {
        let ghost before = out@;
        let arg = field_arg(&fields[i]);
        out.push(arg);
        proof {
            assert(out@ =~= before.push(arg));
            assert(views(out@) =~= views(before).push(arg@));
            assert(fields@.take(i + 1) =~= fields@.take(i as int).push(fields@[i as int]));
        }
        i += 1;
    }
    assert(fields@.take(fields@.len() as int) =~= fields@);
    out.push(file_arg(JSON_BODY, false, FIELDS_BODY_HELP.to_owned()));
    assert(views(out@) =~= fields@.map_values(|f: Field| field_arg_view(f)).push(
        file_arg_view(JSON_BODY@, false, FIELDS_BODY_HELP@),
    ));
    out
}

/// `--file` and `--field`, repeatable. The part names are the document's, but
/// they are advice rather than a constraint: a document that declares none,
/// or declares them wrongly, is common.
fn multipart_args(names: &[String], required: bool) -> (r: Vec<ArgSpec<'static>>)
    ensures
        views(r@) == multipart_arg_views(names@, required),
{
    let mut help: Vec<char> = Vec::new();
    append_str(&mut help, "One file part of the multipart body, repeatable.");
    if names.len() > 0 {
        append_str(&mut help, " The document declares: ");
        let list = crate::text::join_strings(names, ", ");
        append_chars(&mut help, list.as_slice());
        append_str(&mut help, ".");
    }
    assert(help@ =~= "One file part of the multipart body, repeatable."@ + declared_text(names@));
    let file = ArgSpec {
        long: FILE_PART,
        takes: Takes::Part("NAME=PATH"),
        required,
        unless: None,
        repeatable: true,
        exclusive: false,
        help: Some(string_of(help.as_slice())),
    };
    let field = ArgSpec {
        long: FIELD_PART,
        takes: Takes::Part("NAME=VALUE"),
        required: false,
        unless: None,
        repeatable: true,
        exclusive: false,
        help: Some(FIELD_PART_HELP.to_owned()),
    };
    let ghost want = multipart_arg_views(names@, required);
    assert(file@ == want[0]);
    assert(field@ == want[1]);
    let mut out: Vec<ArgSpec<'static>> = Vec::new();
    out.push(file);
    out.push(field);
    assert(views(out@) =~= want);
    out
}

/// The flags one body grows.
pub fn body_args(body: &Body) -> (r: Vec<ArgSpec<'_>>)
    ensures
        views(r@) == body_arg_views(*body),
{
    match body {
        Body::Absent => {
            let out: Vec<ArgSpec<'_>> = Vec::new();
            assert(views(out@) =~= body_arg_views(*body));
            out
        },
        Body::JsonFields(fields) => json_field_args(fields.as_slice()),
        Body::JsonWhole { required, template } => {
            let mut out: Vec<ArgSpec<'_>> = Vec::new();
            out.push(file_arg(JSON_BODY, *required, WHOLE_BODY_HELP.to_owned()));
            match template {
                Some(_) => out.push(template_arg()),
                None => {},
            }
            assert(views(out@) =~= body_arg_views(*body));
            out
        },
        Body::Multipart { names, required } => multipart_args(names.as_slice(), *required),
        Body::Opaque { media_type, required } => {
            let mut help: Vec<char> = Vec::new();
            append_str(&mut help, "Request body read from a file, sent verbatim as `");
            append_str(&mut help, media_type.as_str());
            append_str(&mut help, "`; `-` is stdin. This CLI does not assemble that media type");
            let mut out: Vec<ArgSpec<'_>> = Vec::new();
            out.push(file_arg(RAW_BODY, *required, string_of(help.as_slice())));
            assert(views(out@) =~= body_arg_views(*body));
            out
        },
    }
}

/// Every flag of one operation's subcommand, in the order they are added: the
/// parameters', the body's, the confirmation of a write, and each named gate.
pub fn command_args(op: &Operation) -> (r: Vec<ArgSpec<'_>>)
    ensures
        views(r@) == command_arg_views(*op),
{
    let params = op.params();
    let mut out: Vec<ArgSpec<'_>> = Vec::new();
    let mut i: usize = 0;
    while i < params.len()
        invariant
            i <= params@.len(),
            params@ == op.params@,
            views(out@) =~= params_arg_views(params@.take(i as int)),
        decreases params.len() - i,
    {
        match param_arg(&params[i]) {
            Some(arg) => out.push(arg),
            None => {},
        }
        proof {
            assert(params@.take(i + 1).drop_last() =~= params@.take(i as int));
            assert(params@.take(i + 1).last() == params@[i as int]);
        }
        i += 1;
    }
    assert(params@.take(params@.len() as int) =~= params@);
    let ghost before_body = out@;
    let mut body = body_args(op.body());
    out.append(&mut body);
    assert(views(out@) =~= params_arg_views(op.params@) + body_arg_views(op.body));
    let ghost before_commit = out@;
    if let Effect::Write = op.effect() {
        out.push(
            ArgSpec {
                long: op.commit(),
                takes: Takes::Switch,
                required: false,
                unless: None,
                repeatable: false,
                exclusive: false,
                help: Some(COMMIT_HELP.to_owned()),
            },
        );
    }
    let mut named = gates(op);
    out.append(&mut named);
    assert(views(out@) =~= command_arg_views(*op));
    out
}

} // verus!
