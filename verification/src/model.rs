//! The document, reduced to the facts a CLI and a typed caller both need.
//!
//! A bless step reads the vendor's OpenAPI document and the adopter's Overlays
//! into a list of [`Operation`]s with every `$ref` already resolved; a shipped
//! binary reads the same list back off the blob the bless step wrote. Both
//! land here, and everything downstream — the request builder, the write check, the
//! summary — reads only this.

use vstd::prelude::*;

use crate::names::{canonical, kebab_of, CommandName, NameError};
use crate::scalar::Scalar;
use crate::text::{append_str, chars_of, string_of};

verus! {

/// Whole-body flag, for every operation that takes JSON.
pub const JSON_BODY: &'static str = "json-body";

/// The shape of that body, printed instead of sent.
pub const JSON_BODY_TEMPLATE: &'static str = "json-body-template";

/// Whole-body flag, for a media type this CLI does not assemble.
pub const RAW_BODY: &'static str = "raw-body";

/// One file part of a multipart body.
pub const FILE_PART: &'static str = "file";

/// One text part of a multipart body.
pub const FIELD_PART: &'static str = "field";

/// The write gate.
pub const COMMIT: &'static str = "commit";

/// The HTTP method an operation is sent with: the eight OpenAPI names.
#[derive(Debug, Clone, Copy, PartialEq, Eq, Structural)]
pub enum Method {
    Get,
    Put,
    Post,
    Delete,
    Options,
    Head,
    Patch,
    Trace,
}

/// How a method is spelled on the wire.
pub open spec fn method_name(method: Method) -> Seq<char> {
    match method {
        Method::Get => "GET"@,
        Method::Put => "PUT"@,
        Method::Post => "POST"@,
        Method::Delete => "DELETE"@,
        Method::Options => "OPTIONS"@,
        Method::Head => "HEAD"@,
        Method::Patch => "PATCH"@,
        Method::Trace => "TRACE"@,
    }
}

impl Method {
    /// How this method is spelled on the wire.
    pub fn as_str(&self) -> (r: &'static str)
        ensures
            r@ == method_name(*self),
    {
        match self {
            Method::Get => "GET",
            Method::Put => "PUT",
            Method::Post => "POST",
            Method::Delete => "DELETE",
            Method::Options => "OPTIONS",
            Method::Head => "HEAD",
            Method::Patch => "PATCH",
            Method::Trace => "TRACE",
        }
    }
}

/// Whether the CLI must hold this operation behind `--commit`.
#[derive(Debug, Clone, Copy, PartialEq, Eq, Structural)]
pub enum Effect {
    /// A safe method with no `x-cli-writes` marker: runs on sight.
    Read,
    /// A body-bearing or unsafe method, or a GET the document marks as writing.
    Write,
}

/// One named hazard an operation stands behind, spelled as a long flag.
///
/// A gate is answered *beside* the confirmation, never instead of it, so what
/// a gate adds is always another thing to say and never permission to say
/// less. Its name passes the spelling rule a command name passes, so nothing
/// can construct a flag a document could not have asked for.
#[derive(Debug)]
pub struct Gate(String);

impl View for Gate {
    type V = Seq<char>;

    closed spec fn view(&self) -> Seq<char> {
        self.0@
    }
}

impl Gate {
    /// Every gate is spelled by the rule, and is not empty.
    #[verifier::type_invariant]
    spec fn spelled_by_the_rule(self) -> bool {
        canonical(self.0@) && self.0@.len() > 0
    }

    /// `sendEmail` becomes `send-email`; anything that will not reduce to
    /// `[a-z0-9-]` is rejected rather than mangled, because what is being
    /// spelled is a flag a user has to type.
    pub fn new(origin: &'static str, raw: &str) -> (r: Result<Self, NameError>)
        ensures
            r is Ok <==> kebab_of(raw@).len() > 0,
            r matches Ok(gate) ==> gate@ == kebab_of(raw@),
            r matches Err(e) ==> e.origin == origin && e.raw@ == raw@,
    {
        proof {
            crate::names::lemma_kebab_canonical(raw@);
        }
        match crate::names::spelled(origin, raw) {
            Ok(name) => Ok(Gate(name)),
            Err(e) => Err(e),
        }
    }

    /// The flag name, without the leading `--`.
    pub fn as_str(&self) -> (r: &str)
        ensures
            r@ == self@,
            canonical(r@),
            r@.len() > 0,
    {
        proof {
            use_type_invariant(self);
        }
        self.0.as_str()
    }

    /// The same gate again.
    pub fn duplicate(&self) -> (r: Self)
        ensures
            r@ == self@,
    {
        proof {
            use_type_invariant(self);
        }
        Gate(self.0.clone())
    }
}

/// Where a parameter goes in the request.
#[derive(Debug, Clone, Copy, PartialEq, Eq, Structural)]
pub enum Location {
    Path,
    Query,
    Header,
}

/// How the values of a list parameter reach the request.
#[derive(Debug, Clone, Copy, PartialEq, Eq, Structural)]
pub enum Join {
    /// One field per value: `?embed=a&embed=b`.
    Pairs,
    /// One field, values separated by commas: `?embed=a,b`, and `a,b` in a path
    /// segment or a header.
    Commas,
}

impl Join {
    /// What a repeated flag does, for its help line. The same fact the request
    /// builder obeys, written once.
    pub fn note(self) -> (r: &'static str)
        ensures
            r@ == match self {
                Join::Pairs => "repeatable; each value is sent as its own field"@,
                Join::Commas => "repeatable; the values are sent comma-separated in one field"@,
            },
    {
        match self {
            Join::Pairs => "repeatable; each value is sent as its own field",
            Join::Commas => "repeatable; the values are sent comma-separated in one field",
        }
    }
}

/// Why a parameter carries no flag.
#[derive(Debug, Clone, PartialEq, Eq)]
pub enum Unsupported {
    /// `in: cookie`. This CLI sends no cookies.
    Cookie,
    /// Described by `content` rather than `schema`.
    Encoded,
    /// A schema that is neither a value nor a list of values.
    Structured,
    /// A `style` this crate does not serialise, named as the document spells
    /// it.
    Style(String),
    /// A name with no kebab-case spelling, so there is no flag to offer.
    Unspellable,
}

/// The sentence a refusal and a subcommand's long help both use.
pub open spec fn sentence_of(why: Unsupported) -> Seq<char> {
    match why {
        Unsupported::Cookie => "`in: cookie`, which this CLI does not send"@,
        Unsupported::Encoded => "described by `content`, which this CLI does not encode"@,
        Unsupported::Structured => "neither a value nor a list of values"@,
        Unsupported::Style(style) => "declared with `style: "@ + style@
            + "`, which this CLI does not serialise"@,
        Unsupported::Unspellable => "named in a way that does not kebab-case into [a-z0-9-]"@,
    }
}

impl Unsupported {
    /// The sentence a refusal and a subcommand's long help both use, so that
    /// what a user is told about a missing flag is what a bless step was told.
    pub fn sentence(&self) -> (out: String)
        ensures
            out@ == sentence_of(*self),
    {
        match self {
            Unsupported::Cookie => "`in: cookie`, which this CLI does not send".to_owned(),
            Unsupported::Encoded => "described by `content`, which this CLI does not encode".to_owned(),
            Unsupported::Structured => "neither a value nor a list of values".to_owned(),
            Unsupported::Style(style) => {
                let mut text: Vec<char> = Vec::new();
                append_str(&mut text, "declared with `style: ");
                append_str(&mut text, style.as_str());
                append_str(&mut text, "`, which this CLI does not serialise");
                string_of(text.as_slice())
            },
            Unsupported::Unspellable => "named in a way that does not kebab-case into [a-z0-9-]".to_owned(),
        }
    }

    /// The same reason again.
    pub fn duplicate(&self) -> (r: Self)
        ensures
            r == *self,
    {
        match self {
            Unsupported::Cookie => Unsupported::Cookie,
            Unsupported::Encoded => Unsupported::Encoded,
            Unsupported::Structured => Unsupported::Structured,
            Unsupported::Style(style) => {
                let copy = style.clone();
                Unsupported::Style(copy)
            },
            Unsupported::Unspellable => Unsupported::Unspellable,
        }
    }
}

/// What one parameter is worth on a command line: a flag and everything that
/// goes with one, or nothing at all.
#[derive(Debug)]
pub enum Shape {
    /// The flag this parameter grows, where its value goes, and what the flag
    /// accepts. `join` is `None` for a parameter that takes one value, and
    /// `Some` for a list — a flag that may be given again.
    Flag {
        flag: String,
        location: Location,
        scalar: Scalar,
        join: Option<Join>,
        /// The `format` the document declares about this value, in its own
        /// spelling.
        format: Option<String>,
    },
    /// Nothing a flag carries: the request goes out without it.
    Unreachable(Unsupported),
}

impl Shape {
    /// Whether this parameter takes more than one value: a flag that may be
    /// given again, and a list on the wire.
    pub fn repeatable(&self) -> (r: bool)
        ensures
            r == (*self matches Shape::Flag { join: Some(_), .. }),
    {
        match self {
            Shape::Flag { join: Some(_), .. } => true,
            _ => false,
        }
    }
}

/// One parameter the document declares.
#[derive(Debug)]
pub struct Param {
    pub name: String,
    pub required: bool,
    pub shape: Shape,
    pub description: Option<String>,
    /// The other parameters this one needs beside it, by wire name.
    pub needs: Vec<String>,
}

/// The `format` a parameter declares, where it has a flag to declare it about.
pub open spec fn param_format(param: Param) -> Option<Seq<char>> {
    match param.shape {
        Shape::Flag { format: Some(f), .. } => Some(f@),
        _ => None,
    }
}

impl Param {
    /// The wire name, as the document spells it.
    pub fn name(&self) -> (r: &str)
        ensures
            r@ == self.name@,
    {
        self.name.as_str()
    }

    /// What this parameter is worth on a command line: a flag and everything
    /// that goes with one, or nothing.
    pub fn shape(&self) -> (r: &Shape)
        ensures
            *r == self.shape,
    {
        &self.shape
    }

    /// The kind of value this parameter carries, as the document's `format`
    /// names it, and `None` where the document names none — or where the
    /// parameter has no flag, so there is no value for a kind to be about.
    pub fn format(&self) -> (r: Option<&str>)
        ensures
            r matches Some(f) ==> param_format(*self) == Some(f@),
            r is None ==> param_format(*self) is None,
    {
        match &self.shape {
            Shape::Flag { format: Some(format), .. } => Some(format.as_str()),
            _ => None,
        }
    }

    pub fn required(&self) -> (r: bool)
        ensures
            r == self.required,
    {
        self.required
    }

    pub fn description(&self) -> (r: Option<&str>)
        ensures
            r matches Some(d) ==> self.description matches Some(own) && own@ == d@,
            r is None ==> self.description is None,
    {
        match &self.description {
            Some(text) => Some(text.as_str()),
            None => None,
        }
    }

    /// The other parameters this one needs beside it, by wire name.
    pub fn needs(&self) -> (r: &[String])
        ensures
            r@ == self.needs@,
    {
        self.needs.as_slice()
    }
}

/// One scalar property of a flat JSON body.
#[derive(Debug)]
pub struct Field {
    pub name: String,
    pub flag: String,
    pub required: bool,
    pub scalar: Scalar,
    pub format: Option<String>,
    pub description: Option<String>,
}

impl Field {
    pub fn name(&self) -> (r: &str)
        ensures
            r@ == self.name@,
    {
        self.name.as_str()
    }

    pub fn flag(&self) -> (r: &str)
        ensures
            r@ == self.flag@,
    {
        self.flag.as_str()
    }

    /// The flag is not the plain kebab-case of the wire name, because that name
    /// was already taken in this subcommand.
    pub fn renamed(&self) -> (r: bool)
        ensures
            r == (self.flag@ != kebab_of(self.name@)),
    {
        crate::names::renamed(self.flag.as_str(), self.name.as_str())
    }

    pub fn required(&self) -> (r: bool)
        ensures
            r == self.required,
    {
        self.required
    }

    pub fn scalar(&self) -> (r: &Scalar)
        ensures
            *r == self.scalar,
    {
        &self.scalar
    }

    /// The kind of value this field carries, as the document's `format` names
    /// it, and `None` where the document names none.
    pub fn format(&self) -> (r: Option<&str>)
        ensures
            r matches Some(f) ==> self.format matches Some(own) && own@ == f@,
            r is None ==> self.format is None,
    {
        match &self.format {
            Some(text) => Some(text.as_str()),
            None => None,
        }
    }

    pub fn description(&self) -> (r: Option<&str>)
        ensures
            r matches Some(d) ==> self.description matches Some(own) && own@ == d@,
            r is None ==> self.description is None,
    {
        match &self.description {
            Some(text) => Some(text.as_str()),
            None => None,
        }
    }
}

/// What the operation wants in the request body — and therefore which flags
/// the subcommand grows.
#[derive(Debug)]
pub enum Body {
    /// The document asks for no body.
    Absent,
    /// A JSON object whose every property is a scalar: one flag per property,
    /// plus `--json-body` as a base document to merge them over.
    JsonFields(Vec<Field>),
    /// JSON this CLI will not take apart — `--json-body` only. `template` is the
    /// skeleton the walk saw while it decided the body was not flat.
    JsonWhole { required: bool, template: Option<String> },
    /// `multipart/form-data`: assembled from `--file` and `--field` parts.
    /// `names` is what the document declares, for the help line.
    Multipart { names: Vec<String>, required: bool },
    /// A media type this CLI does not assemble, sent verbatim from a file.
    Opaque { media_type: String, required: bool },
}

/// Whether the document asks for a body at all.
pub open spec fn body_present(body: Body) -> bool {
    !(body is Absent)
}

/// Whether the body goes out whole: one flag for the lot, none per property.
pub open spec fn body_whole(body: Body) -> bool {
    match body {
        Body::Absent => false,
        Body::JsonFields(fields) => fields@.len() == 0,
        _ => true,
    }
}

/// The per-field flags a body offers.
pub open spec fn body_fields(body: Body) -> Seq<Field> {
    match body {
        Body::JsonFields(fields) => fields@,
        _ => Seq::empty(),
    }
}

impl Body {
    /// Whether the document asks for a request body at all.
    pub fn present(&self) -> (r: bool)
        ensures
            r == body_present(*self),
    {
        match self {
            Body::Absent => false,
            _ => true,
        }
    }

    /// Whether this body goes out whole: one flag for the lot, and no flag per
    /// property. A flat body of no properties is one of these too, because
    /// what it offers a command line is `--json-body` and nothing else.
    pub fn whole(&self) -> (r: bool)
        ensures
            r == body_whole(*self),
    {
        match self {
            Body::Absent => false,
            Body::JsonFields(fields) => fields.len() == 0,
            _ => true,
        }
    }

    /// The per-field flags this body offers, and none for a body that offers
    /// none.
    pub fn fields(&self) -> (r: &[Field])
        ensures
            r@ == body_fields(*self),
    {
        match self {
            Body::JsonFields(fields) => fields.as_slice(),
            _ => &[],
        }
    }
}

/// One place in an operation that carries a value of a kind the document
/// names: a parameter, or one property of a flat JSON body.
#[derive(Debug, Clone, Copy)]
pub enum Carrier<'op> {
    /// A path, query or header parameter.
    Param(&'op Param),
    /// One scalar property of a flat JSON body.
    Field(&'op Field),
}

impl<'op> Carrier<'op> {
    /// The wire name, as the document spells it.
    pub fn name(self) -> (r: &'op str)
        ensures
            r@ == match self {
                Carrier::Param(p) => p.name@,
                Carrier::Field(f) => f.name@,
            },
    {
        match self {
            Carrier::Param(param) => param.name(),
            Carrier::Field(field) => field.name(),
        }
    }
}

/// Whether the carrier's value is of the kind `format` names.
pub open spec fn carries(c: Carrier, format: Seq<char>) -> bool {
    match c {
        Carrier::Param(p) => param_format(*p) == Some(format),
        Carrier::Field(f) => f.format matches Some(own) && own@ == format,
    }
}

/// One operation: one subcommand under one group, one request.
#[derive(Debug)]
pub struct Operation {
    pub id: String,
    pub group: CommandName,
    pub command: CommandName,
    /// The word this CLI confirms a write with.
    pub commit: String,
    pub method: Method,
    pub path: String,
    pub summary: Option<String>,
    pub description: Option<String>,
    pub params: Vec<Param>,
    pub body: Body,
    pub effect: Effect,
    pub gates: Vec<Gate>,
}

/// The index of the first parameter named `name`.
pub open spec fn first_named(params: Seq<Param>, name: Seq<char>) -> Option<int> {
    if exists|i: int| 0 <= i < params.len() && (#[trigger] params[i]).name@ == name {
        Some(
            choose|i: int|
                0 <= i < params.len() && (#[trigger] params[i]).name@ == name && forall|j: int|
                    0 <= j < i ==> (#[trigger] params[j]).name@ != name,
        )
    } else {
        None
    }
}

impl Operation {
    /// The `operationId`, as the document spells it.
    pub fn id(&self) -> (r: &str)
        ensures
            r@ == self.id@,
    {
        self.id.as_str()
    }

    /// The group this operation is mounted under, as the user types it.
    pub fn group(&self) -> (r: &CommandName)
        ensures
            *r == self.group,
    {
        &self.group
    }

    /// The subcommand name under that group, as the user types it.
    pub fn command(&self) -> (r: &CommandName)
        ensures
            *r == self.command,
    {
        &self.command
    }

    /// The word this CLI confirms a write with.
    pub fn commit(&self) -> (r: &str)
        ensures
            r@ == self.commit@,
    {
        self.commit.as_str()
    }

    pub fn method(&self) -> (r: Method)
        ensures
            r == self.method,
    {
        self.method
    }

    /// The path template, `{name}` placeholders intact.
    pub fn path(&self) -> (r: &str)
        ensures
            r@ == self.path@,
    {
        self.path.as_str()
    }

    pub fn summary(&self) -> (r: Option<&str>)
        ensures
            r matches Some(s) ==> self.summary matches Some(own) && own@ == s@,
            r is None ==> self.summary is None,
    {
        match &self.summary {
            Some(text) => Some(text.as_str()),
            None => None,
        }
    }

    pub fn description(&self) -> (r: Option<&str>)
        ensures
            r matches Some(s) ==> self.description matches Some(own) && own@ == s@,
            r is None ==> self.description is None,
    {
        match &self.description {
            Some(text) => Some(text.as_str()),
            None => None,
        }
    }

    pub fn params(&self) -> (r: &[Param])
        ensures
            r@ == self.params@,
    {
        self.params.as_slice()
    }

    pub fn body(&self) -> (r: &Body)
        ensures
            *r == self.body,
    {
        &self.body
    }

    pub fn effect(&self) -> (r: Effect)
        ensures
            r == self.effect,
    {
        self.effect
    }

    /// The named hazards this operation stands behind, in the order the
    /// document names them.
    pub fn gates(&self) -> (r: &[Gate])
        ensures
            r@ == self.gates@,
    {
        self.gates.as_slice()
    }

    /// The parameter the document spells `name`, if there is one: the first,
    /// where the document spells two alike.
    pub fn param(&self, name: &str) -> (r: Option<&Param>)
        ensures
            match first_named(self.params@, name@) {
                Some(i) => r matches Some(p) && *p == self.params@[i],
                None => r is None,
            },
    {
        let want = chars_of(name);
        let mut i: usize = 0;
        while i < self.params.len()
            invariant
                i <= self.params@.len(),
                want@ == name@,
                forall|j: int| 0 <= j < i ==> (#[trigger] self.params@[j]).name@ != name@,
            decreases self.params.len() - i,
        {
            let here = chars_of(self.params[i].name.as_str());
            if crate::text::same_chars(here.as_slice(), want.as_slice()) {
                proof {
                    assert(self.params@[i as int].name@ == name@);
                    let k = choose|k: int|
                        0 <= k < self.params@.len() && (#[trigger] self.params@[k]).name@ == name@
                            && forall|j: int|
                            0 <= j < k ==> (#[trigger] self.params@[j]).name@ != name@;
                    assert(k == i);
                }
                return Some(&self.params[i]);
            }
            i += 1;
        }
        None
    }

    /// Every value of this operation the document declares `format` about, in
    /// document order: the parameters first, then the fields of a flat body.
    pub fn carrying(&self, format: &str) -> (r: Vec<Carrier<'_>>)
        ensures
            r@.len() == self.params@.filter(|p: Param| param_format(p) == Some(format@)).len()
                + body_fields(self.body).filter(
                |f: Field| f.format matches Some(own) && own@ == format@,
            ).len(),
            forall|i: int| 0 <= i < r@.len() ==> carries(#[trigger] r@[i], format@),
    {
        let want = chars_of(format);
        let mut out: Vec<Carrier<'_>> = Vec::new();
        let ghost pred = |p: Param| param_format(p) == Some(format@);
        let mut i: usize = 0;
        while i < self.params.len()
            invariant
                i <= self.params@.len(),
                want@ == format@,
                pred == (|p: Param| param_format(p) == Some(format@)),
                out@.len() == self.params@.take(i as int).filter(pred).len(),
                forall|k: int| 0 <= k < out@.len() ==> carries(#[trigger] out@[k], format@),
            decreases self.params.len() - i,
        {
            let matched = match self.params[i].format() {
                Some(f) => crate::text::str_is(f, format),
                None => false,
            };
            proof {
                reveal_with_fuel(Seq::filter, 1);
                assert(self.params@.take(i + 1).drop_last() == self.params@.take(i as int));
            }
            if matched {
                out.push(Carrier::Param(&self.params[i]));
            }
            i += 1;
        }
        assert(self.params@.take(self.params@.len() as int) == self.params@);
        let fields = self.body.fields();
        let ghost fpred = |f: Field| f.format matches Some(own) && own@ == format@;
        let ghost base = out@.len();
        let mut j: usize = 0;
        while j < fields.len()
            invariant
                j <= fields@.len(),
                fields@ == body_fields(self.body),
                fpred == (|f: Field| f.format matches Some(own) && own@ == format@),
                out@.len() == base + fields@.take(j as int).filter(fpred).len(),
                forall|k: int| 0 <= k < out@.len() ==> carries(#[trigger] out@[k], format@),
            decreases fields.len() - j,
        {
            let matched = match fields[j].format() {
                Some(f) => crate::text::str_is(f, format),
                None => false,
            };
            proof {
                reveal_with_fuel(Seq::filter, 1);
                assert(fields@.take(j + 1).drop_last() == fields@.take(j as int));
            }
            if matched {
                out.push(Carrier::Field(&fields[j]));
            }
            j += 1;
        }
        assert(fields@.take(fields@.len() as int) == fields@);
        out
    }
}

} // verus!

verus! {

/// The server a document describes its operations against, in the three
/// pieces a request's URL is assembled from.
#[derive(Debug, Clone, PartialEq, Eq)]
pub struct Base {
    /// `https`, or `None` for a base with no scheme.
    pub scheme: Option<String>,
    /// `api.example.com:8443`, or `None` for a base with no authority.
    pub authority: Option<String>,
    /// The path the operations' own paths are appended to.
    pub path: String,
}

/// Every operation the document describes, in document order, plus the server
/// it describes them against.
#[derive(Debug)]
pub struct Document {
    pub base: Base,
    /// The word this CLI confirms a write with.
    pub commit: String,
    pub ops: Vec<Operation>,
}

/// A generated inventory and the document it was generated from disagree.
#[derive(Debug, Clone, PartialEq, Eq)]
pub struct DriftError {
    pub position: usize,
    pub expected: String,
    pub found: Option<String>,
}

impl DriftError {
    /// `the document and the generated inventory disagree at operation …`.
    pub fn message(&self) -> (out: String)
        ensures
            out@ == "the document and the generated inventory disagree at operation "@
                + crate::text::decimal(self.position as nat) + ": the inventory says `"@
                + self.expected@ + "` and the document says "@ + match self.found {
                Some(id) => "`"@ + id@ + "`"@,
                None => "there is no such operation"@,
            },
    {
        let mut text: Vec<char> = Vec::new();
        append_str(&mut text, "the document and the generated inventory disagree at operation ");
        let digits = crate::text::decimal_of(self.position as u128);
        crate::text::append_chars(&mut text, digits.as_slice());
        append_str(&mut text, ": the inventory says `");
        append_str(&mut text, self.expected.as_str());
        append_str(&mut text, "` and the document says ");
        match &self.found {
            Some(id) => {
                append_str(&mut text, "`");
                append_str(&mut text, id.as_str());
                append_str(&mut text, "`");
            },
            None => append_str(&mut text, "there is no such operation"),
        }
        string_of(text.as_slice())
    }
}

/// Every gate every operation names, in document order, repeats included.
pub open spec fn gate_list(ops: Seq<Operation>) -> Seq<Seq<char>>
    decreases ops.len(),
{
    if ops.len() == 0 {
        seq![]
    } else {
        gate_list(ops.drop_last()) + ops.last().gates@.map_values(|g: Gate| g@)
    }
}

/// `s` with every item after its first appearance dropped.
pub open spec fn first_appearances<T>(s: Seq<T>) -> Seq<T>
    decreases s.len(),
{
    if s.len() == 0 {
        seq![]
    } else {
        let before = first_appearances(s.drop_last());
        if before.contains(s.last()) {
            before
        } else {
            before.push(s.last())
        }
    }
}

/// Whether `op` stands behind a gate spelled `gate`.
pub open spec fn names_gate(op: Operation, gate: Seq<char>) -> bool {
    exists|i: int| 0 <= i < op.gates@.len() && (#[trigger] op.gates@[i])@ == gate
}

/// The operations of `ops` that stand behind a gate spelled `gate`, in order.
pub open spec fn gated(ops: Seq<Operation>, gate: Seq<char>) -> Seq<Operation> {
    ops.filter(|op: Operation| names_gate(op, gate))
}

/// Whether one inventory row names `op`.
pub open spec fn row_names(op: Operation, row: (&str, &str, &str)) -> bool {
    op.id@ == row.0@ && method_name(op.method) == row.1@ && op.path@ == row.2@
}

/// Whether the first `n` rows of the inventory each name the operation at
/// their position.
pub open spec fn rows_match(ops: Seq<Operation>, rows: Seq<(&str, &str, &str)>, n: int) -> bool {
    forall|j: int| 0 <= j < n ==> j < ops.len() && row_names(ops[j], #[trigger] rows[j])
}

impl Document {
    /// The server the document names first. A caller may override it.
    pub fn base(&self) -> (r: &Base)
        ensures
            *r == self.base,
    {
        &self.base
    }

    /// The word this CLI confirms a write with.
    pub fn commit(&self) -> (r: &str)
        ensures
            r@ == self.commit@,
    {
        self.commit.as_str()
    }

    /// Every operation, in document order, one at a time.
    pub fn iter(&self) -> (r: std::slice::Iter<'_, Operation>)
        ensures
            vstd::std_specs::iter::IteratorSpec::remaining(&r) == self.ops@.as_ref(),
    {
        let ops = self.ops.as_slice();
        proof {
            vstd::std_specs::slice::axiom_spec_slice_iter(ops);
        }
        ops.iter()
    }

    /// Every operation, in document order. The order is the one a generated
    /// inventory is emitted in, which is what [`Document::matches`] checks.
    pub fn operations(&self) -> (r: &[Operation])
        ensures
            r@ == self.ops@,
    {
        self.ops.as_slice()
    }

    /// By `operationId`, as the document spells it: the first, where two
    /// share one.
    pub fn get(&self, operation_id: &str) -> (r: Option<&Operation>)
        ensures
            r matches Some(op) ==> exists|i: int|
                0 <= i < self.ops@.len() && self.ops@[i] == *op && op.id@ == operation_id@
                    && forall|j: int| 0 <= j < i ==> (#[trigger] self.ops@[j]).id@ != operation_id@,
            r is None ==> forall|j: int|
                0 <= j < self.ops@.len() ==> (#[trigger] self.ops@[j]).id@ != operation_id@,
    {
        let want = chars_of(operation_id);
        let mut i: usize = 0;
        while i < self.ops.len()
            invariant
                i <= self.ops@.len(),
                want@ == operation_id@,
                forall|j: int| 0 <= j < i ==> (#[trigger] self.ops@[j]).id@ != operation_id@,
            decreases self.ops.len() - i,
        {
            let id = chars_of(self.ops[i].id.as_str());
            if crate::text::same_chars(id.as_slice(), want.as_slice()) {
                return Some(&self.ops[i]);
            }
            i += 1;
        }
        None
    }

    /// By the two names the user types, `<group> <command>`: the first, where
    /// two share them.
    pub fn by_command(&self, group: &str, command: &str) -> (r: Option<&Operation>)
        ensures
            r matches Some(op) ==> exists|i: int|
                0 <= i < self.ops@.len() && self.ops@[i] == *op && op.group@ == group@
                    && op.command@ == command@ && forall|j: int|
                    0 <= j < i ==> !((#[trigger] self.ops@[j]).group@ == group@
                        && self.ops@[j].command@ == command@),
            r is None ==> forall|j: int|
                0 <= j < self.ops@.len() ==> !((#[trigger] self.ops@[j]).group@ == group@
                    && self.ops@[j].command@ == command@),
    {
        let want_group = chars_of(group);
        let want_command = chars_of(command);
        let mut i: usize = 0;
        while i < self.ops.len()
            invariant
                i <= self.ops@.len(),
                want_group@ == group@,
                want_command@ == command@,
                forall|j: int|
                    0 <= j < i ==> !((#[trigger] self.ops@[j]).group@ == group@
                        && self.ops@[j].command@ == command@),
            decreases self.ops.len() - i,
        {
            let g = chars_of(self.ops[i].group.as_str());
            let c = chars_of(self.ops[i].command.as_str());
            if crate::text::same_chars(g.as_slice(), want_group.as_slice())
                && crate::text::same_chars(c.as_slice(), want_command.as_slice()) {
                return Some(&self.ops[i]);
            }
            i += 1;
        }
        None
    }

    /// Every gate any operation in this document names, once each and in
    /// document order.
    pub fn gates(&self) -> (r: Vec<&Gate>)
        ensures
            r@.map_values(|g: &Gate| g@) == first_appearances(gate_list(self.ops@)),
    {
        let mut named: Vec<&Gate> = Vec::new();
        let mut i: usize = 0;
        while i < self.ops.len()
            invariant
                i <= self.ops@.len(),
                named@.map_values(|g: &Gate| g@) == first_appearances(
                    gate_list(self.ops@.take(i as int)),
                ),
            decreases self.ops.len() - i,
        {
            let gates = self.ops[i].gates.as_slice();
            let ghost before = gate_list(self.ops@.take(i as int));
            let mut k: usize = 0;
            while k < gates.len()
                invariant
                    k <= gates@.len(),
                    gates@ == self.ops@[i as int].gates@,
                    named@.map_values(|g: &Gate| g@) == first_appearances(
                        before + gates@.take(k as int).map_values(|g: Gate| g@),
                    ),
                decreases gates.len() - k,
            {
                let gate = &gates[k];
                let ghost list = before + gates@.take(k as int).map_values(|g: Gate| g@);
                let seen = contains_gate(&named, gate);
                if !seen {
                    named.push(gate);
                }
                proof {
                    let next = before + gates@.take(k + 1).map_values(|g: Gate| g@);
                    assert(next.drop_last() =~= list);
                    assert(next.last() == gate@);
                    assert(named@.map_values(|g: &Gate| g@) =~= first_appearances(next));
                }
                k += 1;
            }
            proof {
                assert(self.ops@.take(i + 1).drop_last() =~= self.ops@.take(i as int));
                assert(gates@.take(gates@.len() as int) =~= gates@);
                assert(gate_list(self.ops@.take(i + 1)) =~= before + gates@.map_values(
                    |g: Gate| g@,
                ));
            }
            i += 1;
        }
        assert(self.ops@.take(self.ops@.len() as int) =~= self.ops@);
        named
    }

    /// Every operation standing behind one gate, in document order.
    pub fn gated_by(&self, gate: &str) -> (r: Vec<&Operation>)
        ensures
            r@.map_values(|op: &Operation| *op) == gated(self.ops@, gate@),
    {
        let want = chars_of(gate);
        let ghost pred = |op: Operation| names_gate(op, gate@);
        let mut out: Vec<&Operation> = Vec::new();
        let mut i: usize = 0;
        while i < self.ops.len()
            invariant
                i <= self.ops@.len(),
                want@ == gate@,
                pred == (|op: Operation| names_gate(op, gate@)),
                out@.map_values(|op: &Operation| *op) == self.ops@.take(i as int).filter(pred),
            decreases self.ops.len() - i,
        {
            let op = &self.ops[i];
            let mut named = false;
            let mut k: usize = 0;
            while k < op.gates.len()
                invariant
                    k <= op.gates@.len(),
                    want@ == gate@,
                    named == exists|j: int| 0 <= j < k && (#[trigger] op.gates@[j])@ == gate@,
                decreases op.gates.len() - k,
            {
                let here = chars_of(op.gates[k].as_str());
                if crate::text::same_chars(here.as_slice(), want.as_slice()) {
                    named = true;
                }
                k += 1;
            }
            proof {
                reveal_with_fuel(Seq::filter, 1);
                assert(self.ops@.take(i + 1).drop_last() =~= self.ops@.take(i as int));
            }
            if named {
                out.push(op);
            }
            proof {
                assert(out@.map_values(|op: &Operation| *op) =~= self.ops@.take(i + 1).filter(
                    pred,
                ));
            }
            i += 1;
        }
        assert(self.ops@.take(self.ops@.len() as int) =~= self.ops@);
        out
    }

    /// Check this document against a generated `(operationId, method, path)`
    /// inventory, row by row and in order.
    ///
    /// A caller that has run this may index [`Document::operations`] by the
    /// inventory's own positions: every row named an operation, and every
    /// operation was named by a row.
    pub fn matches(&self, inventory: &[(&str, &str, &str)]) -> (r: Result<(), DriftError>)
        ensures
            r is Ok <==> inventory@.len() == self.ops@.len() && rows_match(
                self.ops@,
                inventory@,
                inventory@.len() as int,
            ),
            r matches Err(e) ==> {
                let k = e.position as int;
                &&& k <= inventory@.len()
                &&& rows_match(self.ops@, inventory@, k)
                &&& k < inventory@.len() ==> {
                    &&& !(k < self.ops@.len() && row_names(self.ops@[k], inventory@[k]))
                    &&& e.expected@ == inventory@[k].0@
                }
                &&& k == inventory@.len() ==> e.expected@ == "nothing after it"@
                &&& e.found matches Some(id) ==> k < self.ops@.len() && id@ == self.ops@[k].id@
                &&& e.found is None ==> k >= self.ops@.len()
            },
    {
        let mut position: usize = 0;
        while position < inventory.len()
            invariant
                position <= inventory@.len(),
                rows_match(self.ops@, inventory@, position as int),
            decreases inventory.len() - position,
        {
            let (id, method, path) = inventory[position];
            let named = position < self.ops.len() && crate::text::str_is(
                self.ops[position].id.as_str(),
                id,
            ) && crate::text::str_is(self.ops[position].method.as_str(), method)
                && crate::text::str_is(self.ops[position].path.as_str(), path);
            if !named {
                return Err(DriftError {
                    position,
                    expected: id.to_owned(),
                    found: self.found_at(position),
                });
            }
            position += 1;
        }
        if inventory.len() < self.ops.len() {
            return Err(DriftError {
                position: inventory.len(),
                expected: "nothing after it".to_owned(),
                found: self.found_at(inventory.len()),
            });
        }
        proof {
            if inventory@.len() > 0 {
                let last = inventory@.len() - 1;
                assert(position == inventory@.len());
                assert(rows_match(self.ops@, inventory@, inventory@.len() as int));
                let row = inventory@[last];
                assert(last < self.ops@.len());
            }
        }
        Ok(())
    }

    /// The `operationId` at `position`, if there is an operation there.
    fn found_at(&self, position: usize) -> (r: Option<String>)
        ensures
            r matches Some(id) ==> position < self.ops@.len() && id@ == self.ops@[position as int].id@,
            r is None ==> position >= self.ops@.len(),
    {
        if position < self.ops.len() {
            Some(self.ops[position].id.clone())
        } else {
            None
        }
    }
}

/// Whether a gate spelled like `gate` is among `named`.
fn contains_gate(named: &Vec<&Gate>, gate: &Gate) -> (r: bool)
    ensures
        r == named@.map_values(|g: &Gate| g@).contains(gate@),
{
    let want = chars_of(gate.as_str());
    let mut i: usize = 0;
    while i < named.len()
        invariant
            i <= named@.len(),
            want@ == gate@,
            forall|j: int| 0 <= j < i ==> (#[trigger] named@[j])@ != gate@,
        decreases named.len() - i,
    {
        let here = chars_of(named[i].as_str());
        if crate::text::same_chars(here.as_slice(), want.as_slice()) {
            assert(named@.map_values(|g: &Gate| g@)[i as int] == gate@);
            return true;
        }
        i += 1;
    }
    false
}

} // verus!
