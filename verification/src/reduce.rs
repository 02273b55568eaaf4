//! Reading an OpenAPI document into the model it reduces to: the words the
//! CLI brings to a reduction, and the rules a reduction holds a document to.

use vstd::prelude::*;

use crate::json::Json;
use crate::model::{
    sentence_of, Effect, Gate, Join, Location, Method, Operation, Param, Shape, Unsupported, COMMIT,
    FIELD_PART, FILE_PART, JSON_BODY, JSON_BODY_TEMPLATE, RAW_BODY,
};
use crate::names::{kebab_of, spelled, CommandName, NameError};
use crate::openapi::{ParamIn, PathStyle, QueryStyle};
use crate::required::PhantomKeys;
use crate::schema::RefError;
use crate::text::{append_chars, append_str, chars_of, str_is, string_of};

verus! {

/// `--help`, which clap declares on every subcommand whether or not anyone
/// asked. Nothing here can move it, so it is a name the confirmation may not
/// take.
pub const HELP: &'static str = "help";

/// One of the five flags that carry a request's body, spent by every
/// subcommand before the document has a say.
pub open spec fn transport_word(word: Seq<char>) -> bool {
    word == JSON_BODY@ || word == JSON_BODY_TEMPLATE@ || word == RAW_BODY@ || word == FILE_PART@
        || word == FIELD_PART@
}

/// Whether `word` is one of the five flags that carry a body.
pub fn is_transport(word: &str) -> (r: bool)
    ensures
        r == transport_word(word@),
{
    str_is(word, JSON_BODY) || str_is(word, JSON_BODY_TEMPLATE) || str_is(word, RAW_BODY)
        || str_is(word, FILE_PART) || str_is(word, FIELD_PART)
}

/// Why a word cannot be the confirmation.
#[derive(Debug)]
pub enum ConfirmationError {
    /// Not a name a person could type as a flag.
    Spelling(NameError),
    /// A name some other flag on the same subcommand already wears. The others
    /// cannot move — a body has to be reachable and `--help` is clap's — so
    /// the confirmation is what gives way.
    Taken {
        /// The word both of them wanted.
        word: String,
    },
}

impl ConfirmationError {
    /// The sentence this refusal is reported in.
    pub fn message(&self) -> (out: String)
        ensures
            match self {
                ConfirmationError::Spelling(e) => out@ == "the "@ + e.origin@ + " `"@ + e.raw@
                    + "` does not kebab-case into [a-z0-9-]"@,
                ConfirmationError::Taken { word } => out@ == "`"@ + word@
                    + "` is a flag every subcommand already declares, so it cannot also be the word this CLI confirms with"@,
            },
    {
        match self {
            ConfirmationError::Spelling(e) => e.message(),
            ConfirmationError::Taken { word } => {
                let mut text: Vec<char> = Vec::new();
                append_str(&mut text, "`");
                append_str(&mut text, word.as_str());
                append_str(
                    &mut text,
                    "` is a flag every subcommand already declares, so it cannot also be the word this CLI confirms with",
                );
                string_of(text.as_slice())
            },
        }
    }
}

/// What the CLI brings to a reduction, as against what the document brings.
///
/// A type rather than a bare argument, so that a caller reading
/// `Loading::new().commit("yes")?` at the call site can see which of the two
/// the word belongs to.
#[derive(Debug, Clone)]
pub struct Loading {
    commit: String,
}

impl Loading {
    /// The word this CLI confirms a write with.
    pub closed spec fn confirmation(self) -> Seq<char> {
        self.commit@
    }

    /// The defaults: `--commit` confirms a write.
    pub fn new() -> (r: Self)
        ensures
            r.confirmation() == COMMIT@,
    {
        Loading { commit: COMMIT.to_owned() }
    }

    /// Confirm writes with this word instead, spelled without the `--`.
    ///
    /// Held to the one spelling rule every flag is held to, and refused rather
    /// than mangled: a confirmation somebody cannot type is a confirmation
    /// nobody gives. Refused too where the word is one a subcommand already
    /// declares — a flag that carries the body, or the `--help` clap writes
    /// itself.
    pub fn commit(self, word: &str) -> (r: Result<Self, ConfirmationError>)
        ensures
            r is Ok <==> kebab_of(word@).len() > 0 && !transport_word(kebab_of(word@))
                && kebab_of(word@) != HELP@,
            r matches Ok(l) ==> l.confirmation() == kebab_of(word@),
            r matches Err(ConfirmationError::Spelling(e)) <==> kebab_of(word@).len() == 0,
            r matches Err(ConfirmationError::Spelling(e)) ==> e.origin@ == "confirmation"@ && e.raw@
                == word@,
            r matches Err(ConfirmationError::Taken { word: w }) ==> w@ == kebab_of(word@),
    {
        let spelling = match spelled("confirmation", word) {
            Ok(spelling) => spelling,
            Err(e) => return Err(ConfirmationError::Spelling(e)),
        };
        if is_transport(spelling.as_str()) || str_is(spelling.as_str(), HELP) {
            return Err(ConfirmationError::Taken { word: spelling });
        }
        Ok(Loading { commit: spelling })
    }

    /// The word this CLI confirms a write with, as it was chosen.
    pub fn word(&self) -> (r: &str)
        ensures
            r@ == self.confirmation(),
    {
        self.commit.as_str()
    }
}

impl Default for Loading {
    fn default() -> (r: Self)
        ensures
            r.confirmation() == COMMIT@,
    {
        Loading::new()
    }
}

/// HTTP cannot say "this GET writes", so the document has to.
pub const WRITES: &'static str = "x-cli-writes";

/// The command name to mount an operation under, where the path spells one
/// badly — or where two operations reduce to the same name.
pub const COMMAND: &'static str = "x-cli-command";

/// The group to mount an operation under, where the path's own segment is
/// not the resource the operation belongs to.
pub const GROUP: &'static str = "x-cli-group";

/// The hazards an operation stands behind by name, beside the write check
/// itself.
pub const GATES: &'static str = "x-cli-gates";

/// The other parameters a parameter needs beside it, by wire name.
pub const REQUIRES: &'static str = "x-cli-requires";

/// What a refusal calls the request body: the key it is written under.
pub const BODY: &'static str = "requestBody";

/// Why `http` refused a server URL.
#[verifier::external_type_specification]
#[verifier::external_body]
pub struct ExInvalidUri(http::uri::InvalidUri);

/// Reducing an OpenAPI document to operations failed.
#[derive(Debug)]
pub enum LoadError {
    /// The document, or an Overlay over it, did not read or did not apply.
    Overlay(crate::overlay::OverlayError),
    /// The overlaid document is not an OpenAPI 3 document.
    Shape(serde_json::Error),
    NoServer,
    ServerUrl { url: String, source: http::uri::InvalidUri },
    NoOperationId { method: String, path: String },
    Name(NameError),
    Override { op: String, key: &'static str },
    DuplicateCommand { group: CommandName, command: CommandName, first: String, second: String },
    GateList { op: String, key: &'static str },
    ReservedGate { op: String, gate: Gate },
    /// A gate spelled like the confirmation: answering a gate would answer
    /// the confirmation, which is the one thing a gate is there to make
    /// impossible.
    GateIsTheConfirmation { op: String, gate: Gate },
    DuplicateGate { op: String, gate: Gate },
    /// A document name that wanted the word a gate already spends. Refused
    /// rather than renamed: a flag carrying data must never be able to answer
    /// a gate.
    GateTakenByName { op: String, what: &'static str, name: String, gate: String },
    /// The same, for the confirmation.
    CommitTakenByName { op: String, what: &'static str, name: String, commit: String },
    /// A read that names a gate: a read is sent on sight, so there is nothing
    /// for a gate to hold back.
    GatedRead { op: String, gate: Gate },
    /// A `required` naming a key nothing describes.
    Phantom(PhantomKeys),
    /// A `$ref` met where there is no value yet to name it beside.
    Reference(RefError),
    /// The same failure met under one value of one operation.
    Unresolvable { op: String, name: String, source: RefError },
    /// A parameter this CLI cannot supply that the document says a caller
    /// must.
    Parameter { op: String, name: String, why: Unsupported },
    /// A `requestBody` whose `content` key names no media type.
    MediaType { op: String, media_type: String },
    /// An `x-cli-requires` that is present and is not a list of names.
    RequiresList { op: String, name: String },
    /// A parameter that requires a name the operation declares no parameter
    /// under.
    RequiresUnknown { op: String, name: String, requires: String },
    /// A parameter that requires one this crate cannot put in a request.
    RequiresUnreachable { op: String, name: String, requires: String, why: Unsupported },
}

/// The extension an object carries under `key`: the first so named.
pub open spec fn extension_of(extensions: Seq<(String, Json)>, key: Seq<char>) -> Option<Json> {
    if exists|i: int| 0 <= i < extensions.len() && (#[trigger] extensions[i]).0@ == key {
        let i = choose|i: int|
            0 <= i < extensions.len() && (#[trigger] extensions[i]).0@ == key && forall|j: int|
                0 <= j < i ==> (#[trigger] extensions[j]).0@ != key;
        Some(extensions[i].1)
    } else {
        None
    }
}

/// The extension an object carries under `key`.
pub fn extension<'a>(extensions: &'a [(String, Json)], key: &str) -> (r: Option<&'a Json>)
    ensures
        match extension_of(extensions@, key@) {
            Some(v) => r matches Some(x) && *x == v,
            None => r is None,
        },
{
    let mut i: usize = 0;
    while i < extensions.len()
        invariant
            i <= extensions@.len(),
            forall|j: int| 0 <= j < i ==> (#[trigger] extensions@[j]).0@ != key@,
        decreases extensions.len() - i,
    {
        if str_is(extensions[i].0.as_str(), key) {
            proof {
                assert(extensions@[i as int].0@ == key@);
                let k = choose|k: int|
                    0 <= k < extensions@.len() && (#[trigger] extensions@[k]).0@ == key@ && forall|
                        j: int,
                    | 0 <= j < k ==> (#[trigger] extensions@[j]).0@ != key@;
                if k < i {
                    assert(extensions@[k].0@ != key@);
                } else if k > i {
                    assert(extensions@[i as int].0@ != key@);
                }
                assert(k == i);
            }
            return Some(&extensions[i].1);
        }
        i += 1;
    }
    None
}

/// The method OpenAPI names in lowercase; `get` for anything else.
pub open spec fn method_named(name: Seq<char>) -> Method {
    if name == "put"@ {
        Method::Put
    } else if name == "post"@ {
        Method::Post
    } else if name == "delete"@ {
        Method::Delete
    } else if name == "options"@ {
        Method::Options
    } else if name == "head"@ {
        Method::Head
    } else if name == "patch"@ {
        Method::Patch
    } else if name == "trace"@ {
        Method::Trace
    } else {
        Method::Get
    }
}

/// `PathItem::iter` yields only the eight methods OpenAPI names, lowercase.
pub fn method_of(name: &str) -> (r: Method)
    ensures
        r == method_named(name@),
{
    if str_is(name, "put") {
        Method::Put
    } else if str_is(name, "post") {
        Method::Post
    } else if str_is(name, "delete") {
        Method::Delete
    } else if str_is(name, "options") {
        Method::Options
    } else if str_is(name, "head") {
        Method::Head
    } else if str_is(name, "patch") {
        Method::Patch
    } else if str_is(name, "trace") {
        Method::Trace
    } else {
        Method::Get
    }
}

/// A GET the document marks as writing is a write; so is anything but a safe
/// method. Default-closed: the marker can only add writes, never remove them.
pub open spec fn effect_for(method: Method, extensions: Seq<(String, Json)>) -> Effect {
    if extension_of(extensions, WRITES@) == Some(Json::Bool(true)) {
        Effect::Write
    } else {
        match method {
            Method::Get | Method::Head | Method::Options | Method::Trace => Effect::Read,
            _ => Effect::Write,
        }
    }
}

/// Whether an operation writes.
pub fn effect_of(method: Method, extensions: &[(String, Json)]) -> (r: Effect)
    ensures
        r == effect_for(method, extensions@),
{
    match extension(extensions, WRITES) {
        Some(Json::Bool(true)) => return Effect::Write,
        _ => {},
    }
    match method {
        Method::Get | Method::Head | Method::Options | Method::Trace => Effect::Read,
        _ => Effect::Write,
    }
}

/// One `x-cli-` name the document offers: absent, a string, or something
/// this crate has no reading for.
pub fn named<'o>(extensions: &'o [(String, Json)], id: &str, key: &'static str) -> (r: Result<
    Option<&'o str>,
    LoadError,
>)
    ensures
        match extension_of(extensions@, key@) {
            None => r matches Ok(None),
            Some(Json::String(raw)) => r matches Ok(Some(s)) && s@ == raw@,
            Some(_) => r matches Err(LoadError::Override { op, key: k }) && op@ == id@ && k == key,
        },
{
    match extension(extensions, key) {
        None => Ok(None),
        Some(Json::String(raw)) => Ok(Some(raw.as_str())),
        Some(_) => Err(LoadError::Override { op: id.to_owned(), key }),
    }
}

/// Whether every item is a string.
pub open spec fn all_strings(items: Seq<Json>) -> bool {
    forall|i: int| 0 <= i < items.len() ==> (#[trigger] items[i]) is String
}

/// The texts of items that are all strings.
pub open spec fn texts(items: Seq<Json>) -> Seq<Seq<char>> {
    items.map_values(|j: Json| match j {
        Json::String(s) => s@,
        _ => Seq::<char>::empty(),
    })
}

/// The names a list-valued marker offers: none where it is absent, each
/// string of a list of strings, and a refusal for anything else.
pub open spec fn listed_names(value: Option<Json>) -> Option<Seq<Seq<char>>> {
    match value {
        None => Some(seq![]),
        Some(Json::Array(items)) => if all_strings(items@) {
            Some(texts(items@))
        } else {
            None
        },
        Some(_) => None,
    }
}

/// The strings of a list that holds only strings.
pub(crate) fn strings_of(items: &Vec<Json>) -> (r: Option<Vec<String>>)
    ensures
        all_strings(items@) ==> (r matches Some(v) && v@.map_values(|s: String| s@) == texts(items@)),
        !all_strings(items@) ==> r is None,
{
    let mut out: Vec<String> = Vec::new();
    let mut i: usize = 0;
    while i < items.len()
        invariant
            i <= items@.len(),
            out@.len() == i,
            forall|j: int| 0 <= j < i ==> (#[trigger] items@[j]) is String,
            forall|j: int| 0 <= j < i ==> (#[trigger] out@[j])@ == texts(items@)[j],
        decreases items.len() - i,
    {
        match &items[i] {
            Json::String(s) => out.push(s.clone()),
            _ => return None,
        }
        i += 1;
    }
    assert(out@.map_values(|s: String| s@) =~= texts(items@));
    Some(out)
}

/// The names one list-valued `x-cli-` marker offers, if it offers any; a
/// marker that is present and is not a list of names is refused rather than
/// passed over.
pub fn listed(extensions: &[(String, Json)], id: &str, key: &'static str) -> (r: Result<
    Vec<String>,
    LoadError,
>)
    ensures
        match listed_names(extension_of(extensions@, key@)) {
            Some(names) => r matches Ok(v) && v@.map_values(|s: String| s@) == names,
            None => r matches Err(LoadError::GateList { op, key: k }) && op@ == id@ && k == key,
        },
{
    match extension(extensions, key) {
        None => {
            let v: Vec<String> = Vec::new();
            assert(v@.map_values(|s: String| s@) =~= Seq::<Seq<char>>::empty());
            Ok(v)
        },
        Some(Json::Array(items)) => match strings_of(items) {
            Some(v) => Ok(v),
            None => Err(LoadError::GateList { op: id.to_owned(), key }),
        },
        Some(_) => Err(LoadError::GateList { op: id.to_owned(), key }),
    }
}

/// How a query parameter's list reaches the query, or the style this crate
/// does not write: `form` joins in pairs unless `explode: false`.
pub open spec fn query_join_for(style: QueryStyle, explode: Option<bool>) -> Result<Join, Seq<char>> {
    match style {
        QueryStyle::Form => Ok(
            match explode {
                Some(false) => Join::Commas,
                _ => Join::Pairs,
            },
        ),
        QueryStyle::SpaceDelimited => Err("spaceDelimited"@),
        QueryStyle::PipeDelimited => Err("pipeDelimited"@),
        QueryStyle::DeepObject => Err("deepObject"@),
    }
}

/// `form` is what a query parameter defaults to and `explode: true` is what
/// `form` defaults to, which is one field per value. The three other styles
/// name themselves rather than being written as `form`.
pub fn query_join(style: QueryStyle, explode: Option<bool>) -> (r: Result<Join, &'static str>)
    ensures
        match query_join_for(style, explode) {
            Ok(j) => r == Ok::<Join, &'static str>(j),
            Err(s) => r matches Err(x) && x@ == s,
        },
{
    match style {
        QueryStyle::Form => Ok(
            match explode {
                Some(false) => Join::Commas,
                _ => Join::Pairs,
            },
        ),
        QueryStyle::SpaceDelimited => Err("spaceDelimited"),
        QueryStyle::PipeDelimited => Err("pipeDelimited"),
        QueryStyle::DeepObject => Err("deepObject"),
    }
}

/// Where a parameter goes, and how a list of its values would reach it
/// there; `None` for a cookie, which this CLI does not send.
pub open spec fn sent_in_for(sent: ParamIn, explode: Option<bool>) -> Option<(Location, Result<Join, Seq<char>>)> {
    match sent {
        ParamIn::Query(style) => Some((Location::Query, query_join_for(style, explode))),
        ParamIn::Path(style) => Some(
            (
                Location::Path,
                match style {
                    PathStyle::Simple => Ok(Join::Commas),
                    PathStyle::Matrix => Err("matrix"@),
                    PathStyle::Label => Err("label"@),
                },
            ),
        ),
        ParamIn::Header => Some((Location::Header, Ok(Join::Commas))),
        ParamIn::Cookie => None,
    }
}

/// Where a parameter goes, and how a list of its values would reach it there.
pub fn sent_in(sent: ParamIn, explode: Option<bool>) -> (r: Option<(Location, Result<Join, &'static str>)>)
    ensures
        match sent_in_for(sent, explode) {
            Some((l, Ok(j))) => r == Some::<(Location, Result<Join, &'static str>)>((l, Ok(j))),
            Some((l, Err(style))) => r matches Some((x, Err(y))) && x == l && y@ == style,
            None => r is None,
        },
{
    match sent {
        ParamIn::Query(style) => Some((Location::Query, query_join(style, explode))),
        ParamIn::Path(style) => Some(
            (
                Location::Path,
                match style {
                    PathStyle::Simple => Ok(Join::Commas),
                    PathStyle::Matrix => Err("matrix"),
                    PathStyle::Label => Err("label"),
                },
            ),
        ),
        ParamIn::Header => Some((Location::Header, Ok(Join::Commas))),
        ParamIn::Cookie => None,
    }
}

} // verus!
