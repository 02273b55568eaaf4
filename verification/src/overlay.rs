//! Applying the adopter's corrections to the vendor's document.
//!
//! [`parse`] reads a document into the value a correction edits, and [`apply`]
//! lays one Overlay over it. A chain of the two is how a document with several
//! layers of correction is assembled; everything downstream sees one corrected
//! document.
//!
//! Layers are ordinary Overlay 1.1 documents in an order the caller chose. This
//! module knows nothing about what any of them is for.

use vstd::prelude::*;

use crate::json::Json;
use crate::text::{append_str, is_space, space, string_of};

verus! {

/// An error `serde_yaml_ng` reports for text it could not read.
#[verifier::external_type_specification]
#[verifier::external_body]
pub struct ExYamlError(serde_yaml_ng::Error);

/// An Overlay 1.1 document, as `roas_overlay` reads one.
#[verifier::external_type_specification]
#[verifier::external_body]
pub struct ExOverlayDocument(roas_overlay::v1_1::Overlay);

/// What `roas_overlay` found wrong with an Overlay's shape.
#[verifier::external_type_specification]
#[verifier::external_body]
pub struct ExValidationError(roas_overlay::validation::Error);

/// Why `roas_overlay` could not carry out an Overlay's actions.
#[verifier::external_type_specification]
#[verifier::external_body]
pub struct ExApplyError(roas_overlay::apply::ApplyError);

/// The Overlay, or the document it is applied to, is not usable.
#[derive(Debug)]
pub enum OverlayError {
    /// The OpenAPI document is not valid YAML or JSON.
    Document(serde_yaml_ng::Error),
    /// The Overlay document is not valid YAML or JSON.
    Syntax(serde_yaml_ng::Error),
    /// The Overlay is not a valid Overlay 1.1 document.
    Invalid(roas_overlay::validation::Error),
    /// The Overlay does not apply.
    Apply(roas_overlay::apply::ApplyError),
}

/// Whether `serde_yaml_ng` reads `text` as a JSON value: YAML or JSON, in
/// `serde_yaml_ng`'s own grammar.
pub uninterp spec fn reads_as_value(text: Seq<char>) -> bool;

/// Whether `serde_yaml_ng` reads `text` as an Overlay 1.1 document's fields.
pub uninterp spec fn reads_as_overlay(text: Seq<char>) -> bool;

/// The JSON `serde_yaml_ng` reads `text` as.
pub uninterp spec fn value_read(text: Seq<char>) -> Json;

/// Whether the Overlay `serde_yaml_ng` reads `text` as passes
/// `roas_overlay`'s check against the 1.1 schema.
pub uninterp spec fn overlay_valid(text: Seq<char>) -> bool;

/// What the actions of the Overlay `serde_yaml_ng` reads `text` as make of
/// `doc`, each required to match something; `None` where one refuses.
pub uninterp spec fn overlaid(doc: Json, text: Seq<char>) -> Option<Json>;

/// The YAML text `serde_yaml_ng` writes `doc` as, or `None` where it refuses.
pub uninterp spec fn yaml_written(doc: Json) -> Option<Seq<char>>;

/// `serde_yaml_ng::from_str` into a `serde_json::Value`, moved into [`Json`].
/// Whether it succeeds, and what it reads, depend on the text alone.
#[verifier::external_body]
fn value_from_yaml(text: &str) -> (r: Result<Json, serde_yaml_ng::Error>)
    ensures
        r is Ok <==> reads_as_value(text@),
        r matches Ok(j) ==> j == value_read(text@),
{
    serde_yaml_ng::from_str::<serde_json::Value>(text).map(|v| crate::openapi::json_of(&v))
}

/// An Overlay read from a file's contents, kept beside the text it was read
/// from.
pub struct Layer {
    source: String,
    overlay: roas_overlay::v1_1::Overlay,
}

impl Layer {
    /// The text this Overlay was read from.
    pub closed spec fn source(&self) -> Seq<char> {
        self.source@
    }
}

/// `serde_yaml_ng::from_str` into an Overlay 1.1 document, kept with the
/// text. Whether it succeeds is named and depends on the text alone.
#[verifier::external_body]
fn overlay_from_yaml(text: &str) -> (r: Result<Layer, serde_yaml_ng::Error>)
    ensures
        r is Ok <==> reads_as_overlay(text@),
        r matches Ok(l) ==> l.source() == text@,
{
    serde_yaml_ng::from_str(text).map(|overlay| Layer { source: text.to_owned(), overlay })
}

/// `Validate::validate` with no option set: the Overlay's shape checked
/// against the 1.1 schema. What it finds is named, over the Overlay's text.
#[verifier::external_body]
fn validate_overlay(layer: &Layer) -> (r: Result<(), roas_overlay::validation::Error>)
    ensures
        r is Ok <==> overlay_valid(layer.source()),
{
    roas_overlay::validation::Validate::validate(&layer.overlay, Default::default())
}

/// `Apply::apply` with `ErrorOnZeroMatch` on `doc` as `serde_json` holds it:
/// every action carried out, an action that selects nothing an error, and
/// the result moved back into [`Json`]. What the actions make of `doc` is
/// named, over the document and the Overlay's text.
#[verifier::external_body]
fn apply_actions(layer: &Layer, doc: &Json) -> (r: Result<Json, roas_overlay::apply::ApplyError>)
    ensures
        r is Ok <==> overlaid(*doc, layer.source()) is Some,
        r matches Ok(j) ==> overlaid(*doc, layer.source()) == Some(j),
{
    let mut value = crate::json::to_value(doc);
    let options = roas_overlay::apply::ApplyOptions::ErrorOnZeroMatch.into();
    roas_overlay::apply::Apply::apply(&layer.overlay, &mut value, options).map(|_| crate::openapi::json_of(&value))
}

/// `serde_yaml_ng::to_string` of `doc` as `serde_json` holds it. Which text
/// that is, is named and not stated here.
#[verifier::external_body]
fn yaml_text(doc: &Json) -> (r: Result<String, serde_yaml_ng::Error>)
    ensures
        r is Ok <==> yaml_written(*doc) is Some,
        r matches Ok(t) ==> yaml_written(*doc) == Some(t@),
{
    serde_yaml_ng::to_string(&crate::json::to_value(doc))
}

/// The corrected document as the YAML text the bless step writes.
pub fn to_yaml(doc: &Json) -> (r: Result<String, serde_yaml_ng::Error>)
    ensures
        r is Ok <==> yaml_written(*doc) is Some,
        r matches Ok(t) ==> yaml_written(*doc) == Some(t@),
{
    yaml_text(doc)
}

/// `serde_yaml_ng::Error`'s `Display`: the reason and, where it has one, the place.
#[verifier::external_body]
fn yaml_error_text(e: &serde_yaml_ng::Error) -> String {
    e.to_string()
}

/// `validation::Error`'s `Display`: each complaint `roas_overlay` gathered.
#[verifier::external_body]
fn validation_error_text(e: &roas_overlay::validation::Error) -> String {
    e.to_string()
}

/// `ApplyError`'s `Display`: the action that failed and why.
#[verifier::external_body]
fn apply_error_text(e: &roas_overlay::apply::ApplyError) -> String {
    e.to_string()
}

/// The words each kind of failure is reported under, before its reason.
pub open spec fn overlay_error_lead(e: OverlayError) -> Seq<char> {
    match e {
        OverlayError::Document(_) => "the OpenAPI document is not valid YAML or JSON: "@,
        OverlayError::Syntax(_) => "the Overlay document is not valid YAML or JSON: "@,
        OverlayError::Invalid(_) => "the Overlay is not a valid Overlay 1.1 document: "@,
        OverlayError::Apply(_) => "the Overlay does not apply: "@,
    }
}

impl OverlayError {
    /// The sentence this error is reported in: what was unusable, then the
    /// reason the outside crate gave.
    pub fn message(&self) -> (out: String)
        ensures
            out@.len() >= overlay_error_lead(*self).len(),
            out@.take(overlay_error_lead(*self).len() as int) == overlay_error_lead(*self),
    {
        let mut text: Vec<char> = Vec::new();
        let lead: &str;
        let reason: String;
        match self {
            OverlayError::Document(e) => {
                lead = "the OpenAPI document is not valid YAML or JSON: ";
                reason = yaml_error_text(e);
            },
            OverlayError::Syntax(e) => {
                lead = "the Overlay document is not valid YAML or JSON: ";
                reason = yaml_error_text(e);
            },
            OverlayError::Invalid(e) => {
                lead = "the Overlay is not a valid Overlay 1.1 document: ";
                reason = validation_error_text(e);
            },
            OverlayError::Apply(e) => {
                lead = "the Overlay does not apply: ";
                reason = apply_error_text(e);
            },
        }
        proof {
            reveal_strlit("the OpenAPI document is not valid YAML or JSON: ");
            reveal_strlit("the Overlay document is not valid YAML or JSON: ");
            reveal_strlit("the Overlay is not a valid Overlay 1.1 document: ");
            reveal_strlit("the Overlay does not apply: ");
        }
        assert(lead@ == overlay_error_lead(*self));
        append_str(&mut text, lead);
        let ghost before = text@;
        append_str(&mut text, reason.as_str());
        assert(text@.take(lead@.len() as int) =~= before);
        string_of(text.as_slice())
    }
}

/// Whether `s` holds nothing but whitespace, so that it trims to nothing.
pub open spec fn blank(s: Seq<char>) -> bool {
    forall|i: int| 0 <= i < s.len() ==> is_space(#[trigger] s[i])
}

/// Whether `s` is blank.
fn is_blank(s: &str) -> (r: bool)
    ensures
        r == blank(s@),
{
    let chars = crate::text::chars_of(s);
    let mut i: usize = 0;
    while i < chars.len()
        invariant
            chars@ == s@,
            i <= chars.len(),
            forall|j: int| 0 <= j < i ==> is_space(chars@[j]),
        decreases chars.len() - i,
    {
        if !space(chars[i]) {
            assert(!is_space(s@[i as int]));
            return false;
        }
        i += 1;
    }
    true
}

/// Read a document — YAML or JSON, as the vendor ships it — into the value a
/// correction is applied to.
pub fn parse(document: &str) -> (r: Result<Json, OverlayError>)
    ensures
        r is Ok <==> reads_as_value(document@),
        r matches Ok(j) ==> j == value_read(document@),
        r matches Err(e) ==> e is Document,
{
    match value_from_yaml(document) {
        Ok(value) => Ok(value),
        Err(e) => Err(OverlayError::Document(e)),
    }
}

/// What one layer makes of a document: a blank layer leaves it alone; any
/// other is read, checked against the 1.1 schema and applied, and `None`
/// where one of the three refuses.
pub open spec fn layer_applied(doc: Json, text: Seq<char>) -> Option<Json> {
    if blank(text) {
        Some(doc)
    } else if reads_as_overlay(text) && overlay_valid(text) {
        overlaid(doc, text)
    } else {
        None
    }
}

/// What a list of layers makes of a document, one after another in order,
/// each over what the ones before it left.
pub open spec fn layers_applied(doc: Json, layers: Seq<Seq<char>>) -> Option<Json>
    decreases layers.len(),
{
    if layers.len() == 0 {
        Some(doc)
    } else {
        match layers_applied(doc, layers.drop_last()) {
            Some(d) => layer_applied(d, layers.last()),
            None => None,
        }
    }
}

/// Why one layer refuses: it does not read, it reads but is no valid
/// Overlay 1.1 document, or one of its actions refuses.
pub open spec fn layer_refusal(doc: Json, text: Seq<char>, e: OverlayError) -> bool {
    &&& !blank(text)
    &&& !reads_as_overlay(text) ==> e is Syntax
    &&& reads_as_overlay(text) && !overlay_valid(text) ==> e is Invalid
    &&& reads_as_overlay(text) && overlay_valid(text) ==> e is Apply && overlaid(doc, text) is None
}

/// Lay one Overlay over the document as it stands, and hand back the result.
///
/// `overlay` is a file's contents, YAML or JSON. A blank one leaves the
/// document alone, so a layer an adoption has not written yet costs nothing.
/// Otherwise the Overlay is read, checked against the 1.1 schema and applied
/// with every action required to match something: an action whose target no
/// longer matches is an error here rather than a silent no-op.
pub fn apply(doc: Json, overlay: &str) -> (r: Result<Json, OverlayError>)
    ensures
        r is Ok <==> layer_applied(doc, overlay@) is Some,
        r matches Ok(v) ==> layer_applied(doc, overlay@) == Some(v),
        r matches Err(e) ==> layer_refusal(doc, overlay@, e),
{
    if is_blank(overlay) {
        return Ok(doc);
    }
    let layer = match overlay_from_yaml(overlay) {
        Ok(layer) => layer,
        Err(e) => return Err(OverlayError::Syntax(e)),
    };
    match validate_overlay(&layer) {
        Ok(()) => {},
        Err(e) => return Err(OverlayError::Invalid(e)),
    }
    match apply_actions(&layer, &doc) {
        Ok(next) => Ok(next),
        Err(e) => Err(OverlayError::Apply(e)),
    }
}

/// Which input of a correction refused, and why: the document itself at `0`,
/// the `k`th layer at `k + 1`.
#[derive(Debug)]
pub struct LayerError {
    pub at: usize,
    pub source: OverlayError,
}

/// The texts of a list of layers.
pub open spec fn texts(layers: Seq<String>) -> Seq<Seq<char>> {
    layers.map_values(|l: String| l@)
}

/// Lay every layer over the document, one after another in the order given,
/// each over what the ones before it left. The first input that refuses
/// stops the correction, and is the one named.
pub fn layered(document: &str, layers: &[String]) -> (r: Result<Json, LayerError>)
    ensures
        r is Ok <==> reads_as_value(document@) && layers_applied(value_read(document@), texts(layers@)) is Some,
        r matches Ok(v) ==> layers_applied(value_read(document@), texts(layers@)) == Some(v),
        r matches Err(e) ==> e.at <= layers@.len(),
        r matches Err(e) ==> (e.at == 0 <==> !reads_as_value(document@)),
        r matches Err(e) ==> (e.at == 0 ==> e.source is Document),
        r matches Err(e) ==> (e.at > 0 ==> (layers_applied(value_read(document@), texts(layers@).take(e.at - 1)) matches Some(d)
            && layer_refusal(d, layers@[e.at - 1]@, e.source))),
{
    let mut doc = match parse(document) {
        Ok(doc) => doc,
        Err(source) => return Err(LayerError { at: 0, source }),
    };
    let ghost start = value_read(document@);
    let ghost all = texts(layers@);
    let mut i: usize = 0;
    while i < layers.len()
        invariant
            i <= layers@.len(),
            reads_as_value(document@),
            start == value_read(document@),
            all == texts(layers@),
            layers_applied(start, all.take(i as int)) == Some(doc),
        decreases layers.len() - i,
    {
        proof {
            assert(all.take(i + 1).drop_last() =~= all.take(i as int));
            assert(all.take(i + 1).last() == layers@[i as int]@);
        }
        doc = match apply(doc, layers[i].as_str()) {
            Ok(next) => next,
            Err(source) => {
                proof {
                    assert(layers_applied(start, all.take(i + 1)) is None);
                    lemma_refusal_stays(start, all, i as int + 1);
                }
                return Err(LayerError { at: i + 1, source });
            },
        };
        i += 1;
    }
    proof {
        assert(all.take(layers@.len() as int) =~= all);
    }
    Ok(doc)
}

/// Once a layer refuses, every longer run of layers refuses too.
pub proof fn lemma_refusal_stays(doc: Json, layers: Seq<Seq<char>>, n: int)
    requires
        0 <= n <= layers.len(),
        layers_applied(doc, layers.take(n)) is None,
    ensures
        layers_applied(doc, layers) is None,
    decreases layers.len() - n,
{
    if n < layers.len() {
        assert(layers.take(n + 1).drop_last() =~= layers.take(n));
        lemma_refusal_stays(doc, layers, n + 1);
    } else {
        assert(layers.take(n) =~= layers);
    }
}

} // verus!
