//! One operation plus values that satisfy it, and the request that falls out.
//!
//! [`Invocation::new`] is the only way to make one, and it validates: an
//! `Invocation` that exists names an operation, carries every required
//! parameter, carries nothing the operation does not declare, and holds a body
//! of the kind the operation asks for. [`Invocation::request`] is then a
//! rendering, not a decision — it can only fail on a base URL that is not a URL.

use vstd::prelude::*;

use vstd::utf8::encode_utf8;

use crate::json::{json_text, json_written};
use crate::model::{
    first_named, method_name, sentence_of, Base, Body, Join, Location, Method, Operation, Param, Shape,
    Unsupported,
};
use crate::multipart::{chosen, layout, strip_end, views};
use crate::scalar::{accepts, refusal, scalar_error_text, ScalarError};
use crate::text::{
    append_bytes, append_chars, append_str, bytes_of, chars_of, decimal, decimal_of, join_strings,
    joined, string_of,
};
use crate::values::{pair_view, Payload, Values};

verus! {

/// Values the document rejects for this operation.
#[derive(Debug)]
pub enum ValueError {
    MissingParam { op: String, name: String },
    UnknownParam { op: String, name: String },
    /// A value for a parameter no flag and no wrapper argument can carry.
    /// Dropping it silently would send a request the caller did not ask for.
    UnsupportedParam { op: String, name: String, why: Unsupported },
    /// Several values for a parameter the document declares one value for. The
    /// list the caller meant is not a list the document describes.
    RepeatedParam { op: String, name: String, given: usize },
    BadValue { op: String, name: String, source: ScalarError },
    MissingBody { op: String },
    UnexpectedBody { op: String },
    WrongBodyKind { op: String, expected: String },
}

/// The sentence each refusal is reported in.
pub open spec fn value_error_text(e: ValueError) -> Seq<char> {
    match e {
        ValueError::MissingParam { op, name } => op@ + ": `"@ + name@ + "` is required"@,
        ValueError::UnknownParam { op, name } => op@ + ": there is no `"@ + name@
            + "` parameter"@,
        ValueError::UnsupportedParam { op, name, why } => op@ + ": `"@ + name@ + "` is "@
            + sentence_of(why) + ", so there is nowhere in the request to put a value for it"@,
        ValueError::RepeatedParam { op, name, given } => op@ + ": `"@ + name@
            + "` takes one value, and was given "@ + decimal(given as nat),
        ValueError::BadValue { op, name, source } => op@ + ": `"@ + name@ + "`: "@
            + scalar_error_text(source),
        ValueError::MissingBody { op } => op@ + ": a request body is required"@,
        ValueError::UnexpectedBody { op } => op@ + ": takes no request body"@,
        ValueError::WrongBodyKind { op, expected } => op@ + ": expects a "@ + expected@
            + " body"@,
    }
}

impl ValueError {
    /// The sentence this refusal is reported in.
    pub fn message(&self) -> (out: String)
        ensures
            out@ == value_error_text(*self),
    {
        let mut text: Vec<char> = Vec::new();
        match self {
            ValueError::MissingParam { op, name } => {
                append_str(&mut text, op.as_str());
                append_str(&mut text, ": `");
                append_str(&mut text, name.as_str());
                append_str(&mut text, "` is required");
            },
            ValueError::UnknownParam { op, name } => {
                append_str(&mut text, op.as_str());
                append_str(&mut text, ": there is no `");
                append_str(&mut text, name.as_str());
                append_str(&mut text, "` parameter");
            },
            ValueError::UnsupportedParam { op, name, why } => {
                append_str(&mut text, op.as_str());
                append_str(&mut text, ": `");
                append_str(&mut text, name.as_str());
                append_str(&mut text, "` is ");
                let sentence = why.sentence();
                append_str(&mut text, sentence.as_str());
                append_str(&mut text, ", so there is nowhere in the request to put a value for it");
            },
            ValueError::RepeatedParam { op, name, given } => {
                append_str(&mut text, op.as_str());
                append_str(&mut text, ": `");
                append_str(&mut text, name.as_str());
                append_str(&mut text, "` takes one value, and was given ");
                let digits = decimal_of(*given as u128);
                append_chars(&mut text, digits.as_slice());
            },
            ValueError::BadValue { op, name, source } => {
                append_str(&mut text, op.as_str());
                append_str(&mut text, ": `");
                append_str(&mut text, name.as_str());
                append_str(&mut text, "`: ");
                let reason = source.message();
                append_str(&mut text, reason.as_str());
            },
            ValueError::MissingBody { op } => {
                append_str(&mut text, op.as_str());
                append_str(&mut text, ": a request body is required");
            },
            ValueError::UnexpectedBody { op } => {
                append_str(&mut text, op.as_str());
                append_str(&mut text, ": takes no request body");
            },
            ValueError::WrongBodyKind { op, expected } => {
                append_str(&mut text, op.as_str());
                append_str(&mut text, ": expects a ");
                append_str(&mut text, expected.as_str());
                append_str(&mut text, " body");
            },
        }
        string_of(text.as_slice())
    }
}

/// Whether the value given for `wire` has no place in `op`: no parameter is
/// called that, the parameter carries no flag, or its flag refuses `raw`.
pub open spec fn sent_faulty(op: Operation, wire: Seq<char>, raw: Seq<char>) -> bool {
    match first_named(op.params@, wire) {
        None => true,
        Some(i) => match op.params@[i].shape {
            Shape::Flag { scalar, .. } => !accepts(scalar, raw),
            Shape::Unreachable(_) => true,
        },
    }
}

/// The refusal a faulty value for `wire` is answered with.
pub open spec fn sent_refusal(op: Operation, wire: Seq<char>, raw: Seq<char>, e: ValueError) -> bool {
    match first_named(op.params@, wire) {
        None => e matches ValueError::UnknownParam { op: o, name } && o@ == op.id@ && name@ == wire,
        Some(i) => match op.params@[i].shape {
            Shape::Flag { scalar, .. } => e matches ValueError::BadValue { op: o, name, source }
                && o@ == op.id@ && name@ == wire && refusal(scalar, raw, source),
            Shape::Unreachable(why) => e matches ValueError::UnsupportedParam { op: o, name, why: w }
                && o@ == op.id@ && name@ == wire && w == why,
        },
    }
}

/// How many values were given under `name`.
pub open spec fn given(sent: Seq<(Seq<char>, Seq<char>)>, name: Seq<char>) -> nat
    decreases sent.len(),
{
    if sent.len() == 0 {
        0
    } else {
        given(sent.drop_last(), name) + if sent.last().0 == name {
            1nat
        } else {
            0nat
        }
    }
}

/// Whether `n` values are wrong for `p`: none for a required parameter, or
/// several for one that takes one.
pub open spec fn param_faulty(p: Param, n: nat) -> bool {
    (p.required && n == 0) || (n > 1 && !(p.shape matches Shape::Flag { join: Some(_), .. }))
}

/// The refusal `n` values for `p` are answered with.
pub open spec fn param_refusal(id: Seq<char>, p: Param, n: nat, e: ValueError) -> bool {
    if p.required && n == 0 {
        e matches ValueError::MissingParam { op: o, name } && o@ == id && name@ == p.name@
    } else {
        e matches ValueError::RepeatedParam { op: o, name, given: g } && o@ == id && name@
            == p.name@ && g == n
    }
}

/// The first value with no place in `op`.
pub open spec fn first_sent_fault(op: Operation, sent: Seq<(Seq<char>, Seq<char>)>) -> Option<int> {
    if exists|i: int| 0 <= i < sent.len() && sent_faulty(op, (#[trigger] sent[i]).0, sent[i].1) {
        Some(
            choose|i: int|
                0 <= i < sent.len() && sent_faulty(op, (#[trigger] sent[i]).0, sent[i].1) && forall|
                    j: int,
                | 0 <= j < i ==> !sent_faulty(op, (#[trigger] sent[j]).0, sent[j].1),
        )
    } else {
        None
    }
}

/// The first parameter of `op` given the wrong number of values.
pub open spec fn first_param_fault(op: Operation, sent: Seq<(Seq<char>, Seq<char>)>) -> Option<int> {
    if exists|i: int|
        0 <= i < op.params@.len() && param_faulty(
            #[trigger] op.params@[i],
            given(sent, op.params@[i].name@),
        ) {
        Some(
            choose|i: int|
                0 <= i < op.params@.len() && param_faulty(
                    #[trigger] op.params@[i],
                    given(sent, op.params@[i].name@),
                ) && forall|j: int|
                    0 <= j < i ==> !param_faulty(
                        #[trigger] op.params@[j],
                        given(sent, op.params@[j].name@),
                    ),
        )
    } else {
        None
    }
}

/// Whether the body brought is of the kind the operation asks for.
pub open spec fn body_fits(body: Body, payload: Option<Payload>) -> bool {
    match payload {
        None => match body {
            Body::Absent => true,
            Body::JsonFields(_) => true,
            Body::JsonWhole { required, .. } => !required,
            Body::Multipart { required, .. } => !required,
            Body::Opaque { required, .. } => !required,
        },
        Some(Payload::Json(_)) => body is JsonFields || body is JsonWhole,
        Some(Payload::Multipart(_)) => body is Multipart,
        Some(Payload::Raw(_)) => body is Opaque,
    }
}

/// The refusal a body that does not fit is answered with.
pub open spec fn body_refusal(id: Seq<char>, body: Body, payload: Option<Payload>, e: ValueError) -> bool {
    match payload {
        None => e matches ValueError::MissingBody { op: o } && o@ == id,
        Some(_) => match body {
            Body::Absent => e matches ValueError::UnexpectedBody { op: o } && o@ == id,
            Body::JsonFields(_) => e matches ValueError::WrongBodyKind { op: o, expected }
                && o@ == id && expected@ == "JSON"@,
            Body::JsonWhole { .. } => e matches ValueError::WrongBodyKind { op: o, expected }
                && o@ == id && expected@ == "JSON"@,
            Body::Multipart { .. } => e matches ValueError::WrongBodyKind { op: o, expected }
                && o@ == id && expected@ == "multipart/form-data"@,
            Body::Opaque { media_type, .. } => e matches ValueError::WrongBodyKind {
                op: o,
                expected,
            } && o@ == id && expected@ == media_type@,
        },
    }
}

/// Whether `op` accepts these values and this body.
pub open spec fn admits(op: Operation, sent: Seq<(Seq<char>, Seq<char>)>, payload: Option<Payload>) -> bool {
    &&& first_sent_fault(op, sent) is None
    &&& first_param_fault(op, sent) is None
    &&& body_fits(op.body, payload)
}

/// The refusal `op` answers these values and this body with: the first value
/// that has no place, else the first parameter given the wrong number of
/// values, else the body.
pub open spec fn refused(
    op: Operation,
    sent: Seq<(Seq<char>, Seq<char>)>,
    payload: Option<Payload>,
    e: ValueError,
) -> bool {
    match first_sent_fault(op, sent) {
        Some(i) => sent_refusal(op, sent[i].0, sent[i].1, e),
        None => match first_param_fault(op, sent) {
            Some(j) => param_refusal(op.id@, op.params@[j], given(sent, op.params@[j].name@), e),
            None => body_refusal(op.id@, op.body, payload, e),
        },
    }
}

/// An operation with values that satisfy it.
#[derive(Debug)]
pub struct Invocation<'a> {
    op: &'a Operation,
    values: Values,
}

impl<'a> Invocation<'a> {
    #[verifier::type_invariant]
    spec fn satisfied(self) -> bool {
        admits(*self.op, self.values.sent(), self.values.carried())
    }

    /// The operation invoked.
    pub closed spec fn invoked(self) -> Operation {
        *self.op
    }

    /// The values it was invoked with.
    pub closed spec fn supplied(self) -> Values {
        self.values
    }

    /// Check `values` against `op`.
    pub fn new(op: &'a Operation, values: Values) -> (r: Result<Self, ValueError>)
        ensures
            r is Ok <==> admits(*op, values.sent(), values.carried()),
            r matches Ok(inv) ==> inv.invoked() == *op && inv.supplied() == values,
            r matches Err(e) ==> refused(*op, values.sent(), values.carried(), e),
    {
        let sent = values.params();
        let ghost pairs = values.sent();
        let mut i: usize = 0;
        while i < sent.len()
            invariant
                i <= sent@.len(),
                pairs == values.sent(),
                sent@.map_values(|p: (String, String)| pair_view(p)) == pairs,
                forall|j: int| 0 <= j < i ==> !sent_faulty(*op, (#[trigger] pairs[j]).0, pairs[j].1),
            decreases sent.len() - i,
        {
            let wire = &sent[i].0;
            let raw = &sent[i].1;
            assert(pairs[i as int] == (wire@, raw@));
            let failure = match op.param(wire.as_str()) {
                None => Some(ValueError::UnknownParam { op: op.id().to_owned(), name: wire.clone() }),
                Some(param) => match param.shape() {
                    Shape::Flag { scalar, .. } => match scalar.parse(raw.as_str()) {
                        Ok(_) => None,
                        Err(source) => Some(
                            ValueError::BadValue { op: op.id().to_owned(), name: wire.clone(), source },
                        ),
                    },
                    Shape::Unreachable(why) => Some(
                        ValueError::UnsupportedParam {
                            op: op.id().to_owned(),
                            name: wire.clone(),
                            why: why.duplicate(),
                        },
                    ),
                },
            };
            match failure {
                Some(e) => {
                    proof {
                        assert(sent_faulty(*op, pairs[i as int].0, pairs[i as int].1));
                        let k = choose|k: int|
                            0 <= k < pairs.len() && sent_faulty(
                                *op,
                                (#[trigger] pairs[k]).0,
                                pairs[k].1,
                            ) && forall|j: int|
                                0 <= j < k ==> !sent_faulty(*op, (#[trigger] pairs[j]).0, pairs[j].1);
                        if k < i {
                            assert(!sent_faulty(*op, pairs[k].0, pairs[k].1));
                        } else if k > i {
                            assert(!sent_faulty(*op, pairs[i as int].0, pairs[i as int].1));
                        }
                        assert(k == i);
                    }
                    return Err(e);
                },
                None => {},
            }
            i += 1;
        }
        assert(first_sent_fault(*op, pairs) is None);
        let params = op.params();
        let mut j: usize = 0;
        while j < params.len()
            invariant
                j <= params@.len(),
                params@ == op.params@,
                pairs == values.sent(),
                sent@.map_values(|p: (String, String)| pair_view(p)) == pairs,
                first_sent_fault(*op, pairs) is None,
                forall|k: int|
                    0 <= k < j ==> !param_faulty(
                        #[trigger] op.params@[k],
                        given(pairs, op.params@[k].name@),
                    ),
            decreases params.len() - j,
        {
            let param = &params[j];
            let count = count_given(sent, param.name());
            let required = param.required();
            let fault = if required && count == 0 {
                Some(ValueError::MissingParam { op: op.id().to_owned(), name: param.name().to_owned() })
            } else if count > 1 && !param.shape().repeatable() {
                Some(
                    ValueError::RepeatedParam {
                        op: op.id().to_owned(),
                        name: param.name().to_owned(),
                        given: count,
                    },
                )
            } else {
                None
            };
            match fault {
                Some(e) => {
                    proof {
                        let p = op.params@[j as int];
                        assert(param_faulty(p, given(pairs, p.name@)));
                        let k = choose|k: int|
                            0 <= k < op.params@.len() && param_faulty(
                                #[trigger] op.params@[k],
                                given(pairs, op.params@[k].name@),
                            ) && forall|m: int|
                                0 <= m < k ==> !param_faulty(
                                    #[trigger] op.params@[m],
                                    given(pairs, op.params@[m].name@),
                                );
                        if k < j {
                            assert(!param_faulty(op.params@[k], given(pairs, op.params@[k].name@)));
                        } else if k > j {
                            assert(!param_faulty(p, given(pairs, p.name@)));
                        }
                        assert(k == j);
                    }
                    return Err(e);
                },
                None => {},
            }
            j += 1;
        }
        assert(first_param_fault(*op, pairs) is None);
        match check_body(op, values.payload()) {
            Err(e) => Err(e),
            Ok(()) => Ok(Invocation { op, values }),
        }
    }

    /// The operation this invocation satisfies.
    pub fn operation(&self) -> (r: &'a Operation)
        ensures
            *r == self.invoked(),
    {
        self.op
    }
}

/// How many of `sent` go under `name`.
fn count_given(sent: &[(String, String)], name: &str) -> (r: usize)
    ensures
        r == given(sent@.map_values(|p: (String, String)| pair_view(p)), name@),
{
    let ghost pairs = sent@.map_values(|p: (String, String)| pair_view(p));
    let mut count: usize = 0;
    let mut i: usize = 0;
    while i < sent.len()
        invariant
            i <= sent@.len(),
            pairs == sent@.map_values(|p: (String, String)| pair_view(p)),
            count == given(pairs.take(i as int), name@),
            count <= i,
        decreases sent.len() - i,
    {
        assert(pairs.take(i + 1).drop_last() =~= pairs.take(i as int));
        assert(pairs.take(i + 1).last() == (sent@[i as int].0@, sent@[i as int].1@));
        if crate::text::str_is(sent[i].0.as_str(), name) {
            count += 1;
        }
        i += 1;
    }
    assert(pairs.take(sent@.len() as int) =~= pairs);
    count
}

/// Does the body the caller brought match the body the operation asks for?
fn check_body(op: &Operation, body: Option<&Payload>) -> (r: Result<(), ValueError>)
    ensures
        r is Ok <==> body_fits(
            op.body,
            match body {
                Some(p) => Some(*p),
                None => None,
            },
        ),
        r matches Err(e) ==> body_refusal(
            op.id@,
            op.body,
            match body {
                Some(p) => Some(*p),
                None => None,
            },
            e,
        ),
{
    let name = op.id().to_owned();
    match body {
        None => match op.body() {
            Body::Absent | Body::JsonFields(_) => Ok(()),
            Body::JsonWhole { required, .. } | Body::Multipart { required, .. } | Body::Opaque {
                required,
                ..
            } => if *required {
                Err(ValueError::MissingBody { op: name })
            } else {
                Ok(())
            },
        },
        Some(payload) => match (op.body(), payload) {
            (Body::JsonFields(_), Payload::Json(_)) | (Body::JsonWhole { .. }, Payload::Json(_)) => Ok(()),
            (Body::Multipart { .. }, Payload::Multipart(_)) => Ok(()),
            (Body::Opaque { .. }, Payload::Raw(_)) => Ok(()),
            (Body::Absent, _) => Err(ValueError::UnexpectedBody { op: name }),
            (Body::JsonFields(_), _) | (Body::JsonWhole { .. }, _) => Err(
                ValueError::WrongBodyKind { op: name, expected: "JSON".to_owned() },
            ),
            (Body::Multipart { .. }, _) => Err(
                ValueError::WrongBodyKind { op: name, expected: "multipart/form-data".to_owned() },
            ),
            (Body::Opaque { media_type, .. }, _) => Err(
                ValueError::WrongBodyKind { op: name, expected: media_type.clone() },
            ),
        },
    }
}

/// A byte RFC 3986 leaves as it is: an ASCII letter or digit, `-`, `.`, `_`
/// or `~`.
pub open spec fn unreserved(b: u8) -> bool {
    (48 <= b <= 57) || (65 <= b <= 90) || (97 <= b <= 122) || b == 45 || b == 46 || b == 95
        || b == 126
}

/// The uppercase hexadecimal digit for `n`, below sixteen.
pub open spec fn hex_digit(n: nat) -> char {
    if n < 10 {
        (48 + n) as char
    } else {
        (55 + n) as char
    }
}

/// One byte in a URL: itself where it is unreserved, `%XX` otherwise.
pub open spec fn escaped(b: u8) -> Seq<char> {
    if unreserved(b) {
        seq![b as char]
    } else {
        seq!['%', hex_digit((b / 16) as nat), hex_digit((b % 16) as nat)]
    }
}

/// Bytes percent-encoded, one by one.
pub open spec fn percent(bytes: Seq<u8>) -> Seq<char>
    decreases bytes.len(),
{
    if bytes.len() == 0 {
        seq![]
    } else {
        percent(bytes.drop_last()) + escaped(bytes.last())
    }
}

/// Text percent-encoded byte by byte of its UTF-8.
pub open spec fn url_encoded(raw: Seq<char>) -> Seq<char> {
    percent(encode_utf8(raw))
}

/// One parameter's values as a single field: each percent-encoded, joined by
/// commas.
pub open spec fn commas_text(values: Seq<Seq<char>>) -> Seq<char> {
    joined(values.map_values(|v: Seq<char>| url_encoded(v)), ","@)
}

/// One parameter on its way into the request: the wire name, how the document
/// joins repeats of it, and the values in the order the caller gave them.
pub struct Group {
    pub name: Seq<char>,
    pub join: Option<Join>,
    pub values: Seq<Seq<char>>,
}

/// Where the group for `name` stands, if there is one yet.
pub open spec fn group_index(groups: Seq<Group>, name: Seq<char>) -> Option<int> {
    if exists|k: int| 0 <= k < groups.len() && (#[trigger] groups[k]).name == name {
        Some(
            choose|k: int|
                0 <= k < groups.len() && (#[trigger] groups[k]).name == name && forall|j: int|
                    0 <= j < k ==> (#[trigger] groups[j]).name != name,
        )
    } else {
        None
    }
}

/// `groups` with `value` added under `name`: to its group where it has one,
/// else in a new group at the end.
pub open spec fn gathered(groups: Seq<Group>, name: Seq<char>, join: Option<Join>, value: Seq<char>) -> Seq<Group> {
    match group_index(groups, name) {
        Some(k) => groups.update(
            k,
            Group { name: groups[k].name, join: groups[k].join, values: groups[k].values.push(value) },
        ),
        None => groups.push(Group { name, join, values: seq![value] }),
    }
}

/// Where the parameter called `name` goes and how its repeats join, if it
/// has a flag.
pub open spec fn placement(op: Operation, name: Seq<char>) -> Option<(Location, Option<Join>)> {
    match first_named(op.params@, name) {
        Some(i) => match op.params@[i].shape {
            Shape::Flag { location, join, .. } => Some((location, join)),
            Shape::Unreachable(_) => None,
        },
        None => None,
    }
}

/// Every value given for a parameter that goes in `location`, grouped under
/// the parameter it belongs to, groups in the order each was first named.
pub open spec fn placed_at(op: Operation, sent: Seq<(Seq<char>, Seq<char>)>, location: Location) -> Seq<Group>
    decreases sent.len(),
{
    if sent.len() == 0 {
        seq![]
    } else {
        let prev = placed_at(op, sent.drop_last(), location);
        match placement(op, sent.last().0) {
            Some((at, join)) => if at == location {
                gathered(prev, sent.last().0, join, sent.last().1)
            } else {
                prev
            },
            None => prev,
        }
    }
}

/// The query string's fields: one per value for a parameter joined in
/// pairs, one for all its values otherwise.
pub open spec fn query_fields(groups: Seq<Group>) -> Seq<Seq<char>>
    decreases groups.len(),
{
    if groups.len() == 0 {
        seq![]
    } else {
        let g = groups.last();
        let name = url_encoded(g.name);
        query_fields(groups.drop_last()) + match g.join {
            Some(Join::Pairs) => g.values.map_values(|v: Seq<char>| name + "="@ + url_encoded(v)),
            _ => seq![name + "="@ + commas_text(g.values)],
        }
    }
}

/// `s` with every `pat` replaced by `with`, left to right.
pub open spec fn replaced(s: Seq<char>, pat: Seq<char>, with: Seq<char>) -> Seq<char>
    decreases s.len(),
{
    if s.len() == 0 {
        seq![]
    } else if pat.len() > 0 && s.len() >= pat.len() && s.take(pat.len() as int) == pat {
        with + replaced(s.skip(pat.len() as int), pat, with)
    } else {
        seq![s[0]] + replaced(s.drop_first(), pat, with)
    }
}

/// A path template with each group's `{name}` replaced by its values.
pub open spec fn filled(path: Seq<char>, groups: Seq<Group>) -> Seq<char>
    decreases groups.len(),
{
    if groups.len() == 0 {
        path
    } else {
        let g = groups.last();
        replaced(filled(path, groups.drop_last()), "{"@ + g.name + "}"@, commas_text(g.values))
    }
}

/// The URL a request for `op` with these values goes to, against `base`.
pub open spec fn url_text(op: Operation, sent: Seq<(Seq<char>, Seq<char>)>, base: Base) -> Seq<char> {
    let query = query_fields(placed_at(op, sent, Location::Query));
    (match base.scheme {
        Some(s) => s@ + "://"@,
        None => Seq::<char>::empty(),
    }) + (match base.authority {
        Some(a) => a@,
        None => Seq::<char>::empty(),
    }) + strip_end(base.path@, '/') + filled(op.path@, placed_at(op, sent, Location::Path)) + if query.len()
        == 0 {
        Seq::<char>::empty()
    } else {
        "?"@ + joined(query, "&"@)
    }
}

/// The header lines the parameters carry: one per parameter, its values
/// joined by commas as they were given.
pub open spec fn header_lines(op: Operation, sent: Seq<(Seq<char>, Seq<char>)>) -> Seq<(Seq<char>, Seq<char>)> {
    placed_at(op, sent, Location::Header).map_values(|g: Group| (g.name, joined(g.values, ","@)))
}

/// The `Content-Type` and the bytes of the body, or `None` for a body-less
/// request. A raw body goes under the document's media type, never the
/// caller's; a multipart one under the boundary its encoding chose.
pub open spec fn body_of(op: Operation, payload: Option<Payload>) -> Option<(Seq<char>, Seq<u8>)> {
    match payload {
        None => None,
        Some(Payload::Json(value)) => Some(("application/json"@, encode_utf8(json_written(value)))),
        Some(Payload::Raw(bytes)) => Some(
            (
                match op.body {
                    Body::Opaque { media_type, .. } => media_type@,
                    _ => "application/octet-stream"@,
                },
                bytes@,
            ),
        ),
        Some(Payload::Multipart(parts)) => {
            let b = choose|b: Seq<char>| chosen(views(parts@), b);
            Some(("multipart/form-data; boundary="@ + b, layout(views(parts@), b)))
        },
    }
}

/// A request as it is handed to the HTTP layer: the method, the URL, the
/// header lines in order and the body.
#[derive(Debug)]
pub struct WireRequest {
    pub method: Method,
    pub url: String,
    pub headers: Vec<(String, String)>,
    pub body: Vec<u8>,
}

/// The header lines of a request for `op`: the parameters', then the
/// `content-type` where there is a body.
pub open spec fn wire_headers(op: Operation, sent: Seq<(Seq<char>, Seq<char>)>, payload: Option<Payload>) -> Seq<(Seq<char>, Seq<char>)> {
    header_lines(op, sent) + match body_of(op, payload) {
        Some((content_type, _)) => seq![("content-type"@, content_type)],
        None => Seq::<(Seq<char>, Seq<char>)>::empty(),
    }
}

/// Whether `w` is the request for `op` with these values against `base`.
pub open spec fn wire_of(op: Operation, values: Values, base: Base, w: WireRequest) -> bool {
    &&& w.method == op.method
    &&& w.url@ == url_text(op, values.sent(), base)
    &&& w.headers@.map_values(|p: (String, String)| pair_view(p)) == wire_headers(
        op,
        values.sent(),
        values.carried(),
    )
    &&& w.body@ == match body_of(op, values.carried()) {
        Some((_, bytes)) => bytes,
        None => Seq::<u8>::empty(),
    }
}

/// Percent-encode everything outside RFC 3986's unreserved set. Both path
/// segments and query values are safe under that rule; nothing this crate puts
/// in a URL is meant as a delimiter.
pub fn encode(raw: &str) -> (out: String)
    ensures
        out@ == url_encoded(raw@),
{
    let bytes = bytes_of(raw);
    let mut out: Vec<char> = Vec::new();
    let mut i: usize = 0;
    while i < bytes.len()
        invariant
            i <= bytes@.len(),
            bytes@ == encode_utf8(raw@),
            out@ == percent(bytes@.take(i as int)),
        decreases bytes.len() - i,
    {
        let b = bytes[i];
        let keep = (48 <= b && b <= 57) || (65 <= b && b <= 90) || (97 <= b && b <= 122) || b == 45
            || b == 46 || b == 95 || b == 126;
        if keep {
            out.push(b as char);
        } else {
            out.push('%');
            out.push(hex(b / 16));
            out.push(hex(b % 16));
        }
        proof {
            assert(bytes@.take(i + 1).drop_last() =~= bytes@.take(i as int));
            assert(bytes@.take(i + 1).last() == b);
        }
        i += 1;
    }
    assert(bytes@.take(bytes@.len() as int) =~= bytes@);
    string_of(out.as_slice())
}

/// The uppercase hexadecimal digit for `n`.
fn hex(n: u8) -> (c: char)
    requires
        n < 16,
    ensures
        c == hex_digit(n as nat),
{
    if n < 10 {
        (48 + n) as char
    } else {
        (55 + n) as char
    }
}

/// One parameter's values as a single field: each percent-encoded, joined by
/// commas.
///
/// This is what RFC 6570's `simple` gives a list, and what OpenAPI's `form` with
/// `explode: false` gives one. Encoding runs first, so a comma *inside* a value
/// is `%2C` and the comma *between* two values is the delimiter the document
/// asked for — whoever reads the request can tell them apart.
fn commas(values: &[String]) -> (out: String)
    ensures
        out@ == commas_text(values@.map_values(|v: String| v@)),
{
    let ghost vs = values@.map_values(|v: String| v@);
    let mut encoded: Vec<String> = Vec::new();
    let mut i: usize = 0;
    while i < values.len()
        invariant
            i <= values@.len(),
            vs == values@.map_values(|v: String| v@),
            encoded@.len() == i,
            forall|j: int| 0 <= j < i ==> (#[trigger] encoded@[j])@ == url_encoded(values@[j]@),
        decreases values.len() - i,
    {
        let e = encode(values[i].as_str());
        encoded.push(e);
        i += 1;
    }
    assert(encoded@.map_values(|e: String| e@) =~= vs.map_values(|v: Seq<char>| url_encoded(v)));
    let joined_chars = join_strings(encoded.as_slice(), ",");
    string_of(joined_chars.as_slice())
}

/// `s` with every `pat` replaced by `with`, left to right.
pub(crate) fn replace_all(s: &[char], pat: &[char], with: &[char]) -> (out: Vec<char>)
    requires
        pat@.len() > 0,
    ensures
        out@ == replaced(s@, pat@, with@),
{
    let mut out: Vec<char> = Vec::new();
    let size = s.len();
    let mut i: usize = 0;
    assert(s@.skip(0) =~= s@);
    while i < s.len()
        invariant
            size == s@.len(),
            i <= s@.len(),
            pat@.len() > 0,
            out@ + replaced(s@.skip(i as int), pat@, with@) == replaced(s@, pat@, with@),
        decreases s.len() - i,
    {
        let ghost rest = s@.skip(i as int);
        let mut here = s.len() - i >= pat.len();
        let mut k: usize = 0;
        while here && k < pat.len()
            invariant
                size == s@.len(),
                i <= s@.len(),
                rest == s@.skip(i as int),
                k <= pat@.len(),
                here ==> s@.len() - i >= pat@.len() && forall|j: int| 0 <= j < k ==> s@[i + j] == pat@[j],
                !here ==> !(rest.len() >= pat@.len() && rest.take(pat@.len() as int) == pat@),
            decreases pat.len() - k,
        {
            if s[i + k] != pat[k] {
                assert(rest.take(pat@.len() as int)[k as int] != pat@[k as int]);
                here = false;
            }
            k += 1;
        }
        if here {
            assert(rest.take(pat@.len() as int) =~= pat@);
            append_chars(&mut out, with);
            assert(rest.skip(pat@.len() as int) =~= s@.skip(i + pat@.len()));
            i += pat.len();
        } else {
            out.push(s[i]);
            assert(rest.drop_first() =~= s@.skip(i + 1));
            i += 1;
        }
    }
    assert(s@.skip(i as int) =~= Seq::<char>::empty());
    out
}

/// One parameter on its way into the request.
struct Sent {
    name: String,
    join: Option<Join>,
    values: Vec<String>,
}

spec fn group_of(s: Sent) -> Group {
    Group { name: s.name@, join: s.join, values: s.values@.map_values(|v: String| v@) }
}

spec fn groups_of(sent: Seq<Sent>) -> Seq<Group> {
    sent.map_values(|s: Sent| group_of(s))
}

impl<'a> Invocation<'a> {
    /// Every value the caller gave for a parameter that goes in `location`,
    /// grouped under the parameter it belongs to, with the join the document
    /// declared for it.
    fn placed(&self, location: Location) -> (out: Vec<Sent>)
        ensures
            groups_of(out@) == placed_at(*self.op, self.values.sent(), location),
    {
        let params = self.values.params();
        let ghost pairs = self.values.sent();
        let mut out: Vec<Sent> = Vec::new();
        let mut i: usize = 0;
        while i < params.len()
            invariant
                i <= params@.len(),
                pairs == self.values.sent(),
                params@.map_values(|p: (String, String)| pair_view(p)) == pairs,
                groups_of(out@) == placed_at(*self.op, pairs.take(i as int), location),
            decreases params.len() - i,
        {
            let name = &params[i].0;
            let value = &params[i].1;
            assert(pairs[i as int] == (name@, value@));
            assert(pairs.take(i + 1).drop_last() =~= pairs.take(i as int));
            assert(pairs.take(i + 1).last() == (name@, value@));
            match self.op.param(name.as_str()) {
                Some(param) => match param.shape() {
                    Shape::Flag { location: at, join, .. } => {
                        if *at == location {
                            add_value(&mut out, name, *join, value);
                        }
                    },
                    Shape::Unreachable(_) => {},
                },
                None => {},
            }
            i += 1;
        }
        assert(pairs.take(params@.len() as int) =~= pairs);
        out
    }

    /// The query string's fields, in the order the caller first named each
    /// parameter.
    ///
    /// A repeated flag is one parameter holding several values, so the values
    /// are grouped before they are rendered: `?embed=a&embed=b` and `?embed=a,b`
    /// are one list spelled two ways, and which one it is, is the document's to
    /// say.
    fn query(&self) -> (fields: Vec<String>)
        ensures
            fields@.map_values(|f: String| f@) == query_fields(
                placed_at(*self.op, self.values.sent(), Location::Query),
            ),
    {
        let groups = self.placed(Location::Query);
        let ghost gs = groups_of(groups@);
        let mut fields: Vec<String> = Vec::new();
        let mut i: usize = 0;
        while i < groups.len()
            invariant
                i <= groups@.len(),
                gs == groups_of(groups@),
                fields@.map_values(|f: String| f@) == query_fields(gs.take(i as int)),
            decreases groups.len() - i,
        {
            let sent = &groups[i];
            let name = encode(sent.name.as_str());
            let ghost before = fields@.map_values(|f: String| f@);
            assert(forall|j: int| 0 <= j < before.len() ==> (#[trigger] fields@[j])@ == before[j]);
            assert(gs.take(i + 1).drop_last() =~= gs.take(i as int));
            assert(gs.take(i + 1).last() == group_of(*sent));
            match sent.join {
                Some(Join::Pairs) => {
                    let ghost vs = sent.values@.map_values(|v: String| v@);
                    let mut k: usize = 0;
                    while k < sent.values.len()
                        invariant
                            k <= sent.values@.len(),
                            vs == sent.values@.map_values(|v: String| v@),
                            fields@.len() == before.len() + k,
                            forall|j: int|
                                0 <= j < before.len() ==> (#[trigger] fields@[j])@ == before[j],
                            forall|j: int|
                                before.len() <= j < before.len() + k ==> (#[trigger] fields@[j])@
                                    == name@ + "="@ + url_encoded(vs[j - before.len()]),
                        decreases sent.values.len() - k,
                    {
                        let mut field: Vec<char> = Vec::new();
                        append_str(&mut field, name.as_str());
                        append_str(&mut field, "=");
                        let e = encode(sent.values[k].as_str());
                        append_str(&mut field, e.as_str());
                        fields.push(string_of(field.as_slice()));
                        assert(fields@[before.len() + k]@ == name@ + "="@ + url_encoded(vs[k as int]));
                        k += 1;
                    }
                    assert(fields@.map_values(|f: String| f@) =~= before + vs.map_values(
                        |v: Seq<char>| name@ + "="@ + url_encoded(v),
                    ));
                },
                _ => {
                    let mut field: Vec<char> = Vec::new();
                    append_str(&mut field, name.as_str());
                    append_str(&mut field, "=");
                    let c = commas(sent.values.as_slice());
                    append_str(&mut field, c.as_str());
                    fields.push(string_of(field.as_slice()));
                    assert(fields@.map_values(|f: String| f@) =~= before + seq![
                        name@ + "="@ + commas_text(sent.values@.map_values(|v: String| v@)),
                    ]);
                },
            }
            i += 1;
        }
        assert(gs.take(groups@.len() as int) =~= gs);
        fields
    }

    /// The URL of the request, against `base`.
    fn url(&self, base: &Base) -> (url: String)
        ensures
            url@ == url_text(*self.op, self.values.sent(), *base),
    {
        let mut url: Vec<char> = Vec::new();
        if let Some(scheme) = &base.scheme {
            append_str(&mut url, scheme.as_str());
            append_str(&mut url, "://");
        }
        if let Some(authority) = &base.authority {
            append_str(&mut url, authority.as_str());
        }
        let trimmed_path = trim_slashes(base.path.as_str());
        append_chars(&mut url, trimmed_path.as_slice());
        let mut path = chars_of(self.op.path.as_str());
        let groups = self.placed(Location::Path);
        let ghost gs = groups_of(groups@);
        let mut i: usize = 0;
        while i < groups.len()
            invariant
                i <= groups@.len(),
                gs == groups_of(groups@),
                path@ == filled(self.op.path@, gs.take(i as int)),
            decreases groups.len() - i,
        {
            let mut placeholder: Vec<char> = Vec::new();
            append_str(&mut placeholder, "{");
            append_str(&mut placeholder, groups[i].name.as_str());
            append_str(&mut placeholder, "}");
            proof {
                reveal_strlit("{");
                reveal_strlit("}");
            }
            let c = commas(groups[i].values.as_slice());
            let with = chars_of(c.as_str());
            path = replace_all(path.as_slice(), placeholder.as_slice(), with.as_slice());
            proof {
                assert(gs.take(i + 1).drop_last() =~= gs.take(i as int));
                assert(gs.take(i + 1).last() == group_of(groups@[i as int]));
            }
            i += 1;
        }
        assert(gs.take(groups@.len() as int) =~= gs);
        append_chars(&mut url, path.as_slice());
        let query = self.query();
        if query.len() > 0 {
            append_str(&mut url, "?");
            let q = join_strings(query.as_slice(), "&");
            append_chars(&mut url, q.as_slice());
        }
        string_of(url.as_slice())
    }

    /// The `Content-Type` and the bytes, or `None` for a body-less request.
    fn body(&self) -> (r: Option<(String, Vec<u8>)>)
        ensures
            match body_of(*self.op, self.values.carried()) {
                Some((t, b)) => r matches Some(p) && p.0@ == t && p.1@ == b,
                None => r is None,
            },
    {
        match self.values.payload() {
            None => None,
            Some(Payload::Json(value)) => {
                let text = json_text(value);
                Some(("application/json".to_owned(), bytes_of(text.as_str())))
            },
            Some(Payload::Raw(bytes)) => {
                let media_type = match self.op.body() {
                    Body::Opaque { media_type, .. } => media_type.clone(),
                    _ => "application/octet-stream".to_owned(),
                };
                let mut copy: Vec<u8> = Vec::new();
                append_bytes(&mut copy, bytes.as_slice());
                Some((media_type, copy))
            },
            Some(Payload::Multipart(parts)) => {
                let encoded = crate::multipart::encode(parts.as_slice());
                proof {
                    let b = choose|b: Seq<char>| chosen(views(parts@), b);
                    crate::multipart::lemma_boundary_is_determined(
                        views(parts@),
                        b,
                        crate::multipart::boundary_of(encoded.content_type@),
                    );
                }
                Some((encoded.content_type, encoded.bytes))
            },
        }
    }

    /// What this invocation hands the HTTP layer against `base`.
    pub fn wire(&self, base: &Base) -> (w: WireRequest)
        ensures
            wire_of(self.invoked(), self.supplied(), *base, w),
    {
        let url = self.url(base);
        let groups = self.placed(Location::Header);
        let ghost gs = groups_of(groups@);
        let mut headers: Vec<(String, String)> = Vec::new();
        let mut i: usize = 0;
        while i < groups.len()
            invariant
                i <= groups@.len(),
                gs == groups_of(groups@),
                headers@.len() == i,
                forall|j: int|
                    0 <= j < i ==> pair_view(#[trigger] headers@[j]) == (
                        gs[j].name,
                        joined(gs[j].values, ","@),
                    ),
            decreases groups.len() - i,
        {
            let name = groups[i].name.clone();
            let joined_values = join_strings(groups[i].values.as_slice(), ",");
            headers.push((name, string_of(joined_values.as_slice())));
            i += 1;
        }
        assert(headers@.map_values(|p: (String, String)| pair_view(p)) =~= gs.map_values(
            |g: Group| (g.name, joined(g.values, ","@)),
        ));
        let ghost lines = headers@.map_values(|p: (String, String)| pair_view(p));
        let body = match self.body() {
            None => Vec::new(),
            Some((content_type, bytes)) => {
                headers.push(("content-type".to_owned(), content_type));
                assert(headers@.map_values(|p: (String, String)| pair_view(p)) =~= lines + seq![
                    ("content-type"@, headers@.last().1@),
                ]);
                bytes
            },
        };
        WireRequest { method: self.op.method(), url, headers, body }
    }
}

/// Adds `value` under `name` to the groups: to its group where it has one,
/// else in a new group at the end.
fn add_value(out: &mut Vec<Sent>, name: &String, join: Option<Join>, value: &String)
    ensures
        groups_of(final(out)@) == gathered(groups_of(old(out)@), name@, join, value@),
{
    let ghost gs = groups_of(out@);
    let ghost before = out@;
    let mut k: usize = 0;
    while k < out.len() && !crate::text::str_is(out[k].name.as_str(), name.as_str())
        invariant
            k <= out@.len(),
            before == out@,
            gs == groups_of(out@),
            forall|j: int| 0 <= j < k ==> (#[trigger] gs[j]).name != name@,
        decreases out.len() - k,
    {
        k += 1;
    }
    if k < out.len() {
        let mut group = out.remove(k);
        let ghost vals = group.values@;
        group.values.push(value.clone());
        assert(group.values@.map_values(|v: String| v@) =~= vals.map_values(|v: String| v@).push(
            value@,
        ));
        out.insert(k, group);
        assert(out@ =~= before.update(k as int, group));
        proof {
            assert(gs[k as int].name == name@);
            let c = choose|c: int|
                0 <= c < gs.len() && (#[trigger] gs[c]).name == name@ && forall|j: int|
                    0 <= j < c ==> (#[trigger] gs[j]).name != name@;
            if c < k {
                assert(gs[c].name != name@);
            } else if c > k {
                assert(gs[k as int].name != name@);
            }
            assert(groups_of(out@) =~= gathered(gs, name@, join, value@));
        }
    } else {
        let fresh = Sent { name: name.clone(), join, values: vec![value.clone()] };
        assert(fresh.values@.map_values(|v: String| v@) =~= seq![value@]);
        out.push(fresh);
        proof {
            assert(group_index(gs, name@) is None);
            assert(groups_of(out@) =~= gathered(gs, name@, join, value@));
        }
    }
}

/// `path` without the `/`s at its end.
fn trim_slashes(path: &str) -> (out: Vec<char>)
    ensures
        out@ == strip_end(path@, '/'),
{
    let chars = chars_of(path);
    let mut end = chars.len();
    assert(chars@.subrange(0, end as int) =~= chars@);
    while end > 0 && chars[end - 1] == '/'
        invariant
            end <= chars@.len(),
            strip_end(chars@, '/') == strip_end(chars@.subrange(0, end as int), '/'),
        decreases end,
    {
        assert(chars@.subrange(0, end as int).drop_last() =~= chars@.subrange(0, end - 1));
        end -= 1;
    }
    let mut out: Vec<char> = Vec::new();
    let mut k: usize = 0;
    while k < end
        invariant
            k <= end <= chars@.len(),
            out@ == chars@.subrange(0, k as int),
        decreases end - k,
    {
        out.push(chars[k]);
        k += 1;
    }
    out
}

/// A request as the `http` crate holds one.
#[verifier::external_type_specification]
#[verifier::external_body]
#[verifier::reject_recursive_types(T)]
pub struct ExRequest<T>(http::Request<T>);

/// A request being assembled by the `http` crate.
#[verifier::external_type_specification]
#[verifier::external_body]
pub struct ExRequestBuilder(http::request::Builder);

/// Why the `http` crate refused to assemble a request.
#[verifier::external_type_specification]
#[verifier::external_body]
pub struct ExHttpError(http::Error);

/// Whether the `http` crate builds a request from a method name, a URL and
/// header lines: the method reads as a method, the URL as a URI, and each
/// header's name and value as a header. The body never refuses.
pub uninterp spec fn http_accepts(method: Seq<char>, url: Seq<char>, headers: Seq<(Seq<char>, Seq<char>)>) -> bool;

/// The request the `http` crate builds from a method name, a URL, header
/// lines and a body, where it accepts them.
pub uninterp spec fn http_request(
    method: Seq<char>,
    url: Seq<char>,
    headers: Seq<(Seq<char>, Seq<char>)>,
    body: Seq<u8>,
) -> http::Request<Vec<u8>>;

/// A request's method, as `Method::as_str` spells it.
pub uninterp spec fn request_method(request: http::Request<Vec<u8>>) -> Seq<char>;

/// A request's target: the path and query of its URI, `/` where it has none.
pub uninterp spec fn request_target(request: http::Request<Vec<u8>>) -> Seq<char>;

/// A request's path, as `Uri::path` reads it: the query is no part of it.
pub uninterp spec fn request_path(request: http::Request<Vec<u8>>) -> Seq<char>;

/// A request's authority, where its URI has one.
pub uninterp spec fn request_authority(request: http::Request<Vec<u8>>) -> Option<Seq<char>>;

/// A request's header lines in the map's order: each name as `http` spells
/// it, and each value where it reads as text.
pub uninterp spec fn request_headers(request: http::Request<Vec<u8>>) -> Seq<(Seq<char>, Option<Seq<char>>)>;

/// A request's body.
pub uninterp spec fn request_body(request: http::Request<Vec<u8>>) -> Seq<u8>;

/// The header lines of a request, as the contracts read them.
pub open spec fn header_views(headers: Seq<(String, String)>) -> Seq<(Seq<char>, Seq<char>)> {
    headers.map_values(|p: (String, String)| pair_view(p))
}

/// `http::Request::builder`, given the method, the URI and each header line
/// in order, then `Builder::body`: the request, or the first error the
/// builder held. Which pieces it accepts, and the request it builds, are
/// named; the body is held as given, and the method is the one named.
#[verifier::external_body]
fn assemble(method: &str, url: &str, headers: &[(String, String)], body: Vec<u8>) -> (r: Result<
    http::Request<Vec<u8>>,
    http::Error,
>)
    ensures
        r is Ok <==> http_accepts(method@, url@, header_views(headers@)),
        r matches Ok(q) ==> q == http_request(method@, url@, header_views(headers@), body@),
        r matches Ok(q) ==> request_body(q) == body@ && request_method(q) == method@,
{
    let builder = http::Request::builder().method(method).uri(url);
    headers.iter().fold(builder, |b, (name, value)| b.header(name.as_str(), value.as_str())).body(body)
}

/// `Request::method` as its name (`Method::as_str`).
#[verifier::external_body]
fn method_of(request: &http::Request<Vec<u8>>) -> (r: String)
    ensures
        r@ == request_method(*request),
{
    request.method().as_str().to_owned()
}

/// `Uri::path_and_query` of the request's URI as text, `/` where it has none.
#[verifier::external_body]
fn target_of(request: &http::Request<Vec<u8>>) -> (r: String)
    ensures
        r@ == request_target(*request),
{
    request.uri().path_and_query().map_or("/", http::uri::PathAndQuery::as_str).to_owned()
}

/// `Uri::path` of the request's URI.
#[verifier::external_body]
fn path_of(request: &http::Request<Vec<u8>>) -> (r: String)
    ensures
        r@ == request_path(*request),
{
    request.uri().path().to_owned()
}

/// The route a request was sent on: its method, and the path of its URI
/// without the query.
pub fn route_of(request: &http::Request<Vec<u8>>) -> (r: (String, String))
    ensures
        r.0@ == request_method(*request),
        r.1@ == request_path(*request),
{
    (method_of(request), path_of(request))
}

/// `Uri::authority` of the request's URI as text.
#[verifier::external_body]
fn authority_of(request: &http::Request<Vec<u8>>) -> (r: Option<String>)
    ensures
        crate::reading::opt_view(r) == request_authority(*request),
{
    request.uri().authority().map(|a| a.as_str().to_owned())
}

/// `Request::headers` walked in the map's order: each name as `http` spells
/// it, and each value as text where `HeaderValue::to_str` reads it as such.
#[verifier::external_body]
fn header_list(request: &http::Request<Vec<u8>>) -> (r: Vec<(String, Option<String>)>)
    ensures
        r@.map_values(|h: (String, Option<String>)| header_view(h)) == request_headers(*request),
{
    request.headers().iter().map(|(n, v)| (n.as_str().to_owned(), v.to_str().ok().map(str::to_owned))).collect()
}

/// `Request::body`, copied.
#[verifier::external_body]
fn body_bytes(request: &http::Request<Vec<u8>>) -> (r: Vec<u8>)
    ensures
        r@ == request_body(*request),
{
    request.body().clone()
}

/// The request `wire` describes, as the `http` crate assembles it: built
/// exactly where the crate accepts the method, the URL and every header line.
pub fn to_http(wire: WireRequest) -> (r: Result<http::Request<Vec<u8>>, http::Error>)
    ensures
        r is Ok <==> http_accepts(method_name(wire.method), wire.url@, header_views(wire.headers@)),
        r matches Ok(q) ==> q == http_request(method_name(wire.method), wire.url@, header_views(wire.headers@), wire.body@),
{
    assemble(wire.method.as_str(), wire.url.as_str(), wire.headers.as_slice(), wire.body)
}

impl<'a> Invocation<'a> {
    /// The request this invocation stands for, against `base`: what
    /// [`Invocation::wire`] describes, assembled by the `http` crate, which can
    /// refuse a URL or a header it cannot carry.
    pub fn request(&self, base: &Base) -> (r: Result<http::Request<Vec<u8>>, http::Error>)
        ensures
            r is Ok <==> http_accepts(
                method_name(self.invoked().method),
                url_text(self.invoked(), self.supplied().sent(), *base),
                wire_headers(self.invoked(), self.supplied().sent(), self.supplied().carried()),
            ),
            r matches Ok(q) ==> q == request_for(self.invoked(), *base, self.supplied()),
    {
        to_http(self.wire(base))
    }
}

/// The bytes a request for `op` carries as its body: the encoded payload,
/// none where there is no body.
pub open spec fn body_bytes_for(op: Operation, payload: Option<Payload>) -> Seq<u8> {
    match body_of(op, payload) {
        Some((_, bytes)) => bytes,
        None => Seq::<u8>::empty(),
    }
}

/// The request the `http` crate builds for `op` with `values` against
/// `base`: its method, its URL, its header lines and its body.
pub open spec fn request_for(op: Operation, base: Base, values: Values) -> http::Request<Vec<u8>> {
    http_request(
        method_name(op.method),
        url_text(op, values.sent(), base),
        wire_headers(op, values.sent(), values.carried()),
        body_bytes_for(op, values.carried()),
    )
}

/// Whether `s` ends in a line break.
pub open spec fn ends_in_newline(s: Seq<char>) -> bool {
    s.len() > 0 && s.last() == '\n'
}

/// The first value of the header called `name`, where it reads as text.
pub open spec fn first_header(headers: Seq<(Seq<char>, Option<Seq<char>>)>, name: Seq<char>) -> Option<Seq<char>>
    decreases headers.len(),
{
    if headers.len() == 0 {
        None
    } else if headers[0].0 == name {
        headers[0].1
    } else {
        first_header(headers.drop_first(), name)
    }
}

/// The body of a dry run, ending in a newline: text as it is; a multipart
/// body laid out with only its non-text content summarised; any other body
/// that is not text, its length.
pub open spec fn body_shown(body: Seq<u8>, content_type: Option<Seq<char>>) -> Seq<char> {
    if vstd::utf8::valid_utf8(body) {
        let text = vstd::utf8::decode_utf8(body);
        if ends_in_newline(text) {
            text
        } else {
            text.push('\n')
        }
    } else {
        match content_type {
            Some(t) => match crate::multipart::summary_of(body, t) {
                Some(summary) => summary,
                None => "<"@ + decimal(body.len()) + " bytes>\n"@,
            },
            None => "<"@ + decimal(body.len()) + " bytes>\n"@,
        }
    }
}

/// One header line of a dry run.
pub open spec fn header_shown(header: (Seq<char>, Option<Seq<char>>)) -> Seq<char> {
    header.0 + ": "@ + match header.1 {
        Some(v) => v,
        None => "<non-utf8>"@,
    } + "\n"@
}

/// Every header line of a dry run, in order.
pub open spec fn headers_shown(headers: Seq<(Seq<char>, Option<Seq<char>>)>) -> Seq<char>
    decreases headers.len(),
{
    if headers.len() == 0 {
        seq![]
    } else {
        headers_shown(headers.drop_last()) + header_shown(headers.last())
    }
}

/// A request as a dry run shows it: the request line, the `host`, every
/// header, and the body after a blank line where there is one.
pub open spec fn request_shown(
    method: Seq<char>,
    target: Seq<char>,
    authority: Option<Seq<char>>,
    headers: Seq<(Seq<char>, Option<Seq<char>>)>,
    body: Seq<u8>,
) -> Seq<char> {
    method + " "@ + target + " HTTP/1.1\n"@ + match authority {
        Some(a) => "host: "@ + a + "\n"@,
        None => Seq::<char>::empty(),
    } + headers_shown(headers) + if body.len() == 0 {
        Seq::<char>::empty()
    } else {
        "\n"@ + body_shown(body, first_header(headers, "content-type"@))
    }
}

/// The request as it goes on the wire, for a dry run.
///
/// A binary body is summarised rather than printed: an agent reading a dry run
/// needs the headers and the length, not the bytes of a PDF. A multipart body
/// keeps every part's headers, so the file an upload sends is named with its
/// type.
///
/// The pieces are read through the `http` crate: the method, the target,
/// the authority, the header lines and the body of the request, laid out as
/// [`rendered`] lays them out.
pub fn render(request: &http::Request<Vec<u8>>) -> (out: String)
    ensures
        out@ == request_shown(
            request_method(*request),
            request_target(*request),
            request_authority(*request),
            request_headers(*request),
            request_body(*request),
        ),
{
    let method = method_of(request);
    let target = target_of(request);
    let authority = authority_of(request);
    let headers = header_list(request);
    let body = body_bytes(request);
    let ghost av = crate::reading::opt_view(authority);
    let ghost hv = headers@.map_values(|h: (String, Option<String>)| header_view(h));
    let out = rendered(method.as_str(), target.as_str(), authority, headers.as_slice(), body.as_slice());
    assert(out@ == request_shown(method@, target@, av, hv, body@));
    out
}

/// A dry run's text, from the pieces of a request.
pub fn rendered(
    method: &str,
    target: &str,
    authority: Option<String>,
    headers: &[(String, Option<String>)],
    body: &[u8],
) -> (out: String)
    ensures
        out@ == request_shown(
            method@,
            target@,
            match authority {
                Some(a) => Some(a@),
                None => None,
            },
            headers@.map_values(|h: (String, Option<String>)| header_view(h)),
            body@,
        ),
{
    let ghost hv = headers@.map_values(|h: (String, Option<String>)| header_view(h));
    let mut out: Vec<char> = Vec::new();
    append_str(&mut out, method);
    append_str(&mut out, " ");
    append_str(&mut out, target);
    append_str(&mut out, " HTTP/1.1\n");
    if let Some(a) = &authority {
        append_str(&mut out, "host: ");
        append_str(&mut out, a.as_str());
        append_str(&mut out, "\n");
    }
    let ghost lead = out@;
    let mut i: usize = 0;
    while i < headers.len()
        invariant
            i <= headers@.len(),
            hv == headers@.map_values(|h: (String, Option<String>)| header_view(h)),
            out@ == lead + headers_shown(hv.take(i as int)),
        decreases headers.len() - i,
    {
        append_str(&mut out, headers[i].0.as_str());
        append_str(&mut out, ": ");
        match &headers[i].1 {
            Some(v) => append_str(&mut out, v.as_str()),
            None => append_str(&mut out, "<non-utf8>"),
        }
        append_str(&mut out, "\n");
        proof {
            assert(hv.take(i + 1).drop_last() =~= hv.take(i as int));
            assert(hv.take(i + 1).last() == header_view(headers@[i as int]));
        }
        i += 1;
    }
    assert(hv.take(headers@.len() as int) =~= hv);
    if body.len() > 0 {
        append_str(&mut out, "\n");
        let content_type = find_header(headers, "content-type");
        let text = body_text(body, content_type);
        append_str(&mut out, text.as_str());
    }
    string_of(out.as_slice())
}

/// One header as the contracts read it.
pub open spec fn header_view(h: (String, Option<String>)) -> (Seq<char>, Option<Seq<char>>) {
    (
        h.0@,
        match h.1 {
            Some(v) => Some(v@),
            None => None,
        },
    )
}

/// The first value of the header called `name`, where it reads as text.
fn find_header(headers: &[(String, Option<String>)], name: &str) -> (r: Option<String>)
    ensures
        match first_header(headers@.map_values(|h: (String, Option<String>)| header_view(h)), name@) {
            Some(v) => r matches Some(s) && s@ == v,
            None => r is None,
        },
{
    let ghost hv = headers@.map_values(|h: (String, Option<String>)| header_view(h));
    let mut i: usize = 0;
    assert(hv.skip(0) =~= hv);
    while i < headers.len()
        invariant
            i <= headers@.len(),
            hv == headers@.map_values(|h: (String, Option<String>)| header_view(h)),
            first_header(hv, name@) == first_header(hv.skip(i as int), name@),
        decreases headers.len() - i,
    {
        assert(hv.skip(i as int).drop_first() =~= hv.skip(i + 1));
        assert(hv.skip(i as int)[0] == header_view(headers@[i as int]));
        if crate::text::str_is(headers[i].0.as_str(), name) {
            return match &headers[i].1 {
                Some(v) => Some(v.clone()),
                None => None,
            };
        }
        i += 1;
    }
    None
}

/// The body of a dry run, ending in a newline.
fn body_text(body: &[u8], content_type: Option<String>) -> (out: String)
    ensures
        out@ == body_shown(
            body@,
            match content_type {
                Some(t) => Some(t@),
                None => None,
            },
        ),
{
    match crate::text::utf8_text(body) {
        Some(text) => {
            let mut out = chars_of(text.as_str());
            let n = out.len();
            if n == 0 || out[n - 1] != '\n' {
                out.push('\n');
            }
            return string_of(out.as_slice());
        },
        None => {},
    }
    let summary = match &content_type {
        Some(t) => crate::multipart::summarised(body, t.as_str()),
        None => None,
    };
    match summary {
        Some(s) => s,
        None => {
            let mut out: Vec<char> = Vec::new();
            append_str(&mut out, "<");
            let digits = decimal_of(body.len() as u128);
            append_chars(&mut out, digits.as_slice());
            append_str(&mut out, " bytes>\n");
            string_of(out.as_slice())
        },
    }
}

} // verus!

verus! {

/// A `form` query parameter is sent the way OpenAPI's `explode` says: with
/// `explode: false`, every value comma-separated in one field, `ids=1,2`;
/// with `explode: true`, or nothing said, one field per value,
/// `ids=1&ids=2`.
pub proof fn lemma_form_query_fields(explode: Option<bool>, name: Seq<char>, values: Seq<Seq<char>>)
    ensures
        crate::reduce::query_join_for(crate::openapi::QueryStyle::Form, explode) matches Ok(j) && ({
            let fields = query_fields(seq![Group { name, join: Some(j), values }]);
            let key = url_encoded(name);
            &&& explode == Some(false) ==> fields == seq![
                key + "="@ + joined(values.map_values(|v: Seq<char>| url_encoded(v)), ","@),
            ]
            &&& explode != Some(false) ==> fields.len() == values.len() && forall|i: int|
                0 <= i < values.len() ==> #[trigger] fields[i] == key + "="@ + url_encoded(values[i])
        }),
{
    let j = crate::reduce::query_join_for(crate::openapi::QueryStyle::Form, explode)->Ok_0;
    let g = Group { name, join: Some(j), values };
    let gs = seq![g];
    assert(gs.drop_last() =~= Seq::<Group>::empty());
    assert(gs.last() == g);
    let fields = query_fields(gs);
    let key = url_encoded(name);
    assert(query_fields(gs.drop_last()) == Seq::<Seq<char>>::empty());
    if explode == Some(false) {
        assert(j == Join::Commas);
        assert(fields == seq![key + "="@ + commas_text(values)]);
        assert(commas_text(values) == joined(values.map_values(|v: Seq<char>| url_encoded(v)), ","@));
    } else {
        assert(j == Join::Pairs);
        let per = values.map_values(|v: Seq<char>| key + "="@ + url_encoded(v));
        assert(fields == Seq::<Seq<char>>::empty() + per);
        assert(fields =~= per);
    }
}

} // verus!

verus! {

/// A character a URL may carry as it is, by RFC 3986: an ASCII letter or
/// digit, `-`, `.`, `_` or `~`.
pub open spec fn url_safe(c: char) -> bool {
    crate::text::is_alnum(c) || c == '-' || c == '.' || c == '_' || c == '~'
}

/// Percent-encoding writes only what a URL may carry as it is, and `%`.
proof fn lemma_percent_alphabet(bytes: Seq<u8>)
    ensures
        forall|i: int| 0 <= i < percent(bytes).len() ==> #[trigger] url_safe(percent(bytes)[i]) || percent(bytes)[i] == '%',
    decreases bytes.len(),
{
    if bytes.len() > 0 {
        lemma_percent_alphabet(bytes.drop_last());
        let b = bytes.last();
        let e = escaped(b);
        let before = percent(bytes.drop_last());
        assert((b as char) as u32 == b as u32);
        let hi = (b / 16) as nat;
        let lo = (b % 16) as nat;
        assert(hex_digit(hi) as u32 == if hi < 10 { 48 + hi } else { 55 + hi });
        assert(hex_digit(lo) as u32 == if lo < 10 { 48 + lo } else { 55 + lo });
        assert forall|i: int| 0 <= i < percent(bytes).len() implies #[trigger] url_safe(percent(bytes)[i]) || percent(bytes)[i] == '%' by {
            if i < before.len() {
                assert(percent(bytes)[i] == before[i]);
            } else {
                assert(percent(bytes)[i] == e[i - before.len()]);
            }
        }
    }
}

/// Whatever text goes in, its percent-encoding holds nothing but ASCII
/// letters and digits, `-`, `.`, `_`, `~` and `%`: a `+`, a space, a `/` or
/// an `&` in a value always goes out escaped, never as itself.
pub proof fn lemma_encoded_alphabet(raw: Seq<char>)
    ensures
        forall|i: int| 0 <= i < url_encoded(raw).len() ==> #[trigger] url_safe(url_encoded(raw)[i]) || url_encoded(raw)[i] == '%',
{
    lemma_percent_alphabet(encode_utf8(raw));
}

/// Bytes a URL may carry as they are, percent-encoded, are those bytes.
proof fn lemma_percent_safe(bytes: Seq<u8>)
    requires
        forall|i: int| 0 <= i < bytes.len() ==> #[trigger] url_safe(bytes[i] as char),
    ensures
        percent(bytes).len() == bytes.len(),
        forall|i: int| 0 <= i < bytes.len() ==> #[trigger] percent(bytes)[i] == bytes[i] as char,
    decreases bytes.len(),
{
    if bytes.len() > 0 {
        let b = bytes.last();
        assert(url_safe(bytes[bytes.len() - 1] as char));
        assert((b as char) as u32 == b as u32);
        assert(unreserved(b));
        lemma_percent_safe(bytes.drop_last());
        assert forall|i: int| 0 <= i < bytes.len() implies #[trigger] percent(bytes)[i] == bytes[i] as char by {
            if i < bytes.len() - 1 {
                assert(bytes.drop_last()[i] == bytes[i]);
            }
        }
    }
}

/// Text made only of what a URL may carry as it is goes out unchanged.
pub proof fn lemma_safe_text_unchanged(raw: Seq<char>)
    requires
        forall|i: int| 0 <= i < raw.len() ==> #[trigger] url_safe(raw[i]),
    ensures
        url_encoded(raw) == raw,
{
    assert forall|i: int| 0 <= i < raw.len() implies (#[trigger] raw[i] as u32) < 0x80 by {
        assert(url_safe(raw[i]));
    }
    crate::readback::lemma_ascii_encoding(raw);
    let bytes = encode_utf8(raw);
    assert forall|i: int| 0 <= i < bytes.len() implies #[trigger] url_safe(bytes[i] as char) by {
        assert(bytes[i] == raw[i] as u32);
        vstd::utf8::char_u32_cast(raw[i], raw[i] as u32);
        assert((bytes[i] as char) as u32 == bytes[i] as u32);
        vstd::utf8::char_u32_cast(bytes[i] as char, bytes[i] as u32);
        assert(bytes[i] as char == raw[i]);
    }
    lemma_percent_safe(bytes);
    assert forall|i: int| 0 <= i < raw.len() implies url_encoded(raw)[i] == raw[i] by {
        assert(url_encoded(raw)[i] == bytes[i] as char);
        assert(bytes[i] == raw[i] as u32);
        vstd::utf8::char_u32_cast(raw[i], raw[i] as u32);
        vstd::utf8::char_u32_cast(bytes[i] as char, bytes[i] as u32);
    }
    assert(url_encoded(raw) =~= raw);
}

/// What an uppercase hexadecimal digit stands for; `0` for anything else.
pub open spec fn hex_value(c: char) -> int {
    if '0' <= c <= '9' {
        c as int - 48
    } else if 'A' <= c <= 'F' {
        c as int - 55
    } else {
        0
    }
}

/// Percent-decoding, left to right: `%` and two uppercase hexadecimal digits
/// are the byte they spell; any other character is its own byte.
pub open spec fn percent_decoded(s: Seq<char>) -> Seq<u8>
    decreases s.len(),
{
    if s.len() == 0 {
        seq![]
    } else if s.len() >= 3 && s[0] == '%' {
        seq![(hex_value(s[1]) * 16 + hex_value(s[2])) as u8] + percent_decoded(s.skip(3))
    } else {
        seq![s[0] as u8] + percent_decoded(s.drop_first())
    }
}

proof fn lemma_hex_value(n: nat)
    requires
        n < 16,
    ensures
        hex_value(hex_digit(n)) == n,
{
    if n < 10 {
        assert(hex_digit(n) as u32 == 48 + n);
    } else {
        assert(hex_digit(n) as u32 == 55 + n);
    }
}

/// One byte, escaped, decodes back to that byte ahead of whatever follows.
proof fn lemma_escaped_decodes(b: u8, y: Seq<char>)
    ensures
        percent_decoded(escaped(b) + y) == seq![b] + percent_decoded(y),
{
    let e = escaped(b);
    if unreserved(b) {
        assert((b as char) as u32 == b as u32);
        assert((e + y).drop_first() =~= y);
        assert((e + y)[0] == b as char);
        assert(((b as char) as u8) == b);
    } else {
        let hi = (b / 16) as nat;
        let lo = (b % 16) as nat;
        lemma_hex_value(hi);
        lemma_hex_value(lo);
        assert((e + y).skip(3) =~= y);
        assert((e + y)[0] == '%');
        assert((e + y)[1] == hex_digit(hi));
        assert((e + y)[2] == hex_digit(lo));
        assert(hi * 16 + lo == b);
    }
}

proof fn lemma_percent_decodes(bytes: Seq<u8>, y: Seq<char>)
    ensures
        percent_decoded(percent(bytes) + y) == bytes + percent_decoded(y),
    decreases bytes.len(),
{
    if bytes.len() == 0 {
        assert(percent(bytes) + y =~= y);
        assert(bytes + percent_decoded(y) =~= percent_decoded(y));
    } else {
        let init = bytes.drop_last();
        let b = bytes.last();
        assert(percent(bytes) + y =~= percent(init) + (escaped(b) + y));
        lemma_percent_decodes(init, escaped(b) + y);
        lemma_escaped_decodes(b, y);
        assert(bytes =~= init + seq![b]);
        assert(init + (seq![b] + percent_decoded(y)) =~= bytes + percent_decoded(y));
    }
}

/// Percent-decoding what was percent-encoded gives back the UTF-8 of the
/// text exactly: every byte that was escaped is written as `%` and its two
/// uppercase hexadecimal digits, and nothing is lost or changed.
pub proof fn lemma_encoded_decodes(raw: Seq<char>)
    ensures
        percent_decoded(url_encoded(raw)) == encode_utf8(raw),
{
    lemma_percent_decodes(encode_utf8(raw), Seq::<char>::empty());
    assert(url_encoded(raw) + Seq::<char>::empty() =~= url_encoded(raw));
    assert(encode_utf8(raw) + Seq::<u8>::empty() =~= encode_utf8(raw));
}

} // verus!
