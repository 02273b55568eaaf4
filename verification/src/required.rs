//! Refusing a document that requires a key nothing declares.
//!
//! A *phantom* key is a name in a schema's `required` list that neither that
//! schema nor anything it composes with declares. The document is saying two
//! things at once — this key must be sent, and this key does not exist — and
//! one of the two statements is a mistake that the document does not say
//! which.
//!
//! What is here is the vocabulary of that refusal: where a node stands,
//! spelled the way an Overlay names a target; which keys lead to a schema at
//! all; how a `$ref` is followed inside the document; and what a set of
//! schemas admits.

use vstd::prelude::*;

use crate::json::Json;
use crate::request::replaced;
use crate::text::{
    append_chars, append_str, chars_of, decimal, decimal_of, index_of, is_alnum, is_digit,
    is_lower, is_upper, joined, lemma_index_of_bound, str_is, string_of,
};

verus! {

/// One step of the way down to a node: a key of an object, or a position in
/// a list.
#[derive(Debug, Clone, Copy)]
pub enum Step<'d> {
    Key(&'d str),
    Index(usize),
}

/// A name that needs no quoting after a dot: an ASCII letter or `_`, then
/// ASCII letters, digits and `_`.
pub open spec fn bare(key: Seq<char>) -> bool {
    &&& key.len() > 0
    &&& (is_upper(key[0]) || is_lower(key[0]) || key[0] == '_')
    &&& forall|i: int| 0 <= i < key.len() ==> is_alnum(#[trigger] key[i]) || key[i] == '_'
}

/// A key with `\` and `'` escaped, as it stands inside `['…']`.
pub open spec fn quoted_key(key: Seq<char>) -> Seq<char> {
    replaced(replaced(key, "\\"@, "\\\\"@), "'"@, "\\'"@)
}

/// One step as a path spells it.
pub open spec fn step_text(step: Step) -> Seq<char> {
    match step {
        Step::Index(i) => "["@ + decimal(i as nat) + "]"@,
        Step::Key(key) => if bare(key@) {
            "."@ + key@
        } else {
            "['"@ + quoted_key(key@) + "']"@
        },
    }
}

/// The steps as a path spells them, one after another.
pub open spec fn steps_text(at: Seq<Step>) -> Seq<char>
    decreases at.len(),
{
    if at.len() == 0 {
        seq![]
    } else {
        steps_text(at.drop_last()) + step_text(at.last())
    }
}

/// Where a node stands, spelled the way an Overlay names a target: `$`, then
/// each step.
pub open spec fn location(at: Seq<Step>) -> Seq<char> {
    "$"@ + steps_text(at)
}

/// A name that needs no quoting after a dot.
pub fn is_bare(key: &str) -> (r: bool)
    ensures
        r == bare(key@),
{
    let chars = chars_of(key);
    if chars.len() == 0 {
        return false;
    }
    let first = chars[0];
    if !(('A' <= first && first <= 'Z') || ('a' <= first && first <= 'z') || first == '_') {
        return false;
    }
    let mut i: usize = 0;
    while i < chars.len()
        invariant
            i <= chars@.len(),
            chars@ == key@,
            forall|j: int| 0 <= j < i ==> is_alnum(#[trigger] chars@[j]) || chars@[j] == '_',
        decreases chars.len() - i,
    {
        let c = chars[i];
        if !(('A' <= c && c <= 'Z') || ('a' <= c && c <= 'z') || ('0' <= c && c <= '9') || c == '_') {
            return false;
        }
        i += 1;
    }
    true
}

/// `s` with every `pat` replaced by `with`, left to right.
fn replace_text(s: &[char], pat: &str, with: &str) -> (out: Vec<char>)
    requires
        pat@.len() > 0,
    ensures
        out@ == replaced(s@, pat@, with@),
{
    let p = chars_of(pat);
    let w = chars_of(with);
    crate::request::replace_all(s, p.as_slice(), w.as_slice())
}

/// Where the walk is, spelled the way an Overlay names a target.
///
/// A bare word is written after a dot and everything else is quoted in
/// brackets, which is how a key with a `/` in it — every path, and every media
/// type — comes back as something an adopter can paste.
pub fn spelled(at: &[Step]) -> (r: String)
    ensures
        r@ == location(at@),
{
    let mut out: Vec<char> = Vec::new();
    append_str(&mut out, "$");
    let ghost start = out@;
    let mut i: usize = 0;
    while i < at.len()
        invariant
            i <= at@.len(),
            out@ == start + steps_text(at@.take(i as int)),
            start == "$"@,
        decreases at.len() - i,
    {
        match at[i] {
            Step::Index(index) => {
                append_str(&mut out, "[");
                let digits = decimal_of(index as u128);
                append_chars(&mut out, digits.as_slice());
                append_str(&mut out, "]");
            },
            Step::Key(key) => {
                if is_bare(key) {
                    append_str(&mut out, ".");
                    append_str(&mut out, key);
                } else {
                    append_str(&mut out, "['");
                    let chars = chars_of(key);
                    proof {
                        reveal_strlit("\\");
                        reveal_strlit("'");
                    }
                    let once = replace_text(chars.as_slice(), "\\", "\\\\");
                    let twice = replace_text(once.as_slice(), "'", "\\'");
                    append_chars(&mut out, twice.as_slice());
                    append_str(&mut out, "']");
                }
            },
        }
        proof {
            assert(at@.take(i + 1).drop_last() =~= at@.take(i as int));
            assert(at@.take(i + 1).last() == at@[i as int]);
        }
        i += 1;
    }
    assert(at@.take(at@.len() as int) =~= at@);
    string_of(out.as_slice())
}

/// A specification extension: a key the specification says carries the
/// vendor's own arbitrary JSON.
pub open spec fn extension(key: Seq<char>) -> bool {
    key.len() >= 2 && key[0] == 'x' && key[1] == '-'
}

/// A specification extension: a key the specification says carries the
/// vendor's own arbitrary JSON, so what stands under it is never read as part
/// of the document.
pub fn is_extension(key: &str) -> (r: bool)
    ensures
        r == extension(key@),
{
    let chars = chars_of(key);
    chars.len() >= 2 && chars[0] == 'x' && chars[1] == '-'
}

/// One node whose `required` names keys nothing it declares.
#[derive(Debug, Clone, PartialEq, Eq)]
pub struct Phantom {
    /// Where the node is, spelled the way an Overlay names a target.
    pub at: String,
    /// The names it requires and nothing declares, in the order the document
    /// lists them.
    pub names: Vec<String>,
}

/// One phantom as a refusal line states it: where, then each name quoted.
pub open spec fn phantom_text(p: Phantom) -> Seq<char> {
    p.at@ + " requires "@ + joined(p.names@.map_values(|n: String| "`"@ + n@ + "`"@), ", "@)
}

/// A document that requires keys it declares nowhere. Every such node is
/// named at once, in document order.
#[derive(Debug, Clone, PartialEq, Eq)]
pub struct PhantomKeys {
    pub nodes: Vec<Phantom>,
}

/// The refusal for `nodes`: what is wrong and where to repair it, then one
/// indented line per node.
pub open spec fn phantom_keys_text(nodes: Seq<Phantom>) -> Seq<char> {
    "the document requires keys that nothing declares; declare each key in an Overlay, or drop its name from the `required` that asks for it:\n"@
        + joined(nodes.map_values(|p: Phantom| "  "@ + phantom_text(p)), "\n"@)
}

impl Phantom {
    /// `<where> requires `a`, `b``.
    pub fn message(&self) -> (out: String)
        ensures
            out@ == phantom_text(*self),
    {
        let mut quoted: Vec<String> = Vec::new();
        let mut i: usize = 0;
        while i < self.names.len()
            invariant
                i <= self.names@.len(),
                quoted@.len() == i,
                forall|j: int| 0 <= j < i ==> (#[trigger] quoted@[j])@ == "`"@ + self.names@[j]@ + "`"@,
            decreases self.names.len() - i,
        {
            let mut one: Vec<char> = Vec::new();
            append_str(&mut one, "`");
            append_str(&mut one, self.names[i].as_str());
            append_str(&mut one, "`");
            quoted.push(string_of(one.as_slice()));
            i += 1;
        }
        assert(quoted@.map_values(|s: String| s@) =~= self.names@.map_values(
            |n: String| "`"@ + n@ + "`"@,
        ));
        let list = crate::text::join_strings(quoted.as_slice(), ", ");
        let mut out = chars_of(self.at.as_str());
        append_str(&mut out, " requires ");
        append_chars(&mut out, list.as_slice());
        string_of(out.as_slice())
    }
}

impl PhantomKeys {
    /// The refusal, one line per node, so that a bless run finding several
    /// shows all of them.
    pub fn message(&self) -> (out: String)
        ensures
            out@ == phantom_keys_text(self.nodes@),
    {
        let mut lines: Vec<String> = Vec::new();
        let mut i: usize = 0;
        while i < self.nodes.len()
            invariant
                i <= self.nodes@.len(),
                lines@.len() == i,
                forall|j: int|
                    0 <= j < i ==> (#[trigger] lines@[j])@ == "  "@ + phantom_text(self.nodes@[j]),
            decreases self.nodes.len() - i,
        {
            let mut one: Vec<char> = Vec::new();
            append_str(&mut one, "  ");
            let text = self.nodes[i].message();
            append_str(&mut one, text.as_str());
            lines.push(string_of(one.as_slice()));
            i += 1;
        }
        assert(lines@.map_values(|s: String| s@) =~= self.nodes@.map_values(
            |p: Phantom| "  "@ + phantom_text(p),
        ));
        let list = crate::text::join_strings(lines.as_slice(), "\n");
        let mut out: Vec<char> = Vec::new();
        append_str(
            &mut out,
            "the document requires keys that nothing declares; declare each key in an Overlay, or drop its name from the `required` that asks for it:\n",
        );
        append_chars(&mut out, list.as_slice());
        string_of(out.as_slice())
    }
}

/// The value an object holds under `key`: the first field so named.
pub open spec fn field_of(node: Json, key: Seq<char>) -> Option<Json> {
    match node {
        Json::Object(fields) => match first_key(fields@, key) {
            Some(i) => Some(fields@[i].1),
            None => None,
        },
        _ => None,
    }
}

/// The position of the first field called `key`.
pub open spec fn first_key(fields: Seq<(String, Json)>, key: Seq<char>) -> Option<int> {
    if exists|i: int| 0 <= i < fields.len() && (#[trigger] fields[i]).0@ == key {
        Some(
            choose|i: int|
                0 <= i < fields.len() && (#[trigger] fields[i]).0@ == key && forall|j: int|
                    0 <= j < i ==> (#[trigger] fields[j]).0@ != key,
        )
    } else {
        None
    }
}

/// The value an object holds under `key`: the first field so named.
pub fn get<'a>(node: &'a Json, key: &str) -> (r: Option<&'a Json>)
    ensures
        match field_of(*node, key@) {
            Some(v) => r matches Some(x) && *x == v,
            None => r is None,
        },
{
    match node {
        Json::Object(fields) => {
            let ghost target = field_of(*node, key@);
            assert(target == match first_key(fields@, key@) {
                Some(i) => Some(fields@[i].1),
                None => None,
            });
            let mut i: usize = 0;
            while i < fields.len()
                invariant
                    target == field_of(*node, key@),
                    target == match first_key(fields@, key@) {
                        Some(i) => Some(fields@[i].1),
                        None => None,
                    },
                    i <= fields@.len(),
                    forall|j: int| 0 <= j < i ==> (#[trigger] fields@[j]).0@ != key@,
                decreases fields.len() - i,
            {
                if str_is(fields[i].0.as_str(), key) {
                    proof {
                        assert(fields@[i as int].0@ == key@);
                        let k = choose|k: int|
                            0 <= k < fields@.len() && (#[trigger] fields@[k]).0@ == key@ && forall|
                                j: int,
                            | 0 <= j < k ==> (#[trigger] fields@[j]).0@ != key@;
                        if k < i {
                            assert(fields@[k].0@ != key@);
                        } else if k > i {
                            assert(fields@[i as int].0@ != key@);
                        }
                        assert(k == i);
                        assert(first_key(fields@, key@) == Some(i as int));
                    }
                    return Some(&fields[i].1);
                }
                i += 1;
            }
            None
        },
        _ => None,
    }
}

/// `s` cut at every `c`.
pub open spec fn pieces(s: Seq<char>, c: char) -> Seq<Seq<char>>
    decreases s.len(),
{
    match index_of(s, c) {
        Some(k) => {
            proof {
                lemma_index_of_bound(s, c);
            }
            seq![s.take(k)] + pieces(s.skip(k + 1), c)
        },
        None => seq![s],
    }
}

/// One pointer step unescaped as RFC 6901 states it, and in its order: `~1`
/// first, then `~0`, so that `~01` comes back as `~1` and not as `/`.
pub open spec fn unescaped(step: Seq<char>) -> Seq<char> {
    replaced(replaced(step, "~1"@, "/"@), "~0"@, "~"@)
}

/// The node the steps lead to from `node`, if each one names a field.
pub open spec fn followed_steps(node: Json, steps: Seq<Seq<char>>) -> Option<Json>
    decreases steps.len(),
{
    if steps.len() == 0 {
        Some(node)
    } else {
        match field_of(node, unescaped(steps[0])) {
            Some(next) => followed_steps(next, steps.drop_first()),
            None => None,
        }
    }
}

/// The node a `$ref` names: only a pointer into this document, `#/…`.
pub open spec fn pointer_target(doc: Json, reference: Seq<char>) -> Option<Json> {
    if reference.len() >= 2 && reference[0] == '#' && reference[1] == '/' {
        followed_steps(doc, pieces(reference.skip(2), '/'))
    } else {
        None
    }
}

/// `s` cut at every `c`.
fn cut(s: &[char], c: char) -> (out: Vec<Vec<char>>)
    ensures
        out@.map_values(|p: Vec<char>| p@) == pieces(s@, c),
    decreases s@.len(),
{
    let n = s.len();
    match crate::text::find_char(s, c) {
        Some(k) => {
            proof {
                lemma_index_of_bound(s@, c);
            }
            let mut head: Vec<char> = Vec::new();
            let mut i: usize = 0;
            while i < k
                invariant
                    i <= k < n,
                    n == s@.len(),
                    head@ == s@.take(i as int),
                decreases k - i,
            {
                head.push(s[i]);
                assert(s@.take(i + 1) =~= s@.take(i as int).push(s@[i as int]));
                i += 1;
            }
            let mut tail: Vec<char> = Vec::new();
            let mut j: usize = k + 1;
            while j < n
                invariant
                    k + 1 <= j <= n,
                    n == s@.len(),
                    tail@ == s@.subrange(k + 1, j as int),
                decreases n - j,
            {
                tail.push(s[j]);
                j += 1;
            }
            assert(tail@ =~= s@.skip(k + 1));
            let mut out: Vec<Vec<char>> = Vec::new();
            out.push(head);
            let mut rest = cut(tail.as_slice(), c);
            let ghost rest_view = rest@.map_values(|p: Vec<char>| p@);
            out.append(&mut rest);
            assert(out@.map_values(|p: Vec<char>| p@) =~= seq![s@.take(k as int)] + rest_view);
            out
        },
        None => {
            let mut whole: Vec<char> = Vec::new();
            let mut i: usize = 0;
            while i < n
                invariant
                    i <= n,
                    n == s@.len(),
                    whole@ == s@.take(i as int),
                decreases n - i,
            {
                whole.push(s[i]);
                assert(s@.take(i + 1) =~= s@.take(i as int).push(s@[i as int]));
                i += 1;
            }
            assert(s@.take(n as int) =~= s@);
            let mut out: Vec<Vec<char>> = Vec::new();
            out.push(whole);
            assert(out@.map_values(|p: Vec<char>| p@) =~= seq![s@]);
            out
        },
    }
}

/// The node a `$ref` names, if it is a pointer into this document and the
/// document holds one there. A reference into another file is one this walk
/// cannot follow.
pub fn pointed_at<'d>(doc: &'d Json, reference: &str) -> (r: Option<&'d Json>)
    ensures
        match pointer_target(*doc, reference@) {
            Some(v) => r matches Some(x) && *x == v,
            None => r is None,
        },
{
    let chars = chars_of(reference);
    let n = chars.len();
    if !(n >= 2 && chars[0] == '#' && chars[1] == '/') {
        return None;
    }
    let mut rest: Vec<char> = Vec::new();
    let mut i: usize = 2;
    while i < n
        invariant
            2 <= i <= n,
            n == chars@.len(),
            rest@ == chars@.subrange(2, i as int),
        decreases n - i,
    {
        rest.push(chars[i]);
        i += 1;
    }
    assert(rest@ =~= reference@.skip(2));
    let steps = cut(rest.as_slice(), '/');
    let ghost all = steps@.map_values(|p: Vec<char>| p@);
    let mut node: &'d Json = doc;
    let mut k: usize = 0;
    assert(all.skip(0) =~= all);
    assert(pointer_target(*doc, reference@) == followed_steps(*doc, all));
    while k < steps.len()
        invariant
            k <= steps@.len(),
            all == steps@.map_values(|p: Vec<char>| p@),
            pointer_target(*doc, reference@) == followed_steps(*node, all.skip(k as int)),
        decreases steps.len() - k,
    {
        proof {
            reveal_strlit("~1");
            reveal_strlit("~0");
            assert(all.skip(k as int)[0] == steps@[k as int]@);
            assert(all.skip(k as int).drop_first() =~= all.skip(k + 1));
        }
        let once = replace_text(steps[k].as_slice(), "~1", "/");
        let twice = replace_text(once.as_slice(), "~0", "~");
        let step = string_of(twice.as_slice());
        assert(step@ == unescaped(all.skip(k as int)[0]));
        match get(node, step.as_str()) {
            Some(next) => node = next,
            None => {
                assert(followed_steps(*node, all.skip(k as int)) is None);
                return None;
            },
        }
        k += 1;
    }
    assert(all.skip(k as int) =~= Seq::<Seq<char>>::empty());
    Some(node)
}

/// What a set of schemas admits: the names they declare, and whether they
/// admit names they do not declare.
#[derive(Debug)]
pub struct Admits {
    pub named: Vec<String>,
    pub any: bool,
}

/// Whether a value under `name` is one these schemas admit.
pub open spec fn admits_name(a: Admits, name: Seq<char>) -> bool {
    a.any || exists|i: int| 0 <= i < a.named@.len() && (#[trigger] a.named@[i])@ == name
}

impl Admits {
    /// Whether a value under this name is one these schemas admit.
    pub fn covers(&self, name: &str) -> (r: bool)
        ensures
            r == admits_name(*self, name@),
    {
        if self.any {
            return true;
        }
        let mut i: usize = 0;
        while i < self.named.len()
            invariant
                i <= self.named@.len(),
                forall|j: int| 0 <= j < i ==> (#[trigger] self.named@[j])@ != name@,
            decreases self.named.len() - i,
        {
            if str_is(self.named[i].as_str(), name) {
                return true;
            }
            i += 1;
        }
        false
    }
}

// ---------------------------------------------------------------------------
// The walk
// ---------------------------------------------------------------------------

/// Where a node stands in the document. The document's own shape is what
/// says whether a node is a schema, so the walk carries that answer down
/// rather than asking each node what it looks like.
#[derive(Debug, Clone, Copy, PartialEq, Eq, Structural)]
pub enum Kind {
    Root,
    Components,
    PathItem,
    Operation,
    Callback,
    Parameter,
    Header,
    RequestBody,
    Response,
    MediaType,
    Encoding,
    Schema,
}

/// What stands under a key that leads somewhere: one node of a kind (or,
/// where the key holds a list of them, each member), or a map whose values
/// are each one node of a kind.
#[derive(Debug, Clone, Copy, PartialEq, Eq, Structural)]
pub enum Route {
    Node(Kind),
    Entries(Kind),
}

/// One of the eight methods a path item names an operation by.
pub open spec fn method_key(key: Seq<char>) -> bool {
    key == "get"@ || key == "put"@ || key == "post"@ || key == "delete"@ || key == "options"@
        || key == "head"@ || key == "patch"@ || key == "trace"@
}

/// What a node composes with: its members declare for the same value it does.
pub open spec fn composed(key: Seq<char>) -> bool {
    key == "allOf"@ || key == "anyOf"@ || key == "oneOf"@
}

/// The keywords whose subschemas constrain the same value, but which the walk
/// does not read as declarations.
pub open spec fn conditional(key: Seq<char>) -> bool {
    key == "not"@ || key == "if"@ || key == "then"@ || key == "else"@
}

/// What one of a schema's keywords leads to: every keyword whose value is a
/// schema, or a list or a map of them.
pub open spec fn keyword_route(key: Seq<char>) -> Option<Route> {
    if key == "properties"@ || key == "patternProperties"@ || key == "$defs"@ || key
        == "definitions"@ || key == "dependentSchemas"@ {
        Some(Route::Entries(Kind::Schema))
    } else if key == "items"@ || key == "prefixItems"@ || key == "additionalProperties"@ || key
        == "unevaluatedProperties"@ || key == "unevaluatedItems"@ || key == "propertyNames"@
        || key == "contains"@ || key == "contentSchema"@ || composed(key) || conditional(key) {
        Some(Route::Node(Kind::Schema))
    } else {
        None
    }
}

/// What one of a node's keys leads to, and `None` for a key with no schema
/// anywhere under it: the positions the specification puts a schema under,
/// and nothing it leaves to the vendor.
pub open spec fn route_for(kind: Kind, key: Seq<char>) -> Option<Route> {
    match kind {
        Kind::Root => if key == "components"@ {
            Some(Route::Node(Kind::Components))
        } else if key == "paths"@ || key == "webhooks"@ {
            Some(Route::Entries(Kind::PathItem))
        } else {
            None
        },
        Kind::Components => if key == "pathItems"@ {
            Some(Route::Entries(Kind::PathItem))
        } else if key == "callbacks"@ {
            Some(Route::Entries(Kind::Callback))
        } else if key == "parameters"@ {
            Some(Route::Entries(Kind::Parameter))
        } else if key == "requestBodies"@ {
            Some(Route::Entries(Kind::RequestBody))
        } else if key == "responses"@ {
            Some(Route::Entries(Kind::Response))
        } else if key == "headers"@ {
            Some(Route::Entries(Kind::Header))
        } else if key == "schemas"@ {
            Some(Route::Entries(Kind::Schema))
        } else {
            None
        },
        Kind::Callback => if !extension(key) {
            Some(Route::Node(Kind::PathItem))
        } else {
            None
        },
        Kind::PathItem => if method_key(key) {
            Some(Route::Node(Kind::Operation))
        } else if key == "parameters"@ {
            Some(Route::Node(Kind::Parameter))
        } else {
            None
        },
        Kind::Operation => if key == "callbacks"@ {
            Some(Route::Entries(Kind::Callback))
        } else if key == "parameters"@ {
            Some(Route::Node(Kind::Parameter))
        } else if key == "requestBody"@ {
            Some(Route::Node(Kind::RequestBody))
        } else if key == "responses"@ {
            Some(Route::Entries(Kind::Response))
        } else {
            None
        },
        Kind::Parameter | Kind::Header => if key == "content"@ {
            Some(Route::Entries(Kind::MediaType))
        } else if key == "schema"@ {
            Some(Route::Node(Kind::Schema))
        } else {
            None
        },
        Kind::RequestBody => if key == "content"@ {
            Some(Route::Entries(Kind::MediaType))
        } else {
            None
        },
        Kind::Response => if key == "headers"@ {
            Some(Route::Entries(Kind::Header))
        } else if key == "content"@ {
            Some(Route::Entries(Kind::MediaType))
        } else {
            None
        },
        Kind::MediaType => if key == "encoding"@ {
            Some(Route::Entries(Kind::Encoding))
        } else if key == "schema"@ {
            Some(Route::Node(Kind::Schema))
        } else {
            None
        },
        Kind::Encoding => if key == "headers"@ {
            Some(Route::Entries(Kind::Header))
        } else {
            None
        },
        Kind::Schema => keyword_route(key),
    }
}

/// Whether `key` is one a node composes with.
pub fn is_composed(key: &str) -> (r: bool)
    ensures
        r == composed(key@),
{
    str_is(key, "allOf") || str_is(key, "anyOf") || str_is(key, "oneOf")
}

/// Whether `key` is a conditional keyword.
pub fn is_conditional(key: &str) -> (r: bool)
    ensures
        r == conditional(key@),
{
    str_is(key, "not") || str_is(key, "if") || str_is(key, "then") || str_is(key, "else")
}

/// What one of a schema's keywords leads to.
pub fn keyword(key: &str) -> (r: Option<Route>)
    ensures
        r == keyword_route(key@),
{
    if str_is(key, "properties") || str_is(key, "patternProperties") || str_is(key, "$defs")
        || str_is(key, "definitions") || str_is(key, "dependentSchemas") {
        Some(Route::Entries(Kind::Schema))
    } else if str_is(key, "items") || str_is(key, "prefixItems") || str_is(key, "additionalProperties")
        || str_is(key, "unevaluatedProperties") || str_is(key, "unevaluatedItems") || str_is(
        key,
        "propertyNames",
    ) || str_is(key, "contains") || str_is(key, "contentSchema") || is_composed(key)
        || is_conditional(key) {
        Some(Route::Node(Kind::Schema))
    } else {
        None
    }
}

/// What one of a node's keys leads to.
pub fn route(kind: Kind, key: &str) -> (r: Option<Route>)
    ensures
        r == route_for(kind, key@),
{
    match kind {
        Kind::Root => if str_is(key, "components") {
            Some(Route::Node(Kind::Components))
        } else if str_is(key, "paths") || str_is(key, "webhooks") {
            Some(Route::Entries(Kind::PathItem))
        } else {
            None
        },
        Kind::Components => if str_is(key, "pathItems") {
            Some(Route::Entries(Kind::PathItem))
        } else if str_is(key, "callbacks") {
            Some(Route::Entries(Kind::Callback))
        } else if str_is(key, "parameters") {
            Some(Route::Entries(Kind::Parameter))
        } else if str_is(key, "requestBodies") {
            Some(Route::Entries(Kind::RequestBody))
        } else if str_is(key, "responses") {
            Some(Route::Entries(Kind::Response))
        } else if str_is(key, "headers") {
            Some(Route::Entries(Kind::Header))
        } else if str_is(key, "schemas") {
            Some(Route::Entries(Kind::Schema))
        } else {
            None
        },
        Kind::Callback => if !is_extension(key) {
            Some(Route::Node(Kind::PathItem))
        } else {
            None
        },
        Kind::PathItem => if str_is(key, "get") || str_is(key, "put") || str_is(key, "post") || str_is(
            key,
            "delete",
        ) || str_is(key, "options") || str_is(key, "head") || str_is(key, "patch") || str_is(
            key,
            "trace",
        ) {
            Some(Route::Node(Kind::Operation))
        } else if str_is(key, "parameters") {
            Some(Route::Node(Kind::Parameter))
        } else {
            None
        },
        Kind::Operation => if str_is(key, "callbacks") {
            Some(Route::Entries(Kind::Callback))
        } else if str_is(key, "parameters") {
            Some(Route::Node(Kind::Parameter))
        } else if str_is(key, "requestBody") {
            Some(Route::Node(Kind::RequestBody))
        } else if str_is(key, "responses") {
            Some(Route::Entries(Kind::Response))
        } else {
            None
        },
        Kind::Parameter | Kind::Header => if str_is(key, "content") {
            Some(Route::Entries(Kind::MediaType))
        } else if str_is(key, "schema") {
            Some(Route::Node(Kind::Schema))
        } else {
            None
        },
        Kind::RequestBody => if str_is(key, "content") {
            Some(Route::Entries(Kind::MediaType))
        } else {
            None
        },
        Kind::Response => if str_is(key, "headers") {
            Some(Route::Entries(Kind::Header))
        } else if str_is(key, "content") {
            Some(Route::Entries(Kind::MediaType))
        } else {
            None
        },
        Kind::MediaType => if str_is(key, "encoding") {
            Some(Route::Entries(Kind::Encoding))
        } else if str_is(key, "schema") {
            Some(Route::Node(Kind::Schema))
        } else {
            None
        },
        Kind::Encoding => if str_is(key, "headers") {
            Some(Route::Entries(Kind::Header))
        } else {
            None
        },
        Kind::Schema => keyword(key),
    }
}

/// The `required` this module is about: a list of the names a schema asks
/// for. `None` for the boolean on a parameter or a request body, and for
/// anything else that is not a list of strings.
pub open spec fn required_names_of(node: Json) -> Option<Seq<Seq<char>>> {
    match field_of(node, "required"@) {
        Some(Json::Array(items)) => if crate::reduce::all_strings(items@) {
            Some(crate::reduce::texts(items@))
        } else {
            None
        },
        _ => None,
    }
}

/// The names a schema's `required` lists, where it is a list of names.
pub fn required_names(node: &Json) -> (r: Option<Vec<String>>)
    ensures
        match required_names_of(*node) {
            Some(names) => r matches Some(v) && v@.map_values(|s: String| s@) == names,
            None => r is None,
        },
{
    match get(node, "required") {
        Some(Json::Array(items)) => crate::reduce::strings_of(items),
        _ => None,
    }
}

/// The schema an array node states its elements against: one schema, or the
/// list of them a tuple spells.
pub open spec fn items_for(node: Json) -> Seq<Json> {
    match field_of(node, "items"@) {
        Some(Json::Array(members)) => members@,
        Some(items) => seq![items],
        None => seq![],
    }
}

/// The schemas an array node states its elements against.
pub fn items_of<'d>(node: &'d Json) -> (r: Vec<&'d Json>)
    ensures
        r@.len() == items_for(*node).len(),
        forall|k: int| 0 <= k < r@.len() ==> *(#[trigger] r@[k]) == items_for(*node)[k],
{
    let mut out: Vec<&'d Json> = Vec::new();
    match get(node, "items") {
        Some(Json::Array(members)) => {
            let mut i: usize = 0;
            while i < members.len()
                invariant
                    i <= members@.len(),
                    out@.len() == i,
                    forall|k: int| 0 <= k < i ==> *(#[trigger] out@[k]) == members@[k],
                decreases members.len() - i,
            {
                out.push(&members[i]);
                i += 1;
            }
        },
        Some(items) => out.push(items),
        None => {},
    }
    out
}

/// The names a node declares under its own `properties`.
pub open spec fn own_names(node: Json) -> Seq<Seq<char>> {
    match field_of(node, "properties"@) {
        Some(Json::Object(fields)) => fields@.map_values(|f: (String, Json)| f.0@),
        _ => seq![],
    }
}

/// Whether a node admits names it does not declare: an `additionalProperties`
/// that is not `false`, or a keyword this walk reads no name out of.
pub open spec fn open_node(node: Json) -> bool {
    ||| (field_of(node, "additionalProperties"@) matches Some(v) && v != Json::Bool(false))
    ||| field_of(node, "patternProperties"@) is Some
    ||| field_of(node, "$dynamicRef"@) is Some
    ||| field_of(node, "not"@) is Some
    ||| field_of(node, "if"@) is Some
    ||| field_of(node, "then"@) is Some
    ||| field_of(node, "else"@) is Some
}

/// Whether `a` admits every name `node` declares, and admits anything where
/// `node` is open-ended.
pub open spec fn admits_node(a: Admits, node: Json) -> bool {
    &&& forall|i: int| 0 <= i < own_names(node).len() ==> #[trigger] admits_name(a, own_names(node)[i])
    &&& open_node(node) ==> a.any
}

/// Whether `after` admits everything `before` does.
pub open spec fn admits_more(before: Admits, after: Admits) -> bool {
    &&& before.any ==> after.any
    &&& forall|i: int| 0 <= i < before.named@.len() ==> #[trigger] admits_name(after, before.named@[i]@)
}

/// A schema `node` composes with in `doc`: the one its `$ref` points at, and
/// each member of its `allOf`, `anyOf` and `oneOf`.
pub open spec fn composes(doc: Json, node: Json, child: Json) -> bool {
    ||| (field_of(node, "$ref"@) matches Some(Json::String(r)) && pointer_target(doc, r@) == Some(child))
    ||| (field_of(node, "allOf"@) matches Some(Json::Array(ms)) && ms@.contains(child))
    ||| (field_of(node, "anyOf"@) matches Some(Json::Array(ms)) && ms@.contains(child))
    ||| (field_of(node, "oneOf"@) matches Some(Json::Array(ms)) && ms@.contains(child))
}

/// A walk through compositions: each schema on it composes with the next.
pub open spec fn chain(doc: Json, path: Seq<Json>) -> bool {
    &&& path.len() > 0
    &&& forall|i: int| 0 <= i < path.len() - 1 ==> composes(doc, #[trigger] path[i], path[i + 1])
}

/// A `$ref` that points at nothing in the document.
pub open spec fn dangling(doc: Json, node: Json) -> bool {
    field_of(node, "$ref"@) matches Some(Json::String(r)) && pointer_target(doc, r@) is None
}

/// Whether something `node` composes with, itself included, declares `name`.
#[verifier::opaque]
pub open spec fn names_within(doc: Json, node: Json, name: Seq<char>) -> bool {
    exists|path: Seq<Json>| #[trigger] chain(doc, path) && path[0] == node && own_names(path.last()).contains(name)
}

/// Whether something `node` composes with, itself included, admits names it
/// does not declare, or is a `$ref` this walk cannot follow.
#[verifier::opaque]
pub open spec fn open_within(doc: Json, node: Json) -> bool {
    exists|path: Seq<Json>| #[trigger] chain(doc, path) && path[0] == node && (open_node(path.last()) || dangling(
        doc,
        path.last(),
    ))
}

/// Whether one of `declared` is called `name`.
pub open spec fn among_declared(declared: Seq<(String, Json)>, name: Seq<char>) -> bool {
    exists|k: int| 0 <= k < declared.len() && (#[trigger] declared[k]).0@ == name
}

/// Whether what one of `members` composes with declares `name`.
pub open spec fn named_by_some(doc: Json, members: Seq<Json>, name: Seq<char>) -> bool {
    exists|k: int| 0 <= k < members.len() && names_within(doc, #[trigger] members[k], name)
}

/// Whether what one of `members` composes with is open-ended.
pub open spec fn open_in_some(doc: Json, members: Seq<Json>) -> bool {
    exists|k: int| 0 <= k < members.len() && open_within(doc, #[trigger] members[k])
}

/// The nodes a list of references points at.
pub open spec fn held_of(nodes: Seq<&Json>) -> Seq<Json> {
    nodes.map_values(|n: &Json| *n)
}

/// `after` keeps every name `before` holds, in place, and adds names behind them.
pub open spec fn grows(before: Admits, after: Admits) -> bool {
    &&& before.named@.len() <= after.named@.len()
    &&& forall|i: int| 0 <= i < before.named@.len() ==> #[trigger] after.named@[i] == before.named@[i]
}

/// Everything `after` admits beyond `before` comes from what `node`
/// composes with.
pub open spec fn gathered_from(before: Admits, after: Admits, doc: Json, node: Json) -> bool {
    &&& grows(before, after)
    &&& after.any ==> before.any || open_within(doc, node)
    &&& forall|i: int|
        before.named@.len() <= i < after.named@.len() ==> names_within(doc, node, #[trigger] after.named@[i]@)
}

/// What a schema composes with is reached from it in one step more.
proof fn lemma_within_composed(doc: Json, node: Json, child: Json)
    requires
        composes(doc, node, child),
    ensures
        forall|name: Seq<char>| names_within(doc, child, name) ==> #[trigger] names_within(doc, node, name),
        open_within(doc, child) ==> open_within(doc, node),
{
    reveal(open_within);
    assert forall|name: Seq<char>| names_within(doc, child, name) implies #[trigger] names_within(doc, node, name) by {
        lemma_name_composed(doc, node, child, name);
    }
    if open_within(doc, child) {
        let path = choose|path: Seq<Json>| #[trigger] chain(doc, path) && path[0] == child && (open_node(path.last())
            || dangling(doc, path.last()));
        lemma_chain_before(doc, node, path);
        let longer = seq![node] + path;
        assert(longer.last() == path.last());
        assert(chain(doc, longer) && longer[0] == node && (open_node(longer.last()) || dangling(doc, longer.last())));
    }
}

/// A name declared within what a schema composes with is declared within it.
proof fn lemma_name_composed(doc: Json, node: Json, child: Json, name: Seq<char>)
    requires
        composes(doc, node, child),
        names_within(doc, child, name),
    ensures
        names_within(doc, node, name),
{
    reveal(names_within);
    let path = choose|path: Seq<Json>| #[trigger] chain(doc, path) && path[0] == child && own_names(path.last()).contains(name);
    lemma_chain_before(doc, node, path);
    let longer = seq![node] + path;
    assert(longer.last() == path.last());
    assert(chain(doc, longer) && longer[0] == node && own_names(longer.last()).contains(name));
}

/// A walk from what a schema composes with is a walk from the schema.
proof fn lemma_chain_before(doc: Json, node: Json, path: Seq<Json>)
    requires
        chain(doc, path),
        composes(doc, node, path[0]),
    ensures
        chain(doc, seq![node] + path),
        (seq![node] + path)[0] == node,
{
    let longer = seq![node] + path;
    assert forall|i: int| 0 <= i < longer.len() - 1 implies composes(doc, #[trigger] longer[i], longer[i + 1]) by {
        if i == 0 {
            assert(longer[1] == path[0]);
        } else {
            assert(longer[i] == path[i - 1]);
            assert(longer[i + 1] == path[i]);
            assert(composes(doc, path[i - 1], path[(i - 1) + 1]));
        }
    }
}

/// A node is within what it composes with.
proof fn lemma_within_itself(doc: Json, node: Json)
    ensures
        forall|name: Seq<char>| own_names(node).contains(name) ==> #[trigger] names_within(doc, node, name),
        open_node(node) || dangling(doc, node) ==> open_within(doc, node),
{
    reveal(names_within);
    reveal(open_within);
    assert(chain(doc, seq![node]));
    assert(seq![node].last() == node);
}

/// Two gatherings one after the other gather from the union.
proof fn lemma_gathered_then(a: Admits, b: Admits, c: Admits, doc: Json, node: Json)
    requires
        gathered_from(a, b, doc, node),
        gathered_from(b, c, doc, node),
    ensures
        gathered_from(a, c, doc, node),
{
    assert forall|i: int| a.named@.len() <= i < c.named@.len() implies names_within(doc, node, #[trigger] c.named@[i]@) by {
        if i < b.named@.len() {
            assert(c.named@[i] == b.named@[i]);
        }
    }
}

/// What was gathered from what a schema composes with was gathered from the
/// schema.
proof fn lemma_gathered_lift(a: Admits, b: Admits, doc: Json, node: Json, child: Json)
    requires
        gathered_from(a, b, doc, child),
        composes(doc, node, child),
    ensures
        gathered_from(a, b, doc, node),
{
    lemma_within_composed(doc, node, child);
    assert forall|i: int| a.named@.len() <= i < b.named@.len() implies names_within(doc, node, #[trigger] b.named@[i]@) by {
        assert(names_within(doc, child, b.named@[i]@));
    }
}

/// Everything `after` admits beyond `before` comes from what one of
/// `members` composes with.
pub open spec fn gathered_from_each(before: Admits, after: Admits, doc: Json, members: Seq<Json>) -> bool {
    &&& grows(before, after)
    &&& after.any ==> before.any || open_in_some(doc, members)
    &&& forall|i: int|
        before.named@.len() <= i < after.named@.len() ==> named_by_some(doc, members, #[trigger] after.named@[i]@)
}

/// One member's gathering after the others' is still the members'.
proof fn lemma_each_then(a: Admits, b: Admits, c: Admits, doc: Json, members: Seq<Json>, m: int)
    requires
        0 <= m < members.len(),
        gathered_from_each(a, b, doc, members),
        gathered_from(b, c, doc, members[m]),
    ensures
        gathered_from_each(a, c, doc, members),
{
    assert forall|i: int| a.named@.len() <= i < c.named@.len() implies named_by_some(doc, members, #[trigger] c.named@[i]@) by {
        if i < b.named@.len() {
            assert(c.named@[i] == b.named@[i]);
        } else {
            assert(names_within(doc, members[m], c.named@[i]@));
        }
    }
}

/// What the members of one of a schema's compositions gave was gathered from
/// the schema.
proof fn lemma_each_lift(a: Admits, b: Admits, doc: Json, node: Json, key: Seq<char>, members: Vec<Json>)
    requires
        gathered_from_each(a, b, doc, members@),
        composed(key),
        field_of(node, key) == Some(Json::Array(members)),
    ensures
        gathered_from(a, b, doc, node),
{
    assert forall|k: int| 0 <= k < members@.len() implies #[trigger] composes(doc, node, members@[k]) by {
        assert(members@.contains(members@[k]));
    }
    assert forall|i: int| a.named@.len() <= i < b.named@.len() implies names_within(doc, node, #[trigger] b.named@[i]@) by {
        assert(named_by_some(doc, members@, b.named@[i]@));
        let k = choose|k: int| 0 <= k < members@.len() && names_within(doc, #[trigger] members@[k], b.named@[i]@);
        assert(composes(doc, node, members@[k]));
        lemma_within_composed(doc, node, members@[k]);
    }
    if b.any && !a.any {
        let k = choose|k: int| 0 <= k < members@.len() && open_within(doc, #[trigger] members@[k]);
        assert(composes(doc, node, members@[k]));
        lemma_within_composed(doc, node, members@[k]);
    }
}

/// Whether `a` admits everything `node` itself asks for: its own names,
/// anything where it is open-ended, and anything where its `$ref` points
/// nowhere.
pub open spec fn admits_fully(a: Admits, doc: Json, node: Json) -> bool {
    &&& admits_node(a, node)
    &&& dangling(doc, node) ==> a.any
}

/// The record a gathering keeps: every node it has finished is admitted
/// fully, and everything such a node composes with is finished or still in
/// progress; every reference taken points at a node finished or in progress.
pub open spec fn gathering_holds(a: Admits, doc: Json, followed: Seq<String>, done: Set<Json>, stack: Set<Json>) -> bool {
    &&& forall|v: Json| #[trigger] done.contains(v) ==> admits_fully(a, doc, v)
    &&& forall|v: Json, c: Json|
        #![trigger done.contains(v), composes(doc, v, c)]
        done.contains(v) && composes(doc, v, c) ==> done.contains(c) || stack.contains(c)
    &&& forall|k: int|
        0 <= k < followed.len() ==> (pointer_target(doc, (#[trigger] followed[k])@) matches Some(t) ==> done.contains(t)
            || stack.contains(t))
}

/// Admitting more keeps the record.
proof fn lemma_holds_more(a: Admits, b: Admits, doc: Json, followed: Seq<String>, done: Set<Json>, stack: Set<Json>)
    requires
        gathering_holds(a, doc, followed, done, stack),
        admits_more(a, b),
    ensures
        gathering_holds(b, doc, followed, done, stack),
{
    assert forall|v: Json| #[trigger] done.contains(v) implies admits_fully(b, doc, v) by {
        lemma_admits_node_kept(a, b, v);
    }
}

/// A larger set of nodes in progress keeps the record.
proof fn lemma_holds_wider(a: Admits, doc: Json, followed: Seq<String>, done: Set<Json>, stack: Set<Json>, wider: Set<Json>)
    requires
        gathering_holds(a, doc, followed, done, stack),
        stack.subset_of(wider),
    ensures
        gathering_holds(a, doc, followed, done, wider),
{
}

/// A node in progress that is finished may leave the nodes in progress.
proof fn lemma_holds_finished(a: Admits, doc: Json, followed: Seq<String>, done: Set<Json>, stack: Set<Json>, node: Json)
    requires
        gathering_holds(a, doc, followed, done, stack.insert(node)),
        done.contains(node),
    ensures
        gathering_holds(a, doc, followed, done, stack),
{
}

/// Every node of a walk through compositions that starts at a finished node
/// is finished, once nothing is in progress.
proof fn lemma_chain_done(a: Admits, doc: Json, followed: Seq<String>, done: Set<Json>, path: Seq<Json>, i: int)
    requires
        gathering_holds(a, doc, followed, done, Set::empty()),
        chain(doc, path),
        done.contains(path[0]),
        0 <= i < path.len(),
    ensures
        done.contains(path[i]),
    decreases i,
{
    if i > 0 {
        lemma_chain_done(a, doc, followed, done, path, i - 1);
        assert(composes(doc, path[i - 1], path[(i - 1) + 1]));
    }
}

/// Once nothing is in progress, whatever a finished node composes with is
/// admitted: every name declared within it, and anything where something
/// within it is open-ended.
proof fn lemma_done_admits(a: Admits, doc: Json, followed: Seq<String>, done: Set<Json>, root: Json)
    requires
        gathering_holds(a, doc, followed, done, Set::empty()),
        done.contains(root),
    ensures
        forall|name: Seq<char>| #[trigger] names_within(doc, root, name) ==> admits_name(a, name),
        open_within(doc, root) ==> a.any,
{
    reveal(names_within);
    reveal(open_within);
    assert forall|name: Seq<char>| #[trigger] names_within(doc, root, name) implies admits_name(a, name) by {
        let path = choose|path: Seq<Json>| #[trigger] chain(doc, path) && path[0] == root && own_names(path.last()).contains(name);
        lemma_chain_done(a, doc, followed, done, path, path.len() - 1);
        assert(admits_fully(a, doc, path.last()));
        let j = choose|j: int| 0 <= j < own_names(path.last()).len() && own_names(path.last())[j] == name;
        assert(admits_name(a, own_names(path.last())[j]));
    }
    if open_within(doc, root) {
        let path = choose|path: Seq<Json>| #[trigger] chain(doc, path) && path[0] == root && (open_node(path.last())
            || dangling(doc, path.last()));
        lemma_chain_done(a, doc, followed, done, path, path.len() - 1);
        assert(admits_fully(a, doc, path.last()));
    }
}

/// A node admitted fully, whose compositions are all finished or in
/// progress, is finished.
proof fn lemma_holds_close(a: Admits, doc: Json, followed: Seq<String>, done: Set<Json>, stack: Set<Json>, node: Json)
    requires
        gathering_holds(a, doc, followed, done, stack.insert(node)),
        admits_fully(a, doc, node),
        forall|c: Json| #[trigger] composes(doc, node, c) ==> done.contains(c) || stack.insert(node).contains(c),
    ensures
        gathering_holds(a, doc, followed, done.insert(node), stack),
{
}

/// One node's own names, then the names of everything it composes with: its
/// `$ref`, taken once, and each member of its `allOf`, `anyOf` and `oneOf`.
///
/// `followed` carries the references already taken, shared across every
/// branch: what is built is a union, so a reference a second branch asks for
/// has already put its names in.
#[verifier::rlimit(100)]
#[verifier::spinoff_prover]
pub fn gather(
    admits: &mut Admits,
    node: &Json,
    doc: &Json,
    followed: &mut Vec<String>,
    Ghost(stack): Ghost<Set<Json>>,
    Ghost(done): Ghost<Set<Json>>,
) -> (out: Ghost<Set<Json>>)
    requires
        gathering_holds(*old(admits), *doc, old(followed)@, done, stack),
    ensures
        final(followed)@.len() >= old(followed)@.len(),
        admits_more(*old(admits), *final(admits)),
        admits_node(*final(admits), *node),
        gathered_from(*old(admits), *final(admits), *doc, *node),
        gathering_holds(*final(admits), *doc, final(followed)@, out@, stack),
        done.subset_of(out@),
        out@.contains(*node),
    decreases usize::MAX - old(followed)@.len(), *node,
{
    let fields = match node {
        Json::Object(fields) => fields,
        _ => {
            proof {
                lemma_holds_wider(*admits, *doc, followed@, done, stack, stack.insert(*node));
                lemma_holds_close(*admits, *doc, followed@, done, stack, *node);
            }
            return Ghost(done.insert(*node));
        },
    };
    let ghost inner = stack.insert(*node);
    let ghost mut d = done;
    let ghost start = *admits;
    match get(node, "properties") {
        Some(Json::Object(declared)) => {
            add_names(admits, declared);
            proof {
                lemma_within_itself(*doc, *node);
                assert forall|i: int| start.named@.len() <= i < admits.named@.len() implies names_within(
                    *doc,
                    *node,
                    #[trigger] admits.named@[i]@,
                ) by {
                    assert(among_declared(declared@, admits.named@[i]@));
                    let k = choose|k: int| 0 <= k < declared@.len() && (#[trigger] declared@[k]).0@ == admits.named@[i]@;
                    assert(own_names(*node)[k] == declared@[k].0@);
                    assert(own_names(*node).contains(admits.named@[i]@));
                }
            }
        },
        _ => {},
    }
    let ghost named_in = *admits;
    assert(gathered_from(start, named_in, *doc, *node));
    assert(forall|i: int| 0 <= i < own_names(*node).len() ==> #[trigger] admits_name(named_in, own_names(*node)[i]));
    if is_open(node) {
        admits.any = true;
        proof {
            lemma_admits_more_any(named_in, *admits);
            lemma_within_itself(*doc, *node);
        }
    }
    assert(gathered_from(named_in, *admits, *doc, *node));
    proof {
        lemma_gathered_then(start, named_in, *admits, *doc, *node);
    }
    proof {
        lemma_admits_more_trans(start, named_in, *admits);
        assert forall|i: int| 0 <= i < own_names(*node).len() implies #[trigger] admits_name(*admits, own_names(*node)[i]) by {
            assert(admits_name(named_in, own_names(*node)[i]));
        }
    }
    let ghost mid = *admits;
    assert(admits_node(mid, *node));
    proof {
        lemma_admits_more_trans(start, named_in, *admits);
        lemma_holds_more(start, *admits, *doc, followed@, done, stack);
        lemma_holds_wider(*admits, *doc, followed@, done, stack, inner);
    }
    let ghost entry_len = followed@.len();
    match get(node, "$ref") {
        Some(r) => match r {
            Json::String(reference) => {
                proof {
                    lemma_field_below(*node, "$ref"@);
                }
                let ghost before = *admits;
                let got = follow(admits, reference.as_str(), doc, followed, Ghost(*r), Ghost(inner), Ghost(d));
                proof {
                    d = got@;
                    match pointer_target(*doc, reference@) {
                        Some(t) => {
                            assert(composes(*doc, *node, t));
                            lemma_gathered_lift(before, *admits, *doc, *node, t);
                        },
                        None => {
                            assert(dangling(*doc, *node));
                            lemma_within_itself(*doc, *node);
                            assert(gathered_from(before, *admits, *doc, *node));
                        },
                    }
                    lemma_gathered_then(start, before, *admits, *doc, *node);
                }
            },
            _ => {},
        },
        None => {},
    }
    let ghost after_ref = *admits;
    assert(gathered_from(start, after_ref, *doc, *node));
    assert(gathering_holds(*admits, *doc, followed@, d, inner));
    assert(done.subset_of(d));
    assert(field_of(*node, "$ref"@) matches Some(Json::String(r)) ==> (pointer_target(*doc, r@) matches Some(t) ==> d.contains(t) || inner.contains(t)));
    assert(dangling(*doc, *node) ==> admits.any);
    let keys: [&str; 3] = ["allOf", "anyOf", "oneOf"];
    assert(composed(keys@[0]@) && composed(keys@[1]@) && composed(keys@[2]@));
    let mut c: usize = 0;
    while c < 3
        invariant
            c <= 3,
            keys@.len() == 3,
            forall|j: int| 0 <= j < 3 ==> composed(#[trigger] keys@[j]@),
            followed@.len() >= entry_len,
            entry_len == old(followed)@.len(),
            admits_more(mid, *admits),
            gathered_from(start, *admits, *doc, *node),
            *node == Json::Object(*fields),
            inner == stack.insert(*node),
            gathering_holds(*admits, *doc, followed@, d, inner),
            done.subset_of(d),
            field_of(*node, "$ref"@) matches Some(Json::String(r)) ==> (pointer_target(*doc, r@) matches Some(t) ==> d.contains(t)
                || inner.contains(t)),
            dangling(*doc, *node) ==> admits.any,
            forall|j: int| 0 <= j < c ==> (field_of(*node, (#[trigger] keys@[j])@) matches Some(Json::Array(ms)) ==> forall|x: Json|
                ms@.contains(x) ==> d.contains(x)),
        decreases 3 - c,
    {
        match get(node, keys[c]) {
            Some(list) => match list {
                Json::Array(members) => {
                    let count = followed.len();
                    proof {
                        lemma_field_below(*node, keys@[c as int]@);
                        assert(decreases_to!(*node => *list));
                    }
                    let ghost before = *admits;
                    let ghost d_before = d;
                    let got = gather_members(admits, members, doc, followed, Ghost(*list), Ghost(inner), Ghost(d));
                    proof {
                        d = got@;
                        assert forall|x: Json| members@.contains(x) implies d.contains(x) by {
                            let k = choose|k: int| 0 <= k < members@.len() && members@[k] == x;
                            assert(d.contains(members@[k]));
                        }
                        lemma_admits_more_trans(mid, before, *admits);
                        assert(composed(keys@[c as int]@));
                        lemma_each_lift(before, *admits, *doc, *node, keys@[c as int]@, *members);
                        lemma_gathered_then(start, before, *admits, *doc, *node);
                    }
                },
                _ => {},
            },
            None => {},
        }
        c += 1;
    }
    proof {
        lemma_admits_more_trans(start, mid, *admits);
        lemma_admits_node_kept(mid, *admits, *node);
        assert(keys@[0]@ == "allOf"@ && keys@[1]@ == "anyOf"@ && keys@[2]@ == "oneOf"@);
        assert forall|c: Json| #[trigger] composes(*doc, *node, c) implies d.contains(c) || inner.contains(c) by {
            if field_of(*node, "allOf"@) matches Some(Json::Array(ms)) && ms@.contains(c) {
                assert(field_of(*node, keys@[0]@) == field_of(*node, "allOf"@));
            } else if field_of(*node, "anyOf"@) matches Some(Json::Array(ms)) && ms@.contains(c) {
                assert(field_of(*node, keys@[1]@) == field_of(*node, "anyOf"@));
            } else if field_of(*node, "oneOf"@) matches Some(Json::Array(ms)) && ms@.contains(c) {
                assert(field_of(*node, keys@[2]@) == field_of(*node, "oneOf"@));
            }
        }
        lemma_holds_close(*admits, *doc, followed@, d, stack, *node);
    }
    Ghost(d.insert(*node))
}

/// The members of one composition keyword, gathered in turn.
fn gather_members(
    admits: &mut Admits,
    members: &Vec<Json>,
    doc: &Json,
    followed: &mut Vec<String>,
    Ghost(list): Ghost<Json>,
    Ghost(stack): Ghost<Set<Json>>,
    Ghost(done): Ghost<Set<Json>>,
) -> (out: Ghost<Set<Json>>)
    requires
        list == Json::Array(*members),
        gathering_holds(*old(admits), *doc, old(followed)@, done, stack),
    ensures
        gathering_holds(*final(admits), *doc, final(followed)@, out@, stack),
        done.subset_of(out@),
        forall|k: int| 0 <= k < members@.len() ==> out@.contains(#[trigger] members@[k]),
        final(followed)@.len() >= old(followed)@.len(),
        admits_more(*old(admits), *final(admits)),
        forall|k: int| 0 <= k < members@.len() ==> #[trigger] admits_node(*final(admits), members@[k]),
        gathered_from_each(*old(admits), *final(admits), *doc, members@),
    decreases usize::MAX - old(followed)@.len(), list,
{
    let ghost start = *admits;
    let ghost mut d = done;
    let mut m: usize = 0;
    while m < members.len()
        invariant
            list == Json::Array(*members),
            gathering_holds(*admits, *doc, followed@, d, stack),
            done.subset_of(d),
            forall|k: int| 0 <= k < m ==> d.contains(#[trigger] members@[k]),
            m <= members@.len(),
            followed@.len() >= old(followed)@.len(),
            admits_more(start, *admits),
            start == *old(admits),
            forall|k: int| 0 <= k < m ==> #[trigger] admits_node(*admits, members@[k]),
            gathered_from_each(start, *admits, *doc, members@),
        decreases members.len() - m,
    {
        let count = followed.len();
        proof {
            assert(decreases_to!(list => list->Array_0));
            vstd::std_specs::vec::axiom_vec_index_decreases(*members, m as int);
            assert(decreases_to!(list => members@[m as int]));
        }
        let ghost before = *admits;
        let got = gather(admits, &members[m], doc, followed, Ghost(stack), Ghost(d));
        proof {
            d = got@;
            lemma_admits_more_trans(start, before, *admits);
            lemma_each_then(start, before, *admits, *doc, members@, m as int);
            assert forall|k: int| 0 <= k < m + 1 implies #[trigger] admits_node(*admits, members@[k]) by {
                if k < m {
                    lemma_admits_node_kept(before, *admits, members@[k]);
                }
            }
        }
        m += 1;
    }
    Ghost(d)
}

/// Every name of an object's `properties`, added to what is admitted.
fn add_names(admits: &mut Admits, declared: &Vec<(String, Json)>)
    ensures
        admits_more(*old(admits), *final(admits)),
        final(admits).any == old(admits).any,
        forall|k: int| 0 <= k < declared@.len() ==> #[trigger] admits_name(*final(admits), declared@[k].0@),
        grows(*old(admits), *final(admits)),
        forall|i: int|
            old(admits).named@.len() <= i < final(admits).named@.len() ==> among_declared(declared@, #[trigger] final(admits).named@[i]@),
{
    let ghost start = *admits;
    let mut i: usize = 0;
    while i < declared.len()
        invariant
            i <= declared@.len(),
            admits_more(start, *admits),
            start == *old(admits),
            grows(start, *admits),
            forall|j: int|
                start.named@.len() <= j < admits.named@.len() ==> among_declared(declared@, #[trigger] admits.named@[j]@),
            admits.any == start.any,
            forall|k: int| 0 <= k < i ==> #[trigger] admits_name(*admits, declared@[k].0@),
        decreases declared.len() - i,
    {
        let ghost before = *admits;
        admits.named.push(declared[i].0.clone());
        proof {
            lemma_push_name(before, *admits, declared@[i as int].0@);
            assert forall|j: int|
                start.named@.len() <= j < admits.named@.len() implies among_declared(declared@, #[trigger] admits.named@[j]@) by {
                if j < before.named@.len() {
                    assert(admits.named@[j] == before.named@[j]);
                } else {
                    assert(admits.named@[j]@ == declared@[i as int].0@);
                }
            }
            lemma_admits_more_trans(start, before, *admits);
            assert forall|k: int| 0 <= k < i + 1 implies #[trigger] admits_name(*admits, declared@[k].0@) by {
                if k < i {
                    lemma_admits_name_kept(before, *admits, declared@[k].0@);
                }
            }
        }
        i += 1;
    }
    assert(start == *old(admits));
}

/// Whether a node admits names it does not declare.
fn is_open(node: &Json) -> (r: bool)
    ensures
        r == open_node(*node),
{
    let additional = match get(node, "additionalProperties") {
        Some(v) => match v {
            Json::Bool(false) => false,
            _ => true,
        },
        None => false,
    };
    additional || get(node, "patternProperties").is_some() || get(node, "$dynamicRef").is_some()
        || get(node, "not").is_some() || get(node, "if").is_some() || get(node, "then").is_some()
        || get(node, "else").is_some()
}

/// Adding a name admits it, and everything admitted before.
proof fn lemma_push_name(before: Admits, after: Admits, name: Seq<char>)
    requires
        after.any == before.any,
        after.named@.len() == before.named@.len() + 1,
        forall|k: int| 0 <= k < before.named@.len() ==> #[trigger] after.named@[k] == before.named@[k],
        after.named@[before.named@.len() as int]@ == name,
    ensures
        admits_more(before, after),
        admits_name(after, name),
{
    assert forall|i: int| 0 <= i < before.named@.len() implies #[trigger] admits_name(after, before.named@[i]@) by {
        assert(after.named@[i] == before.named@[i]);
    }
    assert(after.named@[before.named@.len() as int]@ == name);
}

/// Admitting anything admits more than before.
proof fn lemma_admits_more_any(before: Admits, after: Admits)
    requires
        after.any,
    ensures
        admits_more(before, after),
{
}

/// A name admitted stays admitted by anything that admits more.
proof fn lemma_admits_name_kept(a: Admits, b: Admits, name: Seq<char>)
    requires
        admits_name(a, name),
        admits_more(a, b),
    ensures
        admits_name(b, name),
{
    if !a.any {
        let w = choose|w: int| 0 <= w < a.named@.len() && (#[trigger] a.named@[w])@ == name;
        assert(admits_name(b, a.named@[w]@));
    }
}

/// One `$ref`, taken once. A reference this walk cannot follow hides names it
/// cannot then see are missing, so it leaves the node open-ended rather than
/// short of names.
fn follow(
    admits: &mut Admits,
    reference: &str,
    doc: &Json,
    followed: &mut Vec<String>,
    Ghost(at): Ghost<Json>,
    Ghost(stack): Ghost<Set<Json>>,
    Ghost(done): Ghost<Set<Json>>,
) -> (out: Ghost<Set<Json>>)
    requires
        gathering_holds(*old(admits), *doc, old(followed)@, done, stack),
    ensures
        gathering_holds(*final(admits), *doc, final(followed)@, out@, stack),
        done.subset_of(out@),
        pointer_target(*doc, reference@) matches Some(t) ==> out@.contains(t) || stack.contains(t),
        final(followed)@.len() >= old(followed)@.len(),
        admits_more(*old(admits), *final(admits)),
        grows(*old(admits), *final(admits)),
        pointer_target(*doc, reference@) is None ==> final(admits).any && final(admits).named@ == old(
            admits,
        ).named@,
        pointer_target(*doc, reference@) matches Some(t) ==> gathered_from(*old(admits), *final(admits), *doc, t),
        pointer_target(*doc, reference@) matches Some(t) ==> (old(followed)@.map_values(|s: String| s@).contains(
            reference@,
        ) ==> *final(admits) == *old(admits)),
        pointer_target(*doc, reference@) matches Some(t) ==> (!old(followed)@.map_values(|s: String| s@).contains(
            reference@,
        ) ==> admits_node(*final(admits), t)),
    decreases usize::MAX - old(followed)@.len(), at,
{
    let target = match pointed_at(doc, reference) {
        None => {
            let ghost before = *admits;
            admits.any = true;
            proof {
                lemma_admits_more_any(before, *admits);
                lemma_holds_more(before, *admits, *doc, followed@, done, stack);
            }
            return Ghost(done);
        },
        Some(target) => target,
    };
    let ghost names = followed@.map_values(|s: String| s@);
    let mut i: usize = 0;
    while i < followed.len()
        invariant
            i <= followed@.len(),
            *admits == *old(admits),
            followed@ == old(followed)@,
            names == followed@.map_values(|s: String| s@),
            pointer_target(*doc, reference@) == Some(*target),
            forall|j: int| 0 <= j < i ==> #[trigger] names[j] != reference@,
            gathering_holds(*admits, *doc, followed@, done, stack),
        decreases followed.len() - i,
    {
        if str_is(followed[i].as_str(), reference) {
            proof {
                assert(names[i as int] == reference@);
                assert(followed@[i as int]@ == reference@);
            }
            return Ghost(done);
        }
        i += 1;
    }
    assert(!names.contains(reference@));
    let ghost old_followed = followed@;
    followed.push(reference.to_owned());
    let count = followed.len();
    assert(count == followed@.len());
    proof {
        lemma_holds_wider(*admits, *doc, old_followed, done, stack, stack.insert(*target));
        assert forall|k: int| 0 <= k < followed@.len() implies (pointer_target(*doc, (#[trigger] followed@[k])@) matches Some(t)
            ==> done.contains(t) || stack.insert(*target).contains(t)) by {
            if k < old_followed.len() {
                assert(followed@[k] == old_followed[k]);
            }
        }
    }
    let got = gather(admits, target, doc, followed, Ghost(stack.insert(*target)), Ghost(done));
    proof {
        lemma_holds_finished(*admits, *doc, followed@, got@, stack, *target);
    }
    got
}

/// The first field called `key` is in the list and is so called, wherever
/// one is.
proof fn lemma_first_key(fields: Seq<(String, Json)>, key: Seq<char>, j: int)
    requires
        0 <= j < fields.len(),
        fields[j].0@ == key,
    ensures
        first_key(fields, key) matches Some(i) && 0 <= i < fields.len() && fields[i].0@ == key,
    decreases j,
{
    if exists|k: int| 0 <= k < j && (#[trigger] fields[k]).0@ == key {
        let k = choose|k: int| 0 <= k < j && (#[trigger] fields[k]).0@ == key;
        lemma_first_key(fields, key, k);
    } else {
        assert(0 <= j < fields.len() && (#[trigger] fields[j]).0@ == key && forall|k: int|
            0 <= k < j ==> (#[trigger] fields[k]).0@ != key);
    }
}

/// A value held under a key of an object is below the object.
proof fn lemma_field_below(node: Json, key: Seq<char>)
    requires
        field_of(node, key) is Some,
    ensures
        decreases_to!(node => field_of(node, key)->Some_0),
{
    match node {
        Json::Object(fields) => {
            assert(first_key(fields@, key) is Some);
            let j = choose|j: int| 0 <= j < fields@.len() && (#[trigger] fields@[j]).0@ == key;
            lemma_first_key(fields@, key, j);
            let i = first_key(fields@, key)->Some_0;
            assert(0 <= i < fields@.len());
            assert(decreases_to!(node => node->Object_0));
            vstd::std_specs::vec::axiom_vec_index_decreases(fields, i);
            assert(decreases_to!(fields@[i] => fields@[i].1));
        },
        _ => {},
    }
}

/// Admitting more is transitive.
proof fn lemma_admits_more_trans(a: Admits, b: Admits, c: Admits)
    requires
        admits_more(a, b),
        admits_more(b, c),
    ensures
        admits_more(a, c),
{
    assert forall|i: int| 0 <= i < a.named@.len() implies #[trigger] admits_name(c, a.named@[i]@) by {
        assert(admits_name(b, a.named@[i]@));
        lemma_admits_name_kept(b, c, a.named@[i]@);
    }
}

/// What a node was admitted by stays admitted by anything that admits more.
proof fn lemma_admits_node_kept(a: Admits, b: Admits, node: Json)
    requires
        admits_node(a, node),
        admits_more(a, b),
    ensures
        admits_node(b, node),
{
    assert forall|i: int| 0 <= i < own_names(node).len() implies #[trigger] admits_name(b, own_names(node)[i]) by {
        assert(admits_name(a, own_names(node)[i]));
        lemma_admits_name_kept(a, b, own_names(node)[i]);
    }
}

impl Admits {
    /// Everything these nodes and the schemas they compose with declare: the
    /// union, because a name any one of them declares is a name the value
    /// can carry.
    pub fn of_each(nodes: &Vec<&Json>, doc: &Json) -> (r: Admits)
        ensures
            forall|k: int| 0 <= k < nodes@.len() ==> #[trigger] admits_node(r, *nodes@[k]),
            r.any ==> open_in_some(*doc, held_of(nodes@)),
            forall|i: int| 0 <= i < r.named@.len() ==> named_by_some(*doc, held_of(nodes@), #[trigger] r.named@[i]@),
            open_in_some(*doc, held_of(nodes@)) ==> r.any,
            forall|name: Seq<char>| #[trigger] named_by_some(*doc, held_of(nodes@), name) ==> admits_name(r, name),
            forall|name: Seq<char>|
                #[trigger] admits_name(r, name) <==> named_by_some(*doc, held_of(nodes@), name) || open_in_some(
                    *doc,
                    held_of(nodes@),
                ),
    {
        let mut admits = Admits { named: Vec::new(), any: false };
        let ghost empty = admits;
        let ghost held = held_of(nodes@);
        let mut followed: Vec<String> = Vec::new();
        let ghost mut d: Set<Json> = Set::empty();
        let mut i: usize = 0;
        while i < nodes.len()
            invariant
                i <= nodes@.len(),
                held == held_of(nodes@),
                gathering_holds(admits, *doc, followed@, d, Set::empty()),
                forall|k: int| 0 <= k < i ==> d.contains(#[trigger] held[k]),
                empty.named@.len() == 0 && !empty.any,
                forall|k: int| 0 <= k < i ==> #[trigger] admits_node(admits, *nodes@[k]),
                gathered_from_each(empty, admits, *doc, held),
            decreases nodes.len() - i,
        {
            let ghost before = admits;
            let got = gather(&mut admits, nodes[i], doc, &mut followed, Ghost(Set::empty()), Ghost(d));
            proof {
                d = got@;
                assert(held[i as int] == *nodes@[i as int]);
                lemma_each_then(empty, before, admits, *doc, held, i as int);
                assert forall|k: int| 0 <= k < i + 1 implies #[trigger] admits_node(admits, *nodes@[k]) by {
                    if k < i {
                        lemma_admits_node_kept(before, admits, *nodes@[k]);
                    }
                }
            }
            i += 1;
        }
        proof {
            assert(gathered_from_each(empty, admits, *doc, held));
            assert forall|i: int| 0 <= i < admits.named@.len() implies named_by_some(*doc, held_of(nodes@), #[trigger] admits.named@[i]@) by {
                assert(empty.named@.len() <= i < admits.named@.len());
            }
            assert forall|name: Seq<char>| #[trigger] named_by_some(*doc, held_of(nodes@), name) implies admits_name(admits, name) by {
                let k = choose|k: int| 0 <= k < held.len() && names_within(*doc, #[trigger] held[k], name);
                lemma_done_admits(admits, *doc, followed@, d, held[k]);
            }
            if open_in_some(*doc, held) {
                let k = choose|k: int| 0 <= k < held.len() && open_within(*doc, #[trigger] held[k]);
                lemma_done_admits(admits, *doc, followed@, d, held[k]);
            }
            assert forall|name: Seq<char>| #[trigger] admits_name(admits, name) implies named_by_some(*doc, held_of(nodes@), name)
                || open_in_some(*doc, held_of(nodes@)) by {
                if !admits.any {
                    let w = choose|w: int| 0 <= w < admits.named@.len() && (#[trigger] admits.named@[w])@ == name;
                    assert(named_by_some(*doc, held_of(nodes@), admits.named@[w]@));
                }
            }
        }
        admits
    }
}

/// Whether some node of `nodes` declares `name` under its own `properties`.
pub open spec fn declared_by(nodes: Seq<Json>, name: Seq<char>) -> bool {
    exists|k: int, i: int|
        0 <= k < nodes.len() && 0 <= i < own_names(nodes[k]).len() && #[trigger] own_names(nodes[k])[i]
            == name
}

/// Whether `name` is declared by nothing a node is held to — the node and the
/// schemas it sits inside, and, for an array, what its `items` compose with —
/// and none of those is open-ended.
pub open spec fn unadmitted(doc: Json, held: Seq<Json>, items: Seq<Json>, name: Seq<char>) -> bool {
    &&& !named_by_some(doc, held, name)
    &&& !open_in_some(doc, held)
    &&& !named_by_some(doc, items, name)
    &&& !open_in_some(doc, items)
}

/// Whether a node's `required` lists a name nothing it is held to declares.
pub open spec fn phantom_at(doc: Json, node: Json, enclosing: Seq<Json>) -> bool {
    required_names_of(node) matches Some(names) && exists|i: int|
        0 <= i < names.len() && #[trigger] unadmitted(doc, enclosing.push(node), items_for(node), names[i])
}

/// Whether one of `list` is `name`.
pub open spec fn listed_in(list: Seq<String>, name: Seq<char>) -> bool {
    exists|k: int| 0 <= k < list.len() && (#[trigger] list[k])@ == name
}

/// What nothing gathered from declares, and nothing gathered from leaves open,
/// is not admitted.
proof fn lemma_not_admitted(a: Admits, doc: Json, nodes: Seq<Json>, name: Seq<char>)
    requires
        a.any ==> open_in_some(doc, nodes),
        forall|i: int| 0 <= i < a.named@.len() ==> named_by_some(doc, nodes, #[trigger] a.named@[i]@),
        !named_by_some(doc, nodes, name),
        !open_in_some(doc, nodes),
    ensures
        !admits_name(a, name),
{
    if admits_name(a, name) {
        let w = choose|w: int| 0 <= w < a.named@.len() && (#[trigger] a.named@[w])@ == name;
        assert(named_by_some(doc, nodes, a.named@[w]@));
    }
}

/// What a judged node's refusal says: where the node stands, and names it
/// requires, none of which it or a schema it sits inside declares.
pub open spec fn phantom_of(p: Phantom, node: Json, enclosing: Seq<&Json>, at: Seq<Step>) -> bool {
    &&& p.at@ == location(at)
    &&& p.names@.len() > 0
    &&& required_names_of(node) matches Some(names) && forall|k: int|
        0 <= k < p.names@.len() ==> names.contains(#[trigger] p.names@[k]@)
    &&& forall|k: int|
        0 <= k < p.names@.len() ==> !declared_by(
            enclosing.map_values(|e: &Json| *e).push(node),
            #[trigger] p.names@[k]@,
        )
}

/// The names of a `required` list that nothing held to it declares and
/// nothing held to it leaves open, in the order they are listed.
pub open spec fn missing_names(doc: Json, held: Seq<Json>, names: Seq<Seq<char>>) -> Seq<Seq<char>>
    decreases names.len(),
{
    if names.len() == 0 {
        seq![]
    } else {
        missing_names(doc, held, names.drop_last()) + if !named_by_some(doc, held, names.last()) && !open_in_some(
            doc,
            held,
        ) {
            seq![names.last()]
        } else {
            seq![]
        }
    }
}

/// A refusal as the contracts read it: where the node stands, and the names.
pub open spec fn phantom_view(p: Phantom) -> (Seq<char>, Seq<Seq<char>>) {
    (p.at@, p.names@.map_values(|n: String| n@))
}

/// The refusals of a list, as the contracts read them.
pub open spec fn views(found: Seq<Phantom>) -> Seq<(Seq<char>, Seq<Seq<char>>)> {
    found.map_values(|p: Phantom| phantom_view(p))
}

/// What judging one node at `loc` adds: the node and the names of its
/// `required` list nothing it is held to admits, where one of them is also
/// admitted by nothing its `items` compose with; nothing otherwise.
pub open spec fn judged(doc: Json, node: Json, enclosing: Seq<Json>, loc: Seq<char>) -> Seq<(Seq<char>, Seq<Seq<char>>)> {
    if phantom_at(doc, node, enclosing) {
        seq![(loc, missing_names(doc, enclosing.push(node), required_names_of(node)->Some_0))]
    } else {
        seq![]
    }
}

/// Whether a node's `required` names anything the value it describes cannot
/// carry; if so, the node is added to what was found.
///
/// What the node is held to is every schema it sits inside through a
/// composition, as well as itself. A `required` sitting on an array while the
/// names are declared under its `items` binds nothing and is passed over.
#[verifier::rlimit(100)]
#[verifier::spinoff_prover]
pub fn judge<'d>(
    node: &'d Json,
    enclosing: &Vec<&'d Json>,
    doc: &'d Json,
    at: &Vec<Step<'d>>,
    found: &mut Vec<Phantom>,
)
    ensures
        required_names_of(*node) is None ==> final(found)@ == old(found)@,
        final(found)@ == old(found)@ || exists|p: Phantom|
            #[trigger] phantom_of(p, *node, enclosing@, at@) && final(found)@ == old(found)@.push(p),
        phantom_at(*doc, *node, held_of(enclosing@)) ==> final(found)@.len() == old(found)@.len() + 1,
        final(found)@ != old(found)@ ==> undeclared_at(*node, held_of(enclosing@)),
        final(found)@ != old(found)@ ==> phantom_at(*doc, *node, held_of(enclosing@)),
        views(final(found)@) == views(old(found)@) + judged(*doc, *node, held_of(enclosing@), location(at@)),
{
    let names = match required_names(node) {
        None => return,
        Some(names) => names,
    };
    let ghost listed = names@.map_values(|n: String| n@);
    let ghost held = enclosing@.map_values(|e: &Json| *e).push(*node);
    let mut holders: Vec<&Json> = Vec::new();
    let mut e: usize = 0;
    while e < enclosing.len()
        invariant
            e <= enclosing@.len(),
            holders@.len() == e,
            forall|k: int| 0 <= k < e ==> *(#[trigger] holders@[k]) == *enclosing@[k],
        decreases enclosing.len() - e,
    {
        holders.push(enclosing[e]);
        e += 1;
    }
    holders.push(node);
    assert forall|k: int| 0 <= k < holders@.len() implies *(#[trigger] holders@[k]) == held[k] by {}
    assert(held_of(holders@) =~= held);
    assert(held =~= held_of(enclosing@).push(*node));
    let ghost items = items_for(*node);
    let here = Admits::of_each(&holders, doc);
    let mut missing: Vec<String> = Vec::new();
    let mut i: usize = 0;
    while i < names.len()
        invariant
            i <= names@.len(),
            listed == names@.map_values(|n: String| n@),
            holders@.len() == held.len(),
            forall|k: int| 0 <= k < holders@.len() ==> *(#[trigger] holders@[k]) == held[k],
            forall|k: int| 0 <= k < holders@.len() ==> #[trigger] admits_node(here, *holders@[k]),
            forall|k: int| 0 <= k < missing@.len() ==> listed.contains(#[trigger] missing@[k]@),
            forall|k: int| 0 <= k < missing@.len() ==> !declared_by(held, #[trigger] missing@[k]@),
            forall|k: int| 0 <= k < missing@.len() ==> !admits_name(here, #[trigger] missing@[k]@),
            missing@.map_values(|n: String| n@) == missing_names(*doc, held, listed.take(i as int)),
            forall|name: Seq<char>|
                #[trigger] admits_name(here, name) <==> named_by_some(*doc, held, name) || open_in_some(*doc, held),
            held_of(holders@) == held,
            items == items_for(*node),
            here.any ==> open_in_some(*doc, held),
            forall|k: int| 0 <= k < here.named@.len() ==> named_by_some(*doc, held, #[trigger] here.named@[k]@),
            forall|j: int|
                0 <= j < i && #[trigger] unadmitted(*doc, held, items, listed[j]) ==> listed_in(missing@, listed[j]),
        decreases names.len() - i,
    {
        let ghost before = missing@;
        proof {
            if unadmitted(*doc, held, items, listed[i as int]) {
                lemma_not_admitted(here, *doc, held, listed[i as int]);
            }
        }
        if !here.covers(names[i].as_str()) {
            proof {
                assert(listed[i as int] == names@[i as int]@);
                assert(!declared_by(held, names@[i as int]@)) by {
                    if declared_by(held, names@[i as int]@) {
                        let (k, j) = choose|k: int, j: int|
                            0 <= k < held.len() && 0 <= j < own_names(held[k]).len() && #[trigger] own_names(held[k])[j]
                                == names@[i as int]@;
                        assert(admits_node(here, *holders@[k]));
                        assert(admits_name(here, own_names(held[k])[j]));
                    }
                }
            }
            missing.push(names[i].clone());
            proof {
                assert(missing@[before.len() as int]@ == listed[i as int]);
            }
        }
        proof {
            let lst = listed.take(i + 1);
            assert(lst.drop_last() =~= listed.take(i as int));
            assert(lst.last() == listed[i as int]);
            assert(listed[i as int] == names@[i as int]@);
            if missing@.len() > before.len() {
                assert(missing@.map_values(|n: String| n@) =~= before.map_values(|n: String| n@).push(listed[i as int]));
            } else {
                assert(missing@ == before);
            }
            assert(missing@.map_values(|n: String| n@) == missing_names(*doc, held, lst));
            assert forall|j: int|
                0 <= j < i + 1 && #[trigger] unadmitted(*doc, held, items, listed[j]) implies listed_in(missing@, listed[j]) by {
                if j < i {
                    let k = choose|k: int| 0 <= k < before.len() && (#[trigger] before[k])@ == listed[j];
                    assert(missing@[k] == before[k]);
                } else {
                    assert(missing@[before.len() as int]@ == listed[j]);
                }
            }
        }
        i += 1;
    }
    proof {
        if phantom_at(*doc, *node, held_of(enclosing@)) {
            let j = choose|j: int|
                0 <= j < listed.len() && #[trigger] unadmitted(*doc, held_of(enclosing@).push(*node), items_for(*node), listed[j]);
            assert(listed_in(missing@, listed[j]));
        }
    }
    if missing.len() == 0 {
        return;
    }
    let item_refs = items_of(node);
    assert(held_of(item_refs@) =~= items);
    let under = Admits::of_each(&item_refs, doc);
    let mut all_under = true;
    let mut j: usize = 0;
    while j < missing.len()
        invariant
            j <= missing@.len(),
            all_under ==> forall|k: int| 0 <= k < j ==> #[trigger] admits_name(under, missing@[k]@),
            !all_under ==> exists|k: int| 0 <= k < j && !#[trigger] admits_name(under, missing@[k]@),
        decreases missing.len() - j,
    {
        if !under.covers(missing[j].as_str()) {
            all_under = false;
        }
        j += 1;
    }
    proof {
        if phantom_at(*doc, *node, held_of(enclosing@)) && all_under {
            let jj = choose|jj: int|
                0 <= jj < listed.len() && #[trigger] unadmitted(*doc, held_of(enclosing@).push(*node), items_for(*node), listed[jj]);
            assert(unadmitted(*doc, held, items, listed[jj]));
            let k = choose|k: int| 0 <= k < missing@.len() && (#[trigger] missing@[k])@ == listed[jj];
            assert(admits_name(under, missing@[k]@));
            lemma_not_admitted(under, *doc, items, listed[jj]);
        }
    }
    if all_under {
        return;
    }
    proof {
        let k = choose|k: int| 0 <= k < missing@.len() && !#[trigger] admits_name(under, missing@[k]@);
        let x = missing@[k]@;
        assert(!admits_name(here, x));
        assert(listed.contains(x));
        let w = choose|w: int| 0 <= w < listed.len() && listed[w] == x;
        assert(unadmitted(*doc, held_of(enclosing@).push(*node), items_for(*node), listed[w]));
    }
    let p = Phantom { at: spelled(at.as_slice()), names: missing };
    assert(phantom_of(p, *node, enclosing@, at@));
    proof {
        assert(listed.take(listed.len() as int) =~= listed);
        assert(held == held_of(enclosing@).push(*node));
        assert(phantom_view(p) == (location(at@), missing_names(*doc, held_of(enclosing@).push(*node), required_names_of(*node)->Some_0)));
        assert(views(old(found)@.push(p)) =~= views(old(found)@).push(phantom_view(p)));
    }
    proof {
        let names_of = required_names_of(*node)->Some_0;
        let x = p.names@[0]@;
        assert(names_of.contains(x));
        let w = choose|w: int| 0 <= w < names_of.len() && names_of[w] == x;
        assert(!declared_by(held_of(enclosing@).push(*node), names_of[w]));
    }
    found.push(p);
}

/// Whether every refusal found is one a judge could have written: it names
/// at least one key, at a place spelled from the root.
pub open spec fn all_sound(found: Seq<Phantom>) -> bool {
    forall|k: int| 0 <= k < found.len() ==> (#[trigger] found[k]).names@.len() > 0 && found[k].at@.len() > 0
        && found[k].at@[0] == '$'
}

/// What a member reached through `key` is held to: the node and what it is
/// held to, where the key composes with the same value; nothing, where the
/// key leads to a different value.
pub open spec fn enclosing_for(key: Seq<char>, node: Json, enclosing: Seq<Json>) -> Seq<Json> {
    if composed(key) || conditional(key) {
        enclosing.push(node)
    } else {
        Seq::empty()
    }
}

/// Whether a node's `required` lists a name none of the nodes it is held to,
/// itself included, declares under its own `properties`.
pub open spec fn undeclared_at(node: Json, enclosing: Seq<Json>) -> bool {
    required_names_of(node) matches Some(names) && exists|i: int|
        0 <= i < names.len() && !#[trigger] declared_by(enclosing.push(node), names[i])
}

/// Whether the walk, reaching `node` as a `kind` held to `enclosing`, meets a
/// node whose `required` lists a name nothing it is held to declares, within
/// `depth` steps.
pub open spec fn phantom_in(kind: Kind, node: Json, doc: Json, enclosing: Seq<Json>, depth: nat) -> bool
    decreases depth, 0nat,
{
    depth > 0 && match node {
        Json::Array(members) => phantom_members(kind, members@, doc, enclosing, (depth - 1) as nat),
        Json::Object(fields) => (kind == Kind::Schema && phantom_at(doc, node, enclosing)) || phantom_fields(
            kind,
            node,
            fields@,
            doc,
            enclosing,
            (depth - 1) as nat,
        ),
        _ => false,
    }
}

/// The same, for one of the members of a list.
pub open spec fn phantom_members(kind: Kind, members: Seq<Json>, doc: Json, enclosing: Seq<Json>, depth: nat) -> bool
    decreases depth, members.len(),
{
    members.len() > 0 && (phantom_members(kind, members.drop_last(), doc, enclosing, depth) || phantom_in(
        kind,
        members.last(),
        doc,
        enclosing,
        depth,
    ))
}

/// The same, for what one of an object's fields leads to.
pub open spec fn phantom_fields(kind: Kind,
    node: Json,
    fields: Seq<(String, Json)>,
    doc: Json,
    enclosing: Seq<Json>,
    depth: nat,
) -> bool
    decreases depth, fields.len(),
{
    fields.len() > 0 && (phantom_fields(kind, node, fields.drop_last(), doc, enclosing, depth) || phantom_under(
        kind,
        node,
        fields.last().0@,
        fields.last().1,
        doc,
        enclosing,
        depth,
    ))
}

/// The same, for what one key of a node leads to.
pub open spec fn phantom_under(kind: Kind,
    node: Json,
    key: Seq<char>,
    value: Json,
    doc: Json,
    enclosing: Seq<Json>,
    depth: nat,
) -> bool
    decreases depth, 0nat,
{
    depth > 0 && match route_for(kind, key) {
        Some(Route::Node(k)) => phantom_in(k, value, doc, enclosing_for(key, node, enclosing), (depth - 1) as nat),
        Some(Route::Entries(k)) => phantom_entries(
            k,
            value,
            doc,
            enclosing_for(key, node, enclosing),
            (depth - 1) as nat,
        ),
        None => false,
    }
}

/// The same, for the entries of a map of nodes of one kind.
pub open spec fn phantom_entries(kind: Kind, map: Json, doc: Json, enclosing: Seq<Json>, depth: nat) -> bool
    decreases depth, 0nat,
{
    depth > 0 && match map {
        Json::Object(fields) => phantom_entry_list(kind, fields@, doc, enclosing, (depth - 1) as nat),
        _ => false,
    }
}

/// The same, for one entry of a map.
pub open spec fn phantom_entry_list(kind: Kind,
    fields: Seq<(String, Json)>,
    doc: Json,
    enclosing: Seq<Json>,
    depth: nat,
) -> bool
    decreases depth, fields.len(),
{
    fields.len() > 0 && (phantom_entry_list(kind, fields.drop_last(), doc, enclosing, depth) || ((kind
        == Kind::Schema || !extension(fields.last().0@)) && phantom_in(kind, fields.last().1, doc, enclosing, depth)))
}

/// How one key is spelled in a location.
pub open spec fn key_text(key: Seq<char>) -> Seq<char> {
    if bare(key) {
        "."@ + key
    } else {
        "['"@ + quoted_key(key) + "']"@
    }
}

/// How one index is spelled in a location.
pub open spec fn index_text(i: nat) -> Seq<char> {
    "["@ + decimal(i) + "]"@
}

/// A location one step further on is the location and the step.
proof fn lemma_location_push(at: Seq<Step>, step: Step)
    ensures
        location(at.push(step)) == location(at) + step_text(step),
{
    assert(at.push(step).drop_last() =~= at);
    assert(location(at.push(step)) =~= location(at) + step_text(step));
}

/// Every refusal the walk from `node`, reached as a `kind` at `loc` and held
/// to `enclosing`, writes, in the order it meets them — or `None` where the
/// walk goes deeper than `depth` steps.
pub open spec fn walk_in(
    kind: Kind,
    node: Json,
    doc: Json,
    enclosing: Seq<Json>,
    loc: Seq<char>,
    depth: nat,
) -> Option<Seq<(Seq<char>, Seq<Seq<char>>)>>
    decreases depth, 0nat,
{
    if depth == 0 {
        None
    } else {
        match node {
            Json::Array(members) => walk_members(kind, members@, doc, enclosing, loc, (depth - 1) as nat),
            Json::Object(fields) => match walk_fields(kind, node, fields@, doc, enclosing, loc, (depth - 1) as nat) {
                Some(rest) => Some(
                    (if kind == Kind::Schema {
                        judged(doc, node, enclosing, loc)
                    } else {
                        seq![]
                    }) + rest,
                ),
                None => None,
            },
            _ => Some(seq![]),
        }
    }
}

/// The same, for each member of a list in turn.
pub open spec fn walk_members(
    kind: Kind,
    members: Seq<Json>,
    doc: Json,
    enclosing: Seq<Json>,
    loc: Seq<char>,
    depth: nat,
) -> Option<Seq<(Seq<char>, Seq<Seq<char>>)>>
    decreases depth, members.len(),
{
    if members.len() == 0 {
        Some(seq![])
    } else {
        match walk_members(kind, members.drop_last(), doc, enclosing, loc, depth) {
            Some(a) => match walk_in(
                kind,
                members.last(),
                doc,
                enclosing,
                loc + index_text((members.len() - 1) as nat),
                depth,
            ) {
                Some(b) => Some(a + b),
                None => None,
            },
            None => None,
        }
    }
}

/// The same, for what each of an object's fields leads to in turn.
pub open spec fn walk_fields(
    kind: Kind,
    node: Json,
    fields: Seq<(String, Json)>,
    doc: Json,
    enclosing: Seq<Json>,
    loc: Seq<char>,
    depth: nat,
) -> Option<Seq<(Seq<char>, Seq<Seq<char>>)>>
    decreases depth, fields.len(),
{
    if fields.len() == 0 {
        Some(seq![])
    } else {
        match walk_fields(kind, node, fields.drop_last(), doc, enclosing, loc, depth) {
            Some(a) => match walk_under(
                kind,
                node,
                fields.last().0@,
                fields.last().1,
                doc,
                enclosing,
                loc + key_text(fields.last().0@),
                depth,
            ) {
                Some(b) => Some(a + b),
                None => None,
            },
            None => None,
        }
    }
}

/// The same, for what one key of a node leads to.
pub open spec fn walk_under(
    kind: Kind,
    node: Json,
    key: Seq<char>,
    value: Json,
    doc: Json,
    enclosing: Seq<Json>,
    loc: Seq<char>,
    depth: nat,
) -> Option<Seq<(Seq<char>, Seq<Seq<char>>)>>
    decreases depth, 0nat,
{
    if depth == 0 {
        None
    } else {
        match route_for(kind, key) {
            Some(Route::Node(k)) => walk_in(k, value, doc, enclosing_for(key, node, enclosing), loc, (depth - 1) as nat),
            Some(Route::Entries(k)) => walk_entries(k, value, doc, enclosing_for(key, node, enclosing), loc, (depth - 1) as nat),
            None => Some(seq![]),
        }
    }
}

/// The same, for the entries of a map of nodes of one kind.
pub open spec fn walk_entries(
    kind: Kind,
    map: Json,
    doc: Json,
    enclosing: Seq<Json>,
    loc: Seq<char>,
    depth: nat,
) -> Option<Seq<(Seq<char>, Seq<Seq<char>>)>>
    decreases depth, 0nat,
{
    if depth == 0 {
        None
    } else {
        match map {
            Json::Object(fields) => walk_entry_list(kind, fields@, doc, enclosing, loc, (depth - 1) as nat),
            _ => Some(seq![]),
        }
    }
}

/// The same, for each entry of a map in turn.
pub open spec fn walk_entry_list(
    kind: Kind,
    fields: Seq<(String, Json)>,
    doc: Json,
    enclosing: Seq<Json>,
    loc: Seq<char>,
    depth: nat,
) -> Option<Seq<(Seq<char>, Seq<Seq<char>>)>>
    decreases depth, fields.len(),
{
    if fields.len() == 0 {
        Some(seq![])
    } else {
        match walk_entry_list(kind, fields.drop_last(), doc, enclosing, loc, depth) {
            Some(a) => if kind == Kind::Schema || !extension(fields.last().0@) {
                match walk_in(kind, fields.last().1, doc, enclosing, loc + key_text(fields.last().0@), depth) {
                    Some(b) => Some(a + b),
                    None => None,
                }
            } else {
                Some(a)
            },
            None => None,
        }
    }
}

/// One node, then everything under it the document leads to a schema through.
/// A list stands for each of its members. A key the document leads to no
/// schema through is not read at all; a composition keyword keeps talking about
/// the same value, so the node joins what its members are held to, and every
/// other key is a different value, which the schemas out here say nothing
/// about.
#[verifier::rlimit(100)]
#[verifier::spinoff_prover]
pub fn read<'d>(
    kind: Kind,
    node: &'d Json,
    doc: &'d Json,
    at: &mut Vec<Step<'d>>,
    enclosing: &mut Vec<&'d Json>,
    found: &mut Vec<Phantom>,
)
    requires
        all_sound(old(found)@),
    ensures
        final(at)@ == old(at)@,
        final(enclosing)@ == old(enclosing)@,
        old(found)@.len() <= final(found)@.len(),
        final(found)@.take(old(found)@.len() as int) == old(found)@,
        all_sound(final(found)@),
        forall|d: nat| #[trigger] phantom_in(kind, *node, *doc, held_of(old(enclosing)@), d) ==> final(found)@.len()
            > old(found)@.len(),
        final(found)@.len() > old(found)@.len() ==> exists|d: nat| #[trigger] phantom_in(kind, *node, *doc, held_of(old(enclosing)@), d),
        forall|d: nat|
            #[trigger] walk_in(kind, *node, *doc, held_of(old(enclosing)@), location(old(at)@), d) matches Some(l) ==> views(
                final(found)@,
            ) == views(old(found)@) + l,
    decreases *node,
{
    let ghost enc0 = held_of(enclosing@);
    let ghost loc0 = location(at@);
    match node {
        Json::Array(members) => {
            let mut i: usize = 0;
            while i < members.len()
                invariant
                    *node == Json::Array(*members),
                    i <= members@.len(),
                    at@ == old(at)@,
                    enclosing@ == old(enclosing)@,
                    old(found)@.len() <= found@.len(),
                    found@.take(old(found)@.len() as int) == old(found)@,
                    all_sound(found@),
                    enc0 == held_of(old(enclosing)@),
                    forall|d: nat| #[trigger] phantom_members(kind, members@.take(i as int), *doc, enc0, d) ==> found@.len()
                        > old(found)@.len(),
                    found@.len() > old(found)@.len() ==> exists|d: nat| #[trigger] phantom_members(kind, members@.take(i as int), *doc, enc0, d),
                    loc0 == location(old(at)@),
                    forall|d: nat|
                        #[trigger] walk_members(kind, members@.take(i as int), *doc, enc0, loc0, d) matches Some(l) ==> views(found@)
                            == views(old(found)@) + l,
                decreases members.len() - i,
            {
                proof {
                    assert(decreases_to!(*node => (*node)->Array_0));
                    vstd::std_specs::vec::axiom_vec_index_decreases(*members, i as int);
                }
                let ghost before = found@;
                at.push(Step::Index(i));
                read(kind, &members[i], doc, at, enclosing, found);
                at.pop();
                proof {
                    assert(at@ =~= old(at)@);
                    assert(found@.take(old(found)@.len() as int) =~= old(found)@) by {
                        assert(found@.take(before.len() as int) == before);
                    }
                    assert forall|d: nat| #[trigger] phantom_members(kind, members@.take(i + 1), *doc, enc0, d) implies found@.len()
                        > old(found)@.len() by {
                        let s = members@.take(i + 1);
                        assert(s.drop_last() =~= members@.take(i as int));
                        assert(s.last() == members@[i as int]);
                        assert(s.len() > 0);
                        assert(phantom_members(kind, s, *doc, enc0, d) == (phantom_members(kind, s.drop_last(), *doc, enc0, d) || phantom_in(kind, s.last(), *doc, enc0, d)));
                        if phantom_in(kind, members@[i as int], *doc, enc0, d) {
                            assert(found@.len() > before.len());
                        } else {
                            assert(phantom_members(kind, members@.take(i as int), *doc, enc0, d));
                            assert(before.len() > old(found)@.len());
                        }
                    }
                    let s = members@.take(i + 1);
                    assert(s.drop_last() =~= members@.take(i as int));
                    assert(s.last() == members@[i as int]);
                    lemma_location_push(old(at)@, Step::Index(i));
                    assert(step_text(Step::Index(i)) == index_text(i as nat));
                    assert forall|d: nat| #[trigger] walk_members(kind, members@.take(i + 1), *doc, enc0, loc0, d) is Some
                        implies views(found@) == views(old(found)@) + walk_members(kind, members@.take(i + 1), *doc, enc0, loc0, d)->Some_0 by {
                        assert((s.len() - 1) as nat == i as nat);
                        let a = walk_members(kind, members@.take(i as int), *doc, enc0, loc0, d)->Some_0;
                        let b = walk_in(kind, members@[i as int], *doc, enc0, loc0 + index_text(i as nat), d)->Some_0;
                        assert(views(before) == views(old(found)@) + a);
                        assert(views(found@) == views(before) + b);
                        assert(views(old(found)@) + a + b =~= views(old(found)@) + (a + b));
                    }
                    if found@.len() > old(found)@.len() {
                        if before.len() > old(found)@.len() {
                            let d = choose|d: nat| #[trigger] phantom_members(kind, members@.take(i as int), *doc, enc0, d);
                            assert(phantom_members(kind, s, *doc, enc0, d));
                        } else {
                            let d = choose|d: nat| #[trigger] phantom_in(kind, members@[i as int], *doc, enc0, d);
                            assert(phantom_members(kind, s, *doc, enc0, d));
                        }
                    }
                }
                i += 1;
            }
            proof {
                assert(members@.take(members@.len() as int) =~= members@);
                assert forall|d: nat| #[trigger] phantom_in(kind, *node, *doc, enc0, d) implies found@.len() > old(found)@.len() by {
                    assert(phantom_members(kind, members@, *doc, enc0, (d - 1) as nat));
                }
                if found@.len() > old(found)@.len() {
                    let d = choose|d: nat| #[trigger] phantom_members(kind, members@.take(members@.len() as int), *doc, enc0, d);
                    assert(phantom_in(kind, *node, *doc, enc0, d + 1));
                }
                assert forall|d: nat| #[trigger] walk_in(kind, *node, *doc, enc0, loc0, d) is Some implies views(found@)
                    == views(old(found)@) + walk_in(kind, *node, *doc, enc0, loc0, d)->Some_0 by {
                    assert(walk_in(kind, *node, *doc, enc0, loc0, d) == walk_members(kind, members@, *doc, enc0, loc0, (d - 1) as nat));
                }
            }
        },
        Json::Object(fields) => {
            if kind == Kind::Schema {
                let ghost before = found@;
                let ghost arg = enclosing@;
                judge(node, enclosing, doc, at, found);
                assert(phantom_at(*doc, *node, enc0) ==> found@.len() > before.len());
                assert(found@ != before ==> phantom_at(*doc, *node, enc0));
                proof {
                    if found@ != before {
                        let p = choose|p: Phantom|
                            #[trigger] phantom_of(p, *node, arg, at@) && found@ == before.push(p);
                        assert(found@.take(before.len() as int) =~= before);
                        reveal_strlit("$");
                        assert(location(at@)[0] == '$');
                        assert(p.at@.len() > 0 && p.at@[0] == '$');
                        assert forall|k: int| 0 <= k < found@.len() implies (#[trigger] found@[k]).names@.len() > 0
                            && found@[k].at@.len() > 0 && found@[k].at@[0] == '$' by {
                            if k < before.len() {
                                assert(found@[k] == before[k]);
                            }
                        }
                    } else {
                        assert(found@.take(before.len() as int) =~= before);
                    }
                }
            }
            let ghost mid = found@;
            let ghost own = if kind == Kind::Schema {
                judged(*doc, *node, enc0, loc0)
            } else {
                seq![]
            };
            assert(views(mid) =~= views(old(found)@) + own);
            let mut i: usize = 0;
            while i < fields.len()
                invariant
                    *node == Json::Object(*fields),
                    i <= fields@.len(),
                    at@ == old(at)@,
                    enclosing@ == old(enclosing)@,
                    old(found)@.len() <= found@.len(),
                    found@.take(old(found)@.len() as int) == old(found)@,
                    all_sound(found@),
                    enc0 == held_of(old(enclosing)@),
                    (kind == Kind::Schema && phantom_at(*doc, *node, enc0)) ==> found@.len() > old(found)@.len(),
                    found@.len() > old(found)@.len() ==> (kind == Kind::Schema && phantom_at(*doc, *node, enc0))
                        || exists|d: nat| #[trigger] phantom_fields(kind, *node, fields@.take(i as int), *doc, enc0, d),
                    forall|d: nat| #[trigger] phantom_fields(kind, *node, fields@.take(i as int), *doc, enc0, d) ==> found@.len()
                        > old(found)@.len(),
                    loc0 == location(old(at)@),
                    views(mid) == views(old(found)@) + own,
                    forall|d: nat|
                        #[trigger] walk_fields(kind, *node, fields@.take(i as int), *doc, enc0, loc0, d) matches Some(l) ==> views(found@)
                            == views(mid) + l,
                decreases fields.len() - i,
            {
                proof {
                    assert(decreases_to!(*node => (*node)->Object_0));
                    vstd::std_specs::vec::axiom_vec_index_decreases(*fields, i as int);
                    assert(decreases_to!(fields@[i as int] => fields@[i as int].1));
                }
                let key = fields[i].0.as_str();
                let value = &fields[i].1;
                let ghost start_len = found@.len();
                let ghost start_f = found@;
                let ghost under_enc = enclosing_for(key@, *node, enc0);
                let ghost loc1 = loc0 + key_text(key@);
                proof {
                    lemma_location_push(old(at)@, Step::Key(key));
                    assert(step_text(Step::Key(key)) == key_text(key@));
                }
                match route(kind, key) {
                    None => {
                        assert forall|dd: nat| #[trigger] walk_under(kind, *node, key@, *value, *doc, enc0, loc1, dd) is Some
                            implies views(found@) == views(start_f) + walk_under(kind, *node, key@, *value, *doc, enc0, loc1, dd)->Some_0 by {
                            assert(views(start_f) + seq![] =~= views(start_f));
                        }
                    },
                    Some(r) => {
                        let ghost before = found@;
                        at.push(Step::Key(key));
                        let keeps = is_composed(key) || is_conditional(key);
                        let mut outer: Vec<&'d Json> = Vec::new();
                        if keeps {
                            enclosing.push(node);
                        } else {
                            std::mem::swap(&mut outer, enclosing);
                        }
                        assert(held_of(enclosing@) =~= under_enc);
                        match r {
                            Route::Node(k) => {
                                read(k, value, doc, at, enclosing, found);
                                proof {
                                    assert forall|dd: nat| #[trigger] phantom_under(kind, *node, key@, *value, *doc, enc0, dd)
                                        implies found@.len() > before.len() by {
                                        assert(phantom_in(k, *value, *doc, under_enc, (dd - 1) as nat));
                                    }
                                    if found@.len() > before.len() {
                                        let d = choose|d: nat| #[trigger] phantom_in(k, *value, *doc, under_enc, d);
                                        assert(phantom_under(kind, *node, key@, *value, *doc, enc0, d + 1));
                                    }
                                    assert forall|dd: nat| #[trigger] walk_under(kind, *node, key@, *value, *doc, enc0, loc1, dd) is Some
                                        implies views(found@) == views(start_f) + walk_under(kind, *node, key@, *value, *doc, enc0, loc1, dd)->Some_0 by {
                                        assert(walk_under(kind, *node, key@, *value, *doc, enc0, loc1, dd) == walk_in(k, *value, *doc, under_enc, loc1, (dd - 1) as nat));
                                    }
                                }
                            },
                            Route::Entries(k) => {
                                entries(k, value, doc, at, enclosing, found);
                                proof {
                                    assert forall|dd: nat| #[trigger] phantom_under(kind, *node, key@, *value, *doc, enc0, dd)
                                        implies found@.len() > before.len() by {
                                        assert(phantom_entries(k, *value, *doc, under_enc, (dd - 1) as nat));
                                    }
                                    if found@.len() > before.len() {
                                        let d = choose|d: nat| #[trigger] phantom_entries(k, *value, *doc, under_enc, d);
                                        assert(phantom_under(kind, *node, key@, *value, *doc, enc0, d + 1));
                                    }
                                    assert forall|dd: nat| #[trigger] walk_under(kind, *node, key@, *value, *doc, enc0, loc1, dd) is Some
                                        implies views(found@) == views(start_f) + walk_under(kind, *node, key@, *value, *doc, enc0, loc1, dd)->Some_0 by {
                                        assert(walk_under(kind, *node, key@, *value, *doc, enc0, loc1, dd) == walk_entries(k, *value, *doc, under_enc, loc1, (dd - 1) as nat));
                                    }
                                }
                            },
                        }
                        if keeps {
                            enclosing.pop();
                        } else {
                            std::mem::swap(&mut outer, enclosing);
                        }
                        at.pop();
                        proof {
                            assert(at@ =~= old(at)@);
                            assert(enclosing@ =~= old(enclosing)@);
                            assert(found@.take(old(found)@.len() as int) =~= old(found)@) by {
                                assert(found@.take(before.len() as int) == before);
                            }
                        }
                    },
                }
                proof {
                    assert forall|d: nat| #[trigger] phantom_fields(kind, *node, fields@.take(i + 1), *doc, enc0, d) implies found@.len()
                        > old(found)@.len() by {
                        let s = fields@.take(i + 1);
                        assert(s.drop_last() =~= fields@.take(i as int));
                        assert(s.last() == fields@[i as int]);
                        assert(s.len() > 0);
                        assert(phantom_fields(kind, *node, s, *doc, enc0, d) == (phantom_fields(kind, *node, s.drop_last(), *doc, enc0, d)
                            || phantom_under(kind, *node, s.last().0@, s.last().1, *doc, enc0, d)));
                        if phantom_under(kind, *node, key@, *value, *doc, enc0, d) {
                            assert(found@.len() > start_len);
                        } else {
                            assert(phantom_fields(kind, *node, fields@.take(i as int), *doc, enc0, d));
                        }
                    }
                    let s = fields@.take(i + 1);
                    assert(s.drop_last() =~= fields@.take(i as int));
                    assert(s.last() == fields@[i as int]);
                    if found@.len() > start_len {
                        let d = choose|d: nat| #[trigger] phantom_under(kind, *node, key@, *value, *doc, enc0, d);
                        assert(phantom_fields(kind, *node, s, *doc, enc0, d));
                    } else if start_len > old(found)@.len() && !(kind == Kind::Schema && phantom_at(*doc, *node, enc0)) {
                        let d = choose|d: nat| #[trigger] phantom_fields(kind, *node, fields@.take(i as int), *doc, enc0, d);
                        assert(phantom_fields(kind, *node, s, *doc, enc0, d));
                    }
                    assert forall|d: nat| #[trigger] walk_fields(kind, *node, fields@.take(i + 1), *doc, enc0, loc0, d) is Some
                        implies views(found@) == views(mid) + walk_fields(kind, *node, fields@.take(i + 1), *doc, enc0, loc0, d)->Some_0 by {
                        let a = walk_fields(kind, *node, fields@.take(i as int), *doc, enc0, loc0, d)->Some_0;
                        let b = walk_under(kind, *node, key@, *value, *doc, enc0, loc1, d)->Some_0;
                        assert(views(start_f) == views(mid) + a);
                        assert(views(found@) == views(start_f) + b);
                        assert(views(mid) + a + b =~= views(mid) + (a + b));
                    }
                }
                i += 1;
            }
            proof {
                assert(fields@.take(fields@.len() as int) =~= fields@);
                assert forall|d: nat| #[trigger] phantom_in(kind, *node, *doc, enc0, d) implies found@.len() > old(found)@.len() by {
                    if !(kind == Kind::Schema && phantom_at(*doc, *node, enc0)) {
                        assert(phantom_fields(kind, *node, fields@, *doc, enc0, (d - 1) as nat));
                    }
                }
                if found@.len() > old(found)@.len() {
                    if kind == Kind::Schema && phantom_at(*doc, *node, enc0) {
                        assert(phantom_in(kind, *node, *doc, enc0, 1));
                    } else {
                        let d = choose|d: nat| #[trigger] phantom_fields(kind, *node, fields@.take(fields@.len() as int), *doc, enc0, d);
                        assert(phantom_in(kind, *node, *doc, enc0, d + 1));
                    }
                }
                assert forall|d: nat| #[trigger] walk_in(kind, *node, *doc, enc0, loc0, d) is Some implies views(found@)
                    == views(old(found)@) + walk_in(kind, *node, *doc, enc0, loc0, d)->Some_0 by {
                    let rest = walk_fields(kind, *node, fields@, *doc, enc0, loc0, (d - 1) as nat)->Some_0;
                    assert(views(mid) + rest =~= views(old(found)@) + (own + rest));
                }
            }
        },
        _ => {},
    }
}

/// Every entry of a map of nodes of one kind. A map of schemas is keyed by
/// names an author chose, and `x-total` is an ordinary thing to call one;
/// every other map here lets a vendor hang JSON of its own beside its
/// entries, and that is not one more entry.
#[verifier::rlimit(100)]
#[verifier::spinoff_prover]
pub fn entries<'d>(
    kind: Kind,
    map: &'d Json,
    doc: &'d Json,
    at: &mut Vec<Step<'d>>,
    enclosing: &mut Vec<&'d Json>,
    found: &mut Vec<Phantom>,
)
    requires
        all_sound(old(found)@),
    ensures
        final(at)@ == old(at)@,
        final(enclosing)@ == old(enclosing)@,
        old(found)@.len() <= final(found)@.len(),
        final(found)@.take(old(found)@.len() as int) == old(found)@,
        all_sound(final(found)@),
        forall|d: nat| #[trigger] phantom_entries(kind, *map, *doc, held_of(old(enclosing)@), d) ==> final(found)@.len()
            > old(found)@.len(),
        final(found)@.len() > old(found)@.len() ==> exists|d: nat| #[trigger] phantom_entries(kind, *map, *doc, held_of(old(enclosing)@), d),
        forall|d: nat|
            #[trigger] walk_entries(kind, *map, *doc, held_of(old(enclosing)@), location(old(at)@), d) matches Some(l) ==> views(
                final(found)@,
            ) == views(old(found)@) + l,
    decreases *map,
{
    let ghost enc0 = held_of(enclosing@);
    let ghost loc0 = location(at@);
    match map {
        Json::Object(fields) => {
            let mut i: usize = 0;
            while i < fields.len()
                invariant
                    *map == Json::Object(*fields),
                    i <= fields@.len(),
                    at@ == old(at)@,
                    enclosing@ == old(enclosing)@,
                    old(found)@.len() <= found@.len(),
                    found@.take(old(found)@.len() as int) == old(found)@,
                    all_sound(found@),
                    enc0 == held_of(old(enclosing)@),
                    forall|d: nat| #[trigger] phantom_entry_list(kind, fields@.take(i as int), *doc, enc0, d) ==> found@.len()
                        > old(found)@.len(),
                    found@.len() > old(found)@.len() ==> exists|d: nat| #[trigger] phantom_entry_list(kind, fields@.take(i as int), *doc, enc0, d),
                    loc0 == location(old(at)@),
                    forall|d: nat|
                        #[trigger] walk_entry_list(kind, fields@.take(i as int), *doc, enc0, loc0, d) matches Some(l) ==> views(found@)
                            == views(old(found)@) + l,
                decreases fields.len() - i,
            {
                let ghost start_len = found@.len();
                let ghost start_f = found@;
                proof {
                    assert(decreases_to!(*map => (*map)->Object_0));
                    vstd::std_specs::vec::axiom_vec_index_decreases(*fields, i as int);
                    assert(decreases_to!(fields@[i as int] => fields@[i as int].1));
                }
                let key = fields[i].0.as_str();
                if kind == Kind::Schema || !is_extension(key) {
                    let ghost before = found@;
                    at.push(Step::Key(key));
                    read(kind, &fields[i].1, doc, at, enclosing, found);
                    at.pop();
                    proof {
                        assert(at@ =~= old(at)@);
                        assert(found@.take(old(found)@.len() as int) =~= old(found)@) by {
                            assert(found@.take(before.len() as int) == before);
                        }
                    }
                }
                proof {
                    assert forall|d: nat| #[trigger] phantom_entry_list(kind, fields@.take(i + 1), *doc, enc0, d) implies found@.len()
                        > old(found)@.len() by {
                        let s = fields@.take(i + 1);
                        assert(s.drop_last() =~= fields@.take(i as int));
                        assert(s.last() == fields@[i as int]);
                        assert(s.len() > 0);
                        assert(phantom_entry_list(kind, s, *doc, enc0, d) == (phantom_entry_list(kind, s.drop_last(), *doc, enc0, d)
                            || ((kind == Kind::Schema || !extension(s.last().0@)) && phantom_in(kind, s.last().1, *doc, enc0, d))));
                        if (kind == Kind::Schema || !extension(fields@[i as int].0@)) && phantom_in(kind, fields@[i as int].1, *doc, enc0, d) {
                            assert(found@.len() > start_len);
                        } else {
                            assert(phantom_entry_list(kind, fields@.take(i as int), *doc, enc0, d));
                        }
                    }
                    let s = fields@.take(i + 1);
                    assert(s.drop_last() =~= fields@.take(i as int));
                    assert(s.last() == fields@[i as int]);
                    if found@.len() > start_len {
                        let d = choose|d: nat| #[trigger] phantom_in(kind, fields@[i as int].1, *doc, enc0, d);
                        assert(phantom_entry_list(kind, s, *doc, enc0, d));
                    } else if start_len > old(found)@.len() {
                        let d = choose|d: nat| #[trigger] phantom_entry_list(kind, fields@.take(i as int), *doc, enc0, d);
                        assert(phantom_entry_list(kind, s, *doc, enc0, d));
                    }
                    lemma_location_push(old(at)@, Step::Key(key));
                    assert(step_text(Step::Key(key)) == key_text(key@));
                    assert forall|d: nat| #[trigger] walk_entry_list(kind, fields@.take(i + 1), *doc, enc0, loc0, d) is Some
                        implies views(found@) == views(old(found)@) + walk_entry_list(kind, fields@.take(i + 1), *doc, enc0, loc0, d)->Some_0 by {
                        let a = walk_entry_list(kind, fields@.take(i as int), *doc, enc0, loc0, d)->Some_0;
                        assert(views(start_f) == views(old(found)@) + a);
                        if kind == Kind::Schema || !extension(key@) {
                            let b = walk_in(kind, fields@[i as int].1, *doc, enc0, loc0 + key_text(key@), d)->Some_0;
                            assert(views(found@) == views(start_f) + b);
                            assert(views(old(found)@) + a + b =~= views(old(found)@) + (a + b));
                        } else {
                            assert(found@ == start_f);
                        }
                    }
                }
                i += 1;
            }
            proof {
                assert(fields@.take(fields@.len() as int) =~= fields@);
                assert forall|d: nat| #[trigger] phantom_entries(kind, *map, *doc, enc0, d) implies found@.len() > old(found)@.len() by {
                    assert(phantom_entry_list(kind, fields@, *doc, enc0, (d - 1) as nat));
                }
                if found@.len() > old(found)@.len() {
                    let d = choose|d: nat| #[trigger] phantom_entry_list(kind, fields@.take(fields@.len() as int), *doc, enc0, d);
                    assert(phantom_entries(kind, *map, *doc, enc0, d + 1));
                }
                assert forall|d: nat| #[trigger] walk_entries(kind, *map, *doc, enc0, loc0, d) is Some implies views(found@)
                    == views(old(found)@) + walk_entries(kind, *map, *doc, enc0, loc0, d)->Some_0 by {
                    assert(walk_entries(kind, *map, *doc, enc0, loc0, d) == walk_entry_list(kind, fields@, *doc, enc0, loc0, (d - 1) as nat));
                }
            }
        },
        _ => {},
    }
}

/// Every `required` name in a document that nothing reachable declares, read
/// off the document as `serde_json` holds it.
pub fn check(document: &serde_json::Value) -> (r: Result<(), PhantomKeys>)
    ensures
        r matches Err(k) ==> k.nodes@.len() > 0 && all_sound(k.nodes@),
        r is Err <==> exists|d: nat|
            #[trigger] phantom_in(Kind::Root, crate::openapi::json_value(*document), crate::openapi::json_value(*document), Seq::<Json>::empty(), d),
        forall|d: nat|
            #[trigger] walk_in(Kind::Root, crate::openapi::json_value(*document), crate::openapi::json_value(*document), Seq::<Json>::empty(), "$"@, d)
                matches Some(l) ==> (r is Ok <==> l.len() == 0) && (r matches Err(k) ==> views(k.nodes@) == l),
{
    check_json(&crate::openapi::json_of(document))
}

/// Read one overlaid document for `required` lists naming keys nothing
/// declares. The whole document is walked — `paths`, inline request bodies,
/// inline responses and `components` alike — and every node found is named
/// at once.
pub fn check_json(document: &Json) -> (r: Result<(), PhantomKeys>)
    ensures
        r matches Err(k) ==> k.nodes@.len() > 0 && all_sound(k.nodes@),
        forall|d: nat| #[trigger] phantom_in(Kind::Root, *document, *document, Seq::<Json>::empty(), d) ==> r is Err,
        r is Err ==> exists|d: nat| #[trigger] phantom_in(Kind::Root, *document, *document, Seq::<Json>::empty(), d),
        forall|d: nat|
            #[trigger] walk_in(Kind::Root, *document, *document, Seq::<Json>::empty(), "$"@, d) matches Some(l) ==> (r is Ok
                <==> l.len() == 0) && (r matches Err(k) ==> views(k.nodes@) == l),
{
    let mut at: Vec<Step> = Vec::new();
    let mut enclosing: Vec<&Json> = Vec::new();
    let mut found: Vec<Phantom> = Vec::new();
    assert(held_of(enclosing@) =~= Seq::<Json>::empty());
    proof {
        assert(location(at@) =~= "$"@);
        assert(views(found@) =~= Seq::<(Seq<char>, Seq<Seq<char>>)>::empty());
    }
    read(Kind::Root, document, document, &mut at, &mut enclosing, &mut found);
    if found.len() == 0 {
        Ok(())
    } else {
        Err(PhantomKeys { nodes: found })
    }
}

} // verus!

