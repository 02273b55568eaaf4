//! The arguments for one operation, keyed on the names the document uses.
//!
//! This is the seam that lets one request builder serve two callers. A CLI
//! translates flags into a [`Values`]; a generated Rust wrapper builds one
//! directly from typed arguments. Neither knows about the other, and neither
//! re-spells a path template or a query string.

use vstd::prelude::*;

use crate::json::Json;
use crate::names::segments;
use crate::text::{ascii_lower, chars_of, lower, string_of};

verus! {

/// What goes in the request body. Which variant an operation wants is a
/// document fact, so the media type is not carried here — `Body` holds it.
#[derive(Debug)]
pub enum Payload {
    /// JSON, either assembled from per-field flags or taken whole from a file.
    Json(Json),
    /// Bytes the CLI does not interpret, sent under the document's media type.
    Raw(Vec<u8>),
    /// `multipart/form-data`, assembled part by part.
    Multipart(Vec<Part>),
}

/// One part of a multipart body.
#[derive(Debug, Clone, PartialEq, Eq)]
pub struct Part {
    name: String,
    filename: Option<String>,
    content_type: Option<&'static str>,
    bytes: Vec<u8>,
}

/// What one part says, over character and byte sequences.
pub struct PartView {
    pub name: Seq<char>,
    pub filename: Option<Seq<char>>,
    pub content_type: Option<Seq<char>>,
    pub bytes: Seq<u8>,
}

impl View for Part {
    type V = PartView;

    closed spec fn view(&self) -> PartView {
        PartView {
            name: self.name@,
            filename: match self.filename {
                Some(f) => Some(f@),
                None => None,
            },
            content_type: match self.content_type {
                Some(t) => Some(t@),
                None => None,
            },
            bytes: self.bytes@,
        }
    }
}

/// The last run between `/`s that is not `.`, unless it is `..` — what
/// `Path::file_name` reads off a path.
pub open spec fn file_name(path: Seq<char>) -> Option<Seq<char>> {
    let named = segments(path).filter(|s: Seq<char>| s != "."@);
    if named.len() == 0 || named.last() == ".."@ {
        None
    } else {
        Some(named.last())
    }
}

/// The position of the last `c` in `s`.
pub open spec fn last_index_of(s: Seq<char>, c: char) -> Option<int>
    decreases s.len(),
{
    if s.len() == 0 {
        None
    } else if s.last() == c {
        Some(s.len() - 1)
    } else {
        last_index_of(s.drop_last(), c)
    }
}

/// What follows the last `.` of a file name — none where there is no `.`, or
/// where the only one starts the name, as in `.pdf`.
pub open spec fn extension(name: Seq<char>) -> Option<Seq<char>> {
    match last_index_of(name, '.') {
        Some(k) => if k == 0 {
            None
        } else {
            Some(name.skip(k + 1))
        },
        None => None,
    }
}

/// `s` with every ASCII capital lowercased.
pub open spec fn lowered(s: Seq<char>) -> Seq<char> {
    s.map_values(|c: char| ascii_lower(c))
}

/// The media type a file called `filename` is sent under: read off the
/// extension alone, whatever its case.
pub open spec fn media_type(filename: Seq<char>) -> Seq<char> {
    let ext = match file_name(filename) {
        Some(name) => extension(name),
        None => None,
    };
    match ext {
        Some(e) => if lowered(e) == "pdf"@ {
            "application/pdf"@
        } else if lowered(e) == "png"@ {
            "image/png"@
        } else if lowered(e) == "jpg"@ || lowered(e) == "jpeg"@ {
            "image/jpeg"@
        } else {
            "application/octet-stream"@
        },
        None => "application/octet-stream"@,
    }
}

impl Part {
    /// A text part: `--field name=value`.
    pub fn text(name: &str, value: &str) -> (r: Self)
        ensures
            r@.name == name@,
            r@.filename is None,
            r@.content_type is None,
            r@.bytes == vstd::utf8::encode_utf8(value@),
    {
        Part {
            name: name.to_owned(),
            filename: None,
            content_type: None,
            bytes: crate::text::bytes_of(value),
        }
    }

    /// A file part: `--file name=@path`. `filename` is what the server sees.
    ///
    /// The part is sent under the media type the filename's extension names,
    /// because a server that stores an upload keeps the type the part declared.
    pub fn file(name: &str, filename: &str, bytes: Vec<u8>) -> (r: Self)
        ensures
            r@.name == name@,
            r@.filename == Some(filename@),
            r@.content_type == Some(media_type(filename@)),
            r@.bytes == bytes@,
    {
        Part {
            name: name.to_owned(),
            content_type: Some(media_type_of(filename)),
            filename: Some(filename.to_owned()),
            bytes,
        }
    }

    pub fn name(&self) -> (r: &str)
        ensures
            r@ == self@.name,
    {
        self.name.as_str()
    }

    pub fn filename(&self) -> (r: Option<&str>)
        ensures
            r matches Some(f) ==> self@.filename == Some(f@),
            r is None ==> self@.filename is None,
    {
        match &self.filename {
            Some(f) => Some(f.as_str()),
            None => None,
        }
    }

    /// The media type a file part is sent under; a text part declares none.
    pub fn content_type(&self) -> (r: Option<&'static str>)
        ensures
            r matches Some(t) ==> self@.content_type == Some(t@),
            r is None ==> self@.content_type is None,
    {
        self.content_type
    }

    pub fn bytes(&self) -> (r: &[u8])
        ensures
            r@ == self@.bytes,
    {
        self.bytes.as_slice()
    }
}

/// The name a path ends in, as `Path::file_name` reads it.
pub(crate) fn file_name_of(path: &[char]) -> (r: Option<Vec<char>>)
    ensures
        r matches Some(name) ==> file_name(path@) == Some(name@),
        r is None ==> file_name(path@) is None,
{
    let segs = crate::names::segments_of(path);
    let ghost sv = segments(path@);
    let ghost pred = |s: Seq<char>| s != "."@;
    let dot = chars_of(".");
    let dots = chars_of("..");
    let mut last: Option<usize> = None;
    let mut i: usize = 0;
    while i < segs.len()
        invariant
            i <= segs@.len(),
            segs@.len() == sv.len(),
            forall|k: int| 0 <= k < segs@.len() ==> (#[trigger] segs@[k])@ == sv[k],
            dot@ == "."@,
            pred == (|s: Seq<char>| s != "."@),
            match last {
                Some(k) => k < i && sv.take(i as int).filter(pred).len() > 0 && sv.take(
                    i as int,
                ).filter(pred).last() == sv[k as int],
                None => sv.take(i as int).filter(pred).len() == 0,
            },
        decreases segs.len() - i,
    {
        proof {
            reveal_with_fuel(Seq::filter, 1);
            assert(sv.take(i + 1).drop_last() =~= sv.take(i as int));
        }
        if !crate::text::same_chars(segs[i].as_slice(), dot.as_slice()) {
            last = Some(i);
        }
        i += 1;
    }
    assert(sv.take(sv.len() as int) =~= sv);
    match last {
        None => None,
        Some(k) => {
            if crate::text::same_chars(segs[k].as_slice(), dots.as_slice()) {
                None
            } else {
                let mut out: Vec<char> = Vec::new();
                crate::text::append_chars(&mut out, segs[k].as_slice());
                assert(out@ =~= segs@[k as int]@);
                Some(out)
            }
        },
    }
}

/// What follows the last `.` of `name`, if anything does.
fn extension_of(name: &[char]) -> (r: Option<Vec<char>>)
    ensures
        r matches Some(ext) ==> extension(name@) == Some(ext@),
        r is None ==> extension(name@) is None,
{
    let mut k: usize = name.len();
    assert(name@.take(k as int) =~= name@);
    while k > 0 && name[k - 1] != '.'
        invariant
            k <= name@.len(),
            last_index_of(name@, '.') == last_index_of(name@.take(k as int), '.'),
        decreases k,
    {
        assert(name@.take(k as int).drop_last() =~= name@.take(k - 1));
        k -= 1;
    }
    if k == 0 {
        assert(name@.take(0) =~= Seq::<char>::empty());
        return None;
    }
    assert(last_index_of(name@.take(k as int), '.') == Some(k - 1));
    if k == 1 {
        return None;
    }
    let mut out: Vec<char> = Vec::new();
    let mut j = k;
    while j < name.len()
        invariant
            k <= j <= name@.len(),
            out@ == name@.subrange(k as int, j as int),
        decreases name.len() - j,
    {
        out.push(name[j]);
        j += 1;
    }
    assert(name@.skip(k as int) =~= name@.subrange(k as int, name@.len() as int));
    Some(out)
}

/// `s` with every ASCII capital lowercased.
pub fn lowered_of(s: &[char]) -> (out: Vec<char>)
    ensures
        out@ == lowered(s@),
{
    let mut out: Vec<char> = Vec::new();
    let mut i: usize = 0;
    while i < s.len()
        invariant
            i <= s@.len(),
            out@ == lowered(s@.take(i as int)),
        decreases s.len() - i,
    {
        out.push(lower(s[i]));
        assert(lowered(s@.take(i + 1)) =~= lowered(s@.take(i as int)).push(ascii_lower(s@[i as int])));
        i += 1;
    }
    assert(s@.take(s@.len() as int) =~= s@);
    out
}

/// The media type a file called `filename` is sent under.
///
/// Read off the extension alone, whatever its case, and only for the document
/// types an upload is for: `pdf`, `png`, `jpg` and `jpeg`. Anything else,
/// and a name with no extension, is `application/octet-stream` — the type that
/// claims nothing about the bytes.
pub fn media_type_of(filename: &str) -> (r: &'static str)
    ensures
        r@ == media_type(filename@),
{
    let path = chars_of(filename);
    let name = match file_name_of(path.as_slice()) {
        Some(name) => name,
        None => return "application/octet-stream",
    };
    let ext = match extension_of(name.as_slice()) {
        Some(ext) => ext,
        None => return "application/octet-stream",
    };
    let low = lowered_of(ext.as_slice());
    if crate::text::same_chars(low.as_slice(), chars_of("pdf").as_slice()) {
        "application/pdf"
    } else if crate::text::same_chars(low.as_slice(), chars_of("png").as_slice()) {
        "image/png"
    } else if crate::text::same_chars(low.as_slice(), chars_of("jpg").as_slice())
        || crate::text::same_chars(low.as_slice(), chars_of("jpeg").as_slice()) {
        "image/jpeg"
    } else {
        "application/octet-stream"
    }
}

/// Parameters and a body for one operation, keyed on wire names.
///
/// Nothing here is checked against a document — that happens once, in
/// `Invocation::new`, so there is exactly one place that decides what
/// satisfies an operation.
#[derive(Debug)]
pub struct Values {
    params: Vec<(String, String)>,
    body: Option<Payload>,
}

/// One parameter value, by the wire name it is sent under.
pub open spec fn pair_view(p: (String, String)) -> (Seq<char>, Seq<char>) {
    (p.0@, p.1@)
}

impl Values {
    /// The parameters, in the order they were given.
    pub closed spec fn sent(&self) -> Seq<(Seq<char>, Seq<char>)> {
        self.params@.map_values(|p: (String, String)| pair_view(p))
    }

    /// The body, if one was attached.
    pub closed spec fn carried(&self) -> Option<Payload> {
        self.body
    }

    pub fn new() -> (r: Self)
        ensures
            r.sent() == Seq::<(Seq<char>, Seq<char>)>::empty(),
            r.carried() is None,
    {
        let r = Values { params: Vec::new(), body: None };
        assert(r.sent() =~= Seq::<(Seq<char>, Seq<char>)>::empty());
        r
    }

    /// One parameter, under the name the document gives it.
    pub fn param(self, name: &str, value: &str) -> (r: Self)
        ensures
            r.sent() == self.sent().push((name@, value@)),
            r.carried() == self.carried(),
    {
        let mut me = self;
        me.params.push((name.to_owned(), value.to_owned()));
        assert(me.sent() =~= self.sent().push((name@, value@)));
        me
    }

    /// The same, for an optional parameter: `None` adds nothing.
    pub fn maybe(self, name: &str, value: Option<&str>) -> (r: Self)
        ensures
            r.sent() == match value {
                Some(v) => self.sent().push((name@, v@)),
                None => self.sent(),
            },
            r.carried() == self.carried(),
    {
        match value {
            Some(value) => self.param(name, value),
            None => self,
        }
    }

    /// Every value of a list parameter, under the name the document gives it.
    /// An empty list adds nothing.
    pub fn each(self, name: &str, values: &[&str]) -> (r: Self)
        ensures
            r.sent() == self.sent() + values@.map_values(|v: &str| (name@, v@)),
            r.carried() == self.carried(),
    {
        let mut me = self;
        let mut i: usize = 0;
        while i < values.len()
            invariant
                i <= values@.len(),
                me.sent() == self.sent() + values@.take(i as int).map_values(|v: &str| (name@, v@)),
                me.carried() == self.carried(),
            decreases values.len() - i,
        {
            me = me.param(name, values[i]);
            assert(values@.take(i + 1).map_values(|v: &str| (name@, v@)) =~= values@.take(
                i as int,
            ).map_values(|v: &str| (name@, v@)).push((name@, values@[i as int]@)));
            i += 1;
        }
        assert(values@.take(values@.len() as int) =~= values@);
        me
    }

    pub fn json(self, value: Json) -> (r: Self)
        ensures
            r.sent() == self.sent(),
            r.carried() == Some(Payload::Json(value)),
    {
        let mut me = self;
        me.body = Some(Payload::Json(value));
        me
    }

    pub fn raw(self, bytes: Vec<u8>) -> (r: Self)
        ensures
            r.sent() == self.sent(),
            r.carried() == Some(Payload::Raw(bytes)),
    {
        let mut me = self;
        me.body = Some(Payload::Raw(bytes));
        me
    }

    pub fn multipart(self, parts: Vec<Part>) -> (r: Self)
        ensures
            r.sent() == self.sent(),
            r.carried() == Some(Payload::Multipart(parts)),
    {
        let mut me = self;
        me.body = Some(Payload::Multipart(parts));
        me
    }

    /// Attach `body` when there is one; leave the body alone when there is not.
    pub fn body(self, body: Option<Payload>) -> (r: Self)
        ensures
            r.sent() == self.sent(),
            r.carried() == match body {
                Some(b) => Some(b),
                None => self.carried(),
            },
    {
        let mut me = self;
        if let Some(body) = body {
            me.body = Some(body);
        }
        me
    }

    pub fn params(&self) -> (r: &[(String, String)])
        ensures
            r@.map_values(|p: (String, String)| pair_view(p)) == self.sent(),
    {
        self.params.as_slice()
    }

    pub fn payload(&self) -> (r: Option<&Payload>)
        ensures
            match self.carried() {
                Some(b) => r matches Some(p) && *p == b,
                None => r is None,
            },
    {
        match &self.body {
            Some(b) => Some(b),
            None => None,
        }
    }
}

} // verus!
