//! Media types: which keys of a document's `content` map name a type at all,
//! which of them carry JSON, and which one this crate assembles from parts.
//!
//! Every test goes by the essence of the type — what stands before the first
//! `;`, trimmed and in ASCII lowercase — so parameters never decide.

use vstd::prelude::*;

use crate::text::{
    append_chars, append_str, chars_of, find_char, index_of, is_alnum, lemma_index_of_bound,
    same_chars, string_of, trim_chars, trimmed,
};
use crate::values::{lowered, lowered_of};

verus! {

/// A `$ref` that cannot be followed.
#[derive(Debug, Clone, PartialEq, Eq)]
pub enum RefError {
    /// A reference naming nothing this document holds.
    Missing { reference: String },
    /// A reference reached a second time while following one chain.
    Cycle { reference: String },
}

impl RefError {
    /// The sentence this error is reported in.
    pub fn message(&self) -> (out: String)
        ensures
            out@ == match self {
                RefError::Missing { reference } => "`"@ + reference@ + "` does not resolve"@,
                RefError::Cycle { reference } => "`"@ + reference@ + "` is a reference cycle"@,
            },
    {
        let mut out: Vec<char> = Vec::new();
        match self {
            RefError::Missing { reference } => {
                append_str(&mut out, "`");
                append_str(&mut out, reference.as_str());
                append_str(&mut out, "` does not resolve");
            },
            RefError::Cycle { reference } => {
                append_str(&mut out, "`");
                append_str(&mut out, reference.as_str());
                append_str(&mut out, "` is a reference cycle");
            },
        }
        string_of(out.as_slice())
    }
}

/// What stands before the first `;` of `s`, or all of `s`.
pub open spec fn before_parameters(s: Seq<char>) -> Seq<char> {
    match index_of(s, ';') {
        Some(k) => s.take(k),
        None => s,
    }
}

/// The type and subtype of a media type, trimmed and in ASCII lowercase.
pub open spec fn essence_of(media_type: Seq<char>) -> Seq<char> {
    lowered(trimmed(before_parameters(media_type)))
}

/// A character RFC 9110's `tchar` admits.
pub open spec fn token_char(c: char) -> bool {
    is_alnum(c) || c == '!' || c == '#' || c == '$' || c == '%' || c == '&' || c == '\''
        || c == '*' || c == '+' || c == '-' || c == '.' || c == '^' || c == '_' || c == '`'
        || c == '|' || c == '~'
}

/// RFC 9110's `token`: one or more `tchar`s.
pub open spec fn token(word: Seq<char>) -> bool {
    word.len() > 0 && forall|i: int| 0 <= i < word.len() ==> token_char(#[trigger] word[i])
}

/// A type over a subtype, each a `token`.
pub open spec fn media_type(s: Seq<char>) -> bool {
    let e = essence_of(s);
    match index_of(e, '/') {
        Some(k) => token(e.take(k)) && token(e.skip(k + 1)),
        None => false,
    }
}

/// `application/json`, or any type whose subtype ends in `+json`.
pub open spec fn json_type(s: Seq<char>) -> bool {
    let e = essence_of(s);
    e == "application/json"@ || (e.len() >= 5 && e.skip(e.len() - 5) == "+json"@)
}

/// `multipart/form-data`, in any case, with any parameters.
pub open spec fn multipart_type(s: Seq<char>) -> bool {
    essence_of(s) == "multipart/form-data"@
}

/// Whether `media_type` is a type over a subtype, as a `content` key must be.
///
/// A parameter is the vendor's to spell, and is read no further than the `;`
/// that starts it.
pub fn is_media_type(media_type_text: &str) -> (r: bool)
    ensures
        r == media_type(media_type_text@),
{
    let e = essence(media_type_text);
    let chars = chars_of(e.as_str());
    let k = match find_char(chars.as_slice(), '/') {
        Some(k) => k,
        None => return false,
    };
    proof {
        lemma_index_of_bound(chars@, '/');
    }
    let mut ty: Vec<char> = Vec::new();
    let mut subtype: Vec<char> = Vec::new();
    let mut i: usize = 0;
    while i < chars.len()
        invariant
            k < chars@.len(),
            i <= chars@.len(),
            ty@ == chars@.take(if i < k { i as int } else { k as int }),
            subtype@ == if i <= k + 1 {
                Seq::<char>::empty()
            } else {
                chars@.subrange(k + 1, i as int)
            },
        decreases chars.len() - i,
    {
        if i < k {
            ty.push(chars[i]);
            assert(chars@.take(i + 1) =~= chars@.take(i as int).push(chars@[i as int]));
        } else if i > k {
            subtype.push(chars[i]);
            assert(chars@.subrange(k + 1, i + 1) =~= (if i <= k + 1 {
                Seq::<char>::empty()
            } else {
                chars@.subrange(k + 1, i as int)
            }).push(chars@[i as int]));
        }
        i += 1;
    }
    assert(subtype@ =~= chars@.skip(k + 1));
    is_token(ty.as_slice()) && is_token(subtype.as_slice())
}

/// RFC 9110's `token`: one or more of the characters a field value carries
/// unquoted. `/` is not one of them, which is what makes the split above the
/// whole of the parse.
fn is_token(word: &[char]) -> (r: bool)
    ensures
        r == token(word@),
{
    if word.len() == 0 {
        return false;
    }
    let mut i: usize = 0;
    while i < word.len()
        invariant
            i <= word@.len(),
            forall|j: int| 0 <= j < i ==> token_char(#[trigger] word@[j]),
        decreases word.len() - i,
    {
        let c = word[i];
        let ok = ('a' <= c && c <= 'z') || ('A' <= c && c <= 'Z') || ('0' <= c && c <= '9')
            || c == '!' || c == '#' || c == '$' || c == '%' || c == '&' || c == '\'' || c == '*'
            || c == '+' || c == '-' || c == '.' || c == '^' || c == '_' || c == '`' || c == '|'
            || c == '~';
        if !ok {
            return false;
        }
        i += 1;
    }
    true
}

/// `application/json`, `application/merge-patch+json`, and anything with
/// parameters after the essence.
pub fn is_json(media_type_text: &str) -> (r: bool)
    ensures
        r == json_type(media_type_text@),
{
    let e = essence(media_type_text);
    let chars = chars_of(e.as_str());
    let plain = chars_of("application/json");
    if same_chars(chars.as_slice(), plain.as_slice()) {
        return true;
    }
    let n = chars.len();
    if n < 5 {
        return false;
    }
    let mut tail: Vec<char> = Vec::new();
    let mut i = n - 5;
    while i < n
        invariant
            n == chars@.len(),
            n >= 5,
            n - 5 <= i <= n,
            tail@ == chars@.subrange(n - 5, i as int),
        decreases n - i,
    {
        tail.push(chars[i]);
        i += 1;
    }
    assert(tail@ =~= chars@.skip(n - 5));
    let suffix = chars_of("+json");
    same_chars(tail.as_slice(), suffix.as_slice())
}

/// A media type this crate can assemble from `--file` and `--field` parts.
pub fn is_multipart(media_type_text: &str) -> (r: bool)
    ensures
        r == multipart_type(media_type_text@),
{
    let e = essence(media_type_text);
    let chars = chars_of(e.as_str());
    let wanted = chars_of("multipart/form-data");
    same_chars(chars.as_slice(), wanted.as_slice())
}

/// What stands before the first `;`, trimmed and in ASCII lowercase.
fn essence(media_type_text: &str) -> (r: String)
    ensures
        r@ == essence_of(media_type_text@),
{
    let chars = chars_of(media_type_text);
    let stop = match find_char(chars.as_slice(), ';') {
        Some(k) => k,
        None => chars.len(),
    };
    proof {
        lemma_index_of_bound(chars@, ';');
    }
    let trimmed_chars = trim_chars(chars.as_slice(), 0, stop);
    assert(chars@.subrange(0, stop as int) =~= before_parameters(chars@));
    let low = lowered_of(trimmed_chars.as_slice());
    let mut out: Vec<char> = Vec::new();
    append_chars(&mut out, low.as_slice());
    string_of(out.as_slice())
}

} // verus!
