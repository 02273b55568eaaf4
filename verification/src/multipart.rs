//! Encoding a `multipart/form-data` body (RFC 7578).
//!
//! Pure: parts in, bytes and a `Content-Type` out. The boundary is derived from
//! the content rather than drawn at random, so the same parts always encode to
//! the same bytes — which is what makes a dry run worth reading and a recorded
//! test worth asserting on.

use vstd::prelude::*;
use vstd::utf8::encode_utf8;

use crate::text::{append_bytes, append_chars, append_str, bytes_of, chars_of, decimal, string_of};
use crate::values::{Part, PartView};

verus! {

/// The bytes and the `Content-Type` header value they must be sent under.
#[derive(Debug, Clone, PartialEq, Eq)]
pub struct Encoded {
    pub content_type: String,
    pub bytes: Vec<u8>,
}

/// What every boundary starts with.
pub open spec fn stem() -> Seq<char> {
    "----typed-openapi-boundary"@
}

/// The `n`th boundary tried: `STEM-n`.
pub open spec fn boundary_candidate(n: nat) -> Seq<char> {
    stem() + seq!['-'] + decimal(n)
}

/// Whether `needle` stands in `hay` starting at `i`.
pub open spec fn matches_at<T>(hay: Seq<T>, needle: Seq<T>, i: int) -> bool {
    0 <= i && i + needle.len() <= hay.len() && hay.subrange(i, i + needle.len()) == needle
}

/// The first place at or after `from` where `pat` stands in `s`.
pub open spec fn first_match_from<T>(s: Seq<T>, pat: Seq<T>, from: int) -> Option<int>
    decreases s.len() + 1 - from,
{
    if from < 0 || from + pat.len() > s.len() {
        None
    } else if matches_at(s, pat, from) {
        Some(from)
    } else {
        first_match_from(s, pat, from + 1)
    }
}

/// The first place `pat` stands in `s`.
pub open spec fn first_match<T>(s: Seq<T>, pat: Seq<T>) -> Option<int> {
    first_match_from(s, pat, 0)
}

pub proof fn lemma_first_match<T>(s: Seq<T>, pat: Seq<T>, from: int, i: int)
    requires
        0 <= from <= i,
        matches_at(s, pat, i),
        forall|j: int| from <= j < i ==> !matches_at(s, pat, j),
    ensures
        first_match_from(s, pat, from) == Some(i),
    decreases i - from,
{
    if from < i {
        lemma_first_match(s, pat, from + 1, i);
    }
}

proof fn lemma_no_match<T>(s: Seq<T>, pat: Seq<T>, from: int)
    requires
        0 <= from,
        forall|j: int| from <= j ==> !matches_at(s, pat, j),
    ensures
        first_match_from(s, pat, from) is None,
    decreases s.len() + 1 - from,
{
    if from + pat.len() <= s.len() {
        lemma_no_match(s, pat, from + 1);
    }
}

/// Whether `needle` stands anywhere in `hay`.
pub open spec fn occurs(hay: Seq<u8>, needle: Seq<u8>) -> bool {
    exists|i: int| matches_at(hay, needle, i)
}

/// Whether any part's content holds `needle`.
pub open spec fn collides(parts: Seq<PartView>, needle: Seq<u8>) -> bool {
    exists|i: int| 0 <= i < parts.len() && occurs(#[trigger] parts[i].bytes, needle)
}

/// One character of a header value, made unable to end the value or the line.
pub open spec fn quote_char(c: char) -> Seq<char> {
    if c == '"' {
        "%22"@
    } else if c == '\r' {
        "%0D"@
    } else if c == '\n' {
        "%0A"@
    } else {
        seq![c]
    }
}

/// `raw` with `"` and the two line-ending characters percent-encoded, as RFC
/// 7578 §5.1 sanctions.
pub open spec fn quoted_text(raw: Seq<char>) -> Seq<char>
    decreases raw.len(),
{
    if raw.len() == 0 {
        seq![]
    } else {
        quoted_text(raw.drop_last()) + quote_char(raw.last())
    }
}

/// The `Content-Disposition` line of one part.
pub open spec fn disposition(name: Seq<char>, filename: Option<Seq<char>>) -> Seq<char> {
    "Content-Disposition: form-data; name=\""@ + quoted_text(name) + "\""@ + match filename {
        Some(f) => "; filename=\""@ + quoted_text(f) + "\""@,
        None => Seq::<char>::empty(),
    } + "\r\n"@
}

/// Everything of one part that comes before its content: the delimiter, the
/// header lines and the blank line.
pub open spec fn part_head(part: PartView, boundary: Seq<char>) -> Seq<char> {
    "--"@ + boundary + "\r\n"@ + disposition(part.name, part.filename) + match part.content_type {
        Some(t) => "Content-Type: "@ + t + "\r\n"@,
        None => Seq::<char>::empty(),
    } + "\r\n"@
}

/// The parts laid out one after another under `boundary`.
pub open spec fn parts_layout(parts: Seq<PartView>, boundary: Seq<char>) -> Seq<u8>
    decreases parts.len(),
{
    if parts.len() == 0 {
        seq![]
    } else {
        parts_layout(parts.drop_last(), boundary) + encode_utf8(part_head(parts.last(), boundary))
            + parts.last().bytes + encode_utf8("\r\n"@)
    }
}

/// The whole body: every part, then the closing delimiter.
pub open spec fn layout(parts: Seq<PartView>, boundary: Seq<char>) -> Seq<u8> {
    parts_layout(parts, boundary) + encode_utf8("--"@ + boundary + "--\r\n"@)
}

/// The views of a list of parts.
pub open spec fn views(parts: Seq<Part>) -> Seq<PartView> {
    parts.map_values(|p: Part| p@)
}

/// The boundary the encoder chooses: the first `STEM-n` that occurs in no
/// part, and `STEM` alone in the case — past four billion collisions — where
/// every one of them does.
pub open spec fn chosen(parts: Seq<PartView>, boundary: Seq<char>) -> bool {
    ||| exists|n: nat|
        n < u32::MAX && boundary == boundary_candidate(n) && !collides(
            parts,
            encode_utf8(boundary_candidate(n)),
        ) && forall|k: nat| k < n ==> collides(parts, encode_utf8(#[trigger] boundary_candidate(k)))
    ||| boundary == stem() && forall|k: nat|
        k < u32::MAX ==> collides(parts, encode_utf8(#[trigger] boundary_candidate(k)))
}

/// The same parts always come out under the same boundary, so they encode
/// to the same bytes and the same `Content-Type`.
pub proof fn lemma_boundary_is_determined(parts: Seq<PartView>, a: Seq<char>, b: Seq<char>)
    requires
        chosen(parts, a),
        chosen(parts, b),
    ensures
        a == b,
        layout(parts, a) == layout(parts, b),
{
    if exists|n: nat|
        n < u32::MAX && a == boundary_candidate(n) && !collides(
            parts,
            encode_utf8(boundary_candidate(n)),
        ) && forall|k: nat| k < n ==> collides(parts, encode_utf8(#[trigger] boundary_candidate(k))) {
        let n = choose|n: nat|
            n < u32::MAX && a == boundary_candidate(n) && !collides(
                parts,
                encode_utf8(boundary_candidate(n)),
            ) && forall|k: nat|
                k < n ==> collides(parts, encode_utf8(#[trigger] boundary_candidate(k)));
        if exists|m: nat|
            m < u32::MAX && b == boundary_candidate(m) && !collides(
                parts,
                encode_utf8(boundary_candidate(m)),
            ) && forall|k: nat|
                k < m ==> collides(parts, encode_utf8(#[trigger] boundary_candidate(k))) {
            let m = choose|m: nat|
                m < u32::MAX && b == boundary_candidate(m) && !collides(
                    parts,
                    encode_utf8(boundary_candidate(m)),
                ) && forall|k: nat|
                    k < m ==> collides(parts, encode_utf8(#[trigger] boundary_candidate(k)));
            if n < m {
                assert(collides(parts, encode_utf8(boundary_candidate(n))));
            } else if m < n {
                assert(collides(parts, encode_utf8(boundary_candidate(m))));
            }
        } else {
            assert(collides(parts, encode_utf8(boundary_candidate(n))));
        }
    } else if exists|m: nat|
        m < u32::MAX && b == boundary_candidate(m) && !collides(
            parts,
            encode_utf8(boundary_candidate(m)),
        ) && forall|k: nat| k < m ==> collides(parts, encode_utf8(#[trigger] boundary_candidate(k))) {
        let m = choose|m: nat|
            m < u32::MAX && b == boundary_candidate(m) && !collides(
                parts,
                encode_utf8(boundary_candidate(m)),
            ) && forall|k: nat|
                k < m ==> collides(parts, encode_utf8(#[trigger] boundary_candidate(k)));
        assert(collides(parts, encode_utf8(boundary_candidate(m))));
    }
}

/// A boundary the encoder chose from its candidates occurs in no part's
/// content, so no part can end the body early.
pub proof fn lemma_boundary_is_absent(parts: Seq<PartView>, b: Seq<char>)
    requires
        chosen(parts, b),
        b != stem(),
    ensures
        !collides(parts, encode_utf8(b)),
{
}

/// Nothing a quoted value holds can close the value or end the line.
pub proof fn lemma_quoted_is_inert(raw: Seq<char>)
    ensures
        forall|i: int|
            0 <= i < quoted_text(raw).len() ==> #[trigger] quoted_text(raw)[i] != '"'
                && quoted_text(raw)[i] != '\r' && quoted_text(raw)[i] != '\n',
    decreases raw.len(),
{
    reveal_strlit("%22");
    reveal_strlit("%0D");
    reveal_strlit("%0A");
    if raw.len() > 0 {
        lemma_quoted_is_inert(raw.drop_last());
        let before = quoted_text(raw.drop_last());
        let tail = quote_char(raw.last());
        assert forall|i: int| 0 <= i < quoted_text(raw).len() implies #[trigger] quoted_text(
            raw,
        )[i] != '"' && quoted_text(raw)[i] != '\r' && quoted_text(raw)[i] != '\n' by {
            if i >= before.len() {
                assert(quoted_text(raw)[i] == tail[i - before.len()]);
            } else {
                assert(quoted_text(raw)[i] == before[i]);
            }
        }
    }
}

/// Encode `parts` under a boundary that appears in none of them.
pub fn encode(parts: &[Part]) -> (r: Encoded)
    ensures
        chosen(views(parts@), boundary_of(r.content_type@)),
        r.content_type@ == "multipart/form-data; boundary="@ + boundary_of(r.content_type@),
        r.bytes@ == layout(views(parts@), boundary_of(r.content_type@)),
{
    let boundary = boundary(parts);
    let ghost b = boundary@;
    let mut bytes: Vec<u8> = Vec::new();
    let mut i: usize = 0;
    while i < parts.len()
        invariant
            i <= parts@.len(),
            boundary@ == b,
            bytes@ == parts_layout(views(parts@.take(i as int)), b),
        decreases parts.len() - i,
    {
        let part = &parts[i];
        let mut head: Vec<char> = Vec::new();
        append_str(&mut head, "--");
        append_str(&mut head, boundary.as_str());
        append_str(&mut head, "\r\n");
        let line = content_disposition(part.name(), part.filename());
        append_chars(&mut head, line.as_slice());
        if let Some(media_type) = part.content_type() {
            append_str(&mut head, "Content-Type: ");
            append_str(&mut head, media_type);
            append_str(&mut head, "\r\n");
        }
        append_str(&mut head, "\r\n");
        proof {
            assert(head@ =~= part_head(part@, b));
        }
        let text = string_of(head.as_slice());
        let head_bytes = bytes_of(text.as_str());
        append_bytes(&mut bytes, head_bytes.as_slice());
        append_bytes(&mut bytes, part.bytes());
        let end = bytes_of("\r\n");
        append_bytes(&mut bytes, end.as_slice());
        proof {
            let done = views(parts@.take(i + 1));
            assert(done.drop_last() =~= views(parts@.take(i as int)));
            assert(done.last() == part@);
        }
        i += 1;
    }
    assert(parts@.take(parts@.len() as int) =~= parts@);
    let mut closing: Vec<char> = Vec::new();
    append_str(&mut closing, "--");
    append_str(&mut closing, boundary.as_str());
    append_str(&mut closing, "--\r\n");
    let closing = string_of(closing.as_slice());
    let tail = bytes_of(closing.as_str());
    append_bytes(&mut bytes, tail.as_slice());
    let mut content_type: Vec<char> = Vec::new();
    append_str(&mut content_type, "multipart/form-data; boundary=");
    append_str(&mut content_type, boundary.as_str());
    proof {
        lemma_boundary_of("multipart/form-data; boundary="@, b);
    }
    Encoded { content_type: string_of(content_type.as_slice()), bytes }
}

/// The boundary a `Content-Type` this encoder wrote names: what follows
/// `multipart/form-data; boundary=`.
pub open spec fn boundary_of(content_type: Seq<char>) -> Seq<char> {
    content_type.skip(30)
}

proof fn lemma_boundary_of(prefix: Seq<char>, b: Seq<char>)
    requires
        prefix == "multipart/form-data; boundary="@,
    ensures
        boundary_of(prefix + b) == b,
        prefix + boundary_of(prefix + b) == prefix + b,
{
    reveal_strlit("multipart/form-data; boundary=");
    assert((prefix + b).skip(30) =~= b);
}

/// A header line whose value cannot break out of the header.
fn content_disposition(name: &str, filename: Option<&str>) -> (line: Vec<char>)
    ensures
        line@ == disposition(
            name@,
            match filename {
                Some(f) => Some(f@),
                None => None,
            },
        ),
{
    let mut line: Vec<char> = Vec::new();
    append_str(&mut line, "Content-Disposition: form-data; name=\"");
    let q = quoted(name);
    append_chars(&mut line, q.as_slice());
    append_str(&mut line, "\"");
    if let Some(filename) = filename {
        append_str(&mut line, "; filename=\"");
        let q = quoted(filename);
        append_chars(&mut line, q.as_slice());
        append_str(&mut line, "\"");
    }
    append_str(&mut line, "\r\n");
    proof {
        match filename {
            Some(f) => {
                assert(line@ =~= disposition(name@, Some(f@)));
            },
            None => {
                assert(line@ =~= disposition(name@, None));
            },
        }
    }
    line
}

/// `raw` with `"` and the two line-ending characters percent-encoded.
fn quoted(raw: &str) -> (out: Vec<char>)
    ensures
        out@ == quoted_text(raw@),
{
    let chars = chars_of(raw);
    let mut out: Vec<char> = Vec::new();
    let mut i: usize = 0;
    while i < chars.len()
        invariant
            i <= chars@.len(),
            chars@ == raw@,
            out@ == quoted_text(chars@.take(i as int)),
        decreases chars.len() - i,
    {
        let c = chars[i];
        if c == '"' {
            append_str(&mut out, "%22");
        } else if c == '\r' {
            append_str(&mut out, "%0D");
        } else if c == '\n' {
            append_str(&mut out, "%0A");
        } else {
            out.push(c);
        }
        proof {
            assert(chars@.take(i + 1).drop_last() =~= chars@.take(i as int));
            assert(chars@.take(i + 1).last() == c);
            assert(out@ =~= quoted_text(chars@.take(i + 1)));
        }
        i += 1;
    }
    assert(chars@.take(chars@.len() as int) =~= chars@);
    out
}

/// The first `STEM-<n>` that occurs in no part. Deterministic, and it
/// terminates: each candidate that collides rules out at least one occurrence
/// in a finite body.
fn boundary(parts: &[Part]) -> (r: String)
    ensures
        chosen(views(parts@), r@),
{
    let ghost pv = views(parts@);
    let mut n: u32 = 0;
    while n < u32::MAX
        invariant
            pv == views(parts@),
            forall|k: nat| k < n ==> collides(pv, encode_utf8(#[trigger] boundary_candidate(k))),
        decreases u32::MAX - n,
    {
        let mut candidate: Vec<char> = chars_of("----typed-openapi-boundary");
        candidate.push('-');
        let digits = crate::text::decimal_of(n as u128);
        append_chars(&mut candidate, digits.as_slice());
        proof {
            reveal_strlit("----typed-openapi-boundary");
            assert(candidate@ =~= boundary_candidate(n as nat));
        }
        let text = string_of(candidate.as_slice());
        let needle = bytes_of(text.as_str());
        if !collides_any(parts, needle.as_slice()) {
            return text;
        }
        n += 1;
    }
    "----typed-openapi-boundary".to_owned()
}

/// Whether any part's content holds `needle`.
fn collides_any(parts: &[Part], needle: &[u8]) -> (r: bool)
    requires
        needle@.len() > 0,
    ensures
        r == collides(views(parts@), needle@),
{
    let mut i: usize = 0;
    while i < parts.len()
        invariant
            i <= parts@.len(),
            needle@.len() > 0,
            forall|k: int| 0 <= k < i ==> !occurs(#[trigger] views(parts@)[k].bytes, needle@),
        decreases parts.len() - i,
    {
        if contains(parts[i].bytes(), needle) {
            assert(occurs(views(parts@)[i as int].bytes, needle@));
            return true;
        }
        i += 1;
    }
    false
}

/// Whether `needle` stands anywhere in `haystack`.
pub fn contains(haystack: &[u8], needle: &[u8]) -> (r: bool)
    requires
        needle@.len() > 0,
    ensures
        r == occurs(haystack@, needle@),
{
    match position(haystack, needle) {
        Some(_) => true,
        None => false,
    }
}

/// Where `needle` first stands in `haystack`.
pub fn position(haystack: &[u8], needle: &[u8]) -> (r: Option<usize>)
    requires
        needle@.len() > 0,
    ensures
        r matches Some(i) ==> matches_at(haystack@, needle@, i as int) && forall|j: int|
            0 <= j < i ==> !matches_at(haystack@, needle@, j),
        r is None ==> !occurs(haystack@, needle@),
{
    if haystack.len() < needle.len() {
        return None;
    }
    let size = haystack.len();
    let last = size - needle.len();
    let mut i: usize = 0;
    while i <= last
        invariant
            size == haystack@.len(),
            needle@.len() > 0,
            last == haystack@.len() - needle@.len(),
            i <= last + 1,
            forall|j: int| 0 <= j < i ==> !matches_at(haystack@, needle@, j),
        decreases last + 1 - i,
    {
        if starts_at(haystack, needle, i) {
            return Some(i);
        }
        i += 1;
    }
    None
}

/// Whether `needle` stands in `haystack` at `at`.
fn starts_at(haystack: &[u8], needle: &[u8], at: usize) -> (r: bool)
    requires
        at + needle@.len() <= haystack@.len(),
    ensures
        r == matches_at(haystack@, needle@, at as int),
{
    let size = haystack.len();
    let mut k: usize = 0;
    while k < needle.len()
        invariant
            size == haystack@.len(),
            k <= needle@.len(),
            at + needle@.len() <= haystack@.len(),
            forall|j: int| 0 <= j < k ==> haystack@[at + j] == needle@[j],
        decreases needle.len() - k,
    {
        if haystack[at + k] != needle[k] {
            assert(haystack@.subrange(at as int, at + needle@.len())[k as int] != needle@[k as int]);
            return false;
        }
        k += 1;
    }
    assert(haystack@.subrange(at as int, at + needle@.len()) =~= needle@);
    true
}

} // verus!

verus! {

/// `\r\n`.
pub open spec fn crlf() -> Seq<u8> {
    seq![13u8, 10u8]
}

/// The blank line that ends a part's headers.
pub open spec fn blank_line() -> Seq<u8> {
    seq![13u8, 10u8, 13u8, 10u8]
}

/// What follows the last delimiter: `--\r\n`.
pub open spec fn finish() -> Seq<u8> {
    seq![45u8, 45u8, 13u8, 10u8]
}

/// A part's content as a dry run shows it: the text where it is text, its
/// length where it is not.
pub open spec fn shown(content: Seq<u8>) -> Seq<char> {
    if vstd::utf8::valid_utf8(content) {
        vstd::utf8::decode_utf8(content)
    } else {
        "<"@ + decimal(content.len()) + " bytes>"@
    }
}

/// One part as a dry run shows it, from the bytes between the line that
/// opens it and the next delimiter: its header lines as they are, the blank
/// line, then its content as [`shown`] renders it.
pub open spec fn shown_part(part: Seq<u8>) -> Option<Seq<char>> {
    match first_match(part, blank_line()) {
        None => None,
        Some(split) => {
            let head = part.take(split);
            if vstd::utf8::valid_utf8(head) {
                Some(
                    vstd::utf8::decode_utf8(head) + "\r\n\r\n"@ + shown(part.skip(split + 4))
                        + "\r\n"@,
                )
            } else {
                None
            }
        },
    }
}

/// The parts that follow one delimiter, laid out as text, or `None` where the
/// bytes are not laid out the way [`encode`] lays a body out.
pub open spec fn shown_parts(rest: Seq<u8>, delimiter: Seq<char>) -> Option<Seq<char>>
    decreases rest.len(),
{
    let closing = crlf() + encode_utf8(delimiter);
    if rest.len() >= 4 && rest.take(4) == finish() {
        if rest.len() == 4 {
            Some(delimiter + "--\r\n"@)
        } else {
            None
        }
    } else if !(rest.len() >= 2 && rest.take(2) == crlf()) {
        None
    } else {
        let opened = rest.skip(2);
        match first_match(opened, closing) {
            None => None,
            Some(end) => {
                proof {
                    lemma_first_match_bound(opened, closing, 0);
                }
                match shown_part(opened.take(end)) {
                    None => None,
                    Some(p) => match shown_parts(opened.skip(end + closing.len()), delimiter) {
                        Some(t) => Some(delimiter + "\r\n"@ + p + t),
                        None => None,
                    },
                }
            },
        }
    }
}

/// `s` without the `c`s at its start.
pub open spec fn strip_start(s: Seq<char>, c: char) -> Seq<char>
    decreases s.len(),
{
    if s.len() > 0 && s[0] == c {
        strip_start(s.drop_first(), c)
    } else {
        s
    }
}

/// `s` without the `c`s at its end.
pub open spec fn strip_end(s: Seq<char>, c: char) -> Seq<char>
    decreases s.len(),
{
    if s.len() > 0 && s.last() == c {
        strip_end(s.drop_last(), c)
    } else {
        s
    }
}

/// The boundary a `Content-Type` names, if it names a multipart one: the
/// essence before the first `;` must be `multipart/form-data` in any case, and
/// the boundary is what follows the first `boundary=`, quotes taken off.
pub open spec fn named_boundary(content_type: Seq<char>) -> Option<Seq<char>> {
    match crate::text::index_of(content_type, ';') {
        None => None,
        Some(k) => {
            let essence = content_type.take(k);
            let parameters = content_type.skip(k + 1);
            if crate::values::lowered(crate::text::trimmed(essence)) != "multipart/form-data"@ {
                None
            } else {
                match first_match(parameters, "boundary="@) {
                    None => None,
                    Some(b) => Some(strip_end(strip_start(parameters.skip(b + 9), '"'), '"')),
                }
            }
        },
    }
}

/// A multipart body as the text it is laid out in, with the content of every
/// part that is not text replaced by its length.
pub open spec fn summary_of(bytes: Seq<u8>, content_type: Seq<char>) -> Option<Seq<char>> {
    match named_boundary(content_type) {
        None => None,
        Some(boundary) => {
            let delimiter = "--"@ + boundary;
            let delim = encode_utf8(delimiter);
            if bytes.len() >= delim.len() && bytes.take(delim.len() as int) == delim {
                shown_parts(bytes.skip(delim.len() as int), delimiter)
            } else {
                None
            }
        },
    }
}

/// Where `needle` first stands in `hay[from..to]`, counted from `from`.
fn position_in(hay: &[u8], needle: &[u8], from: usize, to: usize) -> (r: Option<usize>)
    requires
        from <= to <= hay@.len(),
    ensures
        r matches Some(i) ==> first_match(hay@.subrange(from as int, to as int), needle@) == Some(
            i as int,
        ),
        r is None ==> first_match(hay@.subrange(from as int, to as int), needle@) is None,
{
    let ghost sub = hay@.subrange(from as int, to as int);
    let n = needle.len();
    if to - from < n {
        proof {
            lemma_no_match(sub, needle@, 0);
        }
        return None;
    }
    let last = to - from - n;
    let mut i: usize = 0;
    while i <= last
        invariant
            from <= to <= hay@.len(),
            n == needle@.len(),
            last == to - from - n,
            i <= last + 1,
            sub == hay@.subrange(from as int, to as int),
            forall|j: int| 0 <= j < i ==> !matches_at(sub, needle@, j),
        decreases last + 1 - i,
    {
        let mut k: usize = 0;
        let mut same = true;
        while k < n
            invariant
                from <= to <= hay@.len(),
                n == needle@.len(),
                i <= last,
                last == to - from - n,
                k <= n,
                same == forall|j: int| 0 <= j < k ==> hay@[from + i + j] == needle@[j],
            decreases n - k,
        {
            if hay[from + i + k] != needle[k] {
                same = false;
            }
            k += 1;
        }
        proof {
            if same {
                assert(sub.subrange(i as int, i + n) =~= needle@);
            } else {
                let j = choose|j: int| 0 <= j < n && hay@[from + i + j] != needle@[j];
                assert(sub.subrange(i as int, i + n)[j] != needle@[j]);
            }
        }
        if same {
            proof {
                lemma_first_match(sub, needle@, 0, i as int);
            }
            return Some(i);
        }
        i += 1;
    }
    proof {
        lemma_no_match(sub, needle@, 0);
    }
    None
}

/// Whether `hay[at..]` starts with `prefix`.
fn starts_with_at(hay: &[u8], at: usize, prefix: &[u8]) -> (r: bool)
    requires
        at <= hay@.len(),
    ensures
        r == (hay@.len() - at >= prefix@.len() && hay@.skip(at as int).take(prefix@.len() as int)
            == prefix@),
{
    let size = hay.len();
    if size - at < prefix.len() {
        return false;
    }
    let mut k: usize = 0;
    while k < prefix.len()
        invariant
            size == hay@.len(),
            at <= hay@.len(),
            hay@.len() - at >= prefix@.len(),
            k <= prefix@.len(),
            forall|j: int| 0 <= j < k ==> hay@[at + j] == prefix@[j],
        decreases prefix.len() - k,
    {
        if hay[at + k] != prefix[k] {
            assert(hay@.skip(at as int).take(prefix@.len() as int)[k as int] != prefix@[k as int]);
            return false;
        }
        k += 1;
    }
    assert(hay@.skip(at as int).take(prefix@.len() as int) =~= prefix@);
    true
}

/// The first place `pat` stands in `s`.
fn find_text(s: &[char], pat: &[char]) -> (r: Option<usize>)
    ensures
        r matches Some(i) ==> first_match(s@, pat@) == Some(i as int),
        r is None ==> first_match(s@, pat@) is None,
{
    if s.len() < pat.len() {
        proof {
            lemma_no_match(s@, pat@, 0);
        }
        return None;
    }
    let size = s.len();
    let last = size - pat.len();
    let mut i: usize = 0;
    while i <= last
        invariant
            size == s@.len(),
            last == s@.len() - pat@.len(),
            i <= last + 1,
            forall|j: int| 0 <= j < i ==> !matches_at(s@, pat@, j),
        decreases last + 1 - i,
    {
        let mut k: usize = 0;
        let mut same = true;
        while k < pat.len()
            invariant
                size == s@.len(),
                last == s@.len() - pat@.len(),
                i <= last,
                k <= pat@.len(),
                same == forall|j: int| 0 <= j < k ==> s@[i + j] == pat@[j],
            decreases pat.len() - k,
        {
            if s[i + k] != pat[k] {
                same = false;
            }
            k += 1;
        }
        proof {
            if same {
                assert(s@.subrange(i as int, i + pat@.len()) =~= pat@);
            } else {
                let j = choose|j: int| 0 <= j < pat@.len() && s@[i + j] != pat@[j];
                assert(s@.subrange(i as int, i + pat@.len())[j] != pat@[j]);
            }
        }
        if same {
            proof {
                lemma_first_match(s@, pat@, 0, i as int);
            }
            return Some(i);
        }
        i += 1;
    }
    proof {
        lemma_no_match(s@, pat@, 0);
    }
    None
}

/// `s[from..]` with the `"`s at both ends taken off.
fn unquote(s: &[char], from: usize) -> (out: Vec<char>)
    requires
        from <= s@.len(),
    ensures
        out@ == strip_end(strip_start(s@.skip(from as int), '"'), '"'),
{
    let mut start = from;
    while start < s.len() && s[start] == '"'
        invariant
            from <= start <= s@.len(),
            strip_start(s@.skip(from as int), '"') == strip_start(s@.skip(start as int), '"'),
        decreases s.len() - start,
    {
        assert(s@.skip(start as int).drop_first() =~= s@.skip(start + 1));
        start += 1;
    }
    let ghost led = s@.skip(start as int);
    assert(strip_start(led, '"') == led);
    let mut end = s.len();
    assert(led =~= s@.subrange(start as int, end as int));
    while end > start && s[end - 1] == '"'
        invariant
            start <= end <= s@.len(),
            strip_end(led, '"') == strip_end(s@.subrange(start as int, end as int), '"'),
        decreases end,
    {
        assert(s@.subrange(start as int, end as int).drop_last() =~= s@.subrange(
            start as int,
            end - 1,
        ));
        end -= 1;
    }
    let mut out: Vec<char> = Vec::new();
    let mut k = start;
    while k < end
        invariant
            start <= k <= end,
            end <= s@.len(),
            out@ == s@.subrange(start as int, k as int),
        decreases end - k,
    {
        out.push(s[k]);
        k += 1;
    }
    out
}

/// The bytes `hay[from..to]`, copied.
fn copy_range(hay: &[u8], from: usize, to: usize) -> (out: Vec<u8>)
    requires
        from <= to <= hay@.len(),
    ensures
        out@ == hay@.subrange(from as int, to as int),
{
    let mut out: Vec<u8> = Vec::new();
    let mut k = from;
    while k < to
        invariant
            from <= k <= to,
            to <= hay@.len(),
            out@ == hay@.subrange(from as int, k as int),
        decreases to - k,
    {
        out.push(hay[k]);
        k += 1;
    }
    out
}

/// The delimiter that opens every part of a body sent under `content_type`:
/// `--` and the boundary it names.
fn delimiter_of(content_type: &str) -> (r: Option<Vec<char>>)
    ensures
        r matches Some(d) ==> named_boundary(content_type@) matches Some(b) && d@ == "--"@ + b,
        r is None ==> named_boundary(content_type@) is None,
{
    let ct = chars_of(content_type);
    let size = ct.len();
    let k = match crate::text::find_char(ct.as_slice(), ';') {
        Some(k) => k,
        None => return None,
    };
    proof {
        crate::text::lemma_index_of_bound(ct@, ';');
    }
    let essence = crate::text::trim_chars(ct.as_slice(), 0, k);
    assert(ct@.subrange(0, k as int) =~= ct@.take(k as int));
    let low = crate::values::lowered_of(essence.as_slice());
    let wanted = chars_of("multipart/form-data");
    if !crate::text::same_chars(low.as_slice(), wanted.as_slice()) {
        return None;
    }
    let mut parameters: Vec<char> = Vec::new();
    let mut p = k + 1;
    while p < ct.len()
        invariant
            k < ct@.len(),
            k + 1 <= p <= ct@.len(),
            parameters@ == ct@.subrange(k + 1, p as int),
        decreases ct.len() - p,
    {
        parameters.push(ct[p]);
        p += 1;
    }
    assert(parameters@ =~= ct@.skip(k + 1));
    let key = chars_of("boundary=");
    let b = match find_text(parameters.as_slice(), key.as_slice()) {
        Some(b) => b,
        None => return None,
    };
    proof {
        reveal_strlit("boundary=");
        lemma_first_match_bound(parameters@, key@, 0);
    }
    let boundary = unquote(parameters.as_slice(), b + 9);
    let mut delimiter: Vec<char> = Vec::new();
    append_str(&mut delimiter, "--");
    append_chars(&mut delimiter, boundary.as_slice());
    Some(delimiter)
}

/// One part as [`shown_part`] renders it.
fn show_part(part: &[u8]) -> (r: Option<Vec<char>>)
    ensures
        r matches Some(t) ==> shown_part(part@) == Some(t@),
        r is None ==> shown_part(part@) is None,
{
    let blank: Vec<u8> = vec![13u8, 10u8, 13u8, 10u8];
    assert(blank@ =~= blank_line());
    let split = match position_in(part, blank.as_slice(), 0, part.len()) {
        Some(split) => split,
        None => {
            assert(part@.subrange(0, part@.len() as int) =~= part@);
            return None;
        },
    };
    assert(part@.subrange(0, part@.len() as int) =~= part@);
    proof {
        lemma_first_match_bound(part@, blank@, 0);
    }
    let head = copy_range(part, 0, split);
    let content = copy_range(part, split + 4, part.len());
    assert(head@ =~= part@.take(split as int));
    assert(content@ =~= part@.skip(split + 4));
    let head_text = match crate::text::utf8_text(head.as_slice()) {
        Some(text) => text,
        None => return None,
    };
    let mut out: Vec<char> = Vec::new();
    append_str(&mut out, head_text.as_str());
    append_str(&mut out, "\r\n\r\n");
    match crate::text::utf8_text(content.as_slice()) {
        Some(text) => append_str(&mut out, text.as_str()),
        None => {
            append_str(&mut out, "<");
            let digits = crate::text::decimal_of(content.len() as u128);
            append_chars(&mut out, digits.as_slice());
            append_str(&mut out, " bytes>");
        },
    }
    append_str(&mut out, "\r\n");
    Some(out)
}

/// A multipart body as the text it is laid out in, with the content of every
/// part that is not text replaced by its length.
///
/// A dry run of an upload has to show which file goes, under which part name
/// and which type, and a body holding a PDF is not text. Every delimiter and
/// header line is rendered as it crosses the wire, `\r\n` included; only
/// content that is not UTF-8 becomes `<N bytes>`.
///
/// `None` where `bytes` are not laid out the way [`encode`] lays a body out
/// under the boundary `content_type` names.
pub fn summarised(bytes: &[u8], content_type: &str) -> (r: Option<String>)
    ensures
        r matches Some(text) ==> summary_of(bytes@, content_type@) == Some(text@),
        r is None ==> summary_of(bytes@, content_type@) is None,
{
    let delimiter = match delimiter_of(content_type) {
        Some(d) => d,
        None => return None,
    };
    let delim_text = string_of(delimiter.as_slice());
    let delim = bytes_of(delim_text.as_str());
    assert(bytes@.skip(0) =~= bytes@);
    if !starts_with_at(bytes, 0, delim.as_slice()) {
        return None;
    }
    let ghost dv = delimiter@;
    let ghost target = summary_of(bytes@, content_type@);
    assert(target == shown_parts(bytes@.skip(delim@.len() as int), dv));
    let mut closing: Vec<u8> = vec![13u8, 10u8];
    append_bytes(&mut closing, delim.as_slice());
    let finish_bytes: Vec<u8> = vec![45u8, 45u8, 13u8, 10u8];
    let crlf_bytes: Vec<u8> = vec![13u8, 10u8];
    assert(closing@ =~= crlf() + encode_utf8(dv));
    assert(finish_bytes@ =~= finish());
    assert(crlf_bytes@ =~= crlf());
    let mut out: Vec<char> = Vec::new();
    let mut pos: usize = delim.len();
    loop
        invariant
            pos <= bytes@.len(),
            delimiter@ == dv,
            closing@ == crlf() + encode_utf8(dv),
            finish_bytes@ == finish(),
            crlf_bytes@ == crlf(),
            target == summary_of(bytes@, content_type@),
            target == match shown_parts(bytes@.skip(pos as int), dv) {
                Some(t) => Some(out@ + t),
                None => None,
            },
        decreases bytes.len() - pos,
    {
        let ghost rest = bytes@.skip(pos as int);
        if starts_with_at(bytes, pos, finish_bytes.as_slice()) {
            append_chars(&mut out, delimiter.as_slice());
            append_str(&mut out, "--\r\n");
            if bytes.len() - pos == 4 {
                return Some(string_of(out.as_slice()));
            }
            return None;
        }
        if !starts_with_at(bytes, pos, crlf_bytes.as_slice()) {
            return None;
        }
        let open = pos + 2;
        assert(bytes@.subrange(open as int, bytes@.len() as int) =~= rest.skip(2));
        let end = match position_in(bytes, closing.as_slice(), open, bytes.len()) {
            Some(end) => end,
            None => return None,
        };
        proof {
            lemma_first_match_bound(rest.skip(2), closing@, 0);
        }
        let part = copy_range(bytes, open, open + end);
        assert(part@ =~= rest.skip(2).take(end as int));
        let text = match show_part(part.as_slice()) {
            Some(text) => text,
            None => return None,
        };
        append_chars(&mut out, delimiter.as_slice());
        append_str(&mut out, "\r\n");
        append_chars(&mut out, text.as_slice());
        let next = open + end + closing.len();
        assert(rest.skip(2).skip(end + closing@.len()) =~= bytes@.skip(next as int));
        pos = next;
    }
}

/// A first match stands inside what was searched.
pub proof fn lemma_first_match_bound<T>(s: Seq<T>, pat: Seq<T>, from: int)
    ensures
        first_match_from(s, pat, from) matches Some(i) ==> from <= i && i + pat.len() <= s.len()
            && matches_at(s, pat, i),
    decreases s.len() + 1 - from,
{
    if from >= 0 && from + pat.len() <= s.len() && !matches_at(s, pat, from) {
        lemma_first_match_bound(s, pat, from + 1);
    }
}

} // verus!
