//! What a dry run reads back out of a body this crate encoded: the boundary
//! its `Content-Type` names, and — where every part is text — the body itself.

use vstd::prelude::*;
use vstd::utf8::{decode_utf8, encode_utf8, valid_utf8};

use crate::multipart::{
    blank_line, boundary_candidate, chosen, collides, crlf, disposition, finish, first_match, first_match_from,
    layout, lemma_boundary_is_absent, lemma_first_match, lemma_quoted_is_inert, matches_at, named_boundary,
    occurs, part_head, parts_layout, quoted_text, shown, shown_part, shown_parts, stem, strip_end, strip_start,
    summary_of,
};
use crate::text::{decimal, index_of, is_digit, lemma_decimal_digits, trim_end, trim_start};
use crate::values::{lowered, PartView};

verus! {

/// The `Content-Type` the encoder writes for a body under `boundary`.
pub open spec fn form_type(boundary: Seq<char>) -> Seq<char> {
    "multipart/form-data; boundary="@ + boundary
}

/// Whether `c` stands in `s`.
pub open spec fn has_char(s: Seq<char>, c: char) -> bool {
    exists|i: int| 0 <= i < s.len() && s[i] == c
}

/// The position of `c` in `s`, where nothing before it is `c`.
proof fn lemma_index_of_first(s: Seq<char>, c: char, k: int)
    requires
        0 <= k < s.len(),
        s[k] == c,
        forall|j: int| 0 <= j < k ==> s[j] != c,
    ensures
        index_of(s, c) == Some(k),
    decreases k,
{
    if k > 0 {
        lemma_index_of_first(s.drop_first(), c, k - 1);
    }
}

/// The boundary the encoder writes into its `Content-Type` is the one a
/// reader of that `Content-Type` finds there, so long as it does not start or
/// end with a quote.
pub proof fn lemma_boundary_named(b: Seq<char>)
    requires
        b.len() > 0,
        b[0] != '"',
        b.last() != '"',
    ensures
        named_boundary(form_type(b)) == Some(b),
{
    reveal_strlit("multipart/form-data; boundary=");
    reveal_strlit("multipart/form-data");
    reveal_strlit("boundary=");
    let ct = form_type(b);
    let prefix = "multipart/form-data; boundary="@;
    assert(ct[19] == ';');
    assert forall|j: int| 0 <= j < 19 implies ct[j] != ';' by {
        assert(ct[j] == prefix[j]);
    }
    lemma_index_of_first(ct, ';', 19);
    let essence = ct.take(19);
    assert(essence =~= "multipart/form-data"@);
    assert(trim_start(essence) == essence);
    assert(trim_end(essence) == essence);
    assert(lowered(essence) =~= essence);
    let parameters = ct.skip(20);
    assert(parameters =~= " boundary="@ + b) by {
        reveal_strlit(" boundary=");
    }
    reveal_strlit(" boundary=");
    assert(!matches_at(parameters, "boundary="@, 0)) by {
        if matches_at(parameters, "boundary="@, 0) {
            assert(parameters.subrange(0, 9)[0] == parameters[0]);
        }
    }
    assert(matches_at(parameters, "boundary="@, 1)) by {
        assert(parameters.subrange(1, 10) =~= "boundary="@);
    }
    assert(first_match_from(parameters, "boundary="@, 1) == Some(1int));
    assert(first_match(parameters, "boundary="@) == Some(1int));
    assert(parameters.skip(10) =~= b);
    assert(strip_start(b, '"') == b);
    assert(strip_end(b, '"') == b);
}


/// Encoding two texts one after the other is encoding each.
proof fn lemma_encode_concat(x: Seq<char>, y: Seq<char>)
    ensures
        encode_utf8(x + y) == encode_utf8(x) + encode_utf8(y),
    decreases x.len(),
{
    if x.len() == 0 {
        assert(x + y =~= y);
        assert(encode_utf8(x) + encode_utf8(y) =~= encode_utf8(y));
    } else {
        assert((x + y).drop_first() =~= x.drop_first() + y);
        assert((x + y)[0] == x[0]);
        lemma_encode_concat(x.drop_first(), y);
        assert(encode_utf8(x + y) =~= encode_utf8(x) + encode_utf8(y));
    }
}

/// Decoding two well-formed byte strings one after the other is decoding each.
proof fn lemma_decode_concat(a: Seq<u8>, b: Seq<u8>)
    requires
        valid_utf8(a),
        valid_utf8(b),
    ensures
        valid_utf8(a + b),
        decode_utf8(a + b) == decode_utf8(a) + decode_utf8(b),
{
    let x = decode_utf8(a);
    let y = decode_utf8(b);
    vstd::utf8::decode_utf8_encode_utf8(a);
    vstd::utf8::decode_utf8_encode_utf8(b);
    lemma_encode_concat(x, y);
    vstd::utf8::encode_utf8_decode_utf8(x + y);
    vstd::utf8::encode_utf8_valid_utf8(x + y);
}

/// A scalar below `0x80` is its own single byte; any other is encoded in
/// bytes of `0x80` and above.
proof fn lemma_scalar_bytes(v: u32)
    ensures
        vstd::utf8::has_width_1_encoding(v) ==> vstd::utf8::encode_scalar(v) == seq![v as u8],
        !vstd::utf8::has_width_1_encoding(v) ==> forall|i: int|
            0 <= i < vstd::utf8::encode_scalar(v).len() ==> #[trigger] vstd::utf8::encode_scalar(v)[i] >= 0x80,
{
    assert(v <= 0x7f ==> (v & 0x7f) as u8 == v as u8) by (bit_vector);
    assert forall|x: u8| (0xC0u8 | x) >= 0x80 && (0xE0u8 | x) >= 0x80 && (0xF0u8 | x) >= 0x80
        && (0x80u8 | x) >= 0x80 by {
        assert((0xC0u8 | x) >= 0x80 && (0xE0u8 | x) >= 0x80 && (0xF0u8 | x) >= 0x80 && (0x80u8 | x)
            >= 0x80) by (bit_vector);
    }
}

/// Text with no carriage return encodes to bytes with no `13`.
proof fn lemma_no_carriage_return(s: Seq<char>)
    requires
        !has_char(s, '\r'),
    ensures
        forall|i: int| 0 <= i < encode_utf8(s).len() ==> #[trigger] encode_utf8(s)[i] != 13,
    decreases s.len(),
{
    if s.len() > 0 {
        let v = s[0] as u32;
        lemma_scalar_bytes(v);
        assert(!has_char(s.drop_first(), '\r')) by {
            if has_char(s.drop_first(), '\r') {
                let j = choose|j: int| 0 <= j < s.drop_first().len() && s.drop_first()[j] == '\r';
                assert(s[j + 1] == '\r');
            }
        }
        lemma_no_carriage_return(s.drop_first());
        let head = vstd::utf8::encode_scalar(v);
        assert(encode_utf8(s) == head + encode_utf8(s.drop_first()));
        assert forall|i: int| 0 <= i < encode_utf8(s).len() implies #[trigger] encode_utf8(s)[i] != 13 by {
            if i < head.len() {
                if vstd::utf8::has_width_1_encoding(v) {
                    assert(s[0] != '\r');
                    vstd::utf8::char_u32_cast(s[0], v);
                    assert(('\r' as u32) == 13);
                    vstd::utf8::char_u32_cast('\r', 13);
                    assert(v != 13);
                    assert(head[0] == v as u8);
                }
            } else {
                assert(encode_utf8(s)[i] == encode_utf8(s.drop_first())[i - head.len()]);
            }
        }
    }
}

/// ASCII text encodes byte for byte.
pub(crate) proof fn lemma_ascii_encoding(s: Seq<char>)
    requires
        forall|i: int| 0 <= i < s.len() ==> (#[trigger] s[i] as u32) < 0x80,
    ensures
        encode_utf8(s).len() == s.len(),
        forall|i: int| 0 <= i < s.len() ==> #[trigger] encode_utf8(s)[i] == s[i] as u32,
    decreases s.len(),
{
    if s.len() > 0 {
        let v = s[0] as u32;
        lemma_scalar_bytes(v);
        assert(forall|i: int| 0 <= i < s.drop_first().len() ==> (#[trigger] s.drop_first()[i] as u32) < 0x80) by {
            assert forall|i: int| 0 <= i < s.drop_first().len() implies (#[trigger] s.drop_first()[i] as u32) < 0x80 by {
                assert(s.drop_first()[i] == s[i + 1]);
            }
        }
        lemma_ascii_encoding(s.drop_first());
        assert(encode_utf8(s) == seq![v as u8] + encode_utf8(s.drop_first()));
        assert forall|i: int| 0 <= i < s.len() implies #[trigger] encode_utf8(s)[i] == s[i] as u32 by {
            if i > 0 {
                assert(encode_utf8(s)[i] == encode_utf8(s.drop_first())[i - 1]);
                assert(s.drop_first()[i - 1] == s[i]);
            } else {
                assert((v as u8) as u32 == v);
            }
        }
    }
}


/// A character in two texts put together stands in one of them.
proof fn lemma_has_char_concat(x: Seq<char>, y: Seq<char>, c: char)
    ensures
        has_char(x + y, c) ==> has_char(x, c) || has_char(y, c),
{
    if has_char(x + y, c) {
        let i = choose|i: int| 0 <= i < (x + y).len() && (x + y)[i] == c;
        if i < x.len() {
            assert(x[i] == c);
        } else {
            assert(y[i - x.len()] == c);
        }
    }
}

/// The first header line of a part, without its line end.
pub open spec fn disposition_line(p: PartView) -> Seq<char> {
    "Content-Disposition: form-data; name=\""@ + quoted_text(p.name) + "\""@ + match p.filename {
        Some(f) => "; filename=\""@ + quoted_text(f) + "\""@,
        None => Seq::<char>::empty(),
    }
}

/// A part's header lines without the line end of the last one.
pub open spec fn header_text(p: PartView) -> Seq<char> {
    disposition_line(p) + match p.content_type {
        Some(t) => "\r\nContent-Type: "@ + t,
        None => Seq::<char>::empty(),
    }
}

/// The body after its first delimiter: each part's header lines, the blank
/// line, its content and the next delimiter, then the closing `--`.
pub open spec fn after_delimiter(parts: Seq<PartView>, b: Seq<char>) -> Seq<u8>
    decreases parts.len(),
{
    if parts.len() == 0 {
        encode_utf8("--\r\n"@)
    } else {
        encode_utf8("\r\n"@ + header_text(parts[0]) + "\r\n\r\n"@) + parts[0].bytes + encode_utf8(
            "\r\n--"@ + b,
        ) + after_delimiter(parts.drop_first(), b)
    }
}

/// One part as the encoder lays it out.
pub open spec fn piece(p: PartView, b: Seq<char>) -> Seq<u8> {
    encode_utf8(part_head(p, b)) + p.bytes + encode_utf8("\r\n"@)
}

/// A part's head is the delimiter line, the header lines and the blank line.
proof fn lemma_part_head(p: PartView, b: Seq<char>)
    ensures
        part_head(p, b) == "--"@ + b + "\r\n"@ + header_text(p) + "\r\n\r\n"@,
{
    reveal_strlit("\r\n");
    reveal_strlit("\r\n\r\n");
    reveal_strlit("\r\nContent-Type: ");
    reveal_strlit("Content-Type: ");
    let d = disposition(p.name, p.filename);
    assert(d =~= disposition_line(p) + "\r\n"@);
    match p.content_type {
        Some(t) => {
            assert(part_head(p, b) =~= "--"@ + b + "\r\n"@ + header_text(p) + "\r\n\r\n"@);
        },
        None => {
            assert(part_head(p, b) =~= "--"@ + b + "\r\n"@ + header_text(p) + "\r\n\r\n"@);
        },
    }
}

/// The parts laid out, read from the front: the first part, then the rest.
proof fn lemma_layout_front(parts: Seq<PartView>, b: Seq<char>)
    requires
        parts.len() > 0,
    ensures
        parts_layout(parts, b) == piece(parts[0], b) + parts_layout(parts.drop_first(), b),
    decreases parts.len(),
{
    if parts.len() == 1 {
        assert(parts.drop_last() =~= Seq::<PartView>::empty());
        assert(parts.drop_first() =~= Seq::<PartView>::empty());
        assert(parts_layout(parts.drop_last(), b) == Seq::<u8>::empty());
        assert(parts.last() == parts[0]);
        assert(parts_layout(parts, b) == Seq::<u8>::empty() + encode_utf8(part_head(parts[0], b))
            + parts[0].bytes + encode_utf8("\r\n"@));
        assert(parts_layout(parts, b) =~= piece(parts[0], b));
    } else {
        let init = parts.drop_last();
        lemma_layout_front(init, b);
        assert(init.drop_first() =~= parts.drop_first().drop_last());
        assert(parts.drop_first().last() == parts.last());
        assert(init[0] == parts[0]);
        assert(parts_layout(parts, b) =~= piece(parts[0], b) + parts_layout(parts.drop_first(), b));
    }
}

/// The whole body is its first delimiter and then what follows it.
proof fn lemma_layout_split(parts: Seq<PartView>, b: Seq<char>)
    ensures
        layout(parts, b) == encode_utf8("--"@ + b) + after_delimiter(parts, b),
    decreases parts.len(),
{
    reveal_strlit("--");
    reveal_strlit("--\r\n");
    reveal_strlit("\r\n");
    reveal_strlit("\r\n--");
    if parts.len() == 0 {
        assert("--"@ + b + "--\r\n"@ =~= ("--"@ + b) + "--\r\n"@);
        lemma_encode_concat("--"@ + b, "--\r\n"@);
        assert(layout(parts, b) =~= encode_utf8("--"@ + b) + after_delimiter(parts, b));
    } else {
        let p = parts[0];
        let rest = parts.drop_first();
        lemma_layout_front(parts, b);
        lemma_layout_split(rest, b);
        lemma_part_head(p, b);
        let h = "\r\n"@ + header_text(p) + "\r\n\r\n"@;
        assert(part_head(p, b) =~= ("--"@ + b) + h);
        lemma_encode_concat("--"@ + b, h);
        assert("\r\n--"@ + b =~= "\r\n"@ + ("--"@ + b));
        lemma_encode_concat("\r\n"@, "--"@ + b);
        let close = encode_utf8("--"@ + b + "--\r\n"@);
        assert(layout(rest, b) == parts_layout(rest, b) + close);
        assert(layout(parts, b) =~= piece(p, b) + layout(rest, b));
        assert(piece(p, b) == encode_utf8("--"@ + b) + encode_utf8(h) + p.bytes + encode_utf8("\r\n"@));
        assert(after_delimiter(parts, b) == encode_utf8(h) + p.bytes + encode_utf8("\r\n--"@ + b)
            + after_delimiter(rest, b));
        assert(layout(parts, b) =~= encode_utf8("--"@ + b) + after_delimiter(parts, b));
    }
}


/// The blank line after a part's headers is the first one, where every
/// carriage return in the headers is followed, two bytes on, by something
/// other than a carriage return.
proof fn lemma_blank_first(e: Seq<u8>, c: Seq<u8>)
    requires
        forall|i: int| 0 <= i < e.len() && #[trigger] e[i] == 13 ==> i + 2 < e.len() && e[i + 2] != 13,
    ensures
        first_match(e + seq![13u8, 10u8, 13u8, 10u8] + c, seq![13u8, 10u8, 13u8, 10u8]) == Some(
            e.len() as int,
        ),
{
    let blank = seq![13u8, 10u8, 13u8, 10u8];
    let s = e + blank + c;
    assert(s.subrange(e.len() as int, e.len() + 4int) =~= blank);
    assert forall|j: int| 0 <= j < e.len() implies !matches_at(s, blank, j) by {
        if matches_at(s, blank, j) {
            assert(s.subrange(j, j + 4)[0] == s[j]);
            assert(s[j] == e[j]);
            assert(s.subrange(j, j + 4)[2] == s[j + 2]);
            assert(s[j + 2] == e[j + 2]);
        }
    }
    lemma_first_match(s, blank, 0, e.len() as int);
}

/// The delimiter that ends a part is found where the part's content ends,
/// where no carriage return in the headers is followed two bytes on by `-`,
/// the boundary holds no carriage return, and the content does not hold the
/// boundary.
proof fn lemma_closing_first(e: Seq<u8>, c: Seq<u8>, eb: Seq<u8>, r: Seq<u8>)
    requires
        forall|i: int| 0 <= i < e.len() && #[trigger] e[i] == 13 ==> i + 2 < e.len() && e[i + 2] != 45,
        forall|i: int| 0 <= i < eb.len() ==> #[trigger] eb[i] != 13,
        !occurs(c, eb),
    ensures
        first_match(
            e + seq![13u8, 10u8, 13u8, 10u8] + c + (seq![13u8, 10u8, 45u8, 45u8] + eb) + r,
            seq![13u8, 10u8, 45u8, 45u8] + eb,
        ) == Some(e.len() + 4int + c.len()),
{
    let pat = seq![13u8, 10u8, 45u8, 45u8] + eb;
    let s = e + seq![13u8, 10u8, 13u8, 10u8] + c + pat + r;
    let start: int = e.len() + 4int;
    let end: int = start + c.len();
    assert(s.subrange(end, end + pat.len() as int) =~= pat);
    assert forall|j: int| 0 <= j < end implies !matches_at(s, pat, j) by {
        if matches_at(s, pat, j) {
            let m = s.subrange(j, j + pat.len());
            assert(m == pat);
            assert(m[0] == s[j]);
            if j < e.len() {
                assert(s[j] == e[j]);
                assert(m[2] == s[j + 2]);
                assert(s[j + 2] == e[j + 2]);
            } else if j < start {
                if j == e.len() || j == e.len() + 1 || j == e.len() + 3 {
                    assert(m[2] == s[j + 2]);
                } else {
                    // the blank line's second half: what follows must be `--` and the boundary
                    if j + pat.len() <= end {
                        assert(c.subrange(2, 2 + eb.len() as int) =~= eb) by {
                            assert forall|k: int| 0 <= k < eb.len() implies c.subrange(2, 2 + eb.len() as int)[k] == eb[k] by {
                                assert(m[4 + k] == s[j + 4 + k]);
                                assert(s[j + 4 + k] == c[2 + k]);
                            }
                        }
                        assert(matches_at(c, eb, 2));
                    } else {
                        let k = end - j;
                        assert(0 < k < pat.len());
                        assert(m[k] == s[end]);
                        assert(s[end] == 13);
                        if k >= 4 {
                            assert(pat[k] == eb[k - 4]);
                        }
                    }
                }
            } else {
                if j + pat.len() <= end {
                    let at = j - start;
                    assert(c.subrange(at + 4, at + 4 + eb.len() as int) =~= eb) by {
                        assert forall|k: int| 0 <= k < eb.len() implies c.subrange(at + 4, at + 4 + eb.len() as int)[k] == eb[k] by {
                            assert(m[4 + k] == s[j + 4 + k]);
                            assert(s[j + 4 + k] == c[at + 4 + k]);
                        }
                    }
                    assert(matches_at(c, eb, at + 4));
                } else {
                    let k = end - j;
                    assert(0 < k < pat.len());
                    assert(m[k] == s[end]);
                    assert(s[end] == 13);
                    if k >= 4 {
                        assert(pat[k] == eb[k - 4]);
                    }
                }
            }
        }
    }
    lemma_first_match(s, pat, 0, end);
}


/// Quoted text holds no carriage return.
proof fn lemma_quoted_no_cr(raw: Seq<char>)
    ensures
        !has_char(quoted_text(raw), '\r'),
{
    lemma_quoted_is_inert(raw);
    if has_char(quoted_text(raw), '\r') {
        let i = choose|i: int| 0 <= i < quoted_text(raw).len() && quoted_text(raw)[i] == '\r';
        assert(quoted_text(raw)[i] != '\r');
    }
}

/// The disposition line holds no carriage return.
proof fn lemma_disposition_no_cr(p: PartView)
    ensures
        !has_char(disposition_line(p), '\r'),
{
    let a = "Content-Disposition: form-data; name=\""@;
    let q = "\""@;
    reveal_strlit("Content-Disposition: form-data; name=\"");
    reveal_strlit("\"");
    reveal_strlit("; filename=\"");
    assert(!has_char(a, '\r'));
    assert(!has_char(q, '\r'));
    lemma_quoted_no_cr(p.name);
    lemma_has_char_concat(a, quoted_text(p.name), '\r');
    lemma_has_char_concat(a + quoted_text(p.name), q, '\r');
    let first = a + quoted_text(p.name) + q;
    match p.filename {
        Some(f) => {
            let g = "; filename=\""@;
            assert(!has_char(g, '\r'));
            lemma_quoted_no_cr(f);
            lemma_has_char_concat(g, quoted_text(f), '\r');
            lemma_has_char_concat(g + quoted_text(f), q, '\r');
            lemma_has_char_concat(first, g + quoted_text(f) + q, '\r');
            assert(disposition_line(p) =~= first + (g + quoted_text(f) + q));
        },
        None => {
            lemma_has_char_concat(first, Seq::<char>::empty(), '\r');
            assert(disposition_line(p) =~= first + Seq::<char>::empty());
        },
    }
}

/// In a part's header bytes every carriage return is followed, two bytes on,
/// by the `C` of `Content-Type`.
proof fn lemma_header_returns(p: PartView)
    requires
        p.content_type matches Some(t) ==> !has_char(t, '\r'),
    ensures
        forall|i: int|
            0 <= i < encode_utf8(header_text(p)).len() && #[trigger] encode_utf8(header_text(p))[i] == 13 ==> i
                + 2 < encode_utf8(header_text(p)).len() && encode_utf8(header_text(p))[i + 2] == 67,
{
    lemma_disposition_no_cr(p);
    let l1 = disposition_line(p);
    lemma_no_carriage_return(l1);
    let e1 = encode_utf8(l1);
    match p.content_type {
        Some(t) => {
            let lit = "\r\nContent-Type: "@;
            reveal_strlit("\r\nContent-Type: ");
            assert forall|i: int| 0 <= i < lit.len() implies (#[trigger] lit[i] as u32) < 0x80 by {}
            lemma_ascii_encoding(lit);
            lemma_no_carriage_return(t);
            lemma_encode_concat(l1, lit + t);
            lemma_encode_concat(lit, t);
            assert(header_text(p) =~= l1 + (lit + t));
            let el = encode_utf8(lit);
            let et = encode_utf8(t);
            let e = encode_utf8(header_text(p));
            assert(e == e1 + (el + et));
            assert forall|i: int| 0 <= i < e.len() && #[trigger] e[i] == 13 implies i + 2 < e.len() && e[i + 2] == 67 by {
                if i < e1.len() {
                    assert(e[i] == e1[i]);
                } else if i < e1.len() + el.len() {
                    let k = i - e1.len();
                    assert(e[i] == el[k]);
                    assert(el[k] == lit[k] as u32);
                    if k > 0 {
                        assert(lit[k] != '\r');
                        vstd::utf8::char_u32_cast(lit[k], lit[k] as u32);
                        vstd::utf8::char_u32_cast('\r', 13);
                    }
                    assert(k == 0);
                    assert(e[i + 2] == el[2]);
                    assert(el[2] == lit[2] as u32);
                } else {
                    assert(e[i] == et[i - e1.len() - el.len()]);
                }
            }
        },
        None => {
            assert(header_text(p) =~= l1);
        },
    }
}


/// What follows a carriage return in a part's header bytes is neither a
/// carriage return nor a `-`.
proof fn lemma_header_bytes(p: PartView)
    requires
        p.content_type matches Some(t) ==> !has_char(t, '\r'),
    ensures
        forall|i: int|
            0 <= i < encode_utf8(header_text(p)).len() && #[trigger] encode_utf8(header_text(p))[i] == 13 ==> i
                + 2 < encode_utf8(header_text(p)).len() && encode_utf8(header_text(p))[i + 2] != 45,
        forall|i: int|
            0 <= i < encode_utf8(header_text(p)).len() && #[trigger] encode_utf8(header_text(p))[i] == 13 ==> i
                + 2 < encode_utf8(header_text(p)).len() && encode_utf8(header_text(p))[i + 2] != 13,
{
    lemma_header_returns(p);
}

/// The bytes of an ASCII literal.
proof fn lemma_literal_bytes()
    ensures
        encode_utf8("\r\n"@) == seq![13u8, 10u8],
        encode_utf8("\r\n\r\n"@) == seq![13u8, 10u8, 13u8, 10u8],
        encode_utf8("--"@) == seq![45u8, 45u8],
        encode_utf8("--\r\n"@) == seq![45u8, 45u8, 13u8, 10u8],
{
    reveal_strlit("\r\n");
    reveal_strlit("\r\n\r\n");
    reveal_strlit("--");
    reveal_strlit("--\r\n");
    lemma_ascii_encoding("\r\n"@);
    lemma_ascii_encoding("\r\n\r\n"@);
    lemma_ascii_encoding("--"@);
    lemma_ascii_encoding("--\r\n"@);
    assert(encode_utf8("\r\n"@) =~= seq![13u8, 10u8]);
    assert(encode_utf8("\r\n\r\n"@) =~= seq![13u8, 10u8, 13u8, 10u8]);
    assert(encode_utf8("--"@) =~= seq![45u8, 45u8]);
    assert(encode_utf8("--\r\n"@) =~= seq![45u8, 45u8, 13u8, 10u8]);
}

/// Whether every part's content is text, no part's media type holds a
/// carriage return, and no part's content holds the boundary.
pub open spec fn readable(parts: Seq<PartView>, b: Seq<char>) -> bool {
    &&& forall|i: int| 0 <= i < parts.len() ==> valid_utf8(#[trigger] parts[i].bytes)
    &&& forall|i: int|
        0 <= i < parts.len() ==> ((#[trigger] parts[i]).content_type matches Some(t) ==> !has_char(t, '\r'))
    &&& !collides(parts, encode_utf8(b))
}

/// What follows the first delimiter reads back as the text it encodes.
#[verifier::rlimit(60)]
#[verifier::spinoff_prover]
proof fn lemma_after_delimiter_shown(parts: Seq<PartView>, b: Seq<char>)
    requires
        !has_char(b, '\r'),
        readable(parts, b),
    ensures
        valid_utf8(after_delimiter(parts, b)),
        shown_parts(after_delimiter(parts, b), "--"@ + b) == Some(("--"@ + b) + decode_utf8(after_delimiter(parts, b))),
    decreases parts.len(),
{
    lemma_literal_bytes();
    reveal_strlit("--\r\n");
    reveal_strlit("\r\n");
    reveal_strlit("\r\n\r\n");
    reveal_strlit("\r\n--");
    reveal_strlit("--");
    let delim = "--"@ + b;
    let rest = after_delimiter(parts, b);
    if parts.len() == 0 {
        vstd::utf8::encode_utf8_valid_utf8("--\r\n"@);
        vstd::utf8::encode_utf8_decode_utf8("--\r\n"@);
        assert(rest.take(4) =~= finish());
    } else {
        let p = parts[0];
        let ps = parts.drop_first();
        assert(readable(ps, b)) by {
            assert forall|i: int| 0 <= i < ps.len() implies valid_utf8(#[trigger] ps[i].bytes) by {
                assert(ps[i] == parts[i + 1]);
            }
            assert forall|i: int| 0 <= i < ps.len() implies ((#[trigger] ps[i]).content_type matches Some(t)
                ==> !has_char(t, '\r')) by {
                assert(ps[i] == parts[i + 1]);
            }
            if collides(ps, encode_utf8(b)) {
                let i = choose|i: int| 0 <= i < ps.len() && occurs(#[trigger] ps[i].bytes, encode_utf8(b));
                assert(ps[i] == parts[i + 1]);
            }
        }
        lemma_after_delimiter_shown(ps, b);
        let r = after_delimiter(ps, b);
        let c = p.bytes;
        assert(valid_utf8(c));
        assert(!occurs(c, encode_utf8(b)));
        assert(p.content_type matches Some(t) ==> !has_char(t, '\r'));
        let h = header_text(p);
        let e = encode_utf8(h);
        let eb = encode_utf8(b);
        lemma_header_bytes(p);
        lemma_no_carriage_return(b);
        // the pieces, as bytes
        lemma_encode_concat("\r\n"@ + h, "\r\n\r\n"@);
        lemma_encode_concat("\r\n"@, h);
        let x = encode_utf8("\r\n"@ + h + "\r\n\r\n"@);
        assert(x == seq![13u8, 10u8] + e + seq![13u8, 10u8, 13u8, 10u8]);
        lemma_encode_concat("--"@, b);
        lemma_encode_concat("\r\n"@, "--"@ + b);
        assert("\r\n--"@ + b =~= "\r\n"@ + ("--"@ + b));
        let y = encode_utf8("\r\n--"@ + b);
        let pat = seq![13u8, 10u8, 45u8, 45u8] + eb;
        assert(y =~= pat);
        assert(crlf() + encode_utf8(delim) =~= pat);
        assert(rest == x + c + y + r);
        // the walk over them
        assert(rest.take(4)[0] == 13u8);
        assert(rest.take(4) != finish());
        assert(rest.take(2) =~= crlf());
        let opened = rest.skip(2);
        assert(opened =~= e + seq![13u8, 10u8, 13u8, 10u8] + c + pat + r);
        lemma_closing_first(e, c, eb, r);
        let end: int = e.len() + 4int + c.len();
        assert(first_match(opened, pat) == Some(end));
        let part = opened.take(end);
        assert(part =~= e + seq![13u8, 10u8, 13u8, 10u8] + c);
        lemma_blank_first(e, c);
        assert(blank_line() =~= seq![13u8, 10u8, 13u8, 10u8]);
        assert(part.take(e.len() as int) =~= e);
        assert(part.skip(e.len() + 4int) =~= c);
        vstd::utf8::encode_utf8_valid_utf8(h);
        vstd::utf8::encode_utf8_decode_utf8(h);
        let text = h + "\r\n\r\n"@ + decode_utf8(c) + "\r\n"@;
        assert(shown(c) == decode_utf8(c));
        assert(shown_part(part) == Some(text));
        assert(opened.skip(end + pat.len() as int) =~= r);
        assert(shown_parts(rest, delim) == Some(delim + "\r\n"@ + text + (delim + decode_utf8(r))));
        // the same text, decoded
        vstd::utf8::encode_utf8_valid_utf8("\r\n"@ + h + "\r\n\r\n"@);
        vstd::utf8::encode_utf8_decode_utf8("\r\n"@ + h + "\r\n\r\n"@);
        vstd::utf8::encode_utf8_valid_utf8("\r\n--"@ + b);
        vstd::utf8::encode_utf8_decode_utf8("\r\n--"@ + b);
        lemma_decode_concat(x, c);
        lemma_decode_concat(x + c, y);
        lemma_decode_concat(x + c + y, r);
        assert(decode_utf8(rest) == ("\r\n"@ + h + "\r\n\r\n"@) + decode_utf8(c) + ("\r\n--"@ + b)
            + decode_utf8(r));
        assert(delim + decode_utf8(rest) =~= delim + "\r\n"@ + text + (delim + decode_utf8(r)));
    }
}


/// A boundary the encoder chose from its candidates holds no carriage return,
/// starts with `-` and ends with a digit.
proof fn lemma_candidate_shape(n: nat)
    ensures
        !has_char(boundary_candidate(n), '\r'),
        boundary_candidate(n).len() > 0,
        boundary_candidate(n)[0] == '-',
        is_digit(boundary_candidate(n).last()),
{
    reveal_strlit("----typed-openapi-boundary");
    let s = stem();
    let d = decimal(n);
    lemma_decimal_digits(n);
    assert(!has_char(s, '\r'));
    assert(!has_char(seq!['-'], '\r'));
    assert(!has_char(d, '\r')) by {
        if has_char(d, '\r') {
            let i = choose|i: int| 0 <= i < d.len() && d[i] == '\r';
            assert(is_digit(d[i]));
        }
    }
    lemma_has_char_concat(s, seq!['-'], '\r');
    lemma_has_char_concat(s + seq!['-'], d, '\r');
    assert(boundary_candidate(n).last() == d.last());
    assert(boundary_candidate(n)[0] == s[0]);
}

/// A body whose every part is text, and whose parts' media types hold no
/// carriage return, reads back under the `Content-Type` it was encoded with
/// as exactly its own text, byte for byte. Left out are the bodies whose
/// parts hold every one of the encoder's candidate boundaries, where it falls
/// back to one that may stand in a part.
pub proof fn lemma_text_body_summarised(parts: Seq<PartView>, b: Seq<char>)
    requires
        chosen(parts, b),
        b != stem(),
        forall|i: int| 0 <= i < parts.len() ==> valid_utf8(#[trigger] parts[i].bytes),
        forall|i: int|
            0 <= i < parts.len() ==> ((#[trigger] parts[i]).content_type matches Some(t) ==> !has_char(t, '\r')),
    ensures
        valid_utf8(layout(parts, b)),
        summary_of(layout(parts, b), form_type(b)) == Some(decode_utf8(layout(parts, b))),
{
    let n = choose|n: nat|
        n < u32::MAX && b == boundary_candidate(n) && !collides(parts, encode_utf8(boundary_candidate(n)))
            && forall|k: nat| k < n ==> collides(parts, encode_utf8(#[trigger] boundary_candidate(k)));
    lemma_boundary_is_absent(parts, b);
    lemma_candidate_shape(n);
    assert(b.last() != '"') by {
        assert(is_digit(b.last()));
    }
    lemma_boundary_named(b);
    let delimiter = "--"@ + b;
    let delim = encode_utf8(delimiter);
    let after = after_delimiter(parts, b);
    lemma_layout_split(parts, b);
    lemma_after_delimiter_shown(parts, b);
    let bytes = layout(parts, b);
    assert(bytes.take(delim.len() as int) =~= delim);
    assert(bytes.skip(delim.len() as int) =~= after);
    vstd::utf8::encode_utf8_valid_utf8(delimiter);
    vstd::utf8::encode_utf8_decode_utf8(delimiter);
    lemma_decode_concat(delim, after);
}

} // verus!
