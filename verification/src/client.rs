//! What a typed call makes of the response it gets back: status first, then
//! the body — the success type is never read out of an error response.

use vstd::prelude::*;

verus! {

/// The answer of an operation whose response carries no body. It reads from
/// anything, including an empty body, so an operation that answers `201` with
/// nothing is not a special case at the call site.
#[derive(Debug, Clone, Copy, PartialEq, Eq, Structural)]
pub struct NoContent;

/// The text of a body: its UTF-8, with each ill-formed run of bytes read as
/// U+FFFD.
pub uninterp spec fn lossy(bytes: Seq<u8>) -> Seq<char>;

/// `String::from_utf8_lossy`, owned. Bytes that are UTF-8 read as the text they
/// spell; what an ill-formed run is replaced by is named, not stated.
#[verifier::external_body]
fn lossy_text(bytes: &[u8]) -> (r: String)
    ensures
        r@ == lossy(bytes@),
        vstd::utf8::valid_utf8(bytes@) ==> r@ == vstd::utf8::decode_utf8(bytes@),
{
    String::from_utf8_lossy(bytes).into_owned()
}

/// A response body as text, for a refusal to carry.
pub fn body_text(bytes: &[u8]) -> (r: String)
    ensures
        r@ == lossy(bytes@),
        vstd::utf8::valid_utf8(bytes@) ==> r@ == vstd::utf8::decode_utf8(bytes@),
{
    lossy_text(bytes)
}

/// A status in the success class, `200` to `299`.
pub open spec fn success(status: u16) -> bool {
    200 <= status <= 299
}

/// `null`, as bytes.
pub open spec fn null_bytes() -> Seq<u8> {
    seq![110u8, 117u8, 108u8, 108u8]
}

/// A response whose status is not a success, with its body as text.
#[derive(Debug)]
pub struct StatusRefusal {
    pub status: u16,
    pub body: String,
}

impl StatusRefusal {
    /// `{status}: {body}`.
    pub fn message(&self) -> (out: String)
        ensures
            out@ == crate::text::decimal(self.status as nat) + ": "@ + self.body@,
    {
        let mut text = crate::text::decimal_of(self.status as u128);
        crate::text::append_str(&mut text, ": ");
        crate::text::append_str(&mut text, self.body.as_str());
        crate::text::string_of(text.as_slice())
    }
}

/// What a response hands the decoder: nothing, and a refusal carrying the body
/// as text, where the status is not a success; otherwise the body, with an
/// empty one read as `null` — how "no content" arrives.
pub fn answer(status: u16, body: &[u8]) -> (r: Result<Vec<u8>, StatusRefusal>)
    ensures
        r is Ok <==> success(status),
        r matches Ok(bytes) ==> bytes@ == if body@.len() == 0 {
            null_bytes()
        } else {
            body@
        },
        r matches Err(e) ==> e.status == status && e.body@ == lossy(body@),
{
    if status < 200 || status > 299 {
        return Err(StatusRefusal { status, body: lossy_text(body) });
    }
    if body.len() == 0 {
        let null: Vec<u8> = vec![110u8, 117u8, 108u8, 108u8];
        assert(null@ =~= null_bytes());
        return Ok(null);
    }
    let mut out: Vec<u8> = Vec::new();
    crate::text::append_bytes(&mut out, body);
    assert(out@ =~= body@);
    Ok(out)
}

} // verus!
