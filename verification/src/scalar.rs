//! The value kinds a command-line flag can carry, and how a raw argument
//! string becomes the JSON the wire wants.
//!
//! A [`Scalar`] is the only thing this crate knows about a schema: everything
//! richer than these six kinds is a whole-body affair and never reaches a flag.

use vstd::prelude::*;

use crate::json::Json;
use crate::text::{append_str, chars_of, is_digit, string_of};

verus! {

/// What one flag accepts, as the document describes it.
#[derive(Debug, Clone, PartialEq, Eq)]
pub enum Scalar {
    /// A string. Carries the document's `pattern`, which reaches `--help` but
    /// is not enforced — see [`Scalar::parse`].
    Text(Option<String>),
    /// `type: string, format: money` — a decimal amount carried in a string.
    /// Carries the document's `pattern` for the help line, as `Text` does.
    Money(Option<String>),
    /// `type: integer`.
    Integer,
    /// `type: number`.
    Number,
    /// `type: boolean`.
    Boolean,
    /// `enum: [..]` on a string schema. These values complete.
    Choice(Vec<String>),
}

/// A raw argument the document's schema rejects.
#[derive(Debug, Clone, PartialEq, Eq)]
pub enum ScalarError {
    Integer { raw: String },
    Number { raw: String },
    Boolean { raw: String },
    Money { raw: String },
    Choice { raw: String, allowed: Vec<String> },
}

/// One or more ASCII digits and nothing else.
pub open spec fn digits(s: Seq<char>) -> bool {
    s.len() > 0 && forall|i: int| 0 <= i < s.len() ==> is_digit(#[trigger] s[i])
}

/// `raw` without one leading `-`.
pub open spec fn unsigned(raw: Seq<char>) -> Seq<char> {
    if raw.len() > 0 && raw[0] == '-' {
        raw.drop_first()
    } else {
        raw
    }
}

/// `-?` digits, optionally `.` and one or two more digits.
pub open spec fn amount(raw: Seq<char>) -> bool {
    let u = unsigned(raw);
    let n = u.len();
    ||| digits(u)
    ||| n >= 3 && u[n - 2] == '.' && digits(u.take(n - 2)) && digits(u.skip(n - 1))
    ||| n >= 4 && u[n - 3] == '.' && digits(u.take(n - 3)) && digits(u.skip(n - 2))
}

/// The number a run of digits spells.
pub open spec fn digits_value(s: Seq<char>) -> int
    decreases s.len(),
{
    if s.len() == 0 {
        0
    } else {
        digits_value(s.drop_last()) * 10 + (s.last() as int - 48)
    }
}

/// What Rust reads an `i64` out of: one optional `+` or `-`, then digits,
/// and the number they spell in range.
pub open spec fn integer_of(raw: Seq<char>) -> Option<int> {
    let negative = raw.len() > 0 && raw[0] == '-';
    let body = if raw.len() > 0 && (raw[0] == '-' || raw[0] == '+') {
        raw.drop_first()
    } else {
        raw
    };
    let value = if negative {
        -digits_value(body)
    } else {
        digits_value(body)
    };
    if digits(body) && i64::MIN <= value <= i64::MAX {
        Some(value)
    } else {
        None
    }
}

/// Whether `raw` is one of the texts `choices` lists.
pub open spec fn listed(choices: Seq<String>, raw: Seq<char>) -> bool {
    exists|i: int| 0 <= i < choices.len() && #[trigger] choices[i]@ == raw
}

/// Whether `raw` reads as a floating-point number that is finite — what
/// `str::parse` and `serde_json::Number::from_f64` together accept.
pub uninterp spec fn finite_number(raw: Seq<char>) -> bool;

/// The compact text `serde_json` writes the number `raw` reads as.
pub uninterp spec fn float_written(raw: Seq<char>) -> Seq<char>;

/// Read `raw` as a floating-point number and keep it as a JSON number, if it is
/// one and it is finite.
///
/// `str::parse` reads the number; `serde_json::Number::from_f64` refuses the
/// two values JSON has no spelling for, the infinities and not-a-number. What
/// the pair accepts is named rather than stated: it is the float grammar of
/// the standard library together with its rounding.
#[verifier::external_body]
fn float_number(raw: &str) -> (r: Option<serde_json::Number>)
    ensures
        r is Some <==> finite_number(raw@),
        r matches Some(n) ==> crate::json::json_written(Json::Number(n)) == float_written(raw@),
{
    raw.parse().ok().and_then(serde_json::Number::from_f64)
}

/// What one flag's value becomes on the wire, for each kind of flag.
pub open spec fn accepts(scalar: Scalar, raw: Seq<char>) -> bool {
    match scalar {
        Scalar::Text(_) => true,
        Scalar::Money(_) => amount(raw),
        Scalar::Integer => integer_of(raw) is Some,
        Scalar::Number => finite_number(raw),
        Scalar::Boolean => raw == "true"@ || raw == "false"@,
        Scalar::Choice(allowed) => listed(allowed@, raw),
    }
}

/// Whether the error is the one `scalar` refuses `raw` with.
pub open spec fn refusal(scalar: Scalar, raw: Seq<char>, e: ScalarError) -> bool {
    match scalar {
        Scalar::Text(_) => false,
        Scalar::Money(_) => e matches ScalarError::Money { raw: r } && r@ == raw,
        Scalar::Integer => e matches ScalarError::Integer { raw: r } && r@ == raw,
        Scalar::Number => e matches ScalarError::Number { raw: r } && r@ == raw,
        Scalar::Boolean => e matches ScalarError::Boolean { raw: r } && r@ == raw,
        Scalar::Choice(allowed) => e matches ScalarError::Choice { raw: r, allowed: a } && r@
            == raw && a@.map_values(|s: String| s@) == allowed@.map_values(|s: String| s@),
    }
}

/// What the help line says about a flag's values beyond their kind: the
/// document's `pattern`, and an example amount.
pub open spec fn note_text(scalar: Scalar) -> Option<Seq<char>> {
    match scalar {
        Scalar::Money(None) => Some("e.g. 12.50"@),
        Scalar::Money(Some(pattern)) => Some("e.g. 12.50; matches "@ + pattern@),
        Scalar::Text(Some(pattern)) => Some("matches "@ + pattern@),
        _ => None,
    }
}

impl Scalar {
    /// Turn one raw argument into the JSON value the wire wants.
    ///
    /// [`Scalar::Text`]'s `pattern` is documentation only: the one constraint
    /// this document actually cares about — an amount — is
    /// [`Scalar::Money`], which is enforced.
    pub fn parse(&self, raw: &str) -> (r: Result<Json, ScalarError>)
        ensures
            r is Ok <==> accepts(*self, raw@),
            r matches Err(e) ==> refusal(*self, raw@, e),
            r matches Ok(v) ==> match *self {
                Scalar::Integer => v matches Json::Integer(i) && Some(i as int) == integer_of(
                    raw@,
                ),
                Scalar::Number => v is Number && crate::json::json_written(v) == float_written(raw@),
                Scalar::Boolean => v matches Json::Bool(b) && b == (raw@ == "true"@),
                _ => v matches Json::String(s) && s@ == raw@,
            },
    {
        let chars = chars_of(raw);
        match self {
            Scalar::Text(_) => Ok(Json::String(raw.to_owned())),
            Scalar::Money(_) => {
                if is_amount(chars.as_slice()) {
                    Ok(Json::String(raw.to_owned()))
                } else {
                    Err(ScalarError::Money { raw: raw.to_owned() })
                }
            },
            Scalar::Integer => match parse_integer(chars.as_slice()) {
                Some(value) => Ok(Json::Integer(value)),
                None => Err(ScalarError::Integer { raw: raw.to_owned() }),
            },
            Scalar::Number => match float_number(raw) {
                Some(n) => Ok(Json::Number(n)),
                None => Err(ScalarError::Number { raw: raw.to_owned() }),
            },
            Scalar::Boolean => {
                if crate::text::str_is(raw, "true") {
                    Ok(Json::Bool(true))
                } else if crate::text::str_is(raw, "false") {
                    Ok(Json::Bool(false))
                } else {
                    Err(ScalarError::Boolean { raw: raw.to_owned() })
                }
            },
            Scalar::Choice(allowed) => {
                let mut i: usize = 0;
                while i < allowed.len()
                    invariant
                        i <= allowed@.len(),
                        chars@ == raw@,
                        *self matches Scalar::Choice(a) && a == *allowed,
                        forall|j: int| 0 <= j < i ==> (#[trigger] allowed@[j])@ != raw@,
                    decreases allowed.len() - i,
                {
                    let choice = chars_of(allowed[i].as_str());
                    if crate::text::same_chars(choice.as_slice(), chars.as_slice()) {
                        assert(allowed@[i as int]@ == raw@);
                        return Ok(Json::String(raw.to_owned()));
                    }
                    i += 1;
                }
                let copied = copy_strings(allowed);
                assert(copied@.map_values(|s: String| s@) =~= allowed@.map_values(|s: String| s@));
                Err(ScalarError::Choice { raw: raw.to_owned(), allowed: copied })
            },
        }
    }

    /// The `<NAME>` shown for the flag's value, and the closest thing the
    /// document gives an agent to a type.
    pub fn value_name(&self) -> (r: &'static str)
        ensures
            r@ == match *self {
                Scalar::Text(_) | Scalar::Choice(_) => "STRING"@,
                Scalar::Money(_) => "AMOUNT"@,
                Scalar::Integer => "INT"@,
                Scalar::Number => "NUMBER"@,
                Scalar::Boolean => "BOOL"@,
            },
    {
        match self {
            Scalar::Text(_) | Scalar::Choice(_) => "STRING",
            Scalar::Money(_) => "AMOUNT",
            Scalar::Integer => "INT",
            Scalar::Number => "NUMBER",
            Scalar::Boolean => "BOOL",
        }
    }

    /// The constraint worth appending to a flag's help line, if any.
    pub fn note(&self) -> (r: Option<String>)
        ensures
            match note_text(*self) {
                Some(t) => r matches Some(n) && n@ == t,
                None => r is None,
            },
    {
        match self {
            Scalar::Money(None) => Some("e.g. 12.50".to_owned()),
            Scalar::Money(Some(pattern)) => {
                let mut text: Vec<char> = Vec::new();
                append_str(&mut text, "e.g. 12.50; matches ");
                append_str(&mut text, pattern.as_str());
                Some(string_of(text.as_slice()))
            },
            Scalar::Text(Some(pattern)) => {
                let mut text: Vec<char> = Vec::new();
                append_str(&mut text, "matches ");
                append_str(&mut text, pattern.as_str());
                Some(string_of(text.as_slice()))
            },
            _ => None,
        }
    }
}

/// The sentence a refusal is reported in.
pub open spec fn scalar_error_text(e: ScalarError) -> Seq<char> {
    match e {
        ScalarError::Integer { raw } => "`"@ + raw@ + "` is not an integer"@,
        ScalarError::Number { raw } => "`"@ + raw@ + "` is not a number"@,
        ScalarError::Boolean { raw } => "`"@ + raw@ + "` is not `true` or `false`"@,
        ScalarError::Money { raw } => "`"@ + raw@
            + "` is not an amount (digits, optionally `.` and one or two decimals)"@,
        ScalarError::Choice { raw, allowed } => "`"@ + raw@ + "` is not one of "@
            + crate::text::joined(allowed@.map_values(|s: String| s@), ", "@),
    }
}

impl ScalarError {
    /// The sentence a refusal is reported in.
    pub fn message(&self) -> (out: String)
        ensures
            out@ == scalar_error_text(*self),
    {
        let mut text: Vec<char> = Vec::new();
        append_str(&mut text, "`");
        match self {
            ScalarError::Integer { raw } => {
                append_str(&mut text, raw.as_str());
                append_str(&mut text, "` is not an integer");
            },
            ScalarError::Number { raw } => {
                append_str(&mut text, raw.as_str());
                append_str(&mut text, "` is not a number");
            },
            ScalarError::Boolean { raw } => {
                append_str(&mut text, raw.as_str());
                append_str(&mut text, "` is not `true` or `false`");
            },
            ScalarError::Money { raw } => {
                append_str(&mut text, raw.as_str());
                append_str(
                    &mut text,
                    "` is not an amount (digits, optionally `.` and one or two decimals)",
                );
            },
            ScalarError::Choice { raw, allowed } => {
                append_str(&mut text, raw.as_str());
                append_str(&mut text, "` is not one of ");
                let list = crate::text::join_strings(allowed.as_slice(), ", ");
                crate::text::append_chars(&mut text, list.as_slice());
            },
        }
        string_of(text.as_slice())
    }
}

/// A copy of each string.
pub fn copy_strings(items: &Vec<String>) -> (out: Vec<String>)
    ensures
        out@.len() == items@.len(),
        forall|i: int| 0 <= i < items@.len() ==> (#[trigger] out@[i])@ == items@[i]@,
{
    let mut out: Vec<String> = Vec::new();
    let mut i: usize = 0;
    while i < items.len()
        invariant
            i <= items@.len(),
            out@.len() == i,
            forall|j: int| 0 <= j < i ==> (#[trigger] out@[j])@ == items@[j]@,
        decreases items.len() - i,
    {
        out.push(items[i].clone());
        i += 1;
    }
    out
}

/// Whether every character of `s` is a digit, and there is one.
fn all_digits(s: &[char], from: usize, to: usize) -> (r: bool)
    requires
        from <= to <= s@.len(),
    ensures
        r == digits(s@.subrange(from as int, to as int)),
{
    if from == to {
        return false;
    }
    let mut i = from;
    while i < to
        invariant
            from <= i <= to,
            to <= s@.len(),
            forall|j: int| from <= j < i ==> is_digit(#[trigger] s@[j]),
        decreases to - i,
    {
        if !('0' <= s[i] && s[i] <= '9') {
            assert(!is_digit(s@.subrange(from as int, to as int)[i - from]));
            return false;
        }
        i += 1;
    }
    assert forall|j: int| 0 <= j < to - from implies is_digit(
        #[trigger] s@.subrange(from as int, to as int)[j],
    ) by {
        assert(s@.subrange(from as int, to as int)[j] == s@[from + j]);
    }
    true
}

/// `-?` digits, optionally `.` and one or two more digits.
pub fn is_amount(raw: &[char]) -> (r: bool)
    ensures
        r == amount(raw@),
{
    let start: usize = if raw.len() > 0 && raw[0] == '-' {
        1
    } else {
        0
    };
    let ghost u = unsigned(raw@);
    assert(u == raw@.subrange(start as int, raw@.len() as int));
    let n = raw.len() - start;
    let whole = all_digits(raw, start, raw.len());
    let one = n >= 3 && raw[raw.len() - 2] == '.' && all_digits(raw, start, raw.len() - 2)
        && all_digits(raw, raw.len() - 1, raw.len());
    let two = n >= 4 && raw[raw.len() - 3] == '.' && all_digits(raw, start, raw.len() - 3)
        && all_digits(raw, raw.len() - 2, raw.len());
    proof {
        if n >= 3 {
            assert(u.take(n - 2) == raw@.subrange(start as int, raw.len() - 2));
            assert(u.skip(n - 1) == raw@.subrange(raw.len() - 1, raw.len() as int));
        }
        if n >= 4 {
            assert(u.take(n - 3) == raw@.subrange(start as int, raw.len() - 3));
            assert(u.skip(n - 2) == raw@.subrange(raw.len() - 2, raw.len() as int));
        }
    }
    whole || one || two
}

proof fn lemma_digits_value_grows(s: Seq<char>, i: int)
    requires
        0 <= i <= s.len(),
        forall|j: int| 0 <= j < s.len() ==> is_digit(#[trigger] s[j]),
    ensures
        digits_value(s.take(i)) <= digits_value(s),
        0 <= digits_value(s.take(i)),
    decreases s.len() - i,
{
    if i < s.len() {
        lemma_digits_value_grows(s, i + 1);
        assert(s.take(i + 1).drop_last() == s.take(i));
        assert(s.take(i + 1).last() == s[i]);
    } else {
        assert(s.take(i) == s);
    }
    lemma_digits_value_nonneg(s.take(i));
}

proof fn lemma_digits_value_nonneg(s: Seq<char>)
    requires
        forall|j: int| 0 <= j < s.len() ==> is_digit(#[trigger] s[j]),
    ensures
        0 <= digits_value(s),
    decreases s.len(),
{
    if s.len() > 0 {
        lemma_digits_value_nonneg(s.drop_last());
        assert(is_digit(s[s.len() - 1]));
    }
}

/// What Rust reads an `i64` out of: one optional sign, then digits, and the
/// number they spell in range.
pub fn parse_integer(raw: &[char]) -> (r: Option<i64>)
    ensures
        r matches Some(v) ==> integer_of(raw@) == Some(v as int),
        r is None ==> integer_of(raw@) is None,
{
    let negative = raw.len() > 0 && raw[0] == '-';
    let start: usize = if raw.len() > 0 && (raw[0] == '-' || raw[0] == '+') {
        1
    } else {
        0
    };
    let ghost body = if raw@.len() > 0 && (raw@[0] == '-' || raw@[0] == '+') {
        raw@.drop_first()
    } else {
        raw@
    };
    assert(body == raw@.subrange(start as int, raw@.len() as int));
    if start == raw.len() {
        return None;
    }
    let limit: i128 = if negative {
        9223372036854775808
    } else {
        9223372036854775807
    };
    let mut value: i128 = 0;
    let mut i: usize = start;
    while i < raw.len()
        invariant
            start <= i <= raw@.len(),
            body == raw@.subrange(start as int, raw@.len() as int),
            body == (if raw@.len() > 0 && (raw@[0] == '-' || raw@[0] == '+') {
                raw@.drop_first()
            } else {
                raw@
            }),
            negative == (raw@.len() > 0 && raw@[0] == '-'),
            forall|j: int| start <= j < i ==> is_digit(#[trigger] raw@[j]),
            value == digits_value(raw@.subrange(start as int, i as int)),
            0 <= value <= limit,
            limit == (if negative {
                9223372036854775808i128
            } else {
                9223372036854775807i128
            }),
        decreases raw.len() - i,
    {
        let c = raw[i];
        if !('0' <= c && c <= '9') {
            assert(!is_digit(body[i - start]));
            assert(!digits(body));
            return None;
        }
        let d = (c as u32 - 48) as i128;
        assert(raw@.subrange(start as int, i + 1).drop_last() == raw@.subrange(
            start as int,
            i as int,
        ));
        if value > (limit - d) / 10 {
            proof {
                let read = (i + 1 - start) as int;
                assert(body.take(read) == raw@.subrange(start as int, i + 1));
                assert(digits_value(body.take(read)) == value * 10 + d);
                assert(value * 10 + d > limit) by (nonlinear_arith)
                    requires
                        value > (limit - d) / 10,
                        0 <= d <= 9,
                        limit > 9,
                ;
                if digits(body) {
                    lemma_digits_value_grows(body, read);
                }
            }
            return None;
        }
        value = value * 10 + d;
        i += 1;
    }
    assert(raw@.subrange(start as int, raw@.len() as int) == body);
    if negative {
        Some((0 - value) as i64)
    } else {
        Some(value as i64)
    }
}

} // verus!
