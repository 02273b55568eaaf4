//! What the generated Rust wrappers say and are called, decided apart from
//! the tokens that spell them: the identifier a document's word becomes, the
//! name each argument binds, and the notes a wrapper's doc carries.

use vstd::prelude::*;

use crate::model::{sentence_of, Effect, Gate, Join, Operation, Param, Shape, Unsupported};
use crate::openapi::{KindSpec, SchemaRef};
use crate::resolve::{key_in, strip};
use crate::text::{append_chars, append_str, chars_of, decimal, decimal_of, joined, str_is, string_of, trimmed};

verus! {

/// Whether `word` is one `typify` keeps from standing unquoted: `_`, and the
/// Rust keywords, `gen` among them.
pub open spec fn typify_keyword(word: Seq<char>) -> bool {
    word == "_"@
        || word == "abstract"@
        || word == "as"@
        || word == "async"@
        || word == "await"@
        || word == "become"@
        || word == "box"@
        || word == "break"@
        || word == "const"@
        || word == "continue"@
        || word == "crate"@
        || word == "do"@
        || word == "dyn"@
        || word == "else"@
        || word == "enum"@
        || word == "extern"@
        || word == "false"@
        || word == "final"@
        || word == "fn"@
        || word == "for"@
        || word == "gen"@
        || word == "if"@
        || word == "impl"@
        || word == "in"@
        || word == "let"@
        || word == "loop"@
        || word == "macro"@
        || word == "match"@
        || word == "mod"@
        || word == "move"@
        || word == "mut"@
        || word == "override"@
        || word == "priv"@
        || word == "pub"@
        || word == "ref"@
        || word == "return"@
        || word == "Self"@
        || word == "self"@
        || word == "static"@
        || word == "struct"@
        || word == "super"@
        || word == "trait"@
        || word == "true"@
        || word == "try"@
        || word == "type"@
        || word == "typeof"@
        || word == "unsafe"@
        || word == "unsized"@
        || word == "use"@
        || word == "virtual"@
        || word == "where"@
        || word == "while"@
        || word == "yield"@
}

/// Whether `typify` lets `word` stand unquoted as an identifier: whenever it
/// is no keyword of its list.
pub open spec fn typify_accepts(word: Seq<char>) -> bool {
    !typify_keyword(word)
}

/// Whether `syn` parses `text` as one identifier.
pub uninterp spec fn syn_ident(text: Seq<char>) -> bool;

/// Whether a word may stand unquoted, as `typify::accept_as_ident` decides:
/// any word but the ones its keyword list names.
fn accepts_as_ident(word: &str) -> (r: bool)
    ensures
        r == typify_accepts(word@),
{
    !(str_is(word, "_")
        || str_is(word, "abstract")
        || str_is(word, "as")
        || str_is(word, "async")
        || str_is(word, "await")
        || str_is(word, "become")
        || str_is(word, "box")
        || str_is(word, "break")
        || str_is(word, "const")
        || str_is(word, "continue")
        || str_is(word, "crate")
        || str_is(word, "do")
        || str_is(word, "dyn")
        || str_is(word, "else")
        || str_is(word, "enum")
        || str_is(word, "extern")
        || str_is(word, "false")
        || str_is(word, "final")
        || str_is(word, "fn")
        || str_is(word, "for")
        || str_is(word, "gen")
        || str_is(word, "if")
        || str_is(word, "impl")
        || str_is(word, "in")
        || str_is(word, "let")
        || str_is(word, "loop")
        || str_is(word, "macro")
        || str_is(word, "match")
        || str_is(word, "mod")
        || str_is(word, "move")
        || str_is(word, "mut")
        || str_is(word, "override")
        || str_is(word, "priv")
        || str_is(word, "pub")
        || str_is(word, "ref")
        || str_is(word, "return")
        || str_is(word, "Self")
        || str_is(word, "self")
        || str_is(word, "static")
        || str_is(word, "struct")
        || str_is(word, "super")
        || str_is(word, "trait")
        || str_is(word, "true")
        || str_is(word, "try")
        || str_is(word, "type")
        || str_is(word, "typeof")
        || str_is(word, "unsafe")
        || str_is(word, "unsized")
        || str_is(word, "use")
        || str_is(word, "virtual")
        || str_is(word, "where")
        || str_is(word, "while")
        || str_is(word, "yield"))
}

/// `syn::parse_str::<syn::Ident>`: whether `text` parses as one identifier.
/// Which texts do is named and not stated here.
#[verifier::external_body]
fn parses_as_ident(text: &str) -> (r: bool)
    ensures
        r == syn_ident(text@),
{
    syn::parse_str::<syn::Ident>(text).is_ok()
}

/// The four words that cannot be written raw.
pub open spec fn unrawable(word: Seq<char>) -> bool {
    word == "crate"@ || word == "self"@ || word == "Self"@ || word == "super"@
}

/// `word` as an identifier the generated source can carry: itself where it
/// may stand unquoted and parses; the word with `_` after it for the four
/// that cannot be written raw; the raw identifier otherwise; and nothing for
/// a word with no spelling at all.
pub open spec fn ident_for(word: Seq<char>) -> Option<Seq<char>> {
    if typify_accepts(word) {
        if syn_ident(word) {
            Some(word)
        } else {
            None
        }
    } else if unrawable(word) {
        Some(word + "_"@)
    } else if syn_ident("r#"@ + word) {
        Some("r#"@ + word)
    } else {
        None
    }
}

/// `word` as an identifier the generated source can carry. A keyword keeps
/// the document's own word as a raw identifier; the four that cannot be
/// written raw take an underscore instead.
pub fn ident(word: &str) -> (r: Option<String>)
    ensures
        match ident_for(word@) {
            Some(t) => r matches Some(s) && s@ == t,
            None => r is None,
        },
{
    if accepts_as_ident(word) {
        if parses_as_ident(word) {
            return Some(word.to_owned());
        }
        return None;
    }
    if str_is(word, "crate") || str_is(word, "self") || str_is(word, "Self") || str_is(word, "super") {
        let mut out = chars_of(word);
        append_str(&mut out, "_");
        return Some(string_of(out.as_slice()));
    }
    let mut raw: Vec<char> = Vec::new();
    append_str(&mut raw, "r#");
    append_str(&mut raw, word);
    let text = string_of(raw.as_slice());
    if parses_as_ident(text.as_str()) {
        Some(text)
    } else {
        None
    }
}

/// The `k`th name an argument tries: its plain identifier, then `word_2`,
/// `word_3`, ….
pub open spec fn bound_candidate(plain: Seq<char>, word: Seq<char>, k: nat) -> Seq<char> {
    if k == 0 {
        plain
    } else {
        word + seq!['_'] + decimal(k + 1)
    }
}

/// The name one argument binds: the first candidate the wrapper has not
/// spent, which is then spent.
pub open spec fn binds(before: Seq<Seq<char>>, after: Seq<Seq<char>>, plain: Seq<char>, word: Seq<char>, name: Seq<char>) -> bool {
    exists|n: nat|
        name == bound_candidate(plain, word, n) && !before.contains(name) && (forall|k: nat|
            k < n ==> before.contains(#[trigger] bound_candidate(plain, word, k))) && after == before.push(name)
}

/// No two numbered candidates are spelled alike.
proof fn lemma_numbered_differ(plain: Seq<char>, word: Seq<char>, j: nat, k: nat)
    requires
        j != k,
        j >= 1,
        k >= 1,
    ensures
        bound_candidate(plain, word, j) != bound_candidate(plain, word, k),
{
    crate::text::lemma_decimal_digits(j + 1);
    crate::text::lemma_decimal_digits(k + 1);
    let base = word + seq!['_'];
    let cj = bound_candidate(plain, word, j);
    let ck = bound_candidate(plain, word, k);
    if cj == ck {
        assert(cj.skip(base.len() as int) =~= decimal(j + 1));
        assert(ck.skip(base.len() as int) =~= decimal(k + 1));
        crate::text::lemma_decimal_injective(j + 1, k + 1);
    }
}

/// The `k`th numbered candidate, spelled out.
fn numbered(word: &Vec<char>, k: usize) -> (out: Vec<char>)
    requires
        k >= 1,
    ensures
        out@ == word@ + seq!['_'] + decimal((k + 1) as nat),
{
    let mut out: Vec<char> = Vec::new();
    append_chars(&mut out, word.as_slice());
    out.push('_');
    let digits = decimal_of((k as u128) + 1);
    append_chars(&mut out, digits.as_slice());
    out
}

/// Whether `name` is one of `names`.
fn spent(names: &Vec<String>, name: &[char]) -> (r: bool)
    ensures
        r == names@.map_values(|s: String| s@).contains(name@),
{
    let ghost views = names@.map_values(|s: String| s@);
    let mut i: usize = 0;
    while i < names.len()
        invariant
            i <= names@.len(),
            views == names@.map_values(|s: String| s@),
            forall|j: int| 0 <= j < i ==> views[j] != name@,
        decreases names.len() - i,
    {
        let word = chars_of(names[i].as_str());
        if crate::text::same_chars(word.as_slice(), name) {
            assert(views[i as int] == name@);
            return true;
        }
        i += 1;
    }
    false
}

/// The identifier one argument binds: `plain` where this wrapper has not
/// spent it, and `word_2`, `word_3`, … where it has. A wrapper's argument
/// list is the whole of what an identifier has to be unique against, so the
/// list is the namespace.
pub fn bind(names: &mut Vec<String>, plain: &str, word: &str) -> (r: String)
    requires
        old(names)@.len() + 2 <= usize::MAX,
    ensures
        binds(
            old(names)@.map_values(|s: String| s@),
            final(names)@.map_values(|s: String| s@),
            plain@,
            word@,
            r@,
        ),
{
    let ghost views = names@.map_values(|s: String| s@);
    let ghost taken = views.to_set();
    proof {
        vstd::seq_lib::seq_to_set_is_finite(views);
        views.lemma_cardinality_of_set();
    }
    let w = chars_of(word);
    let mut cand = chars_of(plain);
    let mut n: usize = 0;
    let ghost mut tried: Set<Seq<char>> = Set::empty();
    while spent(names, cand.as_slice())
        invariant
            views == names@.map_values(|s: String| s@),
            taken == views.to_set(),
            taken.finite(),
            taken.len() <= names@.len(),
            names@.len() + 2 <= usize::MAX,
            n <= names@.len() + 1,
            w@ == word@,
            cand@ == bound_candidate(plain@, word@, n as nat),
            tried.finite(),
            n == 0 ==> tried.len() == 0,
            n >= 1 ==> tried.len() == n - 1,
            tried.subset_of(taken),
            forall|k: nat| k < n ==> views.contains(#[trigger] bound_candidate(plain@, word@, k)),
            forall|k: nat| 1 <= k < n ==> tried.contains(#[trigger] bound_candidate(plain@, word@, k)),
            forall|t: Seq<char>| tried.contains(t) ==> exists|k: nat|
                1 <= k < n && t == #[trigger] bound_candidate(plain@, word@, k),
        decreases taken.difference(tried).len(), if n == 0 { 1int } else { 0int },
    {
        proof {
            let c = bound_candidate(plain@, word@, n as nat);
            assert(taken.contains(c));
            if n >= 1 {
                if tried.contains(c) {
                    let k = choose|k: nat| 1 <= k < n && c == #[trigger] bound_candidate(plain@, word@, k);
                    lemma_numbered_differ(plain@, word@, k, n as nat);
                }
                let rest = taken.difference(tried);
                vstd::set_lib::lemma_set_subset_finite(taken, rest);
                assert(taken.difference(tried.insert(c)) =~= rest.remove(c));
                vstd::set::axiom_set_remove_len(rest, c);
                vstd::set::axiom_set_insert_len(tried, c);
                vstd::set::axiom_set_insert_finite(tried, c);
                tried = tried.insert(c);
                vstd::set_lib::lemma_len_subset(tried, taken);
                assert(tried.len() == n);
                assert forall|t: Seq<char>| tried.contains(t) implies exists|k: nat|
                    1 <= k < n + 1 && t == #[trigger] bound_candidate(plain@, word@, k) by {
                    if t != c {
                        let k = choose|k: nat| 1 <= k < n && t == #[trigger] bound_candidate(plain@, word@, k);
                        assert(k < n + 1);
                    } else {
                        assert(bound_candidate(plain@, word@, n as nat) == t);
                    }
                }
            } else {
                assert(taken.difference(tried) =~= taken);
                assert(taken.len() > 0) by {
                    vstd::set::axiom_set_contains_len(taken, c);
                }
            }
        }
        n += 1;
        cand = numbered(&w, n);
    }
    let name = string_of(cand.as_slice());
    names.push(string_of(cand.as_slice()));
    proof {
        assert(names@.map_values(|s: String| s@) =~= views.push(name@));
    }
    name
}

/// The words a command line demands of one operation, each as `` `--word` ``.
pub open spec fn gate_words_quoted(gates: Seq<Gate>) -> Seq<Seq<char>> {
    gates.map_values(|g: Gate| "`--"@ + g@ + "`"@)
}

/// What a wrapper's doc says about the hazard: a read is a read; a write
/// names every word the command line demands before it is sent.
pub open spec fn gate_note_text(op: Operation) -> Seq<char> {
    match op.effect {
        Effect::Read => "A read."@,
        Effect::Write => if op.gates@.len() == 0 {
            "This operation writes. A Rust caller is trusted; the CLI holds it behind `--"@ + op.commit@
                + "`."@
        } else {
            "This operation writes. A Rust caller is trusted; the CLI holds it behind `--"@ + op.commit@
                + "` and "@ + joined(gate_words_quoted(op.gates@), " and "@) + "."@
        },
    }
}

/// What a wrapper's doc says about the flags a command line holds the
/// operation behind. A Rust caller is trusted and stopped by nothing here, so
/// this is the one place the hazard is written down for them.
pub fn gate_note(op: &Operation) -> (r: String)
    ensures
        r@ == gate_note_text(*op),
{
    match op.effect() {
        Effect::Read => "A read.".to_owned(),
        Effect::Write => {
            let mut out: Vec<char> = Vec::new();
            append_str(&mut out, "This operation writes. A Rust caller is trusted; the CLI holds it behind `--");
            append_str(&mut out, op.commit());
            if op.gates().len() == 0 {
                append_str(&mut out, "`.");
            } else {
                append_str(&mut out, "` and ");
                let mut named: Vec<String> = Vec::new();
                let mut i: usize = 0;
                while i < op.gates.len()
                    invariant
                        i <= op.gates@.len(),
                        named@.len() == i,
                        forall|k: int| 0 <= k < i ==> (#[trigger] named@[k])@ == "`--"@ + op.gates@[k]@ + "`"@,
                    decreases op.gates.len() - i,
                {
                    let mut one: Vec<char> = Vec::new();
                    append_str(&mut one, "`--");
                    append_str(&mut one, op.gates[i].as_str());
                    append_str(&mut one, "`");
                    named.push(string_of(one.as_slice()));
                    i += 1;
                }
                assert(named@.map_values(|s: String| s@) =~= gate_words_quoted(op.gates@));
                let list = crate::text::join_strings(named.as_slice(), " and ");
                append_chars(&mut out, list.as_slice());
                append_str(&mut out, ".");
            }
            string_of(out.as_slice())
        },
    }
}

/// Paragraphs joined into one doc: each trimmed, a blank line between each
/// two.
pub open spec fn paragraphs_text(parts: Seq<Seq<char>>) -> Seq<char> {
    joined(parts.map_values(|p: Seq<char>| trimmed(p)), "\n\n"@)
}

/// Paragraphs joined into one doc.
pub fn paragraphs(parts: &[String]) -> (r: String)
    ensures
        r@ == paragraphs_text(parts@.map_values(|s: String| s@)),
{
    let mut kept: Vec<String> = Vec::new();
    let mut i: usize = 0;
    while i < parts.len()
        invariant
            i <= parts@.len(),
            kept@.len() == i,
            forall|k: int| 0 <= k < i ==> (#[trigger] kept@[k])@ == trimmed(parts@[k]@),
        decreases parts.len() - i,
    {
        let chars = chars_of(parts[i].as_str());
        let t = crate::text::trim_chars(chars.as_slice(), 0, chars.len());
        assert(chars@.subrange(0, chars@.len() as int) =~= chars@);
        kept.push(string_of(t.as_slice()));
        i += 1;
    }
    assert(kept@.map_values(|s: String| s@) =~= parts@.map_values(|s: String| s@).map_values(
        |p: Seq<char>| trimmed(p),
    ));
    let out = crate::text::join_strings(kept.as_slice(), "\n\n");
    string_of(out.as_slice())
}

/// What a wrapper's doc says about a multipart body's argument.
pub open spec fn multipart_note_text(parts: Seq<char>, names: Seq<Seq<char>>) -> Seq<char> {
    let assembled = "`"@ + parts + "` are assembled into a `multipart/form-data` body."@;
    if names.len() == 0 {
        assembled
    } else {
        assembled + " The document declares: "@ + joined(names, ", "@) + "."@
    }
}

/// What a wrapper's doc says about a multipart body's argument: that it is
/// assembled, and the part names the document declares.
pub fn multipart_note(parts: &str, names: &[String]) -> (r: String)
    ensures
        r@ == multipart_note_text(parts@, names@.map_values(|s: String| s@)),
{
    let mut out: Vec<char> = Vec::new();
    append_str(&mut out, "`");
    append_str(&mut out, parts);
    append_str(&mut out, "` are assembled into a `multipart/form-data` body.");
    if names.len() > 0 {
        append_str(&mut out, " The document declares: ");
        let list = crate::text::join_strings(names, ", ");
        append_chars(&mut out, list.as_slice());
        append_str(&mut out, ".");
    }
    string_of(out.as_slice())
}

/// The note an argument that moved aside carries: which name it binds and
/// what it is in the document's own terms.
pub open spec fn moved_note_text(bound: Seq<char>, carries: Seq<char>) -> Seq<char> {
    "`"@ + bound + "` "@ + carries
        + ", under a name of its own: an argument declared before it had already spent the plain spelling."@
}

/// One argument's identifier, and the note that accounts for it where it is
/// not the plain spelling of the document's own word.
pub fn argument(names: &mut Vec<String>, notes: &mut Vec<String>, plain: &str, word: &str, carries: &str) -> (r: String)
    requires
        old(names)@.len() + 2 <= usize::MAX,
    ensures
        binds(
            old(names)@.map_values(|s: String| s@),
            final(names)@.map_values(|s: String| s@),
            plain@,
            word@,
            r@,
        ),
        r@ == plain@ ==> final(notes)@ == old(notes)@,
        r@ != plain@ ==> final(notes)@.len() == old(notes)@.len() + 1 && final(notes)@.take(
            old(notes)@.len() as int,
        ) == old(notes)@ && final(notes)@.last()@ == moved_note_text(r@, carries@),
{
    let bound = bind(names, plain, word);
    if !str_is(bound.as_str(), plain) {
        let mut note: Vec<char> = Vec::new();
        append_str(&mut note, "`");
        append_str(&mut note, bound.as_str());
        append_str(&mut note, "` ");
        append_str(&mut note, carries);
        append_str(
            &mut note,
            ", under a name of its own: an argument declared before it had already spent the plain spelling.",
        );
        notes.push(string_of(note.as_slice()));
        assert(notes@.take(old(notes)@.len() as int) =~= old(notes)@);
    }
    bound
}

/// `heck`'s snake case of a word.
pub uninterp spec fn snake_cased(word: Seq<char>) -> Seq<char>;

/// `heck::ToSnakeCase::to_snake_case`: the word in snake case. Which text
/// that is, is named and not stated here.
#[verifier::external_body]
fn snake_case(word: &str) -> (r: String)
    ensures
        r@ == snake_cased(word@),
{
    heck::ToSnakeCase::to_snake_case(word)
}

/// How a wrapper takes one parameter: a list of values, one value, or an
/// optional one.
#[derive(Debug, Clone, Copy, PartialEq, Eq, Structural)]
pub enum ArgShape {
    List,
    Required,
    Optional,
}

/// One parameter as a wrapper argument: the name it binds, the wire name the
/// request builder fills with it, and how it is taken.
#[derive(Debug)]
pub struct WrapperArg {
    pub bound: String,
    pub wire: String,
    pub shape: ArgShape,
}

/// A list where the parameter joins values; otherwise one value, required
/// where the document requires it.
pub open spec fn arg_shape_for(join: Option<Join>, required: bool) -> ArgShape {
    if join is Some {
        ArgShape::List
    } else if required {
        ArgShape::Required
    } else {
        ArgShape::Optional
    }
}

/// The note a parameter with no flag leaves in its wrapper's doc.
pub open spec fn unreachable_note_text(name: Seq<char>, why: Unsupported) -> Seq<char> {
    "The document's `"@ + name + "` parameter is not an argument: it is "@ + sentence_of(why)
        + ". A request built here does not carry it."@
}

/// Why a parameter has no argument: its name spells no identifier.
pub open spec fn unspellable_text(name: Seq<char>) -> Seq<char> {
    "parameter `"@ + name + "` has no spelling as a Rust identifier"@
}

/// What a wrapper's argument for `name` says it carries.
pub open spec fn sends_text(name: Seq<char>) -> Seq<char> {
    "sends the document's `"@ + name + "`"@
}

/// What one parameter adds to a wrapper. A parameter with no flag is no
/// argument either, and leaves a note saying the wrapper does not carry it;
/// any other binds its snake-cased name as an argument — a list where it
/// joins values, required where the document requires it, optional otherwise.
pub fn param_argument(names: &mut Vec<String>, notes: &mut Vec<String>, param: &Param) -> (r: Result<
    Option<WrapperArg>,
    String,
>)
    requires
        old(names)@.len() + 2 <= usize::MAX,
    ensures
        match param.shape {
            Shape::Unreachable(why) => r matches Ok(None) && final(names)@ == old(names)@ && final(notes)@.len()
                == old(notes)@.len() + 1 && final(notes)@.take(old(notes)@.len() as int) == old(notes)@
                && final(notes)@.last()@ == unreachable_note_text(param.name@, why),
            Shape::Flag { join, .. } => match ident_for(snake_cased(param.name@)) {
                None => r matches Err(m) && m@ == unspellable_text(param.name@) && final(names)@ == old(names)@
                    && final(notes)@ == old(notes)@,
                Some(plain) => r matches Ok(Some(a)) && a.wire@ == param.name@ && a.shape == arg_shape_for(
                    join,
                    param.required,
                ) && binds(
                    old(names)@.map_values(|s: String| s@),
                    final(names)@.map_values(|s: String| s@),
                    plain,
                    snake_cased(param.name@),
                    a.bound@,
                ) && (a.bound@ == plain ==> final(notes)@ == old(notes)@) && (a.bound@ != plain ==> final(notes)@.len() == old(notes)@.len() + 1 && final(notes)@.take(old(notes)@.len() as int) == old(notes)@
                    && final(notes)@.last()@ == moved_note_text(a.bound@, sends_text(param.name@))),
            },
        },
{
    let join = match &param.shape {
        Shape::Flag { join, .. } => *join,
        Shape::Unreachable(why) => {
            let mut note: Vec<char> = Vec::new();
            append_str(&mut note, "The document's `");
            append_str(&mut note, param.name.as_str());
            append_str(&mut note, "` parameter is not an argument: it is ");
            let sentence = why.sentence();
            append_str(&mut note, sentence.as_str());
            append_str(&mut note, ". A request built here does not carry it.");
            notes.push(string_of(note.as_slice()));
            assert(notes@.take(old(notes)@.len() as int) =~= old(notes)@);
            return Ok(None);
        },
    };
    let word = snake_case(param.name.as_str());
    let plain = match ident(word.as_str()) {
        Some(plain) => plain,
        None => {
            let mut text: Vec<char> = Vec::new();
            append_str(&mut text, "parameter `");
            append_str(&mut text, param.name.as_str());
            append_str(&mut text, "` has no spelling as a Rust identifier");
            return Err(string_of(text.as_slice()));
        },
    };
    let mut carries: Vec<char> = Vec::new();
    append_str(&mut carries, "sends the document's `");
    append_str(&mut carries, param.name.as_str());
    append_str(&mut carries, "`");
    let carries = string_of(carries.as_slice());
    let bound = argument(names, notes, plain.as_str(), word.as_str(), carries.as_str());
    let shape = if join.is_some() {
        ArgShape::List
    } else if param.required {
        ArgShape::Required
    } else {
        ArgShape::Optional
    };
    Ok(Some(WrapperArg { bound, wire: param.name.clone(), shape }))
}

/// The Rust value a scalar schema is taken as: a component's own type, or
/// one of the four scalars.
#[derive(Debug)]
pub enum Spelling {
    Named(String),
    Str,
    Integer,
    Number,
    Boolean,
}

/// Why a schema has no scalar spelling, or which spelling it has: a
/// reference names a component's type; a `type:` schema spells its scalar;
/// an object or array is no scalar; anything else has no spelling.
pub open spec fn scalar_spelled(schema: SchemaRef, r: Result<Spelling, String>) -> bool {
    match schema {
        SchemaRef::Ref(t) => match key_in(t@, "#/components/schemas/"@) {
            Some(k) => r matches Ok(Spelling::Named(n)) && n@ == k,
            None => r matches Err(m) && m@ == "only `#/components/schemas/` references are followed"@,
        },
        SchemaRef::Item(s) => match s.kind {
            KindSpec::Str { .. } => r matches Ok(Spelling::Str),
            KindSpec::Integer { .. } => r matches Ok(Spelling::Integer),
            KindSpec::Number { .. } => r matches Ok(Spelling::Number),
            KindSpec::Boolean => r matches Ok(Spelling::Boolean),
            KindSpec::Object { .. } => r matches Err(m) && m@ == "not a scalar"@,
            KindSpec::Array { .. } => r matches Err(m) && m@ == "not a scalar"@,
            _ => r matches Err(m) && m@ == "only `type:` schemas have a scalar spelling"@,
        },
    }
}

/// The Rust value one value of `schema` is taken as.
pub fn scalar_spelling(schema: &SchemaRef) -> (r: Result<Spelling, String>)
    ensures
        scalar_spelled(*schema, r),
{
    match schema {
        SchemaRef::Ref(t) => match strip(t.as_str(), "#/components/schemas/") {
            Some(k) => Ok(Spelling::Named(k)),
            None => Err("only `#/components/schemas/` references are followed".to_owned()),
        },
        SchemaRef::Item(s) => match &s.kind {
            KindSpec::Str { .. } => Ok(Spelling::Str),
            KindSpec::Integer { .. } => Ok(Spelling::Integer),
            KindSpec::Number { .. } => Ok(Spelling::Number),
            KindSpec::Boolean => Ok(Spelling::Boolean),
            KindSpec::Object { .. } => Err("not a scalar".to_owned()),
            KindSpec::Array { .. } => Err("not a scalar".to_owned()),
            _ => Err("only `type:` schemas have a scalar spelling".to_owned()),
        },
    }
}

/// The Rust value each value of a list parameter `name` is taken as: what its
/// inline array's `items` spell.
pub fn list_spelling(name: &str, schema: &SchemaRef) -> (r: Result<Spelling, String>)
    ensures
        match schema {
            SchemaRef::Item(s) => match s.kind {
                KindSpec::Array { items: Some(it) } => scalar_spelled(it, r),
                KindSpec::Array { items: None } => r matches Err(m) && m@ == "`"@ + name@
                    + "` is an array declaring no `items`"@,
                _ => r matches Err(m) && m@ == "`"@ + name@ + "` is a list that is not an array"@,
            },
            SchemaRef::Ref(_) => r matches Err(m) && m@ == "`"@ + name@
                + "` is a list, and a list parameter must declare `items` inline"@,
        },
{
    let mut text: Vec<char> = Vec::new();
    append_str(&mut text, "`");
    append_str(&mut text, name);
    match schema {
        SchemaRef::Item(s) => match &s.kind {
            KindSpec::Array { items: Some(it) } => scalar_spelling(it),
            KindSpec::Array { items: None } => {
                append_str(&mut text, "` is an array declaring no `items`");
                Err(string_of(text.as_slice()))
            },
            _ => {
                append_str(&mut text, "` is a list that is not an array");
                Err(string_of(text.as_slice()))
            },
        },
        SchemaRef::Ref(_) => {
            append_str(&mut text, "` is a list, and a list parameter must declare `items` inline");
            Err(string_of(text.as_slice()))
        },
    }
}

} // verus!
