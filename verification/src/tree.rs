//! What a command tree says about the operations it mounts: which operations
//! go under which group, the long help of each subcommand, the help line of
//! each flag, and how a `NAME=VALUE` part argument is read.
//!
//! The tree itself is built by a command-line parser; everything it shows a
//! user is decided here.

use vstd::prelude::*;

use crate::model::{method_name, sentence_of, Base, Body, Document, Effect, Gate, Operation, Param, Shape};
use crate::plan::{confirmed_by, Answers, Plan, PlanError};
use crate::request::{admits, refused, value_error_text};
use crate::model::FIELD_PART;
use crate::values::{file_name, file_name_of, pair_view, Part, PartView, Payload, Values};
use crate::names::CommandName;
use crate::json::Json;
use crate::model::Field;
use crate::scalar::{accepts, integer_of, note_text, Scalar};
use crate::text::{append_chars, append_str, chars_of, find_char, index_of, joined, string_of};

verus! {

/// The text the long help opens with: the description, else the summary.
pub open spec fn lead_text(op: Operation) -> Seq<char> {
    match op.description {
        Some(d) => d@ + "\n\n"@,
        None => match op.summary {
            Some(s) => s@ + "\n\n"@,
            None => Seq::<char>::empty(),
        },
    }
}

/// The long-help sentences for every parameter with no flag, in order.
pub open spec fn flagless_text(params: Seq<Param>) -> Seq<char>
    decreases params.len(),
{
    if params.len() == 0 {
        seq![]
    } else {
        flagless_text(params.drop_last()) + match params.last().shape {
            Shape::Unreachable(why) => "\n\n`"@ + params.last().name@ + "` has no flag: it is "@
                + sentence_of(why) + ". The request goes out without it."@,
            Shape::Flag { .. } => Seq::<char>::empty(),
        }
    }
}

/// The long help: what the document says, then the wire request this
/// subcommand stands for, whether it writes, which gates it stands behind, and
/// every parameter it cannot supply.
pub open spec fn long_about_text(op: Operation) -> Seq<char> {
    lead_text(op) + method_name(op.method) + " "@ + op.path@ + "  (operationId: "@ + op.id@ + ")"@
        + (if op.effect is Write {
        "\n\nThis operation writes. Without --commit it is a dry run."@
    } else {
        Seq::<char>::empty()
    }) + (if op.gates@.len() > 0 {
        "\n\nNamed gates: "@ + joined(op.gates@.map_values(|g: Gate| "--"@ + g@), ", "@)
            + ". Each one is required, and demanded in addition to --commit."@
    } else {
        Seq::<char>::empty()
    }) + flagless_text(op.params@)
}

/// The long help: what the document says, then the wire request this
/// subcommand stands for, so an agent can see the method and path without
/// opening the document.
pub fn long_about(op: &Operation) -> (out: String)
    ensures
        out@ == long_about_text(*op),
{
    let mut out: Vec<char> = Vec::new();
    match op.description() {
        Some(text) => {
            append_str(&mut out, text);
            append_str(&mut out, "\n\n");
        },
        None => match op.summary() {
            Some(text) => {
                append_str(&mut out, text);
                append_str(&mut out, "\n\n");
            },
            None => {},
        },
    }
    append_str(&mut out, op.method().as_str());
    append_str(&mut out, " ");
    append_str(&mut out, op.path());
    append_str(&mut out, "  (operationId: ");
    append_str(&mut out, op.id());
    append_str(&mut out, ")");
    match op.effect() {
        Effect::Write => append_str(
            &mut out,
            "\n\nThis operation writes. Without --commit it is a dry run.",
        ),
        Effect::Read => {},
    }
    let gates = op.gates();
    if gates.len() > 0 {
        let mut named: Vec<String> = Vec::new();
        let mut i: usize = 0;
        while i < gates.len()
            invariant
                i <= gates@.len(),
                named@.len() == i,
                forall|j: int| 0 <= j < i ==> (#[trigger] named@[j])@ == "--"@ + gates@[j]@,
            decreases gates.len() - i,
        {
            let mut one: Vec<char> = Vec::new();
            append_str(&mut one, "--");
            append_str(&mut one, gates[i].as_str());
            named.push(string_of(one.as_slice()));
            i += 1;
        }
        assert(named@.map_values(|s: String| s@) =~= gates@.map_values(|g: Gate| "--"@ + g@));
        append_str(&mut out, "\n\nNamed gates: ");
        let list = crate::text::join_strings(named.as_slice(), ", ");
        append_chars(&mut out, list.as_slice());
        append_str(&mut out, ". Each one is required, and demanded in addition to --commit.");
    }
    let ghost lead = out@;
    let params = op.params();
    let mut k: usize = 0;
    while k < params.len()
        invariant
            k <= params@.len(),
            params@ == op.params@,
            out@ == lead + flagless_text(params@.take(k as int)),
        decreases params.len() - k,
    {
        match params[k].shape() {
            Shape::Unreachable(why) => {
                append_str(&mut out, "\n\n`");
                append_str(&mut out, params[k].name());
                append_str(&mut out, "` has no flag: it is ");
                let sentence = why.sentence();
                append_str(&mut out, sentence.as_str());
                append_str(&mut out, ". The request goes out without it.");
            },
            Shape::Flag { .. } => {},
        }
        proof {
            assert(params@.take(k + 1).drop_last() =~= params@.take(k as int));
            assert(params@.take(k + 1).last() == params@[k as int]);
        }
        k += 1;
    }
    assert(params@.take(params@.len() as int) =~= params@);
    string_of(out.as_slice())
}

/// The notes one flag's help line carries: what its kind says, then the
/// others given.
pub open spec fn notes_of(scalar: Scalar, extra: Seq<Seq<char>>) -> Seq<Seq<char>> {
    match note_text(scalar) {
        Some(n) => seq![n] + extra,
        None => extra,
    }
}

/// One flag's help line: the description, with the notes in brackets after
/// it; the notes alone where there is no description; nothing where there is
/// neither.
pub open spec fn help_text(description: Option<Seq<char>>, notes: Seq<Seq<char>>) -> Option<Seq<char>> {
    match description {
        Some(text) => if notes.len() == 0 {
            Some(text)
        } else {
            Some(text + " ("@ + joined(notes, "; "@) + ")"@)
        },
        None => if notes.len() == 0 {
            None
        } else {
            Some(joined(notes, "; "@))
        },
    }
}

/// One flag's help line.
pub fn help_line(description: Option<&str>, scalar: &Scalar, extra: Vec<String>) -> (r: Option<
    String,
>)
    ensures
        match help_text(
            match description {
                Some(d) => Some(d@),
                None => None,
            },
            notes_of(*scalar, extra@.map_values(|s: String| s@)),
        ) {
            Some(t) => r matches Some(s) && s@ == t,
            None => r is None,
        },
{
    let ghost more = extra@.map_values(|s: String| s@);
    let mut notes: Vec<String> = Vec::new();
    match scalar.note() {
        Some(n) => {
            notes.push(n);
            assert(notes@.map_values(|s: String| s@) =~= seq![n@]);
        },
        None => {
            assert(notes@.map_values(|s: String| s@) =~= Seq::<Seq<char>>::empty());
        },
    }
    let ghost first = notes@.map_values(|s: String| s@);
    let mut rest = extra;
    notes.append(&mut rest);
    assert(notes@.map_values(|s: String| s@) =~= first + more);
    assert(notes@.map_values(|s: String| s@) =~= notes_of(*scalar, more));
    let described = match description {
        Some(d) => Some(d),
        None => None,
    };
    if notes.len() == 0 {
        return match described {
            Some(text) => Some(text.to_owned()),
            None => None,
        };
    }
    let list = crate::text::join_strings(notes.as_slice(), "; ");
    match described {
        Some(text) => {
            let mut out = chars_of(text);
            append_str(&mut out, " (");
            append_chars(&mut out, list.as_slice());
            append_str(&mut out, ")");
            Some(string_of(out.as_slice()))
        },
        None => Some(string_of(list.as_slice())),
    }
}

/// The note a flag carries where its name is not the document's: the wire
/// name it sends.
pub fn wire(renamed: bool, name: &str) -> (r: Option<String>)
    ensures
        renamed ==> (r matches Some(s) && s@ == "sends `"@ + name@ + "`"@),
        !renamed ==> r is None,
{
    if renamed {
        let mut out: Vec<char> = Vec::new();
        append_str(&mut out, "sends `");
        append_str(&mut out, name);
        append_str(&mut out, "`");
        Some(string_of(out.as_slice()))
    } else {
        None
    }
}

/// A `--file` or `--field` argument that is not `NAME=VALUE`.
#[derive(Debug, Clone, PartialEq, Eq)]
pub struct PartSyntax {
    pub flag: &'static str,
    pub raw: String,
}

impl PartSyntax {
    /// `` `--flag raw` is not `NAME=VALUE` ``.
    pub fn message(&self) -> (out: String)
        ensures
            out@ == "`--"@ + self.flag@ + " "@ + self.raw@ + "` is not `NAME=VALUE`"@,
    {
        let mut out: Vec<char> = Vec::new();
        append_str(&mut out, "`--");
        append_str(&mut out, self.flag);
        append_str(&mut out, " ");
        append_str(&mut out, self.raw.as_str());
        append_str(&mut out, "` is not `NAME=VALUE`");
        string_of(out.as_slice())
    }
}

/// `NAME=REST`, split at the first `=` so a value may contain more; refused
/// where there is no `=` or nothing before it.
pub fn split_part(flag: &'static str, raw: &str) -> (r: Result<(String, String), PartSyntax>)
    ensures
        match index_of(raw@, '=') {
            Some(k) => if k > 0 {
                r matches Ok(p) && p.0@ == raw@.take(k) && p.1@ == raw@.skip(k + 1)
            } else {
                r matches Err(e) && e.flag == flag && e.raw@ == raw@
            },
            None => r matches Err(e) && e.flag == flag && e.raw@ == raw@,
        },
{
    let chars = chars_of(raw);
    let n = chars.len();
    match find_char(chars.as_slice(), '=') {
        Some(k) => {
            proof {
                crate::text::lemma_index_of_bound(chars@, '=');
            }
            if k == 0 {
                return Err(PartSyntax { flag, raw: raw.to_owned() });
            }
            let mut name: Vec<char> = Vec::new();
            let mut i: usize = 0;
            while i < k
                invariant
                    i <= k < n,
                    n == chars@.len(),
                    name@ == chars@.take(i as int),
                decreases k - i,
            {
                name.push(chars[i]);
                assert(chars@.take(i + 1) =~= chars@.take(i as int).push(chars@[i as int]));
                i += 1;
            }
            let mut rest: Vec<char> = Vec::new();
            let mut j: usize = k + 1;
            while j < n
                invariant
                    k + 1 <= j <= n,
                    n == chars@.len(),
                    rest@ == chars@.subrange(k + 1, j as int),
                decreases n - j,
            {
                rest.push(chars[j]);
                j += 1;
            }
            assert(rest@ =~= chars@.skip(k + 1));
            Ok((string_of(name.as_slice()), string_of(rest.as_slice())))
        },
        None => Err(PartSyntax { flag, raw: raw.to_owned() }),
    }
}

/// The operations under each group: one entry per group, in the order a
/// group first appears, each holding its operations in document order.
pub open spec fn grouped_spec(ops: Seq<Operation>) -> Seq<(Seq<char>, Seq<Operation>)>
    decreases ops.len(),
{
    if ops.len() == 0 {
        seq![]
    } else {
        let before = grouped_spec(ops.drop_last());
        let op = ops.last();
        if exists|i: int| 0 <= i < before.len() && (#[trigger] before[i]).0 == op.group@ {
            let i = choose|i: int| 0 <= i < before.len() && (#[trigger] before[i]).0 == op.group@;
            before.update(i, (before[i].0, before[i].1.push(op)))
        } else {
            before.push((op.group@, seq![op]))
        }
    }
}

/// One group's operations as the contracts read them.
pub open spec fn group_view<'d>(g: (&'d CommandName, Vec<&'d Operation>)) -> (Seq<char>, Seq<Operation>) {
    (g.0@, g.1@.map_values(|op: &Operation| *op))
}

/// The groups of the names in `gs` are all different.
pub open spec fn distinct_groups(gs: Seq<(Seq<char>, Seq<Operation>)>) -> bool {
    forall|i: int, j: int| 0 <= i < j < gs.len() ==> (#[trigger] gs[i]).0 != (#[trigger] gs[j]).0
}

/// Every group keeps a name of its own.
proof fn lemma_grouped_distinct(ops: Seq<Operation>)
    ensures
        distinct_groups(grouped_spec(ops)),
    decreases ops.len(),
{
    if ops.len() > 0 {
        lemma_grouped_distinct(ops.drop_last());
    }
}

/// One subcommand per group, in document order, each holding the operations
/// under it in document order.
pub fn grouped(doc: &Document) -> (out: Vec<(&CommandName, Vec<&Operation>)>)
    ensures
        out@.map_values(|g: (&CommandName, Vec<&Operation>)| group_view(g)) == grouped_spec(
            doc.ops@,
        ),
{
    let ops = doc.operations();
    let mut out: Vec<(&CommandName, Vec<&Operation>)> = Vec::new();
    let mut i: usize = 0;
    while i < ops.len()
        invariant
            i <= ops@.len(),
            ops@ == doc.ops@,
            out@.map_values(|g: (&CommandName, Vec<&Operation>)| group_view(g)) == grouped_spec(
                ops@.take(i as int),
            ),
        decreases ops.len() - i,
    {
        let op = &ops[i];
        let ghost before = out@.map_values(|g: (&CommandName, Vec<&Operation>)| group_view(g));
        proof {
            assert(ops@.take(i + 1).drop_last() =~= ops@.take(i as int));
            assert(ops@.take(i + 1).last() == *op);
            lemma_grouped_distinct(ops@.take(i as int));
        }
        let mut k: usize = 0;
        while k < out.len() && !out[k].0.same(op.group())
            invariant
                k <= out@.len(),
                before == out@.map_values(|g: (&CommandName, Vec<&Operation>)| group_view(g)),
                forall|j: int| 0 <= j < k ==> (#[trigger] before[j]).0 != op.group@,
            decreases out.len() - k,
        {
            k += 1;
        }
        if k < out.len() {
            let (name, mut under) = out.remove(k);
            let ghost under_before = under@;
            under.push(op);
            out.insert(k, (name, under));
            proof {
                assert(before[k as int].0 == op.group@);
                let c = choose|c: int| 0 <= c < before.len() && (#[trigger] before[c]).0 == op.group@;
                assert(c == k) by {
                    if c != k {
                        if c < k {
                            assert(before[c].0 != op.group@);
                        } else {
                            assert(distinct_groups(before));
                            assert(before[k as int].0 != before[c].0);
                        }
                    }
                }
                assert(under@.map_values(|op: &Operation| *op) =~= under_before.map_values(
                    |op: &Operation| *op,
                ).push(*op));
                assert(out@.map_values(|g: (&CommandName, Vec<&Operation>)| group_view(g))
                    =~= before.update(k as int, (before[k as int].0, before[k as int].1.push(*op))));
            }
        } else {
            let mut under: Vec<&Operation> = Vec::new();
            under.push(op);
            out.push((op.group(), under));
            proof {
                assert(under@.map_values(|op: &Operation| *op) =~= seq![*op]);
                assert(out@.map_values(|g: (&CommandName, Vec<&Operation>)| group_view(g))
                    =~= before.push((op.group@, seq![*op])));
            }
        }
        i += 1;
    }
    assert(ops@.take(ops@.len() as int) =~= ops@);
    out
}

/// The gates of `gates` whose flag is among `given`, in the order the
/// operation names them.
pub open spec fn answered_gates(gates: Seq<Gate>, given: Seq<Seq<char>>) -> Seq<Seq<char>>
    decreases gates.len(),
{
    if gates.len() == 0 {
        Seq::empty()
    } else {
        answered_gates(gates.drop_last(), given) + if given.contains(gates.last()@) {
            seq![gates.last()@]
        } else {
            Seq::empty()
        }
    }
}

/// A gate counts as answered exactly when the operation names it and its flag
/// was given; a flag the operation does not name answers nothing.
pub proof fn lemma_answered_gates(gates: Seq<Gate>, given: Seq<Seq<char>>, word: Seq<char>)
    ensures
        answered_gates(gates, given).contains(word) <==> (given.contains(word) && exists|i: int|
            0 <= i < gates.len() && (#[trigger] gates[i])@ == word),
    decreases gates.len(),
{
    if gates.len() > 0 {
        let rest = gates.drop_last();
        lemma_answered_gates(rest, given, word);
        let before = answered_gates(rest, given);
        let last = gates.last();
        let tail = if given.contains(last@) {
            seq![last@]
        } else {
            Seq::<Seq<char>>::empty()
        };
        assert(answered_gates(gates, given) == before + tail);
        if answered_gates(gates, given).contains(word) {
            let k = choose|k: int| 0 <= k < (before + tail).len() && (before + tail)[k] == word;
            if k < before.len() {
                assert(before.contains(word));
                let i = choose|i: int| 0 <= i < rest.len() && (#[trigger] rest[i])@ == word;
                assert(gates[i] == rest[i]);
            } else {
                assert(gates[gates.len() - 1]@ == word);
            }
        }
        if given.contains(word) && exists|i: int| 0 <= i < gates.len() && (#[trigger] gates[i])@ == word {
            let i = choose|i: int| 0 <= i < gates.len() && (#[trigger] gates[i])@ == word;
            if i < rest.len() {
                assert(rest[i] == gates[i]);
                assert(before.contains(word));
                let k = choose|k: int| 0 <= k < before.len() && before[k] == word;
                assert((before + tail)[k] == word);
            } else {
                assert(tail == seq![word]);
                assert((before + tail)[before.len() as int] == word);
            }
        }
    }
}

/// What a command line answered to the write check, from the switches it was given:
/// nothing for a read, which is asked nothing; for a write, the confirmation
/// where the operation's confirmation word is among them, and each gate the
/// operation names whose word is.
pub fn answers(op: &Operation, given: &[String]) -> (r: Answers)
    ensures
        r.committed() == (op.effect is Write && given@.map_values(|s: String| s@).contains(op.commit@)),
        r.named() == if op.effect is Write {
            answered_gates(op.gates@, given@.map_values(|s: String| s@))
        } else {
            Seq::<Seq<char>>::empty()
        },
{
    let ghost words = given@.map_values(|s: String| s@);
    if let Effect::Read = op.effect() {
        return Answers::new();
    }
    let mut answered = Answers::new();
    if carried(given, op.commit()) {
        answered = answered.commit();
    }
    let gates = op.gates();
    let mut i: usize = 0;
    while i < gates.len()
        invariant
            i <= gates@.len(),
            gates@ == op.gates@,
            words == given@.map_values(|s: String| s@),
            answered.committed() == words.contains(op.commit@),
            answered.named() == answered_gates(gates@.take(i as int), words),
        decreases gates.len() - i,
    {
        proof {
            assert(gates@.take(i + 1).drop_last() =~= gates@.take(i as int));
            assert(gates@.take(i + 1).last() == gates@[i as int]);
        }
        if carried(given, gates[i].as_str()) {
            answered = answered.gate(gates[i].as_str());
        } else {
            assert(answered_gates(gates@.take(i + 1), words) =~= answered_gates(gates@.take(i as int), words));
        }
        i += 1;
    }
    assert(gates@.take(gates@.len() as int) =~= gates@);
    answered
}

/// The write check reads what was typed and nothing else: a write read off a command
/// line is let through exactly when its confirmation word and the word of
/// every gate it names were all typed. A switch the operation does not name
/// answers none of its gates.
pub proof fn lemma_typed_switches_decide(op: Operation, given: Seq<Seq<char>>)
    ensures
        confirmed_by(op, given.contains(op.commit@), answered_gates(op.gates@, given)) <==> (
        given.contains(op.commit@) && forall|i: int|
            0 <= i < op.gates@.len() ==> given.contains(#[trigger] op.gates@[i]@)),
{
    let named = answered_gates(op.gates@, given);
    assert forall|i: int| 0 <= i < op.gates@.len() implies (named.contains(
        #[trigger] op.gates@[i]@,
    ) <==> given.contains(op.gates@[i]@)) by {
        lemma_answered_gates(op.gates@, given, op.gates@[i]@);
    }
}

/// Whether `word` is among the switches given.
fn carried(given: &[String], word: &str) -> (r: bool)
    ensures
        r == given@.map_values(|s: String| s@).contains(word@),
{
    let ghost words = given@.map_values(|s: String| s@);
    let mut i: usize = 0;
    while i < given.len()
        invariant
            i <= given@.len(),
            words == given@.map_values(|s: String| s@),
            forall|j: int| 0 <= j < i ==> #[trigger] words[j] != word@,
        decreases given.len() - i,
    {
        if crate::text::str_is(given[i].as_str(), word) {
            assert(words[i as int] == word@);
            return true;
        }
        i += 1;
    }
    false
}

/// The raw values given for one flag, in the order they were typed.
pub open spec fn raws_for(given: Seq<(Seq<char>, Seq<char>)>, flag: Seq<char>) -> Seq<Seq<char>>
    decreases given.len(),
{
    if given.len() == 0 {
        Seq::empty()
    } else {
        raws_for(given.drop_last(), flag) + if given.last().0 == flag {
            seq![given.last().1]
        } else {
            Seq::empty()
        }
    }
}

/// The values every parameter's flag carried, under the parameter's own
/// name: parameter by parameter, each flag's values in the order typed.
pub open spec fn flag_values(params: Seq<Param>, given: Seq<(Seq<char>, Seq<char>)>) -> Seq<
    (Seq<char>, Seq<char>),
>
    decreases params.len(),
{
    if params.len() == 0 {
        Seq::empty()
    } else {
        let p = params.last();
        flag_values(params.drop_last(), given) + match p.shape {
            Shape::Flag { flag, .. } => raws_for(given, flag@).map_values(
                |raw: Seq<char>| (p.name@, raw),
            ),
            Shape::Unreachable(_) => Seq::empty(),
        }
    }
}

/// One operation's arguments under the names the document uses: `given`
/// holds each flag typed with its raw value, and `body` what the body flags
/// produced. A flag no parameter grows carries nothing here.
pub fn values(op: &Operation, given: &[(String, String)], body: Option<Payload>) -> (r: Values)
    ensures
        r.sent() == flag_values(op.params@, given@.map_values(|p: (String, String)| pair_view(p))),
        r.carried() == body,
{
    let ghost pairs = given@.map_values(|p: (String, String)| pair_view(p));
    let params = op.params();
    let mut out = Values::new();
    let mut i: usize = 0;
    while i < params.len()
        invariant
            i <= params@.len(),
            params@ == op.params@,
            pairs == given@.map_values(|p: (String, String)| pair_view(p)),
            out.sent() == flag_values(params@.take(i as int), pairs),
            out.carried() is None,
        decreases params.len() - i,
    {
        let param = &params[i];
        proof {
            assert(params@.take(i + 1).drop_last() =~= params@.take(i as int));
            assert(params@.take(i + 1).last() == *param);
        }
        match param.shape() {
            Shape::Flag { flag, .. } => {
                let ghost start = out.sent();
                let mut j: usize = 0;
                while j < given.len()
                    invariant
                        j <= given@.len(),
                        pairs == given@.map_values(|p: (String, String)| pair_view(p)),
                        out.sent() == start + raws_for(pairs.take(j as int), flag@).map_values(
                            |raw: Seq<char>| (param.name@, raw),
                        ),
                        out.carried() is None,
                    decreases given.len() - j,
                {
                    proof {
                        assert(pairs.take(j + 1).drop_last() =~= pairs.take(j as int));
                        assert(pairs.take(j + 1).last() == pairs[j as int]);
                    }
                    if crate::text::str_is(given[j].0.as_str(), flag.as_str()) {
                        out = out.param(param.name(), given[j].1.as_str());
                        assert(raws_for(pairs.take(j + 1), flag@).map_values(
                            |raw: Seq<char>| (param.name@, raw),
                        ) =~= raws_for(pairs.take(j as int), flag@).map_values(
                            |raw: Seq<char>| (param.name@, raw),
                        ).push((param.name@, given@[j as int].1@)));
                    } else {
                        assert(raws_for(pairs.take(j + 1), flag@) =~= raws_for(pairs.take(j as int), flag@));
                    }
                    j += 1;
                }
                assert(pairs.take(pairs.len() as int) =~= pairs);
                assert(out.sent() =~= flag_values(params@.take(i + 1), pairs));
            },
            Shape::Unreachable(_) => {
                assert(flag_values(params@.take(i + 1), pairs) =~= flag_values(params@.take(i as int), pairs));
            },
        }
        i += 1;
    }
    assert(params@.take(params@.len() as int) =~= params@);
    out.body(body)
}

/// Why an operation the user named did not run.
#[derive(Debug)]
pub enum DispatchError {
    /// The command line named no group, or no operation under it.
    NoCommand,
    /// The two names match no operation of the document.
    Unknown { group: String, command: String },
    /// The values did not make a request.
    Plan(PlanError),
}

impl DispatchError {
    /// The sentence this error is reported in.
    pub fn message(&self) -> (out: String)
        ensures
            self is NoCommand ==> out@ == "no command given"@,
            self matches DispatchError::Unknown { group, command } ==> out@ == "no operation named `"@
                + group@ + " "@ + command@ + "` in the document"@,
            self matches DispatchError::Plan(PlanError::Value(e)) ==> out@ == value_error_text(*e),
            self matches DispatchError::Plan(PlanError::Request(e)) ==> out@ == "cannot build the request: "@
                + crate::plan::http_error_written(*e),
    {
        match self {
            DispatchError::NoCommand => "no command given".to_owned(),
            DispatchError::Unknown { group, command } => {
                let mut out: Vec<char> = Vec::new();
                append_str(&mut out, "no operation named `");
                append_str(&mut out, group.as_str());
                append_str(&mut out, " ");
                append_str(&mut out, command.as_str());
                append_str(&mut out, "` in the document");
                string_of(out.as_slice())
            },
            DispatchError::Plan(e) => e.message(),
        }
    }
}

/// One operation the user named, with its arguments read and its gate
/// answered: everything needed to send it, and nothing sent yet. This is the
/// seam a caller puts a check of their own into; [`Selection::plan`] is its
/// one way on, and consumes it, so the request is built once.
#[derive(Debug)]
pub struct Selection<'d> {
    operation: &'d Operation,
    values: Values,
    answers: Answers,
}

impl<'d> Selection<'d> {
    /// The operation this selection runs.
    pub closed spec fn chosen(&self) -> Operation {
        *self.operation
    }

    /// The arguments it carries.
    pub closed spec fn sent(&self) -> Seq<(Seq<char>, Seq<char>)> {
        self.values.sent()
    }

    /// The body it carries.
    pub closed spec fn carried(&self) -> Option<Payload> {
        self.values.carried()
    }

    /// Whether it was confirmed.
    pub closed spec fn committed(&self) -> bool {
        self.answers.committed()
    }

    /// The gates answered.
    pub closed spec fn named(&self) -> Seq<Seq<char>> {
        self.answers.named()
    }

    pub fn new(operation: &'d Operation, values: Values, answers: Answers) -> (r: Self)
        ensures
            r.chosen() == *operation,
            r.sent() == values.sent(),
            r.carried() == values.carried(),
            r.committed() == answers.committed(),
            r.named() == answers.named(),
    {
        Selection { operation, values, answers }
    }

    /// The operation the subcommand named.
    pub fn operation(&self) -> (r: &'d Operation)
        ensures
            *r == self.chosen(),
    {
        self.operation
    }

    /// The arguments, under the document's own names rather than the flags
    /// they arrived as.
    pub fn values(&self) -> (r: &Values)
        ensures
            r.sent() == self.sent(),
            r.carried() == self.carried(),
    {
        &self.values
    }

    /// What the user answered to the write check.
    pub fn answers(&self) -> (r: &Answers)
        ensures
            r.committed() == self.committed(),
            r.named() == self.named(),
    {
        &self.answers
    }

    /// Build the request and judge it, with nothing sent: the
    /// request goes where it is a read, or a write confirmed with every gate
    /// the operation names answered beside the confirmation; any other write
    /// is a dry run of the same request.
    pub fn plan(self, base: &Base) -> (r: Result<Plan, DispatchError>)
        ensures
            r is Ok || (r matches Err(DispatchError::Plan(_))),
            (r matches Err(DispatchError::Plan(PlanError::Value(_)))) <==> !admits(
                self.chosen(),
                self.sent(),
                self.carried(),
            ),
            r matches Err(DispatchError::Plan(PlanError::Value(e))) ==> refused(
                self.chosen(),
                self.sent(),
                self.carried(),
                e,
            ),
            r matches Ok(plan) ==> (plan is Send <==> (self.chosen().effect == Effect::Read
                || confirmed_by(self.chosen(), self.committed(), self.named()))),
            r matches Ok(plan) ==> crate::plan::planned(plan) == crate::request::http_request(
                crate::model::method_name(self.chosen().method),
                crate::request::url_text(self.chosen(), self.sent(), *base),
                crate::request::wire_headers(self.chosen(), self.sent(), self.carried()),
                crate::request::body_bytes_for(self.chosen(), self.carried()),
            ),
    {
        let confirmed = self.answers.confirms(self.operation);
        match Plan::build(self.operation, base, self.values, confirmed) {
            Ok(plan) => Ok(plan),
            Err(e) => Err(DispatchError::Plan(e)),
        }
    }
}

/// What one subcommand was asked for: to run its operation, or what its body
/// looks like.
#[derive(Debug)]
pub enum Asked<'d> {
    /// Run this operation.
    Run(&'d Operation),
    /// `--json-body-template`: the skeleton of the JSON body, borrowed from the
    /// reduced model that carries it. Nothing is read, built or sent for it.
    Template(&'d str),
}

/// The first operation of `ops` the two names select.
pub open spec fn selects(ops: Seq<Operation>, group: Seq<char>, command: Seq<char>, i: int) -> bool {
    &&& 0 <= i < ops.len()
    &&& ops[i].group@ == group && ops[i].command@ == command
    &&& forall|j: int|
        0 <= j < i ==> !((#[trigger] ops[j]).group@ == group && ops[j].command@ == command)
}

/// The skeleton an operation's body keeps, where it keeps one.
pub open spec fn kept_template(op: Operation) -> Option<Seq<char>> {
    match op.body {
        Body::JsonWhole { template: Some(t), .. } => Some(t@),
        _ => None,
    }
}

/// Read the two names the user typed: the group, then the operation under it.
/// Where the user also asked what the body looks like and the body keeps a
/// skeleton, the answer is that skeleton and the operation does not run.
pub fn select<'d>(doc: &'d Document, group: Option<&str>, command: Option<&str>, template: bool) -> (r:
    Result<Asked<'d>, DispatchError>)
    ensures
        (group is None || command is None) ==> (r matches Err(DispatchError::NoCommand)),
        group matches Some(g) ==> command matches Some(c) ==> {
            &&& (r matches Err(DispatchError::Unknown { .. })) <==> !exists|i: int|
                selects(doc.ops@, g@, c@, i)
            &&& (r matches Err(DispatchError::Unknown { group: eg, command: ec }) ==> eg@ == g@
                && ec@ == c@)
            &&& (r matches Ok(Asked::Run(op)) ==> !template || kept_template(*op) is None)
            &&& (r matches Ok(Asked::Run(op)) ==> exists|i: int|
                selects(doc.ops@, g@, c@, i) && doc.ops@[i] == *op)
            &&& (r matches Ok(Asked::Template(t)) ==> template && exists|i: int|
                selects(doc.ops@, g@, c@, i) && kept_template(doc.ops@[i]) == Some(t@))
            &&& (r is Ok || (r matches Err(DispatchError::Unknown { .. })))
        },
{
    let (group, command) = match (group, command) {
        (Some(g), Some(c)) => (g, c),
        _ => return Err(DispatchError::NoCommand),
    };
    let operation = match doc.by_command(group, command) {
        Some(op) => op,
        None => {
            proof {
                assert forall|i: int| !selects(doc.ops@, group@, command@, i) by {
                    if 0 <= i < doc.ops@.len() {
                        assert(!(doc.ops@[i].group@ == group@ && doc.ops@[i].command@ == command@));
                    }
                }
            }
            return Err(DispatchError::Unknown { group: group.to_owned(), command: command.to_owned() });
        },
    };
    let ghost at = choose|i: int|
        0 <= i < doc.ops@.len() && doc.ops@[i] == *operation && operation.group@ == group@
            && operation.command@ == command@ && forall|j: int|
            0 <= j < i ==> !((#[trigger] doc.ops@[j]).group@ == group@ && doc.ops@[j].command@
                == command@);
    assert(selects(doc.ops@, group@, command@, at));
    assert(doc.ops@[at] == *operation);
    if template {
        match operation.body() {
            Body::JsonWhole { template: Some(kept), .. } => {
                return Ok(Asked::Template(kept.as_str()));
            },
            _ => {},
        }
    }
    Ok(Asked::Run(operation))
}

/// Flags given with their raw values, by their characters.
pub open spec fn pairs_of(given: Seq<(String, String)>) -> Seq<(Seq<char>, Seq<char>)> {
    given.map_values(|p: (String, String)| pair_view(p))
}

/// An object's entries, by their keys' characters.
pub open spec fn entries_view(entries: Seq<(String, Json)>) -> Seq<(Seq<char>, Json)> {
    entries.map_values(|e: (String, Json)| (e.0@, e.1))
}

/// The first place `key` stands in an object, if it stands anywhere.
pub open spec fn key_at(entries: Seq<(Seq<char>, Json)>, key: Seq<char>) -> Option<int> {
    if exists|i: int| 0 <= i < entries.len() && (#[trigger] entries[i]).0 == key {
        Some(
            choose|i: int|
                0 <= i < entries.len() && (#[trigger] entries[i]).0 == key && forall|j: int|
                    0 <= j < i ==> (#[trigger] entries[j]).0 != key,
        )
    } else {
        None
    }
}

/// `key` set to `value`: in place where the object has the key, appended
/// where it has not.
pub open spec fn put(entries: Seq<(Seq<char>, Json)>, key: Seq<char>, value: Json) -> Seq<
    (Seq<char>, Json),
> {
    match key_at(entries, key) {
        Some(i) => entries.update(i, (key, value)),
        None => entries.push((key, value)),
    }
}

/// Whether `value` is what a flag of this kind makes of `raw`: nothing where
/// the kind refuses it, and otherwise the JSON value [`Scalar::parse`] states.
pub open spec fn parsed(scalar: Scalar, raw: Seq<char>, value: Option<Json>) -> bool {
    &&& (value is Some <==> accepts(scalar, raw))
    &&& (value matches Some(j) ==> match scalar {
        Scalar::Integer => j matches Json::Integer(n) && Some(n as int) == integer_of(raw),
        Scalar::Number => j is Number,
        Scalar::Boolean => j matches Json::Bool(b) && b == (raw == "true"@),
        _ => j matches Json::String(t) && t@ == raw,
    })
}

/// The object the per-field flags leave, merged in field order over
/// `entries`: a field whose flag was given and whose value was accepted sets
/// its key, `values` holding what each field's value became.
pub open spec fn merged(
    entries: Seq<(Seq<char>, Json)>,
    fields: Seq<Field>,
    given: Seq<(Seq<char>, Seq<char>)>,
    values: Seq<Option<Json>>,
) -> Seq<(Seq<char>, Json)>
    decreases fields.len(),
{
    if fields.len() == 0 || values.len() == 0 {
        entries
    } else {
        let before = merged(entries, fields.drop_last(), given, values.drop_last());
        let field = fields.last();
        if raws_for(given, field.flag@).len() > 0 {
            match values.last() {
                Some(v) => put(before, field.name@, v),
                None => before,
            }
        } else {
            before
        }
    }
}

/// What each field's flag was given, and what its kind made of it.
pub open spec fn read_fields(
    fields: Seq<Field>,
    given: Seq<(Seq<char>, Seq<char>)>,
    values: Seq<Option<Json>>,
) -> bool {
    &&& values.len() == fields.len()
    &&& forall|i: int|
        0 <= i < fields.len() && raws_for(given, fields[i].flag@).len() > 0 ==> parsed(
            fields[i].scalar,
            raws_for(given, fields[i].flag@)[0],
            #[trigger] values[i],
        )
}

/// The object a body's flags start from: the file's, or an empty one.
pub open spec fn start_entries(base: Option<Json>) -> Seq<(Seq<char>, Json)> {
    match base {
        Some(Json::Object(entries)) => entries_view(entries@),
        _ => Seq::empty(),
    }
}

/// Set `key` to `value` in an object.
fn put_entry(entries: &mut Vec<(String, Json)>, key: &str, value: Json)
    ensures
        entries_view(final(entries)@) == put(entries_view(old(entries)@), key@, value),
{
    let ghost before = entries_view(entries@);
    let mut i: usize = 0;
    while i < entries.len()
        invariant
            i <= entries@.len(),
            before == entries_view(entries@),
            before == entries_view(old(entries)@),
            forall|j: int| 0 <= j < i ==> (#[trigger] before[j]).0 != key@,
        decreases entries.len() - i,
    {
        if crate::text::str_is(entries[i].0.as_str(), key) {
            proof {
                assert(before[i as int].0 == key@);
                assert(0 <= i < before.len() && before[i as int].0 == key@ && forall|j: int|
                    0 <= j < i ==> (#[trigger] before[j]).0 != key@);
                let c = choose|c: int|
                    0 <= c < before.len() && (#[trigger] before[c]).0 == key@ && forall|j: int|
                        0 <= j < c ==> (#[trigger] before[j]).0 != key@;
                assert(c == i) by {
                    if c < i {
                        assert(before[c].0 != key@);
                    }
                    if c > i {
                        assert(before[i as int].0 != key@);
                    }
                }
                assert(key_at(before, key@) == Some(i as int));
            }
            entries[i] = (key.to_owned(), value);
            assert(entries_view(entries@) =~= before.update(i as int, (key@, value)));
            return ;
        }
        i += 1;
    }
    entries.push((key.to_owned(), value));
    assert(key_at(before, key@) is None);
    assert(entries_view(entries@) =~= before.push((key@, value)));
}

/// The first raw value given for one flag.
fn first_raw<'g>(given: &'g [(String, String)], flag: &str) -> (r: Option<&'g str>)
    ensures
        ({
            let raws = raws_for(given@.map_values(|p: (String, String)| pair_view(p)), flag@);
            &&& r is Some <==> raws.len() > 0
            &&& r matches Some(raw) ==> raw@ == raws[0]
        }),
{
    let ghost pairs = given@.map_values(|p: (String, String)| pair_view(p));
    let mut found: Option<&'g str> = None;
    let mut j: usize = 0;
    while j < given.len()
        invariant
            j <= given@.len(),
            pairs == given@.map_values(|p: (String, String)| pair_view(p)),
            found is Some <==> raws_for(pairs.take(j as int), flag@).len() > 0,
            found matches Some(raw) ==> raw@ == raws_for(pairs.take(j as int), flag@)[0],
        decreases given.len() - j,
    {
        proof {
            assert(pairs.take(j + 1).drop_last() =~= pairs.take(j as int));
            assert(pairs.take(j + 1).last() == pairs[j as int]);
        }
        if found.is_none() && crate::text::str_is(given[j].0.as_str(), flag) {
            found = Some(given[j].1.as_str());
        }
        j += 1;
    }
    assert(pairs.take(pairs.len() as int) =~= pairs);
    found
}

/// The body a flat JSON body's flags assemble: `--json-body` is the base
/// document, and each per-field flag given is merged over it in field order,
/// so a flag beside a file is an edit rather than a value dropped. A base that
/// is not an object is sent as it stands; a value a flag's kind refuses sets
/// nothing here, where the request builder refuses the body as a whole.
pub fn assembled(fields: &[Field], base: Option<Json>, given: &[(String, String)]) -> (r: Json)
    ensures
        base matches Some(b) ==> !(b is Object) ==> r == b,
        (base is None || base matches Some(Json::Object(_))) ==> exists|values: Seq<Option<Json>>|
            {
                &&& #[trigger] read_fields(fields@, pairs_of(given@), values)
                &&& r matches Json::Object(out) && entries_view(out@) == merged(
                    start_entries(base),
                    fields@,
                    pairs_of(given@),
                    values,
                )
            },
{
    let ghost pairs = given@.map_values(|p: (String, String)| pair_view(p));
    let ghost start = start_entries(base);
    let mut entries: Vec<(String, Json)> = match base {
        None => Vec::new(),
        Some(Json::Object(e)) => e,
        Some(other) => {
            return other;
        },
    };
    assert(entries_view(entries@) =~= start);
    let ghost mut values: Seq<Option<Json>> = Seq::empty();
    let mut i: usize = 0;
    while i < fields.len()
        invariant
            i <= fields@.len(),
            pairs == given@.map_values(|p: (String, String)| pair_view(p)),
            read_fields(fields@.take(i as int), pairs, values),
            entries_view(entries@) == merged(start, fields@.take(i as int), pairs, values),
        decreases fields.len() - i,
    {
        let field = &fields[i];
        proof {
            assert(fields@.take(i + 1).drop_last() =~= fields@.take(i as int));
            assert(fields@.take(i + 1).last() == *field);
        }
        let ghost before_values = values;
        match first_raw(given, field.flag()) {
            Some(raw) => match field.scalar().parse(raw) {
                Ok(v) => {
                    proof {
                        values = values.push(Some(v));
                    }
                    put_entry(&mut entries, field.name(), v);
                },
                Err(_) => {
                    proof {
                        values = values.push(None);
                    }
                },
            },
            None => {
                proof {
                    values = values.push(None);
                }
            },
        }
        proof {
            assert(values.drop_last() =~= before_values);
            assert forall|k: int|
                0 <= k < i + 1 && raws_for(pairs, fields@.take(i + 1)[k].flag@).len() > 0 implies parsed(
                fields@.take(i + 1)[k].scalar,
                raws_for(pairs, fields@.take(i + 1)[k].flag@)[0],
                #[trigger] values[k],
            ) by {
                if k < i {
                    assert(fields@.take(i + 1)[k] == fields@.take(i as int)[k]);
                    assert(values[k] == before_values[k]);
                }
            }
        }
        i += 1;
    }
    assert(fields@.take(fields@.len() as int) =~= fields@);
    assert(pairs == pairs_of(given@));
    assert(read_fields(fields@, pairs_of(given@), values));
    let r = Json::Object(entries);
    assert(r matches Json::Object(out) && entries_view(out@) == merged(start_entries(base), fields@, pairs_of(given@), values));
    r
}

/// Whether `name` and `rest` are `raw` split at its first `=`.
pub open spec fn split_as(raw: Seq<char>, name: Seq<char>, rest: Seq<char>) -> bool {
    &&& index_of(raw, '=') is Some
    &&& name == raw.take(index_of(raw, '=')->0)
    &&& rest == raw.skip(index_of(raw, '=')->0 + 1)
}

/// The text part `--field raw` makes: the name before the first `=`, and the
/// rest sent as its UTF-8 bytes.
pub open spec fn text_part_of(raw: Seq<char>, part: PartView) -> bool {
    &&& index_of(raw, '=') is Some
    &&& part.name == raw.take(index_of(raw, '=')->0)
    &&& part.filename is None
    &&& part.content_type is None
    &&& part.bytes == vstd::utf8::encode_utf8(raw.skip(index_of(raw, '=')->0 + 1))
}

/// Whether `raw` reads as `NAME=VALUE`: an `=`, with something before the first.
pub open spec fn part_syntax(raw: Seq<char>) -> bool {
    index_of(raw, '=') matches Some(k) && k > 0
}

/// Every `--file` or `--field` argument split into its name and the rest, in
/// the order they were given; refused at the first that is not `NAME=VALUE`.
pub fn split_parts(flag: &'static str, raws: &[String]) -> (r: Result<Vec<(String, String)>, PartSyntax>)
    ensures
        r is Ok <==> forall|i: int| 0 <= i < raws@.len() ==> part_syntax(#[trigger] raws@[i]@),
        r matches Ok(parts) ==> parts@.len() == raws@.len() && forall|i: int|
            0 <= i < raws@.len() ==> split_as(raws@[i]@, (#[trigger] parts@[i]).0@, parts@[i].1@),
        r matches Err(e) ==> e.flag == flag && exists|i: int|
            0 <= i < raws@.len() && !part_syntax(#[trigger] raws@[i]@) && e.raw@ == raws@[i]@
                && forall|j: int| 0 <= j < i ==> part_syntax(#[trigger] raws@[j]@),
{
    let mut parts: Vec<(String, String)> = Vec::new();
    let mut i: usize = 0;
    while i < raws.len()
        invariant
            i <= raws@.len(),
            parts@.len() == i,
            forall|j: int| 0 <= j < i ==> part_syntax(#[trigger] raws@[j]@),
            forall|j: int|
                0 <= j < i ==> split_as(raws@[j]@, (#[trigger] parts@[j]).0@, parts@[j].1@),
        decreases raws.len() - i,
    {
        match split_part(flag, raws[i].as_str()) {
            Ok(part) => parts.push(part),
            Err(e) => {
                assert(!part_syntax(raws@[i as int]@));
                return Err(e);
            },
        }
        i += 1;
    }
    Ok(parts)
}

/// The text parts of a multipart body, `--field NAME=VALUE` each, in the
/// order they were given.
pub fn text_parts(raws: &[String]) -> (r: Result<Vec<Part>, PartSyntax>)
    ensures
        r is Ok <==> forall|i: int| 0 <= i < raws@.len() ==> part_syntax(#[trigger] raws@[i]@),
        r matches Ok(parts) ==> parts@.len() == raws@.len() && forall|i: int|
            0 <= i < raws@.len() ==> text_part_of(raws@[i]@, (#[trigger] parts@[i])@),
        r matches Err(e) ==> e.flag == FIELD_PART && exists|i: int|
            0 <= i < raws@.len() && !part_syntax(#[trigger] raws@[i]@) && e.raw@ == raws@[i]@,
{
    let split = match split_parts(FIELD_PART, raws) {
        Ok(split) => split,
        Err(e) => return Err(e),
    };
    let mut parts: Vec<Part> = Vec::new();
    let mut i: usize = 0;
    while i < split.len()
        invariant
            i <= split@.len(),
            split@.len() == raws@.len(),
            parts@.len() == i,
            forall|j: int|
                0 <= j < split@.len() ==> split_as(raws@[j]@, (#[trigger] split@[j]).0@, split@[j].1@),
            forall|j: int|
                0 <= j < i ==> text_part_of(raws@[j]@, (#[trigger] parts@[j])@),
        decreases split.len() - i,
    {
        let part = Part::text(split[i].0.as_str(), split[i].1.as_str());
        parts.push(part);
        i += 1;
    }
    Ok(parts)
}

/// One file part, `--file NAME=PATH`: sent under the file's own name, and
/// under the part's name where the path ends in no file name.
pub fn file_part(name: &str, path: &str, bytes: Vec<u8>) -> (r: Part)
    ensures
        r@.name == name@,
        r@.filename == Some(
            match file_name(path@) {
                Some(f) => f,
                None => name@,
            },
        ),
        r@.bytes == bytes@,
{
    let chars = chars_of(path);
    let filename = match file_name_of(chars.as_slice()) {
        Some(f) => string_of(f.as_slice()),
        None => name.to_owned(),
    };
    Part::file(name, filename.as_str(), bytes)
}

} // verus!
