//! Reading one document's operations into the model: where each sits in the
//! command tree, which gates it stands behind, which flags its parameters and
//! body grow, and every refusal a document can earn on the way.
//!
//! Every rule here is run while the document is reduced, so that a mistake in
//! it is the adopter's to correct at bless time rather than a user's to meet.

use vstd::prelude::*;

use crate::json::Json;
use crate::openapi::{openapi_parts, read_openapi, spec_from, spec_holds, SpecParts};
use crate::overlay::{layer_refusal, layers_applied, reads_as_overlay, reads_as_value, value_read, OverlayError};
use crate::required::{phantom_in, views, walk_in, Kind};
use crate::model::{
    first_named, Base, Body, Document, Effect, Field, Gate, Method, Operation, Param, Shape, Unsupported, COMMIT, FIELD_PART,
    FILE_PART, JSON_BODY, JSON_BODY_TEMPLATE, RAW_BODY,
};
use crate::names::{candidate, claims, kebab_of, spelled, Clash, CommandName, Grouping, Namespace, Protected};
use crate::openapi::{
    BodyRef, ComponentsSpec, KindSpec, MediaSpec, OperationSpec, ParamRef, ParamSpec, PathRef, SchemaRef,
    SchemaSpec, Spec,
};
use crate::resolve::{
    description_for, description_of, format_for, format_of, items_of, part_names, part_names_for,
    resolve_body, resolve_param, resolve_schema, resolved, resolved_body, resolved_param, scalar_for,
    scalar_of, stated_from,
};
use crate::schema::{is_json, is_media_type, is_multipart, json_type, multipart_type};
use crate::template::{is_listed, listed_in, template, template_is};
use crate::reduce::{
    extension_of, listed, listed_names, named, strings_of, transport_word, texts, all_strings,
    effect_for, effect_of, is_transport, Loading, method_named, method_of, sent_in, sent_in_for, LoadError, BODY,
    COMMAND, GATES, GROUP, REQUIRES,
};
use crate::schema::RefError;
use crate::text::{append_str, str_is, string_of};

verus! {

/// A read on one value's behalf failed: the refusal names the operation and
/// the value, and carries the reason.
pub open spec fn unresolvable<T>(r: Result<T, LoadError>, op: Seq<char>, name: Seq<char>, e: RefError) -> bool {
    r matches Err(LoadError::Unresolvable { op: o, name: n, source }) && o@ == op && n@ == name
        && source == e
}

/// Read a schema on one value's behalf, so that a `$ref` under it is refused
/// by name: one reference stands under many operations, and only one of them
/// is the one to correct.
pub fn under<T>(read: Result<T, RefError>, op: &str, name: &str) -> (r: Result<T, LoadError>)
    ensures
        match read {
            Ok(v) => r == Ok::<T, LoadError>(v),
            Err(e) => unresolvable(r, op@, name@, e),
        },
{
    match read {
        Ok(v) => Ok(v),
        Err(source) => Err(LoadError::Unresolvable { op: op.to_owned(), name: name.to_owned(), source }),
    }
}

/// The refusal a clash earns: said in the vocabulary of whoever can resolve
/// it — a gate's spelling is in the document's correction layer, the
/// confirmation's in the call that loads the document.
pub open spec fn clash_refusal(
    e: LoadError,
    clash: Clash,
    op: Seq<char>,
    what: &'static str,
    name: Seq<char>,
) -> bool {
    match clash.kind {
        Protected::Gate => e matches LoadError::GateTakenByName { op: o, what: w, name: n, gate }
            && o@ == op && w == what && n@ == name && gate@ == clash.word@,
        Protected::Commit => e matches LoadError::CommitTakenByName {
            op: o,
            what: w,
            name: n,
            commit,
        } && o@ == op && w == what && n@ == name && commit@ == clash.word@,
    }
}

/// A clash, said as a refusal.
pub fn clashed(clash: &Clash, op: &str, what: &'static str, name: &str) -> (e: LoadError)
    ensures
        clash_refusal(e, *clash, op@, what, name@),
{
    match clash.kind {
        Protected::Gate => LoadError::GateTakenByName {
            op: op.to_owned(),
            what,
            name: name.to_owned(),
            gate: clash.word.clone(),
        },
        Protected::Commit => LoadError::CommitTakenByName {
            op: op.to_owned(),
            what,
            name: name.to_owned(),
            commit: clash.word.clone(),
        },
    }
}

/// The names one parameter's `x-cli-requires` lists: none where it is absent,
/// and a refusal naming the parameter where it is anything but a list of
/// names.
pub fn requires_of(extensions: &[(String, Json)], op: &str, name: &str) -> (r: Result<
    Vec<String>,
    LoadError,
>)
    ensures
        match listed_names(extension_of(extensions@, REQUIRES@)) {
            Some(names) => r matches Ok(v) && v@.map_values(|s: String| s@) == names,
            None => r matches Err(LoadError::RequiresList { op: o, name: n }) && o@ == op@ && n@
                == name@,
        },
{
    match crate::reduce::extension(extensions, REQUIRES) {
        None => {
            let v: Vec<String> = Vec::new();
            assert(v@.map_values(|s: String| s@) =~= Seq::<Seq<char>>::empty());
            Ok(v)
        },
        Some(Json::Array(items)) => match strings_of(items) {
            Some(v) => Ok(v),
            None => Err(LoadError::RequiresList { op: op.to_owned(), name: name.to_owned() }),
        },
        Some(_) => Err(LoadError::RequiresList { op: op.to_owned(), name: name.to_owned() }),
    }
}

/// Whether requirement `j` of parameter `i` names a parameter of the same
/// operation that a request can carry.
pub open spec fn companion_met(params: Seq<Param>, i: int, j: int) -> bool {
    match first_named(params, params[i].needs@[j]@) {
        Some(k) => params[k].shape is Flag,
        None => false,
    }
}

/// The refusal requirement `j` of parameter `i` earns when it is not met.
pub open spec fn companion_refusal(params: Seq<Param>, i: int, j: int, op: Seq<char>, e: LoadError) -> bool {
    let wanted = params[i].needs@[j]@;
    match first_named(params, wanted) {
        None => e matches LoadError::RequiresUnknown { op: o, name, requires: other } && o@ == op
            && name@ == params[i].name@ && other@ == wanted,
        Some(k) => e matches LoadError::RequiresUnreachable { op: o, name, requires: other, why }
            && o@ == op && name@ == params[i].name@ && other@ == wanted && params[k].shape
            == Shape::Unreachable(why),
    }
}

/// Whether every requirement before requirement `j` of parameter `i`, in the
/// order the parameters and their lists are written, is met.
pub open spec fn companions_met_before(params: Seq<Param>, i: int, j: int) -> bool {
    &&& forall|a: int, b: int|
        0 <= a < i && 0 <= b < params[a].needs@.len() ==> #[trigger] companion_met(params, a, b)
    &&& forall|b: int| 0 <= b < j ==> #[trigger] companion_met(params, i, b)
}

/// The index of the first parameter named `name`.
fn find_param(params: &[Param], name: &str) -> (r: Option<usize>)
    ensures
        match first_named(params@, name@) {
            Some(k) => r == Some(k as usize),
            None => r is None,
        },
        r matches Some(k) ==> k < params@.len() && first_named(params@, name@) == Some(k as int),
{
    let mut k: usize = 0;
    while k < params.len()
        invariant
            k <= params@.len(),
            forall|j: int| 0 <= j < k ==> (#[trigger] params@[j]).name@ != name@,
        decreases params.len() - k,
    {
        if str_is(params[k].name.as_str(), name) {
            proof {
                let f = choose|i: int|
                    0 <= i < params@.len() && (#[trigger] params@[i]).name@ == name@ && forall|
                        j: int,
                    | 0 <= j < i ==> (#[trigger] params@[j]).name@ != name@;
                assert(params@[k as int].name@ == name@);
                if f < k {
                    assert(params@[f].name@ != name@);
                } else if f > k {
                    assert(params@[k as int].name@ != name@);
                }
            }
            return Some(k);
        }
        k += 1;
    }
    None
}

/// Every requirement one operation's parameters state names a parameter of
/// the same operation that a request can carry.
///
/// Checked once every parameter is read, because a requirement may name one
/// the document lists after it. The first requirement that is not met, in
/// the order they are written, is the one refused.
pub fn companions(op: &str, params: &[Param]) -> (r: Result<(), LoadError>)
    ensures
        r is Ok <==> (forall|i: int, j: int|
            0 <= i < params@.len() && 0 <= j < params@[i].needs@.len() ==> #[trigger] companion_met(
                params@,
                i,
                j,
            )),
        r matches Err(e) ==> exists|i: int, j: int|
            0 <= i < params@.len() && 0 <= j < params@[i].needs@.len() && companions_met_before(
                params@,
                i,
                j,
            ) && !companion_met(params@, i, j) && companion_refusal(params@, i, j, op@, e),
{
    let mut i: usize = 0;
    while i < params.len()
        invariant
            i <= params@.len(),
            forall|a: int, b: int|
                0 <= a < i && 0 <= b < params@[a].needs@.len() ==> #[trigger] companion_met(
                    params@,
                    a,
                    b,
                ),
        decreases params.len() - i,
    {
        let needs = params[i].needs();
        let mut j: usize = 0;
        while j < needs.len()
            invariant
                i < params@.len(),
                needs@ == params@[i as int].needs@,
                j <= needs@.len(),
                companions_met_before(params@, i as int, j as int),
            decreases needs.len() - j,
        {
            let wanted = needs[j].as_str();
            match find_param(params, wanted) {
                None => {
                    let e = LoadError::RequiresUnknown {
                        op: op.to_owned(),
                        name: params[i].name.clone(),
                        requires: needs[j].clone(),
                    };
                    proof {
                        assert(!companion_met(params@, i as int, j as int));
                        assert(companion_refusal(params@, i as int, j as int, op@, e));
                    }
                    return Err(e);
                },
                Some(k) => match &params[k].shape {
                    Shape::Unreachable(why) => {
                        let e = LoadError::RequiresUnreachable {
                            op: op.to_owned(),
                            name: params[i].name.clone(),
                            requires: needs[j].clone(),
                            why: why.duplicate(),
                        };
                        proof {
                            assert(!companion_met(params@, i as int, j as int));
                            assert(companion_refusal(params@, i as int, j as int, op@, e));
                        }
                        return Err(e);
                    },
                    Shape::Flag { .. } => {
                        assert(companion_met(params@, i as int, j as int));
                    },
                },
            }
            j += 1;
        }
        proof {
            assert forall|a: int, b: int|
                0 <= a < i + 1 && 0 <= b < params@[a].needs@.len() implies #[trigger] companion_met(
                params@,
                a,
                b,
            ) by {
                if a == i {
                    assert(companions_met_before(params@, i as int, j as int));
                }
            }
        }
        i += 1;
    }
    Ok(())
}

/// Whether the `i`th name a gate list offers is refused, seen after the ones
/// before it: one with no spelling, the confirmation's word, a word a body
/// flag already spends, or a gate named twice.
pub open spec fn gate_fault(names: Seq<Seq<char>>, i: int, commit: Seq<char>) -> bool {
    let g = kebab_of(names[i]);
    g.len() == 0 || g == commit || transport_word(g) || exists|j: int|
        0 <= j < i && kebab_of(names[j]) == g
}

/// The refusal the `i`th name earns, for the first of its faults.
pub open spec fn gate_refusal(names: Seq<Seq<char>>, i: int, commit: Seq<char>, op: Seq<char>, e: LoadError) -> bool {
    let g = kebab_of(names[i]);
    if g.len() == 0 {
        e matches LoadError::Name(n) && n.origin == GATES && n.raw@ == names[i]
    } else if g == commit {
        e matches LoadError::GateIsTheConfirmation { op: o, gate } && o@ == op && gate@ == g
    } else if transport_word(g) {
        e matches LoadError::ReservedGate { op: o, gate } && o@ == op && gate@ == g
    } else {
        e matches LoadError::DuplicateGate { op: o, gate } && o@ == op && gate@ == g
    }
}

/// Whether `e` is the refusal the first faulty name of a gate list earns.
pub open spec fn first_gate_refused(names: Seq<Seq<char>>, commit: Seq<char>, op: Seq<char>, e: LoadError) -> bool {
    exists|i: int|
        0 <= i < names.len() && (forall|j: int| 0 <= j < i ==> !#[trigger] gate_fault(names, j, commit))
            && #[trigger] gate_fault(names, i, commit) && gate_refusal(names, i, commit, op, e)
}

/// The gates a list of names spells, in order.
pub open spec fn gate_words(names: Seq<Seq<char>>) -> Seq<Seq<char>> {
    names.map_values(|n: Seq<char>| kebab_of(n))
}

/// What reading a gate list gives: the gates it spells where no name is
/// refused and the operation writes, else the first refusal.
pub open spec fn gates_read(
    names: Seq<Seq<char>>,
    effect: Effect,
    commit: Seq<char>,
    op: Seq<char>,
    r: Result<Vec<Gate>, LoadError>,
) -> bool {
    let clean = forall|i: int| 0 <= i < names.len() ==> !#[trigger] gate_fault(names, i, commit);
    &&& r is Ok <==> clean && !(effect == Effect::Read && names.len() > 0)
    &&& r matches Ok(gates) ==> gates@.map_values(|g: Gate| g@) == gate_words(names)
    &&& r matches Err(e) ==> first_gate_refused(names, commit, op, e) || (clean && effect
        == Effect::Read && names.len() > 0 && (e matches LoadError::GatedRead { op: o, gate } && o@
        == op && gate@ == kebab_of(names[0])))
}

/// Whether a gate already on the list is spelled `word`.
fn has_gate(gates: &Vec<Gate>, word: &str) -> (r: bool)
    ensures
        r == exists|j: int| 0 <= j < gates@.len() && (#[trigger] gates@[j])@ == word@,
{
    let mut j: usize = 0;
    while j < gates.len()
        invariant
            j <= gates@.len(),
            forall|k: int| 0 <= k < j ==> (#[trigger] gates@[k])@ != word@,
        decreases gates.len() - j,
    {
        if str_is(gates[j].as_str(), word) {
            return true;
        }
        j += 1;
    }
    false
}

/// One name of a gate list, checked against the gates before it.
fn gate_checked(
    raw: &str,
    gates: &Vec<Gate>,
    Ghost(names): Ghost<Seq<Seq<char>>>,
    Ghost(i): Ghost<int>,
    commit: &str,
    id: &str,
) -> (r: Result<Gate, LoadError>)
    requires
        0 <= i < names.len(),
        names[i] == raw@,
        gates@.len() == i,
        forall|k: int| 0 <= k < i ==> (#[trigger] gates@[k])@ == kebab_of(names[k]),
    ensures
        r is Ok <==> !gate_fault(names, i, commit@),
        r matches Ok(g) ==> g@ == kebab_of(names[i]),
        r matches Err(e) ==> gate_refusal(names, i, commit@, id@, e),
{
    let gate = match Gate::new(GATES, raw) {
        Ok(gate) => gate,
        Err(e) => return Err(LoadError::Name(e)),
    };
    if str_is(gate.as_str(), commit) {
        return Err(LoadError::GateIsTheConfirmation { op: id.to_owned(), gate });
    }
    if is_transport(gate.as_str()) {
        return Err(LoadError::ReservedGate { op: id.to_owned(), gate });
    }
    if has_gate(gates, gate.as_str()) {
        proof {
            let j = choose|j: int| 0 <= j < gates@.len() && (#[trigger] gates@[j])@ == gate@;
            assert(kebab_of(names[j]) == kebab_of(names[i]));
        }
        return Err(LoadError::DuplicateGate { op: id.to_owned(), gate });
    }
    proof {
        if exists|j: int| 0 <= j < i && kebab_of(names[j]) == kebab_of(names[i]) {
            let j = choose|j: int| 0 <= j < i && kebab_of(names[j]) == kebab_of(names[i]);
            assert(gates@[j]@ == gate@);
        }
    }
    Ok(gate)
}

/// The gates one operation stands behind, in the order the document names
/// them.
///
/// Every rule about a gate is run here: a name that is not a flag, the
/// confirmation's own word, a word the command line has already spent, a
/// name given twice, and a gate on a read — which is sent on sight, so there
/// is nothing for a gate to hold back.
#[verifier::rlimit(40)]
pub fn gates_of(extensions: &[(String, Json)], id: &str, effect: Effect, commit: &str) -> (r: Result<
    Vec<Gate>,
    LoadError,
>)
    ensures
        listed_names(extension_of(extensions@, GATES@)) is None ==> (r matches Err(
            LoadError::GateList { op, key },
        ) && op@ == id@ && key == GATES),
        listed_names(extension_of(extensions@, GATES@)) matches Some(names) ==> gates_read(
            names,
            effect,
            commit@,
            id@,
            r,
        ),
{
    let raw = match listed(extensions, id, GATES) {
        Ok(raw) => raw,
        Err(e) => return Err(e),
    };
    let ghost names = raw@.map_values(|s: String| s@);
    let mut gates: Vec<Gate> = Vec::new();
    let mut i: usize = 0;
    while i < raw.len()
        invariant
            i <= raw@.len(),
            names == raw@.map_values(|s: String| s@),
            names.len() == raw@.len(),
            listed_names(extension_of(extensions@, GATES@)) == Some(names),
            gates@.len() == i,
            forall|k: int| 0 <= k < i ==> (#[trigger] gates@[k])@ == kebab_of(names[k]),
            forall|k: int| 0 <= k < i ==> !#[trigger] gate_fault(names, k, commit@),
        decreases raw.len() - i,
    {
        assert(names[i as int] == raw@[i as int]@);
        match gate_checked(raw[i].as_str(), &gates, Ghost(names), Ghost(i as int), commit, id) {
            Ok(gate) => gates.push(gate),
            Err(e) => {
                proof {
                    assert(gate_fault(names, i as int, commit@));
                    assert(first_gate_refused(names, commit@, id@, e));
                    assert(gates_read(names, effect, commit@, id@, Err(e)));
                }
                return Err(e);
            },
        }
        i += 1;
    }
    assert(gates@.map_values(|g: Gate| g@) =~= gate_words(names));
    if effect == Effect::Read && gates.len() > 0 {
        let first = gates[0].duplicate();
        return Err(LoadError::GatedRead { op: id.to_owned(), gate: first });
    }
    Ok(gates)
}

/// The word the grouping rule gives `path`'s group: its segment at the
/// rule's depth, or the whole path where it has none there.
pub open spec fn group_word(grouping: Grouping, path: Seq<char>) -> Seq<char> {
    let segs = crate::names::segments(path);
    if grouping.depth() < segs.len() {
        segs[grouping.depth() as int]
    } else {
        path
    }
}

/// The word the grouping rule gives an operation under its group: the last
/// literal segment below the group, else what its method makes of the path.
pub open spec fn leaf_word(grouping: Grouping, path: Seq<char>, method: Method) -> Seq<char> {
    let segs = crate::names::segments(path);
    match crate::names::last_literal(segs, grouping.depth() + 1int, segs.len() as int) {
        Some(k) => segs[k],
        None => crate::names::verb_of(
            method,
            exists|k: int| 0 <= k < segs.len() && crate::names::templated(#[trigger] segs[k]),
        ),
    }
}

/// The raw word one `x-cli-` override offers, else the rule's.
pub open spec fn overridden(value: Option<Json>, rule: Seq<char>) -> Seq<char> {
    match value {
        Some(Json::String(s)) => s@,
        _ => rule,
    }
}

/// Whether an override is absent or a string: anything else is refused.
pub open spec fn readable(value: Option<Json>) -> bool {
    value is None || value matches Some(Json::String(_))
}

/// Where an operation sits in the command tree: the grouping rule, with the
/// document's own `x-cli-group` and `x-cli-command` over it.
pub fn placement(
    extensions: &[(String, Json)],
    id: &str,
    path: &str,
    method: Method,
    grouping: Grouping,
) -> (r: Result<(CommandName, CommandName), LoadError>)
    ensures
        ({
            let grp = extension_of(extensions@, GROUP@);
            let cmd = extension_of(extensions@, COMMAND@);
            let group_raw = overridden(grp, group_word(grouping, path@));
            let command_raw = overridden(cmd, leaf_word(grouping, path@, method));
            &&& r is Ok <==> readable(grp) && readable(cmd) && kebab_of(group_raw).len() > 0
                && kebab_of(command_raw).len() > 0
            &&& r matches Ok((g, c)) ==> g@ == kebab_of(group_raw) && c@ == kebab_of(command_raw)
            &&& r matches Err(LoadError::Override { op, key }) ==> op@ == id@ && ((key == GROUP
                && !readable(grp)) || (key == COMMAND && readable(grp) && kebab_of(group_raw).len()
                > 0 && !readable(cmd)))
            &&& r matches Err(LoadError::Name(n)) ==> (n.raw@ == group_raw && kebab_of(group_raw).len()
                == 0) || (n.raw@ == command_raw && kebab_of(command_raw).len() == 0)
            &&& r matches Err(e) ==> e is Override || e is Name
        }),
{
    let group = match named(extensions, id, GROUP) {
        Err(e) => return Err(e),
        Ok(Some(raw)) => CommandName::new(GROUP, raw),
        Ok(None) => grouping.group(path),
    };
    let group = match group {
        Ok(g) => g,
        Err(e) => return Err(LoadError::Name(e)),
    };
    let command = match named(extensions, id, COMMAND) {
        Err(e) => return Err(e),
        Ok(Some(raw)) => CommandName::new(COMMAND, raw),
        Ok(None) => grouping.leaf(path, method),
    };
    let command = match command {
        Ok(c) => c,
        Err(e) => return Err(LoadError::Name(e)),
    };
    Ok((group, command))
}

/// Whether operations `i` and `j`, in that order, are one `<group>
/// <command>` on the command line.
pub open spec fn collide(ops: Seq<Operation>, i: int, j: int) -> bool {
    0 <= i < j < ops.len() && ops[i].group@ == ops[j].group@ && ops[i].command@ == ops[j].command@
}

/// Two operations under one `<group> <command>` would silently shadow each
/// other, so the document is refused instead — never resolved by renaming
/// one of them. The pair refused is the first operation that has a later
/// twin, with its first later twin.
pub fn first_collision(ops: &[Operation]) -> (r: Option<LoadError>)
    ensures
        r is None <==> (forall|i: int, j: int| !#[trigger] collide(ops@, i, j)),
        r matches Some(e) ==> exists|i: int, j: int|
            #[trigger] collide(ops@, i, j) && (forall|a: int, b: int| 0 <= a < i ==> !#[trigger] collide(ops@, a, b))
                && (forall|b: int| i < b < j ==> !#[trigger] collide(ops@, i, b))
                && (e matches LoadError::DuplicateCommand { group, command, first, second }
                && group@ == ops@[i].group@ && command@ == ops@[i].command@ && first@ == ops@[i].id@
                && second@ == ops@[j].id@),
{
    let mut i: usize = 0;
    while i < ops.len()
        invariant
            i <= ops@.len(),
            forall|a: int, b: int| 0 <= a < i ==> !#[trigger] collide(ops@, a, b),
        decreases ops.len() - i,
    {
        let mut j: usize = i + 1;
        while j < ops.len()
            invariant
                i < ops@.len(),
                i < j <= ops@.len(),
                forall|a: int, b: int| 0 <= a < i ==> !#[trigger] collide(ops@, a, b),
                forall|b: int| i < b < j ==> !#[trigger] collide(ops@, i as int, b),
            decreases ops.len() - j,
        {
            if ops[i].group.same(&ops[j].group) && ops[i].command.same(&ops[j].command) {
                let e = LoadError::DuplicateCommand {
                    group: ops[i].group.duplicate(),
                    command: ops[i].command.duplicate(),
                    first: ops[i].id.clone(),
                    second: ops[j].id.clone(),
                };
                assert(collide(ops@, i as int, j as int));
                return Some(e);
            }
            j += 1;
        }
        proof {
            assert forall|a: int, b: int| 0 <= a < i + 1 implies !#[trigger] collide(ops@, a, b) by {
                if a == i && collide(ops@, a, b) {
                    assert(i < b < j);
                }
            }
        }
        i += 1;
    }
    None
}

/// The schema a parameter's values are described by, and whether there is a
/// list of them: an array's items where the array says what they are, else
/// the schema itself.
pub open spec fn value_schema(schema: SchemaRef, schemas: Seq<(String, SchemaRef)>) -> Result<
    (SchemaRef, bool),
    RefError,
> {
    match resolved(schema, schemas, Set::empty()) {
        Err(e) => Err(e),
        Ok(node) => match node.kind {
            KindSpec::Array { items: Some(i) } => Ok((i, true)),
            _ => Ok((schema, false)),
        },
    }
}

/// Whether a stated schema fits on one flag: a string, a number, an integer
/// or a boolean.
pub open spec fn fits_flag(node: SchemaSpec) -> bool {
    node.kind is Str || node.kind is Number || node.kind is Integer || node.kind is Boolean
}

/// What a claim for a document name gives: the flag a shape or a field
/// carries, or the refusal its clash with a guarded word earns.
pub open spec fn flag_claimed(
    before: Namespace,
    after: Namespace,
    preferred: Seq<char>,
    prefix: Seq<char>,
    flag: Result<String, LoadError>,
    op: Seq<char>,
    what: &'static str,
    name: Seq<char>,
) -> bool {
    match flag {
        Ok(f) => claims(before, after, preferred, prefix, Ok(f)),
        Err(e) => exists|clash: Clash|
            claims(before, after, preferred, prefix, Err(clash)) && #[trigger] clash_refusal(
                e,
                clash,
                op,
                what,
                name,
            ),
    }
}

/// What one parameter is worth on a command line, and the flag it claims when
/// it is worth one. Every way of not being worth a flag spends nothing.
pub open spec fn shape_read(
    id: Seq<char>,
    param: ParamSpec,
    schemas: Seq<(String, SchemaRef)>,
    before: Namespace,
    after: Namespace,
    r: Result<Shape, LoadError>,
) -> bool {
    match sent_in_for(param.sent_in, param.explode) {
        None => after == before && r == Ok::<Shape, LoadError>(Shape::Unreachable(Unsupported::Cookie)),
        Some((location, style)) => match param.schema {
            None => after == before && r == Ok::<Shape, LoadError>(
                Shape::Unreachable(Unsupported::Encoded),
            ),
            Some(schema) => match value_schema(schema, schemas) {
                Err(e) => after == before && unresolvable(r, id, param.name@, e),
                Ok((value, repeats)) => match stated_from(value, schemas, Set::empty()) {
                    Err(e) => after == before && unresolvable(r, id, param.name@, e),
                    Ok(node) => if !fits_flag(node) {
                        after == before && r == Ok::<Shape, LoadError>(
                            Shape::Unreachable(Unsupported::Structured),
                        )
                    } else {
                        match style {
                            Err(w) => after == before && (r matches Ok(
                                Shape::Unreachable(Unsupported::Style(s)),
                            ) && s@ == w),
                            Ok(join) => if kebab_of(param.name@).len() == 0 {
                                after == before && r == Ok::<Shape, LoadError>(
                                    Shape::Unreachable(Unsupported::Unspellable),
                                )
                            } else {
                                match r {
                                    Ok(Shape::Flag { flag, location: l, scalar, join: j, format }) => {
                                        &&& flag_claimed(before, after, kebab_of(param.name@), "param"@, Ok(flag), id, "parameter", param.name@)
                                        &&& l == location
                                        &&& scalar_for(node, Some(scalar))
                                        &&& j == (if repeats { Some(join) } else { None })
                                        &&& format == format_for(node)
                                    },
                                    Ok(Shape::Unreachable(_)) => false,
                                    Err(e) => flag_claimed(before, after, kebab_of(param.name@), "param"@, Err(e), id, "parameter", param.name@),
                                }
                            },
                        }
                    },
                },
            },
        },
    }
}

/// What one parameter is worth on a command line, and the flag it claims
/// when it is worth one.
///
/// Where it goes is asked first, then what its value is — an array's items
/// where it is a list — then its style, and its name last, so that a
/// parameter this CLI could not have supplied anyway is reported for what
/// the document said about its value rather than for how it is spelled.
pub fn shape_of(id: &str, param: &ParamSpec, schemas: &[(String, SchemaRef)], flags: &mut Namespace) -> (r:
    Result<Shape, LoadError>)
    ensures
        shape_read(id@, *param, schemas@, *old(flags), *final(flags), r),
{
    let (location, style) = match sent_in(param.sent_in, param.explode) {
        None => return Ok(Shape::Unreachable(Unsupported::Cookie)),
        Some(pair) => pair,
    };
    let schema = match &param.schema {
        None => return Ok(Shape::Unreachable(Unsupported::Encoded)),
        Some(s) => s,
    };
    let name = param.name.as_str();
    let (value, repeats) = match under(items_of(schema, schemas), id, name) {
        Err(e) => return Err(e),
        Ok(Some(items)) => (items, true),
        Ok(None) => (schema, false),
    };
    let scalar = match under(scalar_of(value, schemas), id, name) {
        Err(e) => return Err(e),
        Ok(None) => return Ok(Shape::Unreachable(Unsupported::Structured)),
        Ok(Some(s)) => s,
    };
    let join = match style {
        Ok(j) => j,
        Err(w) => return Ok(Shape::Unreachable(Unsupported::Style(w.to_owned()))),
    };
    let spelling = match spelled("parameter", name) {
        Ok(s) => s,
        Err(_) => return Ok(Shape::Unreachable(Unsupported::Unspellable)),
    };
    let flag = match flags.claim(spelling.as_str(), "param") {
        Ok(f) => f,
        Err(clash) => {
            let e = clashed(&clash, id, "parameter", name);
            assert(flag_claimed(*old(flags), *flags, kebab_of(name@), "param"@, Err(e), id@, "parameter", name@));
            return Err(e);
        },
    };
    let format = match under(format_of(value, schemas), id, name) {
        Err(e) => return Err(e),
        Ok(f) => f,
    };
    Ok(Shape::Flag { flag, location, scalar, join: if repeats { Some(join) } else { None }, format })
}

/// What one parameter reads as: resolved, shaped, refused where the document
/// requires a parameter this CLI cannot send, and carrying what it needs
/// beside it.
pub open spec fn param_read(
    id: Seq<char>,
    param: ParamRef,
    parameters: Seq<(String, ParamRef)>,
    schemas: Seq<(String, SchemaRef)>,
    before: Namespace,
    after: Namespace,
    r: Result<Param, LoadError>,
) -> bool {
    match resolved_param(param, parameters, Set::empty()) {
        Err(e) => after == before && (r matches Err(LoadError::Reference(x)) && x == e),
        Ok(spec) => exists|shape: Result<Shape, LoadError>|
            #[trigger] shape_read(id, spec, schemas, before, after, shape) && match shape {
                Err(e) => r == Err::<Param, LoadError>(e),
                Ok(s) => if s is Unreachable && spec.required {
                    r matches Err(LoadError::Parameter { op, name, why }) && op@ == id && name@
                        == spec.name@ && s == Shape::Unreachable(why)
                } else {
                    match listed_names(extension_of(spec.extensions@, REQUIRES@)) {
                        None => r matches Err(LoadError::RequiresList { op, name }) && op@ == id
                            && name@ == spec.name@,
                        Some(names) => r matches Ok(p) && p.name@ == spec.name@ && p.required
                            == spec.required && p.shape == s && p.description == spec.description
                            && p.needs@.map_values(|x: String| x@) == names,
                    }
                },
            },
    }
}

impl Param {
    /// One parameter the document declares, as the command line carries it.
    pub fn build(
        id: &str,
        param: &ParamRef,
        parameters: &[(String, ParamRef)],
        schemas: &[(String, SchemaRef)],
        flags: &mut Namespace,
    ) -> (r: Result<Param, LoadError>)
        ensures
            param_read(id@, *param, parameters@, schemas@, *old(flags), *final(flags), r),
    {
        let spec = match resolve_param(param, parameters) {
            Ok(spec) => spec,
            Err(e) => return Err(LoadError::Reference(e)),
        };
        let shape = shape_of(id, spec, schemas, flags);
        let ghost shape_r = shape;
        let shape = match shape {
            Ok(s) => s,
            Err(e) => return Err(e),
        };
        match &shape {
            Shape::Unreachable(why) => if spec.required {
                return Err(LoadError::Parameter {
                    op: id.to_owned(),
                    name: spec.name.clone(),
                    why: why.duplicate(),
                });
            },
            _ => {},
        }
        let needs = match requires_of(&spec.extensions, id, spec.name.as_str()) {
            Ok(needs) => needs,
            Err(e) => return Err(e),
        };
        let description = match &spec.description {
            Some(d) => Some(d.clone()),
            None => None,
        };
        let p = Param { name: spec.name.clone(), required: spec.required, shape, description, needs };
        assert(shape_read(id@, *spec, schemas@, *old(flags), *flags, shape_r));
        Ok(p)
    }
}

/// Whether a body property grows a flag of its own: its stated schema fits
/// on one, and its name has a spelling.
pub open spec fn field_ready(prop: (String, SchemaRef), schemas: Seq<(String, SchemaRef)>) -> bool {
    &&& stated_from(prop.1, schemas, Set::empty()) matches Ok(node)
    &&& fits_flag(node)
    &&& kebab_of(prop.0@).len() > 0
}

/// Whether `f` is the field property `prop` reads as: its name, whether the
/// body and the object both require it, what its stated schema is worth on a
/// flag, its format and description, and a flag spelled by the claim rule
/// from its name.
pub open spec fn field_is(
    f: Field,
    prop: (String, SchemaRef),
    req: Seq<String>,
    required: bool,
    schemas: Seq<(String, SchemaRef)>,
) -> bool {
    &&& stated_from(prop.1, schemas, Set::empty()) matches Ok(node)
    &&& f.name@ == prop.0@
    &&& f.required == (required && listed_in(req, prop.0@))
    &&& scalar_for(node, Some(f.scalar))
    &&& f.format == format_for(node)
    &&& description_for(prop.1, schemas) == Ok::<Option<String>, RefError>(f.description)
    &&& exists|n: nat| f.flag@ == candidate(kebab_of(prop.0@), "body"@, n)
}

/// Whether `flag` is the first of the body's candidates for `preferred` —
/// the word itself, then `body-` and a number — that `taken` does not hold.
pub open spec fn first_free(flag: Seq<char>, preferred: Seq<char>, taken: Seq<Seq<char>>) -> bool {
    exists|n: nat|
        flag == candidate(preferred, "body"@, n) && !taken.contains(flag) && forall|k: nat|
            k < n ==> taken.contains(#[trigger] candidate(preferred, "body"@, k))
}

/// The flags of a list of fields.
pub open spec fn field_flags(fields: Seq<Field>) -> Seq<Seq<char>> {
    fields.map_values(|f: Field| f.flag@)
}

/// Whether the body goes whole because property `k` has no flag of its own,
/// every property before it having one.
pub open spec fn whole_at(props: Seq<(String, SchemaRef)>, schemas: Seq<(String, SchemaRef)>, k: int) -> bool {
    &&& 0 <= k < props.len()
    &&& forall|j: int| 0 <= j < k ==> #[trigger] field_ready(props[j], schemas)
    &&& stated_from(props[k].1, schemas, Set::empty()) is Ok
    &&& !field_ready(props[k], schemas)
}

/// Whether `e` is the refusal one property earns: its schema cannot be read,
/// its name clashes with a guarded word, or its description cannot be read.
pub open spec fn prop_refused(prop: (String, SchemaRef), schemas: Seq<(String, SchemaRef)>, op: Seq<char>, e: LoadError) -> bool {
    match stated_from(prop.1, schemas, Set::empty()) {
        Err(x) => unresolvable(Err::<(), LoadError>(e), op, prop.0@, x),
        Ok(_) => field_ready(prop, schemas) && ((exists|clash: Clash|
            #[trigger] clash_refusal(e, clash, op, "property", prop.0@)) || (exists|x: RefError|
            description_for(prop.1, schemas) == Err::<Option<String>, RefError>(x)
                && #[trigger] unresolvable(Err::<(), LoadError>(e), op, prop.0@, x))),
    }
}

/// Whether `e` is the refusal property `k` earns, every property before it
/// having had a flag of its own.
pub open spec fn field_refused(
    props: Seq<(String, SchemaRef)>,
    schemas: Seq<(String, SchemaRef)>,
    k: int,
    op: Seq<char>,
    e: LoadError,
) -> bool {
    &&& 0 <= k < props.len()
    &&& forall|j: int| 0 <= j < k ==> #[trigger] field_ready(props[j], schemas)
    &&& prop_refused(props[k], schemas, op, e)
}

/// What one property of a flat body comes to.
pub enum FieldStep {
    /// A flag of its own.
    Flag(Field),
    /// No flag of its own, so the whole body goes through one.
    Whole,
    /// A refusal.
    Refused(LoadError),
}

/// One property of a body that may be flat: its field and the flag it claims,
/// or the news that the body goes whole, or the refusal it earns.
fn field_step(
    id: &str,
    prop: &(String, SchemaRef),
    req: &Vec<String>,
    required: bool,
    schemas: &[(String, SchemaRef)],
    flags: &mut Namespace,
) -> (r: FieldStep)
    ensures
        r matches FieldStep::Flag(f) ==> field_ready(*prop, schemas@) && field_is(f, *prop, req@, required, schemas@)
            && claims(*old(flags), *final(flags), kebab_of(prop.0@), "body"@, Ok(f.flag)),
        r is Whole ==> stated_from(prop.1, schemas@, Set::empty()) is Ok && !field_ready(*prop, schemas@),
        r matches FieldStep::Refused(e) ==> prop_refused(*prop, schemas@, id@, e),
{
    let name = prop.0.as_str();
    let property = &prop.1;
    let scalar = match under(scalar_of(property, schemas), id, name) {
        Err(e) => return FieldStep::Refused(e),
        Ok(None) => return FieldStep::Whole,
        Ok(Some(s)) => s,
    };
    let spelling = match spelled("property", name) {
        Ok(s) => s,
        Err(_) => return FieldStep::Whole,
    };
    let flag = match flags.claim(spelling.as_str(), "body") {
        Ok(f) => f,
        Err(clash) => {
            let e = clashed(&clash, id, "property", name);
            return FieldStep::Refused(e);
        },
    };
    let format = match format_of(property, schemas) {
        Err(e) => {
            assert(stated_from(prop.1, schemas@, Set::empty()) is Ok);
            return FieldStep::Refused(LoadError::Unresolvable { op: id.to_owned(), name: name.to_owned(), source: e });
        },
        Ok(f) => f,
    };
    let description = match under(description_of(property, schemas), id, name) {
        Err(e) => {
            proof {
                let x = description_for(prop.1, schemas@)->Err_0;
                assert(unresolvable(Err::<(), LoadError>(e), id@, prop.0@, x));
            }
            return FieldStep::Refused(e);
        },
        Ok(d) => d,
    };
    FieldStep::Flag(Field {
        name: prop.0.clone(),
        flag,
        required: required && is_listed(req, name),
        scalar,
        format,
        description,
    })
}

/// What a JSON body that goes whole reads as: its skeleton's template, or the
/// refusal a skeleton that cannot be read earns, named as the body.
pub open spec fn whole_read(
    op: Seq<char>,
    schema: SchemaRef,
    required: bool,
    schemas: Seq<(String, SchemaRef)>,
    r: Result<Body, LoadError>,
) -> bool {
    exists|t: Result<Option<String>, RefError>|
        #[trigger] template_is(schema, schemas, t) && match t {
            Err(e) => unresolvable(r, op, BODY@, e),
            Ok(tp) => r == Ok::<Body, LoadError>(Body::JsonWhole { required, template: tp }),
        }
}

/// What a JSON object body reads as: one flag per property where every
/// property grows one, else the whole body through one flag, else the first
/// refusal.
pub open spec fn flat_read(
    op: Seq<char>,
    s: SchemaRef,
    props: Seq<(String, SchemaRef)>,
    req: Seq<String>,
    required: bool,
    schemas: Seq<(String, SchemaRef)>,
    before: Namespace,
    r: Result<Body, LoadError>,
) -> bool {
    &&& (r matches Ok(Body::JsonFields(fields)) ==> fields@.len() == props.len()
        && (forall|k: int| 0 <= k < props.len() ==> #[trigger] field_is(fields@[k], props[k], req, required, schemas))
        && (forall|k: int| 0 <= k < props.len() ==> !before.taken().contains(#[trigger] field_flags(fields@)[k]))
        && (forall|j: int, k: int| 0 <= j < k < props.len() ==> #[trigger] field_flags(fields@)[j] != #[trigger] field_flags(fields@)[k])
        && (forall|k: int| 0 <= k < props.len() ==> #[trigger] first_free(
            fields@[k].flag@,
            kebab_of(props[k].0@),
            before.taken() + field_flags(fields@).take(k),
        )))
    &&& (r matches Ok(Body::JsonWhole { .. }) ==> (exists|k: int| #[trigger] whole_at(props, schemas, k)) && whole_read(op, s, required, schemas, r))
    &&& (r matches Err(e) ==> (exists|k: int| #[trigger] field_refused(props, schemas, k, op, e))
        || ((exists|k: int| #[trigger] whole_at(props, schemas, k)) && whole_read(op, s, required, schemas, r)))
    &&& (r is Ok ==> (r matches Ok(Body::JsonFields(_)) || r matches Ok(Body::JsonWhole { .. })))
    &&& ((forall|k: int| 0 <= k < props.len() ==> #[trigger] field_ready(props[k], schemas)) ==> !(r matches Ok(Body::JsonWhole { .. })))
}

/// What a JSON body reads as: one flag per property where every property
/// grows one, else the whole body through one flag, else the first refusal.
pub open spec fn json_body_read(
    op: Seq<char>,
    schema: Option<SchemaRef>,
    required: bool,
    schemas: Seq<(String, SchemaRef)>,
    before: Namespace,
    r: Result<Body, LoadError>,
) -> bool {
    match schema {
        None => r == Ok::<Body, LoadError>(Body::JsonWhole { required, template: None }),
        Some(s) => match resolved(s, schemas, Set::empty()) {
            Err(e) => unresolvable(r, op, BODY@, e),
            Ok(node) => match node.kind {
                KindSpec::Object { properties, required: req } => flat_read(op, s, properties@, req@, required, schemas, before, r),
                _ => whole_read(op, s, required, schemas, r),
            },
        },
    }
}

/// The body that goes whole, with its skeleton.
fn whole(id: &str, schema: &SchemaRef, required: bool, schemas: &[(String, SchemaRef)]) -> (r: Result<Body, LoadError>)
    ensures
        whole_read(id@, *schema, required, schemas@, r),
{
    let t = template(schema, schemas);
    let ghost tr = t;
    let r = match under(t, id, BODY) {
        Ok(tp) => Ok(Body::JsonWhole { required, template: tp }),
        Err(e) => Err(e),
    };
    assert(template_is(*schema, schemas@, tr));
    r
}

/// What a JSON body is worth on a command line: one flag per property, or
/// one flag for the whole thing.
///
/// One property that does not fit on a flag is enough: the whole body goes
/// through `--json-body`, and no sibling keeps a flag the request builder
/// would then throw away. A property whose name has no spelling goes the same
/// way, so that the template `--json-body-template` prints still names it.
#[verifier::rlimit(40)]
pub fn json_body(
    id: &str,
    schema: &Option<SchemaRef>,
    required: bool,
    schemas: &[(String, SchemaRef)],
    flags: &mut Namespace,
) -> (r: Result<Body, LoadError>)
    ensures
        json_body_read(id@, *schema, required, schemas@, *old(flags), r),
        r matches Ok(Body::JsonFields(fields)) ==> final(flags).taken() == old(flags).taken() + field_flags(fields@),
{
    let whole_schema = match schema {
        None => return Ok(Body::JsonWhole { required, template: None }),
        Some(s) => s,
    };
    let node = match under(resolve_schema(whole_schema, schemas), id, BODY) {
        Ok(node) => node,
        Err(e) => return Err(e),
    };
    let (properties, req) = match &node.kind {
        KindSpec::Object { properties, required: req } => (properties, req),
        _ => return whole(id, whole_schema, required, schemas),
    };
    let ghost props = properties@;
    let ghost start = *flags;
    let mut fields: Vec<Field> = Vec::new();
    let mut i: usize = 0;
    while i < properties.len()
        invariant
            *schema == Some(*whole_schema),
            resolved(*whole_schema, schemas@, Set::empty()) == Ok::<SchemaSpec, RefError>(*node),
            node.kind == (KindSpec::Object { properties: *properties, required: *req }),
            props == properties@,
            start == *old(flags),
            i <= props.len(),
            fields@.len() == i,
            flags.guarded() == start.guarded(),
            flags.taken() == start.taken() + field_flags(fields@),
            forall|k: int| 0 <= k < i ==> #[trigger] field_ready(props[k], schemas@),
            forall|k: int| 0 <= k < i ==> #[trigger] field_is(fields@[k], props[k], req@, required, schemas@),
            forall|k: int| 0 <= k < i ==> !start.taken().contains(#[trigger] field_flags(fields@)[k]),
            forall|j: int, k: int| 0 <= j < k < i ==> #[trigger] field_flags(fields@)[j] != #[trigger] field_flags(fields@)[k],
            forall|k: int| 0 <= k < i ==> #[trigger] first_free(
                fields@[k].flag@,
                kebab_of(props[k].0@),
                start.taken() + field_flags(fields@).take(k),
            ),
        decreases properties.len() - i,
    {
        let ghost taken_before = flags.taken();
        match field_step(id, &properties[i], req, required, schemas, flags) {
            FieldStep::Refused(e) => {
                assert(field_refused(props, schemas@, i as int, id@, e));
                assert(flat_read(id@, *whole_schema, props, req@, required, schemas@, start, Err(e)));
                return Err(e);
            },
            FieldStep::Whole => {
                assert(whole_at(props, schemas@, i as int));
                let r = whole(id, whole_schema, required, schemas);
                assert(!(forall|k: int| 0 <= k < props.len() ==> #[trigger] field_ready(props[k], schemas@)));
                assert(flat_read(id@, *whole_schema, props, req@, required, schemas@, start, r));
                return r;
            },
            FieldStep::Flag(field) => {
                proof {
                    let old_flags = field_flags(fields@);
                    assert(field_flags(fields@.push(field)) =~= old_flags.push(field.flag@));
                    assert(!taken_before.contains(field.flag@));
                    assert forall|k: int| 0 <= k < i implies field_flags(fields@)[k] != field.flag@ by {
                        assert(taken_before[start.taken().len() + k] == old_flags[k]);
                    }
                    assert(!start.taken().contains(field.flag@)) by {
                        if start.taken().contains(field.flag@) {
                            let w = choose|w: int| 0 <= w < start.taken().len() && start.taken()[w] == field.flag@;
                            assert(taken_before[w] == field.flag@);
                        }
                    }
                    assert(flags.taken() =~= start.taken() + old_flags.push(field.flag@));
                    let new_flags = field_flags(fields@.push(field));
                    assert(new_flags.take(i as int) =~= old_flags);
                    assert forall|k: int| 0 <= k < i implies new_flags.take(k) =~= old_flags.take(k) by {}
                    assert(first_free(field.flag@, kebab_of(props[i as int].0@), start.taken() + new_flags.take(i as int)));
                }
                fields.push(field);
            },
        }
        i += 1;
    }
    Ok(Body::JsonFields(fields))
}

/// The entry of a `content` map a request is sent under: the first JSON one
/// the document offers, else the first it offers at all.
pub open spec fn chosen_entry(content: Seq<(String, MediaSpec)>) -> Option<int> {
    if exists|k: int| 0 <= k < content.len() && json_type(#[trigger] content[k].0@) {
        Some(
            choose|k: int|
                0 <= k < content.len() && json_type(#[trigger] content[k].0@) && forall|j: int|
                    0 <= j < k ==> !json_type(#[trigger] content[j].0@),
        )
    } else if content.len() > 0 {
        Some(0)
    } else {
        None
    }
}

/// The index of the entry a request is sent under.
fn choose_entry(content: &Vec<(String, MediaSpec)>) -> (r: Option<usize>)
    ensures
        match chosen_entry(content@) {
            Some(k) => r matches Some(x) && x as int == k && 0 <= k < content@.len(),
            None => r is None,
        },
{
    let mut k: usize = 0;
    while k < content.len()
        invariant
            k <= content@.len(),
            forall|j: int| 0 <= j < k ==> !json_type(#[trigger] content@[j].0@),
        decreases content.len() - k,
    {
        if is_json(content[k].0.as_str()) {
            proof {
                let f = choose|f: int|
                    0 <= f < content@.len() && json_type(#[trigger] content@[f].0@) && forall|j: int|
                        0 <= j < f ==> !json_type(#[trigger] content@[j].0@);
                if f < k {
                    assert(!json_type(content@[f].0@));
                } else if f > k {
                    assert(!json_type(content@[k as int].0@));
                }
            }
            return Some(k);
        }
        k += 1;
    }
    if content.len() > 0 {
        Some(0)
    } else {
        None
    }
}

/// What an operation's request body reads as: none where it has none or
/// names no media type; a refusal for a key that is no media type; the parts
/// a multipart body declares; a file sent verbatim for a media type this CLI
/// does not assemble; and a JSON body, flat or whole.
pub open spec fn body_read(
    op: Seq<char>,
    body: Option<BodyRef>,
    bodies: Seq<(String, BodyRef)>,
    schemas: Seq<(String, SchemaRef)>,
    before: Namespace,
    r: Result<Body, LoadError>,
) -> bool {
    match body {
        None => r == Ok::<Body, LoadError>(Body::Absent),
        Some(b) => match resolved_body(b, bodies, Set::empty()) {
            Err(e) => unresolvable(r, op, BODY@, e),
            Ok(spec) => match chosen_entry(spec.content@) {
                None => r == Ok::<Body, LoadError>(Body::Absent),
                Some(k) => {
                    let key = spec.content@[k].0@;
                    let media = spec.content@[k].1;
                    if !crate::schema::media_type(key) {
                        r matches Err(LoadError::MediaType { op: o, media_type: m }) && o@ == op
                            && m@ == key
                    } else if multipart_type(key) {
                        r matches Ok(Body::Multipart { names, required }) && names@.map_values(
                            |s: String| s@,
                        ) == part_names_for(media.schema, schemas) && required == spec.required
                    } else if !json_type(key) {
                        r matches Ok(Body::Opaque { media_type: m, required }) && m@ == key
                            && required == spec.required
                    } else {
                        json_body_read(op, media.schema, spec.required, schemas, before, r)
                    }
                },
            },
        },
    }
}

impl Body {
    /// What the operation wants in the request body, and the flags it grows.
    pub fn build(
        id: &str,
        body: &Option<BodyRef>,
        bodies: &[(String, BodyRef)],
        schemas: &[(String, SchemaRef)],
        flags: &mut Namespace,
    ) -> (r: Result<Body, LoadError>)
        ensures
            body_read(id@, *body, bodies@, schemas@, *old(flags), r),
    {
        let body = match body {
            None => return Ok(Body::Absent),
            Some(b) => b,
        };
        let spec = match under(resolve_body(body, bodies), id, BODY) {
            Ok(spec) => spec,
            Err(e) => return Err(e),
        };
        let k = match choose_entry(&spec.content) {
            None => return Ok(Body::Absent),
            Some(k) => k,
        };
        assert(chosen_entry(spec.content@) == Some(k as int));
        let entry = &spec.content[k];
        let media_type = entry.0.as_str();
        let media = &entry.1;
        assert(media_type@ == spec.content@[k as int].0@);
        assert(*media == spec.content@[k as int].1);
        if !is_media_type(media_type) {
            let m = media_type.to_owned();
            assert(m@ == spec.content@[k as int].0@);
            return Err(LoadError::MediaType { op: id.to_owned(), media_type: m });
        }
        if is_multipart(media_type) {
            let names = part_names(&media.schema, schemas);
            return Ok(Body::Multipart { names, required: spec.required });
        }
        if !is_json(media_type) {
            return Ok(Body::Opaque { media_type: media_type.to_owned(), required: spec.required });
        }
        json_body(id, &media.schema, spec.required, schemas, flags)
    }
}

/// The five words every subcommand spends on carrying a body, in the order
/// they are declared.
pub open spec fn transport_words() -> Seq<Seq<char>> {
    seq![JSON_BODY@, JSON_BODY_TEMPLATE@, RAW_BODY@, FILE_PART@, FIELD_PART@]
}

/// The words one operation guards against a document name: its gates, and
/// the confirmation where it writes.
pub open spec fn guards(gates: Seq<Seq<char>>, effect: Effect, commit: Seq<char>) -> Seq<(Seq<char>, Protected)> {
    gates.map_values(|g: Seq<char>| (g, Protected::Gate)) + if effect == Effect::Write {
        seq![(commit, Protected::Commit)]
    } else {
        seq![]
    }
}

/// Whether `ns` is the namespace one operation starts from: its guarded
/// words spent and guarded, and the five body flags spent.
pub open spec fn starts(ns: Namespace, gates: Seq<Seq<char>>, effect: Effect, commit: Seq<char>) -> bool {
    &&& ns.guarded() == guards(gates, effect, commit)
    &&& ns.taken() == guards(gates, effect, commit).map_values(|g: (Seq<char>, Protected)| g.0) + transport_words()
}

/// Whether `o` is what one operation of the document reads as: its id,
/// method and path; its place in the command tree; whether it writes; its
/// gates; each parameter read in turn and then the body, every flag claimed
/// from one namespace that starts with the operation's guarded words; and
/// every requirement between its parameters met.
pub open spec fn operation_read(
    path: Seq<char>,
    method: Seq<char>,
    op: OperationSpec,
    shared: Seq<ParamRef>,
    components: ComponentsSpec,
    grouping: Grouping,
    commit: Seq<char>,
    o: Operation,
) -> bool {
    let all = shared + op.parameters@;
    let m = method_named(method);
    &&& op.operation_id matches Some(id) && o.id@ == id@
    &&& o.method == m
    &&& o.path@ == path
    &&& o.commit@ == commit
    &&& o.summary == op.summary
    &&& o.description == op.description
    &&& o.group@ == kebab_of(overridden(extension_of(op.extensions@, GROUP@), group_word(grouping, path)))
    &&& o.command@ == kebab_of(overridden(extension_of(op.extensions@, COMMAND@), leaf_word(grouping, path, m)))
    &&& o.effect == effect_for(m, op.extensions@)
    &&& listed_names(extension_of(op.extensions@, GATES@)) matches Some(names)
        && o.gates@.map_values(|g: Gate| g@) == gate_words(names)
    &&& o.params@.len() == all.len()
    &&& exists|states: Seq<Namespace>|
        #![trigger states[0]]
        states.len() == all.len() + 1 && starts(
            states[0],
            o.gates@.map_values(|g: Gate| g@),
            o.effect,
            commit,
        ) && (forall|i: int|
            0 <= i < all.len() ==> #[trigger] param_read(
                o.id@,
                all[i],
                components.parameters@,
                components.schemas@,
                states[i],
                states[i + 1],
                Ok(o.params@[i]),
            )) && body_read(
            o.id@,
            op.request_body,
            components.request_bodies@,
            components.schemas@,
            states[all.len() as int],
            Ok(o.body),
        )
    &&& forall|i: int, j: int|
        0 <= i < o.params@.len() && 0 <= j < o.params@[i].needs@.len() ==> #[trigger] companion_met(
            o.params@,
            i,
            j,
        )
}

/// The words one operation guards, for a namespace.
fn guard_list<'g>(gates: &'g Vec<Gate>, effect: Effect, commit: &'g str) -> (r: Vec<(&'g str, Protected)>)
    ensures
        r@.map_values(|g: (&str, Protected)| (g.0@, g.1)) == guards(gates@.map_values(|g: Gate| g@), effect, commit@),
{
    let mut out: Vec<(&'g str, Protected)> = Vec::new();
    let mut i: usize = 0;
    while i < gates.len()
        invariant
            i <= gates@.len(),
            out@.len() == i,
            forall|k: int| 0 <= k < i ==> (#[trigger] out@[k]).0@ == gates@[k]@ && out@[k].1 == Protected::Gate,
        decreases gates.len() - i,
    {
        out.push((gates[i].as_str(), Protected::Gate));
        i += 1;
    }
    let ghost before = out@;
    if effect == Effect::Write {
        out.push((commit, Protected::Commit));
    }
    proof {
        let want = guards(gates@.map_values(|g: Gate| g@), effect, commit@);
        let got = out@.map_values(|g: (&str, Protected)| (g.0@, g.1));
        assert(got.len() == want.len());
        assert forall|k: int| 0 <= k < got.len() implies got[k] == want[k] by {
            if k < gates@.len() {
                assert(out@[k] == before[k]);
            }
        }
        assert(got =~= want);
    }
    out
}

/// Each parameter read in turn, every flag claimed from one namespace.
/// The parameters before the `done.len()`th all read, each from the
/// namespace the one before left, and that one is refused with `e`.
pub open spec fn reads_then_fails(
    id: Seq<char>,
    refs: Seq<&ParamRef>,
    components: ComponentsSpec,
    gates: Seq<Seq<char>>,
    effect: Effect,
    commit: Seq<char>,
    states: Seq<Namespace>,
    done: Seq<Param>,
    e: LoadError,
) -> bool {
    &&& done.len() < refs.len()
    &&& states.len() == done.len() + 2
    &&& starts(states[0], gates, effect, commit)
    &&& forall|i: int|
        0 <= i < done.len() ==> #[trigger] param_read(
            id,
            *refs[i],
            components.parameters@,
            components.schemas@,
            states[i],
            states[i + 1],
            Ok(done[i]),
        )
    &&& param_read(
        id,
        *refs[done.len() as int],
        components.parameters@,
        components.schemas@,
        states[done.len() as int],
        states[done.len() + 1 as int],
        Err(e),
    )
}

fn params_of(
    id: &str,
    refs: &Vec<&ParamRef>,
    components: &ComponentsSpec,
    flags: &mut Namespace,
    Ghost(gates): Ghost<Seq<Seq<char>>>,
    effect: Effect,
    commit: &str,
) -> (r: Result<Vec<Param>, LoadError>)
    requires
        starts(*old(flags), gates, effect, commit@),
    ensures
        r matches Ok(params) ==> params@.len() == refs@.len() && exists|states: Seq<Namespace>|
            #![trigger states[0]]
            states.len() == refs@.len() + 1 && starts(states[0], gates, effect, commit@) && states[refs@.len() as int]
                == *final(flags) && forall|i: int|
                0 <= i < refs@.len() ==> #[trigger] param_read(
                    id@,
                    *refs@[i],
                    components.parameters@,
                    components.schemas@,
                    states[i],
                    states[i + 1],
                    Ok(params@[i]),
                ),
        r matches Err(e) ==> exists|states: Seq<Namespace>, done: Seq<Param>|
            #[trigger] reads_then_fails(id@, refs@, *components, gates, effect, commit@, states, done, e),
{
    let ghost mut states: Seq<Namespace> = seq![*flags];
    let ghost from = *flags;
    let mut params: Vec<Param> = Vec::new();
    let mut i: usize = 0;
    while i < refs.len()
        invariant
            i <= refs@.len(),
            params@.len() == i,
            states.len() == i + 1,
            starts(states[0], gates, effect, commit@),
            states[i as int] == *flags,
            forall|k: int|
                0 <= k < i ==> #[trigger] param_read(
                    id@,
                    *refs@[k],
                    components.parameters@,
                    components.schemas@,
                    states[k],
                    states[k + 1],
                    Ok(params@[k]),
                ),
        decreases refs.len() - i,
    {
        let built = Param::build(id, refs[i], &components.parameters, &components.schemas, flags);
        let param = match built {
            Ok(param) => param,
            Err(e) => {
                proof {
                    let st = states.push(*flags);
                    assert(reads_then_fails(id@, refs@, *components, gates, effect, commit@, st, params@, e));
                }
                return Err(e);
            },
        };
        proof {
            states = states.push(*flags);
        }
        params.push(param);
        i += 1;
    }
    Ok(params)
}

/// Whether a gate list passes: no gate is refused, and a read names none.
pub open spec fn gates_pass(names: Seq<Seq<char>>, effect: Effect, commit: Seq<char>) -> bool {
    &&& forall|i: int| 0 <= i < names.len() ==> !#[trigger] gate_fault(names, i, commit)
    &&& !(effect == Effect::Read && names.len() > 0)
}

/// Where an operation's reading stops before its parameters: a group or a
/// command that does not read, a gate list that is not a list of names, or a
/// gate that is refused — each with the refusal it is answered with.
pub open spec fn refused_early(
    path: Seq<char>,
    method: Seq<char>,
    op: OperationSpec,
    grouping: Grouping,
    commit: Seq<char>,
    id: Seq<char>,
    r: Result<Operation, LoadError>,
) -> bool {
    let m = method_named(method);
    let grp = extension_of(op.extensions@, GROUP@);
    let cmd = extension_of(op.extensions@, COMMAND@);
    let placed = readable(grp) && readable(cmd) && kebab_of(overridden(grp, group_word(grouping, path))).len()
        > 0 && kebab_of(overridden(cmd, leaf_word(grouping, path, m))).len() > 0;
    let listed = listed_names(extension_of(op.extensions@, GATES@));
    let effect = effect_for(m, op.extensions@);
    &&& !placed ==> (r matches Err(e) && (e is Override || e is Name))
    &&& (placed && listed is None) ==> (r matches Err(LoadError::GateList { op: o, key }) && o@ == id
        && key == GATES)
    &&& placed ==> (listed matches Some(names) ==> (!gates_pass(names, effect, commit) ==> (r matches Err(e)
        && gates_read(names, effect, commit, id, Err::<Vec<Gate>, LoadError>(e)))))
}

/// Whether an operation gets past its placement and its gates: its group
/// and command read as names, and its gate list is a list that passes.
pub open spec fn past_gates(path: Seq<char>, method: Seq<char>, op: OperationSpec, grouping: Grouping, commit: Seq<char>) -> bool {
    let m = method_named(method);
    let grp = extension_of(op.extensions@, GROUP@);
    let cmd = extension_of(op.extensions@, COMMAND@);
    &&& readable(grp) && readable(cmd)
    &&& kebab_of(overridden(grp, group_word(grouping, path))).len() > 0
    &&& kebab_of(overridden(cmd, leaf_word(grouping, path, m))).len() > 0
    &&& listed_names(extension_of(op.extensions@, GATES@)) matches Some(names) && gates_pass(
        names,
        effect_for(m, op.extensions@),
        commit,
    )
}

/// Whether every parameter of `all` reads, in turn, as `params`, each from
/// the namespace the one before left, the first from the operation's own.
pub open spec fn all_read(
    id: Seq<char>,
    all: Seq<ParamRef>,
    components: ComponentsSpec,
    gates: Seq<Seq<char>>,
    effect: Effect,
    commit: Seq<char>,
    states: Seq<Namespace>,
    params: Seq<Param>,
) -> bool {
    &&& params.len() == all.len()
    &&& states.len() == all.len() + 1
    &&& starts(states[0], gates, effect, commit)
    &&& forall|i: int|
        0 <= i < all.len() ==> #[trigger] param_read(
            id,
            all[i],
            components.parameters@,
            components.schemas@,
            states[i],
            states[i + 1],
            Ok(params[i]),
        )
}

/// Whether `e` is what an operation past its gates is refused with: the
/// first parameter that does not read; or, every parameter read, the first
/// requirement between them that is not met; or, every one met, the body.
pub open spec fn refused_later(
    path: Seq<char>,
    method: Seq<char>,
    op: OperationSpec,
    shared: Seq<ParamRef>,
    components: ComponentsSpec,
    commit: Seq<char>,
    e: LoadError,
) -> bool {
    let id = op.operation_id->Some_0@;
    let all = shared + op.parameters@;
    let gates = gate_words(listed_names(extension_of(op.extensions@, GATES@))->Some_0);
    let effect = effect_for(method_named(method), op.extensions@);
    ||| exists|refs: Seq<&ParamRef>, states: Seq<Namespace>, done: Seq<Param>|
        #[trigger] reads_then_fails(id, refs, components, gates, effect, commit, states, done, e) && refs.len()
            == all.len() && forall|k: int| 0 <= k < all.len() ==> *refs[k] == all[k]
    ||| exists|states: Seq<Namespace>, params: Seq<Param>|
        #[trigger] all_read(id, all, components, gates, effect, commit, states, params) && ((exists|i: int, j: int|
            0 <= i < params.len() && 0 <= j < params[i].needs@.len() && companions_met_before(params, i, j)
                && !companion_met(params, i, j) && #[trigger] companion_refusal(params, i, j, id, e)) || ((forall|
            i: int,
            j: int,
        | 0 <= i < params.len() && 0 <= j < params[i].needs@.len() ==> #[trigger] companion_met(params, i, j))
            && body_read(
            id,
            op.request_body,
            components.request_bodies@,
            components.schemas@,
            states[all.len() as int],
            Err(e),
        )))
}

/// Past its placement and its gates, nothing early refuses an operation.
proof fn lemma_read_past_gates(
    path: Seq<char>,
    method: Seq<char>,
    op: OperationSpec,
    grouping: Grouping,
    commit: Seq<char>,
    id: Seq<char>,
)
    requires
        ({
            let m = method_named(method);
            let grp = extension_of(op.extensions@, GROUP@);
            let cmd = extension_of(op.extensions@, COMMAND@);
            &&& readable(grp) && readable(cmd)
            &&& kebab_of(overridden(grp, group_word(grouping, path))).len() > 0
            &&& kebab_of(overridden(cmd, leaf_word(grouping, path, m))).len() > 0
            &&& listed_names(extension_of(op.extensions@, GATES@)) matches Some(names) && gates_pass(
                names,
                effect_for(m, op.extensions@),
                commit,
            )
        }),
    ensures
        forall|r: Result<Operation, LoadError>| #[trigger] refused_early(path, method, op, grouping, commit, id, r),
{
}

impl Operation {
    /// One operation of the document, read into the model.
    ///
    /// The gates are read before the namespace exists, because their flags
    /// belong in it: a body field the vendor happens to spell like a gate
    /// refuses the load rather than shadowing the word that stands in front
    /// of the hazard. The confirmation is guarded on a write and nowhere
    /// else, because a read declares no confirmation to clash with.
    #[verifier::rlimit(100)]
    #[verifier::spinoff_prover]
    pub fn build(
        path: &str,
        method: &str,
        op: &OperationSpec,
        shared: &[ParamRef],
        components: &ComponentsSpec,
        grouping: Grouping,
        commit: &str,
    ) -> (r: Result<Operation, LoadError>)
        ensures
            op.operation_id is None ==> (r matches Err(LoadError::NoOperationId { method: m, path: p })
                && m@ == method@ && p@ == path@),
            r matches Ok(o) ==> operation_read(path@, method@, *op, shared@, *components, grouping, commit@, o),
            op.operation_id matches Some(id) ==> refused_early(path@, method@, *op, grouping, commit@, id@, r),
            r matches Err(e) ==> op.operation_id is None || !past_gates(path@, method@, *op, grouping, commit@)
                || refused_later(path@, method@, *op, shared@, *components, commit@, e),
            op.operation_id is Some && past_gates(path@, method@, *op, grouping, commit@) && (forall|e: LoadError|
                !#[trigger] refused_later(path@, method@, *op, shared@, *components, commit@, e)) ==> r is Ok,
    {
        let id = match &op.operation_id {
            Some(id) => id.as_str(),
            None => return Err(LoadError::NoOperationId { method: method.to_owned(), path: path.to_owned() }),
        };
        let m = method_of(method);
        let (group, command) = match placement(&op.extensions, id, path, m, grouping) {
            Ok(pair) => pair,
            Err(e) => return Err(e),
        };
        let effect = effect_of(m, &op.extensions);
        let gates = match gates_of(&op.extensions, id, effect, commit) {
            Ok(gates) => gates,
            Err(e) => return Err(e),
        };
        proof {
            lemma_read_past_gates(path@, method@, *op, grouping, commit@, id@);
        }
        let guarded = guard_list(&gates, effect, commit);
        let transport: Vec<&str> = vec![JSON_BODY, JSON_BODY_TEMPLATE, RAW_BODY, FILE_PART, FIELD_PART];
        let mut flags = Namespace::guarding(guarded.as_slice(), transport.as_slice());
        let ghost gate_view = gates@.map_values(|g: Gate| g@);
        proof {
            reveal_strlit("json-body");
            assert(transport@.map_values(|w: &str| w@) =~= transport_words());
            assert(guarded@.map_values(|g: (&str, Protected)| g.0@) =~= guards(gate_view, effect, commit@).map_values(
                |g: (Seq<char>, Protected)| g.0,
            ));
        }
        let mut refs: Vec<&ParamRef> = Vec::new();
        let mut i: usize = 0;
        while i < shared.len()
            invariant
                i <= shared@.len(),
                refs@.len() == i,
                forall|k: int| 0 <= k < i ==> *(#[trigger] refs@[k]) == shared@[k],
            decreases shared.len() - i,
        {
            refs.push(&shared[i]);
            i += 1;
        }
        let mut j: usize = 0;
        while j < op.parameters.len()
            invariant
                j <= op.parameters@.len(),
                refs@.len() == shared@.len() + j,
                forall|k: int| 0 <= k < shared@.len() ==> *(#[trigger] refs@[k]) == shared@[k],
                forall|k: int| 0 <= k < j ==> *(#[trigger] refs@[shared@.len() + k]) == op.parameters@[k],
            decreases op.parameters.len() - j,
        {
            refs.push(&op.parameters[j]);
            j += 1;
        }
        let ghost all = shared@ + op.parameters@;
        proof {
            assert forall|k: int| 0 <= k < all.len() implies *(#[trigger] refs@[k]) == all[k] by {
                if k >= shared@.len() {
                    assert(refs@[shared@.len() + (k - shared@.len())] == refs@[k]);
                }
            }
        }
        let ghost names = listed_names(extension_of(op.extensions@, GATES@))->Some_0;
        assert(gate_view == gate_words(names));
        let params = match params_of(id, &refs, components, &mut flags, Ghost(gate_view), effect, commit) {
            Ok(params) => params,
            Err(e) => {
                proof {
                    let (st, dn) = choose|st: Seq<Namespace>, dn: Seq<Param>|
                        #[trigger] reads_then_fails(id@, refs@, *components, gate_view, effect, commit@, st, dn, e);
                    assert(reads_then_fails(id@, refs@, *components, gate_view, effect, commit@, st, dn, e));
                    assert(refused_later(path@, method@, *op, shared@, *components, commit@, e));
                }
                return Err(e);
            },
        };
        let ghost st0 = choose|states: Seq<Namespace>|
            #![trigger states[0]]
            states.len() == refs@.len() + 1 && starts(states[0], gate_view, effect, commit@)
                && states[refs@.len() as int] == flags && forall|i: int|
                0 <= i < refs@.len() ==> #[trigger] param_read(
                    id@,
                    *refs@[i],
                    components.parameters@,
                    components.schemas@,
                    states[i],
                    states[i + 1],
                    Ok(params@[i]),
                );
        proof {
            assert forall|i: int| 0 <= i < all.len() implies #[trigger] param_read(
                id@,
                all[i],
                components.parameters@,
                components.schemas@,
                st0[i],
                st0[i + 1],
                Ok(params@[i]),
            ) by {
                assert(*refs@[i] == all[i]);
                assert(param_read(id@, *refs@[i], components.parameters@, components.schemas@, st0[i], st0[i + 1], Ok(params@[i])));
            }
            assert(all_read(id@, all, *components, gate_view, effect, commit@, st0, params@));
        }
        match companions(id, params.as_slice()) {
            Ok(()) => {},
            Err(e) => {
                proof {
                    assert(refused_later(path@, method@, *op, shared@, *components, commit@, e));
                }
                return Err(e);
            },
        }
        let ghost before_body = flags;
        let body = match Body::build(id, &op.request_body, &components.request_bodies, &components.schemas, &mut flags) {
            Ok(body) => body,
            Err(e) => {
                proof {
                    assert(st0[all.len() as int] == before_body);
                    assert(refused_later(path@, method@, *op, shared@, *components, commit@, e));
                }
                return Err(e);
            },
        };
        let summary = match &op.summary {
            Some(t) => Some(t.clone()),
            None => None,
        };
        let description = match &op.description {
            Some(t) => Some(t.clone()),
            None => None,
        };
        let o = Operation {
            id: id.to_owned(),
            group,
            command,
            commit: commit.to_owned(),
            method: m,
            path: path.to_owned(),
            summary,
            description,
            params,
            body,
            effect,
            gates,
        };
        proof {
            let st = choose|states: Seq<Namespace>|
                #![trigger states[0]]
                states.len() == refs@.len() + 1 && starts(states[0], gate_view, effect, commit@)
                    && states[refs@.len() as int] == before_body && forall|i: int|
                    0 <= i < refs@.len() ==> #[trigger] param_read(
                        id@,
                        *refs@[i],
                        components.parameters@,
                        components.schemas@,
                        states[i],
                        states[i + 1],
                        Ok(params@[i]),
                    );
            assert(o.params@ == params@);
            assert(o.gates@.map_values(|g: Gate| g@) == gate_view);
            assert forall|i: int| 0 <= i < all.len() implies #[trigger] param_read(
                o.id@,
                all[i],
                components.parameters@,
                components.schemas@,
                st[i],
                st[i + 1],
                Ok(o.params@[i]),
            ) by {
                assert(*refs@[i] == all[i]);
                assert(param_read(id@, *refs@[i], components.parameters@, components.schemas@, st[i], st[i + 1], Ok(params@[i])));
            }
            assert(body_read(o.id@, op.request_body, components.request_bodies@, components.schemas@, st[all.len() as int], Ok(o.body)));
        }
        Ok(o)
    }
}

/// The pieces `http::Uri` reads a server URL as — its scheme, its authority
/// and its path — or `None` where it does not read it as a URI at all.
pub uninterp spec fn uri_parts(url: Seq<char>) -> Option<(Option<Seq<char>>, Option<Seq<char>>, Seq<char>)>;

/// The view of an optional string.
pub open spec fn opt_view(s: Option<String>) -> Option<Seq<char>> {
    match s {
        Some(t) => Some(t@),
        None => None,
    }
}

/// `Uri::try_from` on a server URL, moved into the three pieces a request's
/// URL is assembled from: `scheme_str`, `authority`, and `path`. Which pieces
/// a URL has is named and not stated here.
#[verifier::external_body]
fn base_of(url: &str) -> (r: Result<Base, http::uri::InvalidUri>)
    ensures
        match uri_parts(url@) {
            None => r is Err,
            Some((scheme, authority, path)) => r matches Ok(b) && opt_view(b.scheme) == scheme
                && opt_view(b.authority) == authority && b.path@ == path,
        },
{
    http::Uri::try_from(url).map(|u| Base {
        scheme: u.scheme_str().map(str::to_owned),
        authority: u.authority().map(|a| a.as_str().to_owned()),
        path: u.path().to_owned(),
    })
}

impl Base {
    /// A server URL, in the pieces a request's URL is assembled from; refused
    /// where it does not read as a URI.
    pub fn parse(url: &str) -> (r: Result<Base, http::uri::InvalidUri>)
        ensures
            match uri_parts(url@) {
                None => r is Err,
                Some((scheme, authority, path)) => r matches Ok(b) && opt_view(b.scheme) == scheme
                    && opt_view(b.authority) == authority && b.path@ == path,
            },
    {
        base_of(url)
    }
}

/// Every operation the document's paths hold, in document order: for each
/// path, its operations in OpenAPI's order of methods, each with the
/// parameters its path item shares.
pub open spec fn path_ops(paths: Seq<(String, PathRef)>) -> Seq<(String, String, OperationSpec, Seq<ParamRef>)>
    decreases paths.len(),
{
    if paths.len() == 0 {
        seq![]
    } else {
        path_ops(paths.drop_last()) + match paths.last().1 {
            PathRef::Item(item) => item.operations@.map_values(
                |e: (String, OperationSpec)| (paths.last().0, e.0, e.1, item.parameters@),
            ),
            PathRef::Ref(_) => seq![],
        }
    }
}

/// Whether `g` is the grouping rule a list of paths gives: descend while
/// every path says the same thing, and stop at the first level that tells
/// them apart.
pub open spec fn grouping_for(paths: Seq<Seq<char>>, g: Grouping) -> bool {
    &&& forall|d: int| 0 <= d < g.depth() ==> crate::names::descends(paths, d)
    &&& !crate::names::descends(paths, g.depth() as int)
}

/// The keys of the document's paths.
pub open spec fn path_keys(paths: Seq<(String, PathRef)>) -> Seq<Seq<char>> {
    paths.map_values(|p: (String, PathRef)| p.0@)
}

/// Whether `d` is what a whole document reads as: its first server's pieces,
/// the confirmation word chosen, and each of its operations in document order,
/// no two of them at one place in the command tree.
pub open spec fn document_read(spec: Spec, commit: Seq<char>, d: Document) -> bool {
    let entries = path_ops(spec.paths@);
    &&& spec.servers@.len() > 0
    &&& uri_parts(spec.servers@[0]@) matches Some((scheme, authority, path))
        && opt_view(d.base.scheme) == scheme && opt_view(d.base.authority) == authority
        && d.base.path@ == path
    &&& d.commit@ == commit
    &&& d.ops@.len() == entries.len()
    &&& exists|g: Grouping| #[trigger] grouping_for(path_keys(spec.paths@), g) && forall|i: int|
        0 <= i < entries.len() ==> #[trigger] operation_read(
            entries[i].0@,
            entries[i].1@,
            entries[i].2,
            entries[i].3,
            spec.components,
            g,
            commit,
            d.ops@[i],
        )
    &&& forall|i: int, j: int| !#[trigger] collide(d.ops@, i, j)
}

/// Whether `e` is what reading one operation is refused with: no id; a
/// placement or a gate list that does not read; or, past those, a parameter,
/// a requirement between parameters, or the body.
pub open spec fn op_refused(
    path: Seq<char>,
    method: Seq<char>,
    op: OperationSpec,
    shared: Seq<ParamRef>,
    components: ComponentsSpec,
    grouping: Grouping,
    commit: Seq<char>,
    e: LoadError,
) -> bool {
    match op.operation_id {
        None => e matches LoadError::NoOperationId { method: m, path: p } && m@ == method && p@ == path,
        Some(id) => if past_gates(path, method, op, grouping, commit) {
            refused_later(path, method, op, shared, components, commit, e)
        } else {
            refused_early(path, method, op, grouping, commit, id@, Err(e))
        },
    }
}

/// Whether the `q`th operation of the `n`th path is refused with `e`.
pub open spec fn path_op_refused(spec: Spec, grouping: Grouping, commit: Seq<char>, n: int, q: int, e: LoadError) -> bool {
    &&& 0 <= n < spec.paths@.len()
    &&& spec.paths@[n].1 matches PathRef::Item(item) && 0 <= q < item.operations@.len() && op_refused(
        spec.paths@[n].0@,
        item.operations@[q].0@,
        item.operations@[q].1,
        item.parameters@,
        spec.components,
        grouping,
        commit,
        e,
    )
}

/// Whether every operation of the document reads, in document order, as `ops`.
pub open spec fn ops_read(spec: Spec, grouping: Grouping, commit: Seq<char>, ops: Seq<Operation>) -> bool {
    let entries = path_ops(spec.paths@);
    &&& ops.len() == entries.len()
    &&& forall|i: int|
        0 <= i < entries.len() ==> #[trigger] operation_read(
            entries[i].0@,
            entries[i].1@,
            entries[i].2,
            entries[i].3,
            spec.components,
            grouping,
            commit,
            ops[i],
        )
}

/// Whether `e` is what a whole document is refused with: no server; a first
/// server that is no URI; a path that is a reference; an operation that is
/// refused; or two operations at one place in the command tree.
pub open spec fn document_refused(spec: Spec, commit: Seq<char>, e: LoadError) -> bool {
    let keys = path_keys(spec.paths@);
    ||| spec.servers@.len() == 0 && e is NoServer
    ||| spec.servers@.len() > 0 && uri_parts(spec.servers@[0]@) is None && (e matches LoadError::ServerUrl {
        url,
        ..
    } && url@ == spec.servers@[0]@)
    ||| spec.servers@.len() > 0 && uri_parts(spec.servers@[0]@) is Some && ((exists|n: int|
        0 <= n < spec.paths@.len() && (#[trigger] spec.paths@[n]).1 is Ref && (e matches LoadError::Reference(
            RefError::Missing { reference },
        ) && reference@ == "paths["@ + spec.paths@[n].0@ + "]"@)) || (exists|g: Grouping, n: int, q: int|
        grouping_for(keys, g) && #[trigger] path_op_refused(spec, g, commit, n, q, e)) || (exists|
        g: Grouping,
        ops: Seq<Operation>,
    |
        grouping_for(keys, g) && #[trigger] ops_read(spec, g, commit, ops) && exists|i: int, j: int|
            #[trigger] collide(ops, i, j) && (e matches LoadError::DuplicateCommand { group, command, first, second }
                && group@ == ops[i].group@ && command@ == ops[i].command@ && first@ == ops[i].id@ && second@
                == ops[j].id@)))
}

impl Document {
    /// The operations a document read as OpenAPI holds, with every `$ref`
    /// resolved, against its first server.
    pub fn from_spec(spec: &Spec, commit: &str) -> (r: Result<Document, LoadError>)
        ensures
            spec.servers@.len() == 0 ==> r matches Err(LoadError::NoServer),
            spec.servers@.len() > 0 && uri_parts(spec.servers@[0]@) is None ==> (r matches Err(
                LoadError::ServerUrl { url, .. },
            ) && url@ == spec.servers@[0]@),
            r matches Ok(d) ==> document_read(*spec, commit@, d),
            r matches Err(e) ==> document_refused(*spec, commit@, e),
            spec.servers@.len() > 0 && uri_parts(spec.servers@[0]@) is Some && (forall|e: LoadError|
                !#[trigger] document_refused(*spec, commit@, e)) ==> r is Ok,
    {
        if spec.servers.len() == 0 {
            return Err(LoadError::NoServer);
        }
        let url = spec.servers[0].as_str();
        let base = match base_of(url) {
            Ok(base) => base,
            Err(source) => return Err(LoadError::ServerUrl { url: url.to_owned(), source }),
        };
        let mut keys: Vec<&str> = Vec::new();
        let mut k: usize = 0;
        while k < spec.paths.len()
            invariant
                k <= spec.paths@.len(),
                keys@.len() == k,
                forall|j: int| 0 <= j < k ==> (#[trigger] keys@[j])@ == spec.paths@[j].0@,
            decreases spec.paths.len() - k,
        {
            keys.push(spec.paths[k].0.as_str());
            k += 1;
        }
        let grouping = Grouping::of(keys.as_slice());
        proof {
            assert(crate::names::path_views(keys@) =~= path_keys(spec.paths@));
            assert(grouping_for(path_keys(spec.paths@), grouping));
        }
        let mut ops: Vec<Operation> = Vec::new();
        let mut p: usize = 0;
        while p < spec.paths.len()
            invariant
                spec.servers@.len() > 0,
                uri_parts(spec.servers@[0]@) is Some,
                p <= spec.paths@.len(),
                grouping_for(path_keys(spec.paths@), grouping),
                ops@.len() == path_ops(spec.paths@.take(p as int)).len(),
                forall|i: int|
                    0 <= i < ops@.len() ==> #[trigger] operation_read(
                        path_ops(spec.paths@.take(p as int))[i].0@,
                        path_ops(spec.paths@.take(p as int))[i].1@,
                        path_ops(spec.paths@.take(p as int))[i].2,
                        path_ops(spec.paths@.take(p as int))[i].3,
                        spec.components,
                        grouping,
                        commit@,
                        ops@[i],
                    ),
            decreases spec.paths.len() - p,
        {
            let path = spec.paths[p].0.as_str();
            let ghost before = path_ops(spec.paths@.take(p as int));
            proof {
                assert(spec.paths@.take(p + 1).drop_last() =~= spec.paths@.take(p as int));
                assert(spec.paths@.take(p + 1).last() == spec.paths@[p as int]);
            }
            let item = match &spec.paths[p].1 {
                PathRef::Ref(_) => {
                    let mut reference: Vec<char> = Vec::new();
                    append_str(&mut reference, "paths[");
                    append_str(&mut reference, path);
                    append_str(&mut reference, "]");
                    let e = LoadError::Reference(RefError::Missing { reference: string_of(reference.as_slice()) });
                    proof {
                        assert(spec.paths@[p as int].1 is Ref);
                        assert(document_refused(*spec, commit@, e));
                    }
                    return Err(e);
                },
                PathRef::Item(item) => item,
            };
            let ghost added = item.operations@.map_values(
                |e: (String, OperationSpec)| (spec.paths@[p as int].0, e.0, e.1, item.parameters@),
            );
            let mut q: usize = 0;
            while q < item.operations.len()
                invariant
                    spec.servers@.len() > 0,
                    uri_parts(spec.servers@[0]@) is Some,
                    p < spec.paths@.len(),
                    spec.paths@[p as int].1 == PathRef::Item(*item),
                    grouping_for(path_keys(spec.paths@), grouping),
                    path@ == spec.paths@[p as int].0@,
                    added == item.operations@.map_values(
                        |e: (String, OperationSpec)| (spec.paths@[p as int].0, e.0, e.1, item.parameters@),
                    ),
                    before == path_ops(spec.paths@.take(p as int)),
                    q <= item.operations@.len(),
                    ops@.len() == before.len() + q,
                    forall|i: int|
                        0 <= i < ops@.len() ==> #[trigger] operation_read(
                            (before + added)[i].0@,
                            (before + added)[i].1@,
                            (before + added)[i].2,
                            (before + added)[i].3,
                            spec.components,
                            grouping,
                            commit@,
                            ops@[i],
                        ),
                decreases item.operations.len() - q,
            {
                let method = item.operations[q].0.as_str();
                let op = &item.operations[q].1;
                let built = Operation::build(path, method, op, item.parameters.as_slice(), &spec.components, grouping, commit);
                let o = match built {
                    Ok(o) => o,
                    Err(e) => {
                        proof {
                            assert(path_op_refused(*spec, grouping, commit@, p as int, q as int, e));
                            assert(document_refused(*spec, commit@, e));
                        }
                        return Err(e);
                    },
                };
                proof {
                    let n = before.len() + q;
                    assert((before + added)[n] == added[q as int]);
                }
                ops.push(o);
                q += 1;
            }
            proof {
                assert(path_ops(spec.paths@.take(p + 1)) =~= before + added);
            }
            p += 1;
        }
        proof {
            assert(spec.paths@.take(spec.paths@.len() as int) =~= spec.paths@);
        }
        proof {
            assert(ops_read(*spec, grouping, commit@, ops@));
        }
        match first_collision(ops.as_slice()) {
            Some(e) => {
                proof {
                    assert(document_refused(*spec, commit@, e));
                }
                return Err(e);
            },
            None => {},
        }
        let d = Document { base, commit: commit.to_owned(), ops };
        proof {
            assert(d.ops@ == ops@);
            assert(grouping_for(path_keys(spec.paths@), grouping));
        }
        Ok(d)
    }
}

/// The document the vendor's text and the Overlays give, every Overlay laid
/// over it in order; `None` where the text does not read or a layer refuses.
pub open spec fn corrected_of(document: Seq<char>, overlays: Seq<Seq<char>>) -> Option<Json> {
    if reads_as_value(document) {
        layers_applied(value_read(document), overlays)
    } else {
        None
    }
}

/// Whether a document's `required` lists name a key that nothing the list
/// is held to declares.
pub open spec fn has_phantom(doc: Json) -> bool {
    exists|depth: nat| #[trigger] phantom_in(Kind::Root, doc, doc, Seq::<Json>::empty(), depth)
}

/// What reading one whole document comes to: its model where it reads, the
/// refusal it earns, and the model owed where nothing refuses.
pub open spec fn from_spec_outcome(spec: Spec, commit: Seq<char>, r: Result<Document, LoadError>) -> bool {
    &&& r matches Ok(d) ==> d.commit@ == commit && document_read(spec, commit, d)
    &&& r matches Err(e) ==> document_refused(spec, commit, e)
    &&& spec.servers@.len() > 0 && uri_parts(spec.servers@[0]@) is Some && (forall|e: LoadError|
        !#[trigger] document_refused(spec, commit, e)) ==> r is Ok
}

/// What loading comes to: the refusal of the document's text or of the first
/// Overlay that refuses; where the corrected document names a key nothing
/// admits, a refusal that names the phantom keys, and only there; where it is
/// no OpenAPI 3 document, that refusal; and otherwise what reading the
/// document it is gives.
pub open spec fn loaded(
    document: Seq<char>,
    overlays: Seq<Seq<char>>,
    commit: Seq<char>,
    r: Result<Document, LoadError>,
) -> bool {
    match corrected_of(document, overlays) {
        None => r matches Err(LoadError::Overlay(e)) && (e is Document <==> !reads_as_value(document))
            && (reads_as_value(document) ==> exists|k: int| #[trigger] refused_at(document, overlays, k, e)),
        Some(c) => {
            &&& phantom_refusal(r) <==> has_phantom(c)
            &&& phantoms_reported(c, r)
            &&& !phantom_refusal(r) ==> match openapi_parts(c) {
                None => r matches Err(LoadError::Shape(_)),
                Some(p) => exists|spec: Spec| #[trigger] spec_holds(p, spec) && from_spec_outcome(spec, commit, r),
            }
        },
    }
}

/// Whether the `k`th Overlay is the first to refuse, and refuses with `e`.
pub open spec fn refused_at(document: Seq<char>, overlays: Seq<Seq<char>>, k: int, e: OverlayError) -> bool {
    &&& 0 <= k < overlays.len()
    &&& layers_applied(value_read(document), overlays.take(k)) matches Some(d) && layer_refusal(d, overlays[k], e)
}

/// Whether a refusal for phantom keys names exactly the nodes and names the
/// walk over the corrected document finds, in the order it finds them.
pub open spec fn phantoms_reported(doc: Json, r: Result<Document, LoadError>) -> bool {
    r matches Err(LoadError::Phantom(k)) ==> forall|d: nat|
        #[trigger] walk_in(Kind::Root, doc, doc, Seq::<Json>::empty(), "$"@, d) matches Some(l) ==> views(k.nodes@) == l
}

/// Whether loading was refused for naming phantom keys.
pub open spec fn phantom_refusal(r: Result<Document, LoadError>) -> bool {
    r matches Err(LoadError::Phantom(_))
}

/// The texts of a list of Overlays.
pub open spec fn overlay_texts(overlays: Seq<&str>) -> Seq<Seq<char>> {
    overlays.map_values(|o: &str| o@)
}

impl Document {
    /// Parse the vendor's document, lay the adopter's Overlays over it in
    /// order, and resolve the result into operations, confirming writes with
    /// `--commit`.
    pub fn load(document: &str, overlays: &[&str]) -> (r: Result<Document, LoadError>)
        ensures
            loaded(document@, overlay_texts(overlays@), COMMIT@, r),
    {
        let loading = Loading::new();
        Self::load_with(document, overlays, &loading)
    }

    /// The same, with the CLI's own words chosen rather than defaulted.
    ///
    /// Every argument is a file's contents, YAML or JSON. Each Overlay
    /// corrects the document the ones before it produced, so the order they
    /// are given in is the order they happen. The `required` lists are
    /// checked against the corrected document while it is still the text the
    /// vendor wrote, and only then is it read as OpenAPI.
    #[verifier::rlimit(100)]
    #[verifier::spinoff_prover]
    pub fn load_with(document: &str, overlays: &[&str], loading: &Loading) -> (r: Result<Document, LoadError>)
        ensures
            loaded(document@, overlay_texts(overlays@), loading.confirmation(), r),
    {
        let ghost texts = overlay_texts(overlays@);
        let mut doc = match crate::overlay::parse(document) {
            Ok(doc) => doc,
            Err(e) => return Err(LoadError::Overlay(e)),
        };
        let ghost start = value_read(document@);
        let mut i: usize = 0;
        while i < overlays.len()
            invariant
                i <= overlays@.len(),
                reads_as_value(document@),
                start == value_read(document@),
                texts == overlay_texts(overlays@),
                layers_applied(start, texts.take(i as int)) == Some(doc),
            decreases overlays.len() - i,
        {
            proof {
                assert(texts.take(i + 1).drop_last() =~= texts.take(i as int));
                assert(texts.take(i + 1).last() == overlays@[i as int]@);
            }
            doc = match crate::overlay::apply(doc, overlays[i]) {
                Ok(next) => next,
                Err(e) => {
                    proof {
                        assert(layers_applied(start, texts.take(i + 1)) is None);
                        crate::overlay::lemma_refusal_stays(start, texts, i as int + 1);
                        assert(refused_at(document@, texts, i as int, e));
                    }
                    return Err(LoadError::Overlay(e));
                },
            };
            i += 1;
        }
        proof {
            assert(texts.take(overlays@.len() as int) =~= texts);
        }
        match crate::required::check_json(&doc) {
            Ok(()) => {},
            Err(phantoms) => return Err(LoadError::Phantom(phantoms)),
        }
        let (_, parts) = match read_openapi(&doc) {
            Ok(read) => read,
            Err(e) => return Err(LoadError::Shape(e)),
        };
        let ghost p = parts;
        let spec = spec_from(parts);
        let r = Self::from_spec(&spec, loading.word());
        proof {
            assert(spec_holds(p, spec));
            assert(from_spec_outcome(spec, loading.confirmation(), r));
        }
        r
    }
}

} // verus!
