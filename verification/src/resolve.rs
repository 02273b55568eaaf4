//! Following `$ref`s, and deciding what one schema is worth on a command line.
//!
//! A schema either fits on one flag — it is a [`Scalar`] — or it does not, and
//! then the body goes through a file. A `$ref` is followed before the schema
//! is read, so a property pointed at a named schema carries that schema's
//! rules onto the flag.
//!
//! What terminates a walk along references is the set of the references
//! already taken, not a count of the hops: a chain of any length that
//! resolves is followed to its end, and a chain that comes back to a name it
//! has taken is a cycle, named as one.

use vstd::prelude::*;

use crate::openapi::{BodyRef, BodySpec, KindSpec, ParamRef, ParamSpec, SchemaRef, SchemaSpec};
use crate::scalar::Scalar;
use crate::schema::RefError;
use crate::text::{chars_of, str_is, string_of};

verus! {

/// `#/components/<section>/`: what a reference into one section starts with.
pub open spec fn prefix_of(section: Seq<char>) -> Seq<char> {
    "#/components/"@ + section + "/"@
}

/// The name a reference gives in a section, if it points into that section.
pub open spec fn key_in(reference: Seq<char>, prefix: Seq<char>) -> Option<Seq<char>> {
    if reference.len() >= prefix.len() && reference.take(prefix.len() as int) == prefix {
        Some(reference.skip(prefix.len() as int))
    } else {
        None
    }
}

/// The names a section holds.
pub open spec fn names_of<T>(section: Seq<(String, T)>) -> Set<Seq<char>> {
    section.map_values(|e: (String, T)| e.0@).to_set()
}

/// The entry a section holds under `key`: the first so named.
pub open spec fn entry<T>(section: Seq<(String, T)>, key: Seq<char>) -> Option<T> {
    if exists|i: int| 0 <= i < section.len() && (#[trigger] section[i]).0@ == key {
        let i = choose|i: int|
            0 <= i < section.len() && (#[trigger] section[i]).0@ == key && forall|j: int|
                0 <= j < i ==> (#[trigger] section[j]).0@ != key;
        Some(section[i].1)
    } else {
        None
    }
}

/// How many names of a section a walk has not taken yet.
pub open spec fn untaken<T>(section: Seq<(String, T)>, seen: Set<Seq<char>>) -> nat {
    names_of(section).difference(seen).len()
}

/// A name the section holds and the walk has not taken leaves one fewer
/// untaken once it is taken.
#[verifier::rlimit(40)]
pub proof fn lemma_taking_shrinks<T>(section: Seq<(String, T)>, seen: Set<Seq<char>>, key: Seq<char>)
    requires
        entry(section, key) is Some,
        !seen.contains(key),
    ensures
        untaken(section, seen.insert(key)) < untaken(section, seen),
{
    let names = section.map_values(|e: (String, T)| e.0@);
    assert(exists|i: int| 0 <= i < section.len() && (#[trigger] section[i]).0@ == key);
    let i = choose|i: int| 0 <= i < section.len() && (#[trigger] section[i]).0@ == key;
    assert(names[i] == key);
    assert(names.contains(key));
    vstd::seq_lib::seq_to_set_is_finite(names);
    let all = names.to_set();
    assert(all.contains(key));
    let rest = all.difference(seen);
    assert(rest.contains(key));
    vstd::set_lib::lemma_set_subset_finite(all, rest);
    assert(all.difference(seen.insert(key)) =~= rest.remove(key));
    vstd::set::axiom_set_remove_len(rest, key);
}

/// A schema reference followed to the schema it names, `$ref` hop by hop.
pub open spec fn resolved(
    current: SchemaRef,
    section: Seq<(String, SchemaRef)>,
    seen: Set<Seq<char>>,
) -> Result<SchemaSpec, RefError>
    decreases untaken(section, seen),
{
    match current {
        SchemaRef::Item(b) => Ok(*b),
        SchemaRef::Ref(r) => match key_in(r@, prefix_of("schemas"@)) {
            None => Err(RefError::Missing { reference: r }),
            Some(k) => if seen.contains(k) {
                Err(RefError::Cycle { reference: r })
            } else {
                match entry(section, k) {
                    None => Err(RefError::Missing { reference: r }),
                    Some(next) => {
                        proof {
                            lemma_taking_shrinks(section, seen, k);
                        }
                        resolved(next, section, seen.insert(k))
                    },
                }
            },
        },
    }
}

/// The schema that states the rules: `$ref` hops followed, and a
/// single-element `allOf` read as the element it wraps, the references taken
/// shared across both.
pub open spec fn stated_from(
    current: SchemaRef,
    section: Seq<(String, SchemaRef)>,
    seen: Set<Seq<char>>,
) -> Result<SchemaSpec, RefError>
    decreases untaken(section, seen), current,
{
    match current {
        SchemaRef::Item(b) => match b.kind {
            KindSpec::AllOf(members) => if members@.len() == 1 {
                proof {
                    assert(decreases_to!(current => members@[0]));
                }
                stated_from(members@[0], section, seen)
            } else {
                Ok(*b)
            },
            _ => Ok(*b),
        },
        SchemaRef::Ref(r) => match key_in(r@, prefix_of("schemas"@)) {
            None => Err(RefError::Missing { reference: r }),
            Some(k) => if seen.contains(k) {
                Err(RefError::Cycle { reference: r })
            } else {
                match entry(section, k) {
                    None => Err(RefError::Missing { reference: r }),
                    Some(next) => {
                        proof {
                            lemma_taking_shrinks(section, seen, k);
                        }
                        stated_from(next, section, seen.insert(k))
                    },
                }
            },
        },
    }
}

/// A parameter reference followed to the parameter it names.
pub open spec fn resolved_param(
    current: ParamRef,
    section: Seq<(String, ParamRef)>,
    seen: Set<Seq<char>>,
) -> Result<ParamSpec, RefError>
    decreases untaken(section, seen),
{
    match current {
        ParamRef::Item(p) => Ok(p),
        ParamRef::Ref(r) => match key_in(r@, prefix_of("parameters"@)) {
            None => Err(RefError::Missing { reference: r }),
            Some(k) => if seen.contains(k) {
                Err(RefError::Cycle { reference: r })
            } else {
                match entry(section, k) {
                    None => Err(RefError::Missing { reference: r }),
                    Some(next) => {
                        proof {
                            lemma_taking_shrinks(section, seen, k);
                        }
                        resolved_param(next, section, seen.insert(k))
                    },
                }
            },
        },
    }
}

/// A request body reference followed to the body it names.
pub open spec fn resolved_body(
    current: BodyRef,
    section: Seq<(String, BodyRef)>,
    seen: Set<Seq<char>>,
) -> Result<BodySpec, RefError>
    decreases untaken(section, seen),
{
    match current {
        BodyRef::Item(b) => Ok(b),
        BodyRef::Ref(r) => match key_in(r@, prefix_of("requestBodies"@)) {
            None => Err(RefError::Missing { reference: r }),
            Some(k) => if seen.contains(k) {
                Err(RefError::Cycle { reference: r })
            } else {
                match entry(section, k) {
                    None => Err(RefError::Missing { reference: r }),
                    Some(next) => {
                        proof {
                            lemma_taking_shrinks(section, seen, k);
                        }
                        resolved_body(next, section, seen.insert(k))
                    },
                }
            },
        },
    }
}

/// The name `reference` gives after `prefix`, if it starts with it.
pub(crate) fn strip(reference: &str, prefix: &str) -> (r: Option<String>)
    ensures
        match key_in(reference@, prefix@) {
            Some(k) => r matches Some(s) && s@ == k,
            None => r is None,
        },
{
    let chars = chars_of(reference);
    let head = chars_of(prefix);
    let n = chars.len();
    let p = head.len();
    if n < p {
        return None;
    }
    let mut i: usize = 0;
    while i < p
        invariant
            i <= p <= n,
            n == chars@.len(),
            p == head@.len(),
            chars@ == reference@,
            head@ == prefix@,
            forall|j: int| 0 <= j < i ==> chars@[j] == head@[j],
        decreases p - i,
    {
        if chars[i] != head[i] {
            assert(chars@.take(p as int)[i as int] != head@[i as int]);
            return None;
        }
        i += 1;
    }
    assert(chars@.take(p as int) =~= head@);
    let mut rest: Vec<char> = Vec::new();
    let mut j = p;
    while j < n
        invariant
            p <= j <= n,
            n == chars@.len(),
            rest@ == chars@.subrange(p as int, j as int),
        decreases n - j,
    {
        rest.push(chars[j]);
        j += 1;
    }
    assert(rest@ =~= chars@.skip(p as int));
    Some(string_of(rest.as_slice()))
}

/// Whether `key` is among the names taken.
fn taken(seen: &Vec<String>, key: &str) -> (r: bool)
    ensures
        r == seen@.map_values(|s: String| s@).to_set().contains(key@),
{
    let ghost names = seen@.map_values(|s: String| s@);
    let mut i: usize = 0;
    while i < seen.len()
        invariant
            i <= seen@.len(),
            names == seen@.map_values(|s: String| s@),
            forall|j: int| 0 <= j < i ==> (#[trigger] names[j]) != key@,
        decreases seen.len() - i,
    {
        if str_is(seen[i].as_str(), key) {
            assert(names[i as int] == key@);
            return true;
        }
        i += 1;
    }
    proof {
        if names.to_set().contains(key@) {
            let j = choose|j: int| 0 <= j < names.len() && names[j] == key@;
        }
    }
    false
}

/// The names a walk has taken, as a set.
pub open spec fn seen_set(seen: Seq<String>) -> Set<Seq<char>> {
    seen.map_values(|s: String| s@).to_set()
}

/// The schema entry a section holds under `key`.
fn schema_entry<'c>(section: &'c [(String, SchemaRef)], key: &str) -> (r: Option<&'c SchemaRef>)
    ensures
        match entry(section@, key@) {
            Some(e) => r matches Some(x) && *x == e,
            None => r is None,
        },
{
    let mut i: usize = 0;
    while i < section.len()
        invariant
            i <= section@.len(),
            forall|j: int| 0 <= j < i ==> (#[trigger] section@[j]).0@ != key@,
        decreases section.len() - i,
    {
        if str_is(section[i].0.as_str(), key) {
            proof {
                assert(section@[i as int].0@ == key@);
                let k = choose|k: int|
                    0 <= k < section@.len() && (#[trigger] section@[k]).0@ == key@ && forall|j: int|
                        0 <= j < k ==> (#[trigger] section@[j]).0@ != key@;
                if k < i {
                    assert(section@[k].0@ != key@);
                } else if k > i {
                    assert(section@[i as int].0@ != key@);
                }
                assert(k == i);
            }
            return Some(&section[i].1);
        }
        i += 1;
    }
    None
}

/// Adds `key` to the names taken.
fn take(seen: &mut Vec<String>, key: String)
    ensures
        seen_set(final(seen)@) == seen_set(old(seen)@).insert(key@),
{
    let ghost before = seen@;
    let ghost old_names = before.map_values(|s: String| s@);
    seen.push(key);
    proof {
        let now = seen@.map_values(|s: String| s@);
        assert(now =~= old_names.push(key@));
        assert forall|x: Seq<char>| now.to_set().contains(x) == old_names.to_set().insert(
            key@,
        ).contains(x) by {
            if now.to_set().contains(x) {
                let j = choose|j: int| 0 <= j < now.len() && now[j] == x;
                if j < old_names.len() {
                    assert(old_names[j] == x);
                }
            }
            if old_names.to_set().contains(x) {
                let j = choose|j: int| 0 <= j < old_names.len() && #[trigger] old_names[j] == x;
                assert(now[j] == x);
            }
            if x == key@ {
                assert(now[old_names.len() as int] == x);
            }
        }
        assert(seen_set(seen@) =~= seen_set(before).insert(key@));
    }
}

/// The schema a reference names, `$ref` hops followed.
pub fn resolve_schema<'c>(schema: &'c SchemaRef, section: &'c [(String, SchemaRef)]) -> (r: Result<
    &'c SchemaSpec,
    RefError,
>)
    ensures
        match resolved(*schema, section@, Set::empty()) {
            Ok(s) => r matches Ok(x) && *x == s,
            Err(e) => r matches Err(x) && x == e,
        },
{
    let mut seen: Vec<String> = Vec::new();
    assert(seen_set(seen@) =~= Set::<Seq<char>>::empty());
    follow_schema(schema, section, &mut seen, false)
}

/// The schema that states the rules: `$ref` hops followed, and a
/// single-element `allOf` read as the element it wraps.
pub fn stated<'c>(schema: &'c SchemaRef, section: &'c [(String, SchemaRef)]) -> (r: Result<
    &'c SchemaSpec,
    RefError,
>)
    ensures
        match stated_from(*schema, section@, Set::empty()) {
            Ok(s) => r matches Ok(x) && *x == s,
            Err(e) => r matches Err(x) && x == e,
        },
{
    let mut seen: Vec<String> = Vec::new();
    assert(seen_set(seen@) =~= Set::<Seq<char>>::empty());
    follow_schema(schema, section, &mut seen, true)
}

/// The walk both of those are: along references, and through wrappers of
/// one where `unwrap` asks for it.
fn follow_schema<'c>(
    schema: &'c SchemaRef,
    section: &'c [(String, SchemaRef)],
    seen: &mut Vec<String>,
    unwrap: bool,
) -> (r: Result<&'c SchemaSpec, RefError>)
    ensures
        match (if unwrap {
            stated_from(*schema, section@, seen_set(old(seen)@))
        } else {
            resolved(*schema, section@, seen_set(old(seen)@))
        }) {
            Ok(s) => r matches Ok(x) && *x == s,
            Err(e) => r matches Err(x) && x == e,
        },
    decreases untaken(section@, seen_set(old(seen)@)), *schema,
{
    match schema {
        SchemaRef::Item(b) => {
            if unwrap {
                match &b.kind {
                    KindSpec::AllOf(members) => {
                        if members.len() == 1 {
                            proof {
                                assert(decreases_to!(*schema => members@[0]));
                            }
                            return follow_schema(&members[0], section, seen, unwrap);
                        }
                    },
                    _ => {},
                }
            }
            Ok(&**b)
        },
        SchemaRef::Ref(reference) => {
            let key = match strip(reference.as_str(), "#/components/schemas/") {
                Some(key) => key,
                None => {
                    proof {
                        reveal_strlit("#/components/schemas/");
                        reveal_strlit("#/components/");
                        reveal_strlit("schemas");
                        reveal_strlit("/");
                        assert(prefix_of("schemas"@) =~= "#/components/schemas/"@);
                    }
                    return Err(RefError::Missing { reference: reference.clone() });
                },
            };
            proof {
                reveal_strlit("#/components/schemas/");
                reveal_strlit("#/components/");
                reveal_strlit("schemas");
                reveal_strlit("/");
                assert(prefix_of("schemas"@) =~= "#/components/schemas/"@);
            }
            if taken(seen, key.as_str()) {
                return Err(RefError::Cycle { reference: reference.clone() });
            }
            let next = match schema_entry(section, key.as_str()) {
                Some(next) => next,
                None => return Err(RefError::Missing { reference: reference.clone() }),
            };
            proof {
                lemma_taking_shrinks(section@, seen_set(seen@), key@);
            }
            take(seen, key);
            follow_schema(next, section, seen, unwrap)
        },
    }
}

/// The parameter entry a section holds under `key`.
fn param_entry<'c>(section: &'c [(String, ParamRef)], key: &str) -> (r: Option<&'c ParamRef>)
    ensures
        match entry(section@, key@) {
            Some(e) => r matches Some(x) && *x == e,
            None => r is None,
        },
{
    let mut i: usize = 0;
    while i < section.len()
        invariant
            i <= section@.len(),
            forall|j: int| 0 <= j < i ==> (#[trigger] section@[j]).0@ != key@,
        decreases section.len() - i,
    {
        if str_is(section[i].0.as_str(), key) {
            proof {
                assert(section@[i as int].0@ == key@);
                let k = choose|k: int|
                    0 <= k < section@.len() && (#[trigger] section@[k]).0@ == key@ && forall|j: int|
                        0 <= j < k ==> (#[trigger] section@[j]).0@ != key@;
                if k < i {
                    assert(section@[k].0@ != key@);
                } else if k > i {
                    assert(section@[i as int].0@ != key@);
                }
                assert(k == i);
            }
            return Some(&section[i].1);
        }
        i += 1;
    }
    None
}

/// The body entry a section holds under `key`.
fn body_entry<'c>(section: &'c [(String, BodyRef)], key: &str) -> (r: Option<&'c BodyRef>)
    ensures
        match entry(section@, key@) {
            Some(e) => r matches Some(x) && *x == e,
            None => r is None,
        },
{
    let mut i: usize = 0;
    while i < section.len()
        invariant
            i <= section@.len(),
            forall|j: int| 0 <= j < i ==> (#[trigger] section@[j]).0@ != key@,
        decreases section.len() - i,
    {
        if str_is(section[i].0.as_str(), key) {
            proof {
                assert(section@[i as int].0@ == key@);
                let k = choose|k: int|
                    0 <= k < section@.len() && (#[trigger] section@[k]).0@ == key@ && forall|j: int|
                        0 <= j < k ==> (#[trigger] section@[j]).0@ != key@;
                if k < i {
                    assert(section@[k].0@ != key@);
                } else if k > i {
                    assert(section@[i as int].0@ != key@);
                }
                assert(k == i);
            }
            return Some(&section[i].1);
        }
        i += 1;
    }
    None
}

/// The parameter a reference names, `$ref` hops followed.
pub fn resolve_param<'c>(param: &'c ParamRef, section: &'c [(String, ParamRef)]) -> (r: Result<
    &'c ParamSpec,
    RefError,
>)
    ensures
        match resolved_param(*param, section@, Set::empty()) {
            Ok(p) => r matches Ok(x) && *x == p,
            Err(e) => r matches Err(x) && x == e,
        },
{
    let mut seen: Vec<String> = Vec::new();
    assert(seen_set(seen@) =~= Set::<Seq<char>>::empty());
    follow_param(param, section, &mut seen)
}

fn follow_param<'c>(param: &'c ParamRef, section: &'c [(String, ParamRef)], seen: &mut Vec<String>) -> (r:
    Result<&'c ParamSpec, RefError>)
    ensures
        match resolved_param(*param, section@, seen_set(old(seen)@)) {
            Ok(p) => r matches Ok(x) && *x == p,
            Err(e) => r matches Err(x) && x == e,
        },
    decreases untaken(section@, seen_set(old(seen)@)),
{
    proof {
        reveal_strlit("#/components/parameters/");
        reveal_strlit("#/components/");
        reveal_strlit("parameters");
        reveal_strlit("/");
        assert(prefix_of("parameters"@) =~= "#/components/parameters/"@);
    }
    match param {
        ParamRef::Item(p) => Ok(p),
        ParamRef::Ref(reference) => {
            let key = match strip(reference.as_str(), "#/components/parameters/") {
                Some(key) => key,
                None => return Err(RefError::Missing { reference: reference.clone() }),
            };
            if taken(seen, key.as_str()) {
                return Err(RefError::Cycle { reference: reference.clone() });
            }
            let next = match param_entry(section, key.as_str()) {
                Some(next) => next,
                None => return Err(RefError::Missing { reference: reference.clone() }),
            };
            proof {
                lemma_taking_shrinks(section@, seen_set(seen@), key@);
            }
            take(seen, key);
            follow_param(next, section, seen)
        },
    }
}

/// The request body a reference names, `$ref` hops followed.
pub fn resolve_body<'c>(body: &'c BodyRef, section: &'c [(String, BodyRef)]) -> (r: Result<
    &'c BodySpec,
    RefError,
>)
    ensures
        match resolved_body(*body, section@, Set::empty()) {
            Ok(b) => r matches Ok(x) && *x == b,
            Err(e) => r matches Err(x) && x == e,
        },
{
    let mut seen: Vec<String> = Vec::new();
    assert(seen_set(seen@) =~= Set::<Seq<char>>::empty());
    follow_body(body, section, &mut seen)
}

fn follow_body<'c>(body: &'c BodyRef, section: &'c [(String, BodyRef)], seen: &mut Vec<String>) -> (r:
    Result<&'c BodySpec, RefError>)
    ensures
        match resolved_body(*body, section@, seen_set(old(seen)@)) {
            Ok(b) => r matches Ok(x) && *x == b,
            Err(e) => r matches Err(x) && x == e,
        },
    decreases untaken(section@, seen_set(old(seen)@)),
{
    proof {
        reveal_strlit("#/components/requestBodies/");
        reveal_strlit("#/components/");
        reveal_strlit("requestBodies");
        reveal_strlit("/");
        assert(prefix_of("requestBodies"@) =~= "#/components/requestBodies/"@);
    }
    match body {
        BodyRef::Item(b) => Ok(b),
        BodyRef::Ref(reference) => {
            let key = match strip(reference.as_str(), "#/components/requestBodies/") {
                Some(key) => key,
                None => return Err(RefError::Missing { reference: reference.clone() }),
            };
            if taken(seen, key.as_str()) {
                return Err(RefError::Cycle { reference: reference.clone() });
            }
            let next = match body_entry(section, key.as_str()) {
                Some(next) => next,
                None => return Err(RefError::Missing { reference: reference.clone() }),
            };
            proof {
                lemma_taking_shrinks(section@, seen_set(seen@), key@);
            }
            take(seen, key);
            follow_body(next, section, seen)
        },
    }
}

/// The values of an enumeration that are not `null`, in order.
pub open spec fn present(values: Seq<Option<String>>) -> Seq<Seq<char>>
    decreases values.len(),
{
    if values.len() == 0 {
        seq![]
    } else {
        present(values.drop_last()) + match values.last() {
            Some(v) => seq![v@],
            None => Seq::<Seq<char>>::empty(),
        }
    }
}

/// Whether `s` is what a schema stating `node` is worth on one flag: an
/// enumeration completes, `format: money` is an amount, any other string is
/// text carrying its `pattern`, a number, an integer and a boolean are
/// themselves, and anything else fits on no flag.
pub open spec fn scalar_for(node: SchemaSpec, s: Option<Scalar>) -> bool {
    match node.kind {
        KindSpec::Str { format, pattern, enumeration } => if present(enumeration@).len() > 0 {
            s matches Some(Scalar::Choice(v)) && v@.map_values(|x: String| x@) == present(
                enumeration@,
            )
        } else if format matches Some(f) && f@ == "money"@ {
            s == Some(Scalar::Money(pattern))
        } else {
            s == Some(Scalar::Text(pattern))
        },
        KindSpec::Number { .. } => s == Some(Scalar::Number),
        KindSpec::Integer { .. } => s == Some(Scalar::Integer),
        KindSpec::Boolean => s == Some(Scalar::Boolean),
        _ => s is None,
    }
}

/// The `format` a stated schema declares, in the document's own spelling: a
/// string's, a number's or an integer's, and nothing for any other kind.
pub open spec fn format_for(node: SchemaSpec) -> Option<String> {
    match node.kind {
        KindSpec::Str { format, .. } => format,
        KindSpec::Number { format } => format,
        KindSpec::Integer { format } => format,
        _ => None,
    }
}

/// The values of an enumeration that are not `null`.
fn present_values(values: &Vec<Option<String>>) -> (out: Vec<String>)
    ensures
        out@.map_values(|x: String| x@) == present(values@),
{
    let mut out: Vec<String> = Vec::new();
    let mut i: usize = 0;
    while i < values.len()
        invariant
            i <= values@.len(),
            out@.map_values(|x: String| x@) == present(values@.take(i as int)),
        decreases values.len() - i,
    {
        let ghost before = out@.map_values(|x: String| x@);
        match &values[i] {
            Some(v) => {
                out.push(v.clone());
                assert(out@.map_values(|x: String| x@) =~= before.push(v@));
            },
            None => {},
        }
        assert(values@.take(i + 1).drop_last() =~= values@.take(i as int));
        assert(values@.take(i + 1).last() == values@[i as int]);
        i += 1;
    }
    assert(values@.take(values@.len() as int) =~= values@);
    out
}

/// What one stated schema is worth on a flag.
fn scalar_of_node(node: &SchemaSpec) -> (r: Option<Scalar>)
    ensures
        scalar_for(*node, r),
{
    match &node.kind {
        KindSpec::Str { format, pattern, enumeration } => {
            let choices = present_values(enumeration);
            if choices.len() > 0 {
                return Some(Scalar::Choice(choices));
            }
            let money = match format {
                Some(f) => str_is(f.as_str(), "money"),
                None => false,
            };
            let pattern_copy = match pattern {
                Some(p) => Some(p.clone()),
                None => None,
            };
            if money {
                Some(Scalar::Money(pattern_copy))
            } else {
                Some(Scalar::Text(pattern_copy))
            }
        },
        KindSpec::Number { .. } => Some(Scalar::Number),
        KindSpec::Integer { .. } => Some(Scalar::Integer),
        KindSpec::Boolean => Some(Scalar::Boolean),
        _ => None,
    }
}

/// `Some(scalar)` when this schema fits on one flag, `None` when it does not.
pub fn scalar_of(schema: &SchemaRef, section: &[(String, SchemaRef)]) -> (r: Result<
    Option<Scalar>,
    RefError,
>)
    ensures
        match stated_from(*schema, section@, Set::empty()) {
            Ok(node) => r matches Ok(s) && scalar_for(node, s),
            Err(e) => r matches Err(x) && x == e,
        },
{
    match stated(schema, section) {
        Ok(node) => Ok(scalar_of_node(node)),
        Err(e) => Err(e),
    }
}

/// The `format` the stated schema declares, in the document's own spelling.
/// A format names the kind of a value, which is the named schema's business,
/// so it is read off the stated schema.
pub fn format_of(schema: &SchemaRef, section: &[(String, SchemaRef)]) -> (r: Result<
    Option<String>,
    RefError,
>)
    ensures
        match stated_from(*schema, section@, Set::empty()) {
            Ok(node) => r == Ok::<Option<String>, RefError>(format_for(node)),
            Err(e) => r matches Err(x) && x == e,
        },
{
    match stated(schema, section) {
        Ok(node) => Ok(
            match &node.kind {
                KindSpec::Str { format, .. } => match format {
                    Some(f) => Some(f.clone()),
                    None => None,
                },
                KindSpec::Number { format } => match format {
                    Some(f) => Some(f.clone()),
                    None => None,
                },
                KindSpec::Integer { format } => match format {
                    Some(f) => Some(f.clone()),
                    None => None,
                },
                _ => None,
            },
        ),
        Err(e) => Err(e),
    }
}

/// What a property says about itself, else what the schema it points at
/// says: the field's own sentence wins.
pub open spec fn description_for(schema: SchemaRef, section: Seq<(String, SchemaRef)>) -> Result<
    Option<String>,
    RefError,
> {
    match resolved(schema, section, Set::empty()) {
        Err(e) => Err(e),
        Ok(own) => if own.description is Some {
            Ok(own.description)
        } else {
            match stated_from(schema, section, Set::empty()) {
                Err(e) => Err(e),
                Ok(node) => Ok(node.description),
            }
        },
    }
}

/// What a property says about itself, and what it inherits by pointing
/// somewhere else.
pub fn description_of(schema: &SchemaRef, section: &[(String, SchemaRef)]) -> (r: Result<
    Option<String>,
    RefError,
>)
    ensures
        r == description_for(*schema, section@),
{
    let own = match resolve_schema(schema, section) {
        Ok(own) => own,
        Err(e) => return Err(e),
    };
    match &own.description {
        Some(d) => return Ok(Some(d.clone())),
        None => {},
    }
    match stated(schema, section) {
        Ok(node) => Ok(
            match &node.description {
                Some(d) => Some(d.clone()),
                None => None,
            },
        ),
        Err(e) => Err(e),
    }
}

/// The schema a `type: array` value's items are described by, when the
/// document says what its items are.
pub fn items_of<'c>(schema: &'c SchemaRef, section: &'c [(String, SchemaRef)]) -> (r: Result<
    Option<&'c SchemaRef>,
    RefError,
>)
    ensures
        match resolved(*schema, section@, Set::empty()) {
            Ok(node) => match node.kind {
                KindSpec::Array { items } => match items {
                    Some(i) => r matches Ok(Some(x)) && *x == i,
                    None => r matches Ok(None),
                },
                _ => r matches Ok(None),
            },
            Err(e) => r matches Err(x) && x == e,
        },
{
    match resolve_schema(schema, section) {
        Ok(node) => match &node.kind {
            KindSpec::Array { items } => match items {
                Some(i) => Ok(Some(i)),
                None => Ok(None),
            },
            _ => Ok(None),
        },
        Err(e) => Err(e),
    }
}

/// The part names a multipart schema declares, in document order; none where
/// it declares none or cannot be read.
pub open spec fn part_names_for(schema: Option<SchemaRef>, section: Seq<(String, SchemaRef)>) -> Seq<Seq<char>> {
    match schema {
        None => seq![],
        Some(s) => match resolved(s, section, Set::empty()) {
            Ok(node) => match node.kind {
                KindSpec::Object { properties, .. } => properties@.map_values(
                    |p: (String, SchemaRef)| p.0@,
                ),
                _ => seq![],
            },
            Err(_) => seq![],
        },
    }
}

/// The part names a multipart schema declares, in document order.
pub fn part_names(schema: &Option<SchemaRef>, section: &[(String, SchemaRef)]) -> (out: Vec<String>)
    ensures
        out@.map_values(|s: String| s@) == part_names_for(*schema, section@),
{
    let mut out: Vec<String> = Vec::new();
    let s = match schema {
        Some(s) => s,
        None => {
            assert(out@.map_values(|s: String| s@) =~= Seq::<Seq<char>>::empty());
            return out;
        },
    };
    let node = match resolve_schema(s, section) {
        Ok(node) => node,
        Err(_) => {
            assert(out@.map_values(|s: String| s@) =~= Seq::<Seq<char>>::empty());
            return out;
        },
    };
    match &node.kind {
        KindSpec::Object { properties, .. } => {
            let mut i: usize = 0;
            while i < properties.len()
                invariant
                    i <= properties@.len(),
                    out@.len() == i,
                    forall|j: int| 0 <= j < i ==> (#[trigger] out@[j])@ == properties@[j].0@,
                decreases properties.len() - i,
            {
                out.push(properties[i].0.clone());
                i += 1;
            }
            assert(out@.map_values(|s: String| s@) =~= properties@.map_values(
                |p: (String, SchemaRef)| p.0@,
            ));
        },
        _ => {
            assert(out@.map_values(|s: String| s@) =~= Seq::<Seq<char>>::empty());
        },
    }
    out
}

} // verus!
