//! What the reduction did, counted off the reduction itself.
//!
//! A page quoting a number fails nothing when the number moves, which is what
//! makes a remembered count cheap to write and expensive to trust. [`Summary`]
//! is that count taken off the model instead of remembered beside it: every
//! field is derived from the [`Document`]'s own operations each time it is
//! asked, so the count and the model it counts cannot come apart.
//!
//! A test wants values, and [`Summary`]'s accessors are those. A page wants
//! prose, and [`Summary::render`] is that. Both come off one `Summary`, so the
//! sentence a reader is shown and the number a test asserts are one count.

use vstd::prelude::*;

use crate::model::{
    body_present, body_whole, first_appearances, gate_list, gated, names_gate, sentence_of, Document, Effect, Gate,
    Operation, Param, Shape, Unsupported,
};
use crate::names::CommandName;
use crate::text::{append_chars, append_str, chars_of, decimal, decimal_of, joined, string_of};

verus! {

/// How many items of `s` satisfy `p`.
pub open spec fn count_where<T>(s: Seq<T>, p: spec_fn(T) -> bool) -> nat
    decreases s.len(),
{
    if s.len() == 0 {
        0
    } else {
        count_where(s.drop_last(), p) + if p(s.last()) {
            1nat
        } else {
            0nat
        }
    }
}

/// Operations a CLI sends on sight.
pub open spec fn reads_of(ops: Seq<Operation>) -> nat {
    count_where(ops, |op: Operation| op.effect is Read)
}

/// Operations held behind `--commit`.
pub open spec fn writes_of(ops: Seq<Operation>) -> nat {
    count_where(ops, |op: Operation| op.effect is Write)
}

/// Operations the document asks no request body of.
pub open spec fn bodiless_of(ops: Seq<Operation>) -> nat {
    count_where(ops, |op: Operation| !body_present(op.body))
}

/// Operations whose body goes out whole.
pub open spec fn whole_of(ops: Seq<Operation>) -> nat {
    count_where(ops, |op: Operation| body_whole(op.body))
}

/// The groups the operations are mounted under, once each and in document
/// order.
pub open spec fn groups_of(ops: Seq<Operation>) -> Seq<Seq<char>> {
    first_appearances(ops.map_values(|op: Operation| op.group@))
}

/// How many times `name` stands in `names`.
pub open spec fn occurrences(names: Seq<Seq<char>>, name: Seq<char>) -> nat {
    count_where(names, |n: Seq<char>| n == name)
}

/// Whether `a` sorts before `b`, character by character, a prefix first —
/// the order `String`'s `Ord` puts them in.
pub open spec fn name_before(a: Seq<char>, b: Seq<char>) -> bool
    decreases a.len(),
{
    if a.len() == 0 {
        b.len() > 0
    } else if b.len() == 0 {
        false
    } else if a[0] != b[0] {
        a[0] < b[0]
    } else {
        name_before(a.drop_first(), b.drop_first())
    }
}

/// Whether `table` counts `list`: one row per name the list holds, rows in
/// name order, each with how many times its name stands in the list.
pub open spec fn tallies(table: Seq<(Seq<char>, nat)>, list: Seq<Seq<char>>) -> bool {
    &&& forall|i: int, j: int|
        0 <= i < j < table.len() ==> name_before(#[trigger] table[i].0, #[trigger] table[j].0)
    &&& forall|i: int|
        0 <= i < table.len() ==> (#[trigger] table[i]).1 == occurrences(list, table[i].0)
            && list.contains(table[i].0)
    &&& forall|n: Seq<char>|
        #![trigger list.contains(n)]
        list.contains(n) ==> exists|i: int| 0 <= i < table.len() && (#[trigger] table[i]).0 == n
}

/// Every parameter of one operation carried without a flag, in order: the
/// operation, the parameter and why.
pub open spec fn unreachable_in(id: Seq<char>, params: Seq<Param>) -> Seq<
    (Seq<char>, Seq<char>, Unsupported),
>
    decreases params.len(),
{
    if params.len() == 0 {
        seq![]
    } else {
        unreachable_in(id, params.drop_last()) + match params.last().shape {
            Shape::Unreachable(why) => seq![(id, params.last().name@, why)],
            Shape::Flag { .. } => Seq::<(Seq<char>, Seq<char>, Unsupported)>::empty(),
        }
    }
}

/// Every parameter of every operation carried without a flag, in document
/// order.
pub open spec fn unreachable_of(ops: Seq<Operation>) -> Seq<(Seq<char>, Seq<char>, Unsupported)>
    decreases ops.len(),
{
    if ops.len() == 0 {
        seq![]
    } else {
        unreachable_of(ops.drop_last()) + unreachable_in(ops.last().id@, ops.last().params@)
    }
}

/// Every operation is a read or a write, so the two counts add up to all of
/// them.
pub proof fn lemma_reads_and_writes_cover(ops: Seq<Operation>)
    ensures
        reads_of(ops) + writes_of(ops) == ops.len(),
    decreases ops.len(),
{
    if ops.len() > 0 {
        lemma_reads_and_writes_cover(ops.drop_last());
    }
}

/// A count never exceeds what it counts over.
pub proof fn lemma_count_bound<T>(s: Seq<T>, p: spec_fn(T) -> bool)
    ensures
        count_where(s, p) <= s.len(),
    decreases s.len(),
{
    if s.len() > 0 {
        lemma_count_bound(s.drop_last(), p);
    }
}

/// Whether no operation names one gate twice.
pub open spec fn gates_distinct(ops: Seq<Operation>) -> bool {
    forall|k: int, i: int, j: int|
        0 <= k < ops.len() && 0 <= i < j < ops[k].gates@.len() ==> (#[trigger] ops[k].gates@[i])@
            != (#[trigger] ops[k].gates@[j])@
}

/// How often a name stands in two lists put together is how often it stands
/// in each.
proof fn lemma_occurrences_concat(a: Seq<Seq<char>>, b: Seq<Seq<char>>, name: Seq<char>)
    ensures
        occurrences(a + b, name) == occurrences(a, name) + occurrences(b, name),
    decreases b.len(),
{
    if b.len() == 0 {
        assert(a + b =~= a);
    } else {
        assert((a + b).drop_last() =~= a + b.drop_last());
        assert((a + b).last() == b.last());
        lemma_occurrences_concat(a, b.drop_last(), name);
    }
}

/// In a list where no name stands twice, a name stands once where it stands
/// at all.
proof fn lemma_occurs_once(list: Seq<Seq<char>>, name: Seq<char>)
    requires
        forall|i: int, j: int| 0 <= i < j < list.len() ==> list[i] != list[j],
        list.contains(name),
    ensures
        occurrences(list, name) == 1,
    decreases list.len(),
{
    let init = list.drop_last();
    if list.last() == name {
        assert(!init.contains(name)) by {
            if init.contains(name) {
                let i = choose|i: int| 0 <= i < init.len() && init[i] == name;
                assert(list[i] == list[list.len() - 1]);
            }
        }
        lemma_absent_occurs_never(init, name);
    } else {
        let i = choose|i: int| 0 <= i < list.len() && list[i] == name;
        assert(i < list.len() - 1);
        assert(init[i] == name);
        lemma_occurs_once(init, name);
    }
}

/// Where no operation names one gate twice, how often a gate stands in the
/// list of gates is how many operations stand behind it: the number of
/// operations whose gates name it, and none for a word no operation names.
pub proof fn lemma_behind_counts_operations(ops: Seq<Operation>, gate: Seq<char>)
    requires
        gates_distinct(ops),
    ensures
        occurrences(gate_list(ops), gate) == gated(ops, gate).len(),
    decreases ops.len(),
{
    reveal_with_fuel(Seq::filter, 1);
    if ops.len() > 0 {
        let init = ops.drop_last();
        let last = ops.last();
        let own = last.gates@.map_values(|g: Gate| g@);
        assert(gates_distinct(init)) by {
            assert forall|k: int, i: int, j: int|
                0 <= k < init.len() && 0 <= i < j < init[k].gates@.len() implies (#[trigger] init[k].gates@[i])@
                    != (#[trigger] init[k].gates@[j])@ by {
                assert(init[k] == ops[k]);
            }
        }
        lemma_behind_counts_operations(init, gate);
        lemma_occurrences_concat(gate_list(init), own, gate);
        if names_gate(last, gate) {
            let i = choose|i: int| 0 <= i < last.gates@.len() && (#[trigger] last.gates@[i])@ == gate;
            assert(own[i] == gate);
            assert forall|a: int, b: int| 0 <= a < b < own.len() implies own[a] != own[b] by {
                assert(ops[ops.len() - 1] == last);
                assert(ops[ops.len() - 1].gates@[a]@ != ops[ops.len() - 1].gates@[b]@);
            }
            lemma_occurs_once(own, gate);
        } else {
            assert(!own.contains(gate)) by {
                if own.contains(gate) {
                    let i = choose|i: int| 0 <= i < own.len() && own[i] == gate;
                    assert(last.gates@[i]@ == gate);
                }
            }
            lemma_absent_occurs_never(own, gate);
        }
    }
}

/// A name the list does not hold stands in it no times.
pub proof fn lemma_absent_occurs_never(list: Seq<Seq<char>>, name: Seq<char>)
    requires
        !list.contains(name),
    ensures
        occurrences(list, name) == 0,
    decreases list.len(),
{
    if list.len() > 0 {
        assert(!list.drop_last().contains(name)) by {
            if list.drop_last().contains(name) {
                let i = choose|i: int| 0 <= i < list.drop_last().len() && list.drop_last()[i] == name;
                assert(list[i] == name);
            }
        }
        assert(list.last() != name) by {
            assert(list[list.len() - 1] == list.last());
        }
        lemma_absent_occurs_never(list.drop_last(), name);
    }
}

/// No name sorts before itself.
pub proof fn lemma_name_before_irreflexive(a: Seq<char>)
    ensures
        !name_before(a, a),
    decreases a.len(),
{
    if a.len() > 0 {
        lemma_name_before_irreflexive(a.drop_first());
    }
}

/// Of two different names, one sorts before the other.
pub proof fn lemma_name_before_total(a: Seq<char>, b: Seq<char>)
    requires
        a != b,
    ensures
        name_before(a, b) || name_before(b, a),
    decreases a.len(),
{
    if a.len() > 0 && b.len() > 0 && a[0] == b[0] {
        if a.drop_first() == b.drop_first() {
            assert(a =~= seq![a[0]] + a.drop_first());
            assert(b =~= seq![b[0]] + b.drop_first());
        }
        lemma_name_before_total(a.drop_first(), b.drop_first());
    } else if a.len() == 0 && b.len() == 0 {
        assert(a =~= b);
    }
}

/// Sorting before is transitive.
pub proof fn lemma_name_before_transitive(a: Seq<char>, b: Seq<char>, c: Seq<char>)
    requires
        name_before(a, b),
        name_before(b, c),
    ensures
        name_before(a, c),
    decreases a.len(),
{
    if a.len() > 0 && b.len() > 0 && c.len() > 0 && a[0] == b[0] && b[0] == c[0] {
        lemma_name_before_transitive(a.drop_first(), b.drop_first(), c.drop_first());
    }
}

/// One parameter the reduction carried without a flag, and why.
#[derive(Debug)]
pub struct Unreachable {
    operation: String,
    parameter: String,
    why: Unsupported,
}

impl View for Unreachable {
    type V = (Seq<char>, Seq<char>, Unsupported);

    closed spec fn view(&self) -> (Seq<char>, Seq<char>, Unsupported) {
        (self.operation@, self.parameter@, self.why)
    }
}

impl Unreachable {
    /// The `operationId` the parameter is declared on, as the document spells
    /// it.
    pub fn operation(&self) -> (r: &str)
        ensures
            r@ == self@.0,
    {
        self.operation.as_str()
    }

    /// The parameter's wire name, as the document spells it.
    pub fn parameter(&self) -> (r: &str)
        ensures
            r@ == self@.1,
    {
        self.parameter.as_str()
    }

    /// The shape this crate has no spelling for.
    pub fn why(&self) -> (r: &Unsupported)
        ensures
            *r == self@.2,
    {
        &self.why
    }
}

/// A statement of what reducing one document produced.
#[derive(Debug)]
pub struct Summary {
    operations: usize,
    groups: Vec<CommandName>,
    reads: usize,
    writes: usize,
    gates: Vec<(Gate, usize)>,
    bodiless: usize,
    whole_bodies: usize,
    unreachable: Vec<Unreachable>,
}

/// One row of the table of gates as the contracts read it.
pub open spec fn gate_row(row: (Gate, usize)) -> (Seq<char>, nat) {
    (row.0@, row.1 as nat)
}

impl Summary {
    /// Whether this summary is the count of `ops`.
    pub closed spec fn counts(self, ops: Seq<Operation>) -> bool {
        &&& self.operations == ops.len()
        &&& self.groups@.map_values(|g: CommandName| g@) == groups_of(ops)
        &&& self.reads == reads_of(ops)
        &&& self.writes == writes_of(ops)
        &&& tallies(self.gates@.map_values(|row: (Gate, usize)| gate_row(row)), gate_list(ops))
        &&& self.bodiless == bodiless_of(ops)
        &&& self.whole_bodies == whole_of(ops)
        &&& self.unreachable@.map_values(|u: Unreachable| u@) == unreachable_of(ops)
    }

    /// The table of gates, one row per gate in name order.
    pub closed spec fn gate_rows(self) -> Seq<(Seq<char>, nat)> {
        self.gates@.map_values(|row: (Gate, usize)| gate_row(row))
    }

    /// Every operation the document describes.
    pub fn operations(&self) -> (r: usize)
        ensures
            forall|ops: Seq<Operation>| self.counts(ops) ==> r == ops.len(),
    {
        self.operations
    }

    /// The groups the operations are mounted under, once each and in the order
    /// a user meets them on a command line.
    pub fn groups(&self) -> (r: &[CommandName])
        ensures
            forall|ops: Seq<Operation>|
                self.counts(ops) ==> r@.map_values(|g: CommandName| g@) == groups_of(ops),
    {
        self.groups.as_slice()
    }

    /// Operations a CLI sends on sight.
    pub fn reads(&self) -> (r: usize)
        ensures
            forall|ops: Seq<Operation>| self.counts(ops) ==> r == reads_of(ops),
    {
        self.reads
    }

    /// Operations held behind `--commit`. With [`Summary::reads`] this is every
    /// operation, because the write check is default-closed and an operation is one or
    /// the other.
    pub fn writes(&self) -> (r: usize)
        ensures
            forall|ops: Seq<Operation>| self.counts(ops) ==> r == writes_of(ops),
            forall|ops: Seq<Operation>| #[trigger] self.counts(ops) ==> r + reads_of(ops) == ops.len(),
    {
        proof {
            assert forall|ops: Seq<Operation>| #[trigger] self.counts(ops) implies self.writes + reads_of(ops) == ops.len() by {
                lemma_reads_and_writes_cover(ops);
            }
        }
        self.writes
    }

    /// How many operations stand behind each named gate, one row per gate in
    /// name order.
    pub fn gates(&self) -> (r: &[(Gate, usize)])
        ensures
            r@.map_values(|row: (Gate, usize)| gate_row(row)) == self.gate_rows(),
            forall|ops: Seq<Operation>| self.counts(ops) ==> tallies(self.gate_rows(), gate_list(ops)),
    {
        self.gates.as_slice()
    }

    /// How many operations stand behind one named gate, and none for a word the
    /// document names no gate with.
    pub fn behind(&self, gate: &str) -> (r: usize)
        ensures
            forall|ops: Seq<Operation>|
                self.counts(ops) ==> r == occurrences(gate_list(ops), gate@),
            forall|ops: Seq<Operation>|
                #[trigger] self.counts(ops) && gates_distinct(ops) ==> r == gated(ops, gate@).len(),
    {
        proof {
            assert forall|ops: Seq<Operation>| #[trigger] self.counts(ops) && gates_distinct(ops) implies occurrences(
                gate_list(ops),
                gate@,
            ) == gated(ops, gate@).len() by {
                lemma_behind_counts_operations(ops, gate@);
            }
        }
        let ghost rows = self.gate_rows();
        let mut i: usize = 0;
        while i < self.gates.len()
            invariant
                i <= self.gates@.len(),
                rows == self.gates@.map_values(|row: (Gate, usize)| gate_row(row)),
                forall|j: int| 0 <= j < i ==> (#[trigger] rows[j]).0 != gate@,
                forall|ops: Seq<Operation>| #[trigger] self.counts(ops) && gates_distinct(ops) ==> occurrences(
                    gate_list(ops),
                    gate@,
                ) == gated(ops, gate@).len(),
            decreases self.gates.len() - i,
        {
            let name = self.gates[i].0.as_str();
            if crate::text::str_is(name, gate) {
                assert(rows[i as int].0 == gate@);
                return self.gates[i].1;
            }
            i += 1;
        }
        proof {
            assert forall|ops: Seq<Operation>| self.counts(ops) implies occurrences(
                gate_list(ops),
                gate@,
            ) == 0 by {
                if gate_list(ops).contains(gate@) {
                    let j = choose|j: int| 0 <= j < rows.len() && (#[trigger] rows[j]).0 == gate@;
                }
                lemma_absent_occurs_never(gate_list(ops), gate@);
            }
        }
        0
    }

    /// Operations the document asks no request body of.
    pub fn bodiless(&self) -> (r: usize)
        ensures
            forall|ops: Seq<Operation>| self.counts(ops) ==> r == bodiless_of(ops),
    {
        self.bodiless
    }

    /// Operations whose body goes out whole, with no flag per property.
    pub fn whole_bodies(&self) -> (r: usize)
        ensures
            forall|ops: Seq<Operation>| self.counts(ops) ==> r == whole_of(ops),
    {
        self.whole_bodies
    }

    /// Every parameter carried without a flag, named. Its length is the count.
    pub fn unreachable(&self) -> (r: &[Unreachable])
        ensures
            forall|ops: Seq<Operation>|
                self.counts(ops) ==> r@.map_values(|u: Unreachable| u@) == unreachable_of(ops),
    {
        self.unreachable.as_slice()
    }
}

impl Document {
    /// What this reduction did, counted off its own operations.
    ///
    /// Nothing is read out of the document a second time and nothing is stored:
    /// the answer is derived from the operations this `Document` holds, so it
    /// moves the moment the document does.
    pub fn summary(&self) -> (s: Summary)
        requires
            gate_list(self.ops@).len() <= usize::MAX,
        ensures
            s.counts(self.ops@),
    {
        let ops = self.operations();
        let mut reads: usize = 0;
        let mut writes: usize = 0;
        let mut bodiless: usize = 0;
        let mut whole_bodies: usize = 0;
        let mut i: usize = 0;
        while i < ops.len()
            invariant
                ops@ == self.ops@,
                i <= ops@.len(),
                reads == reads_of(ops@.take(i as int)),
                writes == writes_of(ops@.take(i as int)),
                bodiless == bodiless_of(ops@.take(i as int)),
                whole_bodies == whole_of(ops@.take(i as int)),
                reads + writes == i,
                bodiless <= i,
                whole_bodies <= i,
            decreases ops.len() - i,
        {
            proof {
                assert(ops@.take(i + 1).drop_last() =~= ops@.take(i as int));
                assert(ops@.take(i + 1).last() == ops@[i as int]);
            }
            match ops[i].effect() {
                Effect::Read => reads += 1,
                Effect::Write => writes += 1,
            }
            if !ops[i].body().present() {
                bodiless += 1;
            }
            if ops[i].body().whole() {
                whole_bodies += 1;
            }
            i += 1;
        }
        assert(ops@.take(ops@.len() as int) =~= ops@);
        let s = Summary {
            operations: ops.len(),
            groups: groups(ops),
            reads,
            writes,
            gates: gates(ops),
            bodiless,
            whole_bodies,
            unreachable: unreachable(ops),
        };
        proof {
            lemma_reads_and_writes_cover(self.ops@);
        }
        s
    }
}

/// The groups the operations are mounted under, once each and in document
/// order — which is the order a user meets them, because the command tree is
/// built from this same list.
fn groups(ops: &[Operation]) -> (named: Vec<CommandName>)
    ensures
        named@.map_values(|g: CommandName| g@) == groups_of(ops@),
{
    let ghost all = ops@.map_values(|op: Operation| op.group@);
    let mut named: Vec<CommandName> = Vec::new();
    let mut i: usize = 0;
    while i < ops.len()
        invariant
            i <= ops@.len(),
            all == ops@.map_values(|op: Operation| op.group@),
            named@.map_values(|g: CommandName| g@) == first_appearances(all.take(i as int)),
        decreases ops.len() - i,
    {
        let group = ops[i].group();
        let ghost before = named@.map_values(|g: CommandName| g@);
        let mut k: usize = 0;
        let mut seen = false;
        while k < named.len()
            invariant
                k <= named@.len(),
                before == named@.map_values(|g: CommandName| g@),
                seen == exists|j: int| 0 <= j < k && before[j] == group@,
            decreases named.len() - k,
        {
            if named[k].same(group) {
                assert(before[k as int] == group@);
                seen = true;
            }
            k += 1;
        }
        assert(seen == before.contains(group@));
        if !seen {
            named.push(group.duplicate());
        }
        proof {
            assert(all.take(i + 1).drop_last() =~= all.take(i as int));
            assert(all.take(i + 1).last() == group@);
            assert(named@.map_values(|g: CommandName| g@) =~= first_appearances(all.take(i + 1)));
        }
        i += 1;
    }
    assert(all.take(ops@.len() as int) =~= all);
    named
}

/// Whether `a` sorts before `b`.
fn precedes(a: &str, b: &str) -> (r: bool)
    ensures
        r == name_before(a@, b@),
{
    let x = chars_of(a);
    let y = chars_of(b);
    let mut i: usize = 0;
    assert(x@.skip(0) =~= x@);
    assert(y@.skip(0) =~= y@);
    while i < x.len() && i < y.len() && x[i] == y[i]
        invariant
            i <= x@.len(),
            i <= y@.len(),
            name_before(a@, b@) == name_before(x@.skip(i as int), y@.skip(i as int)),
            x@ == a@,
            y@ == b@,
        decreases x.len() - i,
    {
        assert(x@.skip(i as int).drop_first() =~= x@.skip(i + 1));
        assert(y@.skip(i as int).drop_first() =~= y@.skip(i + 1));
        i += 1;
    }
    if i == x.len() {
        i < y.len()
    } else if i == y.len() {
        false
    } else {
        assert(x@.skip(i as int)[0] == x@[i as int]);
        assert(y@.skip(i as int)[0] == y@[i as int]);
        x[i] < y[i]
    }
}

/// How many operations stand behind each gate any of them names, one row per
/// gate in name order.
fn gates(ops: &[Operation]) -> (table: Vec<(Gate, usize)>)
    requires
        gate_list(ops@).len() <= usize::MAX,
    ensures
        tallies(table@.map_values(|row: (Gate, usize)| gate_row(row)), gate_list(ops@)),
{
    let mut table: Vec<(Gate, usize)> = Vec::new();
    let mut i: usize = 0;
    proof {
        assert(gate_list(ops@.take(0)) =~= Seq::<Seq<char>>::empty());
    }
    while i < ops.len()
        invariant
            i <= ops@.len(),
            gate_list(ops@).len() <= usize::MAX,
            tallies(table@.map_values(|row: (Gate, usize)| gate_row(row)), gate_list(ops@.take(i as int))),
        decreases ops.len() - i,
    {
        let named = ops[i].gates();
        let ghost before = gate_list(ops@.take(i as int));
        proof {
            assert(ops@.take(i + 1).drop_last() =~= ops@.take(i as int));
            lemma_gate_list_prefix(ops@, i + 1);
        }
        let mut k: usize = 0;
        while k < named.len()
            invariant
                k <= named@.len(),
                named@ == ops@[i as int].gates@,
                i < ops@.len(),
                before == gate_list(ops@.take(i as int)),
                gate_list(ops@.take(i + 1)) == before + named@.map_values(|g: Gate| g@),
                gate_list(ops@.take(i + 1)).len() <= usize::MAX,
                tallies(
                    table@.map_values(|row: (Gate, usize)| gate_row(row)),
                    before + named@.take(k as int).map_values(|g: Gate| g@),
                ),
            decreases named.len() - k,
        {
            let ghost list = before + named@.take(k as int).map_values(|g: Gate| g@);
            proof {
                let next = before + named@.take(k + 1).map_values(|g: Gate| g@);
                assert(next =~= list.push(named@[k as int]@));
                assert(next.len() <= gate_list(ops@.take(i + 1)).len());
            }
            count_gate(&mut table, &named[k], Ghost(list));
            proof {
                assert(before + named@.take(k + 1).map_values(|g: Gate| g@) =~= list.push(
                    named@[k as int]@,
                ));
            }
            k += 1;
        }
        proof {
            assert(named@.take(named@.len() as int) =~= named@);
        }
        i += 1;
    }
    assert(ops@.take(ops@.len() as int) =~= ops@);
    table
}

/// The list of gates of a prefix, one operation longer.
proof fn lemma_gate_list_prefix(ops: Seq<Operation>, n: int)
    requires
        0 < n <= ops.len(),
    ensures
        gate_list(ops.take(n)) == gate_list(ops.take(n - 1)) + ops[n - 1].gates@.map_values(
            |g: Gate| g@,
        ),
        gate_list(ops.take(n)).len() <= gate_list(ops).len(),
    decreases ops.len() - n,
{
    assert(ops.take(n).drop_last() =~= ops.take(n - 1));
    if n < ops.len() {
        lemma_gate_list_prefix(ops, n + 1);
    } else {
        assert(ops.take(n) =~= ops);
    }
}

/// Counts one more `gate` into the table of `list`.
fn count_gate(table: &mut Vec<(Gate, usize)>, gate: &Gate, Ghost(list): Ghost<Seq<Seq<char>>>)
    requires
        tallies(old(table)@.map_values(|row: (Gate, usize)| gate_row(row)), list),
        list.len() + 1 <= usize::MAX,
    ensures
        tallies(final(table)@.map_values(|row: (Gate, usize)| gate_row(row)), list.push(gate@)),
{
    let ghost rows = table@.map_values(|row: (Gate, usize)| gate_row(row));
    let ghost next = list.push(gate@);
    let mut p: usize = 0;
    while p < table.len() && precedes(table[p].0.as_str(), gate.as_str())
        invariant
            p <= table@.len(),
            rows == table@.map_values(|row: (Gate, usize)| gate_row(row)),
            forall|j: int| 0 <= j < p ==> name_before(#[trigger] rows[j].0, gate@),
        decreases table.len() - p,
    {
        p += 1;
    }
    proof {
        assert forall|n: Seq<char>| #[trigger] occurrences(next, n) == occurrences(list, n) + if n
            == gate@ {
            1nat
        } else {
            0nat
        } by {
            assert(next.drop_last() =~= list);
        }
        assert forall|n: Seq<char>| #[trigger] next.contains(n) == (list.contains(n) || n == gate@) by {
            if next.contains(n) {
                let j = choose|j: int| 0 <= j < next.len() && next[j] == n;
                if j < list.len() {
                    assert(list[j] == n);
                }
            }
            if list.contains(n) {
                let j = choose|j: int| 0 <= j < list.len() && list[j] == n;
                assert(next[j] == n);
            }
            if n == gate@ {
                assert(next[list.len() as int] == n);
            }
        }
    }
    let ghost old_table = table@;
    if p < table.len() && crate::text::str_is(table[p].0.as_str(), gate.as_str()) {
        proof {
            assert(rows[p as int] == gate_row(old_table[p as int]));
            assert(rows[p as int].0 == gate@);
            lemma_count_bound(list, |n: Seq<char>| n == gate@);
        }
        let (named, count) = table.remove(p);
        assert(count == rows[p as int].1);
        table.insert(p, (named, count + 1));
        proof {
            let new_rows = table@.map_values(|row: (Gate, usize)| gate_row(row));
            assert(new_rows =~= rows.update(p as int, (rows[p as int].0, rows[p as int].1 + 1)));
            lemma_name_before_irreflexive(gate@);
            assert forall|i: int| 0 <= i < new_rows.len() && i != p implies (#[trigger] new_rows[i]).0
                != gate@ by {
                if i < p {
                    assert(name_before(rows[i].0, rows[p as int].0));
                } else {
                    assert(name_before(rows[p as int].0, rows[i].0));
                }
            }
            assert forall|i: int, j: int| 0 <= i < j < new_rows.len() implies name_before(
                #[trigger] new_rows[i].0,
                #[trigger] new_rows[j].0,
            ) by {
                assert(name_before(rows[i].0, rows[j].0));
            }
            assert forall|i: int| 0 <= i < new_rows.len() implies (#[trigger] new_rows[i]).1
                == occurrences(next, new_rows[i].0) && next.contains(new_rows[i].0) by {
                assert(occurrences(next, new_rows[i].0) == occurrences(list, new_rows[i].0) + if new_rows[i].0 == gate@ {
                    1nat
                } else {
                    0nat
                });
                assert(next.contains(new_rows[i].0) == (list.contains(new_rows[i].0) || new_rows[i].0 == gate@));
                if i != p {
                    assert(rows[i] == new_rows[i]);
                }
            }
            assert forall|n: Seq<char>| #[trigger] next.contains(n) implies exists|i: int|
                0 <= i < new_rows.len() && (#[trigger] new_rows[i]).0 == n by {
                assert(next.contains(n) == (list.contains(n) || n == gate@));
                if n == gate@ {
                    assert(new_rows[p as int].0 == n);
                } else {
                    assert(list.contains(n));
                    let k = choose|k: int| 0 <= k < rows.len() && (#[trigger] rows[k]).0 == n;
                    assert(new_rows[k].0 == n);
                }
            }
        }
    } else {
        proof {
            lemma_name_before_irreflexive(gate@);
            if p < rows.len() {
                assert(rows[p as int] == gate_row(old_table[p as int]));
                assert(rows[p as int].0 != gate@);
                lemma_name_before_total(rows[p as int].0, gate@);
                assert forall|j: int| p <= j < rows.len() implies name_before(
                    gate@,
                    #[trigger] rows[j].0,
                ) by {
                    if j > p {
                        assert(name_before(rows[p as int].0, rows[j].0));
                        lemma_name_before_transitive(gate@, rows[p as int].0, rows[j].0);
                    }
                }
            }
            assert(!list.contains(gate@)) by {
                if list.contains(gate@) {
                    let j = choose|j: int| 0 <= j < rows.len() && (#[trigger] rows[j]).0 == gate@;
                    if j < p {
                        assert(name_before(rows[j].0, gate@));
                    } else {
                        assert(name_before(gate@, rows[j].0));
                    }
                }
            }
            lemma_absent_occurs_never(list, gate@);
        }
        let entry = (gate.duplicate(), 1usize);
        table.insert(p, entry);
        proof {
            let new_rows = table@.map_values(|row: (Gate, usize)| gate_row(row));
            assert(new_rows =~= rows.insert(p as int, (gate@, 1nat)));
            assert forall|i: int, j: int| 0 <= i < j < new_rows.len() implies name_before(
                #[trigger] new_rows[i].0,
                #[trigger] new_rows[j].0,
            ) by {
                if j < p {
                    assert(name_before(rows[i].0, rows[j].0));
                } else if j == p {
                    assert(name_before(rows[i].0, gate@));
                } else if i < p {
                    assert(name_before(rows[i].0, rows[j - 1].0));
                } else if i == p {
                    assert(name_before(gate@, rows[j - 1].0));
                } else {
                    assert(name_before(rows[i - 1].0, rows[j - 1].0));
                }
            }
            assert forall|i: int| 0 <= i < new_rows.len() implies (#[trigger] new_rows[i]).1
                == occurrences(next, new_rows[i].0) && next.contains(new_rows[i].0) by {
                assert(occurrences(next, new_rows[i].0) == occurrences(list, new_rows[i].0) + if new_rows[i].0 == gate@ {
                    1nat
                } else {
                    0nat
                });
                assert(next.contains(new_rows[i].0) == (list.contains(new_rows[i].0) || new_rows[i].0 == gate@));
                if i < p {
                    assert(new_rows[i] == rows[i]);
                    assert(name_before(rows[i].0, gate@));
                } else if i > p {
                    assert(new_rows[i] == rows[i - 1]);
                    assert(name_before(gate@, rows[i - 1].0));
                }
            }
            assert forall|n: Seq<char>| #[trigger] next.contains(n) implies exists|i: int|
                0 <= i < new_rows.len() && (#[trigger] new_rows[i]).0 == n by {
                assert(next.contains(n) == (list.contains(n) || n == gate@));
                if n == gate@ {
                    assert(new_rows[p as int].0 == n);
                } else {
                    assert(list.contains(n));
                    let k = choose|k: int| 0 <= k < rows.len() && (#[trigger] rows[k]).0 == n;
                    if k < p {
                        assert(new_rows[k].0 == n);
                    } else {
                        assert(new_rows[k + 1].0 == n);
                    }
                }
            }
        }
    }
}

/// Every parameter the reduction carried without a flag, in document order.
fn unreachable(ops: &[Operation]) -> (out: Vec<Unreachable>)
    ensures
        out@.map_values(|u: Unreachable| u@) == unreachable_of(ops@),
{
    let mut out: Vec<Unreachable> = Vec::new();
    let mut i: usize = 0;
    while i < ops.len()
        invariant
            i <= ops@.len(),
            out@.map_values(|u: Unreachable| u@) == unreachable_of(ops@.take(i as int)),
        decreases ops.len() - i,
    {
        let op = &ops[i];
        let params = op.params();
        let ghost before = out@.map_values(|u: Unreachable| u@);
        let mut k: usize = 0;
        while k < params.len()
            invariant
                k <= params@.len(),
                params@ == op.params@,
                out@.map_values(|u: Unreachable| u@) == before + unreachable_in(
                    op.id@,
                    params@.take(k as int),
                ),
            decreases params.len() - k,
        {
            let ghost prior = out@.map_values(|u: Unreachable| u@);
            assert(params@.take(k + 1).drop_last() =~= params@.take(k as int));
            assert(params@.take(k + 1).last() == params@[k as int]);
            match params[k].shape() {
                Shape::Unreachable(why) => {
                    out.push(
                        Unreachable {
                            operation: op.id().to_owned(),
                            parameter: params[k].name().to_owned(),
                            why: why.duplicate(),
                        },
                    );
                    assert(out@.map_values(|u: Unreachable| u@) =~= prior + seq![
                        (op.id@, params@[k as int].name@, *why),
                    ]);
                },
                Shape::Flag { .. } => {},
            }
            k += 1;
        }
        proof {
            assert(params@.take(params@.len() as int) =~= params@);
            assert(ops@.take(i + 1).drop_last() =~= ops@.take(i as int));
            assert(ops@.take(i + 1).last() == ops@[i as int]);
        }
        i += 1;
    }
    assert(ops@.take(ops@.len() as int) =~= ops@);
    out
}

/// The counts that are one number each, in the words the page states them in.
pub open spec fn tally_of(ops: Seq<Operation>) -> Seq<(Seq<char>, nat)> {
    seq![
        ("operations"@, ops.len()),
        ("groups they are mounted under"@, groups_of(ops).len()),
        ("reads, sent on sight"@, reads_of(ops)),
        ("writes, held behind `--commit`"@, writes_of(ops)),
        ("operations the document asks no body of"@, bodiless_of(ops)),
        ("bodies that go out whole, with no flag per property"@, whole_of(ops)),
        ("parameters carried without a flag"@, unreachable_of(ops).len()),
    ]
}

/// Rows of a two-column table: `| what | how many |` each.
pub open spec fn count_rows(rows: Seq<(Seq<char>, nat)>) -> Seq<char>
    decreases rows.len(),
{
    if rows.len() == 0 {
        seq![]
    } else {
        count_rows(rows.drop_last()) + "| "@ + rows.last().0 + " | "@ + decimal(rows.last().1)
            + " |\n"@
    }
}

/// The section naming the groups.
pub open spec fn groups_section(groups: Seq<Seq<char>>) -> Seq<char> {
    "\n## Groups\n\n"@ + if groups.len() == 0 {
        "The document describes no operations.\n"@
    } else {
        joined(groups.map_values(|g: Seq<char>| "`"@ + g + "`"@), ", "@) + "\n"@
    }
}

/// Rows of the table of gates: `` | `--gate` | n | `` each.
pub open spec fn gate_lines(rows: Seq<(Seq<char>, nat)>) -> Seq<char>
    decreases rows.len(),
{
    if rows.len() == 0 {
        seq![]
    } else {
        gate_lines(rows.drop_last()) + "| `--"@ + rows.last().0 + "` | "@ + decimal(rows.last().1)
            + " |\n"@
    }
}

/// The section on gates.
pub open spec fn gates_section(rows: Seq<(Seq<char>, nat)>) -> Seq<char> {
    "\n## Gates\n\n"@ + if rows.len() == 0 {
        "No operation names a gate, so `--commit` is the whole of the confirmation.\n"@
    } else {
        "| gate | operations behind it |\n|---|---|\n"@ + gate_lines(rows)
    }
}

/// Rows of the table of parameters carried without a flag.
pub open spec fn unreachable_lines(list: Seq<(Seq<char>, Seq<char>, Unsupported)>) -> Seq<char>
    decreases list.len(),
{
    if list.len() == 0 {
        seq![]
    } else {
        unreachable_lines(list.drop_last()) + "| `"@ + list.last().0 + "` | `"@ + list.last().1
            + "` | "@ + sentence_of(list.last().2) + " |\n"@
    }
}

/// The section on parameters carried without a flag.
pub open spec fn unreachable_section(list: Seq<(Seq<char>, Seq<char>, Unsupported)>) -> Seq<char> {
    "\n## Parameters carried without a flag\n\n"@ + if list.len() == 0 {
        "None: every parameter the document declares reaches the request.\n"@
    } else {
        "| operation | parameter | why |\n|---|---|---|\n"@ + unreachable_lines(list)
    }
}

/// What the page says before its table.
pub open spec fn page_head() -> Seq<char> {
    "# What the reduction found\n\n"@ + "Every number here is counted off the reduced model itself — the same value a shipped\nbinary loads — so a number that has moved is a document that has moved, and a page\nquoting one is quoting a measurement rather than a memory.\n\n"@
        + "| what | how many |\n|---|---|\n"@
}

/// The page a bless step commits, and the one a test parses.
pub open spec fn page(ops: Seq<Operation>, rows: Seq<(Seq<char>, nat)>) -> Seq<char> {
    page_head() + count_rows(tally_of(ops)) + groups_section(groups_of(ops)) + gates_section(rows)
        + unreachable_section(unreachable_of(ops))
}

/// Appends `| what | n |` for each row.
fn append_count_rows(out: &mut Vec<char>, rows: &[(&'static str, usize)])
    ensures
        final(out)@ == old(out)@ + count_rows(
            rows@.map_values(|r: (&'static str, usize)| (r.0@, r.1 as nat)),
        ),
{
    let ghost rv = rows@.map_values(|r: (&'static str, usize)| (r.0@, r.1 as nat));
    let ghost start = out@;
    let mut i: usize = 0;
    while i < rows.len()
        invariant
            i <= rows@.len(),
            rv == rows@.map_values(|r: (&'static str, usize)| (r.0@, r.1 as nat)),
            out@ == start + count_rows(rv.take(i as int)),
        decreases rows.len() - i,
    {
        append_str(out, "| ");
        append_str(out, rows[i].0);
        append_str(out, " | ");
        let digits = decimal_of(rows[i].1 as u128);
        append_chars(out, digits.as_slice());
        append_str(out, " |\n");
        proof {
            assert(rv.take(i + 1).drop_last() =~= rv.take(i as int));
            assert(rv.take(i + 1).last() == (rows@[i as int].0@, rows@[i as int].1 as nat));
        }
        i += 1;
    }
    assert(rv.take(rows@.len() as int) =~= rv);
}

impl Summary {
    /// The counts that are one number each, in the words the rendered page
    /// states them in. One place decides how a count is worded.
    fn tally(&self) -> (rows: Vec<(&'static str, usize)>)
        ensures
            forall|ops: Seq<Operation>|
                self.counts(ops) ==> rows@.map_values(|r: (&'static str, usize)| (r.0@, r.1 as nat))
                    == tally_of(ops),
    {
        let rows = vec![
            ("operations", self.operations),
            ("groups they are mounted under", self.groups.len()),
            ("reads, sent on sight", self.reads),
            ("writes, held behind `--commit`", self.writes),
            ("operations the document asks no body of", self.bodiless),
            ("bodies that go out whole, with no flag per property", self.whole_bodies),
            ("parameters carried without a flag", self.unreachable.len()),
        ];
        proof {
            assert forall|ops: Seq<Operation>| self.counts(ops) implies rows@.map_values(
                |r: (&'static str, usize)| (r.0@, r.1 as nat),
            ) == tally_of(ops) by {
                assert(self.groups@.map_values(|g: CommandName| g@).len() == self.groups@.len());
                assert(self.unreachable@.map_values(|u: Unreachable| u@).len()
                    == self.unreachable@.len());
                assert(rows@.map_values(|r: (&'static str, usize)| (r.0@, r.1 as nat)) =~= tally_of(
                    ops,
                ));
            }
        }
        rows
    }

    /// The section naming the groups.
    fn groups_section(&self) -> (out: Vec<char>)
        ensures
            out@ == groups_section(self.groups@.map_values(|g: CommandName| g@)),
    {
        let ghost gv = self.groups@.map_values(|g: CommandName| g@);
        let mut out: Vec<char> = Vec::new();
        append_str(&mut out, "\n## Groups\n\n");
        if self.groups.len() == 0 {
            append_str(&mut out, "The document describes no operations.\n");
            return out;
        }
        let mut named: Vec<String> = Vec::new();
        let mut i: usize = 0;
        while i < self.groups.len()
            invariant
                i <= self.groups@.len(),
                gv == self.groups@.map_values(|g: CommandName| g@),
                named@.len() == i,
                forall|j: int| 0 <= j < i ==> (#[trigger] named@[j])@ == "`"@ + gv[j] + "`"@,
            decreases self.groups.len() - i,
        {
            let mut one: Vec<char> = Vec::new();
            append_str(&mut one, "`");
            append_str(&mut one, self.groups[i].as_str());
            append_str(&mut one, "`");
            named.push(string_of(one.as_slice()));
            i += 1;
        }
        assert(named@.map_values(|s: String| s@) =~= gv.map_values(|g: Seq<char>| "`"@ + g + "`"@));
        let list = crate::text::join_strings(named.as_slice(), ", ");
        append_chars(&mut out, list.as_slice());
        append_str(&mut out, "\n");
        out
    }

    /// The section on gates.
    fn gates_section(&self) -> (out: Vec<char>)
        ensures
            out@ == gates_section(self.gate_rows()),
    {
        let ghost rows = self.gate_rows();
        let mut out: Vec<char> = Vec::new();
        append_str(&mut out, "\n## Gates\n\n");
        if self.gates.len() == 0 {
            append_str(&mut out, "No operation names a gate, so `--commit` is the whole of the confirmation.\n");
            return out;
        }
        append_str(&mut out, "| gate | operations behind it |\n|---|---|\n");
        let ghost start = out@;
        let mut i: usize = 0;
        while i < self.gates.len()
            invariant
                i <= self.gates@.len(),
                rows == self.gates@.map_values(|row: (Gate, usize)| gate_row(row)),
                out@ == start + gate_lines(rows.take(i as int)),
            decreases self.gates.len() - i,
        {
            append_str(&mut out, "| `--");
            append_str(&mut out, self.gates[i].0.as_str());
            append_str(&mut out, "` | ");
            let digits = decimal_of(self.gates[i].1 as u128);
            append_chars(&mut out, digits.as_slice());
            append_str(&mut out, " |\n");
            proof {
                assert(rows.take(i + 1).drop_last() =~= rows.take(i as int));
                assert(rows.take(i + 1).last() == gate_row(self.gates@[i as int]));
            }
            i += 1;
        }
        assert(rows.take(self.gates@.len() as int) =~= rows);
        out
    }

    /// The section on parameters carried without a flag.
    fn unreachable_section(&self) -> (out: Vec<char>)
        ensures
            out@ == unreachable_section(self.unreachable@.map_values(|u: Unreachable| u@)),
    {
        let ghost list = self.unreachable@.map_values(|u: Unreachable| u@);
        let mut out: Vec<char> = Vec::new();
        append_str(&mut out, "\n## Parameters carried without a flag\n\n");
        if self.unreachable.len() == 0 {
            append_str(&mut out, "None: every parameter the document declares reaches the request.\n");
            return out;
        }
        append_str(&mut out, "| operation | parameter | why |\n|---|---|---|\n");
        let ghost start = out@;
        let mut i: usize = 0;
        while i < self.unreachable.len()
            invariant
                i <= self.unreachable@.len(),
                list == self.unreachable@.map_values(|u: Unreachable| u@),
                out@ == start + unreachable_lines(list.take(i as int)),
            decreases self.unreachable.len() - i,
        {
            let carried = &self.unreachable[i];
            append_str(&mut out, "| `");
            append_str(&mut out, carried.operation.as_str());
            append_str(&mut out, "` | `");
            append_str(&mut out, carried.parameter.as_str());
            append_str(&mut out, "` | ");
            let why = carried.why.sentence();
            append_str(&mut out, why.as_str());
            append_str(&mut out, " |\n");
            proof {
                assert(list.take(i + 1).drop_last() =~= list.take(i as int));
                assert(list.take(i + 1).last() == carried@);
            }
            i += 1;
        }
        assert(list.take(self.unreachable@.len() as int) =~= list);
        out
    }

    /// The page a bless step commits: Markdown, because the reader it is
    /// written for is a human looking at a `docs/` page or a README.
    pub fn render(&self) -> (out: String)
        ensures
            forall|ops: Seq<Operation>| self.counts(ops) ==> out@ == page(ops, self.gate_rows()),
    {
        let mut out: Vec<char> = Vec::new();
        append_str(&mut out, "# What the reduction found\n\n");
        append_str(
            &mut out,
            "Every number here is counted off the reduced model itself — the same value a shipped\nbinary loads — so a number that has moved is a document that has moved, and a page\nquoting one is quoting a measurement rather than a memory.\n\n",
        );
        append_str(&mut out, "| what | how many |\n|---|---|\n");
        let rows = self.tally();
        append_count_rows(&mut out, rows.as_slice());
        let groups = self.groups_section();
        append_chars(&mut out, groups.as_slice());
        let gates = self.gates_section();
        append_chars(&mut out, gates.as_slice());
        let carried = self.unreachable_section();
        append_chars(&mut out, carried.as_slice());
        string_of(out.as_slice())
    }
}

} // verus!
