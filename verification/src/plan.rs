//! The write check: whether a built request may be sent, decided once.
//!
//! Every caller that has a request and a confirmation builds a [`Plan`] and
//! executes what it gets back, rather than testing the flag again. That is what
//! makes a dry run print the exact bytes a confirmed run sends — they are this
//! one value.

use vstd::prelude::*;

use crate::model::{method_name, Base, Effect, Operation};
use crate::request::{admits, http_accepts, request_for, refused, url_text, value_error_text, wire_headers, Invocation, ValueError};
use crate::text::{append_str, string_of};
use crate::values::Values;

verus! {

/// What the write check decided, with the request already built.
///
/// This is the only place in the crate that decides whether something is sent.
#[derive(Debug)]
pub enum Plan {
    /// A read, or a write the user confirmed.
    Send(http::Request<Vec<u8>>),
    /// A write without confirmation. Print it; send nothing.
    DryRun(http::Request<Vec<u8>>),
}

/// The verdict on a request: a read runs on sight, a write runs only once
/// confirmed, and either way the request is the one given.
pub open spec fn verdict(effect: Effect, confirmed: bool, request: http::Request<Vec<u8>>) -> Plan {
    match effect {
        Effect::Read => Plan::Send(request),
        Effect::Write => if confirmed {
            Plan::Send(request)
        } else {
            Plan::DryRun(request)
        },
    }
}

/// The request a plan holds, whichever way the verdict went.
pub open spec fn planned(plan: Plan) -> http::Request<Vec<u8>> {
    match plan {
        Plan::Send(request) => request,
        Plan::DryRun(request) => request,
    }
}

/// A dry run holds exactly the request a confirmed run sends: confirming
/// changes whether it goes, never what goes.
pub proof fn lemma_dry_run_is_what_would_be_sent(effect: Effect, request: http::Request<Vec<u8>>)
    ensures
        planned(verdict(effect, false, request)) == planned(verdict(effect, true, request)),
        verdict(effect, true, request) is Send,
        verdict(effect, false, request) is DryRun <==> effect == Effect::Write,
{
}

/// Whether a write is let through: confirmed, and every gate the operation
/// names answered beside the confirmation — never instead of it.
pub open spec fn confirmed_by(op: Operation, committed: bool, named: Seq<Seq<char>>) -> bool {
    committed && forall|i: int| 0 <= i < op.gates@.len() ==> named.contains(#[trigger] op.gates@[i]@)
}

/// A gate is answered beside the confirmation and never instead of it: no set
/// of named gates confirms a write that was not confirmed, and a gate the
/// operation names that went unanswered holds the write back however it was
/// confirmed. An operation that names no gate is confirmed by the
/// confirmation alone.
pub proof fn lemma_gates_stand_beside_the_confirmation(
    op: Operation,
    committed: bool,
    named: Seq<Seq<char>>,
)
    ensures
        confirmed_by(op, committed, named) ==> committed,
        (exists|i: int| 0 <= i < op.gates@.len() && !named.contains(#[trigger] op.gates@[i]@))
            ==> !confirmed_by(op, committed, named),
        op.gates@.len() == 0 ==> (confirmed_by(op, committed, named) <==> committed),
{
}

/// What the user answered to the write check: the confirmation, and each named
/// gate typed beside it.
#[derive(Debug)]
pub struct Answers {
    commit: bool,
    gates: Vec<String>,
}

impl Answers {
    /// Whether the write was confirmed.
    pub closed spec fn committed(&self) -> bool {
        self.commit
    }

    /// The gates answered, in the order they were.
    pub closed spec fn named(&self) -> Seq<Seq<char>> {
        self.gates@.map_values(|g: String| g@)
    }

    /// Nothing answered: the closed answer, which holds every write back.
    pub fn new() -> (r: Self)
        ensures
            !r.committed(),
            r.named() == Seq::<Seq<char>>::empty(),
    {
        let r = Answers { commit: false, gates: Vec::new() };
        assert(r.named() =~= Seq::<Seq<char>>::empty());
        r
    }

    /// The write confirmed.
    pub fn commit(self) -> (r: Self)
        ensures
            r.committed(),
            r.named() == self.named(),
    {
        Answers { commit: true, gates: self.gates }
    }

    /// One named gate answered.
    pub fn gate(self, name: &str) -> (r: Self)
        ensures
            r.committed() == self.committed(),
            r.named() == self.named().push(name@),
    {
        let mut gates = self.gates;
        let ghost before = gates@;
        gates.push(name.to_owned());
        let r = Answers { commit: self.commit, gates };
        assert(r.named() =~= before.map_values(|g: String| g@).push(name@));
        r
    }

    /// Whether the write was confirmed.
    pub fn confirmed(&self) -> (r: bool)
        ensures
            r == self.committed(),
    {
        self.commit
    }

    /// Whether the named gate `name` was answered.
    pub fn answered(&self, name: &str) -> (r: bool)
        ensures
            r == self.named().contains(name@),
    {
        let mut i: usize = 0;
        while i < self.gates.len()
            invariant
                i <= self.gates@.len(),
                forall|j: int| 0 <= j < i ==> (#[trigger] self.gates@[j])@ != name@,
            decreases self.gates.len() - i,
        {
            if crate::text::str_is(self.gates[i].as_str(), name) {
                assert(self.named()[i as int] == name@);
                return true;
            }
            i += 1;
        }
        assert forall|j: int| 0 <= j < self.named().len() implies #[trigger] self.named()[j] != name@ by {
            assert(self.named()[j] == self.gates@[j]@);
        }
        false
    }

    /// Whether these answers let a write through: confirmed, and every gate
    /// the operation names answered.
    pub fn confirms(&self, op: &Operation) -> (r: bool)
        ensures
            r == confirmed_by(*op, self.committed(), self.named()),
    {
        if !self.commit {
            return false;
        }
        let gates = op.gates();
        let mut i: usize = 0;
        while i < gates.len()
            invariant
                i <= gates@.len(),
                gates@ == op.gates@,
                self.commit,
                forall|j: int| 0 <= j < i ==> self.named().contains(#[trigger] gates@[j]@),
            decreases gates.len() - i,
        {
            if !self.answered(gates[i].as_str()) {
                return false;
            }
            i += 1;
        }
        true
    }
}

/// Whether the `http` crate builds the request `values` make of `op`
/// against `base`.
pub open spec fn sendable(op: Operation, base: Base, values: Values) -> bool {
    http_accepts(
        method_name(op.method),
        url_text(op, values.sent(), base),
        wire_headers(op, values.sent(), values.carried()),
    )
}

impl Plan {
    /// Decide whether a request goes: a read runs on sight, a write runs only once confirmed.
    pub fn decide(effect: Effect, confirmed: bool, request: http::Request<Vec<u8>>) -> (r: Self)
        ensures
            r == verdict(effect, confirmed, request),
    {
        match effect {
            Effect::Read => Plan::Send(request),
            Effect::Write => if confirmed {
                Plan::Send(request)
            } else {
                Plan::DryRun(request)
            },
        }
    }

    /// Values that satisfy an operation, rendered against a server and judged
    /// — validation, rendering and the verdict in one step, so no
    /// caller can do two of the three and skip the last.
    pub fn build(op: &Operation, base: &Base, values: Values, confirmed: bool) -> (r: Result<
        Self,
        PlanError,
    >)
        ensures
            r matches Err(PlanError::Value(_)) <==> !admits(*op, values.sent(), values.carried()),
            r matches Err(PlanError::Value(e)) ==> refused(*op, values.sent(), values.carried(), e),
            r matches Ok(plan) ==> (plan is Send <==> (op.effect == Effect::Read || confirmed)),
            r matches Ok(plan) ==> plan == verdict(op.effect, confirmed, planned(plan)),
            r matches Err(PlanError::Request(_)) ==> !sendable(*op, *base, values),
            admits(*op, values.sent(), values.carried()) && sendable(*op, *base, values) ==> r is Ok,
            r is Ok <==> admits(*op, values.sent(), values.carried()) && sendable(*op, *base, values),
            r matches Ok(plan) ==> planned(plan) == request_for(*op, *base, values),
    {
        let invocation = match Invocation::new(op, values) {
            Ok(invocation) => invocation,
            Err(e) => return Err(PlanError::Value(e)),
        };
        match invocation.request(base) {
            Ok(request) => Ok(Plan::decide(op.effect(), confirmed, request)),
            Err(e) => Err(PlanError::Request(e)),
        }
    }

    /// The request, whichever way the verdict went — a dry run prints exactly the
    /// bytes a confirmed run sends, because they are this one value.
    pub fn request(&self) -> (r: &http::Request<Vec<u8>>)
        ensures
            *r == planned(*self),
    {
        match self {
            Plan::Send(request) => request,
            Plan::DryRun(request) => request,
        }
    }
}

/// Why values that parsed did not turn into a request.
#[derive(Debug)]
pub enum PlanError {
    Value(ValueError),
    Request(http::Error),
}

/// The reason the `http` crate gives for refusing a request.
pub uninterp spec fn http_error_written(e: http::Error) -> Seq<char>;

/// `http::Error`'s `Display`: the reason the `http` crate gives.
#[verifier::external_body]
fn http_error_text(e: &http::Error) -> (r: String)
    ensures
        r@ == http_error_written(*e),
{
    e.to_string()
}

impl PlanError {
    /// The sentence this error is reported in: a refused value as
    /// [`ValueError::message`] words it, a refused request after
    /// `cannot build the request: `.
    pub fn message(&self) -> (out: String)
        ensures
            self matches PlanError::Value(e) ==> out@ == value_error_text(*e),
            self matches PlanError::Request(e) ==> out@ == "cannot build the request: "@ + http_error_written(*e),
    {
        match self {
            PlanError::Value(e) => e.message(),
            PlanError::Request(e) => {
                let mut text: Vec<char> = Vec::new();
                append_str(&mut text, "cannot build the request: ");
                let reason = http_error_text(e);
                append_str(&mut text, reason.as_str());
                string_of(text.as_slice())
            },
        }
    }
}

} // verus!
