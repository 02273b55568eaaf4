//! A scripted transport's answers: what was queued for each route and for
//! anything, handed back in the order it was queued, and the failure a script
//! hands back in place of a response.

use vstd::prelude::*;

verus! {

/// A scripted failure: what a recorder's script asked for instead of a
/// response, carrying the message it was queued with.
#[derive(Debug, Clone, PartialEq, Eq)]
pub struct RecorderError {
    message: String,
}

impl RecorderError {
    /// The failure a script queued with `message`.
    pub fn scripted(message: &str) -> (r: Self)
        ensures
            r.text() == message@,
    {
        RecorderError { message: message.to_owned() }
    }

    /// The message, as the contracts read it.
    pub closed spec fn text(self) -> Seq<char> {
        self.message@
    }

    /// The message this failure was queued with, handed back unwrapped so
    /// that a test compares against the constant it scripted.
    pub fn message(&self) -> (r: &str)
        ensures
            r@ == self.text(),
    {
        self.message.as_str()
    }
}

/// What a script holds: answers queued for one route — one method on one
/// path, the query being no part of it — and answers queued for anything.
#[derive(Debug)]
pub struct Script<A> {
    per_route: Vec<(String, String, Vec<A>)>,
    anything: Vec<A>,
}

/// What a script gives for one request: an answer it queued, or, with
/// nothing queued, a refusal where it is strict and the default answer where
/// it is not.
#[derive(Debug)]
pub enum Reply<A> {
    Queued(A),
    Unscripted,
    Default,
}

/// The answers queued for one route of a list of queues: those of the first
/// entry for it, none where there is no entry.
pub open spec fn route_queue<A>(routes: Seq<(String, String, Vec<A>)>, method: Seq<char>, path: Seq<char>) -> Seq<A> {
    if exists|i: int| 0 <= i < routes.len() && (#[trigger] routes[i]).0@ == method && routes[i].1@ == path {
        let i = choose|i: int|
            0 <= i < routes.len() && (#[trigger] routes[i]).0@ == method && routes[i].1@ == path
                && forall|j: int| 0 <= j < i ==> !((#[trigger] routes[j]).0@ == method && routes[j].1@ == path);
        routes[i].2@
    } else {
        seq![]
    }
}

/// Whether no entry before `j` names the route entry `j` names.
pub open spec fn first_entry<A>(routes: Seq<(String, String, Vec<A>)>, j: int) -> bool {
    forall|i: int| 0 <= i < j ==> !((#[trigger] routes[i]).0@ == routes[j].0@ && routes[i].1@ == routes[j].1@)
}

/// How many answers a list of queues holds.
pub open spec fn queued_total<A>(routes: Seq<(String, String, Vec<A>)>) -> int
    decreases routes.len(),
{
    if routes.len() == 0 {
        0
    } else {
        queued_total(routes.drop_last()) + routes.last().2@.len()
    }
}

/// Taking one answer off one entry's queue leaves one answer fewer in all.
proof fn lemma_total_drops_one<A>(before: Seq<(String, String, Vec<A>)>, after: Seq<(String, String, Vec<A>)>, i: int)
    requires
        before.len() == after.len(),
        0 <= i < before.len(),
        forall|j: int| 0 <= j < before.len() && j != i ==> #[trigger] after[j] == before[j],
        after[i].2@.len() + 1 == before[i].2@.len(),
    ensures
        queued_total(after) == queued_total(before) - 1,
    decreases before.len(),
{
    if i == before.len() - 1 {
        assert(after.drop_last() =~= before.drop_last());
    } else {
        assert forall|j: int| 0 <= j < before.drop_last().len() && j != i implies #[trigger] after.drop_last()[j]
            == before.drop_last()[j] by {
            assert(after[j] == before[j]);
        }
        assert(after.last() == before.last()) by {
            assert(after[after.len() - 1] == before[before.len() - 1]);
        }
        lemma_total_drops_one(before.drop_last(), after.drop_last(), i);
    }
}

/// What one reply does to a script: the first answer queued for the route
/// goes, else the first queued for anything, else nothing goes and the reply
/// is a refusal for a strict script and the default answer for any other.
/// Every other route keeps its queue, and a reply that gave an answer leaves
/// one answer fewer.
pub open spec fn replies<A>(
    before: Script<A>,
    after: Script<A>,
    method: Seq<char>,
    path: Seq<char>,
    strict: bool,
    r: Reply<A>,
) -> bool {
    &&& before.queue(method, path).len() > 0 ==> {
        &&& r == Reply::Queued(before.queue(method, path)[0])
        &&& after.queue(method, path) == before.queue(method, path).drop_first()
        &&& after.for_anything() == before.for_anything()
    }
    &&& before.queue(method, path).len() == 0 && before.for_anything().len() > 0 ==> {
        &&& r == Reply::Queued(before.for_anything()[0])
        &&& after.for_anything() == before.for_anything().drop_first()
        &&& after.queue(method, path) == before.queue(method, path)
    }
    &&& before.queue(method, path).len() == 0 && before.for_anything().len() == 0 ==> {
        &&& r == (if strict { Reply::<A>::Unscripted } else { Reply::<A>::Default })
        &&& after.for_anything() == before.for_anything()
    }
    &&& forall|m: Seq<char>, p: Seq<char>|
        !(m == method && p == path) ==> #[trigger] after.queue(m, p) == before.queue(m, p)
    &&& r is Queued ==> after.left() == before.left() - 1
    &&& !(r is Queued) ==> after.left() == before.left()
}

impl<A> Script<A> {
    /// The answers queued for one route, first to be given first.
    pub closed spec fn queue(self, method: Seq<char>, path: Seq<char>) -> Seq<A> {
        route_queue(self.per_route@, method, path)
    }

    /// The answers queued for anything, first to be given first.
    pub closed spec fn for_anything(self) -> Seq<A> {
        self.anything@
    }

    /// How many answers are queued, for every route and for anything.
    pub closed spec fn left(self) -> int {
        self.anything@.len() + queued_total(self.per_route@)
    }

    /// A script with nothing queued.
    pub fn new() -> (r: Self)
        ensures
            forall|m: Seq<char>, p: Seq<char>| #[trigger] r.queue(m, p) == Seq::<A>::empty(),
            r.for_anything() == Seq::<A>::empty(),
            r.left() == 0,
    {
        Script { per_route: Vec::new(), anything: Vec::new() }
    }

    /// Where the first entry for a route stands, if there is one.
    fn find(&self, method: &str, path: &str) -> (r: Option<usize>)
        ensures
            match r {
                Some(i) => i < self.per_route@.len() && self.per_route@[i as int].0@ == method@
                    && self.per_route@[i as int].1@ == path@ && route_queue(self.per_route@, method@, path@)
                    == self.per_route@[i as int].2@ && forall|j: int|
                    0 <= j < i ==> !((#[trigger] self.per_route@[j]).0@ == method@ && self.per_route@[j].1@ == path@),
                None => forall|j: int|
                    0 <= j < self.per_route@.len() ==> !((#[trigger] self.per_route@[j]).0@ == method@
                        && self.per_route@[j].1@ == path@),
            },
    {
        let mut i: usize = 0;
        while i < self.per_route.len()
            invariant
                i <= self.per_route@.len(),
                forall|j: int|
                    0 <= j < i ==> !((#[trigger] self.per_route@[j]).0@ == method@ && self.per_route@[j].1@ == path@),
            decreases self.per_route.len() - i,
        {
            if crate::text::str_is(self.per_route[i].0.as_str(), method) && crate::text::str_is(
                self.per_route[i].1.as_str(),
                path,
            ) {
                proof {
                    let routes = self.per_route@;
                    let k = choose|k: int|
                        0 <= k < routes.len() && (#[trigger] routes[k]).0@ == method@ && routes[k].1@ == path@
                            && forall|j: int| 0 <= j < k ==> !((#[trigger] routes[j]).0@ == method@ && routes[j].1@ == path@);
                    if k < i {
                        assert(!(routes[k].0@ == method@ && routes[k].1@ == path@));
                    } else if k > i {
                        assert(!(routes[i as int].0@ == method@ && routes[i as int].1@ == path@));
                    }
                }
                return Some(i);
            }
            i += 1;
        }
        None
    }

    /// Queue `answer` behind whatever one route already holds.
    pub fn queue_for(&mut self, method: &str, path: &str, answer: A)
        ensures
            final(self).queue(method@, path@) == old(self).queue(method@, path@).push(answer),
            forall|m: Seq<char>, p: Seq<char>|
                !(m == method@ && p == path@) ==> #[trigger] final(self).queue(m, p) == old(self).queue(m, p),
            final(self).for_anything() == old(self).for_anything(),
    {
        match self.find(method, path) {
            Some(i) => {
                let ghost before = self.per_route@;
                let mut entry = self.per_route.remove(i);
                entry.2.push(answer);
                self.per_route.insert(i, entry);
                proof {
                    let after = self.per_route@;
                    assert(after.len() == before.len());
                    assert forall|j: int| 0 <= j < after.len() && j != i implies #[trigger] after[j] == before[j] by {
                        if j < i {
                            assert(after[j] == before[j]);
                        } else {
                            assert(after[j] == before[j]);
                        }
                    }
                    lemma_route_queue_update(before, after, i as int, method@, path@);
                }
            },
            None => {
                let ghost before = self.per_route@;
                let mut fresh: Vec<A> = Vec::new();
                fresh.push(answer);
                self.per_route.push((method.to_owned(), path.to_owned(), fresh));
                proof {
                    lemma_route_queue_append(before, self.per_route@, method@, path@);
                }
            },
        }
    }

    /// Queue `answer` behind whatever is queued for anything.
    pub fn queue_for_anything(&mut self, answer: A)
        ensures
            final(self).for_anything() == old(self).for_anything().push(answer),
            forall|m: Seq<char>, p: Seq<char>| #[trigger] final(self).queue(m, p) == old(self).queue(m, p),
    {
        self.anything.push(answer);
    }

    /// The answer for one request on a route: the first queued for the route,
    /// else the first queued for anything, else what is owed where nothing was
    /// queued — a refusal for a strict script and the default answer for any
    /// other. What is given is taken out of the script.
    pub fn reply(&mut self, method: &str, path: &str, strict: bool) -> (r: Reply<A>)
        ensures
            replies(*old(self), *final(self), method@, path@, strict, r),
    {
        match self.find(method, path) {
            Some(i) => {
                if self.per_route[i].2.len() > 0 {
                    let ghost before = self.per_route@;
                    let mut entry = self.per_route.remove(i);
                    let answer = entry.2.remove(0);
                    self.per_route.insert(i, entry);
                    proof {
                        let after = self.per_route@;
                        assert forall|j: int| 0 <= j < after.len() && j != i implies #[trigger] after[j] == before[j] by {}
                        lemma_route_queue_update(before, after, i as int, method@, path@);
                        assert(after[i as int].2@ =~= before[i as int].2@.drop_first());
                        lemma_total_drops_one(before, after, i as int);
                    }
                    return Reply::Queued(answer);
                }
            },
            None => {},
        }
        if self.anything.len() > 0 {
            let answer = self.anything.remove(0);
            assert(self.anything@ =~= old(self).anything@.drop_first());
            return Reply::Queued(answer);
        }
        if strict {
            Reply::Unscripted
        } else {
            Reply::Default
        }
    }

    /// The routes that still hold answers, each with how many are left, in
    /// the order they were first queued for: every route holding one is
    /// listed, and nothing else is.
    pub fn held(&self) -> (r: Vec<(String, String, usize)>)
        ensures
            forall|k: int| 0 <= k < r@.len() ==> (#[trigger] r@[k]).2 > 0 && r@[k].2 == self.queue(r@[k].0@, r@[k].1@).len(),
            forall|m: Seq<char>, p: Seq<char>|
                #[trigger] self.queue(m, p).len() > 0 ==> exists|k: int|
                    0 <= k < r@.len() && (#[trigger] r@[k]).0@ == m && r@[k].1@ == p,
    {
        let ghost routes = self.per_route@;
        let mut out: Vec<(String, String, usize)> = Vec::new();
        let mut i: usize = 0;
        while i < self.per_route.len()
            invariant
                i <= self.per_route@.len(),
                routes == self.per_route@,
                forall|k: int| 0 <= k < out@.len() ==> (#[trigger] out@[k]).2 > 0 && out@[k].2 == self.queue(out@[k].0@, out@[k].1@).len(),
                forall|j: int|
                    0 <= j < i && first_entry(routes, j) && (#[trigger] routes[j]).2@.len() > 0 ==> exists|k: int|
                        0 <= k < out@.len() && (#[trigger] out@[k]).0@ == routes[j].0@ && out@[k].1@ == routes[j].1@,
            decreases self.per_route.len() - i,
        {
            let n = self.per_route[i].2.len();
            let ghost before = out@;
            if n > 0 {
                match self.find(self.per_route[i].0.as_str(), self.per_route[i].1.as_str()) {
                    Some(first) => if first == i {
                        out.push((self.per_route[i].0.clone(), self.per_route[i].1.clone(), n));
                        proof {
                            assert(out@[before.len() as int].0@ == routes[i as int].0@);
                        }
                    },
                    None => {},
                }
            }
            proof {
                assert forall|j: int|
                    0 <= j < i + 1 && first_entry(routes, j) && (#[trigger] routes[j]).2@.len() > 0 implies exists|k: int|
                        0 <= k < out@.len() && (#[trigger] out@[k]).0@ == routes[j].0@ && out@[k].1@ == routes[j].1@ by {
                    if j < i {
                        let k = choose|k: int|
                            0 <= k < before.len() && (#[trigger] before[k]).0@ == routes[j].0@ && before[k].1@ == routes[j].1@;
                        assert(out@[k] == before[k]);
                    } else {
                        assert(out@[before.len() as int].0@ == routes[j].0@);
                    }
                }
            }
            i += 1;
        }
        proof {
            assert forall|m: Seq<char>, p: Seq<char>|
                #[trigger] self.queue(m, p).len() > 0 implies exists|k: int|
                    0 <= k < out@.len() && (#[trigger] out@[k]).0@ == m && out@[k].1@ == p by {
                assert(route_queue(routes, m, p).len() > 0);
                let w = choose|w: int| 0 <= w < routes.len() && (#[trigger] routes[w]).0@ == m && routes[w].1@ == p;
                lemma_route_queue_first(routes, w, m, p);
                let f = choose|f: int|
                    0 <= f < routes.len() && (#[trigger] routes[f]).0@ == m && routes[f].1@ == p && forall|j: int|
                        0 <= j < f ==> !((#[trigger] routes[j]).0@ == m && routes[j].1@ == p);
                lemma_route_queue_at(routes, f, m, p);
                assert(first_entry(routes, f));
            }
        }
        out
    }

    /// How many answers are queued, for every route and for anything: what a
    /// test can ask about once it has run.
    pub fn unused(&self) -> (r: usize)
        requires
            self.left() <= usize::MAX,
        ensures
            r == self.left(),
    {
        let mut total: usize = self.anything.len();
        let mut i: usize = 0;
        while i < self.per_route.len()
            invariant
                i <= self.per_route@.len(),
                self.left() <= usize::MAX,
                total == self.anything@.len() + queued_total(self.per_route@.take(i as int)),
            decreases self.per_route.len() - i,
        {
            proof {
                assert(self.per_route@.take(i + 1).drop_last() =~= self.per_route@.take(i as int));
                lemma_total_prefix(self.per_route@, i + 1);
            }
            total = total + self.per_route[i].2.len();
            i += 1;
        }
        assert(self.per_route@.take(self.per_route@.len() as int) =~= self.per_route@);
        total
    }

    /// How many answers are queued for anything.
    pub fn anything_left(&self) -> (r: usize)
        ensures
            r == self.for_anything().len(),
    {
        self.anything.len()
    }
}

/// A prefix of a list of queues holds no more answers than the whole.
proof fn lemma_total_prefix<A>(routes: Seq<(String, String, Vec<A>)>, n: int)
    requires
        0 <= n <= routes.len(),
    ensures
        queued_total(routes.take(n)) <= queued_total(routes),
    decreases routes.len() - n,
{
    if n < routes.len() {
        lemma_total_prefix(routes, n + 1);
        assert(routes.take(n + 1).drop_last() =~= routes.take(n));
    } else {
        assert(routes.take(n) =~= routes);
    }
}

/// Changing one entry of a list of queues, its route kept, changes only that
/// route's queue.
proof fn lemma_route_queue_update<A>(
    before: Seq<(String, String, Vec<A>)>,
    after: Seq<(String, String, Vec<A>)>,
    i: int,
    method: Seq<char>,
    path: Seq<char>,
)
    requires
        0 <= i < before.len(),
        after.len() == before.len(),
        before[i].0@ == method && before[i].1@ == path,
        after[i].0@ == method && after[i].1@ == path,
        forall|j: int| 0 <= j < after.len() && j != i ==> #[trigger] after[j] == before[j],
        forall|j: int| 0 <= j < i ==> !((#[trigger] before[j]).0@ == method && before[j].1@ == path),
    ensures
        route_queue(after, method, path) == after[i].2@,
        route_queue(before, method, path) == before[i].2@,
        forall|m: Seq<char>, p: Seq<char>|
            !(m == method && p == path) ==> #[trigger] route_queue(after, m, p) == route_queue(before, m, p),
{
    lemma_route_queue_at(before, i, method, path);
    assert forall|j: int| 0 <= j < i implies !((#[trigger] after[j]).0@ == method && after[j].1@ == path) by {
        assert(after[j] == before[j]);
    }
    lemma_route_queue_at(after, i, method, path);
    assert forall|m: Seq<char>, p: Seq<char>|
        !(m == method && p == path) implies #[trigger] route_queue(after, m, p) == route_queue(before, m, p) by {
        assert forall|j: int| 0 <= j < after.len() implies ((#[trigger] after[j]).0@ == m && after[j].1@ == p) == (before[j].0@ == m && before[j].1@ == p) by {
            if j != i {
                assert(after[j] == before[j]);
            }
        }
        if exists|j: int| 0 <= j < before.len() && (#[trigger] before[j]).0@ == m && before[j].1@ == p {
            let w = choose|j: int| 0 <= j < before.len() && (#[trigger] before[j]).0@ == m && before[j].1@ == p;
            lemma_route_queue_first(before, w, m, p);
            lemma_route_queue_first(after, w, m, p);
            let f = choose|k: int| 0 <= k < before.len() && (#[trigger] before[k]).0@ == m && before[k].1@ == p
                && forall|j: int| 0 <= j < k ==> !((#[trigger] before[j]).0@ == m && before[j].1@ == p);
            let g = choose|k: int| 0 <= k < after.len() && (#[trigger] after[k]).0@ == m && after[k].1@ == p
                && forall|j: int| 0 <= j < k ==> !((#[trigger] after[j]).0@ == m && after[j].1@ == p);
            if f < g {
                assert(!(after[f].0@ == m && after[f].1@ == p));
            } else if g < f {
                assert(!(before[g].0@ == m && before[g].1@ == p));
            }
            assert(f != i);
            assert(after[f] == before[f]);
        } else {
            assert(!exists|j: int| 0 <= j < after.len() && (#[trigger] after[j]).0@ == m && after[j].1@ == p);
        }
    }
}

/// Where the first entry for a route stands at `i`, its queue is the route's.
proof fn lemma_route_queue_at<A>(routes: Seq<(String, String, Vec<A>)>, i: int, method: Seq<char>, path: Seq<char>)
    requires
        0 <= i < routes.len(),
        routes[i].0@ == method && routes[i].1@ == path,
        forall|j: int| 0 <= j < i ==> !((#[trigger] routes[j]).0@ == method && routes[j].1@ == path),
    ensures
        route_queue(routes, method, path) == routes[i].2@,
{
    let k = choose|k: int|
        0 <= k < routes.len() && (#[trigger] routes[k]).0@ == method && routes[k].1@ == path && forall|j: int|
            0 <= j < k ==> !((#[trigger] routes[j]).0@ == method && routes[j].1@ == path);
    assert(0 <= i < routes.len() && (#[trigger] routes[i]).0@ == method && routes[i].1@ == path && forall|j: int|
        0 <= j < i ==> !((#[trigger] routes[j]).0@ == method && routes[j].1@ == path));
    if k < i {
        assert(!(routes[k].0@ == method && routes[k].1@ == path));
    } else if k > i {
        assert(!(routes[i].0@ == method && routes[i].1@ == path));
    }
}

/// Wherever an entry for a route stands, a first one does.
proof fn lemma_route_queue_first<A>(routes: Seq<(String, String, Vec<A>)>, w: int, method: Seq<char>, path: Seq<char>)
    requires
        0 <= w < routes.len(),
        routes[w].0@ == method && routes[w].1@ == path,
    ensures
        exists|k: int|
            0 <= k < routes.len() && (#[trigger] routes[k]).0@ == method && routes[k].1@ == path && forall|j: int|
                0 <= j < k ==> !((#[trigger] routes[j]).0@ == method && routes[j].1@ == path),
    decreases w,
{
    if exists|j: int| 0 <= j < w && (#[trigger] routes[j]).0@ == method && routes[j].1@ == path {
        let j = choose|j: int| 0 <= j < w && (#[trigger] routes[j]).0@ == method && routes[j].1@ == path;
        lemma_route_queue_first(routes, j, method, path);
    } else {
        assert(0 <= w < routes.len() && (#[trigger] routes[w]).0@ == method && routes[w].1@ == path && forall|j: int|
            0 <= j < w ==> !((#[trigger] routes[j]).0@ == method && routes[j].1@ == path));
    }
}

/// A new entry at the end, for a route no entry names yet, is that route's
/// queue and changes no other.
proof fn lemma_route_queue_append<A>(
    before: Seq<(String, String, Vec<A>)>,
    after: Seq<(String, String, Vec<A>)>,
    method: Seq<char>,
    path: Seq<char>,
)
    requires
        after.len() == before.len() + 1,
        forall|j: int| 0 <= j < before.len() ==> #[trigger] after[j] == before[j],
        forall|j: int| 0 <= j < before.len() ==> !((#[trigger] before[j]).0@ == method && before[j].1@ == path),
        after[before.len() as int].0@ == method && after[before.len() as int].1@ == path,
    ensures
        route_queue(after, method, path) == after[before.len() as int].2@,
        route_queue(before, method, path) == Seq::<A>::empty(),
        forall|m: Seq<char>, p: Seq<char>|
            !(m == method && p == path) ==> #[trigger] route_queue(after, m, p) == route_queue(before, m, p),
{
    let n = before.len() as int;
    assert forall|j: int| 0 <= j < n implies !((#[trigger] after[j]).0@ == method && after[j].1@ == path) by {
        assert(after[j] == before[j]);
    }
    lemma_route_queue_at(after, n, method, path);
    assert forall|m: Seq<char>, p: Seq<char>|
        !(m == method && p == path) implies #[trigger] route_queue(after, m, p) == route_queue(before, m, p) by {
        if exists|j: int| 0 <= j < before.len() && (#[trigger] before[j]).0@ == m && before[j].1@ == p {
            let w = choose|j: int| 0 <= j < before.len() && (#[trigger] before[j]).0@ == m && before[j].1@ == p;
            lemma_route_queue_first(before, w, m, p);
            let f = choose|k: int| 0 <= k < before.len() && (#[trigger] before[k]).0@ == m && before[k].1@ == p
                && forall|j: int| 0 <= j < k ==> !((#[trigger] before[j]).0@ == m && before[j].1@ == p);
            assert(after[f] == before[f]);
            assert forall|j: int| 0 <= j < f implies !((#[trigger] after[j]).0@ == m && after[j].1@ == p) by {
                assert(after[j] == before[j]);
            }
            lemma_route_queue_at(after, f, m, p);
            lemma_route_queue_at(before, f, m, p);
        } else {
            assert forall|j: int| 0 <= j < after.len() implies !((#[trigger] after[j]).0@ == m && after[j].1@ == p) by {
                if j < n {
                    assert(after[j] == before[j]);
                }
            }
        }
    }
}

} // verus!

verus! {

/// What a recorder can be scripted to give for a request: a response, or a
/// failure carrying the message it was queued with.
#[derive(Debug)]
pub enum Answer<P> {
    Response(P),
    Failure(String),
}

/// What a recorder gives for one request: a scripted response, a scripted
/// failure, a refusal where it is strict and nothing was queued, and the
/// default answer where it is not.
#[derive(Debug)]
pub enum Outcome<P> {
    Answered(P),
    Failed(RecorderError),
    Unscripted,
    Default,
}

/// Whether `outcome` is what a recorder gives for `reply`: a queued response
/// as it is, a queued failure as an error carrying its message.
pub open spec fn given<P>(reply: Reply<Answer<P>>, outcome: Outcome<P>) -> bool {
    match reply {
        Reply::Queued(Answer::Response(p)) => outcome == Outcome::Answered(p),
        Reply::Queued(Answer::Failure(m)) => outcome matches Outcome::Failed(e) && e.text() == m@,
        Reply::Unscripted => outcome is Unscripted,
        Reply::Default => outcome is Default,
    }
}

/// A script, and every request handed to it in the order it was handed.
#[derive(Debug)]
pub struct Recording<R, P> {
    script: Script<Answer<P>>,
    sent: Vec<R>,
}

impl<R, P> Recording<R, P> {
    /// The script that answers.
    pub closed spec fn script(self) -> Script<Answer<P>> {
        self.script
    }

    /// Every request handed over since the last [`Recording::take`].
    pub closed spec fn sent(self) -> Seq<R> {
        self.sent@
    }

    /// Nothing queued, nothing sent.
    pub fn new() -> (r: Self)
        ensures
            forall|m: Seq<char>, p: Seq<char>| #[trigger] r.script().queue(m, p) == Seq::<Answer<P>>::empty(),
            r.script().for_anything() == Seq::<Answer<P>>::empty(),
            r.script().left() == 0,
            r.sent() == Seq::<R>::empty(),
    {
        Recording { script: Script::new(), sent: Vec::new() }
    }

    /// Queue `answer` for one method on one path.
    pub fn queue_for(&mut self, method: &str, path: &str, answer: Answer<P>)
        ensures
            final(self).script().queue(method@, path@) == old(self).script().queue(method@, path@).push(answer),
            forall|m: Seq<char>, p: Seq<char>|
                !(m == method@ && p == path@) ==> #[trigger] final(self).script().queue(m, p) == old(
                    self,
                ).script().queue(m, p),
            final(self).script().for_anything() == old(self).script().for_anything(),
            final(self).sent() == old(self).sent(),
    {
        self.script.queue_for(method, path, answer);
    }

    /// Queue `answer` for any request that has nothing of its own.
    pub fn queue_for_anything(&mut self, answer: Answer<P>)
        ensures
            final(self).script().for_anything() == old(self).script().for_anything().push(answer),
            forall|m: Seq<char>, p: Seq<char>|
                #[trigger] final(self).script().queue(m, p) == old(self).script().queue(m, p),
            final(self).sent() == old(self).sent(),
    {
        self.script.queue_for_anything(answer);
    }

    /// Record `request`, sent as `method` on `path`, and give what the script
    /// has for that route: every request is recorded, whatever it is given.
    pub fn answer(&mut self, request: R, method: &str, path: &str, strict: bool) -> (r: Outcome<P>)
        ensures
            final(self).sent() == old(self).sent().push(request),
            exists|reply: Reply<Answer<P>>|
                replies(old(self).script(), final(self).script(), method@, path@, strict, reply)
                    && given(reply, r),
    {
        self.sent.push(request);
        let reply = self.script.reply(method, path, strict);
        let ghost kept = reply;
        let outcome = match reply {
            Reply::Queued(Answer::Response(p)) => Outcome::Answered(p),
            Reply::Queued(Answer::Failure(m)) => Outcome::Failed(RecorderError::scripted(m.as_str())),
            Reply::Unscripted => Outcome::Unscripted,
            Reply::Default => Outcome::Default,
        };
        assert(given(kept, outcome));
        outcome
    }

    /// Every request sent so far, taken out: the recording starts over, and
    /// the script is left as it was.
    pub fn take(&mut self) -> (r: Vec<R>)
        ensures
            r@ == old(self).sent(),
            final(self).sent() == Seq::<R>::empty(),
            final(self).script() == old(self).script(),
    {
        let mut taken: Vec<R> = Vec::new();
        std::mem::swap(&mut taken, &mut self.sent);
        taken
    }

    /// How many queued answers nobody asked for.
    pub fn unused(&self) -> (r: usize)
        requires
            self.script().left() <= usize::MAX,
        ensures
            r == self.script().left(),
    {
        self.script.unused()
    }

    /// The routes that still hold answers, each with how many are left.
    pub fn held(&self) -> (r: Vec<(String, String, usize)>)
        ensures
            forall|k: int|
                0 <= k < r@.len() ==> (#[trigger] r@[k]).2 > 0 && r@[k].2 == self.script().queue(
                    r@[k].0@,
                    r@[k].1@,
                ).len(),
            forall|m: Seq<char>, p: Seq<char>|
                #[trigger] self.script().queue(m, p).len() > 0 ==> exists|k: int|
                    0 <= k < r@.len() && (#[trigger] r@[k]).0@ == m && r@[k].1@ == p,
    {
        self.script.held()
    }

    /// How many answers are queued for anything.
    pub fn anything_left(&self) -> (r: usize)
        ensures
            r == self.script().for_anything().len(),
    {
        self.script.anything_left()
    }
}

} // verus!
