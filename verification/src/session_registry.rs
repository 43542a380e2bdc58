//! Which actor serves which session.
//!
//! The supervisor keeps one entry per running session: the session's id and a number that
//! names its actor. Asking for a session first drops the entries whose actor has finished;
//! then a live entry is reused, and only a session without one gets a new actor. Calls are
//! serialised by the supervisor's lock, so however many ask for the same session at once, one
//! actor is started, and every caller is given that actor until it is removed or finishes.

use vstd::prelude::*;

use crate::ids::SessionId;
use crate::json::str_equal;

verus! {

/// Whether no two entries name the same session.
pub open spec fn keys_distinct(p: Seq<(Seq<char>, u64)>) -> bool {
    forall|i: int, j: int| 0 <= i < p.len() && 0 <= j < p.len() && i != j ==> p[i].0 != p[j].0
}

/// Whether an entry names session `k`.
pub open spec fn has_key(p: Seq<(Seq<char>, u64)>, k: Seq<char>) -> bool {
    exists|i: int| 0 <= i < p.len() && p[i].0 == k
}

/// The map from session to actor that the entries `p` hold.
pub open spec fn map_of(p: Seq<(Seq<char>, u64)>) -> Map<Seq<char>, u64> {
    Map::new(
        |k: Seq<char>| has_key(p, k),
        |k: Seq<char>| p[choose|i: int| 0 <= i < p.len() && p[i].0 == k].1,
    )
}

/// The entries of `m` whose actor is not among `finished`.
pub open spec fn live(m: Map<Seq<char>, u64>, finished: Seq<u64>) -> Map<Seq<char>, u64> {
    Map::new(|k: Seq<char>| m.dom().contains(k) && !finished.contains(m[k]), |k: Seq<char>| m[k])
}

/// What asking for a session gives.
#[derive(Debug, Clone, Copy, PartialEq, Eq, Structural)]
pub enum StartDecision {
    /// The session's actor runs: use it.
    Reuse(u64),
    /// The session has no running actor: start one and record it.
    Start,
}

/// The registry after asking for `session` when `finished` lists the finished actors, and
/// the decision.
pub open spec fn decide_spec(m: Map<Seq<char>, u64>, finished: Seq<u64>, session: Seq<char>) -> (
    Map<Seq<char>, u64>,
    StartDecision,
) {
    let kept = live(m, finished);
    if kept.dom().contains(session) {
        (kept, StartDecision::Reuse(kept[session]))
    } else {
        (kept, StartDecision::Start)
    }
}

/// Asking for `session` and, when no actor runs for it, starting actor `fresh` and recording
/// it: the registry after the call, the actor the caller is given, and whether it was started.
pub open spec fn get_or_start_spec(
    m: Map<Seq<char>, u64>,
    finished: Seq<u64>,
    session: Seq<char>,
    fresh: u64,
) -> (Map<Seq<char>, u64>, u64, bool) {
    let (kept, decision) = decide_spec(m, finished, session);
    match decision {
        StartDecision::Reuse(a) => (kept, a, false),
        StartDecision::Start => (kept.insert(session, fresh), fresh, true),
    }
}

/// How many actors a run of calls for `session` starts, the `i`-th call being given
/// `fresh[i]` to start if it must.
pub open spec fn starts(
    m: Map<Seq<char>, u64>,
    finished: Seq<u64>,
    session: Seq<char>,
    fresh: Seq<u64>,
) -> nat
    decreases fresh.len(),
{
    if fresh.len() == 0 {
        0
    } else {
        let (next, _, started) = get_or_start_spec(m, finished, session, fresh[0]);
        (if started {
            1nat
        } else {
            0nat
        }) + starts(next, finished, session, fresh.drop_first())
    }
}

/// Each entry as the session's id and its actor.
pub open spec fn entry_views(entries: Seq<(SessionId, u64)>) -> Seq<(Seq<char>, u64)> {
    entries.map_values(|e: (SessionId, u64)| (e.0@, e.1))
}

/// The running sessions and their actors.
pub struct SessionRegistry {
    entries: Vec<(SessionId, u64)>,
}

impl View for SessionRegistry {
    type V = Map<Seq<char>, u64>;

    closed spec fn view(&self) -> Map<Seq<char>, u64> {
        map_of(self.pairs())
    }
}

proof fn lemma_map_of_at(p: Seq<(Seq<char>, u64)>, i: int)
    requires
        keys_distinct(p),
        0 <= i < p.len(),
    ensures
        map_of(p).dom().contains(p[i].0),
        map_of(p)[p[i].0] == p[i].1,
{
    assert(has_key(p, p[i].0));
    let j = choose|j: int| 0 <= j < p.len() && p[j].0 == p[i].0;
    assert(j == i);
}

proof fn lemma_map_of_push(p: Seq<(Seq<char>, u64)>, k: Seq<char>, a: u64)
    requires
        keys_distinct(p),
        !has_key(p, k),
    ensures
        keys_distinct(p.push((k, a))),
        map_of(p.push((k, a))) == map_of(p).insert(k, a),
{
    let q = p.push((k, a));
    assert(keys_distinct(q)) by {
        assert forall|i: int, j: int|
            0 <= i < q.len() && 0 <= j < q.len() && i != j implies q[i].0 != q[j].0 by {
            if i < p.len() && j < p.len() {
                assert(q[i] == p[i] && q[j] == p[j]);
            } else if i < p.len() {
                assert(q[i] == p[i]);
            } else {
                assert(q[j] == p[j]);
            }
        }
    }
    assert forall|x: Seq<char>| #[trigger] map_of(q).dom().contains(x) <==> map_of(p).insert(
        k,
        a,
    ).dom().contains(x) by {
        if has_key(q, x) && x != k {
            let i = choose|i: int| 0 <= i < q.len() && q[i].0 == x;
            assert(i < p.len());
            assert(p[i] == q[i]);
        }
        if has_key(p, x) {
            let i = choose|i: int| 0 <= i < p.len() && p[i].0 == x;
            assert(q[i] == p[i]);
        }
        if x == k {
            assert(q[p.len() as int].0 == k);
        }
    }
    assert forall|x: Seq<char>| #[trigger] map_of(q).dom().contains(x) implies map_of(q)[x]
        == map_of(p).insert(k, a)[x] by {
        if x == k {
            lemma_map_of_at(q, p.len() as int);
        } else {
            let i = choose|i: int| 0 <= i < q.len() && q[i].0 == x;
            assert(i < p.len());
            assert(q[i] == p[i]);
            lemma_map_of_at(q, i);
            lemma_map_of_at(p, i);
        }
    }
    assert(map_of(q) =~= map_of(p).insert(k, a));
}

proof fn lemma_map_of_remove(p: Seq<(Seq<char>, u64)>, i: int)
    requires
        keys_distinct(p),
        0 <= i < p.len(),
    ensures
        keys_distinct(p.remove(i)),
        map_of(p.remove(i)) == map_of(p).remove(p[i].0),
{
    let q = p.remove(i);
    let k = p[i].0;
    assert forall|j: int| 0 <= j < q.len() implies #[trigger] q[j] == p[if j < i {
        j
    } else {
        j + 1
    }] by {}
    assert(keys_distinct(q)) by {
        assert forall|x: int, y: int|
            0 <= x < q.len() && 0 <= y < q.len() && x != y implies q[x].0 != q[y].0 by {
            let px = if x < i {
                x
            } else {
                x + 1
            };
            let py = if y < i {
                y
            } else {
                y + 1
            };
            assert(q[x] == p[px] && q[y] == p[py]);
        }
    }
    assert forall|x: Seq<char>| #[trigger] map_of(q).dom().contains(x) <==> map_of(p).remove(
        k,
    ).dom().contains(x) by {
        if has_key(q, x) {
            let j = choose|j: int| 0 <= j < q.len() && q[j].0 == x;
            let pj = if j < i {
                j
            } else {
                j + 1
            };
            assert(q[j] == p[pj]);
            assert(has_key(p, x));
        }
        if has_key(p, x) && x != k {
            let j = choose|j: int| 0 <= j < p.len() && p[j].0 == x;
            assert(j != i);
            let qj = if j < i {
                j
            } else {
                j - 1
            };
            assert(q[qj] == p[j]);
        }
    }
    assert forall|x: Seq<char>| #[trigger] map_of(q).dom().contains(x) implies map_of(q)[x]
        == map_of(p).remove(k)[x] by {
        let j = choose|j: int| 0 <= j < q.len() && q[j].0 == x;
        let pj = if j < i {
            j
        } else {
            j + 1
        };
        assert(q[j] == p[pj]);
        lemma_map_of_at(q, j);
        lemma_map_of_at(p, pj);
    }
    assert(map_of(q) =~= map_of(p).remove(k));
}

/// Whether entry `x` is one of the first `n` entries of `p` whose actor `finished` does not
/// list.
pub open spec fn kept_from(p: Seq<(Seq<char>, u64)>, x: (Seq<char>, u64), n: int, finished: Seq<u64>) -> bool {
    exists|t: int| 0 <= t < n && x == p[t] && !finished.contains(p[t].1)
}

/// Whether `q` holds entry `x`.
pub open spec fn holds(q: Seq<(Seq<char>, u64)>, x: (Seq<char>, u64)) -> bool {
    exists|j: int| 0 <= j < q.len() && q[j] == x
}

/// Whether `q` holds, once each, the entries among the first `n` of `p` whose actor
/// `finished` does not list, and nothing else.
pub open spec fn filtered_prefix(
    p: Seq<(Seq<char>, u64)>,
    q: Seq<(Seq<char>, u64)>,
    n: int,
    finished: Seq<u64>,
) -> bool {
    &&& keys_distinct(q)
    &&& forall|j: int| 0 <= j < q.len() ==> #[trigger] kept_from(p, q[j], n, finished)
    &&& forall|t: int|
        0 <= t < n && !finished.contains(p[t].1) ==> #[trigger] holds(q, p[t])
}

proof fn lemma_filter_step(
    p: Seq<(Seq<char>, u64)>,
    q: Seq<(Seq<char>, u64)>,
    i: int,
    finished: Seq<u64>,
)
    requires
        keys_distinct(p),
        0 <= i < p.len(),
        filtered_prefix(p, q, i, finished),
    ensures
        !finished.contains(p[i].1) ==> filtered_prefix(p, q.push(p[i]), i + 1, finished),
        finished.contains(p[i].1) ==> filtered_prefix(p, q, i + 1, finished),
{
    let r = if finished.contains(p[i].1) {
        q
    } else {
        q.push(p[i])
    };
    assert forall|x: int, y: int|
        0 <= x < r.len() && 0 <= y < r.len() && x != y implies r[x].0 != r[y].0 by {
        if x < q.len() && y < q.len() {
            assert(r[x] == q[x] && r[y] == q[y]);
        } else if x < q.len() {
            assert(r[x] == q[x]);
            assert(kept_from(p, q[x], i, finished));
            let t = choose|t: int| 0 <= t < i && q[x] == p[t] && !finished.contains(p[t].1);
            assert(p[t].0 != p[i].0);
        } else {
            assert(r[y] == q[y]);
            assert(kept_from(p, q[y], i, finished));
            let t = choose|t: int| 0 <= t < i && q[y] == p[t] && !finished.contains(p[t].1);
            assert(p[t].0 != p[i].0);
        }
    }
    assert forall|j: int| 0 <= j < r.len() implies #[trigger] kept_from(p, r[j], i + 1, finished) by {
        if j < q.len() {
            assert(r[j] == q[j]);
            assert(kept_from(p, q[j], i, finished));
            let t = choose|t: int| 0 <= t < i && q[j] == p[t] && !finished.contains(p[t].1);
            assert(0 <= t < i + 1 && r[j] == p[t] && !finished.contains(p[t].1));
        } else {
            assert(r[j] == p[i]);
        }
    }
    assert forall|t: int| 0 <= t < i + 1 && !finished.contains(p[t].1) implies #[trigger] holds(
        r,
        p[t],
    ) by {
        if t < i {
            assert(holds(q, p[t]));
            let j = choose|j: int| 0 <= j < q.len() && q[j] == p[t];
            assert(r[j] == q[j]);
        } else {
            assert(r[q.len() as int] == p[t]);
        }
    }
}

proof fn lemma_map_of_filter(p: Seq<(Seq<char>, u64)>, q: Seq<(Seq<char>, u64)>, finished: Seq<u64>)
    requires
        keys_distinct(p),
        filtered_prefix(p, q, p.len() as int, finished),
    ensures
        map_of(q) == live(map_of(p), finished),
{
    let m = map_of(p);
    assert forall|x: Seq<char>| #[trigger] map_of(q).dom().contains(x) <==> live(
        m,
        finished,
    ).dom().contains(x) by {
        if has_key(q, x) {
            let j = choose|j: int| 0 <= j < q.len() && q[j].0 == x;
            assert(kept_from(p, q[j], p.len() as int, finished));
            let t = choose|t: int| 0 <= t < p.len() && q[j] == p[t] && !finished.contains(p[t].1);
            lemma_map_of_at(p, t);
        }
        if m.dom().contains(x) && !finished.contains(m[x]) {
            let t = choose|t: int| 0 <= t < p.len() && p[t].0 == x;
            lemma_map_of_at(p, t);
            assert(!finished.contains(p[t].1));
            assert(holds(q, p[t]));
            let j = choose|j: int| 0 <= j < q.len() && q[j] == p[t];
            assert(q[j].0 == x);
        }
    }
    assert forall|x: Seq<char>| #[trigger] map_of(q).dom().contains(x) implies map_of(q)[x]
        == live(m, finished)[x] by {
        let j = choose|j: int| 0 <= j < q.len() && q[j].0 == x;
        assert(kept_from(p, q[j], p.len() as int, finished));
        let t = choose|t: int| 0 <= t < p.len() && q[j] == p[t] && !finished.contains(p[t].1);
        lemma_map_of_at(q, j);
        lemma_map_of_at(p, t);
    }
    assert(map_of(q) =~= live(m, finished));
}

/// Whether `finished` lists actor `actor`.
fn lists_actor(finished: &[u64], actor: u64) -> (r: bool)
    ensures
        r == finished@.contains(actor),
{
    let mut i: usize = 0;
    while i < finished.len()
        invariant
            i <= finished@.len(),
            forall|j: int| 0 <= j < i ==> finished@[j] != actor,
        decreases finished@.len() - i,
    {
        if finished[i] == actor {
            return true;
        }
        i = i + 1;
    }
    false
}

impl SessionRegistry {
    /// The entries, each as the session's id and its actor.
    pub closed spec fn pairs(&self) -> Seq<(Seq<char>, u64)> {
        entry_views(self.entries@)
    }

    /// No two entries name the same session.
    pub closed spec fn wf(&self) -> bool {
        keys_distinct(self.pairs())
    }

    /// A registry with no session.
    pub fn new() -> (r: SessionRegistry)
        ensures
            r.wf(),
            r@ == Map::<Seq<char>, u64>::empty(),
    {
        let r = SessionRegistry { entries: Vec::new() };
        assert(r.pairs() =~= Seq::<(Seq<char>, u64)>::empty());
        assert(map_of(r.pairs()) =~= Map::<Seq<char>, u64>::empty());
        r
    }

    /// The index of the entry for `session`, if there is one.
    fn position(&self, session: &SessionId) -> (r: Option<usize>)
        requires
            self.wf(),
        ensures
            match r {
                Some(i) => i < self.pairs().len() && self.pairs()[i as int].0 == session@,
                None => !has_key(self.pairs(), session@),
            },
    {
        let mut i: usize = 0;
        while i < self.entries.len()
            invariant
                i <= self.entries@.len(),
                self.pairs().len() == self.entries@.len(),
                forall|j: int| 0 <= j < i ==> self.pairs()[j].0 != session@,
            decreases self.entries@.len() - i,
        {
            if str_equal(self.entries[i].0.as_str(), session.as_str()) {
                return Some(i);
            }
            i = i + 1;
        }
        None
    }

    /// The actor of `session`, if the registry has one for it.
    pub fn lookup(&self, session: &SessionId) -> (r: Option<u64>)
        requires
            self.wf(),
        ensures
            match r {
                Some(a) => self@.dom().contains(session@) && self@[session@] == a,
                None => !self@.dom().contains(session@),
            },
    {
        match self.position(session) {
            Some(i) => {
                proof {
                    lemma_map_of_at(self.pairs(), i as int);
                }
                Some(self.entries[i].1)
            },
            None => None,
        }
    }

    /// Drops the entries whose actor `finished` lists.
    pub fn reap(&mut self, finished: &[u64])
        requires
            old(self).wf(),
        ensures
            final(self).wf(),
            final(self)@ == live(old(self)@, finished@),
    {
        let ghost p = self.pairs();
        let mut kept: Vec<(SessionId, u64)> = Vec::new();
        let mut i: usize = 0;
        proof {
            assert(entry_views(kept@) =~= Seq::<(Seq<char>, u64)>::empty());
        }
        while i < self.entries.len()
            invariant
                self.pairs() == p,
                keys_distinct(p),
                p.len() == self.entries@.len(),
                i <= p.len(),
                filtered_prefix(p, entry_views(kept@), i as int, finished@),
            decreases p.len() - i,
        {
            let ghost before = entry_views(kept@);
            proof {
                lemma_filter_step(p, before, i as int, finished@);
            }
            let actor = self.entries[i].1;
            if !lists_actor(finished, actor) {
                let session = self.entries[i].0.duplicate();
                kept.push((session, actor));
                proof {
                    assert(p[i as int] == (self.entries@[i as int].0@, actor));
                    assert(entry_views(kept@) =~= before.push(p[i as int]));
                }
            }
            i = i + 1;
        }
        proof {
            lemma_map_of_filter(p, entry_views(kept@), finished@);
        }
        self.entries = kept;
    }

    /// Asks for `session`, `finished` listing the actors that have finished: drops their
    /// entries, then gives the session's running actor, or says that one is to be started.
    pub fn decide(&mut self, finished: &[u64], session: &SessionId) -> (r: StartDecision)
        requires
            old(self).wf(),
        ensures
            final(self).wf(),
            (final(self)@, r) == decide_spec(old(self)@, finished@, session@),
    {
        self.reap(finished);
        match self.lookup(session) {
            Some(a) => StartDecision::Reuse(a),
            None => StartDecision::Start,
        }
    }

    /// Records that actor `actor` now serves `session`, which had none.
    pub fn record_start(&mut self, session: SessionId, actor: u64)
        requires
            old(self).wf(),
            !old(self)@.dom().contains(session@),
        ensures
            final(self).wf(),
            final(self)@ == old(self)@.insert(session@, actor),
    {
        let ghost p = self.pairs();
        let ghost k = session@;
        proof {
            if has_key(p, k) {
                let i = choose|i: int| 0 <= i < p.len() && p[i].0 == k;
                lemma_map_of_at(p, i);
            }
        }
        self.entries.push((session, actor));
        proof {
            assert(self.pairs() =~= p.push((k, actor)));
            lemma_map_of_push(p, k, actor);
        }
    }

    /// Removes `session` after dropping the entries of finished actors, giving its actor if it
    /// had a running one; removing a session that has none is no error.
    pub fn remove(&mut self, finished: &[u64], session: &SessionId) -> (r: Option<u64>)
        requires
            old(self).wf(),
        ensures
            final(self).wf(),
            ({
                let kept = live(old(self)@, finished@);
                &&& final(self)@ == kept.remove(session@)
                &&& r == if kept.dom().contains(session@) {
                    Some(kept[session@])
                } else {
                    None::<u64>
                }
            }),
    {
        self.reap(finished);
        match self.position(session) {
            Some(i) => {
                let ghost p = self.pairs();
                proof {
                    lemma_map_of_at(p, i as int);
                }
                let (_, actor) = self.entries.remove(i);
                proof {
                    assert(self.pairs() =~= p.remove(i as int));
                    lemma_map_of_remove(p, i as int);
                }
                Some(actor)
            },
            None => {
                proof {
                    assert(map_of(self.pairs()).remove(session@) =~= map_of(self.pairs()));
                }
                None
            },
        }
    }
}

proof fn lemma_live_key_keeps_its_actor(m: Map<Seq<char>, u64>, finished: Seq<u64>, s: Seq<char>, fresh: Seq<u64>)
    requires
        m.dom().contains(s),
        !finished.contains(m[s]),
    ensures
        starts(m, finished, s, fresh) == 0,
        forall|i: int| 0 <= i < fresh.len() ==> get_or_start_spec(m, finished, s, #[trigger] fresh[i]).1 == m[s],
    decreases fresh.len(),
{
    if fresh.len() > 0 {
        let (next, _, _) = get_or_start_spec(m, finished, s, fresh[0]);
        lemma_live_key_keeps_its_actor(next, finished, s, fresh.drop_first());
    }
}

/// Only the first of any run of calls for the same session, with no actor finishing, starts an
/// actor; afterwards every call is given that same actor.
pub proof fn law_one_actor_per_session(
    m: Map<Seq<char>, u64>,
    finished: Seq<u64>,
    session: Seq<char>,
    fresh: Seq<u64>,
)
    requires
        forall|i: int| 0 <= i < fresh.len() ==> !finished.contains(#[trigger] fresh[i]),
    ensures
        starts(m, finished, session, fresh) <= 1,
        fresh.len() > 0 ==> ({
            let (next, actor, _) = get_or_start_spec(m, finished, session, fresh[0]);
            &&& next.dom().contains(session) && next[session] == actor
            &&& starts(next, finished, session, fresh.drop_first()) == 0
        }),
{
    if fresh.len() > 0 {
        let (next, actor, _) = get_or_start_spec(m, finished, session, fresh[0]);
        assert(!finished.contains(fresh[0]));
        lemma_live_key_keeps_its_actor(next, finished, session, fresh.drop_first());
    }
}

/// A session's running actor is reused until it is removed or finishes: after an actor is
/// recorded for a session, asking again while it has not finished gives that actor.
pub proof fn law_recorded_actor_is_reused(
    m: Map<Seq<char>, u64>,
    finished: Seq<u64>,
    session: Seq<char>,
    actor: u64,
)
    requires
        !finished.contains(actor),
    ensures
        decide_spec(m.insert(session, actor), finished, session).1 == StartDecision::Reuse(actor),
{
}

/// After a session is removed, or once its actor has finished, asking for it starts a new actor.
pub proof fn law_removed_or_finished_session_starts_anew(
    m: Map<Seq<char>, u64>,
    finished: Seq<u64>,
    session: Seq<char>,
)
    ensures
        decide_spec(live(m, finished).remove(session), finished, session).1
            == StartDecision::Start,
        m.dom().contains(session) && finished.contains(m[session]) ==> decide_spec(
            m,
            finished,
            session,
        ).1 == StartDecision::Start,
{
}

} // verus!
