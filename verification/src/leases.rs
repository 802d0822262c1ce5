//! Who may read a repository's index, and who may replace it.

use vstd::prelude::*;

use crate::pullin::first_once;
use crate::text::{has_text, same_text, texts};

verus! {

/// Milliseconds a query waits for an index update before it is refused.
pub const INDEX_LEASE_GRACE_MILLIS: u64 = 3000;

/// The repositories one index update holds.
#[derive(Debug)]
pub struct IndexUpdateLeases {
    pub leases: Vec<String>,
}

/// Each key once, in order.
pub open spec fn lease_keys(keys: Seq<Seq<char>>) -> Seq<Seq<char>> {
    first_once(keys)
}

impl IndexUpdateLeases {
    /// The leases an update over these repositories takes, each once.
    pub fn over(keys: &[String]) -> (r: IndexUpdateLeases)
        ensures
            texts(r.leases@) == lease_keys(texts(keys@)),
    {
        let ghost all = texts(keys@);
        let mut out: Vec<String> = Vec::new();
        let mut i: usize = 0;
        proof {
            assert(texts(out@) =~= lease_keys(all.take(0)));
        }
        while i < keys.len()
            invariant
                i <= keys@.len(),
                all == texts(keys@),
                texts(out@) == lease_keys(all.take(i as int)),
            decreases keys@.len() - i,
        {
            proof {
                assert(all.take(i + 1).drop_last() =~= all.take(i as int));
                assert(all.take(i + 1).last() == keys@[i as int]@);
            }
            if !has_text(out.as_slice(), keys[i].as_str()) {
                let k = keys[i].clone();
                proof {
                    assert(texts(out@.push(k)) =~= texts(out@).push(k@));
                }
                out.push(k);
            }
            i = i + 1;
        }
        proof {
            assert(all.take(all.len() as int) =~= all);
        }
        IndexUpdateLeases { leases: out }
    }

    /// Whether the update holds a repository.
    pub fn covers(&self, repo_key: &str) -> (r: bool)
        ensures
            r == texts(self.leases@).contains(repo_key@),
    {
        has_text(self.leases.as_slice(), repo_key)
    }
}

/// The leases in force: one entry for each query under way, and what the one update holds
/// and still waits for.
#[derive(Debug)]
pub struct IndexLeases {
    pub queries: Vec<String>,
    pub held: IndexUpdateLeases,
    pub waiting: Vec<String>,
    pub updating: bool,
}

pub struct LeaseText {
    pub queries: Seq<Seq<char>>,
    pub held: Seq<Seq<char>>,
    pub waiting: Seq<Seq<char>>,
    pub updating: bool,
}

impl View for IndexLeases {
    type V = LeaseText;

    open spec fn view(&self) -> LeaseText {
        LeaseText {
            queries: texts(self.queries@),
            held: texts(self.held.leases@),
            waiting: texts(self.waiting@),
            updating: self.updating,
        }
    }
}

/// What becomes of a query that asks for a lease.
#[derive(Debug, Clone, Copy, PartialEq, Eq, Structural)]
pub enum LeaseStep {
    /// It reads the index, and gives the lease back.
    Granted,
    /// It asks again.
    Wait,
    /// It is told that the index is being replaced.
    Refused,
}

impl LeaseText {
    /// No query reads a repository the update holds, and without an update nothing is held
    /// or waited for.
    pub open spec fn wf(self) -> bool {
        &&& forall|i: int, j: int|
            0 <= i < self.held.len() && 0 <= j < self.queries.len() ==> #[trigger] self.held[i]
                != #[trigger] self.queries[j]
        &&& !self.updating ==> self.held.len() == 0 && self.waiting.len() == 0
    }

    /// No update holds the repository, nor waits for it.
    pub open spec fn admits(self, key: Seq<char>) -> bool {
        !self.held.contains(key) && !self.waiting.contains(key)
    }

    pub open spec fn with_query(self, key: Seq<char>) -> LeaseText {
        LeaseText { queries: self.queries.push(key), ..self }
    }

    /// The leases once an update has taken what no query reads, in its order.
    pub open spec fn taken(self) -> LeaseText
        decreases self.waiting.len(),
    {
        if self.waiting.len() == 0 || self.queries.contains(self.waiting[0]) {
            self
        } else {
            LeaseText {
                held: self.held.push(self.waiting[0]),
                waiting: self.waiting.skip(1),
                ..self
            }.taken()
        }
    }

    /// The leases once an update over some repositories was begun.
    pub open spec fn begun(self, keys: Seq<Seq<char>>) -> LeaseText {
        LeaseText {
            queries: self.queries,
            held: Seq::empty(),
            waiting: lease_keys(keys),
            updating: true,
        }.taken()
    }

    /// The leases once the update is over.
    pub open spec fn released(self) -> LeaseText {
        LeaseText {
            queries: self.queries,
            held: Seq::empty(),
            waiting: Seq::empty(),
            updating: false,
        }
    }
}

proof fn lemma_taken_keeps_wf(state: LeaseText)
    requires
        state.wf(),
    ensures
        state.taken().wf(),
        state.taken().queries == state.queries,
        state.taken().updating == state.updating,
    decreases state.waiting.len(),
{
    if state.waiting.len() > 0 && !state.queries.contains(state.waiting[0]) {
        let next = LeaseText {
            held: state.held.push(state.waiting[0]),
            waiting: state.waiting.skip(1),
            ..state
        };
        assert forall|i: int, j: int| 0 <= i < next.held.len() && 0 <= j
            < next.queries.len() implies #[trigger] next.held[i] != #[trigger] next.queries[j] by {
            if i < state.held.len() {
                assert(state.held[i] != state.queries[j]);
            } else {
                assert(state.queries.contains(state.queries[j]));
            }
        }
        lemma_taken_keeps_wf(next);
    }
}

impl IndexLeases {
    /// No lease is in force.
    pub fn new() -> (r: IndexLeases)
        ensures
            r@.wf(),
            r@ == (LeaseText {
                queries: Seq::empty(),
                held: Seq::empty(),
                waiting: Seq::empty(),
                updating: false,
            }),
    {
        let r = IndexLeases {
            queries: Vec::new(),
            held: IndexUpdateLeases { leases: Vec::new() },
            waiting: Vec::new(),
            updating: false,
        };
        proof {
            assert(r@.queries =~= Seq::<Seq<char>>::empty());
            assert(r@.held =~= Seq::<Seq<char>>::empty());
            assert(r@.waiting =~= Seq::<Seq<char>>::empty());
        }
        r
    }

    /// Asks for a lease to read a repository, for a query that has waited so long. It is
    /// granted unless an update holds the repository or waits for it, and refused only once
    /// the grace is over.
    pub fn try_query_lease(&mut self, repo_key: &str, waited_millis: u64) -> (r: LeaseStep)
        requires
            old(self)@.wf(),
        ensures
            final(self)@.wf(),
            r == (if old(self)@.admits(repo_key@) {
                LeaseStep::Granted
            } else if waited_millis < INDEX_LEASE_GRACE_MILLIS {
                LeaseStep::Wait
            } else {
                LeaseStep::Refused
            }),
            final(self)@ == if r == LeaseStep::Granted {
                old(self)@.with_query(repo_key@)
            } else {
                old(self)@
            },
    {
        let ghost before = self@;
        if self.held.covers(repo_key) || has_text(self.waiting.as_slice(), repo_key) {
            if waited_millis < INDEX_LEASE_GRACE_MILLIS {
                LeaseStep::Wait
            } else {
                LeaseStep::Refused
            }
        } else {
            let k = repo_key.to_owned();
            proof {
                assert(texts(self.queries@.push(k)) =~= texts(self.queries@).push(k@));
            }
            self.queries.push(k);
            proof {
                let after = self@;
                assert forall|i: int, j: int| 0 <= i < after.held.len() && 0 <= j
                    < after.queries.len() implies #[trigger] after.held[i]
                    != #[trigger] after.queries[j] by {
                    if j < before.queries.len() {
                        assert(before.held[i] != before.queries[j]);
                    } else {
                        assert(before.held.contains(before.held[i]));
                    }
                }
            }
            LeaseStep::Granted
        }
    }

    /// Gives a query's lease back. Nothing happens where there is none.
    pub fn end_query(&mut self, repo_key: &str)
        requires
            old(self)@.wf(),
        ensures
            final(self)@.wf(),
            old(self)@.queries.contains(repo_key@) ==> exists|i: int|
                0 <= i < old(self)@.queries.len() && #[trigger] old(self)@.queries[i] == repo_key@
                    && final(self)@ == (LeaseText {
                    queries: old(self)@.queries.remove(i),
                    ..old(self)@
                }),
            !old(self)@.queries.contains(repo_key@) ==> final(self)@ == old(self)@,
    {
        let ghost before = self@;
        let mut i: usize = 0;
        while i < self.queries.len()
            invariant
                i <= self.queries@.len(),
                *self == *old(self),
                before == self@,
                before.wf(),
                forall|j: int| 0 <= j < i ==> #[trigger] before.queries[j] != repo_key@,
            decreases self.queries@.len() - i,
        {
            proof {
                assert(before.queries[i as int] == self.queries@[i as int]@);
            }
            if same_text(self.queries[i].as_str(), repo_key) {
                proof {
                    assert(texts(self.queries@.remove(i as int)) =~= before.queries.remove(
                        i as int,
                    ));
                }
                self.queries.remove(i);
                proof {
                    let after = self@;
                    assert(before.queries.contains(repo_key@));
                    assert forall|a: int, b: int| 0 <= a < after.held.len() && 0 <= b
                        < after.queries.len() implies #[trigger] after.held[a]
                        != #[trigger] after.queries[b] by {
                        let c = if b < i { b } else { b + 1 };
                        assert(before.held[a] != before.queries[c]);
                    }
                }
                return;
            }
            i = i + 1;
        }
    }

    /// Takes what no query reads any more. Tells whether the update holds all it asked for.
    pub fn advance_update(&mut self) -> (r: bool)
        requires
            old(self)@.wf(),
        ensures
            final(self)@.wf(),
            final(self)@ == old(self)@.taken(),
            r == (final(self)@.waiting.len() == 0),
    {
        let ghost start = self@;
        proof {
            lemma_taken_keeps_wf(start);
            assert(texts(self.waiting@).len() == self.waiting@.len());
        }
        while self.waiting.len() > 0 && !has_text(self.queries.as_slice(), self.waiting[0].as_str())
            invariant
                self@.taken() == start.taken(),
            decreases self.waiting@.len(),
        {
            let ghost before = self@;
            proof {
                assert(before.waiting[0] == self.waiting@[0]@);
                assert(texts(self.waiting@.remove(0)) =~= before.waiting.skip(1));
            }
            let k = self.waiting.remove(0);
            proof {
                assert(texts(self.held.leases@.push(k)) =~= before.held.push(k@));
            }
            self.held.leases.push(k);
        }
        proof {
            if self@.waiting.len() > 0 {
                assert(self@.waiting[0] == self.waiting@[0]@);
            }
            assert(texts(self.waiting@).len() == self.waiting@.len());
        }
        self.waiting.len() == 0
    }

    /// Begins an update over some repositories, unless another is under way. It waits for the
    /// queries that read them, while further ones are kept from them.
    pub fn index_update_leases(&mut self, repo_keys: &[String]) -> (r: bool)
        requires
            old(self)@.wf(),
        ensures
            final(self)@.wf(),
            r == !old(self)@.updating,
            final(self)@ == if r {
                old(self)@.begun(texts(repo_keys@))
            } else {
                old(self)@
            },
    {
        if self.updating {
            return false;
        }
        let asked = IndexUpdateLeases::over(repo_keys);
        self.waiting = asked.leases;
        self.held = IndexUpdateLeases { leases: Vec::new() };
        self.updating = true;
        proof {
            assert(self@.held =~= Seq::<Seq<char>>::empty());
        }
        self.advance_update();
        true
    }

    /// Ends the update: its repositories are open to queries again.
    pub fn end_update(&mut self)
        requires
            old(self)@.wf(),
        ensures
            final(self)@.wf(),
            final(self)@ == old(self)@.released(),
    {
        self.waiting = Vec::new();
        self.held = IndexUpdateLeases { leases: Vec::new() };
        self.updating = false;
        proof {
            assert(self@.held =~= Seq::<Seq<char>>::empty());
            assert(self@.waiting =~= Seq::<Seq<char>>::empty());
        }
    }
}

// ---- laws ----

/// While an update holds a repository no query reads it, and none is admitted to it.
pub proof fn law_no_query_coexists_with_an_update(state: LeaseText, key: Seq<char>)
    requires
        state.wf(),
        state.held.contains(key),
    ensures
        !state.queries.contains(key),
        !state.admits(key),
{
    let i = choose|i: int| 0 <= i < state.held.len() && state.held[i] == key;
    if state.queries.contains(key) {
        let j = choose|j: int| 0 <= j < state.queries.len() && state.queries[j] == key;
        assert(state.held[i] != state.queries[j]);
    }
}

/// From the moment an update over a repository is begun, no query is admitted to it, whatever
/// the update has still to wait for; once the update is over, queries are admitted again.
pub proof fn law_an_update_keeps_queries_out(state: LeaseText, keys: Seq<Seq<char>>, key: Seq<char>)
    requires
        state.wf(),
        keys.contains(key),
    ensures
        state.begun(keys).wf(),
        !state.begun(keys).admits(key),
        !state.begun(keys).taken().admits(key),
        state.begun(keys).released().admits(key),
{
    lemma_keys_hold(keys, key);
    let asked = LeaseText {
        queries: state.queries,
        held: Seq::empty(),
        waiting: lease_keys(keys),
        updating: true,
    };
    lemma_taken_keeps_wf(asked);
    lemma_taken_keeps_keys(asked, key);
    lemma_taken_keeps_keys(asked.taken(), key);
}

/// An update whose repositories nobody reads holds all of them at once.
pub proof fn law_an_update_over_quiet_repos_holds_them(state: LeaseText, keys: Seq<Seq<char>>)
    requires
        forall|k: Seq<char>| #[trigger] keys.contains(k) ==> !state.queries.contains(k),
    ensures
        state.begun(keys).waiting.len() == 0,
        forall|k: Seq<char>| #[trigger] keys.contains(k) ==> state.begun(keys).held.contains(k),
{
    let asked = LeaseText {
        queries: state.queries,
        held: Seq::empty(),
        waiting: lease_keys(keys),
        updating: true,
    };
    assert forall|i: int| 0 <= i < asked.waiting.len() implies !asked.queries.contains(
        #[trigger] asked.waiting[i],
    ) by {
        lemma_keys_are_members(keys);
        assert(asked.waiting.contains(asked.waiting[i]));
    }
    lemma_takes_all(asked);
    assert forall|k: Seq<char>| #[trigger] keys.contains(k) implies state.begun(keys).held.contains(
        k,
    ) by {
        lemma_keys_hold(keys, k);
        lemma_taken_keeps_keys(asked, k);
    }
}

proof fn lemma_takes_all(state: LeaseText)
    requires
        forall|i: int|
            0 <= i < state.waiting.len() ==> !state.queries.contains(#[trigger] state.waiting[i]),
    ensures
        state.taken().waiting.len() == 0,
    decreases state.waiting.len(),
{
    if state.waiting.len() > 0 {
        let next = LeaseText {
            held: state.held.push(state.waiting[0]),
            waiting: state.waiting.skip(1),
            ..state
        };
        assert forall|i: int| 0 <= i < next.waiting.len() implies !next.queries.contains(
            #[trigger] next.waiting[i],
        ) by {
            assert(next.waiting[i] == state.waiting[i + 1]);
        }
        lemma_takes_all(next);
    }
}

/// What an update asked for, it holds or waits for.
proof fn lemma_taken_keeps_keys(state: LeaseText, key: Seq<char>)
    requires
        state.held.contains(key) || state.waiting.contains(key),
    ensures
        state.taken().held.contains(key) || state.taken().waiting.contains(key),
    decreases state.waiting.len(),
{
    if state.waiting.len() > 0 && !state.queries.contains(state.waiting[0]) {
        let next = LeaseText {
            held: state.held.push(state.waiting[0]),
            waiting: state.waiting.skip(1),
            ..state
        };
        if state.held.contains(key) {
            let i = choose|i: int| 0 <= i < state.held.len() && state.held[i] == key;
            assert(next.held[i] == key);
        } else {
            let i = choose|i: int| 0 <= i < state.waiting.len() && state.waiting[i] == key;
            if i == 0 {
                assert(next.held[state.held.len() as int] == key);
            } else {
                assert(next.waiting[i - 1] == key);
            }
        }
        lemma_taken_keeps_keys(next, key);
    }
}

proof fn lemma_keys_hold(keys: Seq<Seq<char>>, key: Seq<char>)
    requires
        keys.contains(key),
    ensures
        lease_keys(keys).contains(key),
    decreases keys.len(),
{
    let front = keys.drop_last();
    let done = lease_keys(front);
    let i = choose|i: int| 0 <= i < keys.len() && keys[i] == key;
    if i < front.len() {
        assert(front[i] == key);
        lemma_keys_hold(front, key);
        let k = choose|k: int| 0 <= k < done.len() && done[k] == key;
        assert(lease_keys(keys)[k] == key);
    } else if !done.contains(key) {
        assert(lease_keys(keys)[done.len() as int] == key);
    }
}

proof fn lemma_keys_are_members(keys: Seq<Seq<char>>)
    ensures
        forall|k: Seq<char>| #[trigger] lease_keys(keys).contains(k) ==> keys.contains(k),
    decreases keys.len(),
{
    if keys.len() > 0 {
        let front = keys.drop_last();
        lemma_keys_are_members(front);
        let all = lease_keys(keys);
        assert forall|k: Seq<char>| #[trigger] all.contains(k) implies keys.contains(k) by {
            let i = choose|i: int| 0 <= i < all.len() && all[i] == k;
            if i < lease_keys(front).len() {
                assert(lease_keys(front)[i] == k);
                assert(lease_keys(front).contains(k));
                let j = choose|j: int| 0 <= j < front.len() && front[j] == k;
                assert(keys[j] == k);
            } else {
                assert(keys[keys.len() - 1] == k);
            }
        }
    }
}

} // verus!
