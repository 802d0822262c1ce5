//! The repositories a server answers for: registering them, naming them, and forgetting
//! those that nobody asks about.

use vstd::prelude::*;

use crate::batch::{digest_hex, sha256_hex};
use crate::order::{
    dedup_strings, dedup_texts, lemma_sort_maps, rank_order, sort_ranked, sort_stable, Ranked,
};
use crate::paths::{
    components, components_of, file_name, file_name_spec, is_under, path_less, path_lt, path_order,
    sort_paths, under,
};
use crate::pullin::append_texts;
use crate::text::{
    contains, contains_text, decimal, join, join_spec, opt_text, same_text, texts,
    to_chars, to_text, trim_end_text, trim_end_text_chars, usize_text,
};

verus! {

/// Seconds between two looks for idle repositories.
pub const IDLE_SWEEP_INTERVAL_SECS: u64 = 3600;

/// How long an adopted repository may go unnamed, in seconds.
pub fn idle_ttl_secs(days: u64) -> (r: u64)
    requires
        days * 86_400 <= u64::MAX,
    ensures
        r == days * 86_400,
{
    days * 86_400
}

// ---- the registry ----

/// How a repository came to be registered.
#[derive(Debug, Clone, Copy, PartialEq, Eq, Structural)]
pub enum RepoOrigin {
    /// Named when the server was started.
    Configured,
    /// Registered while it ran.
    Adopted,
}

/// A repository the server answers for.
#[derive(Debug)]
pub struct RegisteredRepo {
    pub path: String,
    pub origin: RepoOrigin,
    /// Unix seconds when a caller last named it.
    pub last_used: u64,
    /// How often it was named when the server was started.
    pub named: usize,
    /// The first index pass has indexed it.
    pub passed: bool,
}

pub struct RegisteredText {
    pub path: Seq<char>,
    pub origin: RepoOrigin,
    pub last_used: u64,
    pub named: usize,
    pub passed: bool,
}

impl View for RegisteredRepo {
    type V = RegisteredText;

    open spec fn view(&self) -> RegisteredText {
        RegisteredText {
            path: self.path@,
            origin: self.origin,
            last_used: self.last_used,
            named: self.named,
            passed: self.passed,
        }
    }
}

pub open spec fn registered_texts(v: Seq<RegisteredRepo>) -> Seq<RegisteredText> {
    v.map_values(|r: RegisteredRepo| r@)
}

/// The registered repositories, and whether the first index pass is over.
#[derive(Debug)]
pub struct RepoRegistry {
    pub repos: Vec<RegisteredRepo>,
    pub initialized: bool,
}

pub open spec fn has_path(list: Seq<RegisteredText>, path: Seq<char>) -> bool {
    exists|i: int| 0 <= i < list.len() && #[trigger] list[i].path == path
}

/// No path is registered twice.
pub open spec fn paths_distinct(list: Seq<RegisteredText>) -> bool {
    forall|i: int, j: int|
        0 <= i < j < list.len() ==> #[trigger] list[i].path != #[trigger] list[j].path
}

/// A repository that was met while the server ran.
pub open spec fn met(path: Seq<char>, now: u64) -> RegisteredText {
    RegisteredText { path, origin: RepoOrigin::Adopted, last_used: now, named: 0, passed: false }
}

/// A repository the server was started with.
pub open spec fn named_at_start(path: Seq<char>, now: u64) -> RegisteredText {
    RegisteredText {
        path,
        origin: RepoOrigin::Configured,
        last_used: now,
        named: 1,
        passed: false,
    }
}

/// What a repository adds to the number of those to be indexed: how often it was named.
pub open spec fn to_index() -> spec_fn(RegisteredText) -> nat {
    |r: RegisteredText| r.named as nat
}

/// What a repository adds to the number of those that are indexed so far.
pub open spec fn is_done() -> spec_fn(RegisteredText) -> nat {
    |r: RegisteredText|
        if r.passed {
            r.named as nat
        } else {
            0
        }
}

/// What the entries of a list add up to.
pub open spec fn sum_of(list: Seq<RegisteredText>, w: spec_fn(RegisteredText) -> nat) -> nat
    decreases list.len(),
{
    if list.len() == 0 {
        0
    } else {
        sum_of(list.drop_last(), w) + w(list.last())
    }
}

/// What the entry of a path adds to a sum.
pub open spec fn share_of(
    list: Seq<RegisteredText>,
    path: Seq<char>,
    w: spec_fn(RegisteredText) -> nat,
) -> nat {
    sum_of(list.filter(|r: RegisteredText| r.path == path), w)
}

/// No path is registered twice, an adopted repository was not named at the start, and the
/// number of names fits.
pub open spec fn listed_well(list: Seq<RegisteredText>) -> bool {
    &&& paths_distinct(list)
    &&& forall|i: int|
        0 <= i < list.len() && (#[trigger] list[i]).origin == RepoOrigin::Adopted ==> list[i].named
            == 0
    &&& sum_of(list, to_index()) <= usize::MAX
}

/// The list with one more mention of `path` at the start.
pub open spec fn with_name(list: Seq<RegisteredText>, path: Seq<char>, now: u64) -> Seq<
    RegisteredText,
> {
    if has_path(list, path) {
        list.map_values(
            |r: RegisteredText|
                if r.path == path {
                    RegisteredText {
                        origin: RepoOrigin::Configured,
                        named: (r.named + 1) as usize,
                        ..r
                    }
                } else {
                    r
                },
        )
    } else {
        list.push(named_at_start(path, now))
    }
}

/// The list with `path` marked as indexed by the first pass.
pub open spec fn passed_at(list: Seq<RegisteredText>, path: Seq<char>) -> Seq<RegisteredText> {
    list.map_values(
        |r: RegisteredText|
            if r.path == path {
                RegisteredText { passed: true, ..r }
            } else {
                r
            },
    )
}

/// The list with `path` stamped as used at `now`.
pub open spec fn stamped(list: Seq<RegisteredText>, path: Seq<char>, now: u64) -> Seq<
    RegisteredText,
> {
    list.map_values(
        |r: RegisteredText|
            if r.path == path {
                RegisteredText { last_used: now, ..r }
            } else {
                r
            },
    )
}

/// An adopted repository that nobody has named since `deadline`.
pub open spec fn is_idle(r: RegisteredText, deadline: int) -> bool {
    r.origin == RepoOrigin::Adopted && r.last_used < deadline
}

pub open spec fn deadline_spec(now: u64, ttl: u64) -> int {
    if now >= ttl {
        now - ttl
    } else {
        0
    }
}

pub open spec fn idle_spec(list: Seq<RegisteredText>, deadline: int) -> Seq<Seq<char>> {
    list.filter(|r: RegisteredText| is_idle(r, deadline)).map_values(|r: RegisteredText| r.path)
}

pub open spec fn without_path(list: Seq<RegisteredText>, path: Seq<char>) -> Seq<RegisteredText> {
    list.filter(|r: RegisteredText| r.path != path)
}

impl RepoRegistry {
    pub open spec fn list(self) -> Seq<RegisteredText> {
        registered_texts(self.repos@)
    }

    pub open spec fn wf(self) -> bool {
        listed_well(self.list())
    }

    /// A registry without repositories.
    pub fn new() -> (r: RepoRegistry)
        ensures
            r.wf(),
            r.list() == Seq::<RegisteredText>::empty(),
            !r.initialized,
    {
        let r = RepoRegistry { repos: Vec::new(), initialized: false };
        proof {
            assert(r.list() =~= Seq::<RegisteredText>::empty());
        }
        r
    }

    fn find(&self, path: &str) -> (r: Option<usize>)
        ensures
            match r {
                Some(i) => i < self.repos@.len() && self.list()[i as int].path == path@,
                None => !has_path(self.list(), path@),
            },
    {
        let ghost all = self.list();
        let mut i: usize = 0;
        while i < self.repos.len()
            invariant
                i <= self.repos@.len(),
                all == self.list(),
                forall|j: int| 0 <= j < i ==> #[trigger] all[j].path != path@,
            decreases self.repos@.len() - i,
        {
            proof {
                assert(all[i as int] == self.repos@[i as int]@);
            }
            if same_text(self.repos[i].path.as_str(), path) {
                return Some(i);
            }
            i = i + 1;
        }
        None
    }

    /// Tells whether a path is registered.
    pub fn is_registered(&self, path: &str) -> (r: bool)
        ensures
            r == has_path(self.list(), path@),
    {
        match self.find(path) {
            Some(i) => {
                proof {
                    assert(self.list()[i as int].path == path@);
                }
                true
            },
            None => false,
        }
    }

    /// Registers a path met while the server runs, used now, unless it already is. A fresh
    /// repository has a whole idle period before it can be swept.
    pub fn register(&mut self, path: &str, now: u64) -> (r: bool)
        requires
            old(self).wf(),
        ensures
            final(self).wf(),
            r == !has_path(old(self).list(), path@),
            final(self).list() == if r {
                old(self).list().push(met(path@, now))
            } else {
                old(self).list()
            },
            final(self).initialized == old(self).initialized,
    {
        let ghost before = self.list();
        match self.find(path) {
            Some(i) => {
                proof {
                    assert(before[i as int].path == path@);
                }
                false
            },
            None => {
                self.append(path, RepoOrigin::Adopted, now, 0);
                true
            },
        }
    }

    fn append(&mut self, path: &str, origin: RepoOrigin, now: u64, named: usize)
        requires
            old(self).wf(),
            !has_path(old(self).list(), path@),
            origin == RepoOrigin::Adopted ==> named == 0,
            sum_of(old(self).list(), to_index()) + named <= usize::MAX,
        ensures
            final(self).wf(),
            final(self).list() == old(self).list().push(
                RegisteredText { path: path@, origin, last_used: now, named, passed: false },
            ),
            final(self).initialized == old(self).initialized,
    {
        let ghost before = self.list();
        let item = RegisteredRepo {
            path: path.to_owned(),
            origin,
            last_used: now,
            named,
            passed: false,
        };
        let ghost entry = item@;
        proof {
            assert(registered_texts(self.repos@.push(item)) =~= before.push(entry));
        }
        self.repos.push(item);
        proof {
            let after = self.list();
            assert(after == before.push(entry));
            assert(after.drop_last() =~= before);
            assert forall|i: int, j: int| 0 <= i < j < after.len() implies #[trigger] after[i].path
                != #[trigger] after[j].path by {
                if j < before.len() {
                    assert(before[i].path != before[j].path);
                } else {
                    assert(before[i].path != path@);
                }
            }
        }
    }

    /// Registers a path the server is started with. A path that is named again is counted
    /// again.
    pub fn configure(&mut self, path: &str, now: u64)
        requires
            old(self).wf(),
            sum_of(old(self).list(), to_index()) < usize::MAX,
        ensures
            final(self).wf(),
            final(self).list() == with_name(old(self).list(), path@, now),
            sum_of(final(self).list(), to_index()) == sum_of(old(self).list(), to_index()) + 1,
            final(self).initialized == old(self).initialized,
    {
        let ghost before = self.list();
        let ghost goal = with_name(before, path@, now);
        match self.find(path) {
            Some(i) => {
                proof {
                    assert(before[i as int] == self.repos@[i as int]@);
                    lemma_part_of_sum(before, to_index(), i as int);
                }
                let item = RegisteredRepo {
                    path: self.repos[i].path.clone(),
                    origin: RepoOrigin::Configured,
                    last_used: self.repos[i].last_used,
                    named: self.repos[i].named + 1,
                    passed: self.repos[i].passed,
                };
                self.put(i, item);
                proof {
                    lemma_sum_of_update(before, i as int, item@, to_index());
                    assert forall|j: int| 0 <= j < before.len() implies self.list()[j]
                        == goal[j] by {
                        if j < i {
                            assert(before[j].path != before[i as int].path);
                        } else if j > i {
                            assert(before[i as int].path != before[j].path);
                        }
                    }
                    assert(self.list() =~= goal);
                    assert forall|a: int, b: int| 0 <= a < b < goal.len() implies #[trigger]
                        goal[a].path != #[trigger] goal[b].path by {
                        assert(before[a].path != before[b].path);
                    }
                }
            },
            None => {
                self.append(path, RepoOrigin::Configured, now, 1);
                proof {
                    assert(self.list().drop_last() =~= before);
                }
            },
        }
    }

    fn put(&mut self, i: usize, item: RegisteredRepo)
        requires
            i < old(self).repos@.len(),
        ensures
            final(self).list() == old(self).list().update(i as int, item@),
            final(self).repos@.len() == old(self).repos@.len(),
            final(self).initialized == old(self).initialized,
    {
        proof {
            assert(registered_texts(self.repos@.update(i as int, item)) =~= self.list().update(
                i as int,
                item@,
            ));
        }
        self.repos.set(i, item);
    }

    /// Records that the first index pass has indexed a repository.
    pub fn mark_passed(&mut self, path: &str)
        requires
            old(self).wf(),
        ensures
            final(self).wf(),
            final(self).list() == passed_at(old(self).list(), path@),
            final(self).initialized == old(self).initialized,
    {
        let ghost before = self.list();
        let ghost goal = passed_at(before, path@);
        match self.find(path) {
            Some(i) => {
                let item = RegisteredRepo {
                    path: self.repos[i].path.clone(),
                    origin: self.repos[i].origin,
                    last_used: self.repos[i].last_used,
                    named: self.repos[i].named,
                    passed: true,
                };
                proof {
                    assert(before[i as int] == self.repos@[i as int]@);
                }
                self.put(i, item);
                proof {
                    assert forall|j: int| 0 <= j < before.len() implies self.list()[j]
                        == goal[j] by {
                        if j < i {
                            assert(before[j].path != before[i as int].path);
                        } else if j > i {
                            assert(before[i as int].path != before[j].path);
                        }
                    }
                    assert(self.list() =~= goal);
                }
            },
            None => {
                proof {
                    assert forall|j: int| 0 <= j < before.len() implies goal[j] == before[j] by {
                        assert(before[j].path != path@);
                    }
                    assert(goal =~= before);
                }
            },
        }
        proof {
            lemma_same_shape(before, goal);
        }
    }

    /// Records that a caller just named a repository.
    pub fn mark_used(&mut self, path: &str, now: u64)
        requires
            old(self).wf(),
        ensures
            final(self).wf(),
            final(self).list() == stamped(old(self).list(), path@, now),
            final(self).initialized == old(self).initialized,
    {
        let ghost before = self.list();
        let ghost goal = stamped(before, path@, now);
        match self.find(path) {
            Some(i) => {
                let item = RegisteredRepo {
                    path: self.repos[i].path.clone(),
                    origin: self.repos[i].origin,
                    last_used: now,
                    named: self.repos[i].named,
                    passed: self.repos[i].passed,
                };
                let ghost entry = item@;
                proof {
                    assert(before[i as int] == self.repos@[i as int]@);
                    assert(registered_texts(self.repos@.update(i as int, item)) =~= before.update(
                        i as int,
                        entry,
                    ));
                    assert(before.update(i as int, entry) =~= goal) by {
                        assert forall|j: int| 0 <= j < before.len() implies before.update(
                            i as int,
                            entry,
                        )[j] == goal[j] by {
                            if j < i {
                                assert(before[j].path != before[i as int].path);
                            } else if j > i {
                                assert(before[i as int].path != before[j].path);
                            }
                        }
                    }
                }
                self.repos.set(i, item);
            },
            None => {
                proof {
                    assert(goal =~= before) by {
                        assert forall|j: int| 0 <= j < before.len() implies goal[j]
                            == before[j] by {
                            assert(before[j].path != path@);
                        }
                    }
                }
            },
        }
        proof {
            assert(self.list() == goal);
            lemma_same_shape(before, goal);
        }
    }

    /// The adopted repositories that nobody has named for `ttl` seconds. There are none
    /// until the first index pass is over: before it, no repository carries a stamp that
    /// means anything.
    pub fn idle_repos(&self, now: u64, ttl: u64) -> (r: Vec<String>)
        ensures
            texts(r@) == if self.initialized {
                idle_spec(self.list(), deadline_spec(now, ttl))
            } else {
                Seq::empty()
            },
    {
        let deadline: u64 = if now >= ttl {
            now - ttl
        } else {
            0
        };
        let ghost all = self.list();
        let ghost pred = |x: RegisteredText| is_idle(x, deadline as int);
        let ghost path = |x: RegisteredText| x.path;
        let mut out: Vec<String> = Vec::new();
        let mut i: usize = 0;
        proof {
            reveal(Seq::filter);
            assert(texts(out@) =~= all.take(0).filter(pred).map_values(path));
            assert(texts(out@) =~= Seq::<Seq<char>>::empty());
        }
        if !self.initialized {
            return out;
        }
        while i < self.repos.len()
            invariant
                i <= self.repos@.len(),
                all == self.list(),
                pred == (|x: RegisteredText| is_idle(x, deadline as int)),
                path == (|x: RegisteredText| x.path),
                texts(out@) == all.take(i as int).filter(pred).map_values(path),
            decreases self.repos@.len() - i,
        {
            proof {
                reveal(Seq::filter);
                assert(all.take(i + 1).drop_last() =~= all.take(i as int));
                assert(all.take(i + 1).last() == self.repos@[i as int]@);
            }
            if self.repos[i].origin == RepoOrigin::Adopted && self.repos[i].last_used < deadline {
                let p = self.repos[i].path.clone();
                proof {
                    let kept = all.take(i as int).filter(pred);
                    assert(texts(out@.push(p)) =~= texts(out@).push(p@));
                    assert(kept.push(all[i as int]).map_values(path) =~= kept.map_values(path).push(
                        p@,
                    ));
                }
                out.push(p);
            }
            i = i + 1;
        }
        proof {
            assert(all.take(all.len() as int) =~= all);
        }
        out
    }

    /// Forgets a repository: it is no longer registered.
    pub fn forget(&mut self, path: &str)
        requires
            old(self).wf(),
        ensures
            final(self).wf(),
            final(self).list() == without_path(old(self).list(), path@),
            final(self).initialized == old(self).initialized,
    {
        let ghost before = self.list();
        let ghost pred = |r: RegisteredText| r.path != path@;
        let mut kept: Vec<RegisteredRepo> = Vec::new();
        let mut i: usize = 0;
        proof {
            reveal(Seq::filter);
            assert(registered_texts(kept@) =~= before.take(0).filter(pred));
        }
        while i < self.repos.len()
            invariant
                i <= self.repos@.len(),
                before == self.list(),
                *self == *old(self),
                pred == (|r: RegisteredText| r.path != path@),
                registered_texts(kept@) == before.take(i as int).filter(pred),
            decreases self.repos@.len() - i,
        {
            proof {
                reveal(Seq::filter);
                assert(before.take(i + 1).drop_last() =~= before.take(i as int));
                assert(before.take(i + 1).last() == self.repos@[i as int]@);
            }
            if !same_text(self.repos[i].path.as_str(), path) {
                let item = RegisteredRepo {
                    path: self.repos[i].path.clone(),
                    origin: self.repos[i].origin,
                    last_used: self.repos[i].last_used,
                    named: self.repos[i].named,
                    passed: self.repos[i].passed,
                };
                proof {
                    assert(registered_texts(kept@.push(item)) =~= registered_texts(kept@).push(
                        item@,
                    ));
                }
                kept.push(item);
            }
            i = i + 1;
        }
        proof {
            assert(before.take(before.len() as int) =~= before);
            lemma_without_stays_well(before, path@);
        }
        self.repos = kept;
    }

    /// The registered paths, in order of registration.
    pub fn paths(&self) -> (r: Vec<String>)
        ensures
            texts(r@) == self.list().map_values(|r: RegisteredText| r.path),
    {
        let mut out: Vec<String> = Vec::new();
        let mut i: usize = 0;
        while i < self.repos.len()
            invariant
                i <= self.repos@.len(),
                out@.len() == i,
                forall|j: int| 0 <= j < i ==> #[trigger] out@[j]@ == self.repos@[j].path@,
            decreases self.repos@.len() - i,
        {
            out.push(self.repos[i].path.clone());
            i = i + 1;
        }
        proof {
            assert(texts(out@) =~= self.list().map_values(|r: RegisteredText| r.path));
        }
        out
    }
}

/// An entry adds no more than the sum.
proof fn lemma_part_of_sum(list: Seq<RegisteredText>, w: spec_fn(RegisteredText) -> nat, i: int)
    requires
        0 <= i < list.len(),
    ensures
        w(list[i]) <= sum_of(list, w),
    decreases list.len(),
{
    if i < list.len() - 1 {
        lemma_part_of_sum(list.drop_last(), w, i);
    }
}

proof fn lemma_sum_of_update(
    list: Seq<RegisteredText>,
    i: int,
    x: RegisteredText,
    w: spec_fn(RegisteredText) -> nat,
)
    requires
        0 <= i < list.len(),
    ensures
        sum_of(list.update(i, x), w) + w(list[i]) == sum_of(list, w) + w(x),
    decreases list.len(),
{
    let after = list.update(i, x);
    if i < list.len() - 1 {
        lemma_sum_of_update(list.drop_last(), i, x, w);
        assert(after.drop_last() =~= list.drop_last().update(i, x));
    } else {
        assert(after.drop_last() =~= list.drop_last());
    }
}

/// Two lists whose entries add the same add up to the same.
pub proof fn lemma_same_sum(
    a: Seq<RegisteredText>,
    b: Seq<RegisteredText>,
    w: spec_fn(RegisteredText) -> nat,
)
    requires
        a.len() == b.len(),
        forall|i: int| 0 <= i < a.len() ==> w(#[trigger] a[i]) == w(b[i]),
    ensures
        sum_of(a, w) == sum_of(b, w),
    decreases a.len(),
{
    if a.len() > 0 {
        assert forall|i: int| 0 <= i < a.len() - 1 implies w(#[trigger] a.drop_last()[i]) == w(
            b.drop_last()[i],
        ) by {
            assert(a.drop_last()[i] == a[i]);
        }
        lemma_same_sum(a.drop_last(), b.drop_last(), w);
        assert(w(a[a.len() - 1]) == w(b[b.len() - 1]));
    }
}

/// A list that differs from another in its stamps and marks only is as well formed.
pub proof fn lemma_same_shape(a: Seq<RegisteredText>, b: Seq<RegisteredText>)
    requires
        listed_well(a),
        a.len() == b.len(),
        forall|i: int|
            0 <= i < a.len() ==> (#[trigger] b[i]).path == a[i].path && b[i].origin == a[i].origin
                && b[i].named == a[i].named,
    ensures
        listed_well(b),
        sum_of(b, to_index()) == sum_of(a, to_index()),
{
    assert forall|i: int, j: int| 0 <= i < j < b.len() implies #[trigger] b[i].path
        != #[trigger] b[j].path by {
        assert(a[i].path != a[j].path);
    }
    assert forall|i: int| 0 <= i < b.len() && (#[trigger] b[i]).origin
        == RepoOrigin::Adopted implies b[i].named == 0 by {
        assert(a[i].origin == RepoOrigin::Adopted);
    }
    lemma_same_sum(b, a, to_index());
}

/// A list adds up to what the entries of a path add, and the others.
pub proof fn lemma_sum_without(
    list: Seq<RegisteredText>,
    path: Seq<char>,
    w: spec_fn(RegisteredText) -> nat,
)
    ensures
        sum_of(without_path(list, path), w) + share_of(list, path, w) == sum_of(list, w),
    decreases list.len(),
{
    reveal(Seq::filter);
    let other = |r: RegisteredText| r.path != path;
    let own = |r: RegisteredText| r.path == path;
    if list.len() > 0 {
        let front = list.drop_last();
        lemma_sum_without(front, path, w);
        if own(list.last()) {
            assert(list.filter(own).drop_last() =~= front.filter(own));
        } else {
            assert(list.filter(other).drop_last() =~= front.filter(other));
        }
    }
}

/// The share of a path is what its entry adds.
pub proof fn lemma_share(list: Seq<RegisteredText>, i: int, w: spec_fn(RegisteredText) -> nat)
    requires
        paths_distinct(list),
        0 <= i < list.len(),
    ensures
        share_of(list, list[i].path, w) == w(list[i]),
    decreases list.len(),
{
    reveal(Seq::filter);
    reveal_with_fuel(sum_of, 2);
    let path = list[i].path;
    let own = |r: RegisteredText| r.path == path;
    let front = list.drop_last();
    if i < list.len() - 1 {
        assert(front[i] == list[i]);
        assert(paths_distinct(front)) by {
            assert forall|a: int, b: int| 0 <= a < b < front.len() implies #[trigger] front[a].path
                != #[trigger] front[b].path by {
                assert(list[a].path != list[b].path);
            }
        }
        lemma_share(front, i, w);
        assert(list[i].path != list[list.len() - 1].path);
    } else {
        assert forall|k: int| 0 <= k < front.len() implies (#[trigger] front[k]).path != path by {
            assert(list[k].path != list[i].path);
        }
        lemma_no_share(front, path, w);
        assert(list.filter(own).drop_last() =~= front.filter(own));
    }
}

/// A path that is not registered adds nothing.
pub proof fn lemma_no_share(
    list: Seq<RegisteredText>,
    path: Seq<char>,
    w: spec_fn(RegisteredText) -> nat,
)
    requires
        forall|k: int| 0 <= k < list.len() ==> (#[trigger] list[k]).path != path,
    ensures
        share_of(list, path, w) == 0,
    decreases list.len(),
{
    reveal(Seq::filter);
    if list.len() > 0 {
        let front = list.drop_last();
        assert forall|k: int| 0 <= k < front.len() implies (#[trigger] front[k]).path != path by {
            assert(front[k] == list[k]);
        }
        lemma_no_share(front, path, w);
        assert(list[list.len() - 1].path != path);
    }
}

pub proof fn lemma_without_stays_well(list: Seq<RegisteredText>, path: Seq<char>)
    requires
        listed_well(list),
    ensures
        listed_well(without_path(list, path)),
{
    let pred = |r: RegisteredText| r.path != path;
    lemma_filter_keeps_distinct(list, pred);
    lemma_sum_without(list, path, to_index());
    let kept = list.filter(pred);
    crate::order::lemma_filtered_are_members(list, pred);
    assert forall|i: int| 0 <= i < kept.len() && (#[trigger] kept[i]).origin
        == RepoOrigin::Adopted implies kept[i].named == 0 by {
        assert(list.contains(kept[i]));
        let k = choose|k: int| 0 <= k < list.len() && list[k] == kept[i];
        assert(list[k].origin == RepoOrigin::Adopted);
    }
}

pub proof fn lemma_filter_keeps_distinct(
    list: Seq<RegisteredText>,
    pred: spec_fn(RegisteredText) -> bool,
)
    requires
        paths_distinct(list),
    ensures
        paths_distinct(list.filter(pred)),
        forall|i: int|
            0 <= i < list.filter(pred).len() ==> has_path(
                list,
                (#[trigger] list.filter(pred)[i]).path,
            ),
    decreases list.len(),
{
    reveal(Seq::filter);
    if list.len() > 0 {
        let front = list.drop_last();
        assert(paths_distinct(front)) by {
            assert forall|i: int, j: int| 0 <= i < j < front.len() implies #[trigger] front[i].path
                != #[trigger] front[j].path by {
                assert(list[i].path != list[j].path);
            }
        }
        lemma_filter_keeps_distinct(front, pred);
        let kept = front.filter(pred);
        let all = list.filter(pred);
        assert forall|i: int| 0 <= i < all.len() implies has_path(
            list,
            (#[trigger] all[i]).path,
        ) by {
            if i < kept.len() {
                assert(has_path(front, kept[i].path));
                let k = choose|k: int|
                    0 <= k < front.len() && #[trigger] front[k].path == kept[i].path;
                assert(list[k].path == all[i].path);
            } else {
                assert(list[list.len() - 1].path == all[i].path);
            }
        }
        assert forall|i: int, j: int| 0 <= i < j < all.len() implies #[trigger] all[i].path
            != #[trigger] all[j].path by {
            if j < kept.len() {
                assert(kept[i].path != kept[j].path);
            } else {
                assert(has_path(front, kept[i].path));
                let k = choose|k: int|
                    0 <= k < front.len() && #[trigger] front[k].path == kept[i].path;
                assert(list[k].path != list[list.len() - 1].path);
            }
        }
    }
}

/// The repositories a server was started with are never swept, however long they are idle.
pub proof fn law_configured_repos_are_never_swept(
    list: Seq<RegisteredText>,
    now: u64,
    ttl: u64,
    i: int,
)
    requires
        paths_distinct(list),
        0 <= i < list.len(),
        list[i].origin == RepoOrigin::Configured,
    ensures
        !idle_spec(list, deadline_spec(now, ttl)).contains(list[i].path),
{
    let deadline = deadline_spec(now, ttl);
    let pred = |r: RegisteredText| is_idle(r, deadline);
    crate::order::lemma_filtered_are_members(list, pred);
    let idle = idle_spec(list, deadline);
    if idle.contains(list[i].path) {
        let k = choose|k: int| 0 <= k < idle.len() && idle[k] == list[i].path;
        let r = list.filter(pred)[k];
        assert(pred(r));
        assert(list.contains(r));
        let m = choose|m: int| 0 <= m < list.len() && list[m] == r;
        if m < i {
            assert(list[m].path != list[i].path);
        } else if m > i {
            assert(list[i].path != list[m].path);
        }
    }
}

/// A repository that was just named is not swept within the idle period.
pub proof fn law_a_named_repo_is_not_swept(
    list: Seq<RegisteredText>,
    path: Seq<char>,
    named_at: u64,
    now: u64,
    ttl: u64,
)
    requires
        named_at <= now,
        now - named_at <= ttl,
    ensures
        !idle_spec(stamped(list, path, named_at), deadline_spec(now, ttl)).contains(path),
{
    let after = stamped(list, path, named_at);
    let deadline = deadline_spec(now, ttl);
    let pred = |r: RegisteredText| is_idle(r, deadline);
    crate::order::lemma_filtered_are_members(after, pred);
    let idle = idle_spec(after, deadline);
    if idle.contains(path) {
        let k = choose|k: int| 0 <= k < idle.len() && idle[k] == path;
        let r = after.filter(pred)[k];
        assert(pred(r));
        assert(after.contains(r));
        let m = choose|m: int| 0 <= m < after.len() && after[m] == r;
        assert(list[m].path == path);
        assert(after[m].last_used == named_at);
    }
}

/// A forgotten repository is no longer registered, and the others still are.
pub proof fn law_forgetting_drops_one_repo(list: Seq<RegisteredText>, path: Seq<char>)
    ensures
        !has_path(without_path(list, path), path),
        forall|i: int|
            0 <= i < list.len() && #[trigger] list[i].path != path ==> has_path(
                without_path(list, path),
                list[i].path,
            ),
    decreases list.len(),
{
    reveal(Seq::filter);
    let pred = |r: RegisteredText| r.path != path;
    crate::order::lemma_filtered_are_members(list, pred);
    let kept = without_path(list, path);
    if has_path(kept, path) {
        let k = choose|k: int| 0 <= k < kept.len() && #[trigger] kept[k].path == path;
        assert(pred(kept[k]));
    }
    if list.len() > 0 {
        let front = list.drop_last();
        law_forgetting_drops_one_repo(front, path);
        let before = without_path(front, path);
        assert forall|i: int| 0 <= i < list.len() && #[trigger] list[i].path != path implies has_path(
            kept,
            list[i].path,
        ) by {
            if i < front.len() {
                assert(front[i].path != path);
                let k = choose|k: int|
                    0 <= k < before.len() && #[trigger] before[k].path == front[i].path;
                assert(kept[k].path == list[i].path);
            } else {
                assert(kept[kept.len() - 1].path == list[i].path);
            }
        }
    }
}

// ---- naming a repository ----

/// A directory between a repository and a place in it has a checkout of its own.
/// `git_dirs` are the directories with a `.git` entry.
pub open spec fn crosses_boundary(
    root: Seq<char>,
    target: Seq<char>,
    git_dirs: Seq<Seq<char>>,
) -> bool {
    exists|i: int|
        0 <= i < git_dirs.len() && is_under(target, #[trigger] git_dirs[i]) && is_under(
            git_dirs[i],
            root,
        ) && components_of(git_dirs[i]).len() > components_of(root).len()
}

/// A path stands for a repository: its root, or a place in it that is no checkout of its
/// own.
pub open spec fn stands_for(
    root: Seq<char>,
    candidate: Seq<char>,
    git_dirs: Seq<Seq<char>>,
) -> bool {
    candidate == root || (is_under(candidate, root) && !crosses_boundary(root, candidate, git_dirs))
}

/// Whether some directory from `target` up to `root`, without `root` itself, has a `.git`
/// entry: `target` then belongs to another checkout.
pub fn crosses_git_boundary(root: &str, target: &str, git_dirs: &[String]) -> (r: bool)
    ensures
        r == crosses_boundary(root@, target@, texts(git_dirs@)),
{
    let ghost all = texts(git_dirs@);
    let root_parts = components(root);
    let mut i: usize = 0;
    while i < git_dirs.len()
        invariant
            i <= git_dirs@.len(),
            all == texts(git_dirs@),
            texts(root_parts@) == components_of(root@),
            forall|j: int|
                0 <= j < i ==> !(is_under(target@, #[trigger] all[j]) && is_under(all[j], root@)
                    && components_of(all[j]).len() > components_of(root@).len()),
        decreases git_dirs@.len() - i,
    {
        let parts = components(git_dirs[i].as_str());
        proof {
            assert(all[i as int] == git_dirs@[i as int]@);
            assert(texts(parts@).len() == parts@.len());
            assert(texts(root_parts@).len() == root_parts@.len());
        }
        if under(target, git_dirs[i].as_str()) && under(git_dirs[i].as_str(), root) && parts.len()
            > root_parts.len() {
            return true;
        }
        i = i + 1;
    }
    false
}

/// Whether `candidate` stands for the repository at `root`. Both are resolved paths.
pub fn path_matches_repo_root(root: &str, candidate: &str, git_dirs: &[String]) -> (r: bool)
    ensures
        r == stands_for(root@, candidate@, texts(git_dirs@)),
{
    same_text(candidate, root) || (under(candidate, root) && !crosses_git_boundary(
        root,
        candidate,
        git_dirs,
    ))
}

pub open spec fn first_standing(
    roots: Seq<Seq<char>>,
    candidate: Seq<char>,
    git_dirs: Seq<Seq<char>>,
) -> Option<Seq<char>>
    decreases roots.len(),
{
    if roots.len() == 0 {
        None
    } else if stands_for(roots[0], candidate, git_dirs) {
        Some(roots[0])
    } else {
        first_standing(roots.skip(1), candidate, git_dirs)
    }
}

fn find_root(roots: &[String], candidate: &str, git_dirs: &[String]) -> (r: Option<String>)
    ensures
        opt_text(r) == first_standing(texts(roots@), candidate@, texts(git_dirs@)),
{
    let ghost all = texts(roots@);
    let ghost ds = texts(git_dirs@);
    let mut i: usize = 0;
    proof {
        assert(all.skip(0) =~= all);
    }
    while i < roots.len()
        invariant
            i <= roots@.len(),
            all == texts(roots@),
            ds == texts(git_dirs@),
            first_standing(all, candidate@, ds) == first_standing(
                all.skip(i as int),
                candidate@,
                ds,
            ),
        decreases roots@.len() - i,
    {
        proof {
            assert(all.skip(i as int)[0] == roots@[i as int]@);
            assert(all.skip(i as int).skip(1) =~= all.skip(i + 1));
        }
        if path_matches_repo_root(roots[i].as_str(), candidate, git_dirs) {
            return Some(roots[i].clone());
        }
        i = i + 1;
    }
    None
}

/// Why an argument names no repository.
#[derive(Debug)]
pub enum RepoError {
    /// No argument was given and more or fewer than one repository is known.
    Missing,
    /// Nothing known goes by this name or path.
    NotFound { name: String },
    /// Several repositories go by this name.
    Ambiguous { name: String, matches: Vec<String> },
    /// The path could not be resolved.
    Unresolved { path: String },
}

pub enum RepoErrorText {
    Missing,
    NotFound { name: Seq<char> },
    Ambiguous { name: Seq<char>, matches: Seq<Seq<char>> },
    Unresolved { path: Seq<char> },
}

impl View for RepoError {
    type V = RepoErrorText;

    open spec fn view(&self) -> RepoErrorText {
        match self {
            RepoError::Missing => RepoErrorText::Missing,
            RepoError::NotFound { name } => RepoErrorText::NotFound { name: name@ },
            RepoError::Ambiguous { name, matches } => RepoErrorText::Ambiguous {
                name: name@,
                matches: texts(matches@),
            },
            RepoError::Unresolved { path } => RepoErrorText::Unresolved { path: path@ },
        }
    }
}

/// What is said of a missing or unknown repository. `known` are the indexed ones.
pub open spec fn not_found_text(repo: Seq<char>, known: Seq<Seq<char>>) -> Seq<char> {
    let what = if repo.len() == 0 {
        "Missing required 'repo' parameter. "@
    } else {
        "Repository '"@ + repo + "' not found. "@
    };
    if known.len() == 0 {
        what
            + "No repositories are indexed yet. Use --repos flag when starting the server."@
    } else {
        what + "Available repositories: "@ + join_spec(known, ", "@)
            + ". Use list_repos to see all indexed repositories."@
    }
}

/// The error for a missing or unknown repository, with what there is.
pub fn repo_not_found_error(repo: &str, known: &[String]) -> (r: String)
    ensures
        r@ == not_found_text(repo@, texts(known@)),
{
    proof {
        assert(texts(known@).len() == known@.len());
    }
    let mut out = if repo.is_empty() {
        "Missing required 'repo' parameter. ".to_owned()
    } else {
        let mut what = "Repository '".to_owned();
        what.append(repo);
        what.append("' not found. ");
        what
    };
    if known.len() == 0 {
        out.append("No repositories are indexed yet. Use --repos flag when starting the server.");
    } else {
        out.append("Available repositories: ");
        out.append(join(known, ", ").as_str());
        out.append(". Use list_repos to see all indexed repositories.");
    }
    out
}

impl RepoErrorText {
    pub open spec fn text(self, known: Seq<Seq<char>>) -> Seq<char> {
        match self {
            RepoErrorText::Missing => not_found_text(Seq::empty(), known),
            RepoErrorText::NotFound { name } => not_found_text(name, known),
            RepoErrorText::Ambiguous { name, matches } => "Repository name '"@ + name
                + "' matches "@ + decimal(matches.len() as nat) + " indexed repositories: "@
                + join_spec(matches, ", "@) + ". Pass the path of the one you mean."@,
            RepoErrorText::Unresolved { path } => "Failed to canonicalize repo path '"@ + path
                + "'"@,
        }
    }
}

impl RepoError {
    /// The error as it is shown; `known` are the indexed repositories.
    pub fn message(&self, known: &[String]) -> (r: String)
        ensures
            r@ == self@.text(texts(known@)),
    {
        match self {
            RepoError::Missing => {
                let none = String::new();
                proof {
                    assert(none@ =~= Seq::<char>::empty());
                }
                repo_not_found_error(none.as_str(), known)
            },
            RepoError::NotFound { name } => repo_not_found_error(name.as_str(), known),
            RepoError::Ambiguous { name, matches } => {
                proof {
                    assert(texts(matches@).len() == matches@.len());
                }
                let mut out = "Repository name '".to_owned();
                out.append(name.as_str());
                out.append("' matches ");
                out.append(usize_text(matches.len()).as_str());
                out.append(" indexed repositories: ");
                out.append(join(matches.as_slice(), ", ").as_str());
                out.append(". Pass the path of the one you mean.");
                out
            },
            RepoError::Unresolved { path } => {
                let mut out = "Failed to canonicalize repo path '".to_owned();
                out.append(path.as_str());
                out.append("'");
                out
            },
        }
    }
}

/// The paths of every repository the server answers for, each once, in path order.
pub open spec fn known_paths(indexed: Seq<Seq<char>>, registered: Seq<Seq<char>>) -> Seq<Seq<char>> {
    dedup_texts(sort_stable(indexed + registered, path_order()))
}

fn collect_known(indexed: &[String], registered: &[String]) -> (r: Vec<String>)
    ensures
        texts(r@) == known_paths(texts(indexed@), texts(registered@)),
{
    let mut both: Vec<String> = Vec::new();
    append_texts(&mut both, indexed);
    append_texts(&mut both, registered);
    proof {
        let e = Seq::<Seq<char>>::empty();
        assert(e + texts(indexed@) =~= texts(indexed@));
    }
    let sorted = sort_paths(both.as_slice());
    dedup_strings(sorted.as_slice())
}

/// A repository goes by a name: its directory's, with or without `.git` at the end.
pub open spec fn goes_by(path: Seq<char>, name: Seq<char>) -> bool {
    match file_name_spec(path) {
        Some(base) => base == name || trim_end_text(base, ".git"@) == name,
        None => false,
    }
}

fn is_named(path: &str, name: &str) -> (r: bool)
    ensures
        r == goes_by(path@, name@),
{
    match file_name(path) {
        Some(base) => {
            let chars = to_chars(base.as_str());
            let suffix = to_chars(".git");
            let short_chars = trim_end_text_chars(chars.as_slice(), suffix.as_slice());
            let short = to_text(short_chars.as_slice());
            same_text(base.as_str(), name) || same_text(short.as_str(), name)
        },
        None => false,
    }
}

pub open spec fn by_name_spec(known: Seq<Seq<char>>, name: Seq<char>) -> Result<
    Seq<char>,
    RepoErrorText,
> {
    let matches = known.filter(|p: Seq<char>| goes_by(p, name));
    if matches.len() == 1 {
        Ok(matches[0])
    } else if matches.len() == 0 {
        Err(RepoErrorText::NotFound { name })
    } else {
        Err(RepoErrorText::Ambiguous { name, matches })
    }
}

pub open spec fn key_result(r: Result<String, RepoError>) -> Result<Seq<char>, RepoErrorText> {
    match r {
        Ok(k) => Ok(k@),
        Err(e) => Err(e@),
    }
}

/// Resolves a bare name against the directory names of the known repositories. Only an
/// unambiguous name resolves.
pub fn resolve_repo_by_name(known: &[String], name: &str) -> (r: Result<String, RepoError>)
    ensures
        key_result(r) == by_name_spec(texts(known@), name@),
{
    let ghost all = texts(known@);
    let ghost pred = |p: Seq<char>| goes_by(p, name@);
    let mut matches: Vec<String> = Vec::new();
    let mut i: usize = 0;
    proof {
        reveal(Seq::filter);
        assert(texts(matches@) =~= all.take(0).filter(pred));
    }
    while i < known.len()
        invariant
            i <= known@.len(),
            all == texts(known@),
            pred == (|p: Seq<char>| goes_by(p, name@)),
            texts(matches@) == all.take(i as int).filter(pred),
        decreases known@.len() - i,
    {
        proof {
            reveal(Seq::filter);
            assert(all.take(i + 1).drop_last() =~= all.take(i as int));
            assert(all.take(i + 1).last() == known@[i as int]@);
        }
        if is_named(known[i].as_str(), name) {
            let p = known[i].clone();
            proof {
                assert(texts(matches@.push(p)) =~= texts(matches@).push(p@));
            }
            matches.push(p);
        }
        i = i + 1;
    }
    proof {
        assert(all.take(all.len() as int) =~= all);
        assert(texts(matches@).len() == matches@.len());
    }
    if matches.len() == 1 {
        proof {
            assert(texts(matches@)[0] == matches@[0]@);
        }
        Ok(matches[0].clone())
    } else if matches.len() == 0 {
        Err(RepoError::NotFound { name: name.to_owned() })
    } else {
        Err(RepoError::Ambiguous { name: name.to_owned(), matches })
    }
}

/// An argument that is a path and not a bare name.
pub open spec fn is_path_argument(input: Seq<char>) -> bool {
    input == "."@ || contains_text(input, "/"@) || contains_text(input, "\\"@)
}

/// Whether an argument has to be resolved on disk before it can be matched.
pub fn looks_like_path(input: &str) -> (r: bool)
    ensures
        r == is_path_argument(input@),
{
    same_text(input, ".") || contains(input, "/") || contains(input, "\\")
}

/// The key an argument names.
pub open spec fn repo_key_spec(
    input: Seq<char>,
    resolved: Option<Seq<char>>,
    indexed: Seq<Seq<char>>,
    registered: Seq<Seq<char>>,
    git_dirs: Seq<Seq<char>>,
) -> Result<Seq<char>, RepoErrorText> {
    let known = known_paths(indexed, registered);
    if input.len() == 0 {
        if known.len() == 1 {
            Ok(known[0])
        } else {
            Err(RepoErrorText::Missing)
        }
    } else if !is_path_argument(input) {
        by_name_spec(known, input)
    } else {
        match resolved {
            None => Err(RepoErrorText::Unresolved { path: input }),
            Some(place) => match first_standing(indexed, place, git_dirs) {
                Some(root) => Ok(root),
                None => match first_standing(registered, place, git_dirs) {
                    Some(root) => Ok(root),
                    None => Err(RepoErrorText::NotFound { name: input }),
                },
            },
        }
    }
}

/// The key of the repository that an argument names: nothing where there is only one, a
/// bare name, or a path to it or into it. `resolved` is the path as it resolves on disk,
/// `indexed` and `registered` the resolved paths of the indexed and of the registered
/// repositories, `git_dirs` the directories on the way that have a `.git` entry.
pub fn repo_key_for(
    input: &str,
    resolved: Option<&str>,
    indexed: &[String],
    registered: &[String],
    git_dirs: &[String],
) -> (r: Result<String, RepoError>)
    ensures
        key_result(r) == repo_key_spec(
            input@,
            match resolved {
                Some(p) => Some(p@),
                None => None,
            },
            texts(indexed@),
            texts(registered@),
            texts(git_dirs@),
        ),
{
    let known = collect_known(indexed, registered);
    proof {
        assert(texts(known@).len() == known@.len());
    }
    if input.is_empty() {
        if known.len() == 1 {
            proof {
                assert(texts(known@)[0] == known@[0]@);
            }
            return Ok(known[0].clone());
        }
        return Err(RepoError::Missing);
    }
    if !looks_like_path(input) {
        return resolve_repo_by_name(known.as_slice(), input);
    }
    match resolved {
        None => Err(RepoError::Unresolved { path: input.to_owned() }),
        Some(place) => match find_root(indexed, place, git_dirs) {
            Some(root) => Ok(root),
            None => match find_root(registered, place, git_dirs) {
                Some(root) => Ok(root),
                None => Err(RepoError::NotFound { name: input.to_owned() }),
            },
        },
    }
}

/// A repository's own path always names it, whatever else is known, unless an earlier one
/// encloses it.
pub proof fn law_a_root_names_its_repo(
    roots: Seq<Seq<char>>,
    i: int,
    git_dirs: Seq<Seq<char>>,
)
    requires
        0 <= i < roots.len(),
        forall|j: int| 0 <= j < i ==> !stands_for(#[trigger] roots[j], roots[i], git_dirs),
    ensures
        first_standing(roots, roots[i], git_dirs) == Some(roots[i]),
    decreases roots.len(),
{
    if i > 0 {
        assert(!stands_for(roots[0], roots[i], git_dirs));
        let rest = roots.skip(1);
        assert(rest[i - 1] == roots[i]);
        assert forall|j: int| 0 <= j < i - 1 implies !stands_for(
            #[trigger] rest[j],
            rest[i - 1],
            git_dirs,
        ) by {
            assert(!stands_for(roots[j + 1], roots[i], git_dirs));
        }
        law_a_root_names_its_repo(rest, i - 1, git_dirs);
    }
}

// ---- what a rebuild drops ----

/// A registered repository below another one.
pub open spec fn is_nested(other: Seq<char>, path: Seq<char>) -> bool {
    other != path && is_under(other, path)
}

/// A cached file stays when a repository is rebuilt or forgotten: it is not the
/// repository's, or it belongs to one registered below it.
pub open spec fn stays_cached(
    file: Seq<char>,
    path: Seq<char>,
    registered: Seq<Seq<char>>,
) -> bool {
    !is_under(file, path) || exists|i: int|
        0 <= i < registered.len() && is_nested(#[trigger] registered[i], path) && is_under(
            file,
            registered[i],
        )
}

/// Whether a cached file stays when the repository at `path` is rebuilt or forgotten.
pub fn keeps_cached_file(file: &str, path: &str, registered: &[String]) -> (r: bool)
    ensures
        r == stays_cached(file@, path@, texts(registered@)),
{
    if !under(file, path) {
        return true;
    }
    let ghost all = texts(registered@);
    let mut i: usize = 0;
    while i < registered.len()
        invariant
            i <= registered@.len(),
            all == texts(registered@),
            forall|j: int|
                0 <= j < i ==> !(is_nested(#[trigger] all[j], path@) && is_under(file@, all[j])),
        decreases registered@.len() - i,
    {
        proof {
            assert(all[i as int] == registered@[i as int]@);
        }
        if !same_text(registered[i].as_str(), path) && under(registered[i].as_str(), path) && under(
            file,
            registered[i].as_str(),
        ) {
            return true;
        }
        i = i + 1;
    }
    false
}

/// A repository registered below another keeps its files when the other goes.
pub proof fn law_nested_repos_keep_their_files(
    file: Seq<char>,
    path: Seq<char>,
    registered: Seq<Seq<char>>,
    i: int,
)
    requires
        0 <= i < registered.len(),
        is_nested(registered[i], path),
        is_under(file, registered[i]),
    ensures
        stays_cached(file, path, registered),
{
}

/// What is said once a repository has been indexed again.
pub open spec fn reindexed_text(repo: Option<Seq<char>>, adopted: bool) -> Seq<char> {
    match repo {
        Some(key) => if adopted {
            "Registered and indexed repository: "@ + key
        } else {
            "Re-indexed repository: "@ + key
        },
        None => "Re-indexed all repositories"@,
    }
}

pub fn reindexed_message(repo: Option<&str>, adopted: bool) -> (r: String)
    ensures
        r@ == reindexed_text(
            match repo {
                Some(k) => Some(k@),
                None => None,
            },
            adopted,
        ),
{
    match repo {
        Some(key) => {
            let mut out = if adopted {
                "Registered and indexed repository: ".to_owned()
            } else {
                "Re-indexed repository: ".to_owned()
            };
            out.append(key);
            out
        },
        None => "Re-indexed all repositories".to_owned(),
    }
}

// ---- a repository's state ----

/// The eight bytes of a number, the lowest first.
pub open spec fn low_bytes(n: nat, count: nat) -> Seq<u8>
    decreases count,
{
    if count == 0 {
        Seq::empty()
    } else {
        seq![(n % 256) as u8] + low_bytes(n / 256, (count - 1) as nat)
    }
}

/// A cached file: its path and, where known, when it was modified.
#[derive(Debug)]
pub struct FileTime {
    pub path: String,
    pub modified_secs: Option<u64>,
}

pub struct FileTimeText {
    pub path: Seq<char>,
    pub modified_secs: Option<u64>,
}

impl View for FileTime {
    type V = FileTimeText;

    open spec fn view(&self) -> FileTimeText {
        FileTimeText { path: self.path@, modified_secs: self.modified_secs }
    }
}

pub open spec fn file_time_texts(v: Seq<FileTime>) -> Seq<FileTimeText> {
    v.map_values(|f: FileTime| f@)
}

pub open spec fn time_order() -> spec_fn(FileTimeText, FileTimeText) -> bool {
    |a: FileTimeText, b: FileTimeText| path_lt(a.path, b.path)
}

impl Ranked for FileTime {
    open spec fn precedes(a: FileTime, b: FileTime) -> bool {
        path_lt(a@.path, b@.path)
    }

    fn is_before(&self, other: &FileTime) -> (r: bool) {
        path_less(self.path.as_str(), other.path.as_str())
    }
}

/// What a file adds to its repository's state: its path and the time it was modified.
pub open spec fn state_bytes(f: FileTimeText) -> Seq<u8> {
    vstd::utf8::encode_utf8(f.path) + match f.modified_secs {
        Some(s) => low_bytes(s as nat, 8),
        None => Seq::empty(),
    }
}

pub open spec fn all_state_bytes(files: Seq<FileTimeText>) -> Seq<u8>
    decreases files.len(),
{
    if files.len() == 0 {
        Seq::empty()
    } else {
        all_state_bytes(files.drop_last()) + state_bytes(files.last())
    }
}

/// The state of a repository: a digest over its files and their times, in path order.
pub open spec fn repo_state(files: Seq<FileTimeText>, repo: Seq<char>) -> Seq<char> {
    sha256_hex(
        all_state_bytes(
            sort_stable(files.filter(|f: FileTimeText| is_under(f.path, repo)), time_order()),
        ),
    )
}

fn push_bytes(out: &mut Vec<u8>, bytes: &[u8])
    ensures
        final(out)@ == old(out)@ + bytes@,
{
    let ghost before = out@;
    let mut i: usize = 0;
    proof {
        assert(before + bytes@.take(0) =~= before);
    }
    while i < bytes.len()
        invariant
            i <= bytes@.len(),
            out@ == before + bytes@.take(i as int),
        decreases bytes@.len() - i,
    {
        proof {
            assert((before + bytes@.take(i as int)).push(bytes@[i as int]) =~= before
                + bytes@.take(i + 1));
        }
        out.push(bytes[i]);
        i = i + 1;
    }
    proof {
        assert(bytes@.take(bytes@.len() as int) =~= bytes@);
    }
}

fn push_number(out: &mut Vec<u8>, n: u64)
    ensures
        final(out)@ == old(out)@ + low_bytes(n as nat, 8),
{
    let ghost before = out@;
    let mut rest: u64 = n;
    let mut left: u64 = 8;
    while left > 0
        invariant
            left <= 8,
            before + low_bytes(n as nat, 8) == out@ + low_bytes(rest as nat, left as nat),
        decreases left,
    {
        let byte: u8 = (rest % 256) as u8;
        let next: u64 = rest / 256;
        proof {
            let tail = low_bytes(next as nat, (left - 1) as nat);
            assert(low_bytes(rest as nat, left as nat) == seq![byte] + tail);
            assert(out@ + (seq![byte] + tail) =~= out@.push(byte) + tail);
        }
        out.push(byte);
        rest = next;
        left = left - 1;
    }
    proof {
        assert(out@ + low_bytes(rest as nat, 0) =~= out@);
    }
}

/// A digest of a repository's files and the times they were modified. It changes when a
/// file is modified, added or removed.
pub fn compute_repo_hash(files: &[FileTime], repo: &str) -> (r: String)
    ensures
        r@ == repo_state(file_time_texts(files@), repo@),
{
    let ghost all = file_time_texts(files@);
    let ghost pred = |f: FileTimeText| is_under(f.path, repo@);
    let mut own: Vec<FileTime> = Vec::new();
    let mut i: usize = 0;
    proof {
        reveal(Seq::filter);
        assert(file_time_texts(own@) =~= all.take(0).filter(pred));
    }
    while i < files.len()
        invariant
            i <= files@.len(),
            all == file_time_texts(files@),
            pred == (|f: FileTimeText| is_under(f.path, repo@)),
            file_time_texts(own@) == all.take(i as int).filter(pred),
        decreases files@.len() - i,
    {
        proof {
            reveal(Seq::filter);
            assert(all.take(i + 1).drop_last() =~= all.take(i as int));
            assert(all.take(i + 1).last() == files@[i as int]@);
        }
        if under(files[i].path.as_str(), repo) {
            let item = FileTime {
                path: files[i].path.clone(),
                modified_secs: files[i].modified_secs,
            };
            proof {
                assert(file_time_texts(own@.push(item)) =~= file_time_texts(own@).push(item@));
            }
            own.push(item);
        }
        i = i + 1;
    }
    let ghost mine = file_time_texts(own@);
    let ghost view = |f: FileTime| f@;
    proof {
        assert(all.take(all.len() as int) =~= all);
        lemma_sort_maps(own@, view, rank_order::<FileTime>(), time_order());
        assert(own@.map_values(view) =~= mine);
    }
    let sorted = sort_ranked(own);
    let ghost order = file_time_texts(sorted@);
    proof {
        assert(order =~= sort_stable(mine, time_order()));
    }
    let mut bytes: Vec<u8> = Vec::new();
    let mut k: usize = 0;
    proof {
        assert(bytes@ =~= all_state_bytes(order.take(0)));
    }
    while k < sorted.len()
        invariant
            k <= sorted@.len(),
            order == file_time_texts(sorted@),
            bytes@ == all_state_bytes(order.take(k as int)),
        decreases sorted@.len() - k,
    {
        let ghost before = bytes@;
        proof {
            assert(order.take(k + 1).drop_last() =~= order.take(k as int));
            assert(order.take(k + 1).last() == sorted@[k as int]@);
        }
        push_bytes(&mut bytes, sorted[k].path.as_str().as_bytes());
        match sorted[k].modified_secs {
            Some(s) => {
                push_number(&mut bytes, s);
            },
            None => {},
        }
        proof {
            assert(bytes@ =~= before + state_bytes(sorted@[k as int]@));
        }
        k = k + 1;
    }
    proof {
        assert(order.take(order.len() as int) =~= order);
    }
    digest_hex(bytes.as_slice())
}

} // verus!
