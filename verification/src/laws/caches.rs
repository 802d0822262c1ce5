//! What the answers that are kept are served for, and when they go.

use vstd::prelude::*;

use crate::cache::{answer_index, is_stale, CacheKeyText, CacheText, CachedAnswerText, ChangeText};
use crate::kept::{consulted, filled, graph_key, search_key, CacheStepText};
use crate::laws::lists::lemma_filter_members;
use crate::leases::LeaseText;

verus! {

proof fn lemma_index(entries: Seq<CachedAnswerText>, key: CacheKeyText)
    ensures
        match answer_index(entries, key) {
            Some(i) => 0 <= i < entries.len() && entries[i].key == key,
            None => forall|i: int| 0 <= i < entries.len() ==> (#[trigger] entries[i]).key != key,
        },
    decreases entries.len(),
{
    if entries.len() > 0 && entries.last().key != key {
        lemma_index(entries.drop_last(), key);
        if answer_index(entries.drop_last(), key) is None {
            assert forall|i: int| 0 <= i < entries.len() implies (#[trigger] entries[i]).key
                != key by {
                if i < entries.len() - 1 {
                    assert(entries.drop_last()[i] == entries[i]);
                }
            }
        }
    }
}

/// An answer is served exactly to the question it was kept for, of the same index, before its
/// time is over.
pub proof fn law_when_an_answer_is_served(
    cache: CacheText,
    key: CacheKeyText,
    hash: Seq<char>,
    now: u64,
    answer: Seq<char>,
)
    requires
        cache.wf(),
    ensures
        cache.served(key, hash, now) == Some(answer) <==> exists|i: int|
            0 <= i < cache.entries.len() && (#[trigger] cache.entries[i]).key == key
                && cache.entries[i].answer == answer && cache.entries[i].repo_hash == hash
                && cache.ttl_seconds > 0 && now < cache.entries[i].at + cache.ttl_seconds,
{
    lemma_index(cache.entries, key);
    match answer_index(cache.entries, key) {
        Some(i) => {
            assert(cache.entries[i].key == key);
            assert forall|j: int|
                0 <= j < cache.entries.len() && (#[trigger] cache.entries[j]).key == key implies j
                == i by {
                if j < i {
                    assert(cache.entries[j].key != cache.entries[i].key);
                } else if i < j {
                    assert(cache.entries[i].key != cache.entries[j].key);
                }
            }
        },
        None => {},
    }
}

/// A question is counted as a hit exactly where it was served, and else as a miss.
pub proof fn law_hits_and_misses_are_counted(
    cache: CacheText,
    key: CacheKeyText,
    hash: Seq<char>,
    now: u64,
)
    requires
        cache.hits < u64::MAX,
        cache.misses < u64::MAX,
    ensures
        cache.served(key, hash, now) is Some ==> cache.asked(key, hash, now).hits == cache.hits + 1
            && cache.asked(key, hash, now).misses == cache.misses,
        cache.served(key, hash, now) is None ==> cache.asked(key, hash, now).misses == cache.misses
            + 1 && cache.asked(key, hash, now).hits == cache.hits,
{
}

/// A change takes out exactly the answers it may have made wrong: those of the repository, those
/// of searches over all of them, or those read from the file.
pub proof fn law_what_a_change_takes_out(cache: CacheText, change: ChangeText, e: CachedAnswerText)
    ensures
        cache.invalidated(change).entries.contains(e) <==> cache.entries.contains(e) && !(
        match change {
            ChangeText::Repo(repo) => e.key.repo == repo,
            ChangeText::Search(repo) => e.key.repo == repo || e.key.repo.len() == 0,
            ChangeText::File(path) => e.files.contains(path),
        }),
{
    let pred = |e: CachedAnswerText| !is_stale(e, change);
    lemma_filter_members(cache.entries, pred, e);
    assert(cache.invalidated(change).entries =~= cache.entries.filter(pred));
}

/// A new answer is kept last; where there is no room for it, the oldest goes.
pub proof fn law_the_oldest_answer_goes(cache: CacheText, e: CachedAnswerText)
    requires
        cache.wf(),
        forall|i: int| 0 <= i < cache.entries.len() ==> (#[trigger] cache.entries[i]).key != e.key,
    ensures
        cache.put(e).entries.last() == e,
        cache.entries.len() < cache.capacity ==> cache.put(e).entries == cache.entries.push(e),
        cache.entries.len() == cache.capacity ==> cache.put(e).entries == cache.entries.skip(
            1,
        ).push(e),
{
    lemma_index(cache.entries, e.key);
    if cache.entries.len() == cache.capacity {
        assert(cache.entries.remove(0) =~= cache.entries.skip(1));
    }
}

/// Nothing is served while the cache is off, and every question is then put.
pub proof fn law_a_cache_that_is_off_is_not_asked(
    cache: CacheText,
    key: CacheKeyText,
    hash: Seq<char>,
    now: u64,
)
    ensures
        consulted(false, cache, key, hash, now) == (CacheStepText::Ask(None), cache),
        consulted(true, cache, key, hash, now).0 == (match cache.served(key, hash, now) {
            Some(text) => CacheStepText::Kept(text),
            None => CacheStepText::Ask(Some(key)),
        }),
{
}

/// An answer is kept for the question it answers; an error is not kept.
pub proof fn law_only_answers_are_kept(
    cache: CacheText,
    key: CacheKeyText,
    hash: Seq<char>,
    files: Seq<Seq<char>>,
    text: Seq<char>,
    error: Seq<char>,
    now: u64,
)
    requires
        cache.wf(),
        cache.ttl_seconds > 0,
    ensures
        filled(cache, Some(key), hash, files, Err(error), now) == cache,
        filled(cache, None, hash, files, Ok(text), now) == cache,
        filled(cache, Some(key), hash, files, Ok(text), now).served(key, hash, now) == Some(text),
{
    let e = CachedAnswerText { key, answer: text, repo_hash: hash, files, at: now };
    let after = cache.put(e);
    assert(after.entries.last() == e);
    assert(answer_index(after.entries, key) == Some(after.entries.len() - 1));
}

/// The answers of a search in one repository are not those of a search in all.
pub proof fn law_a_search_is_kept_under_its_repo(
    repo: Seq<char>,
    query: Seq<char>,
    o: crate::cache::SearchOptionsText,
)
    ensures
        search_key(Some(repo), query, o).repo == repo,
        search_key(None, query, o).repo.len() == 0,
{
}

/// Call graphs are not kept under one key where the function or the question differs.
pub proof fn law_call_graphs_are_not_shared(
    repo: Seq<char>,
    a: Seq<char>,
    b: Seq<char>,
    x: bool,
    y: bool,
)
    requires
        graph_key(repo, a, x) == graph_key(repo, b, y),
    ensures
        a == b,
        x == y,
{
    let p = graph_key(repo, a, x).discriminator;
    let q = graph_key(repo, b, y).discriminator;
    assert(p[0] == a && q[0] == b);
    assert(p[1] == q[1]);
    reveal_strlit("true");
    reveal_strlit("false");
    if x != y {
        assert(p[1].len() != q[1].len());
    }
}

// ---- queries and updates ----

/// A repository is open to queries exactly while no update holds it or waits for it.
pub proof fn law_when_a_query_is_admitted(state: LeaseText, key: Seq<char>)
    requires
        state.wf(),
    ensures
        state.admits(key) <==> !state.held.contains(key) && !state.waiting.contains(key),
        !state.updating ==> state.admits(key),
        state.released().admits(key),
{
}

/// An update takes hold of what no query reads, and waits for the rest; it never holds what is
/// read.
pub proof fn law_an_update_waits_for_queries(state: LeaseText)
    requires
        state.wf(),
    ensures
        state.taken().held + state.taken().waiting == state.held + state.waiting,
        state.taken().waiting.len() > 0 ==> state.queries.contains(state.taken().waiting[0]),
        state.taken().queries == state.queries,
    decreases state.waiting.len(),
{
    if state.waiting.len() == 0 || state.queries.contains(state.waiting[0]) {
    } else {
        let next = LeaseText {
            held: state.held.push(state.waiting[0]),
            waiting: state.waiting.skip(1),
            ..state
        };
        assert(next.wf()) by {
            assert forall|i: int, j: int|
                0 <= i < next.held.len() && 0 <= j < next.queries.len() implies
            #[trigger] next.held[i] != #[trigger] next.queries[j] by {
                if i == state.held.len() {
                    assert(next.held[i] == state.waiting[0]);
                } else {
                    assert(next.held[i] == state.held[i]);
                }
            }
        }
        law_an_update_waits_for_queries(next);
        assert(next.held + next.waiting =~= state.held + state.waiting);
    }
}

} // verus!
