//! How the engine starts, and how it is indexed anew.

use vstd::prelude::*;

use crate::engine::{at_hand, configured, file_index, put_file, started, ArgText, EngineText};
use crate::registry::{has_path, with_name, RegisteredText};
use crate::reports::reindexed;
use crate::search::CachedText;

verus! {

/// A directory that was named, is there and could be opened is at hand, and no other; none twice.
pub proof fn law_what_is_at_hand(
    paths: Seq<Seq<char>>,
    existing: Seq<Seq<char>>,
    opened: Seq<Seq<char>>,
    p: Seq<char>,
)
    ensures
        at_hand(paths, existing, opened).contains(p) <==> paths.contains(p) && existing.contains(p)
            && opened.contains(p),
        at_hand(paths, existing, opened).no_duplicates(),
    decreases paths.len(),
{
    if paths.len() > 0 {
        let before = paths.drop_last();
        let front = at_hand(before, existing, opened);
        let all = at_hand(paths, existing, opened);
        law_what_is_at_hand(before, existing, opened, p);
        assert(paths[paths.len() - 1] == paths.last());
        if before.contains(p) {
            let k = choose|k: int| 0 <= k < before.len() && before[k] == p;
            assert(paths[k] == p);
        }
        if paths.contains(p) && !before.contains(p) {
            let k = choose|k: int| 0 <= k < paths.len() && paths[k] == p;
            if k < before.len() {
                assert(before[k] == p);
            }
        }
        if all != front {
            assert(all == front.push(paths.last()));
            assert(all[all.len() - 1] == paths.last());
            if front.contains(p) {
                let k = choose|k: int| 0 <= k < front.len() && front[k] == p;
                assert(all[k] == p);
            }
            if all.contains(p) && !front.contains(p) {
                let k = choose|k: int| 0 <= k < all.len() && all[k] == p;
                if k < front.len() {
                    assert(front[k] == p);
                }
            }
        }
    }
}

proof fn lemma_with_name(list: Seq<RegisteredText>, path: Seq<char>, now: u64, p: Seq<char>)
    ensures
        has_path(with_name(list, path, now), p) <==> has_path(list, p) || p == path,
{
    let all = with_name(list, path, now);
    if has_path(list, path) {
        assert forall|i: int| 0 <= i < list.len() implies (#[trigger] all[i]).path == list[i].path by {
        }
        if has_path(list, p) {
            let i = choose|i: int| 0 <= i < list.len() && #[trigger] list[i].path == p;
            assert(all[i].path == p);
        }
        if has_path(all, p) {
            let i = choose|i: int| 0 <= i < all.len() && #[trigger] all[i].path == p;
            assert(list[i].path == p);
        }
    } else {
        assert(all[all.len() - 1].path == path);
        if has_path(list, p) {
            let i = choose|i: int| 0 <= i < list.len() && #[trigger] list[i].path == p;
            assert(all[i].path == p);
        }
        if has_path(all, p) {
            let i = choose|i: int| 0 <= i < all.len() && #[trigger] all[i].path == p;
            if i < list.len() {
                assert(list[i].path == p);
            }
        }
    }
}

/// Every repository that was named at the start is registered, and no other.
pub proof fn law_every_named_repo_is_registered(paths: Seq<Seq<char>>, now: u64, p: Seq<char>)
    ensures
        has_path(configured(paths, now), p) <==> paths.contains(p),
    decreases paths.len(),
{
    if paths.len() > 0 {
        let before = paths.drop_last();
        law_every_named_repo_is_registered(before, now, p);
        lemma_with_name(configured(before, now), paths.last(), now, p);
        assert(paths[paths.len() - 1] == paths.last());
        if before.contains(p) {
            let k = choose|k: int| 0 <= k < before.len() && before[k] == p;
            assert(paths[k] == p);
        }
        if paths.contains(p) && !before.contains(p) {
            let k = choose|k: int| 0 <= k < paths.len() && paths[k] == p;
            if k < before.len() {
                assert(before[k] == p);
            }
        }
    }
}

/// The engine starts empty, with what it was told to open.
pub proof fn law_how_an_engine_starts(
    paths: Seq<Seq<char>>,
    existing: Seq<Seq<char>>,
    git: Seq<Seq<char>>,
    graphs: bool,
    history: bool,
    now: u64,
    p: Seq<char>,
)
    ensures
        ({
            let state = started(paths, existing, git, graphs, history, now);
            &&& state.repos.len() == 0
            &&& state.files.len() == 0
            &&& !state.initialized
            &&& state.call_graphs.contains(p) <==> graphs && paths.contains(p) && existing.contains(
                p,
            )
            &&& state.git_repos.contains(p) <==> history && paths.contains(p) && existing.contains(
                p,
            ) && git.contains(p)
        }),
{
    law_what_is_at_hand(paths, existing, existing, p);
    law_what_is_at_hand(paths, existing, git, p);
}

/// Indexing everything anew forgets all that was indexed; indexing one repository anew forgets
/// that one alone.
pub proof fn law_indexing_anew_forgets_what_was_known(
    state: EngineText,
    arg: ArgText,
    readable: Option<Seq<char>>,
    is_repository: bool,
    graphs: bool,
)
    ensures
        reindexed(state, None, readable, is_repository, graphs).0.repos.len() == 0,
        reindexed(state, None, readable, is_repository, graphs).0.files.len() == 0,
        reindexed(state, None, readable, is_repository, graphs).0.registered == state.registered,
        state.resolved(arg) matches Ok(key) ==> reindexed(
            state,
            Some(arg),
            readable,
            is_repository,
            graphs,
        ).0 == state.named(arg).emptied(key, graphs),
        state.resolved(arg) is Err && !(is_repository && readable is Some) ==> reindexed(
            state,
            Some(arg),
            readable,
            is_repository,
            graphs,
        ).1 is Err,
        state.resolved(arg) is Err && is_repository && readable is Some ==> has_path(
            reindexed(state, Some(arg), readable, is_repository, graphs).0.registered,
            readable->0,
        ),
{
    if state.resolved(arg) is Err && is_repository && readable is Some {
        let path = readable->0;
        let met = state.named(arg).adopted(path, arg.now);
        if !has_path(state.named(arg).registered, path) {
            assert(met.registered[met.registered.len() - 1].path == path);
        }
    }
}

proof fn lemma_file_index(files: Seq<CachedText>, path: Seq<char>)
    ensures
        match file_index(files, path) {
            Some(i) => 0 <= i < files.len() && files[i].path == path,
            None => forall|i: int| 0 <= i < files.len() ==> (#[trigger] files[i]).path != path,
        },
    decreases files.len(),
{
    if files.len() > 0 {
        lemma_file_index(files.drop_last(), path);
        if file_index(files.drop_last(), path) is None {
            assert forall|i: int| 0 <= i < files.len() - 1 implies (#[trigger] files[i]).path
                != path by {
                assert(files.drop_last()[i] == files[i]);
            }
        }
    }
}

/// A cached file is found by its path, and replaced where its path is known already.
pub proof fn law_a_cached_file_is_found(files: Seq<CachedText>, file: CachedText)
    ensures
        put_file(files, file).contains(file),
        file_index(files, file.path) is Some ==> put_file(files, file).len() == files.len(),
        file_index(files, file.path) is None <==> put_file(files, file).len() == files.len() + 1,
        file_index(files, file.path) is Some <==> exists|i: int|
            0 <= i < files.len() && (#[trigger] files[i]).path == file.path,
{
    lemma_file_index(files, file.path);
    let all = put_file(files, file);
    match file_index(files, file.path) {
        Some(i) => {
            assert(all[i] == file);
        },
        None => {
            assert(all[all.len() - 1] == file);
        },
    }
}

} // verus!
