//! What becomes of the index when files change.

use vstd::prelude::*;

use crate::batch::placed;
use crate::changes::{
    change_keys, is_manifest_name, is_manifest_of, is_within, manifest_owner, owner, pending_of,
    AccountText, ChangeType, PathText, PendingText, PlaceText,
};
use crate::engine::{
    file_index, lemma_put_repo, lemma_repo_index, put_repo, repo_index, symbols_of, EngineText,
    IndexedText,
};
use crate::languages::get_language_from_path_spec;
use crate::laws::lists::lemma_filter_members;
use crate::order::lemma_filtered_are_members;
use crate::paths::{components_of, file_name_spec, is_under, relative_spec};
use crate::scope::{is_merge_leftover, scope_names};
use crate::search::CachedText;
use crate::settings::{law_table_get_after_put, table_get, table_put};
use crate::symbols::SymbolText;
use crate::watch::{change_step, manifest_of, SeenText};

verus! {

/// A name that begins with a dot.
pub open spec fn is_hidden(part: Seq<char>) -> bool {
    part.len() > 0 && part[0] == '.'
}

/// The file of a change is the business of a repository's index: the repository is the first
/// that the file lies in, its place is known, the file is neither hidden nor a leftover of a
/// merge nor ignored by git, and the index filter names the file, is not in force, or has the
/// file in the index already.
pub open spec fn is_followed(
    state: EngineText,
    c: SeenText,
    repos: Seq<PlaceText>,
    i: int,
) -> bool {
    &&& !is_manifest_name(c.place.path)
    &&& 0 <= i < repos.len()
    &&& is_within(c.place, repos[i])
    &&& forall|j: int| 0 <= j < i ==> !is_within(c.place, #[trigger] repos[j])
    &&& repos[i].canonical is Some
    &&& !c.git_ignored
    &&& !is_merge_leftover(c.place.path)
    &&& forall|j: int|
        0 <= j < components_of(relative_spec(c.place.path, repos[i].path)).len()
            ==> !is_hidden(#[trigger] components_of(relative_spec(c.place.path, repos[i].path))[j])
    &&& !c.index_filtered || scope_names(
        c.rules,
        relative_spec(c.place.path, repos[i].path),
        c.place.path,
    ) || exists|k: int|
        0 <= k < state.files.len() && (#[trigger] state.files[k]).path == c.place.path
}

proof fn lemma_no_part_is_hidden(parts: Seq<Seq<char>>)
    requires
        forall|j: int| 0 <= j < parts.len() ==> !is_hidden(#[trigger] parts[j]),
    ensures
        forall|j: int| 0 <= j < parts.len() ==> !"."@.is_prefix_of(#[trigger] parts[j]),
{
    reveal_strlit(".");
    assert forall|j: int| 0 <= j < parts.len() implies !"."@.is_prefix_of(#[trigger] parts[j]) by {
        if "."@.is_prefix_of(parts[j]) {
            assert(parts[j][0] == "."@[0]);
            assert(is_hidden(parts[j]));
        }
    }
}

proof fn lemma_first_owner(p: PathText, repos: Seq<PlaceText>, i: int)
    requires
        0 <= i < repos.len(),
        is_within(p, repos[i]),
        forall|j: int| 0 <= j < i ==> !is_within(p, #[trigger] repos[j]),
    ensures
        owner(p, repos) == Some(i),
    decreases repos.len(),
{
    let front = repos.drop_last();
    if i < front.len() {
        assert(front[i] == repos[i]);
        assert forall|j: int| 0 <= j < i implies !is_within(p, #[trigger] front[j]) by {
            assert(front[j] == repos[j]);
        }
        lemma_first_owner(p, front, i);
    } else {
        lemma_no_owner(p, front);
    }
}

proof fn lemma_no_owner(p: PathText, repos: Seq<PlaceText>)
    requires
        forall|j: int| 0 <= j < repos.len() ==> !is_within(p, #[trigger] repos[j]),
    ensures
        owner(p, repos) is None,
    decreases repos.len(),
{
    if repos.len() > 0 {
        let front = repos.drop_last();
        assert forall|j: int| 0 <= j < front.len() implies !is_within(p, #[trigger] front[j]) by {
            assert(front[j] == repos[j]);
        }
        lemma_no_owner(p, front);
        assert(!is_within(p, repos[repos.len() - 1]));
    }
}

proof fn lemma_cached_is_found(files: Seq<CachedText>, path: Seq<char>)
    ensures
        file_index(files, path) is Some <==> exists|k: int|
            0 <= k < files.len() && (#[trigger] files[k]).path == path,
    decreases files.len(),
{
    if files.len() > 0 {
        let front = files.drop_last();
        lemma_cached_is_found(front, path);
        if exists|k: int| 0 <= k < front.len() && (#[trigger] front[k]).path == path {
            let k = choose|k: int| 0 <= k < front.len() && (#[trigger] front[k]).path == path;
            assert(files[k].path == path);
        }
        if exists|k: int| 0 <= k < files.len() && (#[trigger] files[k]).path == path {
            let k = choose|k: int| 0 <= k < files.len() && (#[trigger] files[k]).path == path;
            if k < front.len() {
                assert(front[k].path == path);
            }
        }
        if files.last().path == path {
            assert(files[files.len() - 1].path == path);
        }
    }
}

/// A deleted file leaves the index, whatever its language: no symbol of its repository names
/// it any more, the file cache has no entry for it, and the change counts as one.
pub proof fn law_a_deleted_file_is_gone(
    state: EngineText,
    c: SeenText,
    repos: Seq<PlaceText>,
    i: int,
    account: AccountText,
)
    requires
        state.wf(),
        is_followed(state, c, repos, i),
        c.change == ChangeType::Deleted,
    ensures
        ({
            let after = change_step(state, account, c, repos);
            let rel = relative_spec(c.place.path, repos[i].path);
            &&& forall|k: int|
                0 <= k < after.0.files.len() ==> (#[trigger] after.0.files[k]).path != c.place.path
            &&& symbols_of(after.0.repos, repos[i].canonical->0) matches Some(table) ==> forall|
                k: int,
            |
                0 <= k < table.len() ==> (#[trigger] table[k]).file_path != rel
            &&& account.count < usize::MAX ==> after.1.count == account.count + 1
        }),
{
    lemma_first_owner(c.place, repos, i);
    lemma_no_part_is_hidden(components_of(relative_spec(c.place.path, repos[i].path)));
    lemma_cached_is_found(state.files, c.place.path);
    let after = change_step(state, account, c, repos).0;
    let rel = relative_spec(c.place.path, repos[i].path);
    let key = repos[i].canonical->0;
    let kept = |f: CachedText| f.path != c.place.path;
    assert(after.files == state.files.filter(kept));
    lemma_filtered_are_members(state.files, kept);
    lemma_table_after(state, key);
    match repo_index(state.repos, key) {
        Some(r) => {
            let others = |s: SymbolText| s.file_path != rel;
            lemma_filtered_are_members(state.repos[r].symbols, others);
            let item = IndexedText {
                symbols: state.repos[r].symbols.filter(others),
                ..state.repos[r]
            };
            lemma_put_repo(state.repos, item);
            assert(put_repo(state.repos, item) == state.repos.update(r, item));
        },
        None => {},
    }
}

proof fn lemma_table_after(state: EngineText, key: Seq<char>)
    ensures
        repo_index(state.repos, key) matches Some(i) ==> 0 <= i < state.repos.len()
            && state.repos[i].key == key,
{
    lemma_repo_index(state.repos, key);
}

/// A deletion takes nothing else: a symbol of another file stays in its table, and another
/// file stays in the cache.
pub proof fn law_a_deletion_takes_nothing_else(
    state: EngineText,
    c: SeenText,
    repos: Seq<PlaceText>,
    i: int,
    account: AccountText,
    symbol: SymbolText,
    file: CachedText,
)
    requires
        state.wf(),
        is_followed(state, c, repos, i),
        c.change == ChangeType::Deleted,
        symbol.file_path != relative_spec(c.place.path, repos[i].path),
        file.path != c.place.path,
    ensures
        ({
            let after = change_step(state, account, c, repos).0;
            let key = repos[i].canonical->0;
            &&& state.files.contains(file) ==> after.files.contains(file)
            &&& (symbols_of(state.repos, key) matches Some(table) && table.contains(symbol)) ==> (
            symbols_of(after.repos, key) matches Some(table) && table.contains(symbol))
        }),
{
    lemma_first_owner(c.place, repos, i);
    lemma_no_part_is_hidden(components_of(relative_spec(c.place.path, repos[i].path)));
    lemma_cached_is_found(state.files, c.place.path);
    let rel = relative_spec(c.place.path, repos[i].path);
    let key = repos[i].canonical->0;
    let kept = |f: CachedText| f.path != c.place.path;
    if state.files.contains(file) {
        lemma_filter_members(state.files, kept, file);
    }
    lemma_table_after(state, key);
    match repo_index(state.repos, key) {
        Some(r) => {
            let others = |s: SymbolText| s.file_path != rel;
            let item = IndexedText {
                symbols: state.repos[r].symbols.filter(others),
                ..state.repos[r]
            };
            lemma_put_repo(state.repos, item);
            assert(put_repo(state.repos, item) == state.repos.update(r, item));
            if state.repos[r].symbols.contains(symbol) {
                lemma_filter_members(state.repos[r].symbols, others, symbol);
            }
        },
        None => {},
    }
}

/// A created or edited file that parses is answered from as it now is: the cache holds its new
/// content, what its repository's table held of it is gone, and without servers' reports the
/// table holds the symbols that were parsed, under the file's relative path.
pub proof fn law_an_edited_file_is_answered_from(
    state: EngineText,
    c: SeenText,
    repos: Seq<PlaceText>,
    i: int,
    account: AccountText,
)
    requires
        state.wf(),
        is_followed(state, c, repos, i),
        c.change != ChangeType::Deleted,
        c.parsed is Some,
    ensures
        ({
            let after = change_step(state, account, c, repos);
            let p = c.parsed->0;
            let rel = relative_spec(c.place.path, repos[i].path);
            let key = repos[i].canonical->0;
            &&& after.0.files.contains(p.file)
            &&& account.count < usize::MAX ==> after.1.count == account.count + 1
            &&& p.reports.len() == 0 && symbols_of(state.repos, key) is Some ==> (symbols_of(
                after.0.repos,
                key,
            ) matches Some(table) && (forall|k: int|
                0 <= k < p.symbols.len() ==> table.contains(
                    SymbolText { file_path: rel, ..#[trigger] p.symbols[k] },
                )) && (forall|s: SymbolText| #[trigger]
                table.contains(s) && s.file_path == rel ==> exists|k: int|
                    0 <= k < p.symbols.len() && s == (SymbolText {
                        file_path: rel,
                        ..#[trigger] p.symbols[k]
                    })))
        }),
{
    lemma_first_owner(c.place, repos, i);
    lemma_no_part_is_hidden(components_of(relative_spec(c.place.path, repos[i].path)));
    lemma_cached_is_found(state.files, c.place.path);
    let after = change_step(state, account, c, repos).0;
    let p = c.parsed->0;
    let rel = relative_spec(c.place.path, repos[i].path);
    let key = repos[i].canonical->0;
    lemma_put_file(state.files, p.file);
    lemma_table_after(state, key);
    match repo_index(state.repos, key) {
        Some(r) => {
            let others = |s: SymbolText| s.file_path != rel;
            let own = crate::watch::changed_symbols(p, rel);
            let kept = state.repos[r].symbols.filter(others);
            let item = IndexedText { symbols: kept + own, ..state.repos[r] };
            lemma_put_repo(state.repos, item);
            assert(put_repo(state.repos, item) == state.repos.update(r, item));
            if p.reports.len() == 0 {
                assert(own == placed(p.symbols, rel));
                assert forall|k: int| 0 <= k < p.symbols.len() implies (kept + own).contains(
                    SymbolText { file_path: rel, ..#[trigger] p.symbols[k] },
                ) by {
                    assert((kept + own)[kept.len() + k] == own[k]);
                }
                lemma_filtered_are_members(state.repos[r].symbols, others);
                assert forall|s: SymbolText| #[trigger]
                    (kept + own).contains(s) && s.file_path == rel implies exists|k: int|
                    0 <= k < p.symbols.len() && s == (SymbolText {
                        file_path: rel,
                        ..#[trigger] p.symbols[k]
                    }) by {
                    let j = choose|j: int| 0 <= j < (kept + own).len() && (kept + own)[j] == s;
                    if j < kept.len() {
                        assert(kept[j] == s);
                        assert(others(kept[j]));
                    } else {
                        let k = j - kept.len();
                        assert(own[k] == s);
                        assert(p.symbols[k] == p.symbols[k]);
                    }
                }
            }
        },
        None => {},
    }
}

proof fn lemma_put_file(files: Seq<CachedText>, file: CachedText)
    ensures
        crate::engine::put_file(files, file).contains(file),
{
    match file_index(files, file.path) {
        Some(i) => {
            lemma_file_index_in(files, file.path);
            assert(files.update(i, file)[i] == file);
        },
        None => {
            assert(files.push(file)[files.len() as int] == file);
        },
    }
}

proof fn lemma_file_index_in(files: Seq<CachedText>, path: Seq<char>)
    ensures
        file_index(files, path) matches Some(i) ==> 0 <= i < files.len() && files[i].path == path,
    decreases files.len(),
{
    if files.len() > 0 {
        lemma_file_index_in(files.drop_last(), path);
    }
}

/// A change that is no repository's business leaves the index as it was.
pub proof fn law_a_foreign_change_changes_nothing(
    state: EngineText,
    c: SeenText,
    repos: Seq<PlaceText>,
    account: AccountText,
)
    requires
        forall|j: int| 0 <= j < repos.len() ==> !is_within(c.place, #[trigger] repos[j]),
    ensures
        change_step(state, account, c, repos) == (state, account),
{
    lemma_no_owner(c.place, repos);
}

/// A file that the rules ignore leaves the index and the account as they were.
pub proof fn law_an_ignored_change_changes_nothing(
    state: EngineText,
    c: SeenText,
    repos: Seq<PlaceText>,
    account: AccountText,
)
    requires
        c.git_ignored,
    ensures
        change_step(state, account, c, repos) == (state, account),
{
}

/// A file lies in a repository where its path does; one that is reached through a link lies where
/// the link leads, and one that is gone where its directory does.
pub proof fn law_when_a_file_lies_in_a_repo(p: PathText, repo: PlaceText)
    ensures
        is_under(p.path, repo.path) ==> is_within(p, repo),
        !is_under(p.path, repo.path) && repo.canonical is None ==> !is_within(p, repo),
        !is_under(p.path, repo.path) && repo.canonical is Some && p.canonical is Some ==> (is_within(
            p,
            repo,
        ) <==> is_under(p.canonical->0, repo.canonical->0)),
        !is_under(p.path, repo.path) && repo.canonical is Some && p.canonical is None
            && p.parent_canonical is Some ==> (is_within(p, repo) <==> is_under(
            p.parent_canonical->0,
            repo.canonical->0,
        )),
        !is_under(p.path, repo.path) && p.canonical is None && p.parent_canonical is None
            ==> !is_within(p, repo),
{
}

proof fn lemma_what_was_put_is_found<T>(table: Seq<(Seq<char>, T)>, key: Seq<char>, value: T)
    ensures
        table_get(table_put(table, key, value), key) == Some(value),
{
    let other = key.push('x');
    assert(other.len() != key.len());
    law_table_get_after_put(table, key, value, other);
}

/// A change of a C or C++ file leaves the file to the tag database; a change of any other file
/// leaves what is to be tagged alone.
pub proof fn law_changed_cxx_files_are_tagged_anew(
    state: EngineText,
    c: SeenText,
    repos: Seq<PlaceText>,
    i: int,
    account: AccountText,
)
    requires
        is_followed(state, c, repos, i),
    ensures
        ({
            let after = change_step(state, account, c, repos).1;
            let language = get_language_from_path_spec(c.place.path);
            &&& language == "c"@ || language == "cpp"@ ==> (table_get(after.dirty, repos[i].path)
                matches Some(files) && files.contains(c.place.path))
            &&& language != "c"@ && language != "cpp"@ ==> after.dirty == account.dirty
        }),
{
    lemma_first_owner(c.place, repos, i);
    lemma_no_part_is_hidden(components_of(relative_spec(c.place.path, repos[i].path)));
    lemma_cached_is_found(state.files, c.place.path);
    let before = match table_get(account.dirty, repos[i].path) {
        Some(f) => f,
        None => Seq::empty(),
    };
    let files = before.push(c.place.path);
    assert(files[files.len() - 1] == c.place.path);
    lemma_what_was_put_is_found(account.dirty, repos[i].path, files);
}

/// What was written or deleted is waiting to be saved, under its repository.
pub proof fn law_changes_wait_to_be_saved(
    state: EngineText,
    c: SeenText,
    repos: Seq<PlaceText>,
    i: int,
    account: AccountText,
)
    requires
        is_followed(state, c, repos, i),
    ensures
        ({
            let after = change_step(state, account, c, repos).1;
            let key = repos[i].canonical->0;
            &&& c.change == ChangeType::Deleted ==> (table_get(after.pending, key) matches Some(
                p,
            ) && p.deletes.contains(c.place.path))
            &&& c.change != ChangeType::Deleted && c.parsed is Some ==> (table_get(
                after.pending,
                key,
            ) matches Some(p) && p.upserts.contains(c.place.path))
        }),
{
    lemma_first_owner(c.place, repos, i);
    lemma_no_part_is_hidden(components_of(relative_spec(c.place.path, repos[i].path)));
    lemma_cached_is_found(state.files, c.place.path);
    let key = repos[i].canonical->0;
    let p = pending_of(account.pending, key);
    let path = c.place.path;
    let deleted = PendingText { deletes: p.deletes.push(path), ..p };
    let written = PendingText { upserts: p.upserts.push(path), ..p };
    assert(deleted.deletes[deleted.deletes.len() - 1] == path);
    assert(written.upserts[written.upserts.len() - 1] == path);
    lemma_what_was_put_is_found(account.pending, key, deleted);
    lemma_what_was_put_is_found(account.pending, key, written);
}

/// A change of a compile manifest is told apart from any other, and leaves the index as it is.
pub proof fn law_a_changed_manifest_is_told_apart(
    state: EngineText,
    c: SeenText,
    repos: Seq<PlaceText>,
    account: AccountText,
)
    ensures
        manifest_of(state, c, repos) is Some <==> file_name_spec(c.place.path) == Some(
            "compile_commands.json"@,
        ),
        file_name_spec(c.place.path) == Some("compile_commands.json"@) ==> change_step(
            state,
            account,
            c,
            repos,
        ).0 == state,
{
}

/// It is that of the first repository that uses it or that it lies in.
pub proof fn law_whose_manifest_changed(p: PathText, repos: Seq<PlaceText>, i: int)
    requires
        0 <= i < repos.len(),
        is_manifest_of(p, repos[i]) || is_within(p, repos[i]),
        forall|j: int|
            0 <= j < i ==> !is_manifest_of(p, #[trigger] repos[j]) && !is_within(p, repos[j]),
    ensures
        manifest_owner(p, repos) == Some(i),
    decreases repos.len(),
{
    let front = repos.drop_last();
    if i < front.len() {
        assert(front[i] == repos[i]);
        assert forall|j: int| 0 <= j < i implies !is_manifest_of(p, #[trigger] front[j])
            && !is_within(p, front[j]) by {
            assert(front[j] == repos[j]);
        }
        law_whose_manifest_changed(p, front, i);
    } else {
        assert forall|j: int| 0 <= j < front.len() implies !is_manifest_of(p, #[trigger] front[j])
            && !is_within(p, front[j]) by {
            assert(front[j] == repos[j]);
        }
        lemma_no_manifest_owner(p, front);
    }
}

proof fn lemma_no_manifest_owner(p: PathText, repos: Seq<PlaceText>)
    requires
        forall|j: int|
            0 <= j < repos.len() ==> !is_manifest_of(p, #[trigger] repos[j]) && !is_within(
                p,
                repos[j],
            ),
    ensures
        manifest_owner(p, repos) is None,
    decreases repos.len(),
{
    if repos.len() > 0 {
        let front = repos.drop_last();
        assert forall|j: int| 0 <= j < front.len() implies !is_manifest_of(p, #[trigger] front[j])
            && !is_within(p, front[j]) by {
            assert(front[j] == repos[j]);
        }
        lemma_no_manifest_owner(p, front);
        assert(!is_manifest_of(p, repos[repos.len() - 1]));
    }
}

/// Every repository that a changed file lies in is named among those that changed.
pub proof fn law_every_changed_repo_is_named(
    paths: Seq<PathText>,
    repos: Seq<PlaceText>,
    k: int,
    i: int,
)
    requires
        0 <= k < paths.len(),
        0 <= i < repos.len(),
        is_within(paths[k], repos[i]),
        forall|j: int| 0 <= j < i ==> !is_within(paths[k], #[trigger] repos[j]),
        repos[i].canonical is Some,
    ensures
        change_keys(paths, repos).contains(repos[i].canonical->0),
    decreases paths.len(),
{
    let key = repos[i].canonical->0;
    let front = change_keys(paths.drop_last(), repos);
    let all = change_keys(paths, repos);
    if k == paths.len() - 1 {
        lemma_first_owner(paths[k], repos, i);
        assert(all[all.len() - 1] == key);
    } else {
        assert(paths.drop_last()[k] == paths[k]);
        law_every_changed_repo_is_named(paths.drop_last(), repos, k, i);
        let m = choose|m: int| 0 <= m < front.len() && front[m] == key;
        assert(all[m] == key);
    }
}

} // verus!
