//! Which files are indexed, when an index is current, and what a run comes to.

use vstd::prelude::*;

use crate::backends::{
    call_graph_step_spec, enabled_backends, gtags_intended, lsp_applies, must_save, watch_refresh,
    CallGraphStep, RefreshStep, RepoInitText,
};
use crate::batch::{
    add_file, batch_of, content_hash, count_file, language_index, placed, prior_for, tag_symbols,
    BatchText, ContextText, CxxFileText, LanguageStats, ParsedText,
};
use crate::engine::EngineText;
use crate::freshness::{changed_sources, fingerprint_holds, manifest_paths};
use crate::indexing::{
    after_filter, c_source_count, covered_count, is_c_source, manifest_dropped, manifest_use,
    selected_files, walked, COMPILE_COMMANDS_MIN_CXX_SOURCES, ManifestUse, SelectionText,
};
use crate::languages::is_cxx_language_spec;
use crate::laws::lists::lemma_filter_members;
use crate::paths::relative_spec;
use crate::run::{after_run, files_put, run_symbols, QueuedText, RunFacts};
use crate::scope::{glob_matches, glob_valid, is_merge_leftover, scope_names, scope_rules};
use crate::search::CachedText;
use crate::settings::BackendIntent;
use crate::symbols::{SourceSet, SymbolText};
use crate::text::lines_of;

verus! {

// ---- which files ----

/// The filter names a file.
pub open spec fn names(s: SelectionText, file: Seq<char>) -> bool {
    scope_names(s.rules, relative_spec(file, s.root), file)
}

/// Where the filter names no file of a repository and no manifest is used, every file that was
/// walked is indexed but the leftovers of merges, and no other.
pub proof fn law_without_a_filter_everything_is_indexed(
    s: SelectionText,
    walk: Seq<Seq<char>>,
    file: Seq<char>,
)
    requires
        !s.use_compile_commands,
        forall|i: int| 0 <= i < walk.len() ==> !names(s, #[trigger] walk[i]),
    ensures
        selected_files(s, walk).contains(file) <==> walk.contains(file) && !is_merge_leftover(file),
{
    let pred = |f: Seq<char>| !is_merge_leftover(f);
    lemma_filter_members(walk, pred, file);
    let files = walked(walk);
    assert forall|i: int| 0 <= i < files.len() implies !crate::indexing::filter_names(
        s,
        #[trigger] files[i],
    ) by {
        assert(files.contains(files[i]));
        lemma_filter_members(walk, pred, files[i]);
        let k = choose|k: int| 0 <= k < walk.len() && walk[k] == files[i];
        assert(!names(s, walk[k]));
    }
}

/// Where the filter names some file, what it or the entries to keep name is indexed, and
/// nothing else.
pub proof fn law_a_filter_keeps_what_it_names(
    s: SelectionText,
    walk: Seq<Seq<char>>,
    some: Seq<char>,
    file: Seq<char>,
)
    requires
        !s.use_compile_commands,
        walk.contains(some),
        !is_merge_leftover(some),
        names(s, some),
    ensures
        selected_files(s, walk).contains(file) <==> walk.contains(file) && !is_merge_leftover(file)
            && (names(s, file) || scope_names(
            scope_rules(s.keep_entries),
            relative_spec(file, s.root),
            file,
        )),
{
    let pred = |f: Seq<char>| !is_merge_leftover(f);
    lemma_filter_members(walk, pred, some);
    lemma_filter_members(walk, pred, file);
    let files = walked(walk);
    let k = choose|k: int| 0 <= k < files.len() && files[k] == some;
    assert(crate::indexing::filter_names(s, files[k]));
    let kept = |f: Seq<char>| crate::indexing::passes_filter(s, f);
    lemma_filter_members(files, kept, file);
}

/// A manifest is applied exactly where it is asked for, there are sources enough, and it lists
/// its share of them.
pub proof fn law_when_a_manifest_is_applied(s: SelectionText, files: Seq<Seq<char>>)
    ensures
        manifest_use(s, files) == ManifestUse::Applied <==> s.use_compile_commands
            && c_source_count(files) >= COMPILE_COMMANDS_MIN_CXX_SOURCES && covered_count(s, files)
            * 100 >= c_source_count(files) * s.min_coverage_pct,
{
}

/// An applied manifest takes out the C sources that it does not list, unless they came after
/// it or are to be kept, and nothing else; what it takes out is told.
pub proof fn law_a_manifest_takes_out_unlisted_sources(
    s: SelectionText,
    walk: Seq<Seq<char>>,
    file: Seq<char>,
)
    requires
        manifest_use(s, after_filter(s, walked(walk))) == ManifestUse::Applied,
        after_filter(s, walked(walk)).contains(file),
        !crate::indexing::is_c_header(file),
    ensures
        ({
            let rel = relative_spec(file, s.root);
            let stays = !is_c_source(file) || s.compiled.contains(file) || s.unlisted.contains(rel)
                || exists|i: int|
                0 <= i < s.keep_entries.len() && glob_valid(#[trigger] s.keep_entries[i])
                    && glob_matches(s.keep_entries[i], rel);
            &&& selected_files(s, walk).contains(file) <==> stays
            &&& manifest_dropped(s, walk).contains(file) <==> !stays
        }),
{
    let files = after_filter(s, walked(walk));
    let rel = relative_spec(file, s.root);
    let keep = |f: Seq<char>| crate::indexing::manifest_keeps(s, f);
    let drop = |f: Seq<char>| !crate::indexing::manifest_keeps(s, f);
    lemma_filter_members(files, keep, file);
    lemma_filter_members(files, drop, file);
    let valid = |p: Seq<char>| glob_valid(p);
    let patterns = s.keep_entries.filter(valid);
    assert(crate::scope::some_pattern_matches(patterns, rel) <==> exists|i: int|
        0 <= i < s.keep_entries.len() && glob_valid(#[trigger] s.keep_entries[i]) && glob_matches(
            s.keep_entries[i],
            rel,
        )) by {
        if crate::scope::some_pattern_matches(patterns, rel) {
            let k = choose|k: int| 0 <= k < patterns.len() && glob_matches(
                #[trigger] patterns[k],
                rel,
            );
            assert(patterns.contains(patterns[k]));
            lemma_filter_members(s.keep_entries, valid, patterns[k]);
            let i = choose|i: int| 0 <= i < s.keep_entries.len() && s.keep_entries[i] == patterns[k];
            assert(glob_valid(s.keep_entries[i]));
        }
        if exists|i: int|
            0 <= i < s.keep_entries.len() && glob_valid(#[trigger] s.keep_entries[i])
                && glob_matches(s.keep_entries[i], rel) {
            let i = choose|i: int|
                0 <= i < s.keep_entries.len() && glob_valid(#[trigger] s.keep_entries[i])
                    && glob_matches(s.keep_entries[i], rel);
            assert(s.keep_entries.contains(s.keep_entries[i]));
            lemma_filter_members(s.keep_entries, valid, s.keep_entries[i]);
            let k = choose|k: int| 0 <= k < patterns.len() && patterns[k] == s.keep_entries[i];
            assert(glob_matches(patterns[k], rel));
        }
    }
}

/// What changed since the manifest and counts is the C sources among it.
pub proof fn law_only_changed_c_sources_count(changed: Seq<Seq<char>>, file: Seq<char>)
    ensures
        changed_sources(changed).contains(file) <==> changed.contains(file) && is_c_source(file),
{
    let pred = |f: Seq<char>| is_c_source(f);
    lemma_filter_members(changed, pred, file);
}

// ---- when an index is current ----

/// An index is current only while the commit, the manifest and the logic are what it was built
/// from; any change of one of them makes it stale.
pub proof fn law_any_change_makes_an_index_stale(
    head: Option<Seq<char>>,
    cdb: Option<Seq<char>>,
    logic: u32,
    other_head: Option<Seq<char>>,
    other_cdb: Option<Seq<char>>,
    other_logic: u32,
)
    ensures
        head is Some || cdb is Some ==> fingerprint_holds(head, cdb, logic, logic, head, cdb),
        other_head != head ==> !fingerprint_holds(
            head,
            cdb,
            logic,
            other_logic,
            other_head,
            other_cdb,
        ),
        other_cdb != cdb ==> !fingerprint_holds(
            head,
            cdb,
            logic,
            other_logic,
            other_head,
            other_cdb,
        ),
        other_logic != logic ==> !fingerprint_holds(
            head,
            cdb,
            logic,
            other_logic,
            other_head,
            other_cdb,
        ),
{
}

/// Manifests are looked for at the path that is given, from the repository where it is
/// relative, and otherwise at the top and in the build directory.
pub proof fn law_where_manifests_are_looked_for(repo: Seq<char>, path: Seq<char>)
    requires
        repo.len() > 0,
        repo.last() != '/',
    ensures
        path.len() > 0 && path[0] == '/' ==> manifest_paths(Some(path), repo) == seq![path],
        path.len() > 0 && path[0] != '/' ==> manifest_paths(Some(path), repo) == seq![
            repo + "/"@ + path,
        ],
        manifest_paths(None, repo) == seq![
            repo + "/"@ + "compile_commands.json"@,
            repo + "/"@ + "build/compile_commands.json"@,
        ],
{
    reveal_strlit("compile_commands.json");
    reveal_strlit("build/compile_commands.json");
}

// ---- what a run comes to ----

proof fn lemma_symbols_stay(c: ContextText, b: BatchText, f: ParsedText, s: SymbolText)
    requires
        b.symbols.contains(s),
    ensures
        add_file(c, b, f).symbols.contains(s),
{
    let k = choose|k: int| 0 <= k < b.symbols.len() && b.symbols[k] == s;
    assert(add_file(c, b, f).symbols[k] == s);
}

/// A file that the backends are not asked about is in the index with every symbol that was
/// parsed from it, under its relative path.
pub proof fn law_every_parsed_symbol_is_indexed(
    c: ContextText,
    files: Seq<ParsedText>,
    i: int,
    k: int,
)
    requires
        0 <= i < files.len(),
        0 <= k < files[i].symbols.len(),
        !c.symbols_cached,
        !c.cxx_augment || !is_cxx_language_spec(files[i].language),
    ensures
        batch_of(c, files).symbols.contains(
            SymbolText { file_path: relative_spec(files[i].path, c.root), ..files[i].symbols[k] },
        ),
    decreases files.len(),
{
    let front = files.drop_last();
    let before = batch_of(c, front);
    let rel = relative_spec(files[i].path, c.root);
    let s = SymbolText { file_path: rel, ..files[i].symbols[k] };
    if i < front.len() {
        assert(front[i] == files[i]);
        law_every_parsed_symbol_is_indexed(c, front, i, k);
        lemma_symbols_stay(c, before, files.last(), s);
    } else {
        let own = placed(files[i].symbols, rel);
        assert(own[k] == s);
        assert((before.symbols + own)[before.symbols.len() + k] == s);
    }
}

/// A C or C++ file that changed since the last run is put to the backends with its symbols; one
/// that did not is taken over as it was persisted.
pub proof fn law_changed_cxx_files_are_put_to_the_backends(
    c: ContextText,
    files: Seq<ParsedText>,
    f: ParsedText,
)
    requires
        !c.symbols_cached,
        c.cxx_augment,
        is_cxx_language_spec(f.language),
    ensures
        ({
            let rel = relative_spec(f.path, c.root);
            let before = batch_of(c, files);
            let after = batch_of(c, files.push(f));
            match prior_for(c.prior, rel) {
                Some(p) if p.content_hash == content_hash(f.content) => after.queued
                    == before.queued && after.symbols == before.symbols + p.symbols,
                _ => after.symbols == before.symbols && after.queued == before.queued.push(
                    CxxFileText {
                        abs_path: f.path,
                        relative_path: rel,
                        symbols: placed(f.symbols, rel),
                    },
                ),
            }
        }),
{
    assert(files.push(f).drop_last() =~= files);
}

/// Every file counts once, with its lines.
pub proof fn law_every_file_counts(c: ContextText, files: Seq<ParsedText>, f: ParsedText)
    requires
        batch_of(c, files).file_count < usize::MAX,
        batch_of(c, files).total_lines + lines_of(f.content).len() <= usize::MAX,
    ensures
        batch_of(c, files.push(f)).file_count == batch_of(c, files).file_count + 1,
        batch_of(c, files.push(f)).total_lines == batch_of(c, files).total_lines + lines_of(
            f.content,
        ).len(),
{
    assert(files.push(f).drop_last() =~= files);
}

/// A run over a current index keeps its symbols and adds what was not covered; any other
/// replaces them.
pub proof fn law_a_current_index_only_grows(
    state: EngineText,
    key: Seq<char>,
    b: BatchText,
    answers: Seq<QueuedText>,
    f: RunFacts,
    s: SymbolText,
)
    requires
        state.wf(),
        crate::engine::symbols_of(state.repos, key) is Some,
        crate::engine::symbols_of(state.repos, key)->0.contains(s) || b.late.contains(s),
    ensures
        crate::engine::symbols_of(after_run(state, key, true, b, answers, f).repos, key) matches Some(
            table,
        ) && table.contains(s),
{
    crate::engine::lemma_repo_index(state.repos, key);
    let i = crate::engine::repo_index(state.repos, key)->0;
    let old_table = state.repos[i].symbols;
    let item = crate::engine::IndexedText { symbols: old_table + b.late, ..state.repos[i] };
    crate::engine::lemma_put_repo(state.repos, item);
    assert(crate::engine::put_repo(state.repos, item) == state.repos.update(i, item));
    if old_table.contains(s) {
        let k = choose|k: int| 0 <= k < old_table.len() && old_table[k] == s;
        assert((old_table + b.late)[k] == s);
    } else {
        let k = choose|k: int| 0 <= k < b.late.len() && b.late[k] == s;
        assert((old_table + b.late)[old_table.len() + k] == s);
    }
}

/// The content of every file of a run is kept, the last of several.
pub proof fn law_the_last_content_is_kept(
    files: Seq<CachedText>,
    more: Seq<CachedText>,
    f: CachedText,
)
    ensures
        files_put(files, more.push(f)).contains(f),
{
    assert(more.push(f).drop_last() =~= more);
    let before = files_put(files, more);
    match crate::engine::file_index(before, f.path) {
        Some(i) => {
            lemma_file_index_in(before, f.path);
            assert(before.update(i, f)[i] == f);
        },
        None => {
            assert(before.push(f)[before.len() as int] == f);
        },
    }
}

proof fn lemma_file_index_in(files: Seq<CachedText>, path: Seq<char>)
    ensures
        crate::engine::file_index(files, path) matches Some(i) ==> 0 <= i < files.len()
            && files[i].path == path,
    decreases files.len(),
{
    if files.len() > 0 {
        lemma_file_index_in(files.drop_last(), path);
    }
}

/// The symbols of a run are those that were kept and those that the backends were asked about.
pub proof fn law_a_run_keeps_its_symbols(b: BatchText, answers: Seq<QueuedText>, s: SymbolText)
    requires
        b.symbols.contains(s),
    ensures
        run_symbols(b, answers).contains(s),
{
    let k = choose|k: int| 0 <= k < b.symbols.len() && b.symbols[k] == s;
    assert(run_symbols(b, answers)[k] == s);
}

// ---- which backends ----

/// The servers are used where they are there and wanted; left to themselves, where there is a
/// manifest.
pub proof fn law_when_servers_are_used(manager: bool, intent: BackendIntent, manifest: bool)
    ensures
        lsp_applies(manager, intent, manifest) ==> manager && intent != BackendIntent::Off,
        manager && intent == BackendIntent::On ==> lsp_applies(manager, intent, manifest),
        intent == BackendIntent::Auto ==> lsp_applies(manager, intent, manifest) == (manager
            && manifest),
        gtags_intended(Some(manifest), intent) == manifest,
        gtags_intended(None, intent) == (intent != BackendIntent::Off),
{
}

/// The backends that can confirm a datum: the parser always; for C and C++ also the servers
/// and the tag database, where they are in use.
pub proof fn law_who_can_confirm(cxx: bool, lsp: bool, active: SourceSet, gtags: bool)
    ensures
        enabled_backends(cxx, lsp, active, gtags).tree_sitter,
        enabled_backends(cxx, lsp, active, gtags).clangd == (cxx && lsp && active.clangd),
        enabled_backends(cxx, lsp, active, gtags).ccls == (cxx && lsp && active.ccls),
        enabled_backends(cxx, lsp, active, gtags).gtags == (cxx && (gtags || (lsp
            && active.gtags))),
{
}

/// The call graph is completed by backends only after a fresh run; over a current index the
/// kept edges are restored.
pub proof fn law_how_a_call_graph_is_completed(
    enabled: bool,
    exists_: bool,
    cached: bool,
    kept: usize,
    lsp: bool,
    gtags: bool,
)
    ensures
        call_graph_step_spec(enabled, exists_, cached, kept, lsp, gtags) == CallGraphStep::Augment
            <==> enabled && exists_ && !cached && (lsp || gtags),
        call_graph_step_spec(enabled, exists_, cached, kept, lsp, gtags) == CallGraphStep::Restore
            <==> enabled && exists_ && cached && kept > 0,
{
}

/// An index is saved at the end of the start exactly where something was built that is not on
/// disk.
pub proof fn law_when_the_start_saves(persist: bool, repos: Seq<RepoInitText>)
    ensures
        must_save(persist, repos) <==> persist && exists|i: int|
            0 <= i < repos.len() && (#[trigger] repos[i]).indexed && (!repos[i].from_cache
                || repos[i].fingerprint_stale),
{
    if must_save(persist, repos) {
        let i = choose|i: int|
            0 <= i < repos.len() && crate::backends::needs_saving(#[trigger] repos[i]);
        assert(repos[i].indexed);
    }
    if persist && exists|i: int|
        0 <= i < repos.len() && (#[trigger] repos[i]).indexed && (!repos[i].from_cache
            || repos[i].fingerprint_stale) {
        let i = choose|i: int|
            0 <= i < repos.len() && (#[trigger] repos[i]).indexed && (!repos[i].from_cache
                || repos[i].fingerprint_stale);
        assert(crate::backends::needs_saving(repos[i]));
    }
}

/// An edit refreshes the tag database at most once in five seconds.
pub proof fn law_a_burst_of_edits_refreshes_once(may: bool, program: bool, millis: u64)
    ensures
        millis < 5000 ==> watch_refresh(true, Some(millis), may, program) != RefreshStep::Refresh,
        millis >= 5000 && may && program ==> watch_refresh(true, Some(millis), may, program)
            == RefreshStep::Refresh,
        may && program ==> watch_refresh(true, None, may, program) == RefreshStep::Refresh,
{
}

proof fn lemma_language(list: Seq<(Seq<char>, LanguageStats)>, language: Seq<char>)
    ensures
        match language_index(list, language) {
            Some(i) => 0 <= i < list.len() && list[i].0 == language,
            None => forall|i: int| 0 <= i < list.len() ==> (#[trigger] list[i]).0 != language,
        },
    decreases list.len(),
{
    if list.len() > 0 {
        lemma_language(list.drop_last(), language);
        if language_index(list.drop_last(), language) is None {
            assert forall|i: int| 0 <= i < list.len() - 1 implies (#[trigger] list[i]).0
                != language by {
                assert(list.drop_last()[i] == list[i]);
            }
        }
    }
}

/// Whether an entry is that of the language, with these counts.
pub open spec fn counts(
    e: (Seq<char>, LanguageStats),
    language: Seq<char>,
    files: int,
    lines: int,
) -> bool {
    e.0 == language && e.1.file_count == files && e.1.line_count == lines
}

/// A file counts for its language, with its lines; the other languages keep their counts.
pub proof fn law_a_file_counts_for_its_language(
    list: Seq<(Seq<char>, LanguageStats)>,
    language: Seq<char>,
    lines: usize,
    bytes: usize,
    k: int,
)
    requires
        0 <= k < list.len(),
        list[k].1.file_count < usize::MAX,
        list[k].1.line_count + lines <= usize::MAX,
    ensures
        ({
            let after = count_file(list, language, lines, bytes);
            &&& language_index(list, language) == Some(k) ==> counts(
                after[k],
                language,
                list[k].1.file_count + 1,
                list[k].1.line_count + lines,
            )
            &&& list[k].0 != language ==> after[k] == list[k]
            &&& (forall|i: int| 0 <= i < list.len() ==> (#[trigger] list[i]).0 != language)
                ==> after.len() == list.len() + 1 && counts(after.last(), language, 1, lines as int)
        }),
{
    lemma_language(list, language);
}

/// A file that a current index does not cover is added to it later, with all its symbols; one
/// that it covers adds none.
pub proof fn law_uncovered_files_are_added(
    c: ContextText,
    files: Seq<ParsedText>,
    f: ParsedText,
    k: int,
)
    requires
        c.symbols_cached,
        0 <= k < f.symbols.len(),
    ensures
        ({
            let rel = relative_spec(f.path, c.root);
            let before = batch_of(c, files).late;
            let after = batch_of(c, files.push(f)).late;
            &&& !c.cached_files.contains(rel) ==> after.contains(
                SymbolText { file_path: rel, ..f.symbols[k] },
            )
            &&& c.cached_files.contains(rel) ==> after == before
        }),
{
    assert(files.push(f).drop_last() =~= files);
    let rel = relative_spec(f.path, c.root);
    let before = batch_of(c, files).late;
    let own = placed(f.symbols, rel);
    assert(own[k] == SymbolText { file_path: rel, ..f.symbols[k] });
    if !c.cached_files.contains(rel) {
        assert(batch_of(c, files.push(f)).late == before + own);
        assert((before + own)[before.len() + k] == own[k]);
    }
}

/// Every tag is a symbol at its line, confirmed by the tag database alone.
pub proof fn law_every_tag_is_a_symbol(tags: Seq<(Seq<char>, usize)>, rel: Seq<char>, i: int)
    requires
        0 <= i < tags.len(),
    ensures
        ({
            let s = tag_symbols(tags, rel)[i];
            &&& s.name == tags[i].0
            &&& s.file_path == rel
            &&& s.start_line == tags[i].1
            &&& s.end_line == tags[i].1
            &&& s.confirmed_by.gtags && !s.confirmed_by.clangd && !s.confirmed_by.ccls
                && !s.confirmed_by.tree_sitter
        }),
{
}

} // verus!
