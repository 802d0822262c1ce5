//! When the language servers, the tag database and the call graph come into play.

use vstd::prelude::*;

use crate::engine::{law_progress_is_of_configured_repos, CodeIntelEngine, EngineText};
use crate::indexing::{is_c_header, is_c_source, GTAGS_GENERATE_MAX_FILES};
use crate::languages::{is_c_header_ext, is_c_source_ext, is_c_source_ext_spec};
use crate::paths::{components, components_of, ext_of, ext_or_empty};
use crate::registry::lemma_same_shape;
use crate::scope::{
    is_merge_conflict_artifact, is_merge_leftover, rule_texts, scope_matches, scope_names,
    ScopeRule,
};
use crate::settings::BackendIntent;
use crate::symbols::SourceSet;
use crate::text::{starts_with, texts};

verus! {

/// Seconds within which a second refresh of a tag database is skipped.
pub const GTAGS_REFRESH_DEBOUNCE_SECS: u64 = 5;

// ---- per-repository switches ----

/// Language servers augment a repository where the manager runs and the intent is on, or
/// left open and the repository ships a build manifest.
pub open spec fn lsp_applies(manager_enabled: bool, intent: BackendIntent, manifest: bool) -> bool {
    manager_enabled && match intent {
        BackendIntent::On => true,
        BackendIntent::Off => false,
        BackendIntent::Auto => manifest,
    }
}

pub fn lsp_repo_enabled(manager_enabled: bool, intent: BackendIntent, manifest: bool) -> (r: bool)
    ensures
        r == lsp_applies(manager_enabled, intent, manifest),
{
    manager_enabled && match intent {
        BackendIntent::On => true,
        BackendIntent::Off => false,
        BackendIntent::Auto => manifest,
    }
}

/// A repository's own switch goes before the global intent.
pub open spec fn gtags_intended(own: Option<bool>, intent: BackendIntent) -> bool {
    match own {
        Some(enabled) => enabled,
        None => intent != BackendIntent::Off,
    }
}

pub fn gtags_repo_intended(own: Option<bool>, intent: BackendIntent) -> (r: bool)
    ensures
        r == gtags_intended(own, intent),
{
    match own {
        Some(enabled) => enabled,
        None => intent != BackendIntent::Off,
    }
}

pub open spec fn own_flag(own: Option<bool>, global_flag: bool) -> bool {
    match own {
        Some(v) => v,
        None => global_flag,
    }
}

/// Whether the tag database may be generated: the repository's switch, else the global flag.
pub fn gtags_generate_for_repo(own: Option<bool>, global_flag: bool) -> (r: bool)
    ensures
        r == own_flag(own, global_flag),
{
    match own {
        Some(v) => v,
        None => global_flag,
    }
}

/// Tags are used where the manager exists, the repository wants them, and a database is
/// there to ask.
pub fn gtags_repo_enabled(manager: bool, intended: bool, database_exists: bool) -> (r: bool)
    ensures
        r == (manager && intended && database_exists),
        r == tags_used(manager, intended, database_exists),
{
    manager && intended && database_exists
}

/// A tag database is used where it is there, there is a program for it and it is intended.
pub open spec fn tags_used(manager: bool, intended: bool, database_exists: bool) -> bool {
    manager && intended && database_exists
}

pub open spec fn coverage_pct(own: Option<usize>) -> usize {
    match own {
        Some(pct) => pct,
        None => crate::indexing::COMPILE_COMMANDS_DEFAULT_MIN_COVERAGE_PCT,
    }
}

/// The coverage a manifest needs: the repository's own threshold, else the default.
pub fn compile_commands_min_coverage_pct(own: Option<usize>) -> (r: usize)
    ensures
        r == coverage_pct(own),
{
    match own {
        Some(pct) => pct,
        None => crate::indexing::COMPILE_COMMANDS_DEFAULT_MIN_COVERAGE_PCT,
    }
}

/// Whether a file is shown to the language servers. In a repository with files in scope
/// only those that are real sources are.
pub open spec fn lsp_allows(
    disabled: bool,
    repo_scoped: bool,
    in_scope: bool,
    rel: Seq<char>,
) -> bool {
    !disabled && (!repo_scoped || (in_scope && is_c_source_ext_spec(ext_or_empty(rel))))
}

pub fn lsp_augment_allows(
    disabled: bool,
    repo_scoped: bool,
    rules: &[ScopeRule],
    rel: &str,
    abs: &str,
) -> (r: bool)
    ensures
        r == lsp_allows(disabled, repo_scoped, scope_names(rule_texts(rules@), rel@, abs@), rel@),
{
    if disabled {
        return false;
    }
    if !repo_scoped {
        return true;
    }
    let ext = ext_of(rel);
    scope_matches(rules, rel, abs) && is_c_source_ext(ext.as_str())
}

/// The backends that can confirm a datum: tree-sitter always, the others for C and C++
/// where the repository enabled them.
pub open spec fn enabled_backends(
    is_cxx: bool,
    lsp_enabled: bool,
    active: SourceSet,
    gtags_enabled: bool,
) -> SourceSet {
    let base = SourceSet::tree_sitter();
    if !is_cxx {
        base
    } else {
        let with_lsp = if lsp_enabled {
            base.union_spec(active)
        } else {
            base
        };
        if gtags_enabled {
            with_lsp.union_spec(SourceSet::gtags())
        } else {
            with_lsp
        }
    }
}

pub fn enabled_backends_for_repo(
    is_cxx: bool,
    lsp_enabled: bool,
    active: SourceSet,
    gtags_enabled: bool,
) -> (r: SourceSet)
    ensures
        r == enabled_backends(is_cxx, lsp_enabled, active, gtags_enabled),
{
    let mut set = SourceSet::tree_sitter();
    if is_cxx {
        if lsp_enabled {
            set.insert(active);
        }
        if gtags_enabled {
            set.insert(SourceSet::gtags());
        }
    }
    set
}

// ---- the course of an index run ----

/// Whether cached symbols are still good, and whether the last run's may be reused file by
/// file.
#[derive(Debug, Clone, Copy, PartialEq, Eq, Structural)]
pub struct CacheState {
    pub symbols_cached: bool,
    pub load_prior: bool,
}

/// A repository in the cache is taken over where its fingerprint matches; where it does
/// not, its files are rebuilt with what is unchanged reused. One never indexed is built.
pub fn cache_state(was_cached: bool, fingerprint_matches: bool) -> (r: CacheState)
    ensures
        r.symbols_cached == (was_cached && fingerprint_matches),
        r.load_prior == (was_cached && !fingerprint_matches),
        r == cache_state_spec(was_cached, fingerprint_matches),
{
    CacheState {
        symbols_cached: was_cached && fingerprint_matches,
        load_prior: was_cached && !fingerprint_matches,
    }
}

pub open spec fn cache_state_spec(was_cached: bool, fingerprint_matches: bool) -> CacheState {
    CacheState {
        symbols_cached: was_cached && fingerprint_matches,
        load_prior: was_cached && !fingerprint_matches,
    }
}

/// Whether C and C++ symbols wait for a backend pass.
pub fn wants_cxx_augment(
    symbols_cached: bool,
    lsp_manager_enabled: bool,
    lsp_intent: BackendIntent,
    gtags_manager: bool,
    gtags_intent: BackendIntent,
) -> (r: bool)
    ensures
        r == (!symbols_cached && ((lsp_manager_enabled && lsp_intent != BackendIntent::Off) || (
        gtags_manager && gtags_intent != BackendIntent::Off))),
{
    !symbols_cached && ((lsp_manager_enabled && lsp_intent != BackendIntent::Off) || (
    gtags_manager && gtags_intent != BackendIntent::Off))
}

/// Some file is a C or C++ source or header.
pub open spec fn holds_cxx(files: Seq<Seq<char>>) -> bool {
    exists|i: int|
        0 <= i < files.len() && (is_c_source(#[trigger] files[i]) || is_c_header(files[i]))
}

pub fn cxx_present(files: &[String]) -> (r: bool)
    ensures
        r == holds_cxx(texts(files@)),
{
    let ghost all = texts(files@);
    let mut i: usize = 0;
    while i < files.len()
        invariant
            i <= files@.len(),
            all == texts(files@),
            forall|j: int| 0 <= j < i ==> !is_c_source(#[trigger] all[j]) && !is_c_header(all[j]),
        decreases files@.len() - i,
    {
        proof {
            assert(all[i as int] == files@[i as int]@);
        }
        let ext = ext_of(files[i].as_str());
        if is_c_source_ext(ext.as_str()) || is_c_header_ext(ext.as_str()) {
            return true;
        }
        i = i + 1;
    }
    false
}

/// What is done about a tag database that is missing.
#[derive(Debug, Clone, Copy, PartialEq, Eq, Structural)]
pub enum GenerateStep {
    /// Nothing to do, or no means to do it.
    Leave,
    /// The tree is too large to generate one unasked.
    TooLarge,
    Generate,
}

pub open spec fn generate_step(
    cxx: bool,
    may_generate: bool,
    intended: bool,
    database_exists: bool,
    file_count: usize,
    can_generate: bool,
) -> GenerateStep {
    if cxx && may_generate && intended && !database_exists {
        if file_count > GTAGS_GENERATE_MAX_FILES {
            GenerateStep::TooLarge
        } else if can_generate {
            GenerateStep::Generate
        } else {
            GenerateStep::Leave
        }
    } else {
        GenerateStep::Leave
    }
}

/// Decides whether a missing tag database is generated. `can_generate` tells that the
/// program and the manager are there.
pub fn gtags_generate_step(
    cxx: bool,
    may_generate: bool,
    intended: bool,
    database_exists: bool,
    file_count: usize,
    can_generate: bool,
) -> (r: GenerateStep)
    ensures
        r == generate_step(
            cxx,
            may_generate,
            intended,
            database_exists,
            file_count,
            can_generate,
        ),
{
    if cxx && may_generate && intended && !database_exists {
        if file_count > GTAGS_GENERATE_MAX_FILES {
            GenerateStep::TooLarge
        } else if can_generate {
            GenerateStep::Generate
        } else {
            GenerateStep::Leave
        }
    } else {
        GenerateStep::Leave
    }
}

/// What is done about a tag database that is older than the sources.
#[derive(Debug, Clone, Copy, PartialEq, Eq, Structural)]
pub enum RefreshStep {
    Leave,
    Refresh,
    /// It may not be rewritten, or the program is missing: its line numbers have drifted.
    Warn,
    /// Refreshed a moment ago.
    Debounced,
}

/// Decides whether a stale tag database is refreshed before the backends are asked.
pub fn gtags_refresh_step(
    cxx: bool,
    intended: bool,
    database_exists: bool,
    stale: bool,
    may_generate: bool,
    program_present: bool,
) -> (r: RefreshStep)
    ensures
        r == (if cxx && intended && database_exists && stale {
            if may_generate && program_present {
                RefreshStep::Refresh
            } else {
                RefreshStep::Warn
            }
        } else {
            RefreshStep::Leave
        }),
        r == refresh_step(cxx, intended, database_exists, stale, may_generate, program_present),
{
    if cxx && intended && database_exists && stale {
        if may_generate && program_present {
            RefreshStep::Refresh
        } else {
            RefreshStep::Warn
        }
    } else {
        RefreshStep::Leave
    }
}

pub open spec fn refresh_step(
    cxx: bool,
    intended: bool,
    database_exists: bool,
    stale: bool,
    may_generate: bool,
    program_present: bool,
) -> RefreshStep {
    if cxx && intended && database_exists && stale {
        if may_generate && program_present {
            RefreshStep::Refresh
        } else {
            RefreshStep::Warn
        }
    } else {
        RefreshStep::Leave
    }
}

pub open spec fn watch_refresh(
    enabled: bool,
    millis_since_last: Option<u64>,
    may_generate: bool,
    program_present: bool,
) -> RefreshStep {
    if !enabled {
        RefreshStep::Leave
    } else if millis_since_last matches Some(ms) && ms < GTAGS_REFRESH_DEBOUNCE_SECS * 1000 {
        RefreshStep::Debounced
    } else if may_generate && program_present {
        RefreshStep::Refresh
    } else {
        RefreshStep::Warn
    }
}

/// Decides whether an edit seen by the watcher refreshes the tag database. A burst of edits
/// refreshes it once.
pub fn refresh_gtags_if_active(
    enabled: bool,
    millis_since_last: Option<u64>,
    may_generate: bool,
    program_present: bool,
) -> (r: RefreshStep)
    ensures
        r == watch_refresh(enabled, millis_since_last, may_generate, program_present),
{
    if !enabled {
        return RefreshStep::Leave;
    }
    match millis_since_last {
        Some(ms) => {
            if ms < GTAGS_REFRESH_DEBOUNCE_SECS * 1000 {
                return RefreshStep::Debounced;
            }
        },
        None => {},
    }
    if may_generate && program_present {
        RefreshStep::Refresh
    } else {
        RefreshStep::Warn
    }
}

/// What completes the call graph once the parsed files are in it.
#[derive(Debug, Clone, Copy, PartialEq, Eq, Structural)]
pub enum CallGraphStep {
    Leave,
    /// Replay the edges persisted by the last run.
    Restore,
    /// Ask the C and C++ backends for edges.
    Augment,
}

pub open spec fn call_graph_step_spec(
    enabled: bool,
    graph_exists: bool,
    symbols_cached: bool,
    restored_edges: usize,
    lsp: bool,
    gtags: bool,
) -> CallGraphStep {
    if !enabled || !graph_exists {
        CallGraphStep::Leave
    } else if symbols_cached {
        if restored_edges > 0 {
            CallGraphStep::Restore
        } else {
            CallGraphStep::Leave
        }
    } else if lsp || gtags {
        CallGraphStep::Augment
    } else {
        CallGraphStep::Leave
    }
}

/// A repository taken over from the cache replays its edges instead of asking the backends
/// again.
pub fn call_graph_step(
    enabled: bool,
    graph_exists: bool,
    symbols_cached: bool,
    restored_edges: usize,
    lsp: bool,
    gtags: bool,
) -> (r: CallGraphStep)
    ensures
        r == call_graph_step_spec(
            enabled,
            graph_exists,
            symbols_cached,
            restored_edges,
            lsp,
            gtags,
        ),
{
    if !enabled || !graph_exists {
        CallGraphStep::Leave
    } else if symbols_cached {
        if restored_edges > 0 {
            CallGraphStep::Restore
        } else {
            CallGraphStep::Leave
        }
    } else if lsp || gtags {
        CallGraphStep::Augment
    } else {
        CallGraphStep::Leave
    }
}

// ---- what the watcher passes over ----

/// Some component of the path starts with a dot.
pub open spec fn has_hidden_part(rel: Seq<char>) -> bool {
    exists|i: int|
        0 <= i < components_of(rel).len() && "."@.is_prefix_of(#[trigger] components_of(rel)[i])
}

/// The indexer would never have indexed the file: hidden, a merge leftover, or ignored by
/// git.
pub open spec fn is_ignored(rel: Seq<char>, abs: Seq<char>, git_ignored: bool) -> bool {
    has_hidden_part(rel) || is_merge_leftover(abs) || git_ignored
}

/// Whether a changed file is none of the index's business. `git_ignored` is what the
/// repository's ignore rules say of it.
pub fn is_ignored_for_index(rel: &str, abs: &str, git_ignored: bool) -> (r: bool)
    ensures
        r == is_ignored(rel@, abs@, git_ignored),
{
    let parts = components(rel);
    let ghost all = components_of(rel@);
    let mut i: usize = 0;
    while i < parts.len()
        invariant
            i <= parts@.len(),
            all == components_of(rel@),
            texts(parts@) == all,
            forall|j: int| 0 <= j < i ==> !"."@.is_prefix_of(#[trigger] all[j]),
        decreases parts@.len() - i,
    {
        proof {
            assert(all[i as int] == parts@[i as int]@);
            assert(all.len() == parts@.len());
        }
        if starts_with(parts[i].as_str(), ".") {
            return true;
        }
        i = i + 1;
    }
    proof {
        assert(all.len() == parts@.len());
    }
    is_merge_conflict_artifact(abs) || git_ignored
}

// ---- start-up ----

/// How the start-up index of one repository went.
#[derive(Debug)]
pub struct RepoInit {
    pub key: String,
    pub from_cache: bool,
    pub fingerprint_stale: bool,
    /// The path existed and indexing it succeeded.
    pub indexed: bool,
}

pub struct RepoInitText {
    pub key: Seq<char>,
    pub from_cache: bool,
    pub fingerprint_stale: bool,
    pub indexed: bool,
}

impl View for RepoInit {
    type V = RepoInitText;

    open spec fn view(&self) -> RepoInitText {
        RepoInitText {
            key: self.key@,
            from_cache: self.from_cache,
            fingerprint_stale: self.fingerprint_stale,
            indexed: self.indexed,
        }
    }
}

pub open spec fn init_texts(v: Seq<RepoInit>) -> Seq<RepoInitText> {
    v.map_values(|r: RepoInit| r@)
}

/// The repository is new to the store, or was rebuilt: it has to be written back.
pub open spec fn needs_saving(r: RepoInitText) -> bool {
    r.indexed && (!r.from_cache || r.fingerprint_stale)
}

pub open spec fn must_save(persist: bool, repos: Seq<RepoInitText>) -> bool {
    persist && exists|i: int| 0 <= i < repos.len() && needs_saving(#[trigger] repos[i])
}

/// The engine once the first pass has been over some repositories: those it indexed count.
pub open spec fn first_pass(state: EngineText, repos: Seq<RepoInitText>) -> EngineText
    decreases repos.len(),
{
    if repos.len() == 0 {
        state
    } else {
        let before = first_pass(state, repos.drop_last());
        if repos.last().indexed {
            before.passed(repos.last().key)
        } else {
            before
        }
    }
}

impl CodeIntelEngine {
    /// Ends start-up: each repository the pass indexed counts, and from now on the tools that
    /// wait for start-up answer. Tells whether the store has to be rewritten. Once start-up is
    /// over nothing happens.
    pub fn complete_initialization(&mut self, repos: &[RepoInit]) -> (r: bool)
        requires
            old(self)@.wf(),
        ensures
            final(self)@.wf(),
            final(self).options == old(self).options,
            final(self)@ == if old(self)@.initialized {
                old(self)@
            } else {
                EngineText { initialized: true, ..first_pass(old(self)@, init_texts(repos@)) }
            },
            r == (!old(self)@.initialized && must_save(
                old(self).options.persist_enabled,
                init_texts(repos@),
            )),
    {
        if self.is_fully_initialized() {
            return false;
        }
        let ghost start = self@;
        let ghost all = init_texts(repos@);
        let mut dirty = false;
        let mut i: usize = 0;
        proof {
            assert(all.take(0) =~= Seq::<RepoInitText>::empty());
        }
        while i < repos.len()
            invariant
                i <= repos@.len(),
                all == init_texts(repos@),
                self@.wf(),
                self.options == old(self).options,
                self@ == first_pass(start, all.take(i as int)),
                dirty == exists|j: int| 0 <= j < i && needs_saving(#[trigger] all[j]),
            decreases repos@.len() - i,
        {
            proof {
                assert(all.take(i + 1).drop_last() =~= all.take(i as int));
                assert(all.take(i + 1).last() == repos@[i as int]@);
                assert(all[i as int] == repos@[i as int]@);
            }
            if repos[i].indexed {
                self.repo_initialized(repos[i].key.as_str());
                if !repos[i].from_cache || repos[i].fingerprint_stale {
                    proof {
                        assert(needs_saving(all[i as int]));
                    }
                    dirty = true;
                }
            }
            i = i + 1;
        }
        proof {
            assert(all.take(all.len() as int) =~= all);
        }
        self.finish_initialization();
        self.options.persist_enabled && dirty
    }
}

proof fn lemma_first_pass(state: EngineText, repos: Seq<RepoInitText>)
    ensures
        ({
            let after = first_pass(state, repos).registered;
            &&& first_pass(state, repos).repos == state.repos
            &&& after.len() == state.registered.len()
            &&& forall|i: int|
                0 <= i < after.len() ==> (#[trigger] after[i]).path == state.registered[i].path
                    && after[i].origin == state.registered[i].origin && after[i].named
                    == state.registered[i].named && (after[i].passed <==> (
                state.registered[i].passed || exists|k: int|
                    0 <= k < repos.len() && (#[trigger] repos[k]).indexed && repos[k].key
                        == state.registered[i].path))
        }),
    decreases repos.len(),
{
    if repos.len() > 0 {
        let front = repos.drop_last();
        lemma_first_pass(state, front);
        let before = first_pass(state, front).registered;
        let after = first_pass(state, repos).registered;
        let last = repos.len() - 1;
        assert forall|i: int| 0 <= i < after.len() implies (#[trigger] after[i]).path
            == state.registered[i].path && after[i].origin == state.registered[i].origin
            && after[i].named == state.registered[i].named && (after[i].passed <==> (
        state.registered[i].passed || exists|k: int|
            0 <= k < repos.len() && (#[trigger] repos[k]).indexed && repos[k].key
                == state.registered[i].path)) by {
            assert(before[i].path == state.registered[i].path);
            if before[i].passed && !state.registered[i].passed {
                let k = choose|k: int|
                    0 <= k < front.len() && (#[trigger] front[k]).indexed && front[k].key
                        == state.registered[i].path;
                assert(repos[k].indexed && repos[k].key == state.registered[i].path);
            }
            if repos[last].indexed && repos[last].key == state.registered[i].path {
                assert(after[i].passed);
            }
            if exists|k: int|
                0 <= k < repos.len() && (#[trigger] repos[k]).indexed && repos[k].key
                    == state.registered[i].path {
                let k = choose|k: int|
                    0 <= k < repos.len() && (#[trigger] repos[k]).indexed && repos[k].key
                        == state.registered[i].path;
                if k < last {
                    assert(front[k].indexed && front[k].key == state.registered[i].path);
                }
            }
        }
    }
}

/// A first pass that indexed every repository the server was started with brings the progress
/// to its total, and leaves the total.
pub proof fn law_a_full_first_pass_reaches_the_total(state: EngineText, repos: Seq<RepoInitText>)
    requires
        state.wf(),
        forall|i: int|
            0 <= i < state.registered.len() && (#[trigger] state.registered[i]).named > 0
                ==> exists|k: int|
                0 <= k < repos.len() && (#[trigger] repos[k]).indexed && repos[k].key
                    == state.registered[i].path,
    ensures
        first_pass(state, repos).total() == state.total(),
        first_pass(state, repos).indexed() == state.total(),
{
    lemma_first_pass(state, repos);
    let after = first_pass(state, repos);
    lemma_same_shape(state.registered, after.registered);
    law_progress_is_of_configured_repos(after);
    assert forall|i: int| 0 <= i < after.registered.len() && (
    #[trigger] after.registered[i]).named > 0 implies after.registered[i].passed by {
        assert(state.registered[i].named > 0);
    }
}

/// Which C-family servers a repository warms up, by the languages it holds: C, C++.
pub fn warm_up_languages(languages: &[String]) -> (r: (bool, bool))
    ensures
        r.0 == (texts(languages@).contains("c"@) || texts(languages@).contains("C"@)),
        r.1 == (texts(languages@).contains("cpp"@) || texts(languages@).contains("C++"@)),
{
    let c = crate::text::has_text(languages, "c") || crate::text::has_text(languages, "C");
    let cpp = crate::text::has_text(languages, "cpp") || crate::text::has_text(
        languages,
        "C++",
    );
    (c, cpp)
}

/// A language server switched off is never asked, whatever a repository ships.
pub proof fn law_lsp_off_is_off(manager_enabled: bool, manifest: bool)
    ensures
        !lsp_applies(manager_enabled, BackendIntent::Off, manifest),
{
}

/// Scoping narrows: a file allowed in a scoped repository is allowed in an unscoped one.
pub proof fn law_scoping_only_narrows(disabled: bool, in_scope: bool, rel: Seq<char>)
    requires
        lsp_allows(disabled, true, in_scope, rel),
    ensures
        lsp_allows(disabled, false, in_scope, rel),
        in_scope,
{
}

} // verus!
