//! Engine options, per-repository overrides, and what is compiled from them once at start.

use vstd::prelude::*;

use crate::batch::{capped_sum, count_file, count_language, language_texts, LanguageStats};
use crate::languages::{ext_to_language, ext_to_language_spec};
use crate::paths::{extension, extension_spec, join_path, join_path_spec};
use crate::scope::{compile_scope, rule_texts, scope_rules, RuleText, ScopeRule};
use crate::symbols::{symbol_texts, Symbol, SymbolText};
use crate::text::{opt_text, same_text, strip_prefix, strip_prefix_spec, texts};

verus! {

/// Days an adopted repository may go unqueried before it is dropped, unless configured.
pub const DEFAULT_ADOPTED_REPO_TTL_DAYS: u64 = 7;

/// Whether a backend is to be used: forced on, forced off, or where a repository ships
/// what it needs.
#[derive(Debug, Clone, Copy, PartialEq, Eq, Structural)]
pub enum BackendIntent {
    On,
    Off,
    Auto,
}

pub open spec fn intent_spec(forced_on: bool, forced_off: bool) -> BackendIntent {
    if forced_off {
        BackendIntent::Off
    } else if forced_on {
        BackendIntent::On
    } else {
        BackendIntent::Auto
    }
}

/// The intent of a pair of switches; the one that turns the backend off goes first.
pub fn resolve_intent(forced_on: bool, forced_off: bool) -> (r: BackendIntent)
    ensures
        r == intent_spec(forced_on, forced_off),
{
    if forced_off {
        BackendIntent::Off
    } else if forced_on {
        BackendIntent::On
    } else {
        BackendIntent::Auto
    }
}

#[derive(Debug, Clone, Copy, PartialEq, Eq, Structural)]
pub struct GtagsSettings {
    pub enabled: Option<bool>,
    pub generate: Option<bool>,
}

#[derive(Debug, Clone, Copy, PartialEq, Eq, Structural)]
pub struct ClangdSettings {
    pub enabled: Option<bool>,
    pub jobs: Option<usize>,
    pub background_index: Option<bool>,
}

#[derive(Debug, Clone, Copy, PartialEq, Eq, Structural)]
pub struct CclsSettings {
    pub enabled: Option<bool>,
    pub threads: Option<usize>,
    pub retain_in_memory: Option<usize>,
    pub background_index: Option<bool>,
}

/// The overrides of one repository. `key` is its canonical path, where it resolves.
#[derive(Debug)]
pub struct RepoEntrySettings {
    pub key: Option<String>,
    pub index_filter: Vec<String>,
    pub lsp_scope: Vec<String>,
    pub gtags: Option<GtagsSettings>,
    pub clangd: Option<ClangdSettings>,
    pub ccls: Option<CclsSettings>,
    pub compile_commands_min_coverage_pct: Option<usize>,
}

pub struct EntryText {
    pub key: Option<Seq<char>>,
    pub index_filter: Seq<Seq<char>>,
    pub lsp_scope: Seq<Seq<char>>,
    pub gtags: Option<GtagsSettings>,
    pub clangd: Option<ClangdSettings>,
    pub ccls: Option<CclsSettings>,
    pub compile_commands_min_coverage_pct: Option<usize>,
}

impl View for RepoEntrySettings {
    type V = EntryText;

    open spec fn view(&self) -> EntryText {
        EntryText {
            key: opt_text(self.key),
            index_filter: texts(self.index_filter@),
            lsp_scope: texts(self.lsp_scope@),
            gtags: self.gtags,
            clangd: self.clangd,
            ccls: self.ccls,
            compile_commands_min_coverage_pct: self.compile_commands_min_coverage_pct,
        }
    }
}

pub open spec fn entry_texts(v: Seq<RepoEntrySettings>) -> Seq<EntryText> {
    v.map_values(|e: RepoEntrySettings| e@)
}

/// Options of the engine.
#[derive(Debug)]
pub struct EngineOptions {
    pub git_enabled: bool,
    pub call_graph_enabled: bool,
    pub persist_enabled: bool,
    pub watch_enabled: bool,
    pub cache_enabled: bool,
    pub cache_ttl_seconds: u64,
    pub adopted_repo_ttl_days: u64,
    pub embedding_dim: usize,
    pub use_compile_commands: bool,
    pub compile_commands_path: Option<String>,
    pub keep_entries: Vec<String>,
    pub lsp_scope: Vec<String>,
    pub index_filter: Vec<String>,
    pub repo_settings: Vec<RepoEntrySettings>,
    pub lsp_enabled: bool,
    pub gtags_enabled: bool,
    pub lsp_intent: BackendIntent,
    pub gtags_intent: BackendIntent,
    pub gtags_generate: bool,
}

impl EngineOptions {
    /// Everything optional is off; caching is on for half an hour.
    pub open spec fn usual(self) -> bool {
        &&& !self.git_enabled
        &&& !self.call_graph_enabled
        &&& !self.persist_enabled
        &&& !self.watch_enabled
        &&& self.cache_enabled
        &&& self.cache_ttl_seconds == 1800
        &&& self.adopted_repo_ttl_days == DEFAULT_ADOPTED_REPO_TTL_DAYS
        &&& self.embedding_dim == 1000
        &&& !self.use_compile_commands
        &&& self.compile_commands_path is None
        &&& self.keep_entries@.len() == 0
        &&& self.lsp_scope@.len() == 0
        &&& self.index_filter@.len() == 0
        &&& self.repo_settings@.len() == 0
        &&& !self.lsp_enabled
        &&& !self.gtags_enabled
        &&& self.lsp_intent == BackendIntent::Auto
        &&& self.gtags_intent == BackendIntent::Auto
        &&& !self.gtags_generate
    }
}

impl Default for EngineOptions {
    fn default() -> (r: Self)
        ensures
            r.usual(),
    {
        EngineOptions {
            git_enabled: false,
            call_graph_enabled: false,
            persist_enabled: false,
            watch_enabled: false,
            cache_enabled: true,
            cache_ttl_seconds: 1800,
            adopted_repo_ttl_days: DEFAULT_ADOPTED_REPO_TTL_DAYS,
            embedding_dim: 1000,
            use_compile_commands: false,
            compile_commands_path: None,
            keep_entries: Vec::new(),
            lsp_scope: Vec::new(),
            index_filter: Vec::new(),
            repo_settings: Vec::new(),
            lsp_enabled: false,
            gtags_enabled: false,
            lsp_intent: BackendIntent::Auto,
            gtags_intent: BackendIntent::Auto,
            gtags_generate: false,
        }
    }
}

// ---- tables keyed by repository ----

/// The place of a key in a table.
pub open spec fn key_index<T>(table: Seq<(Seq<char>, T)>, key: Seq<char>) -> Option<int>
    decreases table.len(),
{
    if table.len() == 0 {
        None
    } else {
        match key_index(table.drop_last(), key) {
            Some(i) => Some(i),
            None => if table.last().0 == key {
                Some(table.len() - 1)
            } else {
                None
            },
        }
    }
}

/// What a table holds under a key.
pub open spec fn table_get<T>(table: Seq<(Seq<char>, T)>, key: Seq<char>) -> Option<T> {
    match key_index(table, key) {
        Some(i) => Some(table[i].1),
        None => None,
    }
}

/// A value put under a key, in place of what stood there.
pub open spec fn table_put<T>(table: Seq<(Seq<char>, T)>, key: Seq<char>, value: T) -> Seq<
    (Seq<char>, T),
> {
    match key_index(table, key) {
        Some(i) => table.update(i, (key, value)),
        None => table.push((key, value)),
    }
}

pub proof fn lemma_key_index<T>(table: Seq<(Seq<char>, T)>, key: Seq<char>)
    ensures
        key_index(table, key) matches Some(i) ==> 0 <= i < table.len() && table[i].0 == key
            && forall|j: int| 0 <= j < i ==> #[trigger] table[j].0 != key,
        key_index(table, key) is None ==> forall|j: int|
            0 <= j < table.len() ==> #[trigger] table[j].0 != key,
    decreases table.len(),
{
    if table.len() > 0 {
        lemma_key_index(table.drop_last(), key);
        assert forall|j: int| 0 <= j < table.len() - 1 implies table[j] == table.drop_last()[j] by {}
    }
}

/// Where a key first stands is where it is found.
pub proof fn lemma_key_index_is<T>(table: Seq<(Seq<char>, T)>, key: Seq<char>, i: int)
    requires
        0 <= i < table.len(),
        table[i].0 == key,
        forall|j: int| 0 <= j < i ==> #[trigger] table[j].0 != key,
    ensures
        key_index(table, key) == Some(i),
{
    lemma_key_index(table, key);
}

/// What was put under a key is found there, and the rest of the table is unchanged.
pub proof fn law_table_get_after_put<T>(
    table: Seq<(Seq<char>, T)>,
    key: Seq<char>,
    value: T,
    other: Seq<char>,
)
    requires
        other != key,
    ensures
        table_get(table_put(table, key, value), key) == Some(value),
        table_get(table_put(table, key, value), other) == table_get(table, other),
{
    lemma_key_index(table, key);
    lemma_key_index(table, other);
    let after = table_put(table, key, value);
    lemma_key_index(after, key);
    lemma_key_index(after, other);
    match key_index(table, other) {
        Some(i) => {
            assert(after[i] == table[i]);
            assert forall|j: int| 0 <= j < i implies #[trigger] after[j].0 != other by {
                assert(table[j].0 != other);
            }
            lemma_key_index_is(after, other, i);
        },
        None => {
            match key_index(after, other) {
                Some(j) => {
                    if j < table.len() {
                        assert(table[j].0 != other);
                    }
                },
                None => {},
            }
        },
    }
    match key_index(table, key) {
        Some(i) => {
            assert forall|j: int| 0 <= j < i implies #[trigger] after[j].0 != key by {
                assert(table[j].0 != key);
            }
            lemma_key_index_is(after, key, i);
        },
        None => {
            assert forall|j: int| 0 <= j < table.len() implies #[trigger] after[j].0 != key by {
                assert(table[j].0 != key);
            }
            lemma_key_index_is(after, key, table.len() as int);
        },
    }
}

// ---- language-server tuning ----

/// Language-server settings of one repository.
#[derive(Debug, Clone, Copy, PartialEq, Eq, Structural)]
pub struct RepoLspTuning {
    pub clangd_enabled: bool,
    pub clangd_jobs: Option<usize>,
    pub clangd_background_index: bool,
    pub ccls_enabled: bool,
    pub ccls_threads: Option<usize>,
    pub ccls_retain_in_memory: Option<usize>,
    pub ccls_background_index: bool,
}

pub open spec fn flag_or(value: Option<bool>, fallback: bool) -> bool {
    match value {
        Some(v) => v,
        None => fallback,
    }
}

fn flag(value: Option<bool>, fallback: bool) -> (r: bool)
    ensures
        r == flag_or(value, fallback),
{
    match value {
        Some(v) => v,
        None => fallback,
    }
}

/// The tuning of an entry: what it leaves unset keeps the backend on and undialled.
pub open spec fn tuning_spec(e: EntryText) -> RepoLspTuning {
    RepoLspTuning {
        clangd_enabled: match e.clangd {
            Some(c) => flag_or(c.enabled, true),
            None => true,
        },
        clangd_jobs: match e.clangd {
            Some(c) => c.jobs,
            None => None,
        },
        clangd_background_index: match e.clangd {
            Some(c) => flag_or(c.background_index, true),
            None => true,
        },
        ccls_enabled: match e.ccls {
            Some(c) => flag_or(c.enabled, true),
            None => true,
        },
        ccls_threads: match e.ccls {
            Some(c) => c.threads,
            None => None,
        },
        ccls_retain_in_memory: match e.ccls {
            Some(c) => c.retain_in_memory,
            None => None,
        },
        ccls_background_index: match e.ccls {
            Some(c) => flag_or(c.background_index, true),
            None => true,
        },
    }
}

/// The tuning table: entries that mention neither server, or whose path does not resolve,
/// leave no trace.
pub open spec fn tuning_table(entries: Seq<EntryText>) -> Seq<(Seq<char>, RepoLspTuning)>
    decreases entries.len(),
{
    if entries.len() == 0 {
        Seq::empty()
    } else {
        let front = tuning_table(entries.drop_last());
        let e = entries.last();
        if (e.clangd is None && e.ccls is None) || e.key is None {
            front
        } else {
            table_put(front, e.key->Some_0, tuning_spec(e))
        }
    }
}

fn tuning_of(e: &RepoEntrySettings) -> (r: RepoLspTuning)
    ensures
        r == tuning_spec(e@),
{
    let (clangd_enabled, clangd_jobs, clangd_background_index) = match e.clangd {
        Some(c) => (flag(c.enabled, true), c.jobs, flag(c.background_index, true)),
        None => (true, None, true),
    };
    let (ccls_enabled, ccls_threads, ccls_retain_in_memory, ccls_background_index) = match e.ccls {
        Some(c) => (
            flag(c.enabled, true),
            c.threads,
            c.retain_in_memory,
            flag(c.background_index, true),
        ),
        None => (true, None, None, true),
    };
    RepoLspTuning {
        clangd_enabled,
        clangd_jobs,
        clangd_background_index,
        ccls_enabled,
        ccls_threads,
        ccls_retain_in_memory,
        ccls_background_index,
    }
}

pub open spec fn tuning_texts(v: Seq<(String, RepoLspTuning)>) -> Seq<(Seq<char>, RepoLspTuning)> {
    v.map_values(|e: (String, RepoLspTuning)| (e.0@, e.1))
}

fn put_tuning(table: &mut Vec<(String, RepoLspTuning)>, key: &str, value: RepoLspTuning)
    ensures
        tuning_texts(final(table)@) == table_put(tuning_texts(old(table)@), key@, value),
{
    let ghost before = table@;
    let ghost all = tuning_texts(before);
    let name = key.to_owned();
    let mut i: usize = 0;
    while i < table.len()
        invariant
            i <= table@.len(),
            table@ == before,
            before == old(table)@,
            all == tuning_texts(before),
            name@ == key@,
            forall|j: int| 0 <= j < i ==> #[trigger] all[j].0 != key@,
        decreases table@.len() - i,
    {
        proof {
            assert(all[i as int].0 == table@[i as int].0@);
        }
        if same_text(table[i].0.as_str(), key) {
            proof {
                lemma_key_index_is(all, key@, i as int);
                assert(tuning_texts(before.update(i as int, (name, value))) =~= all.update(
                    i as int,
                    (key@, value),
                ));
            }
            table.set(i, (name, value));
            return;
        }
        i = i + 1;
    }
    proof {
        lemma_key_index(all, key@);
        assert(tuning_texts(before.push((name, value))) =~= all.push((key@, value)));
    }
    table.push((name, value));
}

/// Builds the tuning table, keyed by canonical repository path.
pub fn lsp_tuning(entries: &[RepoEntrySettings]) -> (r: Vec<(String, RepoLspTuning)>)
    ensures
        tuning_texts(r@) == tuning_table(entry_texts(entries@)),
{
    let ghost all = entry_texts(entries@);
    let mut table: Vec<(String, RepoLspTuning)> = Vec::new();
    let mut i: usize = 0;
    proof {
        assert(all.take(0) =~= Seq::<EntryText>::empty());
        assert(tuning_texts(table@) =~= Seq::<(Seq<char>, RepoLspTuning)>::empty());
    }
    while i < entries.len()
        invariant
            i <= entries@.len(),
            all == entry_texts(entries@),
            tuning_texts(table@) == tuning_table(all.take(i as int)),
        decreases entries@.len() - i,
    {
        proof {
            assert(all.take(i + 1).drop_last() =~= all.take(i as int));
            assert(all.take(i + 1).last() == entries@[i as int]@);
        }
        let entry = &entries[i];
        if entry.clangd.is_some() || entry.ccls.is_some() {
            match &entry.key {
                Some(key) => {
                    put_tuning(&mut table, key.as_str(), tuning_of(entry));
                },
                None => {},
            }
        }
        i = i + 1;
    }
    proof {
        assert(all.take(all.len() as int) =~= all);
    }
    table
}

// ---- compiled per-repository settings ----

/// The settings of one repository, compiled.
#[derive(Debug)]
pub struct CompiledRepoSettings {
    pub index_filter: Vec<ScopeRule>,
    pub lsp_scope: Vec<ScopeRule>,
    pub gtags_enabled: Option<bool>,
    pub gtags_generate: Option<bool>,
    pub compile_commands_min_coverage_pct: Option<usize>,
}

pub struct CompiledText {
    pub index_filter: Seq<RuleText>,
    pub lsp_scope: Seq<RuleText>,
    pub gtags_enabled: Option<bool>,
    pub gtags_generate: Option<bool>,
    pub compile_commands_min_coverage_pct: Option<usize>,
}

impl View for CompiledRepoSettings {
    type V = CompiledText;

    open spec fn view(&self) -> CompiledText {
        CompiledText {
            index_filter: rule_texts(self.index_filter@),
            lsp_scope: rule_texts(self.lsp_scope@),
            gtags_enabled: self.gtags_enabled,
            gtags_generate: self.gtags_generate,
            compile_commands_min_coverage_pct: self.compile_commands_min_coverage_pct,
        }
    }
}

/// The scope of an entry: its own, or the global one where it has none.
pub open spec fn own_or_global(own: Seq<Seq<char>>, global_entries: Seq<Seq<char>>) -> Seq<
    RuleText,
> {
    if own.len() == 0 {
        scope_rules(global_entries)
    } else {
        scope_rules(own)
    }
}

pub open spec fn compiled_spec(
    e: EntryText,
    index_filter: Seq<Seq<char>>,
    lsp_scope: Seq<Seq<char>>,
) -> CompiledText {
    CompiledText {
        index_filter: own_or_global(e.index_filter, index_filter),
        lsp_scope: own_or_global(e.lsp_scope, lsp_scope),
        gtags_enabled: match e.gtags {
            Some(g) => g.enabled,
            None => None,
        },
        gtags_generate: match e.gtags {
            Some(g) => g.generate,
            None => None,
        },
        compile_commands_min_coverage_pct: e.compile_commands_min_coverage_pct,
    }
}

/// The table of compiled settings; an entry whose path does not resolve is left out.
pub open spec fn settings_table(
    entries: Seq<EntryText>,
    index_filter: Seq<Seq<char>>,
    lsp_scope: Seq<Seq<char>>,
) -> Seq<(Seq<char>, CompiledText)>
    decreases entries.len(),
{
    if entries.len() == 0 {
        Seq::empty()
    } else {
        let front = settings_table(entries.drop_last(), index_filter, lsp_scope);
        match entries.last().key {
            None => front,
            Some(key) => table_put(
                front,
                key,
                compiled_spec(entries.last(), index_filter, lsp_scope),
            ),
        }
    }
}

pub open spec fn settings_texts(v: Seq<(String, CompiledRepoSettings)>) -> Seq<
    (Seq<char>, CompiledText),
> {
    v.map_values(|e: (String, CompiledRepoSettings)| (e.0@, e.1@))
}

fn compile_entry(e: &RepoEntrySettings, index_filter: &[String], lsp_scope: &[String]) -> (r:
    CompiledRepoSettings)
    ensures
        r@ == compiled_spec(e@, texts(index_filter@), texts(lsp_scope@)),
{
    let (gtags_enabled, gtags_generate) = match e.gtags {
        Some(g) => (g.enabled, g.generate),
        None => (None, None),
    };
    proof {
        assert(texts(e.index_filter@).len() == e.index_filter@.len());
        assert(texts(e.lsp_scope@).len() == e.lsp_scope@.len());
    }
    CompiledRepoSettings {
        index_filter: if e.index_filter.len() == 0 {
            compile_scope(index_filter)
        } else {
            compile_scope(e.index_filter.as_slice())
        },
        lsp_scope: if e.lsp_scope.len() == 0 {
            compile_scope(lsp_scope)
        } else {
            compile_scope(e.lsp_scope.as_slice())
        },
        gtags_enabled,
        gtags_generate,
        compile_commands_min_coverage_pct: e.compile_commands_min_coverage_pct,
    }
}

fn put_settings(
    table: &mut Vec<(String, CompiledRepoSettings)>,
    key: &str,
    value: CompiledRepoSettings,
)
    ensures
        settings_texts(final(table)@) == table_put(settings_texts(old(table)@), key@, value@),
{
    let ghost before = table@;
    let ghost all = settings_texts(before);
    let name = key.to_owned();
    let mut i: usize = 0;
    while i < table.len()
        invariant
            i <= table@.len(),
            table@ == before,
            before == old(table)@,
            all == settings_texts(before),
            name@ == key@,
            forall|j: int| 0 <= j < i ==> #[trigger] all[j].0 != key@,
        decreases table@.len() - i,
    {
        proof {
            assert(all[i as int].0 == table@[i as int].0@);
        }
        if same_text(table[i].0.as_str(), key) {
            proof {
                lemma_key_index_is(all, key@, i as int);
                assert(settings_texts(before.update(i as int, (name, value))) =~= all.update(
                    i as int,
                    (key@, value@),
                ));
            }
            table.set(i, (name, value));
            return;
        }
        i = i + 1;
    }
    proof {
        lemma_key_index(all, key@);
        assert(settings_texts(before.push((name, value))) =~= all.push((key@, value@)));
    }
    table.push((name, value));
}

/// Compiles the overrides, keyed by canonical repository path. An entry that omits a scope
/// inherits the global one.
pub fn compile_repo_settings(
    entries: &[RepoEntrySettings],
    index_filter: &[String],
    lsp_scope: &[String],
) -> (r: Vec<(String, CompiledRepoSettings)>)
    ensures
        settings_texts(r@) == settings_table(
            entry_texts(entries@),
            texts(index_filter@),
            texts(lsp_scope@),
        ),
{
    let ghost all = entry_texts(entries@);
    let mut table: Vec<(String, CompiledRepoSettings)> = Vec::new();
    let mut i: usize = 0;
    proof {
        assert(all.take(0) =~= Seq::<EntryText>::empty());
        assert(settings_texts(table@) =~= Seq::<(Seq<char>, CompiledText)>::empty());
    }
    while i < entries.len()
        invariant
            i <= entries@.len(),
            all == entry_texts(entries@),
            settings_texts(table@) == settings_table(
                all.take(i as int),
                texts(index_filter@),
                texts(lsp_scope@),
            ),
        decreases entries@.len() - i,
    {
        proof {
            assert(all.take(i + 1).drop_last() =~= all.take(i as int));
            assert(all.take(i + 1).last() == entries@[i as int]@);
        }
        match &entries[i].key {
            Some(key) => {
                let compiled = compile_entry(&entries[i], index_filter, lsp_scope);
                put_settings(&mut table, key.as_str(), compiled);
            },
            None => {},
        }
        i = i + 1;
    }
    proof {
        assert(all.take(all.len() as int) =~= all);
    }
    table
}

/// The settings of a repository, where it has an entry.
pub fn settings_for<'a>(table: &'a [(String, CompiledRepoSettings)], key: &str) -> (r: Option<
    &'a CompiledRepoSettings,
>)
    ensures
        (match r {
            Some(s) => Some(s@),
            None => None,
        }) == table_get(settings_texts(table@), key@),
{
    let ghost all = settings_texts(table@);
    let mut i: usize = 0;
    while i < table.len()
        invariant
            i <= table@.len(),
            all == settings_texts(table@),
            forall|j: int| 0 <= j < i ==> #[trigger] all[j].0 != key@,
        decreases table@.len() - i,
    {
        proof {
            assert(all[i as int].0 == table@[i as int].0@);
        }
        if same_text(table[i].0.as_str(), key) {
            proof {
                lemma_key_index_is(all, key@, i as int);
                assert(all[i as int].1 == table@[i as int].1@);
            }
            return Some(&table[i].1);
        }
        i = i + 1;
    }
    proof {
        lemma_key_index(all, key@);
    }
    None
}

// ---- caches ----

/// Capacity and lifetime of a cache.
#[derive(Debug, Clone, Copy, PartialEq, Eq, Structural)]
pub struct CacheShape {
    pub capacity: usize,
    pub ttl_seconds: u64,
}

pub open spec fn cache_shape_spec(enabled: bool, capacity: usize, ttl: u64) -> CacheShape {
    if enabled {
        CacheShape { capacity, ttl_seconds: ttl }
    } else {
        CacheShape { capacity: 1, ttl_seconds: 0 }
    }
}

/// The shape of a cache; a disabled one is minimal and expires at once.
pub fn cache_shape(enabled: bool, capacity: usize, ttl: u64) -> (r: CacheShape)
    ensures
        r == cache_shape_spec(enabled, capacity, ttl),
{
    if enabled {
        CacheShape { capacity, ttl_seconds: ttl }
    } else {
        CacheShape { capacity: 1, ttl_seconds: 0 }
    }
}

// ---- paths ----

/// A path with its leading `~` replaced by the home directory; `None` where that is needed
/// and unknown.
pub open spec fn expand_path_spec(path: Seq<char>, home: Option<Seq<char>>) -> Option<Seq<char>> {
    match strip_prefix_spec(path, "~"@) {
        None => Some(path),
        Some(stripped) => match home {
            None => None,
            Some(h) => Some(
                join_path_spec(
                    h,
                    match strip_prefix_spec(path, "~/"@) {
                        Some(rest) => rest,
                        None => stripped,
                    },
                ),
            ),
        },
    }
}

/// Expands a leading `~`.
pub fn expand_path(path: &str, home: Option<&str>) -> (r: Option<String>)
    ensures
        opt_text(r) == expand_path_spec(
            path@,
            match home {
                Some(h) => Some(h@),
                None => None,
            },
        ),
{
    match strip_prefix(path, "~") {
        None => Some(path.to_owned()),
        Some(stripped) => match home {
            None => None,
            Some(h) => {
                let rest = match strip_prefix(path, "~/") {
                    Some(rest) => rest,
                    None => stripped,
                };
                Some(join_path(h, rest.as_str()))
            },
        },
    }
}

// ---- repositories loaded from the store ----

/// A file of a persisted index.
#[derive(Debug)]
pub struct PersistedFile {
    pub path: String,
    pub size: usize,
    pub symbols: Vec<Symbol>,
}

pub struct PersistedText {
    pub path: Seq<char>,
    pub size: usize,
    pub symbols: Seq<SymbolText>,
}

impl View for PersistedFile {
    type V = PersistedText;

    open spec fn view(&self) -> PersistedText {
        PersistedText { path: self.path@, size: self.size, symbols: symbol_texts(self.symbols@) }
    }
}

pub open spec fn persisted_texts(v: Seq<PersistedFile>) -> Seq<PersistedText> {
    v.map_values(|f: PersistedFile| f@)
}

/// The last line any symbol reaches, which stands in for the number of lines.
pub open spec fn last_symbol_line(symbols: Seq<SymbolText>) -> usize
    decreases symbols.len(),
{
    if symbols.len() == 0 {
        0
    } else {
        let before = last_symbol_line(symbols.drop_last());
        if symbols.last().end_line > before {
            symbols.last().end_line
        } else {
            before
        }
    }
}

/// What a persisted index says of a repository as a whole.
pub struct PersistedStats {
    pub total_lines: usize,
    pub languages: Seq<(Seq<char>, LanguageStats)>,
    pub symbols: Seq<SymbolText>,
}

pub open spec fn persisted_language(path: Seq<char>) -> Seq<char> {
    ext_to_language_spec(
        match extension_spec(path) {
            Some(e) => e,
            None => "unknown"@,
        },
    )
}

pub open spec fn persisted_stats(files: Seq<PersistedText>) -> PersistedStats
    decreases files.len(),
{
    if files.len() == 0 {
        PersistedStats { total_lines: 0, languages: Seq::empty(), symbols: Seq::empty() }
    } else {
        let front = persisted_stats(files.drop_last());
        let f = files.last();
        let line_count = last_symbol_line(f.symbols);
        PersistedStats {
            total_lines: capped_sum(front.total_lines, line_count),
            languages: count_file(
                front.languages,
                persisted_language(f.path),
                line_count,
                f.size,
            ),
            symbols: front.symbols + f.symbols,
        }
    }
}

/// The statistics and symbols of a repository loaded from the store.
#[derive(Debug)]
pub struct LoadedRepo {
    pub file_count: usize,
    pub total_lines: usize,
    pub languages: Vec<(String, LanguageStats)>,
    pub symbols: Vec<Symbol>,
}

fn last_line(symbols: &[Symbol]) -> (r: usize)
    ensures
        r == last_symbol_line(symbol_texts(symbols@)),
{
    let ghost all = symbol_texts(symbols@);
    let mut best: usize = 0;
    let mut i: usize = 0;
    while i < symbols.len()
        invariant
            i <= symbols@.len(),
            all == symbol_texts(symbols@),
            best == last_symbol_line(all.take(i as int)),
        decreases symbols@.len() - i,
    {
        proof {
            assert(all.take(i + 1).drop_last() =~= all.take(i as int));
            assert(all.take(i + 1).last() == symbols@[i as int]@);
        }
        if symbols[i].end_line > best {
            best = symbols[i].end_line;
        }
        i = i + 1;
    }
    proof {
        assert(all.take(all.len() as int) =~= all);
    }
    best
}

/// Derives the statistics of a repository from its persisted files.
pub fn load_persisted(files: &[PersistedFile]) -> (r: LoadedRepo)
    ensures
        r.file_count == files@.len(),
        r.total_lines == persisted_stats(persisted_texts(files@)).total_lines,
        language_texts(r.languages@) == persisted_stats(persisted_texts(files@)).languages,
        symbol_texts(r.symbols@) == persisted_stats(persisted_texts(files@)).symbols,
{
    let ghost all = persisted_texts(files@);
    let mut total_lines: usize = 0;
    let mut languages: Vec<(String, LanguageStats)> = Vec::new();
    let mut symbols: Vec<Symbol> = Vec::new();
    let mut i: usize = 0;
    proof {
        assert(language_texts(languages@) =~= Seq::<(Seq<char>, LanguageStats)>::empty());
        assert(symbol_texts(symbols@) =~= Seq::<SymbolText>::empty());
    }
    while i < files.len()
        invariant
            i <= files@.len(),
            all == persisted_texts(files@),
            total_lines == persisted_stats(all.take(i as int)).total_lines,
            language_texts(languages@) == persisted_stats(all.take(i as int)).languages,
            symbol_texts(symbols@) == persisted_stats(all.take(i as int)).symbols,
        decreases files@.len() - i,
    {
        proof {
            assert(all.take(i + 1).drop_last() =~= all.take(i as int));
            assert(all.take(i + 1).last() == files@[i as int]@);
        }
        let file = &files[i];
        let ext = match extension(file.path.as_str()) {
            Some(e) => e,
            None => "unknown".to_owned(),
        };
        let language = ext_to_language(ext.as_str());
        let line_count = last_line(file.symbols.as_slice());
        count_language(&mut languages, language.as_str(), line_count, file.size);
        total_lines = if total_lines > usize::MAX - line_count {
            usize::MAX
        } else {
            total_lines + line_count
        };
        let ghost before = symbol_texts(symbols@);
        let mut k: usize = 0;
        proof {
            assert(before + symbol_texts(file.symbols@).take(0) =~= before);
        }
        while k < file.symbols.len()
            invariant
                k <= file.symbols@.len(),
                symbol_texts(symbols@) == before + symbol_texts(file.symbols@).take(k as int),
            decreases file.symbols@.len() - k,
        {
            let s = file.symbols[k].copy();
            proof {
                assert(symbol_texts(symbols@.push(s)) =~= symbol_texts(symbols@).push(s@));
                assert(symbol_texts(file.symbols@).take(k + 1) =~= symbol_texts(
                    file.symbols@,
                ).take(k as int).push(s@));
                assert(before + symbol_texts(file.symbols@).take(k as int).push(s@) =~= (before
                    + symbol_texts(file.symbols@).take(k as int)).push(s@));
            }
            symbols.push(s);
            k = k + 1;
        }
        proof {
            assert(symbol_texts(file.symbols@).take(file.symbols@.len() as int) =~= symbol_texts(
                file.symbols@,
            ));
        }
        i = i + 1;
    }
    proof {
        assert(all.take(all.len() as int) =~= all);
    }
    LoadedRepo { file_count: files.len(), total_lines, languages, symbols }
}

} // verus!
