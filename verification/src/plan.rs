//! What an index run decides before it reads a file and after the index is in place.

use vstd::prelude::*;

use crate::backends::{
    cache_state, call_graph_step, call_graph_step_spec, cxx_present, generate_step,
    gtags_generate_step, holds_cxx, lsp_allows, lsp_augment_allows, wants_cxx_augment, CacheState,
    CallGraphStep, GenerateStep,
};
use crate::engine::{repo_index, CodeIntelEngine, IndexedText};
use crate::freshness::{fingerprint_holds, same_opt};
use crate::indexing::{
    after_filter, is_carried, is_filtered, manifest_dropped, manifest_use, select_files,
    selected_files, walked, ManifestUse, Selection, SelectionRules, SelectionText,
};
use crate::order::sort_stable;
use crate::paths::{path_order, sort_paths};
use crate::scope::{rule_texts, scope_matches, scope_names, RuleText, ScopeRule};
use crate::settings::BackendIntent;
use crate::text::{has_text, opt_text, texts};

verus! {

/// What a run finds: the state of the tree, and the programs at hand.
#[derive(Debug)]
pub struct PlanFacts {
    pub logic_version: u32,
    pub head_hash: Option<String>,
    pub cdb_hash: Option<String>,
    pub lsp_manager_enabled: bool,
    pub gtags_manager: bool,
    pub gtags_may_generate: bool,
    pub gtags_intended: bool,
    pub database_exists: bool,
    pub can_generate: bool,
}

/// The decisions of a run before any file is read.
#[derive(Debug)]
pub struct IndexPlan {
    pub cache: CacheState,
    /// C and C++ files wait for the backends.
    pub cxx_augment: bool,
    pub selection: Selection,
    /// The selection holds C or C++.
    pub cxx: bool,
    pub generate: GenerateStep,
}

/// Whether what is recorded of a repository still describes the tree.
pub open spec fn is_current(repos: Seq<IndexedText>, key: Seq<char>, f: PlanFacts) -> bool {
    match repo_index(repos, key) {
        Some(i) => fingerprint_holds(
            repos[i].metadata.head_hash,
            repos[i].metadata.cdb_hash,
            repos[i].metadata.logic_version,
            f.logic_version,
            opt_text(f.head_hash),
            opt_text(f.cdb_hash),
        ),
        None => false,
    }
}

/// The symbols of a repository that is still current are kept. Those of one that is not
/// are rebuilt, with its unchanged files taken over.
pub open spec fn planned_cache(repos: Seq<IndexedText>, key: Seq<char>, f: PlanFacts) -> CacheState {
    CacheState {
        symbols_cached: is_current(repos, key, f),
        load_prior: repo_index(repos, key) is Some && !is_current(repos, key, f),
    }
}

pub open spec fn backends_wanted(
    cached: bool,
    f: PlanFacts,
    lsp: BackendIntent,
    gtags: BackendIntent,
) -> bool {
    !cached && ((f.lsp_manager_enabled && lsp != BackendIntent::Off) || (f.gtags_manager && gtags
        != BackendIntent::Off))
}

/// The selection is that of the rules on the walk.
pub open spec fn selects(s: Selection, rules: SelectionText, walk: Seq<Seq<char>>) -> bool {
    &&& texts(s.files@) == selected_files(rules, walk)
    &&& s.index_filtered == is_filtered(rules, walked(walk))
    &&& texts(s.all_files@) == (if s.index_filtered {
        walked(walk)
    } else {
        Seq::empty()
    })
    &&& s.manifest == manifest_use(rules, after_filter(rules, walked(walk)))
    &&& texts(s.manifest_filtered@) == manifest_dropped(rules, walk)
    &&& s.carried == (if s.manifest == ManifestUse::Applied {
        after_filter(rules, walked(walk)).filter(|f: Seq<char>| is_carried(rules, f)).len()
    } else {
        0
    })
}

/// What is left to do once the index of a repository is in place.
#[derive(Debug)]
pub struct Aftermath {
    pub call_graph: CallGraphStep,
    /// The files to read definitions from, where the index leaves files out.
    pub definitions: Option<Vec<String>>,
}

/// Some file is named by the scope.
pub open spec fn some_in_scope(rules: Seq<RuleText>, files: Seq<(Seq<char>, Seq<char>)>) -> bool {
    exists|i: int|
        0 <= i < files.len() && scope_names(rules, (#[trigger] files[i]).0, files[i].1)
}

pub open spec fn is_shown(
    disabled: bool,
    rules: Seq<RuleText>,
    files: Seq<(Seq<char>, Seq<char>)>,
    file: (Seq<char>, Seq<char>),
) -> bool {
    lsp_allows(
        disabled,
        some_in_scope(rules, files),
        scope_names(rules, file.0, file.1),
        file.0,
    )
}

pub open spec fn path_pairs(v: Seq<(String, String)>) -> Seq<(Seq<char>, Seq<char>)> {
    v.map_values(|p: (String, String)| (p.0@, p.1@))
}

/// Which files are shown to the language servers, each given by its repo-relative and its
/// absolute path. A scope that names none of them is not in force.
pub fn shown_to_servers(disabled: bool, rules: &[ScopeRule], files: &[(String, String)]) -> (r: Vec<bool>)
    ensures
        r@ == path_pairs(files@).map_values(
            |f: (Seq<char>, Seq<char>)|
                is_shown(disabled, rule_texts(rules@), path_pairs(files@), f),
        ),
{
    let ghost all = path_pairs(files@);
    let ghost scope = rule_texts(rules@);
    let mut scoped = false;
    let mut i: usize = 0;
    while i < files.len()
        invariant
            i <= files@.len(),
            all == path_pairs(files@),
            scope == rule_texts(rules@),
            scoped == (exists|j: int|
                0 <= j < i && scope_names(scope, (#[trigger] all[j]).0, all[j].1)),
        decreases files@.len() - i,
    {
        proof {
            assert(all[i as int] == (files@[i as int].0@, files@[i as int].1@));
        }
        if scope_matches(rules, files[i].0.as_str(), files[i].1.as_str()) {
            scoped = true;
        }
        i = i + 1;
    }
    let mut out: Vec<bool> = Vec::new();
    let mut k: usize = 0;
    while k < files.len()
        invariant
            k <= files@.len(),
            all == path_pairs(files@),
            scope == rule_texts(rules@),
            scoped == some_in_scope(scope, all),
            out@.len() == k,
            forall|j: int|
                0 <= j < k ==> #[trigger] out@[j] == is_shown(disabled, scope, all, all[j]),
        decreases files@.len() - k,
    {
        proof {
            assert(all[k as int] == (files@[k as int].0@, files@[k as int].1@));
        }
        out.push(
            lsp_augment_allows(disabled, scoped, rules, files[k].0.as_str(), files[k].1.as_str()),
        );
        k = k + 1;
    }
    proof {
        assert(out@ =~= all.map_values(
            |f: (Seq<char>, Seq<char>)| is_shown(disabled, scope, all, f),
        ));
    }
    out
}

impl CodeIntelEngine {
    /// Whether the index of a repository still describes the tree.
    fn describes(&self, key: &str, facts: &PlanFacts) -> (r: bool)
        ensures
            r == is_current(self@.repos, key@, *facts),
    {
        match self.find_repo(key) {
            Some(i) => {
                let m = &self.repos[i].metadata;
                m.logic_version == facts.logic_version && (facts.head_hash.is_some()
                    || facts.cdb_hash.is_some()) && same_opt(&m.head_hash, &facts.head_hash)
                    && same_opt(&m.cdb_hash, &facts.cdb_hash)
            },
            None => false,
        }
    }

    /// Plans an index run over the files a walk found.
    pub fn plan_index(
        &self,
        key: &str,
        facts: &PlanFacts,
        rules: &SelectionRules,
        walk: &[String],
    ) -> (r: IndexPlan)
        ensures
            r.cache == planned_cache(self@.repos, key@, *facts),
            r.cxx_augment == backends_wanted(
                r.cache.symbols_cached,
                *facts,
                self.options.lsp_intent,
                self.options.gtags_intent,
            ),
            selects(r.selection, rules@, texts(walk@)),
            r.cxx == holds_cxx(selected_files(rules@, texts(walk@))),
            r.generate == generate_step(
                r.cxx,
                facts.gtags_may_generate,
                facts.gtags_intended,
                facts.database_exists,
                r.selection.files@.len() as usize,
                facts.can_generate,
            ),
    {
        let was_cached = self.find_repo(key).is_some();
        let current = self.describes(key, facts);
        let cache = cache_state(was_cached, current);
        let cxx_augment = wants_cxx_augment(
            cache.symbols_cached,
            facts.lsp_manager_enabled,
            self.options.lsp_intent,
            facts.gtags_manager,
            self.options.gtags_intent,
        );
        let selection = select_files(rules, walk);
        let cxx = cxx_present(selection.files.as_slice());
        let generate = gtags_generate_step(
            cxx,
            facts.gtags_may_generate,
            facts.gtags_intended,
            facts.database_exists,
            selection.files.len(),
            facts.can_generate,
        );
        IndexPlan { cache, cxx_augment, selection, cxx, generate }
    }

    /// What follows once the index is in place: a backend that is enabled for the repository
    /// completes the call graph, or the edges saved with a current index are put back, and a
    /// filtered index gets a map of the definitions it leaves out.
    pub fn settle_index(
        &self,
        key: &str,
        plan: &IndexPlan,
        restored_edges: usize,
        lsp: bool,
        gtags: bool,
    ) -> (r: Aftermath)
        ensures
            r.call_graph == call_graph_step_spec(
                self.options.call_graph_enabled,
                self@.call_graphs.contains(key@),
                plan.cache.symbols_cached,
                restored_edges,
                plan.cxx && lsp,
                plan.cxx && gtags,
            ),
            match r.definitions {
                Some(list) => plan.selection.index_filtered && texts(list@) == sort_stable(
                    texts(plan.selection.all_files@),
                    path_order(),
                ),
                None => !plan.selection.index_filtered,
            },
    {
        let graph = has_text(self.call_graphs.as_slice(), key);
        let call_graph = call_graph_step(
            self.options.call_graph_enabled,
            graph,
            plan.cache.symbols_cached,
            restored_edges,
            plan.cxx && lsp,
            plan.cxx && gtags,
        );
        let definitions = if plan.selection.index_filtered {
            Some(sort_paths(plan.selection.all_files.as_slice()))
        } else {
            None
        };
        Aftermath { call_graph, definitions }
    }
}

/// A repository indexed under the rules, commit and manifest of today is not rebuilt.
pub proof fn law_a_current_index_is_kept(repos: Seq<IndexedText>, key: Seq<char>, f: PlanFacts)
    requires
        is_current(repos, key, f),
    ensures
        planned_cache(repos, key, f).symbols_cached,
        !planned_cache(repos, key, f).load_prior,
{
}

/// Nothing is taken over from a repository that was never indexed.
pub proof fn law_a_new_repo_is_built_in_full(repos: Seq<IndexedText>, key: Seq<char>, f: PlanFacts)
    requires
        repo_index(repos, key) is None,
    ensures
        !planned_cache(repos, key, f).symbols_cached,
        !planned_cache(repos, key, f).load_prior,
{
}

} // verus!
