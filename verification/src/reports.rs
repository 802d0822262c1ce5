//! The tools that report on the server and its repositories, and those that show what an
//! analysis of a single function came to.

use vstd::prelude::*;

use crate::calltools::{call_graph_gap, call_graph_gap_spec};
use crate::engine::{
    lemma_repo_index, repo_index, ArgText, CodeIntelEngine, EngineText, IndexedText, RepoArg,
};
use crate::graphs::{
    block_code_spec, block_id, block_type_spec, choose_function, condition_spec, draw_block,
    draw_edge, edge_type_spec, find_function, first_exact, first_partial, first_target,
    no_such_function, target_symbol, CfgBlock, CfgEdge, FlowBlock, FlowKind,
};
use crate::history::{
    discovered_answer, found_texts, render_discovered, render_validation, validation_answer,
    FoundRepo,
};
use crate::position::{chain_texts, reaching_answer, render_reaching_definitions, DefUseChain};
use crate::registry::{reindexed_message, reindexed_text};
use crate::status::{
    index_status_answer, metrics_answer, named_counts, render_index_status, render_metrics,
    status_texts, CacheFigures, FactsText, IndexFacts, RepoStatus, StatusText,
};
use crate::store::{excerpt_texts, excerpts_answer, render_excerpts, Excerpt};
use crate::symbols::{clone_text, SymbolText};
use crate::text::{lines, lines_of, opt_text, same_text, texts};
use crate::tools::{
    answer, answered, arg_text, disk_texts, locate_file, place_on_disk, read_file, read_from,
    DiskFile, DiskText,
};

verus! {

// ---- the state of the index ----

/// What the search index holds. The average length comes as it is shown.
#[derive(Debug)]
pub struct SearchFigures {
    pub total_documents: usize,
    pub total_terms: usize,
    pub avg_doc_length: String,
    pub doc_types: Vec<(String, usize)>,
}

/// The commits a repository's manifest is behind, as far as git tells.
pub open spec fn behind_of(behind: Seq<(Seq<char>, usize)>, key: Seq<char>) -> usize
    decreases behind.len(),
{
    if behind.len() == 0 {
        0
    } else if behind[0].0 == key {
        behind[0].1
    } else {
        behind_of(behind.skip(1), key)
    }
}

pub open spec fn status_of(
    repo: IndexedText,
    git: Seq<Seq<char>>,
    behind: Seq<(Seq<char>, usize)>,
) -> StatusText {
    StatusText {
        key: repo.key,
        name: repo.metadata.name,
        file_count: repo.metadata.file_count,
        symbol_count: repo.symbols.len() as usize,
        git: git.contains(repo.key),
        manifest_base: repo.metadata.cdb_head_hash,
        head: repo.metadata.head_hash,
        commits_behind: behind_of(behind, repo.key),
    }
}

pub open spec fn statuses(state: EngineText, behind: Seq<(Seq<char>, usize)>) -> Seq<StatusText> {
    state.repos.map_values(|r: IndexedText| status_of(r, state.git_repos, behind))
}

/// The repository a report is limited to: an argument that names none limits nothing.
pub open spec fn limited_to(state: EngineText, arg: Option<ArgText>) -> Option<Seq<char>> {
    match arg {
        Some(a) => if a.input.len() == 0 {
            None
        } else {
            match state.key_of(a) {
                Ok(key) => Some(key),
                Err(_) => None,
            }
        },
        None => None,
    }
}

/// The engine after a report was asked for.
pub open spec fn reported(state: EngineText, arg: Option<ArgText>) -> EngineText {
    match arg {
        Some(a) => if a.input.len() == 0 {
            state
        } else {
            state.named(a)
        },
        None => state,
    }
}

fn find_behind(behind: &[(String, usize)], key: &str) -> (r: usize)
    ensures
        r == behind_of(named_counts(behind@), key@),
{
    let ghost all = named_counts(behind@);
    let mut i: usize = 0;
    proof {
        assert(all.skip(0) =~= all);
    }
    while i < behind.len()
        invariant
            i <= behind@.len(),
            all == named_counts(behind@),
            behind_of(all, key@) == behind_of(all.skip(i as int), key@),
        decreases behind@.len() - i,
    {
        proof {
            assert(all.skip(i as int)[0] == (behind@[i as int].0@, behind@[i as int].1));
            assert(all.skip(i as int).skip(1) =~= all.skip(i + 1));
        }
        if same_text(behind[i].0.as_str(), key) {
            return behind[i].1;
        }
        i = i + 1;
    }
    0
}

impl CodeIntelEngine {
    fn repo_statuses(&self, behind: &[(String, usize)]) -> (r: Vec<RepoStatus>)
        ensures
            status_texts(r@) == statuses(self@, named_counts(behind@)),
    {
        let ghost all = self@.repos;
        let ghost late = named_counts(behind@);
        let mut out: Vec<RepoStatus> = Vec::new();
        let mut i: usize = 0;
        while i < self.repos.len()
            invariant
                i <= self.repos@.len(),
                all == self@.repos,
                all.len() == self.repos@.len(),
                late == named_counts(behind@),
                out@.len() == i,
                forall|j: int|
                    0 <= j < i ==> (#[trigger] out@[j])@ == status_of(
                        all[j],
                        self@.git_repos,
                        late,
                    ),
            decreases self.repos@.len() - i,
        {
            let repo = &self.repos[i];
            proof {
                assert(all[i as int] == repo@);
            }
            let git = self.has_git(repo.key.as_str());
            let commits_behind = find_behind(behind, repo.key.as_str());
            out.push(
                RepoStatus {
                    key: repo.key.clone(),
                    name: repo.metadata.name.clone(),
                    file_count: repo.metadata.file_count,
                    symbol_count: repo.symbols.len(),
                    git,
                    manifest_base: clone_text(&repo.metadata.cdb_head_hash),
                    head: clone_text(&repo.metadata.head_hash),
                    commits_behind,
                },
            );
            i = i + 1;
        }
        proof {
            assert(status_texts(out@) =~= statuses(self@, late));
        }
        out
    }

    /// Shows how far indexing has come, what is switched on and what is indexed. `progress`
    /// is the share of the repositories done, in percent.
    pub fn get_index_status(
        &mut self,
        arg: Option<&RepoArg>,
        figures: SearchFigures,
        progress: usize,
        behind: &[(String, usize)],
        memory: &str,
    ) -> (r: String)
        requires
            old(self)@.wf(),
        ensures
            final(self)@.wf(),
            final(self)@ == reported(old(self)@, arg_text(arg)),
            final(self).options == old(self).options,
            r@ == index_status_answer(
                FactsText {
                    initialized: old(self)@.initialized,
                    indexed_repos: old(self)@.indexed() as usize,
                    total_repos: old(self)@.total() as usize,
                    progress,
                    total_documents: figures.total_documents,
                    total_terms: figures.total_terms,
                    avg_doc_length: figures.avg_doc_length@,
                    git_enabled: old(self).options.git_enabled,
                    call_graph_enabled: old(self).options.call_graph_enabled,
                    persist_enabled: old(self).options.persist_enabled,
                    watch_enabled: old(self).options.watch_enabled,
                    doc_types: named_counts(figures.doc_types@),
                },
                statuses(old(self)@, named_counts(behind@)),
                limited_to(old(self)@, arg_text(arg)),
                memory@,
            ),
    {
        let (indexed_repos, total_repos) = self.indexing_progress();
        let ghost start = self@;
        let only: Option<String> = match arg {
            Some(a) => if a.input.as_str().is_empty() {
                None
            } else {
                match self.resolve_repo(a) {
                    Ok(key) => Some(key),
                    Err(_) => None,
                }
            },
            None => None,
        };
        proof {
            assert(self@.repos == start.repos);
            assert(self@.git_repos == start.git_repos);
            assert(statuses(self@, named_counts(behind@)) =~= statuses(
                start,
                named_counts(behind@),
            ));
        }
        let repos = self.repo_statuses(behind);
        let facts = IndexFacts {
            initialized: self.registry.initialized,
            indexed_repos,
            total_repos,
            progress,
            total_documents: figures.total_documents,
            total_terms: figures.total_terms,
            avg_doc_length: figures.avg_doc_length,
            git_enabled: self.options.git_enabled,
            call_graph_enabled: self.options.call_graph_enabled,
            persist_enabled: self.options.persist_enabled,
            watch_enabled: self.options.watch_enabled,
            doc_types: figures.doc_types,
        };
        match &only {
            Some(key) => render_index_status(&facts, repos.as_slice(), Some(key.as_str()), memory),
            None => render_index_status(&facts, repos.as_slice(), None, memory),
        }
    }

    /// Adds the cache's figures to a report of the server's metrics.
    pub fn get_metrics(&self, report: String, figures: CacheFigures) -> (r: String)
        ensures
            r@ == metrics_answer(
                report@,
                CacheFigures {
                    enabled: self.options.cache_enabled,
                    ttl_seconds: self.options.cache_ttl_seconds,
                    ..figures
                },
            ),
    {
        let own = CacheFigures {
            enabled: self.options.cache_enabled,
            ttl_seconds: self.options.cache_ttl_seconds,
            ..figures
        };
        render_metrics(report, &own)
    }

    /// Lists the repositories found below a directory.
    pub fn discover_repos(&self, base: &str, max_depth: usize, repos: &[FoundRepo]) -> (r: String)
        ensures
            r@ == discovered_answer(base@, max_depth, found_texts(repos@)),
    {
        render_discovered(base, max_depth, repos)
    }

    /// Tells whether a path can be indexed. `state` is an error where the path is not valid,
    /// and else whether it holds a repository.
    pub fn validate_repo(&self, path: &str, name: &str, state: Result<bool, String>) -> (r: String)
        ensures
            r@ == validation_answer(
                path@,
                name@,
                match state {
                    Ok(b) => Ok(b),
                    Err(e) => Err(e@),
                },
            ),
    {
        render_validation(path, name, state)
    }
}

// ---- rebuilding ----

/// A rebuild that is begun: the repository to index, none for all of them, and what is said
/// once it is done.
#[derive(Debug)]
pub struct ReindexRun {
    pub key: Option<String>,
    pub message: String,
}

/// The path a rebuild may adopt: a readable one that holds a repository.
pub open spec fn adoptable(readable: Option<Seq<char>>, is_repository: bool) -> Option<Seq<char>> {
    if is_repository {
        readable
    } else {
        None
    }
}

/// What becomes of a rebuild: the engine, and the repository and the message or the error.
pub open spec fn reindexed(
    state: EngineText,
    arg: Option<ArgText>,
    readable: Option<Seq<char>>,
    is_repository: bool,
    call_graphs: bool,
) -> (EngineText, Result<(Option<Seq<char>>, Seq<char>), Seq<char>>) {
    match arg {
        None => (
            EngineText { repos: Seq::empty(), files: Seq::empty(), ..state },
            Ok((None, reindexed_text(None, false))),
        ),
        Some(a) => match state.resolved(a) {
            Ok(key) => (
                state.named(a).emptied(key, call_graphs),
                Ok((Some(key), reindexed_text(Some(key), false))),
            ),
            Err(e) => match adoptable(readable, is_repository) {
                Some(path) => (
                    state.named(a).adopted(path, a.now).emptied(path, call_graphs),
                    Ok((Some(path), reindexed_text(Some(path), true))),
                ),
                None => (state.named(a), Err(e)),
            },
        },
    }
}

impl CodeIntelEngine {
    /// Begins a rebuild: what is indexed of the repository is dropped. One that is not known
    /// is adopted where its path is readable (`readable`, resolved) and holds a repository;
    /// otherwise the error of the lookup stands.
    pub fn reindex(&mut self, arg: Option<&RepoArg>, readable: Option<&str>, is_repository: bool)
        -> (r: Result<ReindexRun, String>)
        requires
            old(self)@.wf(),
        ensures
            final(self)@.wf(),
            final(self).options == old(self).options,
            (
                final(self)@,
                match r {
                    Ok(run) => Ok((opt_text(run.key), run.message@)),
                    Err(e) => Err(e@),
                },
            ) == reindexed(
                old(self)@,
                arg_text(arg),
                match readable {
                    Some(p) => Some(p@),
                    None => None,
                },
                is_repository,
                old(self).options.call_graph_enabled,
            ),
    {
        let a: &RepoArg = match arg {
            None => {
                self.begin_reindex_all();
                return Ok(ReindexRun { key: None, message: reindexed_message(None, false) });
            },
            Some(a) => a,
        };
        match self.resolve_repo(a) {
            Ok(key) => {
                self.begin_reindex(key.as_str());
                let message = reindexed_message(Some(key.as_str()), false);
                Ok(ReindexRun { key: Some(key), message })
            },
            Err(e) => match readable {
                Some(path) => if is_repository {
                    self.register_repo_path(path, a.now);
                    self.begin_reindex(path);
                    let message = reindexed_message(Some(path), true);
                    Ok(ReindexRun { key: Some(path.to_owned()), message })
                } else {
                    Err(e)
                },
                None => Err(e),
            },
        }
    }
}

// ---- a single function ----

/// Why the file of an analysis cannot be had. The repository goes by its key here.
pub open spec fn flow_file(
    state: EngineText,
    repo: Seq<char>,
    path: Seq<char>,
    disk: Seq<DiskText>,
) -> Result<Seq<char>, Seq<char>> {
    match repo_index(state.repos, repo) {
        None => Err("Repository '"@ + repo + "' not found"@),
        Some(i) => read_from(disk, state.repos[i].metadata.path, path),
    }
}

/// The place of the first function of a name.
pub open spec fn first_named(names: Seq<Seq<char>>, name: Seq<char>) -> Option<int>
    decreases names.len(),
{
    if names.len() == 0 {
        None
    } else {
        match first_named(names.drop_last(), name) {
            Some(i) => Some(i),
            None => if names.last() == name {
                Some(names.len() - 1)
            } else {
                None
            },
        }
    }
}

proof fn lemma_first_named(names: Seq<Seq<char>>, name: Seq<char>, i: int)
    requires
        0 <= i < names.len(),
        names[i] == name,
        forall|j: int| 0 <= j < i ==> #[trigger] names[j] != name,
    ensures
        first_named(names, name) == Some(i),
    decreases names.len(),
{
    if i < names.len() - 1 {
        lemma_first_named(names.drop_last(), name, i);
    } else {
        lemma_none_named(names.drop_last(), name);
    }
}

proof fn lemma_none_named(names: Seq<Seq<char>>, name: Seq<char>)
    requires
        forall|j: int| 0 <= j < names.len() ==> #[trigger] names[j] != name,
    ensures
        first_named(names, name) is None,
    decreases names.len(),
{
    if names.len() > 0 {
        lemma_none_named(names.drop_last(), name);
    }
}

fn place_of(names: &[String], function: &str, path: &str) -> (r: Result<usize, String>)
    ensures
        match r {
            Ok(i) => i < names@.len() && first_named(texts(names@), function@) == Some(i as int),
            Err(e) => first_named(texts(names@), function@) is None && e@ == no_such_function(
                function@,
                path@,
            ),
        },
{
    let ghost all = texts(names@);
    match find_function(names, function, path) {
        Ok(i) => {
            proof {
                assert forall|j: int| 0 <= j < i implies #[trigger] all[j] != function@ by {
                    assert(names@[j]@ != function@);
                }
                lemma_first_named(all, function@, i as int);
            }
            Ok(i)
        },
        Err(e) => {
            proof {
                assert forall|j: int| 0 <= j < all.len() implies #[trigger] all[j] != function@ by {
                    if all[j] == function@ {
                        assert(all.contains(function@));
                    }
                }
                lemma_none_named(all, function@);
            }
            Err(e)
        },
    }
}

/// What an analysis of a file came to: its functions, and what is shown of each.
#[derive(Debug)]
pub struct FlowReports {
    pub names: Vec<String>,
    pub reports: Vec<String>,
}

pub open spec fn flow_answer(
    file: Result<Seq<char>, Seq<char>>,
    analysis: Result<(Seq<Seq<char>>, Seq<Seq<char>>), Seq<char>>,
    function: Seq<char>,
    path: Seq<char>,
) -> Result<Seq<char>, Seq<char>> {
    match file {
        Err(e) => Err(e),
        Ok(_) => match analysis {
            Err(e) => Err(e),
            Ok(found) => match first_named(found.0, function) {
                Some(i) => Ok(found.1[i]),
                None => Err(no_such_function(function, path)),
            },
        },
    }
}

pub open spec fn reports_text(a: Result<FlowReports, String>) -> Result<
    (Seq<Seq<char>>, Seq<Seq<char>>),
    Seq<char>,
> {
    match a {
        Ok(f) => Ok((texts(f.names@), texts(f.reports@))),
        Err(e) => Err(e@),
    }
}

impl CodeIntelEngine {
    fn read_for_flow(&self, repo: &str, path: &str, disk: &[DiskFile]) -> (r: Result<String, String>)
        ensures
            answer(r) == flow_file(self@, repo@, path@, disk_texts(disk@)),
    {
        proof {
            lemma_repo_index(self@.repos, repo@);
        }
        match self.find_repo(repo) {
            None => {
                let mut e = "Repository '".to_owned();
                e.append(repo);
                e.append("' not found");
                Err(e)
            },
            Some(i) => read_file(disk, self.repos[i].metadata.path.as_str(), path),
        }
    }

    fn show_flow(
        &self,
        repo: &str,
        path: &str,
        function: &str,
        analysis: Result<FlowReports, String>,
        disk: &[DiskFile],
    ) -> (r: Result<String, String>)
        requires
            analysis matches Ok(f) ==> f.names@.len() == f.reports@.len(),
        ensures
            answer(r) == flow_answer(
                flow_file(self@, repo@, path@, disk_texts(disk@)),
                reports_text(analysis),
                function@,
                path@,
            ),
    {
        match self.read_for_flow(repo, path, disk) {
            Err(e) => {
                return Err(e);
            },
            Ok(_) => {},
        }
        match analysis {
            Err(e) => Err(e),
            Ok(found) => match place_of(found.names.as_slice(), function, path) {
                Ok(i) => Ok(found.reports[i].clone()),
                Err(e) => Err(e),
            },
        }
    }

    /// Shows the control flow of a function. The analysis of the file is an error where it
    /// does not parse.
    pub fn get_control_flow(
        &self,
        repo: &str,
        path: &str,
        function: &str,
        analysis: Result<FlowReports, String>,
        disk: &[DiskFile],
    ) -> (r: Result<String, String>)
        requires
            analysis matches Ok(f) ==> f.names@.len() == f.reports@.len(),
        ensures
            answer(r) == flow_answer(
                flow_file(self@, repo@, path@, disk_texts(disk@)),
                reports_text(analysis),
                function@,
                path@,
            ),
    {
        self.show_flow(repo, path, function, analysis, disk)
    }

    /// Shows the data flow of a function.
    pub fn get_data_flow(
        &self,
        repo: &str,
        path: &str,
        function: &str,
        analysis: Result<FlowReports, String>,
        disk: &[DiskFile],
    ) -> (r: Result<String, String>)
        requires
            analysis matches Ok(f) ==> f.names@.len() == f.reports@.len(),
        ensures
            answer(r) == flow_answer(
                flow_file(self@, repo@, path@, disk_texts(disk@)),
                reports_text(analysis),
                function@,
                path@,
            ),
    {
        self.show_flow(repo, path, function, analysis, disk)
    }

    /// Shows which uses the definitions of a function reach. `names` are the functions of the
    /// file, an error where it does not parse, and `chains` those of the function asked for.
    pub fn get_reaching_definitions(
        &self,
        repo: &str,
        path: &str,
        function: &str,
        names: Result<Vec<String>, String>,
        chains: &[DefUseChain],
        disk: &[DiskFile],
    ) -> (r: Result<String, String>)
        ensures
            answer(r) == (match flow_file(self@, repo@, path@, disk_texts(disk@)) {
                Err(e) => Err(e),
                Ok(_) => match names {
                    Err(e) => Err(e@),
                    Ok(list) => match first_named(texts(list@), function@) {
                        Some(i) => Ok(reaching_answer(function@, path@, chain_texts(chains@))),
                        None => Err(no_such_function(function@, path@)),
                    },
                },
            }),
    {
        match self.read_for_flow(repo, path, disk) {
            Err(e) => {
                return Err(e);
            },
            Ok(_) => {},
        }
        match names {
            Err(e) => Err(e),
            Ok(list) => match place_of(list.as_slice(), function, path) {
                Ok(_) => Ok(render_reaching_definitions(function, path, chains)),
                Err(e) => Err(e),
            },
        }
    }

    /// Shows the call graph of a repository, or the part of it around a function, as the
    /// graph renders it.
    pub fn get_call_graph(&mut self, arg: &RepoArg, rendered: String) -> (r: Result<String, String>)
        requires
            old(self)@.wf(),
        ensures
            final(self)@.wf(),
            final(self)@ == old(self)@.named(arg@),
            final(self).options == old(self).options,
            answer(r) == answered(
                old(self)@,
                arg@,
                |key: Seq<char>|
                    match call_graph_gap_spec(
                        None,
                        old(self)@.initialized,
                        old(self)@.call_graphs.contains(key),
                    ) {
                        Some(gap) => Err(gap.text("get_call_graph"@, key)),
                        None => Ok(rendered@),
                    },
            ),
    {
        let key = match self.resolve_repo(arg) {
            Ok(k) => k,
            Err(e) => {
                return Err(e);
            },
        };
        let graph = self.has_graph(key.as_str());
        match call_graph_gap(None, self.registry.initialized, graph) {
            Some(gap) => Err(gap.message("get_call_graph", key.as_str())),
            None => Ok(rendered),
        }
    }

    /// Shows the excerpts chosen from a file around some of its lines.
    pub fn get_excerpt(
        &mut self,
        arg: &RepoArg,
        path: &str,
        best: &[Excerpt],
        matches: usize,
        directory: bool,
        disk: &[DiskFile],
    ) -> (r: Result<String, String>)
        requires
            old(self)@.wf(),
        ensures
            final(self)@.wf(),
            final(self)@ == old(self)@.named(arg@),
            final(self).options == old(self).options,
            answer(r) == answered(
                old(self)@,
                arg@,
                |key: Seq<char>|
                    match place_on_disk(disk_texts(disk@), key, path@) {
                        Err(e) => Err(e),
                        Ok(f) => if directory {
                            Err("'"@ + path@ + "' is a directory, not a file"@)
                        } else {
                            match f.content {
                                None => Err("Failed to read file"@),
                                Some(_) => Ok(
                                    excerpts_answer(path@, excerpt_texts(best@), matches),
                                ),
                            }
                        },
                    },
            ),
    {
        let key = match self.resolve_repo(arg) {
            Ok(k) => k,
            Err(e) => {
                return Err(e);
            },
        };
        match locate_file(disk, key.as_str(), path) {
            Err(e) => Err(e),
            Ok(i) => if directory {
                let mut e = "'".to_owned();
                e.append(path);
                e.append("' is a directory, not a file");
                Err(e)
            } else if disk[i].content.is_none() {
                Err("Failed to read file".to_owned())
            } else {
                Ok(render_excerpts(path, best, matches))
            },
        }
    }
}

// ---- the control flow as a graph ----

/// An edge of a control-flow graph.
#[derive(Debug, Clone, Copy, PartialEq, Eq, Structural)]
pub struct FlowEdge {
    pub from: usize,
    pub to: usize,
    pub kind: FlowKind,
}

/// The control flow of one function, as an analysis found it.
#[derive(Debug)]
pub struct FlowGraph {
    pub name: String,
    pub blocks: Vec<FlowBlock>,
    pub edges: Vec<FlowEdge>,
}

/// The control flow of one function, as it is drawn.
#[derive(Debug)]
pub struct CfgData {
    pub file_path: String,
    pub blocks: Vec<CfgBlock>,
    pub edges: Vec<CfgEdge>,
}

/// Why a control-flow graph cannot be drawn.
#[derive(Debug)]
pub enum CfgError {
    Said(String),
    /// The analysis of the file has other functions only.
    NotAnalyzed { function: String, available: Vec<String> },
}

pub open spec fn block_is(b: CfgBlock, f: FlowBlock, source: Seq<Seq<char>>) -> bool {
    &&& b.id@ == block_id(f.id)
    &&& b.label@ == f.label@
    &&& b.block_type@ == block_type_spec(f.is_entry, f.is_exit, f.end)
    &&& b.start_line == f.start_line
    &&& b.code@ == block_code_spec(source, f.start_line, f.end_line, f.label@)
}

pub open spec fn edge_is(e: CfgEdge, f: FlowEdge) -> bool {
    &&& e.from@ == block_id(f.from)
    &&& e.to@ == block_id(f.to)
    &&& e.edge_type@ == edge_type_spec(f.kind)
    &&& opt_text(e.condition) == condition_spec(f.kind)
    &&& e.is_back_edge == (if f.kind == FlowKind::LoopBack {
        Some(true)
    } else {
        None
    })
}

/// The drawing shows every block and every edge of the graph, in order.
pub open spec fn draws(d: CfgData, file: Seq<char>, g: FlowGraph, source: Seq<Seq<char>>) -> bool {
    &&& d.file_path@ == file
    &&& d.blocks@.len() == g.blocks@.len()
    &&& forall|i: int|
        0 <= i < g.blocks@.len() ==> block_is(#[trigger] d.blocks@[i], g.blocks@[i], source)
    &&& d.edges@.len() == g.edges@.len()
    &&& forall|i: int| 0 <= i < g.edges@.len() ==> edge_is(#[trigger] d.edges@[i], g.edges@[i])
}

pub open spec fn graph_names(graphs: Seq<FlowGraph>) -> Seq<Seq<char>> {
    graphs.map_values(|g: FlowGraph| g.name@)
}

/// The graph that is drawn of a function: the one of its name or of its symbol's, or else
/// the first whose name is part of it.
pub open spec fn graph_for(names: Seq<Seq<char>>, function: Seq<char>, symbol: Seq<char>) -> Option<
    int,
> {
    match first_exact(names, function, symbol) {
        Some(i) => Some(i),
        None => first_partial(names, function),
    }
}

fn draw_graph(g: &FlowGraph, file: &str, content: &str) -> (r: CfgData)
    ensures
        draws(r, file@, *g, lines_of(content@)),
{
    let source = lines(content);
    let mut blocks: Vec<CfgBlock> = Vec::new();
    let mut i: usize = 0;
    while i < g.blocks.len()
        invariant
            i <= g.blocks@.len(),
            texts(source@) == lines_of(content@),
            blocks@.len() == i,
            forall|j: int|
                0 <= j < i ==> block_is(
                    #[trigger] blocks@[j],
                    g.blocks@[j],
                    lines_of(content@),
                ),
        decreases g.blocks@.len() - i,
    {
        blocks.push(draw_block(&g.blocks[i], source.as_slice()));
        i = i + 1;
    }
    let mut edges: Vec<CfgEdge> = Vec::new();
    let mut k: usize = 0;
    while k < g.edges.len()
        invariant
            k <= g.edges@.len(),
            edges@.len() == k,
            forall|j: int| 0 <= j < k ==> edge_is(#[trigger] edges@[j], g.edges@[j]),
        decreases g.edges@.len() - k,
    {
        let e = g.edges[k];
        edges.push(draw_edge(e.from, e.to, e.kind));
        k = k + 1;
    }
    CfgData { file_path: file.to_owned(), blocks, edges }
}

fn names_of(graphs: &[FlowGraph]) -> (r: Vec<String>)
    ensures
        texts(r@) == graph_names(graphs@),
{
    let mut out: Vec<String> = Vec::new();
    let mut i: usize = 0;
    while i < graphs.len()
        invariant
            i <= graphs@.len(),
            out@.len() == i,
            forall|j: int| 0 <= j < i ==> (#[trigger] out@[j])@ == graphs@[j].name@,
        decreases graphs@.len() - i,
    {
        out.push(graphs[i].name.clone());
        i = i + 1;
    }
    proof {
        assert(texts(out@) =~= graph_names(graphs@));
    }
    out
}

/// The symbol a control-flow graph is asked for, or what is said instead.
pub open spec fn flow_symbol(state: EngineText, arg: ArgText, function: Seq<char>) -> Result<
    (int, SymbolText),
    Seq<char>,
> {
    match state.resolved(arg) {
        Err(e) => Err(e),
        Ok(key) => match repo_index(state.repos, key) {
            None => Err("Repository '"@ + key + "' not found"@),
            Some(i) => match first_target(state.repos[i].symbols, function) {
                Some(s) => Ok((i, s)),
                None => Err("Function not found: "@ + function),
            },
        },
    }
}

impl CodeIntelEngine {
    fn find_flow_symbol(&mut self, arg: &RepoArg, function: &str) -> (r: Result<
        (usize, usize),
        String,
    >)
        requires
            old(self)@.wf(),
        ensures
            final(self)@.wf(),
            final(self)@ == old(self)@.named(arg@),
            final(self).options == old(self).options,
            match r {
                Err(e) => flow_symbol(old(self)@, arg@, function@) == Err::<
                    (int, SymbolText),
                    Seq<char>,
                >(e@),
                Ok(at) => {
                    let repos = final(self).repos@;
                    &&& at.0 < repos.len()
                    &&& at.1 < repos[at.0 as int].symbols@.len()
                    &&& flow_symbol(old(self)@, arg@, function@) == Ok::<
                        (int, SymbolText),
                        Seq<char>,
                    >((at.0 as int, repos[at.0 as int].symbols@[at.1 as int]@))
                },
            },
    {
        let ghost start = self@;
        let key = match self.resolve_repo(arg) {
            Ok(k) => k,
            Err(e) => {
                return Err(e);
            },
        };
        proof {
            assert(self@.repos == start.repos);
            lemma_repo_index(self@.repos, key@);
        }
        match self.find_repo(key.as_str()) {
            None => {
                let mut e = "Repository '".to_owned();
                e.append(key.as_str());
                e.append("' not found");
                Err(e)
            },
            Some(i) => match target_symbol(self.repos[i].symbols.as_slice(), function) {
                Some(k) => Ok((i, k)),
                None => {
                    let mut e = "Function not found: ".to_owned();
                    e.append(function);
                    Err(e)
                },
            },
        }
    }

    /// The file to analyze for the control flow of a function.
    pub fn cfg_file(&mut self, arg: &RepoArg, function: &str) -> (r: Result<String, String>)
        requires
            old(self)@.wf(),
        ensures
            final(self)@.wf(),
            final(self)@ == old(self)@.named(arg@),
            final(self).options == old(self).options,
            answer(r) == (match flow_symbol(old(self)@, arg@, function@) {
                Ok(found) => Ok(found.1.file_path),
                Err(e) => Err(e),
            }),
    {
        match self.find_flow_symbol(arg, function) {
            Err(e) => Err(e),
            Ok(at) => Ok(self.repos[at.0].symbols[at.1].file_path.clone()),
        }
    }

    /// Draws the control flow of a function from the graphs found in its file. `unread` is
    /// what the system says of a file that cannot be read, and `graphs` is an error where the
    /// file cannot be analyzed.
    pub fn get_cfg_for_viz(
        &mut self,
        arg: &RepoArg,
        function: &str,
        graphs: Result<Vec<FlowGraph>, String>,
        unread: &str,
        disk: &[DiskFile],
    ) -> (r: Result<CfgData, CfgError>)
        requires
            old(self)@.wf(),
        ensures
            final(self)@.wf(),
            final(self)@ == old(self)@.named(arg@),
            final(self).options == old(self).options,
            match flow_symbol(old(self)@, arg@, function@) {
                Err(e) => r matches Err(CfgError::Said(said)) && said@ == e,
                Ok(found) => match place_on_disk(
                    disk_texts(disk@),
                    old(self)@.repos[found.0].metadata.path,
                    found.1.file_path,
                ) {
                    Err(e) => r matches Err(CfgError::Said(said)) && said@ == e,
                    Ok(f) => match (f.content, graphs) {
                        (None, _) => r matches Err(CfgError::Said(said)) && said@ == unread@,
                        (Some(_), Err(e)) => r matches Err(CfgError::Said(said)) && said@ == e@,
                        (Some(content), Ok(list)) => match graph_for(
                            graph_names(list@),
                            function@,
                            found.1.name,
                        ) {
                            Some(i) => r matches Ok(d) && draws(
                                d,
                                found.1.file_path,
                                list@[i],
                                lines_of(content),
                            ),
                            None => r matches Err(CfgError::NotAnalyzed { function: f, available })
                                && f@ == function@ && texts(available@) == graph_names(list@),
                        },
                    },
                },
            },
    {
        let ghost start = self@;
        let at = match self.find_flow_symbol(arg, function) {
            Err(e) => {
                return Err(CfgError::Said(e));
            },
            Ok(at) => at,
        };
        proof {
            assert(self@.repos == start.repos);
            assert(self@.repos[at.0 as int] == self.repos@[at.0 as int]@);
        }
        let repo = &self.repos[at.0];
        let symbol = &repo.symbols[at.1];
        let place: usize = match locate_file(
            disk,
            repo.metadata.path.as_str(),
            symbol.file_path.as_str(),
        ) {
            Err(e) => {
                return Err(CfgError::Said(e));
            },
            Ok(i) => i,
        };
        match (&disk[place].content, graphs) {
            (None, _) => Err(CfgError::Said(unread.to_owned())),
            (Some(_), Err(e)) => Err(CfgError::Said(e)),
            (Some(content), Ok(list)) => {
                let names = names_of(list.as_slice());
                match choose_function(names.as_slice(), function, symbol.name.as_str()) {
                    Some(i) => {
                        proof {
                            assert(texts(names@).len() == list@.len());
                        }
                        Ok(draw_graph(&list[i], symbol.file_path.as_str(), content.as_str()))
                    },
                    None => Err(
                        CfgError::NotAnalyzed { function: function.to_owned(), available: names },
                    ),
                }
            },
        }
    }
}

} // verus!
