//! The tools: each resolves the repository it is asked about, passes the gates that stand
//! before its answer, and renders that answer.

use vstd::prelude::*;

use crate::budget::ListWindow;
use crate::callgraph::{
    cxx_file, edge_texts, fold_duplicate_sites, folded, is_cxx_file, merge_lsp_callers,
    merged_callers, reference_texts, CallEdge, EdgeText, Reference, ReferenceText,
};
use crate::calltools::{
    ambiguity_note, ambiguity_spec, call_graph_gap, call_graph_gap_spec, call_path_spec,
    complexity_spec, countable, direct_spec, distant_texts, hotspot_texts, hotspots_spec,
    render_call_path, render_complexity, render_direct, render_hotspots, render_transitive,
    transitive_spec, DistantFunction, EdgeTool, FunctionMetrics, Hotspot,
};
use crate::engine::{
    file_index, lemma_repo_index, repo_keys, symbols_of, ArgText, CodeIntelEngine, EngineText,
    IndexedText, RepoArg,
};
use crate::graphs::{
    definition_node, drawn_references, first_target, place_pairs, symbol_references, target_symbol,
    SymbolDefinition, SymbolReference,
};
use crate::history::{
    branch_answer, churn_answer, churn_texts, commit_answer, commit_texts, contributor_texts,
    contributors_answer, diff_cap, modified_answer, no_git_message, no_git_text, recent_answer,
    render_branch_info, render_churn, render_commit_diff, render_contributors_of,
    render_modified_files, render_recent_changes, render_symbol_history, sections,
    symbol_files_spec, symbol_history_answer, symbol_history_paths, undefined_symbol_text,
    CommitLine, Contributor, FileChurn, MIN_COMMIT_DIFF_BYTES, Upstream, UpstreamText,
};
use crate::lookup::{
    find_symbols, find_symbols_spec, is_unfiltered, unfiltered_answer, QueryText, SymbolQuery,
};
use crate::paths::{
    is_absolute, is_absolute_spec, is_under, join_path, join_path_spec, under, validate_pathspec,
    validate_pathspec_spec, PathError,
};
use crate::position::{
    go_to_answer, hover_answer, render_go_to_definition, render_hover, render_type_info,
    type_answer, DefinitionAnswer, DefinitionText, ServerAnswer, ServerText,
};
use crate::ranked::{
    copy_snippet, document_texts, first_of, hybrid_answer, hybrid_kept, hybrid_texts,
    ranks_countable, render_hybrid, render_semantic, semantic_answer, semantic_results,
    typed_terms, DocumentText, HybridResult, HybridText, RankedDocument,
};
use crate::references::{
    find_references, merged_references, outside_tests, references_answer, text_references,
    text_search_references,
};
use crate::registry::{not_found_text, repo_not_found_error, RegisteredText};
use crate::search::{find_hits, hit_texts, hits_of, search_of, CachedText, Hits};
use crate::show::{
    best_definition, definition_answer, file_answer, find_definition, get_file,
    gtags_definition_answer, hints_spec, missing_symbol_message, missing_text, near_names,
    range_end, range_error, range_start, render_definition, render_gtags_definition, symbols_named,
};
use crate::status::{
    incremental_answer, language_counts, list_repos_scoped, render_incremental_status,
    render_structure, repos_answer, structure_answer, summary_texts, LanguageCount,
    PersistedIndexState, RepoSummary, SummaryText, TreeBudget,
};
use crate::store::{dependencies_answer, get_dependencies};
use crate::symbols::{symbol_texts, SourceSet, Symbol, SymbolText};
use crate::text::{
    ascii_lower_text, copy_texts, has_text, lines_of, opt_text, same_text, str_text, texts,
};
use crate::tree::{build_tree, drawn, Drawing, TreeNode};
use crate::usages::{
    backend_texts, definition_rows, export_map_spec, find_symbol_usages, get_export_map, mentions,
    telling_answers, usages_answer, AnswerText, BackendAnswer,
};

verus! {

pub open spec fn answer(r: Result<String, String>) -> Result<Seq<char>, Seq<char>> {
    match r {
        Ok(text) => Ok(text@),
        Err(e) => Err(e@),
    }
}

/// The answer about the repository an argument names, or why it names none.
pub open spec fn answered(
    state: EngineText,
    arg: ArgText,
    about: spec_fn(Seq<char>) -> Result<Seq<char>, Seq<char>>,
) -> Result<Seq<char>, Seq<char>> {
    match state.resolved(arg) {
        Ok(key) => about(key),
        Err(e) => Err(e),
    }
}

/// The symbols of a repository, none where it is not indexed yet.
pub open spec fn symbols_or_none(repos: Seq<IndexedText>, key: Seq<char>) -> Seq<SymbolText> {
    match symbols_of(repos, key) {
        Some(list) => list,
        None => Seq::empty(),
    }
}

// ---- files on disk ----

/// A file as it is on disk. `canonical` is absent where it does not exist, `content` where it
/// cannot be read.
#[derive(Debug)]
pub struct DiskFile {
    pub path: String,
    pub canonical: Option<String>,
    pub content: Option<String>,
}

pub struct DiskText {
    pub path: Seq<char>,
    pub canonical: Option<Seq<char>>,
    pub content: Option<Seq<char>>,
}

impl View for DiskFile {
    type V = DiskText;

    open spec fn view(&self) -> DiskText {
        DiskText {
            path: self.path@,
            canonical: opt_text(self.canonical),
            content: opt_text(self.content),
        }
    }
}

pub open spec fn disk_texts(v: Seq<DiskFile>) -> Seq<DiskText> {
    v.map_values(|f: DiskFile| f@)
}

pub open spec fn on_disk(disk: Seq<DiskText>, path: Seq<char>) -> Option<DiskText>
    decreases disk.len(),
{
    if disk.len() == 0 {
        None
    } else if disk[0].path == path {
        Some(disk[0])
    } else {
        on_disk(disk.skip(1), path)
    }
}

/// Where a requested file really is, or why it is not served: it has to be inside the
/// repository once links are followed.
pub open spec fn place_on_disk(disk: Seq<DiskText>, root: Seq<char>, rel: Seq<char>) -> Result<
    DiskText,
    Seq<char>,
> {
    if is_absolute_spec(rel) {
        Err(PathError::Absolute.text())
    } else {
        match on_disk(disk, join_path_spec(root, rel)) {
            None => Err("Path does not exist or cannot be accessed"@),
            Some(f) => match f.canonical {
                None => Err("Path does not exist or cannot be accessed"@),
                Some(c) => if is_under(c, root) {
                    Ok(f)
                } else {
                    Err(PathError::OutsideRepository.text())
                },
            },
        }
    }
}

/// The content of a requested file.
pub open spec fn read_from(disk: Seq<DiskText>, root: Seq<char>, rel: Seq<char>) -> Result<
    Seq<char>,
    Seq<char>,
> {
    match place_on_disk(disk, root, rel) {
        Err(e) => Err(e),
        Ok(f) => match f.content {
            Some(text) => Ok(text),
            None => Err("Failed to read file"@),
        },
    }
}

fn find_on_disk(disk: &[DiskFile], path: &str) -> (r: Option<usize>)
    ensures
        match r {
            Some(i) => i < disk@.len() && on_disk(disk_texts(disk@), path@) == Some(
                disk@[i as int]@,
            ),
            None => on_disk(disk_texts(disk@), path@) is None,
        },
{
    let ghost all = disk_texts(disk@);
    let mut i: usize = 0;
    proof {
        assert(all.skip(0) =~= all);
    }
    while i < disk.len()
        invariant
            i <= disk@.len(),
            all == disk_texts(disk@),
            on_disk(all, path@) == on_disk(all.skip(i as int), path@),
        decreases disk@.len() - i,
    {
        proof {
            assert(all.skip(i as int)[0] == disk@[i as int]@);
            assert(all.skip(i as int).skip(1) =~= all.skip(i + 1));
        }
        if same_text(disk[i].path.as_str(), path) {
            return Some(i);
        }
        i = i + 1;
    }
    None
}

/// Finds a requested file, where it may be served.
pub fn locate_file(disk: &[DiskFile], root: &str, rel: &str) -> (r: Result<usize, String>)
    ensures
        match r {
            Ok(i) => i < disk@.len() && place_on_disk(disk_texts(disk@), root@, rel@) == Ok::<
                DiskText,
                Seq<char>,
            >(disk@[i as int]@),
            Err(e) => place_on_disk(disk_texts(disk@), root@, rel@) == Err::<DiskText, Seq<char>>(
                e@,
            ),
        },
{
    if is_absolute(rel) {
        return Err(PathError::Absolute.message());
    }
    let path = join_path(root, rel);
    match find_on_disk(disk, path.as_str()) {
        None => Err("Path does not exist or cannot be accessed".to_owned()),
        Some(i) => match &disk[i].canonical {
            None => Err("Path does not exist or cannot be accessed".to_owned()),
            Some(c) => if under(c.as_str(), root) {
                Ok(i)
            } else {
                Err(PathError::OutsideRepository.message())
            },
        },
    }
}

/// Reads a requested file.
pub fn read_file(disk: &[DiskFile], root: &str, rel: &str) -> (r: Result<String, String>)
    ensures
        answer(r) == read_from(disk_texts(disk@), root@, rel@),
{
    match locate_file(disk, root, rel) {
        Err(e) => Err(e),
        Ok(i) => match &disk[i].content {
            Some(text) => Ok(text.clone()),
            None => Err("Failed to read file".to_owned()),
        },
    }
}

/// What is served lies inside the repository.
pub proof fn law_served_files_are_inside(disk: Seq<DiskText>, root: Seq<char>, rel: Seq<char>)
    requires
        read_from(disk, root, rel) is Ok,
    ensures
        place_on_disk(disk, root, rel) matches Ok(f) && (f.canonical matches Some(c) && is_under(
            c,
            root,
        )),
{
}

// ---- what the tools read ----

/// The keys of a repository that is named but not indexed.
pub open spec fn not_indexed(state: EngineText, key: Seq<char>) -> Seq<char> {
    not_found_text(key, repo_keys(state.repos))
}

impl CodeIntelEngine {
    fn symbols_for(&self, key: &str) -> (r: Option<&Vec<Symbol>>)
        ensures
            (match r {
                Some(list) => Some(symbol_texts(list@)),
                None => None,
            }) == symbols_of(self@.repos, key@),
    {
        proof {
            lemma_repo_index(self@.repos, key@);
        }
        match self.find_repo(key) {
            Some(i) => Some(&self.repos[i].symbols),
            None => None,
        }
    }

    fn not_indexed_error(&self, key: &str) -> (r: String)
        ensures
            r@ == not_indexed(self@, key@),
    {
        let known = self.indexed_keys();
        repo_not_found_error(key, known.as_slice())
    }

    pub(crate) fn has_git(&self, key: &str) -> (r: bool)
        ensures
            r == self@.git_repos.contains(key@),
    {
        has_text(self.git_repos.as_slice(), key)
    }

    pub(crate) fn has_graph(&self, key: &str) -> (r: bool)
        ensures
            r == self@.call_graphs.contains(key@),
    {
        has_text(self.call_graphs.as_slice(), key)
    }
}

// ---- what some tools show ----

/// What is shown of a symbol's definition.
pub open spec fn definition_shown(
    key: Seq<char>,
    symbols: Seq<SymbolText>,
    name: Seq<char>,
    context: usize,
    tag: Option<(Seq<char>, usize)>,
    disk: Seq<DiskText>,
    hover: Option<Seq<char>>,
    cxx: SourceSet,
    other: SourceSet,
) -> Result<Seq<char>, Seq<char>> {
    let found = symbols_named(symbols, name);
    match best_definition(found) {
        Some(i) => match read_from(disk, key, found[i].file_path) {
            Err(e) => Err(e),
            Ok(content) => Ok(
                definition_answer(
                    found,
                    found[i],
                    lines_of(content),
                    context,
                    cxx,
                    other,
                    hover,
                ),
            ),
        },
        None => match tag {
            Some(t) => match read_from(disk, key, t.0) {
                Err(e) => Err(e),
                Ok(content) => Ok(
                    gtags_definition_answer(name, t.0, t.1, context, lines_of(content)),
                ),
            },
            None => Err(missing_text(name, key, hints_spec(symbols, name))),
        },
    }
}

fn show_definition(
    key: &str,
    symbols: &[Symbol],
    name: &str,
    context: usize,
    tag: Option<(String, usize)>,
    disk: &[DiskFile],
    hover: Option<&str>,
    cxx: SourceSet,
    other: SourceSet,
) -> (r: Result<String, String>)
    ensures
        answer(r) == definition_shown(
            key@,
            symbol_texts(symbols@),
            name@,
            context,
            tag_text(tag),
            disk_texts(disk@),
            str_text(hover),
            cxx,
            other,
        ),
{
    match find_definition(symbols, name) {
        Some(found) => {
            proof {
                assert(symbol_texts(found.matches@)[found.chosen as int]
                    == found.matches@[found.chosen as int]@);
            }
            match read_file(disk, key, found.matches[found.chosen].file_path.as_str()) {
                Err(e) => Err(e),
                Ok(content) => Ok(
                    render_definition(&found, content.as_str(), context, cxx, other, hover),
                ),
            }
        },
        None => match tag {
            Some(t) => match read_file(disk, key, t.0.as_str()) {
                Err(e) => Err(e),
                Ok(content) => Ok(
                    render_gtags_definition(name, t.0.as_str(), t.1, context, content.as_str()),
                ),
            },
            None => {
                let hints = near_names(symbols, name);
                Err(missing_symbol_message(name, key, hints.as_slice()))
            },
        },
    }
}

pub open spec fn tag_text(tag: Option<(String, usize)>) -> Option<(Seq<char>, usize)> {
    match tag {
        Some(t) => Some((t.0@, t.1)),
        None => None,
    }
}

pub open spec fn upstream_text(upstream: Option<Upstream>) -> Option<UpstreamText> {
    match upstream {
        Some(up) => Some(up@),
        None => None,
    }
}

pub open spec fn path_texts(path: Option<&[String]>) -> Option<Seq<Seq<char>>> {
    match path {
        Some(p) => Some(texts(p@)),
        None => None,
    }
}

pub open spec fn server_refs(server: Option<Option<Vec<Reference>>>) -> Option<Seq<ReferenceText>> {
    match server {
        None => None,
        Some(None) => Some(Seq::empty()),
        Some(Some(list)) => Some(reference_texts(list@)),
    }
}

/// The references listed: those of the text, and those of the servers where they run.
pub open spec fn found_references(
    text: Seq<ReferenceText>,
    server: Option<Seq<ReferenceText>>,
    tests: Seq<Seq<char>>,
    symbol: Seq<char>,
    window: ListWindow,
) -> Seq<char> {
    let from_text = outside_tests(text, tests);
    match server {
        None => references_answer(from_text, false, symbol, window),
        Some(list) => {
            let from_server = outside_tests(list, tests);
            references_answer(
                merged_references(from_text, from_server),
                from_server.len() > 0,
                symbol,
                window,
            )
        },
    }
}

pub open spec fn server_text(server: Option<(Vec<Reference>, SourceSet)>) -> Option<
    (Seq<ReferenceText>, SourceSet),
> {
    match server {
        Some(s) => Some((reference_texts(s.0@), s.1)),
        None => None,
    }
}

/// A symbol is the function asked about.
pub open spec fn is_asked_for(s: SymbolText, function: Seq<char>) -> bool {
    s.name == function || s.qualified_name == Some(function)
}

/// The function asked about is defined in a C or C++ file, by the first symbol that goes by
/// its name.
pub open spec fn defined_in_cxx(symbols: Seq<SymbolText>, function: Seq<char>) -> bool
    decreases symbols.len(),
{
    if symbols.len() == 0 {
        false
    } else if is_asked_for(symbols[0], function) {
        is_cxx_file(symbols[0].file_path)
    } else {
        defined_in_cxx(symbols.skip(1), function)
    }
}

/// The callers of a function: those of the call graph, with what the language servers found
/// folded in for a C or C++ function, each place once.
pub open spec fn all_callers(
    edges: Seq<EdgeText>,
    server: Option<(Seq<ReferenceText>, SourceSet)>,
    function: Seq<char>,
    symbols: Option<Seq<SymbolText>>,
) -> Seq<EdgeText> {
    folded(
        match (server, symbols) {
            (Some(s), Some(list)) => if defined_in_cxx(list, function) {
                merged_callers(edges, s.0, function, list, s.1)
            } else {
                edges
            },
            _ => edges,
        },
    )
}

fn is_defined_in_cxx(symbols: &[Symbol], function: &str) -> (r: bool)
    ensures
        r == defined_in_cxx(symbol_texts(symbols@), function@),
{
    let ghost all = symbol_texts(symbols@);
    let mut i: usize = 0;
    proof {
        assert(all.skip(0) =~= all);
    }
    while i < symbols.len()
        invariant
            i <= symbols@.len(),
            all == symbol_texts(symbols@),
            defined_in_cxx(all, function@) == defined_in_cxx(all.skip(i as int), function@),
        decreases symbols@.len() - i,
    {
        proof {
            assert(all.skip(i as int)[0] == symbols@[i as int]@);
            assert(all.skip(i as int).skip(1) =~= all.skip(i + 1));
        }
        let qualified = match &symbols[i].qualified_name {
            Some(q) => same_text(q.as_str(), function),
            None => false,
        };
        if same_text(symbols[i].name.as_str(), function) || qualified {
            return cxx_file(symbols[i].file_path.as_str());
        }
        i = i + 1;
    }
    false
}

fn collect_callers(
    edges: Vec<CallEdge>,
    server: Option<(Vec<Reference>, SourceSet)>,
    function: &str,
    symbols: Option<&Vec<Symbol>>,
) -> (r: Vec<CallEdge>)
    ensures
        edge_texts(r@) == all_callers(
            edge_texts(edges@),
            server_text(server),
            function@,
            match symbols {
                Some(list) => Some(symbol_texts(list@)),
                None => None,
            },
        ),
{
    match (server, symbols) {
        (Some(s), Some(list)) => {
            if is_defined_in_cxx(list.as_slice(), function) {
                let merged = merge_lsp_callers(
                    edges,
                    s.0.as_slice(),
                    function,
                    list.as_slice(),
                    s.1,
                );
                fold_duplicate_sites(merged.as_slice())
            } else {
                fold_duplicate_sites(edges.as_slice())
            }
        },
        _ => fold_duplicate_sites(edges.as_slice()),
    }
}

/// What is shown of a symbol's uses.
pub open spec fn usages_shown(
    state: EngineText,
    key: Seq<char>,
    symbol: Seq<char>,
    imports: bool,
    tests: Seq<Seq<char>>,
    answers: Seq<AnswerText>,
) -> Seq<char> {
    let telling = telling_answers(answers);
    usages_answer(
        symbol,
        definition_rows(symbols_or_none(state.repos, key), symbol, tests),
        mentions(state.files, key, symbol, imports, tests),
        if telling.len() > 0 {
            Some(telling)
        } else {
            None
        },
    )
}

pub open spec fn pathspec_checked(path: Option<Seq<char>>) -> Result<(), Seq<char>> {
    match path {
        Some(p) => match validate_pathspec_spec(p) {
            Ok(_) => Ok(()),
            Err(e) => Err(e.text()),
        },
        None => Ok(()),
    }
}

pub open spec fn path_checked(disk: Seq<DiskText>, root: Seq<char>, path: Option<Seq<char>>) -> Result<
    (),
    Seq<char>,
> {
    match path {
        Some(p) => match place_on_disk(disk, root, p) {
            Ok(_) => Ok(()),
            Err(e) => Err(e),
        },
        None => Ok(()),
    }
}

/// The files whose history is searched for a symbol.
pub open spec fn history_files(
    symbols: Seq<SymbolText>,
    disk: Seq<DiskText>,
    key: Seq<char>,
    path: Seq<char>,
    symbol: Seq<char>,
) -> Result<Seq<Seq<char>>, Seq<char>> {
    let defining = symbol_files_spec(symbols, symbol);
    if path.len() > 0 {
        match place_on_disk(disk, key, path) {
            Ok(_) => Ok(seq![path]),
            Err(e) => Err(e),
        }
    } else if defining.len() > 0 {
        Ok(defining)
    } else {
        Err(undefined_symbol_text(symbol, key))
    }
}

// ---- tools about one repository ----

impl CodeIntelEngine {
    /// Finds symbols by name, kind and file.
    pub fn find_symbols(
        &mut self,
        arg: &RepoArg,
        query: &SymbolQuery,
        tests: &[String],
        filtered: &[String],
        submodules: &[String],
        cxx: SourceSet,
        other: SourceSet,
    ) -> (r: Result<String, String>)
        requires
            old(self)@.wf(),
        ensures
            final(self)@.wf(),
            final(self)@ == old(self)@.named(arg@),
            final(self).options == old(self).options,
            answer(r) == answered(
                old(self)@,
                arg@,
                |key: Seq<char>|
                    if is_unfiltered(query@) {
                        Ok(unfiltered_answer(key))
                    } else {
                        match symbols_of(old(self)@.repos, key) {
                            None => Err(not_indexed(old(self)@, key)),
                            Some(list) => Ok(
                                find_symbols_spec(
                                    key,
                                    list,
                                    query@,
                                    texts(tests@),
                                    texts(filtered@),
                                    texts(submodules@),
                                    cxx,
                                    other,
                                ),
                            )
                        }
                    },
            ),
            answer(r) == symbols_said(
                old(self)@,
                arg@,
                query@,
                texts(tests@),
                texts(filtered@),
                texts(submodules@),
                cxx,
                other,
            ),
    {
        let key = match self.resolve_repo(arg) {
            Ok(k) => k,
            Err(e) => {
                return Err(e);
            },
        };
        let none: Vec<Symbol> = Vec::new();
        let unfiltered = query.symbol_type.is_none() && query.pattern.is_none()
            && query.file_pattern.is_none();
        match self.symbols_for(key.as_str()) {
            Some(list) => Ok(
                find_symbols(
                    key.as_str(),
                    list.as_slice(),
                    query,
                    tests,
                    filtered,
                    submodules,
                    cxx,
                    other,
                ),
            ),
            None => if unfiltered {
                Ok(
                    find_symbols(
                        key.as_str(),
                        none.as_slice(),
                        query,
                        tests,
                        filtered,
                        submodules,
                        cxx,
                        other,
                    ),
                )
            } else {
                Err(self.not_indexed_error(key.as_str()))
            },
        }
    }

    /// Shows the definition of a symbol: the best one indexed, or where the tags have it. `disk`
    /// holds the file it stands in.
    pub fn get_symbol_definition(
        &mut self,
        arg: &RepoArg,
        name: &str,
        context: usize,
        tag: Option<(String, usize)>,
        disk: &[DiskFile],
        hover: Option<&str>,
        cxx: SourceSet,
        other: SourceSet,
    ) -> (r: Result<String, String>)
        requires
            old(self)@.wf(),
        ensures
            final(self)@.wf(),
            final(self)@ == old(self)@.named(arg@),
            final(self).options == old(self).options,
            answer(r) == answered(
                old(self)@,
                arg@,
                |key: Seq<char>|
                    match symbols_of(old(self)@.repos, key) {
                        None => Err(not_indexed(old(self)@, key)),
                        Some(list) => definition_shown(
                            key,
                            list,
                            name@,
                            context,
                            tag_text(tag),
                            disk_texts(disk@),
                            str_text(hover),
                            cxx,
                            other,
                        )
                    },
            ),
            answer(r) == definition_said(
                old(self)@,
                arg@,
                name@,
                context,
                tag_text(tag),
                disk_texts(disk@),
                str_text(hover),
                cxx,
                other,
            ),
    {
        let key = match self.resolve_repo(arg) {
            Ok(k) => k,
            Err(e) => {
                return Err(e);
            },
        };
        match self.symbols_for(key.as_str()) {
            None => Err(self.not_indexed_error(key.as_str())),
            Some(list) => show_definition(
                key.as_str(),
                list.as_slice(),
                name,
                context,
                tag,
                disk,
                hover,
                cxx,
                other,
            ),
        }
    }

    /// Shows a file, or a range of its lines.
    pub fn get_file(
        &mut self,
        arg: &RepoArg,
        path: &str,
        start_line: Option<usize>,
        end_line: Option<usize>,
        max_bytes: usize,
        disk: &[DiskFile],
    ) -> (r: Result<String, String>)
        requires
            old(self)@.wf(),
        ensures
            final(self)@.wf(),
            final(self)@ == old(self)@.named(arg@),
            final(self).options == old(self).options,
            answer(r) == answered(
                old(self)@,
                arg@,
                |key: Seq<char>|
                    match read_from(disk_texts(disk@), key, path@) {
                        Err(e) => Err(e),
                        Ok(content) => {
                            let ls = lines_of(content);
                            match range_error(start_line, end_line, ls.len()) {
                                Some(e) => Err(e.text(path@)),
                                None => Ok(
                                    file_answer(
                                        path@,
                                        ls,
                                        range_start(start_line),
                                        range_end(end_line, ls.len()),
                                        max_bytes,
                                    ),
                                )
                            }
                        }
                    },
            ),
            answer(r) == file_said(
                old(self)@,
                arg@,
                path@,
                start_line,
                end_line,
                max_bytes,
                disk_texts(disk@),
            ),
    {
        let key = match self.resolve_repo(arg) {
            Ok(k) => k,
            Err(e) => {
                return Err(e);
            },
        };
        match read_file(disk, key.as_str(), path) {
            Err(e) => Err(e),
            Ok(content) => match get_file(path, content.as_str(), start_line, end_line, max_bytes) {
                Ok(text) => Ok(text),
                Err(e) => Err(e.message(path)),
            },
        }
    }

    /// Lists where a symbol is mentioned. `server` is absent where no language server runs, and
    /// else holds what it found in time.
    pub fn find_references(
        &mut self,
        arg: &RepoArg,
        symbol: &str,
        server: Option<Option<Vec<Reference>>>,
        tests: &[String],
        window: ListWindow,
    ) -> (r: Result<String, String>)
        requires
            old(self)@.wf(),
        ensures
            final(self)@.wf(),
            final(self)@ == old(self)@.named(arg@),
            final(self).options == old(self).options,
            answer(r) == answered(
                old(self)@,
                arg@,
                |key: Seq<char>|
                    Ok(
                        found_references(
                            text_references(old(self)@.files, key, symbol@),
                            server_refs(server),
                            texts(tests@),
                            symbol@,
                            window,
                        ),
                    ),
            ),
            answer(r) == references_said(
                old(self)@,
                arg@,
                symbol@,
                server_refs(server),
                texts(tests@),
                window,
            ),
    {
        let key = match self.resolve_repo(arg) {
            Ok(k) => k,
            Err(e) => {
                return Err(e);
            },
        };
        let text_refs = text_search_references(self.files.as_slice(), key.as_str(), symbol);
        let none: Vec<Reference> = Vec::new();
        proof {
            assert(reference_texts(none@) =~= Seq::<ReferenceText>::empty());
            reveal(Seq::filter);
        }
        match server {
            None => Ok(
                find_references(text_refs.as_slice(), false, None, tests, symbol, window),
            ),
            Some(None) => Ok(
                find_references(
                    text_refs.as_slice(),
                    true,
                    Some(none.as_slice()),
                    tests,
                    symbol,
                    window,
                ),
            ),
            Some(Some(list)) => Ok(
                find_references(
                    text_refs.as_slice(),
                    true,
                    Some(list.as_slice()),
                    tests,
                    symbol,
                    window,
                ),
            ),
        }
    }

    /// Lists the definitions and the uses of a symbol, cross-checked with the backends.
    pub fn find_symbol_usages(
        &mut self,
        arg: &RepoArg,
        symbol: &str,
        imports: bool,
        tests: &[String],
        answers: Vec<BackendAnswer>,
    ) -> (r: Result<String, String>)
        requires
            old(self)@.wf(),
        ensures
            final(self)@.wf(),
            final(self)@ == old(self)@.named(arg@),
            final(self).options == old(self).options,
            answer(r) == answered(
                old(self)@,
                arg@,
                |key: Seq<char>|
                    Ok(
                        usages_shown(
                            old(self)@,
                            key,
                            symbol@,
                            imports,
                            texts(tests@),
                            backend_texts(answers@),
                        ),
                    ),
            ),
            answer(r) == usages_said(
                old(self)@,
                arg@,
                symbol@,
                imports,
                texts(tests@),
                backend_texts(answers@),
            ),
    {
        let key = match self.resolve_repo(arg) {
            Ok(k) => k,
            Err(e) => {
                return Err(e);
            },
        };
        let none: Vec<Symbol> = Vec::new();
        proof {
            assert(symbol_texts(none@) =~= Seq::<SymbolText>::empty());
        }
        let list = match self.symbols_for(key.as_str()) {
            Some(l) => l.as_slice(),
            None => none.as_slice(),
        };
        Ok(
            find_symbol_usages(
                symbol,
                list,
                self.files.as_slice(),
                key.as_str(),
                imports,
                tests,
                answers,
            ),
        )
    }

    /// Lists what a file exports.
    pub fn get_export_map(
        &mut self,
        arg: &RepoArg,
        path: &str,
        disk: &[DiskFile],
    ) -> (r: Result<String, String>)
        requires
            old(self)@.wf(),
        ensures
            final(self)@.wf(),
            final(self)@ == old(self)@.named(arg@),
            final(self).options == old(self).options,
            answer(r) == answered(
                old(self)@,
                arg@,
                |key: Seq<char>|
                    match read_from(disk_texts(disk@), key, path@) {
                        Err(e) => Err(e),
                        Ok(content) => Ok(
                            export_map_spec(
                                path@,
                                symbols_or_none(old(self)@.repos, key),
                                lines_of(content),
                            ),
                        )
                    },
            ),
    {
        let key = match self.resolve_repo(arg) {
            Ok(k) => k,
            Err(e) => {
                return Err(e);
            },
        };
        let none: Vec<Symbol> = Vec::new();
        proof {
            assert(symbol_texts(none@) =~= Seq::<SymbolText>::empty());
        }
        let list = match self.symbols_for(key.as_str()) {
            Some(l) => l.as_slice(),
            None => none.as_slice(),
        };
        match read_file(disk, key.as_str(), path) {
            Err(e) => Err(e),
            Ok(content) => Ok(get_export_map(path, list, content.as_str())),
        }
    }

    /// Lists what a file imports and what imports it.
    pub fn get_dependencies(
        &mut self,
        arg: &RepoArg,
        path: &str,
        direction: &str,
        disk: &[DiskFile],
    ) -> (r: Result<String, String>)
        requires
            old(self)@.wf(),
        ensures
            final(self)@.wf(),
            final(self)@ == old(self)@.named(arg@),
            final(self).options == old(self).options,
            answer(r) == answered(
                old(self)@,
                arg@,
                |key: Seq<char>|
                    match place_on_disk(disk_texts(disk@), key, path@) {
                        Err(e) => Err(e),
                        Ok(f) => match f.content {
                            None => Err("Failed to read file"@),
                            Some(content) => Ok(
                                dependencies_answer(
                                    key,
                                    path@,
                                    f.canonical->0,
                                    content,
                                    direction@,
                                    old(self)@.files,
                                ),
                            )
                        }
                    },
            ),
    {
        let key = match self.resolve_repo(arg) {
            Ok(k) => k,
            Err(e) => {
                return Err(e);
            },
        };
        match locate_file(disk, key.as_str(), path) {
            Err(e) => Err(e),
            Ok(i) => match (&disk[i].content, &disk[i].canonical) {
                (Some(content), Some(file)) => Ok(
                    get_dependencies(
                        key.as_str(),
                        path,
                        file.as_str(),
                        content.as_str(),
                        direction,
                        self.files.as_slice(),
                    ),
                ),
                _ => Err("Failed to read file".to_owned()),
            },
        }
    }

    /// Lists the callers of a function. `edges` are those of the call graph; `server` holds what
    /// the language servers found, with the backend that answers for them.
    pub fn get_callers(
        &mut self,
        arg: &RepoArg,
        function: &str,
        definitions: &[String],
        edges: Vec<CallEdge>,
        server: Option<(Vec<Reference>, SourceSet)>,
        tests: &[String],
        window: ListWindow,
        cxx: SourceSet,
        other: SourceSet,
    ) -> (r: Result<String, String>)
        requires
            old(self)@.wf(),
        ensures
            final(self)@.wf(),
            final(self)@ == old(self)@.named(arg@),
            final(self).options == old(self).options,
            answer(r) == answered(
                old(self)@,
                arg@,
                |key: Seq<char>|
                    match call_graph_gap_spec(
                        Some(function@),
                        old(self)@.initialized,
                        old(self)@.call_graphs.contains(key),
                    ) {
                        Some(gap) => Err(gap.text("get_callers"@, key)),
                        None => Ok(
                            direct_spec(
                                EdgeTool::Callers,
                                function@,
                                ambiguity_spec(texts(definitions@), function@),
                                all_callers(
                                    edge_texts(edges@),
                                    server_text(server),
                                    function@,
                                    symbols_of(old(self)@.repos, key),
                                ),
                                texts(tests@),
                                window,
                                cxx,
                                other,
                            ),
                        )
                    },
            ),
            answer(r) == callers_said(
                old(self)@,
                arg@,
                function@,
                texts(definitions@),
                edge_texts(edges@),
                server_text(server),
                texts(tests@),
                window,
                cxx,
                other,
            ),
    {
        let key = match self.resolve_repo(arg) {
            Ok(k) => k,
            Err(e) => {
                return Err(e);
            },
        };
        let graph = self.has_graph(key.as_str());
        match call_graph_gap(Some(function), self.registry.initialized, graph) {
            Some(gap) => Err(gap.message("get_callers", key.as_str())),
            None => {
                let note = ambiguity_note(definitions, function);
                let merged = collect_callers(
                    edges,
                    server,
                    function,
                    self.symbols_for(key.as_str()),
                );
                Ok(
                    render_direct(
                        EdgeTool::Callers,
                        function,
                        note.as_str(),
                        merged.as_slice(),
                        tests,
                        window,
                        cxx,
                        other,
                    ),
                )
            },
        }
    }

    /// Lists the functions a function calls, each call site once.
    pub fn get_callees(
        &mut self,
        arg: &RepoArg,
        function: &str,
        definitions: &[String],
        edges: &[CallEdge],
        tests: &[String],
        window: ListWindow,
        cxx: SourceSet,
        other: SourceSet,
    ) -> (r: Result<String, String>)
        requires
            old(self)@.wf(),
        ensures
            final(self)@.wf(),
            final(self)@ == old(self)@.named(arg@),
            final(self).options == old(self).options,
            answer(r) == answered(
                old(self)@,
                arg@,
                |key: Seq<char>|
                    match call_graph_gap_spec(
                        Some(function@),
                        old(self)@.initialized,
                        old(self)@.call_graphs.contains(key),
                    ) {
                        Some(gap) => Err(gap.text("get_callees"@, key)),
                        None => Ok(
                            direct_spec(
                                EdgeTool::Callees,
                                function@,
                                ambiguity_spec(texts(definitions@), function@),
                                folded(edge_texts(edges@)),
                                texts(tests@),
                                window,
                                cxx,
                                other,
                            ),
                        )
                    },
            ),
    {
        let key = match self.resolve_repo(arg) {
            Ok(k) => k,
            Err(e) => {
                return Err(e);
            },
        };
        let graph = self.has_graph(key.as_str());
        match call_graph_gap(Some(function), self.registry.initialized, graph) {
            Some(gap) => Err(gap.message("get_callees", key.as_str())),
            None => {
                let note = ambiguity_note(definitions, function);
                let sites = fold_duplicate_sites(edges);
                Ok(
                    render_direct(
                        EdgeTool::Callees,
                        function,
                        note.as_str(),
                        sites.as_slice(),
                        tests,
                        window,
                        cxx,
                        other,
                    ),
                )
            },
        }
    }

    /// Lists the functions that reach a function, or that it reaches, within some steps.
    pub fn get_transitive(
        &mut self,
        arg: &RepoArg,
        tool: EdgeTool,
        function: &str,
        definitions: &[String],
        list: &[DistantFunction],
        max_depth: usize,
        tests: &[String],
        window: ListWindow,
    ) -> (r: Result<String, String>)
        requires
            old(self)@.wf(),
        ensures
            final(self)@.wf(),
            final(self)@ == old(self)@.named(arg@),
            final(self).options == old(self).options,
            answer(r) == answered(
                old(self)@,
                arg@,
                |key: Seq<char>|
                    match call_graph_gap_spec(
                        Some(function@),
                        old(self)@.initialized,
                        old(self)@.call_graphs.contains(key),
                    ) {
                        Some(gap) => Err(gap.text(tool.tool_spec(), key)),
                        None => Ok(
                            transitive_spec(
                                tool,
                                function@,
                                ambiguity_spec(texts(definitions@), function@),
                                distant_texts(list@),
                                max_depth,
                                texts(tests@),
                                window,
                            ),
                        )
                    },
            ),
    {
        let key = match self.resolve_repo(arg) {
            Ok(k) => k,
            Err(e) => {
                return Err(e);
            },
        };
        let graph = self.has_graph(key.as_str());
        match call_graph_gap(Some(function), self.registry.initialized, graph) {
            Some(gap) => Err(gap.message(tool.tool(), key.as_str())),
            None => {
                let note = ambiguity_note(definitions, function);
                Ok(
                    render_transitive(
                        tool,
                        function,
                        note.as_str(),
                        list,
                        max_depth,
                        tests,
                        window,
                    ),
                )
            },
        }
    }

    /// Shows the call path between two functions.
    pub fn find_call_path(
        &mut self,
        arg: &RepoArg,
        from: &str,
        to: &str,
        path: Option<&[String]>,
    ) -> (r: Result<String, String>)
        requires
            old(self)@.wf(),
            path matches Some(p) ==> p@.len() > 0,
        ensures
            final(self)@.wf(),
            final(self)@ == old(self)@.named(arg@),
            final(self).options == old(self).options,
            answer(r) == answered(
                old(self)@,
                arg@,
                |key: Seq<char>|
                    match call_graph_gap_spec(
                        None,
                        old(self)@.initialized,
                        old(self)@.call_graphs.contains(key),
                    ) {
                        Some(gap) => Err(gap.text("find_call_path"@, key)),
                        None => Ok(call_path_spec(from@, to@, path_texts(path)))
                    },
            ),
    {
        let key = match self.resolve_repo(arg) {
            Ok(k) => k,
            Err(e) => {
                return Err(e);
            },
        };
        let graph = self.has_graph(key.as_str());
        match call_graph_gap(None, self.registry.initialized, graph) {
            Some(gap) => Err(gap.message("find_call_path", key.as_str())),
            None => Ok(render_call_path(from, to, path)),
        }
    }

    /// Shows how complex a function is.
    pub fn get_complexity(
        &mut self,
        arg: &RepoArg,
        function: &str,
        metrics: Option<FunctionMetrics>,
    ) -> (r: Result<String, String>)
        requires
            old(self)@.wf(),
        ensures
            final(self)@.wf(),
            final(self)@ == old(self)@.named(arg@),
            final(self).options == old(self).options,
            answer(r) == answered(
                old(self)@,
                arg@,
                |key: Seq<char>|
                    match call_graph_gap_spec(
                        None,
                        old(self)@.initialized,
                        old(self)@.call_graphs.contains(key),
                    ) {
                        Some(gap) => Err(gap.text("get_complexity"@, key)),
                        None => Ok(complexity_spec(function@, metrics))
                    },
            ),
    {
        let key = match self.resolve_repo(arg) {
            Ok(k) => k,
            Err(e) => {
                return Err(e);
            },
        };
        let graph = self.has_graph(key.as_str());
        match call_graph_gap(None, self.registry.initialized, graph) {
            Some(gap) => Err(gap.message("get_complexity", key.as_str())),
            None => Ok(render_complexity(function, metrics)),
        }
    }

    /// Lists the functions with the most connections.
    pub fn get_function_hotspots(
        &mut self,
        arg: &RepoArg,
        min_connections: usize,
        list: &[Hotspot],
        tests: &[String],
    ) -> (r: Result<String, String>)
        requires
            old(self)@.wf(),
            countable(hotspot_texts(list@)),
        ensures
            final(self)@.wf(),
            final(self)@ == old(self)@.named(arg@),
            final(self).options == old(self).options,
            answer(r) == answered(
                old(self)@,
                arg@,
                |key: Seq<char>|
                    match call_graph_gap_spec(
                        None,
                        old(self)@.initialized,
                        old(self)@.call_graphs.contains(key),
                    ) {
                        Some(gap) => Err(gap.text("get_function_hotspots"@, key)),
                        None => Ok(
                            hotspots_spec(
                                key,
                                min_connections,
                                hotspot_texts(list@),
                                texts(tests@),
                            ),
                        )
                    },
            ),
    {
        let key = match self.resolve_repo(arg) {
            Ok(k) => k,
            Err(e) => {
                return Err(e);
            },
        };
        let graph = self.has_graph(key.as_str());
        match call_graph_gap(None, self.registry.initialized, graph) {
            Some(gap) => Err(gap.message("get_function_hotspots", key.as_str())),
            None => Ok(render_hotspots(key.as_str(), min_connections, list, tests)),
        }
    }

    /// Shows the tree of a repository.
    pub fn get_project_structure(
        &mut self,
        arg: &RepoArg,
        root: &TreeNode,
        budget: TreeBudget,
    ) -> (r: Result<String, String>)
        requires
            old(self)@.wf(),
        ensures
            final(self)@.wf(),
            final(self)@ == old(self)@.named(arg@),
            final(self).options == old(self).options,
            answer(r) == answered(
                old(self)@,
                arg@,
                |key: Seq<char>|
                    {
                        let at = Drawing { text: Seq::empty(), budget, error: None };
                        let done = drawn(*root, 0, at);
                        match done.error {
                            Some(e) => Err(e),
                            None => Ok(structure_answer(key, done.text, done.budget)),
                        }
                    },
            ),
    {
        let key = match self.resolve_repo(arg) {
            Ok(k) => k,
            Err(e) => {
                return Err(e);
            },
        };
        let mut left = budget;
        let mut lines = String::new();
        proof {
            assert(lines@ =~= Seq::<char>::empty());
        }
        match build_tree(root, 0, &mut left, &mut lines) {
            Err(e) => Err(e),
            Ok(_) => Ok(render_structure(key.as_str(), lines.as_str(), &left)),
        }
    }

    /// Shows how far the index of a repository has come.
    pub fn get_incremental_status(
        &mut self,
        arg: &RepoArg,
        state: PersistedIndexState,
    ) -> (r: Result<String, String>)
        requires
            old(self)@.wf(),
        ensures
            final(self)@.wf(),
            final(self)@ == old(self)@.named(arg@),
            final(self).options == old(self).options,
            answer(r) == answered(
                old(self)@,
                arg@,
                |key: Seq<char>|
                    Ok(
                        incremental_answer(
                            key,
                            symbols_of(old(self)@.repos, key),
                            old(self)@.files.len() as usize,
                            state,
                        ),
                    ),
            ),
    {
        let key = match self.resolve_repo(arg) {
            Ok(k) => k,
            Err(e) => {
                return Err(e);
            },
        };
        let cached: usize = self.files.len();
        proof {
            assert(self@.files.len() == cached);
        }
        let list = match self.symbols_for(key.as_str()) {
            Some(l) => Some(l.as_slice()),
            None => None,
        };
        Ok(render_incremental_status(key.as_str(), list, cached, state))
    }

    /// Shows the branch, its upstream and the working tree.
    pub fn get_branch_info(
        &mut self,
        arg: &RepoArg,
        branch: &str,
        upstream: &Option<Upstream>,
        modified: &[String],
        window: ListWindow,
    ) -> (r: Result<String, String>)
        requires
            old(self)@.wf(),
        ensures
            final(self)@.wf(),
            final(self)@ == old(self)@.named(arg@),
            final(self).options == old(self).options,
            answer(r) == answered(
                old(self)@,
                arg@,
                |key: Seq<char>|
                    if old(self)@.git_repos.contains(key) {
                        Ok(
                            branch_answer(
                                key,
                                branch@,
                                upstream_text(*upstream),
                                texts(modified@),
                                window,
                            ),
                        )
                    } else {
                        Err(no_git_text(key))
                    },
            ),
    {
        let key = match self.resolve_repo(arg) {
            Ok(k) => k,
            Err(e) => {
                return Err(e);
            },
        };
        if !self.has_git(key.as_str()) {
            return Err(no_git_message(key.as_str()));
        }
        Ok(render_branch_info(key.as_str(), branch, upstream, modified, window))
    }

    /// Lists the files changed in the working tree.
    pub fn get_modified_files(
        &mut self,
        arg: &RepoArg,
        modified: &[String],
    ) -> (r: Result<String, String>)
        requires
            old(self)@.wf(),
        ensures
            final(self)@.wf(),
            final(self)@ == old(self)@.named(arg@),
            final(self).options == old(self).options,
            answer(r) == answered(
                old(self)@,
                arg@,
                |key: Seq<char>|
                    if old(self)@.git_repos.contains(key) {
                        Ok(modified_answer(key, texts(modified@)))
                    } else {
                        Err(no_git_text(key))
                    },
            ),
    {
        let key = match self.resolve_repo(arg) {
            Ok(k) => k,
            Err(e) => {
                return Err(e);
            },
        };
        if !self.has_git(key.as_str()) {
            return Err(no_git_message(key.as_str()));
        }
        Ok(render_modified_files(key.as_str(), modified))
    }

    /// Lists the commits of the last days.
    pub fn get_recent_changes(
        &mut self,
        arg: &RepoArg,
        days: usize,
        commits: &[CommitLine],
    ) -> (r: Result<String, String>)
        requires
            old(self)@.wf(),
        ensures
            final(self)@.wf(),
            final(self)@ == old(self)@.named(arg@),
            final(self).options == old(self).options,
            answer(r) == answered(
                old(self)@,
                arg@,
                |key: Seq<char>|
                    if old(self)@.git_repos.contains(key) {
                        Ok(recent_answer(days, commit_texts(commits@)))
                    } else {
                        Err(no_git_text(key))
                    },
            ),
    {
        let key = match self.resolve_repo(arg) {
            Ok(k) => k,
            Err(e) => {
                return Err(e);
            },
        };
        if !self.has_git(key.as_str()) {
            return Err(no_git_message(key.as_str()));
        }
        Ok(render_recent_changes(days, commits))
    }

    /// Lists the files that change most.
    pub fn get_hotspots(
        &mut self,
        arg: &RepoArg,
        days: usize,
        list: &[FileChurn],
    ) -> (r: Result<String, String>)
        requires
            old(self)@.wf(),
        ensures
            final(self)@.wf(),
            final(self)@ == old(self)@.named(arg@),
            final(self).options == old(self).options,
            answer(r) == answered(
                old(self)@,
                arg@,
                |key: Seq<char>|
                    if old(self)@.git_repos.contains(key) {
                        Ok(churn_answer(days, churn_texts(list@)))
                    } else {
                        Err(no_git_text(key))
                    },
            ),
    {
        let key = match self.resolve_repo(arg) {
            Ok(k) => k,
            Err(e) => {
                return Err(e);
            },
        };
        if !self.has_git(key.as_str()) {
            return Err(no_git_message(key.as_str()));
        }
        Ok(render_churn(days, list))
    }

    /// Shows what a commit changed. Its path need not exist now: the commit may be the one that
    /// deletes it.
    pub fn get_commit_diff(
        &mut self,
        arg: &RepoArg,
        commit: &str,
        path: Option<&str>,
        diff: &str,
        max_bytes: Option<usize>,
        max_response: usize,
    ) -> (r: Result<String, String>)
        requires
            old(self)@.wf(),
            max_response >= MIN_COMMIT_DIFF_BYTES,
        ensures
            final(self)@.wf(),
            final(self)@ == old(self)@.named(arg@),
            final(self).options == old(self).options,
            answer(r) == answered(
                old(self)@,
                arg@,
                |key: Seq<char>|
                    match pathspec_checked(str_text(path)) {
                        Err(e) => Err(e),
                        Ok(_) => if old(self)@.git_repos.contains(key) {
                            Ok(
                                commit_answer(
                                    commit@,
                                    str_text(path),
                                    sections(diff@),
                                    diff_cap(max_bytes, max_response),
                                ),
                            )
                        } else {
                            Err(no_git_text(key))
                        }
                    },
            ),
    {
        let key = match self.resolve_repo(arg) {
            Ok(k) => k,
            Err(e) => {
                return Err(e);
            },
        };
        match path {
            Some(p) => match validate_pathspec(p) {
                Ok(_) => {},
                Err(e) => {
                    return Err(e.message());
                },
            },
            None => {},
        }
        if !self.has_git(key.as_str()) {
            return Err(no_git_message(key.as_str()));
        }
        Ok(render_commit_diff(commit, path, diff, max_bytes, max_response))
    }

    /// Lists who contributed to a repository or to a file of it.
    pub fn get_contributors(
        &mut self,
        arg: &RepoArg,
        path: Option<&str>,
        list: &[Contributor],
        window: ListWindow,
        disk: &[DiskFile],
    ) -> (r: Result<String, String>)
        requires
            old(self)@.wf(),
        ensures
            final(self)@.wf(),
            final(self)@ == old(self)@.named(arg@),
            final(self).options == old(self).options,
            answer(r) == answered(
                old(self)@,
                arg@,
                |key: Seq<char>|
                    match path_checked(disk_texts(disk@), key, str_text(path)) {
                        Err(e) => Err(e),
                        Ok(_) => if old(self)@.git_repos.contains(key) {
                            Ok(
                                contributors_answer(
                                    arg.input@,
                                    str_text(path),
                                    contributor_texts(list@),
                                    window,
                                ),
                            )
                        } else {
                            Err(no_git_text(key))
                        }
                    },
            ),
    {
        let key = match self.resolve_repo(arg) {
            Ok(k) => k,
            Err(e) => {
                return Err(e);
            },
        };
        match path {
            Some(p) => match locate_file(disk, key.as_str(), p) {
                Ok(_) => {},
                Err(e) => {
                    return Err(e);
                },
            },
            None => {},
        }
        if !self.has_git(key.as_str()) {
            return Err(no_git_message(key.as_str()));
        }
        Ok(render_contributors_of(arg.input.as_str(), path, list, window))
    }

    /// Shows who last changed the lines of a file, as git renders it.
    pub fn get_blame(
        &mut self,
        arg: &RepoArg,
        path: &str,
        blame: String,
        disk: &[DiskFile],
    ) -> (r: Result<String, String>)
        requires
            old(self)@.wf(),
        ensures
            final(self)@.wf(),
            final(self)@ == old(self)@.named(arg@),
            final(self).options == old(self).options,
            answer(r) == answered(
                old(self)@,
                arg@,
                |key: Seq<char>|
                    match path_checked(disk_texts(disk@), key, Some(path@)) {
                        Err(e) => Err(e),
                        Ok(_) => if old(self)@.git_repos.contains(key) {
                            Ok(blame@)
                        } else {
                            Err(no_git_text(key))
                        }
                    },
            ),
    {
        let key = match self.resolve_repo(arg) {
            Ok(k) => k,
            Err(e) => {
                return Err(e);
            },
        };
        match locate_file(disk, key.as_str(), path) {
            Ok(_) => {},
            Err(e) => {
                return Err(e);
            },
        }
        if !self.has_git(key.as_str()) {
            return Err(no_git_message(key.as_str()));
        }
        Ok(blame)
    }

    /// Shows the commits of a file, as git renders them.
    pub fn get_file_history(
        &mut self,
        arg: &RepoArg,
        path: &str,
        history: String,
        disk: &[DiskFile],
    ) -> (r: Result<String, String>)
        requires
            old(self)@.wf(),
        ensures
            final(self)@.wf(),
            final(self)@ == old(self)@.named(arg@),
            final(self).options == old(self).options,
            answer(r) == answered(
                old(self)@,
                arg@,
                |key: Seq<char>|
                    match path_checked(disk_texts(disk@), key, Some(path@)) {
                        Err(e) => Err(e),
                        Ok(_) => if old(self)@.git_repos.contains(key) {
                            Ok(history@)
                        } else {
                            Err(no_git_text(key))
                        }
                    },
            ),
    {
        let key = match self.resolve_repo(arg) {
            Ok(k) => k,
            Err(e) => {
                return Err(e);
            },
        };
        match locate_file(disk, key.as_str(), path) {
            Ok(_) => {},
            Err(e) => {
                return Err(e);
            },
        }
        if !self.has_git(key.as_str()) {
            return Err(no_git_message(key.as_str()));
        }
        Ok(history)
    }

    /// Shows the commits that touched a symbol. Without a path the files that define it are
    /// searched; `history` is what git has for those files.
    pub fn get_symbol_history(
        &mut self,
        arg: &RepoArg,
        path: &str,
        symbol: &str,
        history: String,
        disk: &[DiskFile],
    ) -> (r: Result<String, String>)
        requires
            old(self)@.wf(),
        ensures
            final(self)@.wf(),
            final(self)@ == old(self)@.named(arg@),
            final(self).options == old(self).options,
            answer(r) == answered(
                old(self)@,
                arg@,
                |key: Seq<char>|
                    match history_files(
                        symbols_or_none(old(self)@.repos, key),
                        disk_texts(disk@),
                        key,
                        path@,
                        symbol@,
                    ) {
                        Err(e) => Err(e),
                        Ok(files) => if old(self)@.git_repos.contains(key) {
                            Ok(symbol_history_answer(history@, path@, files))
                        } else {
                            Err(no_git_text(key))
                        }
                    },
            ),
    {
        let key = match self.resolve_repo(arg) {
            Ok(k) => k,
            Err(e) => {
                return Err(e);
            },
        };
        let none: Vec<Symbol> = Vec::new();
        proof {
            assert(symbol_texts(none@) =~= Seq::<SymbolText>::empty());
        }
        let list = match self.symbols_for(key.as_str()) {
            Some(l) => l.as_slice(),
            None => none.as_slice(),
        };
        if !path.is_empty() {
            match locate_file(disk, key.as_str(), path) {
                Ok(_) => {},
                Err(e) => {
                    return Err(e);
                },
            }
        }
        let files = match symbol_history_paths(path, list, symbol, key.as_str()) {
            Ok(f) => f,
            Err(e) => {
                return Err(e);
            },
        };
        if !self.has_git(key.as_str()) {
            return Err(no_git_message(key.as_str()));
        }
        Ok(render_symbol_history(history, path, files.as_slice()))
    }

    /// Shows what is known of a place in a file: what the server says, or else what the index
    /// of the repository holds.
    pub fn get_hover_info(
        &mut self,
        arg: &RepoArg,
        path: &str,
        line: usize,
        character: usize,
        server: &ServerAnswer,
        disk: &[DiskFile],
    ) -> (r: Result<String, String>)
        requires
            old(self)@.wf(),
        ensures
            final(self)@.wf(),
            final(self)@ == old(self)@.named(arg@),
            final(self).options == old(self).options,
            answer(r) == answered(
                old(self)@,
                arg@,
                |key: Seq<char>|
                    match place_on_disk(disk_texts(disk@), key, path@) {
                        Err(e) => Err(e),
                        Ok(_) => match (server@, symbols_of(old(self)@.repos, key)) {
                            (ServerText::Text(_), _) => Ok(
                                hover_answer(path@, line, character, server@, Seq::empty()),
                            ),
                            (_, None) => Err(not_indexed(old(self)@, key)),
                            (_, Some(symbols)) => Ok(
                                hover_answer(path@, line, character, server@, symbols),
                            ),
                        }
                    },
            ),
    {
        let key = match self.resolve_repo(arg) {
            Ok(k) => k,
            Err(e) => {
                return Err(e);
            },
        };
        let none: Vec<Symbol> = Vec::new();
        proof {
            assert(symbol_texts(none@) =~= Seq::<SymbolText>::empty());
        }
        match locate_file(disk, key.as_str(), path) {
            Err(e) => {
                return Err(e);
            },
            Ok(_) => {},
        }
        if let ServerAnswer::Text(_) = server {
            return Ok(render_hover(path, line, character, server, none.as_slice()));
        }
        match self.symbols_for(key.as_str()) {
            None => Err(self.not_indexed_error(key.as_str())),
            Some(list) => Ok(render_hover(path, line, character, server, list.as_slice())),
        }
    }

    /// Shows the type at a place in a file.
    pub fn get_type_info(
        &mut self,
        arg: &RepoArg,
        path: &str,
        line: usize,
        character: usize,
        server: &ServerAnswer,
        disk: &[DiskFile],
    ) -> (r: Result<String, String>)
        requires
            old(self)@.wf(),
        ensures
            final(self)@.wf(),
            final(self)@ == old(self)@.named(arg@),
            final(self).options == old(self).options,
            answer(r) == answered(
                old(self)@,
                arg@,
                |key: Seq<char>|
                    match place_on_disk(disk_texts(disk@), key, path@) {
                        Err(e) => Err(e),
                        Ok(_) => Ok(type_answer(path@, line, character, server@))
                    },
            ),
    {
        let key = match self.resolve_repo(arg) {
            Ok(k) => k,
            Err(e) => {
                return Err(e);
            },
        };
        match locate_file(disk, key.as_str(), path) {
            Err(e) => Err(e),
            Ok(_) => Ok(render_type_info(path, line, character, server)),
        }
    }

    /// Shows where the symbol at a place is defined. The file is read only where the server
    /// names no place.
    pub fn go_to_definition(
        &mut self,
        arg: &RepoArg,
        path: &str,
        line: usize,
        character: usize,
        server: &DefinitionAnswer,
        disk: &[DiskFile],
    ) -> (r: Result<String, String>)
        requires
            old(self)@.wf(),
            server matches DefinitionAnswer::Places(p) ==> forall|i: int|
                0 <= i < p@.len() ==> (#[trigger] p@[i]).line < usize::MAX,
        ensures
            final(self)@.wf(),
            final(self)@ == old(self)@.named(arg@),
            final(self).options == old(self).options,
            answer(r) == answered(
                old(self)@,
                arg@,
                |key: Seq<char>|
                    match (place_on_disk(disk_texts(disk@), key, path@), server@) {
                        (Err(e), _) => Err(e),
                        (Ok(_), DefinitionText::Places(_)) => Ok(
                            go_to_answer(
                                path@,
                                line,
                                character,
                                server@,
                                key,
                                Seq::empty(),
                                Seq::empty(),
                            ),
                        ),
                        (Ok(_), _) => match read_from(disk_texts(disk@), key, path@) {
                            Err(e) => Err(e),
                            Ok(content) => Ok(
                                go_to_answer(
                                    path@,
                                    line,
                                    character,
                                    server@,
                                    key,
                                    symbols_or_none(old(self)@.repos, key),
                                    lines_of(content),
                                ),
                            ),
                        },
                    },
            ),
    {
        let key = match self.resolve_repo(arg) {
            Ok(k) => k,
            Err(e) => {
                return Err(e);
            },
        };
        let none: Vec<Symbol> = Vec::new();
        proof {
            assert(symbol_texts(none@) =~= Seq::<SymbolText>::empty());
        }
        let list = match self.symbols_for(key.as_str()) {
            Some(l) => l.as_slice(),
            None => none.as_slice(),
        };
        match locate_file(disk, key.as_str(), path) {
            Err(e) => {
                return Err(e);
            },
            Ok(_) => {},
        }
        if let DefinitionAnswer::Places(_) = server {
            return Ok(
                render_go_to_definition(
                    path,
                    line,
                    character,
                    server,
                    key.as_str(),
                    list,
                    "",
                ),
            );
        }
        match read_file(disk, key.as_str(), path) {
            Err(e) => Err(e),
            Ok(content) => Ok(
                render_go_to_definition(
                    path,
                    line,
                    character,
                    server,
                    key.as_str(),
                    list,
                    content.as_str(),
                ),
            ),
        }
    }
}

// ---- tools over several repositories ----

pub open spec fn summary_of(r: IndexedText) -> SummaryText {
    SummaryText {
        key: r.key,
        name: r.metadata.name,
        file_count: r.metadata.file_count,
        total_lines: r.metadata.total_lines,
        languages: r.metadata.languages,
    }
}

pub open spec fn summaries(repos: Seq<IndexedText>) -> Seq<SummaryText> {
    repos.map_values(|r: IndexedText| summary_of(r))
}

fn copy_counts(list: &Vec<LanguageCount>) -> (r: Vec<LanguageCount>)
    ensures
        language_counts(r@) == language_counts(list@),
{
    let mut out: Vec<LanguageCount> = Vec::new();
    let mut i: usize = 0;
    while i < list.len()
        invariant
            i <= list@.len(),
            out@.len() == i,
            forall|j: int| 0 <= j < i ==> (#[trigger] out@[j])@ == list@[j]@,
        decreases list@.len() - i,
    {
        out.push(
            LanguageCount {
                language: list[i].language.clone(),
                file_count: list[i].file_count,
                line_count: list[i].line_count,
            },
        );
        i = i + 1;
    }
    proof {
        assert(language_counts(out@) =~= language_counts(list@));
    }
    out
}

/// The argument of a tool that may be asked about every repository: absent, empty, or one.
pub open spec fn optional_key(state: EngineText, arg: Option<ArgText>) -> Result<
    Option<Seq<char>>,
    Seq<char>,
> {
    match arg {
        None => Ok(None),
        Some(a) => match state.resolved(a) {
            Ok(key) => Ok(Some(key)),
            Err(e) => Err(e),
        },
    }
}

pub open spec fn optional_named(state: EngineText, arg: Option<ArgText>) -> EngineText {
    match arg {
        None => state,
        Some(a) => state.named(a),
    }
}

pub open spec fn arg_text(arg: Option<&RepoArg>) -> Option<ArgText> {
    match arg {
        Some(a) => Some(a@),
        None => None,
    }
}

/// The cached content of a file: that of the first registered repository that has it.
pub open spec fn first_cached(
    registered: Seq<RegisteredText>,
    files: Seq<CachedText>,
    rel: Seq<char>,
) -> Option<Seq<char>>
    decreases registered.len(),
{
    if registered.len() == 0 {
        None
    } else {
        match first_cached(registered.drop_last(), files, rel) {
            Some(content) => Some(content),
            None => match file_index(files, join_path_spec(registered.last().path, rel)) {
                Some(i) => Some(files[i].content),
                None => None,
            },
        }
    }
}

/// What the first repositories have is not looked for in the others.
proof fn lemma_first_cached(
    registered: Seq<RegisteredText>,
    files: Seq<CachedText>,
    rel: Seq<char>,
    n: int,
)
    requires
        0 <= n <= registered.len(),
        first_cached(registered.take(n), files, rel) is Some,
    ensures
        first_cached(registered, files, rel) == first_cached(registered.take(n), files, rel),
    decreases registered.len(),
{
    if n < registered.len() {
        assert(registered.drop_last().take(n) =~= registered.take(n));
        lemma_first_cached(registered.drop_last(), files, rel, n);
    } else {
        assert(registered.take(n) =~= registered);
    }
}

/// A document as it is shown: its file's snippet is made from the cached content.
pub open spec fn with_own_snippet(state: EngineText, d: DocumentText) -> DocumentText {
    DocumentText {
        regenerated: if first_cached(state.registered, state.files, d.file_path) is Some {
            d.regenerated
        } else {
            None
        },
        ..d
    }
}

/// A result as it is judged and shown: by the cached content of its file.
pub open spec fn with_own_content(state: EngineText, h: HybridText) -> HybridText {
    let content = first_cached(state.registered, state.files, h.file_path);
    HybridText {
        regenerated: if content is Some {
            h.regenerated
        } else {
            None
        },
        file_content: content,
        ..h
    }
}

/// Which call graph is drawn.
pub open spec fn drawn_call_graph(enabled: bool, graphs: Seq<Seq<char>>, repo: Seq<char>) -> Result<
    Seq<char>,
    Seq<char>,
> {
    if !enabled {
        Err("Call graph not enabled. Start with --call-graph flag."@)
    } else if repo.len() == 0 {
        if graphs.len() == 0 {
            Err("No repositories indexed with call graphs"@)
        } else {
            Ok(graphs[0])
        }
    } else if graphs.contains(repo) {
        Ok(repo)
    } else {
        Err("Call graph not found for repository: "@ + repo)
    }
}

impl CodeIntelEngine {
    pub(crate) fn resolve_optional(&mut self, arg: Option<&RepoArg>) -> (r: Result<Option<String>, String>)
        requires
            old(self)@.wf(),
        ensures
            final(self)@.wf(),
            final(self)@ == optional_named(old(self)@, arg_text(arg)),
            final(self).options == old(self).options,
            (match r {
                Ok(o) => Ok(opt_text(o)),
                Err(e) => Err(e@),
            }) == optional_key(old(self)@, arg_text(arg)),
    {
        match arg {
            None => Ok(None),
            Some(a) => match self.resolve_repo(a) {
                Ok(key) => Ok(Some(key)),
                Err(e) => Err(e),
            },
        }
    }

    fn summaries_of(&self) -> (r: Vec<RepoSummary>)
        ensures
            summary_texts(r@) == summaries(self@.repos),
    {
        let mut out: Vec<RepoSummary> = Vec::new();
        let mut i: usize = 0;
        while i < self.repos.len()
            invariant
                i <= self.repos@.len(),
                out@.len() == i,
                forall|j: int| 0 <= j < i ==> (#[trigger] out@[j])@ == summary_of(self.repos@[j]@),
            decreases self.repos@.len() - i,
        {
            let repo = &self.repos[i];
            out.push(
                RepoSummary {
                    key: repo.key.clone(),
                    name: repo.metadata.name.clone(),
                    file_count: repo.metadata.file_count,
                    total_lines: repo.metadata.total_lines,
                    languages: copy_counts(&repo.metadata.languages),
                },
            );
            i = i + 1;
        }
        proof {
            assert(summary_texts(out@) =~= summaries(self@.repos));
        }
        out
    }

    /// Lists the indexed repositories, or one of them.
    pub fn list_repos_scoped(&mut self, arg: Option<&RepoArg>, detail: bool) -> (r: Result<
        String,
        String,
    >)
        requires
            old(self)@.wf(),
        ensures
            final(self)@.wf(),
            final(self)@ == optional_named(old(self)@, arg_text(arg)),
            final(self).options == old(self).options,
            answer(r) == (match optional_key(old(self)@, arg_text(arg)) {
                Err(e) => Err(e),
                Ok(only) => Ok(repos_answer(summaries(old(self)@.repos), only, detail)),
            }),
    {
        let only = match self.resolve_optional(arg) {
            Ok(o) => o,
            Err(e) => {
                return Err(e);
            },
        };
        let list = self.summaries_of();
        let wanted = match &only {
            Some(key) => Some(key.as_str()),
            None => None,
        };
        Ok(list_repos_scoped(list.as_slice(), wanted, detail))
    }

    /// Lists every indexed repository with its languages.
    pub fn list_repos(&self) -> (r: String)
        ensures
            r@ == repos_answer(summaries(self@.repos), None, true),
    {
        let list = self.summaries_of();
        list_repos_scoped(list.as_slice(), None, true)
    }

    /// Finds the lines a search is about, in one repository or in all of them. Scores are the
    /// caller's.
    pub fn search_code(
        &mut self,
        arg: Option<&RepoArg>,
        query: &str,
        tests: &[String],
        pattern: &Option<String>,
    ) -> (r: Result<Hits, String>)
        requires
            old(self)@.wf(),
        ensures
            final(self)@.wf(),
            final(self)@ == optional_named(old(self)@, arg_text(arg)),
            final(self).options == old(self).options,
            match optional_key(old(self)@, arg_text(arg)) {
                Err(e) => r matches Err(text) && text@ == e,
                Ok(only) => {
                    let wanted = match only {
                        Some(key) => seq![key],
                        None => repo_keys(old(self)@.repos),
                    };
                    r matches Ok(hits) && (hit_texts(hits.hits@), hits.fallback) == hits_of(
                        wanted,
                        old(self)@.files,
                        search_of(query@, texts(tests@), opt_text(*pattern)),
                    )
                },
            },
    {
        let only = match self.resolve_optional(arg) {
            Ok(o) => o,
            Err(e) => {
                return Err(e);
            },
        };
        let wanted = match only {
            Some(key) => {
                let mut one: Vec<String> = Vec::new();
                one.push(key);
                proof {
                    assert(texts(one@) =~= seq![key@]);
                }
                one
            },
            None => self.indexed_keys(),
        };
        Ok(find_hits(wanted.as_slice(), self.files.as_slice(), query, tests, pattern))
    }

    /// Finds a symbol and its references, as they are drawn.
    pub fn get_symbol_graph_for_viz(&mut self, arg: &RepoArg, name: &str, max_nodes: usize) -> (r:
        Result<(SymbolDefinition, Vec<SymbolReference>), String>)
        requires
            old(self)@.wf(),
        ensures
            final(self)@.wf(),
            final(self)@ == old(self)@.named(arg@),
            final(self).options == old(self).options,
            match old(self)@.resolved(arg@) {
                Err(e) => r matches Err(text) && text@ == e,
                Ok(key) => match symbols_of(old(self)@.repos, key) {
                    None => r matches Err(text) && text@ == "Repository not indexed: "@ + key,
                    Some(list) => match first_target(list, name@) {
                        None => r matches Err(text) && text@ == "Symbol not found: "@ + name@,
                        Some(s) => r matches Ok(drawn) && drawn.0.id@ == s.name && drawn.0.kind@
                            == ascii_lower_text(s.kind.name_spec()) && drawn.0.file_path@
                            == s.file_path && drawn.0.line == s.start_line && place_pairs(
                            drawn.1@,
                        ) == drawn_references(old(self)@.files, key, name@, max_nodes),
                    },
                },
            },
    {
        let key = match self.resolve_repo(arg) {
            Ok(k) => k,
            Err(e) => {
                return Err(e);
            },
        };
        match self.symbols_for(key.as_str()) {
            None => {
                let mut out = "Repository not indexed: ".to_owned();
                out.append(key.as_str());
                Err(out)
            },
            Some(list) => match target_symbol(list.as_slice(), name) {
                None => {
                    let mut out = "Symbol not found: ".to_owned();
                    out.append(name);
                    Err(out)
                },
                Some(i) => {
                    let node = definition_node(&list[i]);
                    let references = symbol_references(
                        self.files.as_slice(),
                        key.as_str(),
                        name,
                        max_nodes,
                    );
                    Ok((node, references))
                },
            },
        }
    }

    /// The repository whose call graph is drawn: the one named, or the first that has one.
    pub fn get_call_graph_for_viz(&self, repo: &str) -> (r: Result<String, String>)
        ensures
            answer(r) == drawn_call_graph(
                self.options.call_graph_enabled,
                self@.call_graphs,
                repo@,
            ),
    {
        if !self.options.call_graph_enabled {
            return Err("Call graph not enabled. Start with --call-graph flag.".to_owned());
        }
        if repo.is_empty() {
            proof {
                assert(self@.call_graphs.len() == self.call_graphs@.len());
            }
            if self.call_graphs.len() == 0 {
                return Err("No repositories indexed with call graphs".to_owned());
            }
            return Ok(self.call_graphs[0].clone());
        }
        if self.has_graph(repo) {
            Ok(repo.to_owned())
        } else {
            let mut out = "Call graph not found for repository: ".to_owned();
            out.append(repo);
            Err(out)
        }
    }

    /// The cached content of a file, given by its repo-relative path: that of the first
    /// registered repository that has it.
    pub fn cached_content(&self, rel: &str) -> (r: Option<String>)
        ensures
            opt_text(r) == first_cached(self@.registered, self@.files, rel@),
    {
        let ghost all = self@.registered;
        let mut i: usize = 0;
        proof {
            assert(all.take(0) =~= Seq::<RegisteredText>::empty());
        }
        while i < self.registry.repos.len()
            invariant
                i <= self.registry.repos@.len(),
                all == self@.registered,
                first_cached(all.take(i as int), self@.files, rel@) is None,
            decreases self.registry.repos@.len() - i,
        {
            proof {
                assert(all.take(i + 1).drop_last() =~= all.take(i as int));
                assert(all.take(i + 1).last() == self.registry.repos@[i as int]@);
            }
            let path = join_path(self.registry.repos[i].path.as_str(), rel);
            match self.find_file(path.as_str()) {
                Some(k) => {
                    proof {
                        assert(self@.files[k as int] == self.files@[k as int]@);
                        lemma_first_cached(all, self@.files, rel@, i + 1);
                    }
                    return Some(self.files[k].content.clone());
                },
                None => {},
            }
            i = i + 1;
        }
        proof {
            assert(all.take(all.len() as int) =~= all);
        }
        None
    }

    fn with_snippets(&self, list: &[RankedDocument]) -> (r: Vec<RankedDocument>)
        ensures
            document_texts(r@) == document_texts(list@).map_values(
                |d: DocumentText| with_own_snippet(self@, d),
            ),
    {
        let mut out: Vec<RankedDocument> = Vec::new();
        let mut i: usize = 0;
        while i < list.len()
            invariant
                i <= list@.len(),
                out@.len() == i,
                forall|j: int|
                    0 <= j < i ==> (#[trigger] out@[j])@ == with_own_snippet(self@, list@[j]@),
            decreases list@.len() - i,
        {
            let d = &list[i];
            let regenerated = match self.cached_content(d.file_path.as_str()) {
                Some(_) => copy_snippet(&d.regenerated),
                None => None,
            };
            out.push(
                RankedDocument {
                    repo: d.repo.clone(),
                    file_path: d.file_path.clone(),
                    start_line: d.start_line,
                    end_line: d.end_line,
                    whole_file: d.whole_file,
                    score_text: d.score_text.clone(),
                    snippet: d.snippet.clone(),
                    regenerated,
                },
            );
            i = i + 1;
        }
        proof {
            assert(document_texts(out@) =~= document_texts(list@).map_values(
                |d: DocumentText| with_own_snippet(self@, d),
            ));
        }
        out
    }

    fn with_contents(&self, list: &[HybridResult]) -> (r: Vec<HybridResult>)
        ensures
            hybrid_texts(r@) == hybrid_texts(list@).map_values(
                |h: HybridText| with_own_content(self@, h),
            ),
    {
        let mut out: Vec<HybridResult> = Vec::new();
        let mut i: usize = 0;
        while i < list.len()
            invariant
                i <= list@.len(),
                out@.len() == i,
                forall|j: int|
                    0 <= j < i ==> (#[trigger] out@[j])@ == with_own_content(self@, list@[j]@),
            decreases list@.len() - i,
        {
            let h = &list[i];
            let file_content = self.cached_content(h.file_path.as_str());
            let regenerated = match &file_content {
                Some(_) => copy_snippet(&h.regenerated),
                None => None,
            };
            out.push(
                HybridResult {
                    file_path: h.file_path.clone(),
                    start_line: h.start_line,
                    end_line: h.end_line,
                    content: h.content.clone(),
                    score_text: h.score_text.clone(),
                    whole_file: h.whole_file,
                    bm25_rank: h.bm25_rank,
                    tfidf_rank: h.tfidf_rank,
                    matched_terms: copy_texts(&h.matched_terms),
                    regenerated,
                    file_content,
                },
            );
            i = i + 1;
        }
        proof {
            assert(hybrid_texts(out@) =~= hybrid_texts(list@).map_values(
                |h: HybridText| with_own_content(self@, h),
            ));
        }
        out
    }

    /// Renders what a semantic search found, in one repository or in all of them. A snippet
    /// that was made anew counts only where the file is cached.
    pub fn semantic_search(
        &mut self,
        arg: Option<&RepoArg>,
        query: &str,
        list: &[RankedDocument],
        tests: &[String],
        most: usize,
    ) -> (r: Result<String, String>)
        requires
            old(self)@.wf(),
        ensures
            final(self)@.wf(),
            final(self)@ == optional_named(old(self)@, arg_text(arg)),
            final(self).options == old(self).options,
            answer(r) == (match optional_key(old(self)@, arg_text(arg)) {
                Err(e) => Err(e),
                Ok(only) => Ok(
                    semantic_answer(
                        query@,
                        only,
                        semantic_results(
                            document_texts(list@).map_values(
                                |d: DocumentText| with_own_snippet(old(self)@, d),
                            ),
                            only,
                            texts(tests@),
                            most,
                        ),
                    ),
                ),
            }),
    {
        let shown = self.with_snippets(list);
        let only = match self.resolve_optional(arg) {
            Ok(o) => o,
            Err(e) => {
                return Err(e);
            },
        };
        let home = match &only {
            Some(key) => Some(key.as_str()),
            None => None,
        };
        Ok(render_semantic(query, home, shown.as_slice(), tests, most))
    }

    /// Renders what a hybrid search found. Whether a result carries a term as it was typed is
    /// seen in the cached file.
    pub fn hybrid_search(
        &mut self,
        arg: Option<&RepoArg>,
        query: &str,
        mode: &str,
        results: &[HybridResult],
        tests: &[String],
        most: usize,
    ) -> (r: Result<String, String>)
        requires
            old(self)@.wf(),
            forall|i: int| 0 <= i < results@.len() ==> ranks_countable((#[trigger] results@[i])@),
        ensures
            final(self)@.wf(),
            final(self)@ == optional_named(old(self)@, arg_text(arg)),
            final(self).options == old(self).options,
            answer(r) == (match optional_key(old(self)@, arg_text(arg)) {
                Err(e) => Err(e),
                Ok(only) => {
                    let kept = hybrid_kept(
                        hybrid_texts(results@).map_values(
                            |h: HybridText| with_own_content(old(self)@, h),
                        ),
                        texts(tests@),
                        typed_terms(query@),
                    );
                    Ok(hybrid_answer(query@, mode@, only, first_of(kept.0, most), kept.1))
                },
            }),
    {
        let shown = self.with_contents(results);
        proof {
            assert(hybrid_texts(shown@).len() == shown@.len());
            assert(hybrid_texts(results@).len() == results@.len());
            assert forall|i: int| 0 <= i < shown@.len() implies ranks_countable(
                (#[trigger] shown@[i])@,
            ) by {
                assert(hybrid_texts(shown@)[i] == shown@[i]@);
                assert(hybrid_texts(results@)[i] == results@[i]@);
                assert(hybrid_texts(shown@)[i] == with_own_content(self@, results@[i]@));
            }
        }
        let only = match self.resolve_optional(arg) {
            Ok(o) => o,
            Err(e) => {
                return Err(e);
            },
        };
        let home = match &only {
            Some(key) => Some(key.as_str()),
            None => None,
        };
        Ok(render_hybrid(query, mode, home, shown.as_slice(), tests, most))
    }
}

// ---- what the tools say ----

pub open spec fn symbols_said(
    state: EngineText,
    arg: ArgText,
    q: QueryText,
    tests: Seq<Seq<char>>,
    filtered: Seq<Seq<char>>,
    submodules: Seq<Seq<char>>,
    cxx: SourceSet,
    other: SourceSet,
) -> Result<Seq<char>, Seq<char>> {
    match state.resolved(arg) {
        Err(e) => Err(e),
        Ok(key) => if is_unfiltered(q) {
            Ok(unfiltered_answer(key))
        } else {
            match symbols_of(state.repos, key) {
                None => Err(not_indexed(state, key)),
                Some(list) => Ok(
                    find_symbols_spec(key, list, q, tests, filtered, submodules, cxx, other),
                ),
            }
        },
    }
}

pub open spec fn definition_said(
    state: EngineText,
    arg: ArgText,
    name: Seq<char>,
    context: usize,
    tag: Option<(Seq<char>, usize)>,
    disk: Seq<DiskText>,
    hover: Option<Seq<char>>,
    cxx: SourceSet,
    other: SourceSet,
) -> Result<Seq<char>, Seq<char>> {
    match state.resolved(arg) {
        Err(e) => Err(e),
        Ok(key) => match symbols_of(state.repos, key) {
            None => Err(not_indexed(state, key)),
            Some(list) => definition_shown(
                key,
                list,
                name,
                context,
                tag,
                disk,
                hover,
                cxx,
                other,
            ),
        },
    }
}

pub open spec fn file_said(
    state: EngineText,
    arg: ArgText,
    path: Seq<char>,
    start_line: Option<usize>,
    end_line: Option<usize>,
    max_bytes: usize,
    disk: Seq<DiskText>,
) -> Result<Seq<char>, Seq<char>> {
    match state.resolved(arg) {
        Err(e) => Err(e),
        Ok(key) => match read_from(disk, key, path) {
            Err(e) => Err(e),
            Ok(content) => {
                let ls = lines_of(content);
                match range_error(start_line, end_line, ls.len()) {
                    Some(e) => Err(e.text(path)),
                    None => Ok(
                        file_answer(
                            path,
                            ls,
                            range_start(start_line),
                            range_end(end_line, ls.len()),
                            max_bytes,
                        ),
                    ),
                }
            },
        },
    }
}

pub open spec fn references_said(
    state: EngineText,
    arg: ArgText,
    symbol: Seq<char>,
    server: Option<Seq<ReferenceText>>,
    tests: Seq<Seq<char>>,
    window: ListWindow,
) -> Result<Seq<char>, Seq<char>> {
    match state.resolved(arg) {
        Err(e) => Err(e),
        Ok(key) => Ok(
            found_references(
                text_references(state.files, key, symbol),
                server,
                tests,
                symbol,
                window,
            ),
        ),
    }
}

pub open spec fn usages_said(
    state: EngineText,
    arg: ArgText,
    symbol: Seq<char>,
    imports: bool,
    tests: Seq<Seq<char>>,
    answers: Seq<AnswerText>,
) -> Result<Seq<char>, Seq<char>> {
    match state.resolved(arg) {
        Err(e) => Err(e),
        Ok(key) => Ok(usages_shown(state, key, symbol, imports, tests, answers)),
    }
}

pub open spec fn callers_said(
    state: EngineText,
    arg: ArgText,
    function: Seq<char>,
    definitions: Seq<Seq<char>>,
    edges: Seq<EdgeText>,
    server: Option<(Seq<ReferenceText>, SourceSet)>,
    tests: Seq<Seq<char>>,
    window: ListWindow,
    cxx: SourceSet,
    other: SourceSet,
) -> Result<Seq<char>, Seq<char>> {
    match state.resolved(arg) {
        Err(e) => Err(e),
        Ok(key) => match call_graph_gap_spec(
            Some(function),
            state.initialized,
            state.call_graphs.contains(key),
        ) {
            Some(gap) => Err(gap.text("get_callers"@, key)),
            None => Ok(
                direct_spec(
                    EdgeTool::Callers,
                    function,
                    ambiguity_spec(definitions, function),
                    all_callers(edges, server, function, symbols_of(state.repos, key)),
                    tests,
                    window,
                    cxx,
                    other,
                ),
            ),
        },
    }
}

} // verus!
