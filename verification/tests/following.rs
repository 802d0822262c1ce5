use narsil_mcp::backends::RefreshStep;
use narsil_mcp::budget::ListWindow;
use narsil_mcp::cache::{AnalysisCache, QueryCache, SearchOptions};
use narsil_mcp::calltools::{EdgeQuestion, EdgeTool};
use narsil_mcp::changes::{ChangeBatch, ChangeContext, ChangeType, PathFacts, RepoPlace};
use narsil_mcp::definitions::{
    update_definition_map, DefinitionMap, EndedBuild, FileDefinitions, MapEdit,
};
use narsil_mcp::delta::AddedFile;
use narsil_mcp::engine::{CodeIntelEngine, IndexedRepo, RepoArg, RepoMetadata};
use narsil_mcp::kept::{keep_analysis, keep_search, CacheStep};
use narsil_mcp::lookup::SymbolQuery;
use narsil_mcp::paths::{path_less, sort_paths};
use narsil_mcp::pullin::FileStamp;
use narsil_mcp::ranked::{
    hybrid_plan, semantic_plan, HybridResult, RankedDocument, RankedSearch, Snippet,
};
use narsil_mcp::retag::{
    tags_are_behind, tags_step_behind_batch, TaggedSource, TouchedSource,
};
use narsil_mcp::scope::compile_scope;
use narsil_mcp::search::CachedFile;
use narsil_mcp::settings::{cache_shape, EngineOptions};
use narsil_mcp::store::WrittenFile;
use narsil_mcp::symbols::{SourceSet, Symbol, SymbolKind};
use narsil_mcp::watch::{ParsedChange, SeenChange};

const REPO: &str = "/tmp/x/repo";

fn strings(list: &[&str]) -> Vec<String> {
    list.iter().map(|s| s.to_string()).collect()
}

fn at(path: &str) -> RepoArg {
    RepoArg {
        input: path.to_string(),
        resolved: Some(path.to_string()),
        git_dirs: vec![],
        missing: vec![],
        now: 1000,
    }
}

fn symbol(name: &str, file: &str) -> Symbol {
    Symbol {
        name: name.to_string(),
        kind: SymbolKind::Function,
        file_path: file.to_string(),
        start_line: 1,
        end_line: 3,
        signature: None,
        qualified_name: None,
        doc_comment: None,
        confirmed_by: SourceSet::tree_sitter(),
        line_conflicts: Vec::new(),
    }
}

fn cached(path: &str, content: &str) -> CachedFile {
    CachedFile {
        path: path.to_string(),
        content: content.to_string(),
        comment_lines: content.lines().map(|_| false).collect(),
    }
}

fn engine_with(repos: &[&str]) -> CodeIntelEngine {
    let paths = strings(repos);
    let options = EngineOptions {
        call_graph_enabled: true,
        ..Default::default()
    };
    let mut engine = CodeIntelEngine::with_options(&paths, &paths, &[], options, 0);
    for key in repos {
        engine.publish(IndexedRepo {
            key: key.to_string(),
            metadata: RepoMetadata {
                name: "repo".to_string(),
                path: key.to_string(),
                file_count: 1,
                total_lines: 10,
                languages: vec![],
                last_indexed: 5,
                head_hash: None,
                cdb_hash: None,
                cdb_head_hash: None,
                logic_version: 1,
            },
            symbols: vec![symbol("old", "a.c")],
        });
    }
    engine
}

fn found(names: &[&str]) -> FileDefinitions {
    FileDefinitions {
        stamp: FileStamp {
            modified: 7,
            size: 3,
        },
        names: strings(names),
    }
}

fn seen(path: &str, change: ChangeType, filter: &[&str]) -> SeenChange {
    let deleted = change == ChangeType::Deleted;
    SeenChange {
        place: PathFacts {
            path: path.to_string(),
            canonical: Some(path.to_string()),
            parent_canonical: None,
        },
        change,
        context: ChangeContext {
            git_ignored: false,
            index_filtered: !filter.is_empty(),
            index_filter: compile_scope(&strings(filter)),
        },
        parsed: if deleted {
            None
        } else {
            Some(ParsedChange {
                symbols: vec![symbol("new", "")],
                reports: vec![],
                file: cached(path, "new"),
            })
        },
        definitions: if deleted { None } else { Some(found(&["new"])) },
    }
}

fn places() -> Vec<RepoPlace> {
    vec![RepoPlace {
        path: REPO.to_string(),
        canonical: Some(REPO.to_string()),
        manifests: vec![],
    }]
}

#[test]
fn a_batch_stops_at_the_first_manifest() {
    let mut engine = engine_with(&[REPO]);
    let changes = vec![
        seen("/tmp/x/repo/a.c", ChangeType::Modified, &[]),
        seen("/tmp/x/repo/compile_commands.json", ChangeType::Modified, &[]),
        seen("/tmp/x/repo/b.c", ChangeType::Created, &[]),
        seen("/elsewhere/compile_commands.json", ChangeType::Modified, &[]),
    ];
    let mut account = ChangeBatch::new();
    let (done, manifest) = engine.process_file_changes(&mut account, &changes, &places());
    assert_eq!(done, 2);
    assert_eq!(manifest, Some(Some(0)));
    assert_eq!(account.count, 1);

    // The sources that the manifest brings in and drops count too.
    let added = [AddedFile {
        relative_path: "c.c".to_string(),
        symbols: vec![symbol("h", "")],
        reports: vec![],
        tags: vec![],
        file: cached("/tmp/x/repo/c.c", "int h;"),
    }];
    engine.follow_manifest(&mut account, REPO, REPO, &added, &strings(&["a.c"]));
    assert_eq!(account.count, 3);
    assert_eq!(engine.source_files(REPO), strings(&["c.c"]));

    let rest = &changes[done..];
    let (done, manifest) = engine.process_file_changes(&mut account, rest, &places());
    assert_eq!(done, 2);
    assert_eq!(manifest, Some(None), "a manifest that no repository looks for");
    assert_eq!(account.count, 4);
    let (done, manifest) = engine.process_file_changes(&mut account, &rest[done..], &places());
    assert_eq!((done, manifest), (0, None));
}

#[test]
fn the_definition_map_follows_every_changed_file() {
    let mut engine = engine_with(&[REPO]);
    let changes = vec![
        seen("/tmp/x/repo/src/a.c", ChangeType::Modified, &["src"]),
        // Outside the filter: not indexed, but the map covers it.
        seen("/tmp/x/repo/lib/b.c", ChangeType::Created, &["src"]),
        seen("/tmp/x/repo/lib/c.c", ChangeType::Deleted, &["src"]),
        seen("/elsewhere/d.c", ChangeType::Modified, &["src"]),
    ];
    let mut account = ChangeBatch::new();
    engine.process_file_changes(&mut account, &changes, &places());
    assert_eq!(account.count, 1);
    assert_eq!(account.edits.len(), 3);

    let mut map = DefinitionMap::new();
    map.enter("lib/c.c", found(&["gone"]));
    map.enter("lib/b.c", found(&["before"]));
    map.commit();
    for edit in account.edits {
        map.apply(edit);
    }
    assert_eq!(map.files_defining(&strings(&["new"])), strings(&["src/a.c", "lib/b.c"]));
    assert!(map.files_defining(&strings(&["gone", "before"])).is_empty());
    assert_eq!(map.stamps().len(), 2);
}

#[test]
fn a_file_that_cannot_be_parsed_stays_in_the_map() {
    let edit = update_definition_map(REPO, "a.c", ChangeType::Modified, &None);
    assert!(matches!(edit, MapEdit::Leave));
    let gone = update_definition_map(REPO, "a.c", ChangeType::Deleted, &Some(found(&["f"])));
    assert!(matches!(gone, MapEdit::Remove { .. }));
}

#[test]
fn without_a_map_there_is_nothing_to_follow() {
    let mut map = DefinitionMap::new();
    let edit = update_definition_map(REPO, "a.c", ChangeType::Created, &Some(found(&["f"])));
    map.apply(edit);
    assert!(map.files.is_empty());
    map.open_for_build(true);
    map.enter("a.c", found(&["f"]));
    assert!(map.files_defining(&strings(&["f"])).is_empty(), "not committed yet");
    map.commit();
    assert_eq!(map.files_defining(&strings(&["f"])), strings(&["a.c"]));
    map.open_for_build(false);
    map.retract("a.c");
    assert!(map.files.is_empty());
}

fn touched(path: &str, modified: Option<u64>, exists: bool) -> TouchedSource {
    TouchedSource {
        file: WrittenFile {
            path: path.to_string(),
            modified,
        },
        exists,
    }
}

#[test]
fn a_batch_refreshes_a_database_that_is_behind() {
    let step = |files: &[TouchedSource]| {
        tags_step_behind_batch(true, Some(100), files, None, true, true)
    };
    assert_eq!(step(&[touched("/r/a.c", Some(100), true)]), RefreshStep::Leave);
    assert_eq!(step(&[touched("/r/a.c", Some(101), true)]), RefreshStep::Refresh);
    assert_eq!(step(&[touched("/r/a.py", Some(101), true)]), RefreshStep::Leave);
    assert_eq!(step(&[touched("/r/a.c", None, false)]), RefreshStep::Refresh);
    assert!(!tags_are_behind(None, &[touched("/r/a.c", Some(101), true)]));

    let newer = [touched("/r/a.c", Some(101), true)];
    let burst = tags_step_behind_batch(true, Some(100), &newer, Some(4_999), true, true);
    assert_eq!(burst, RefreshStep::Debounced);
    let barred = tags_step_behind_batch(true, Some(100), &newer, None, false, true);
    assert_eq!(barred, RefreshStep::Warn);
    let unused = tags_step_behind_batch(false, Some(100), &newer, None, true, true);
    assert_eq!(unused, RefreshStep::Leave);
}

#[test]
fn tags_are_folded_in_behind_a_batch() {
    let mut engine = engine_with(&[REPO]);
    let source = |rel: &str, exists: bool| TaggedSource {
        relative_path: rel.to_string(),
        exists,
        tags: vec![("tagged".to_string(), 9)],
    };
    let names = |engine: &CodeIntelEngine| {
        let list = engine.repos[0].symbols.iter();
        list.map(|s| s.name.clone()).collect::<Vec<String>>()
    };
    engine.merge_batch_tags(REPO, false, &[source("a.c", true)]);
    engine.merge_batch_tags(REPO, true, &[source("gone.c", false)]);
    assert_eq!(names(&engine), strings(&["old"]));
    engine.merge_batch_tags(REPO, true, &[source("a.c", true), source("b.c", true)]);
    assert_eq!(names(&engine), strings(&["old", "tagged", "tagged"]));
    assert_eq!(engine.repos[0].symbols[2].file_path, "b.c");
    assert_eq!(engine.repos[0].symbols[2].start_line, 9);
}

#[test]
fn a_landed_map_is_caught_up_on() {
    let engine = engine_with(&[REPO, "/tmp/x/other"]);
    let ended = |repo: &str, landed: bool| EndedBuild {
        repo: repo.to_string(),
        landed,
    };
    let builds = [
        ended(REPO, true),
        ended("/tmp/x/other", false),
        ended("/tmp/x/forgotten", true),
    ];
    assert_eq!(engine.catch_up_on_definition_maps(&builds), strings(&[REPO]));
}

#[test]
fn paths_are_ordered_by_their_components() {
    assert!(path_less("/r/../b.c", "/r/-a.c"), "the parent comes before a name");
    assert!(path_less("./b.c", "-a.c"));
    assert!(path_less("/z", "a"));
    assert!(path_less("/r/a/z.c", "/r/a.c"));
    assert!(!path_less("/r/a.c", "/r/a.c"));
    let sorted = sort_paths(&strings(&["/r/-a.c", "/r/../b.c", "/r/+.c"]));
    assert_eq!(sorted, strings(&["/r/../b.c", "/r/+.c", "/r/-a.c"]));
}

fn question(offset: usize) -> EdgeQuestion {
    EdgeQuestion {
        window: ListWindow::new(offset, 50),
        exclude_tests: false,
        transitive: false,
        max_depth: 3,
    }
}

#[test]
fn a_tool_is_given_what_it_kept() {
    let mut engine = engine_with(&[REPO]);
    let mut cache = AnalysisCache::new(cache_shape(true, 10, 60));
    let ask = |engine: &mut CodeIntelEngine, cache: &mut AnalysisCache, tool, offset, hash| {
        engine.kept_edges(cache, &at(REPO), tool, "f", question(offset), hash, 5)
    };
    assert!(ask(&mut engine, &mut cache, EdgeTool::Callers, 0, "h").is_err(), "starting up");
    engine.finish_initialization();
    let step = ask(&mut engine, &mut cache, EdgeTool::Callers, 0, "h");
    let Ok(CacheStep::Ask(Some(key))) = step else {
        panic!("nothing is kept yet");
    };
    let answer = Ok("the callers".to_string());
    assert!(keep_analysis(&mut cache, Some(key), "h".to_string(), answer, 5).is_ok());
    let again = ask(&mut engine, &mut cache, EdgeTool::Callers, 0, "h");
    assert!(matches!(again, Ok(CacheStep::Kept(text)) if text == "the callers"));
    let callees = ask(&mut engine, &mut cache, EdgeTool::Callees, 0, "h");
    assert!(matches!(callees, Ok(CacheStep::Ask(Some(_)))));
    let page = ask(&mut engine, &mut cache, EdgeTool::Callers, 50, "h");
    assert!(matches!(page, Ok(CacheStep::Ask(Some(_)))));
    let changed = ask(&mut engine, &mut cache, EdgeTool::Callers, 0, "h2");
    assert!(matches!(changed, Ok(CacheStep::Ask(Some(_)))));

    // An error is not kept.
    let Ok(CacheStep::Ask(key)) = engine.kept_call_graph(&mut cache, &at(REPO), "", false, "h", 5)
    else {
        panic!("nothing is kept yet");
    };
    let failed = Err("no graph".to_string());
    assert!(keep_analysis(&mut cache, key, "h".to_string(), failed, 5).is_err());
    let graph = engine.kept_call_graph(&mut cache, &at(REPO), "", false, "h", 5);
    assert!(matches!(graph, Ok(CacheStep::Ask(Some(_)))));
    assert!(ask(&mut engine, &mut cache, EdgeTool::Callers, 0, "h").is_ok());
    let unknown = engine.kept_call_graph(&mut cache, &at("/nowhere"), "", false, "h", 5);
    assert!(unknown.is_err());
}

#[test]
fn searches_are_kept_where_caching_is_on() {
    let mut engine = engine_with(&[REPO]);
    let mut cache = QueryCache::new(cache_shape(true, 10, 60));
    let query = |pattern: Option<&str>, kind: Option<&str>| SymbolQuery {
        symbol_type: kind.map(|k| k.to_string()),
        pattern: pattern.map(|p| p.to_string()),
        file_pattern: None,
        limit: 10,
    };
    let open = engine.kept_symbols(&mut cache, &at(REPO), &query(None, None), None, 1);
    assert!(matches!(open, Ok(CacheStep::Ask(None))), "a question for everything");
    let step = engine.kept_symbols(&mut cache, &at(REPO), &query(Some("f"), None), None, 1);
    let Ok(CacheStep::Ask(key)) = step else {
        panic!("nothing is kept yet");
    };
    let files = strings(&["a.c"]);
    keep_search(&mut cache, key, files, Ok("symbols".to_string()), 1).unwrap();
    let again = engine.kept_symbols(&mut cache, &at(REPO), &query(Some("f"), None), None, 2);
    assert!(matches!(again, Ok(CacheStep::Kept(text)) if text == "symbols"));
    let other = engine.kept_symbols(&mut cache, &at(REPO), &query(None, Some("f")), None, 2);
    assert!(matches!(other, Ok(CacheStep::Ask(Some(_)))));

    let options = SearchOptions {
        file_pattern: None,
        max_results: 10,
        exclude_tests: None,
    };
    let step = engine.kept_search(&mut cache, None, "f", &options, 2);
    let Ok(CacheStep::Ask(key)) = step else {
        panic!("nothing is kept yet");
    };
    keep_search(&mut cache, key, vec![], Ok("hits".to_string()), 2).unwrap();
    let all = engine.kept_search(&mut cache, None, "f", &options, 3);
    assert!(matches!(all, Ok(CacheStep::Kept(text)) if text == "hits"));
    let one = engine.kept_search(&mut cache, Some(&at(REPO)), "f", &options, 3);
    assert!(matches!(one, Ok(CacheStep::Ask(Some(_)))));

    let paths = strings(&[REPO]);
    let off = EngineOptions {
        cache_enabled: false,
        ..Default::default()
    };
    let mut plain = CodeIntelEngine::with_options(&paths, &paths, &[], off, 0);
    let none = plain.kept_search(&mut cache, None, "f", &options, 3);
    assert!(matches!(none, Ok(CacheStep::Ask(None))));
}

#[test]
fn content_comes_from_the_first_repo_that_has_it() {
    let mut engine = engine_with(&["/p", "/q", "/s"]);
    engine.cache_file(cached("/q/a.c", "from q"));
    engine.cache_file(cached("/s/a.c", "from s"));
    assert_eq!(engine.cached_content("a.c").as_deref(), Some("from q"));
    assert_eq!(engine.cached_content("b.c"), None);
}

#[test]
fn ranked_results_are_judged_by_the_cached_files() {
    let mut engine = engine_with(&["/r"]);
    engine.cache_file(cached("/r/target.c", "void widget_stop(void);"));
    engine.cache_file(cached("/r/noise.c", "stop(widget);"));
    let result = |file: &str| HybridResult {
        file_path: file.to_string(),
        start_line: 1,
        end_line: 1,
        content: "text".to_string(),
        score_text: "0.0100".to_string(),
        whole_file: true,
        bm25_rank: Some(0),
        tfidf_rank: None,
        matched_terms: vec![],
        regenerated: Some(Snippet {
            start_line: 40,
            end_line: 44,
            text: "made anew".to_string(),
        }),
        // What a caller claims of the file does not count.
        file_content: Some("widget_stop".to_string()),
    };
    let list = [result("noise.c"), result("target.c"), result("uncached.c")];
    let out = engine
        .hybrid_search(None, "widget_stop", "hybrid", &list, &[], 5)
        .unwrap();
    assert!(out.contains("target.c"), "{out}");
    assert!(!out.contains("noise.c") && !out.contains("uncached.c"), "{out}");
    assert!(out.contains("made anew") && out.contains("40-44"), "{out}");

    let document = |file: &str| RankedDocument {
        repo: "/r".to_string(),
        file_path: file.to_string(),
        start_line: 1,
        end_line: 9,
        whole_file: true,
        score_text: "0.50".to_string(),
        snippet: String::new(),
        regenerated: Some(Snippet {
            start_line: 40,
            end_line: 44,
            text: "made anew".to_string(),
        }),
    };
    let cached_one = engine
        .semantic_search(None, "widget", &[document("target.c")], &[], 5)
        .unwrap();
    assert!(cached_one.contains("Lines 40-44"), "{cached_one}");
    let uncached = engine
        .semantic_search(None, "widget", &[document("uncached.c")], &[], 5)
        .unwrap();
    assert!(uncached.contains("Lines 1-9"), "{uncached}");
    assert!(!uncached.contains("made anew"), "{uncached}");
}

#[test]
fn a_mode_names_the_index_that_is_asked() {
    assert_eq!(hybrid_plan("bm25", 10), (RankedSearch::Bm25, 20));
    assert_eq!(hybrid_plan("tfidf", 3), (RankedSearch::TfIdf, 6));
    assert_eq!(hybrid_plan("hybrid", 0), (RankedSearch::Both, 0));
    assert_eq!(semantic_plan(5), 40);
}
