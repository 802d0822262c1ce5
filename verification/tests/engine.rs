use narsil_mcp::backends::RepoInit;
use narsil_mcp::budget::ListWindow;
use narsil_mcp::callgraph::CallEdge;
use narsil_mcp::calltools::{DistantFunction, EdgeTool};
use narsil_mcp::changes::{
    repos_for_changes, ChangeBatch, ChangeContext, ChangeType, PathFacts, RepoPlace,
};
use narsil_mcp::engine::{CodeIntelEngine, IndexedRepo, RepoArg, RepoMetadata};
use narsil_mcp::history::{Contributor, Upstream};
use narsil_mcp::lookup::SymbolQuery;
use narsil_mcp::indexing::{select_files, ManifestUse, SelectionRules};
use narsil_mcp::leases::{IndexLeases, IndexUpdateLeases, LeaseStep, INDEX_LEASE_GRACE_MILLIS};
use narsil_mcp::position::{DefinitionAnswer, DefinitionPlace, ServerAnswer};
use narsil_mcp::registry::{
    compute_repo_hash, crosses_git_boundary, idle_ttl_secs, path_matches_repo_root, FileTime,
};
use narsil_mcp::search::CachedFile;
use narsil_mcp::settings::EngineOptions;
use narsil_mcp::store::index_symbol_embeddings;
use narsil_mcp::symbols::{SourceSet, Symbol, SymbolKind};
use narsil_mcp::tools::{locate_file, read_file, DiskFile};
use narsil_mcp::watch::{ParsedChange, SeenChange};

fn strings(list: &[&str]) -> Vec<String> {
    list.iter().map(|s| s.to_string()).collect()
}

/// An argument that names a path on disk.
fn at(path: &str) -> RepoArg {
    RepoArg {
        input: path.to_string(),
        resolved: Some(path.to_string()),
        git_dirs: vec![],
        missing: vec![],
        now: 1000,
    }
}

/// An argument that names no path.
fn named(name: &str) -> RepoArg {
    RepoArg {
        input: name.to_string(),
        resolved: None,
        git_dirs: vec![],
        missing: vec![],
        now: 1000,
    }
}

fn symbol(name: &str, file: &str) -> Symbol {
    Symbol {
        name: name.to_string(),
        kind: SymbolKind::Function,
        file_path: file.to_string(),
        start_line: 1,
        end_line: 3,
        signature: None,
        qualified_name: None,
        doc_comment: None,
        confirmed_by: SourceSet::tree_sitter(),
        line_conflicts: Vec::new(),
    }
}

fn indexed(key: &str, symbols: Vec<Symbol>) -> IndexedRepo {
    IndexedRepo {
        key: key.to_string(),
        metadata: RepoMetadata {
            name: "repo".to_string(),
            path: key.to_string(),
            file_count: 1,
            total_lines: 10,
            languages: vec![],
            last_indexed: 5,
            head_hash: None,
            cdb_hash: None,
            cdb_head_hash: None,
            logic_version: 1,
        },
        symbols,
    }
}

fn cached(path: &str, content: &str) -> CachedFile {
    CachedFile {
        path: path.to_string(),
        content: content.to_string(),
        comment_lines: content.lines().map(|_| false).collect(),
    }
}

fn on_disk(path: &str, content: &str) -> DiskFile {
    DiskFile {
        path: path.to_string(),
        canonical: Some(path.to_string()),
        content: Some(content.to_string()),
    }
}

fn everything() -> SymbolQuery {
    SymbolQuery {
        symbol_type: None,
        pattern: Some("*".to_string()),
        file_pattern: None,
        limit: 100,
    }
}

#[test]
fn resolve_repo_accepts_an_unambiguous_bare_name() {
    let repo = "/tmp/x/libfuse.git";
    let mut engine = CodeIntelEngine::new(&strings(&[repo]), 0);

    assert_eq!(engine.resolve_repo(&named("libfuse.git")).unwrap(), repo);
    // `.git` is part of the directory name, not of the repo's name.
    assert_eq!(engine.resolve_repo(&named("libfuse")).unwrap(), repo);
    assert!(engine.resolve_repo(&named("no-such-repo")).is_err());
}

#[test]
fn resolve_repo_names_the_candidates_for_an_ambiguous_name() {
    let mut engine =
        CodeIntelEngine::new(&strings(&["/tmp/x/a/linux.git", "/tmp/x/b/linux.git"]), 0);

    let err = engine.resolve_repo(&named("linux")).unwrap_err();
    assert!(err.contains("a/linux.git"), "{err}");
    assert!(err.contains("b/linux.git"), "{err}");
}

#[test]
fn resolve_repo_defaults_to_the_only_indexed_repo() {
    let mut engine = CodeIntelEngine::new(&strings(&["/tmp/x/repo"]), 0);
    assert_eq!(engine.resolve_repo(&named("")).unwrap(), "/tmp/x/repo");
}

#[test]
fn resolving_a_repo_stamps_it_as_used() {
    let mut engine = CodeIntelEngine::new(&strings(&["/tmp/x/repo"]), 0);
    assert_eq!(engine.registry.repos[0].last_used, 0);
    engine.resolve_repo(&at("/tmp/x/repo")).expect("resolve");
    assert!(
        engine.registry.repos[0].last_used > 0,
        "resolve_repo must record the use"
    );
}

#[test]
fn query_lease_is_refused_while_an_update_holds_the_repo() {
    let key = "/tmp/x/repo";
    let mut leases = IndexLeases::new();
    assert_eq!(leases.try_query_lease(key, 0), LeaseStep::Granted);
    leases.end_query(key);

    assert!(leases.index_update_leases(&strings(&[key])));
    assert!(leases.advance_update());
    assert!(leases.held.covers(key));
    assert_eq!(INDEX_LEASE_GRACE_MILLIS, 3000);
    assert_eq!(leases.try_query_lease(key, 0), LeaseStep::Wait);
    assert_eq!(leases.try_query_lease(key, 2999), LeaseStep::Wait);
    assert_eq!(leases.try_query_lease(key, 3000), LeaseStep::Refused);
    assert_eq!(leases.try_query_lease("/tmp/x/other", 0), LeaseStep::Granted);

    leases.end_update();
    assert_eq!(leases.try_query_lease(key, 0), LeaseStep::Granted);
}

#[test]
fn an_update_waits_for_the_queries_under_way() {
    let mut leases = IndexLeases::new();
    assert_eq!(leases.try_query_lease("/r", 0), LeaseStep::Granted);
    assert_eq!(leases.try_query_lease("/r", 0), LeaseStep::Granted);
    assert!(leases.index_update_leases(&strings(&["/q", "/r", "/q"])));
    assert!(!leases.advance_update());
    assert!(leases.held.covers("/q"));
    assert!(!leases.held.covers("/r"));
    // A query that comes now is kept out, and another update too.
    assert_eq!(leases.try_query_lease("/r", 0), LeaseStep::Wait);
    assert!(!leases.index_update_leases(&strings(&["/s"])));
    leases.end_query("/r");
    assert!(!leases.advance_update());
    leases.end_query("/r");
    assert!(leases.advance_update());
    assert!(leases.held.covers("/r"));
    assert!(leases.queries.is_empty());
    leases.end_query("/r");
    assert!(leases.held.covers("/r"));
}

#[test]
fn an_update_takes_each_lease_once() {
    let over = IndexUpdateLeases::over(&strings(&["/b", "/a", "/b"]));
    assert_eq!(over.leases, strings(&["/b", "/a"]));
    assert!(over.covers("/a"));
    assert!(!over.covers("/c"));
}

#[test]
fn progress_counts_the_configured_repos() {
    let mut engine = CodeIntelEngine::new(&strings(&["/c"]), 0);
    assert_eq!(engine.indexing_progress(), (0, 1));
    // An index that was loaded counts once the first pass has been over it.
    engine.publish(indexed("/c", vec![symbol("f", "a.c")]));
    assert_eq!(engine.indexing_progress(), (0, 1));
    engine.repo_initialized("/c");
    assert_eq!(engine.indexing_progress(), (1, 1));
    engine.repo_initialized("/c");
    assert_eq!(engine.indexing_progress(), (1, 1));

    assert!(engine.register_repo_path("/a", 1));
    engine.publish(indexed("/a", vec![]));
    engine.repo_initialized("/a");
    assert_eq!(engine.indexing_progress(), (1, 1));
    engine.forget_repo(&at("/a")).unwrap();
    assert_eq!(engine.indexing_progress(), (1, 1));

    // A rebuild does not lower it.
    engine.begin_reindex_all();
    assert_eq!(engine.indexing_progress(), (1, 1));
    engine.publish(indexed("/c", vec![]));
    engine.forget_repo(&at("/c")).unwrap();
    assert_eq!(engine.indexing_progress(), (0, 0));
}

#[test]
fn every_path_given_at_the_start_counts() {
    let paths = strings(&["/c", "/d", "/c"]);
    let mut engine = CodeIntelEngine::new(&paths, 0);
    assert_eq!(engine.indexing_progress(), (0, 3));
    assert_eq!(engine.registry.paths(), strings(&["/c", "/d"]));
    assert!(!engine.is_fully_initialized());
    assert!(engine.repo_status_snapshot().is_empty());
    engine.repo_initialized("/c");
    assert_eq!(engine.indexing_progress(), (2, 3));
    engine.repo_initialized("/d");
    assert_eq!(engine.indexing_progress(), (3, 3));
}

#[test]
fn start_up_ends_once() {
    let options = EngineOptions {
        persist_enabled: true,
        ..Default::default()
    };
    let paths = strings(&["/c", "/d"]);
    let mut engine = CodeIntelEngine::with_options(&paths, &paths, &[], options, 0);
    let outcome = |key: &str, from_cache: bool, indexed: bool| RepoInit {
        key: key.to_string(),
        from_cache,
        fingerprint_stale: false,
        indexed,
    };
    let first = [outcome("/c", false, true), outcome("/d", false, false)];
    assert!(engine.complete_initialization(&first), "a fresh index is saved");
    assert!(engine.is_fully_initialized());
    assert_eq!(engine.indexing_progress(), (1, 2));
    assert!(!engine.complete_initialization(&[outcome("/d", false, true)]));
    assert_eq!(engine.indexing_progress(), (1, 2));

    let mut loaded = CodeIntelEngine::new(&paths, 0);
    let all = [outcome("/c", true, true), outcome("/d", true, true)];
    assert!(!loaded.complete_initialization(&all), "nothing to save");
    assert_eq!(loaded.indexing_progress(), (2, 2));
}

#[test]
fn an_engine_starts_with_what_is_on_disk() {
    let paths = strings(&["/git", "/plain", "/missing"]);
    let existing = strings(&["/git", "/plain"]);
    let git = strings(&["/git"]);
    let options = EngineOptions {
        git_enabled: true,
        call_graph_enabled: true,
        ..Default::default()
    };
    let engine = CodeIntelEngine::with_options(&paths, &existing, &git, options, 0);
    assert_eq!(engine.registry.paths(), paths);
    assert_eq!(engine.call_graphs, existing);
    assert_eq!(engine.git_repos, git);
    assert_eq!(engine.indexing_progress(), (0, 3));

    let bare = CodeIntelEngine::with_options(&paths, &existing, &git, EngineOptions::default(), 0);
    assert!(bare.call_graphs.is_empty());
    assert!(bare.git_repos.is_empty());
}

#[test]
fn each_call_site_of_a_callee_is_listed_once() {
    let repo = "/tmp/x/repo";
    let options = EngineOptions {
        call_graph_enabled: true,
        ..Default::default()
    };
    let list = strings(&[repo]);
    let mut engine = CodeIntelEngine::with_options(&list, &list, &[], options, 0);
    engine.publish(indexed(repo, vec![symbol("f", "a.c")]));
    engine.finish_initialization();
    let edge = |line: usize, source: SourceSet| CallEdge {
        target: "g".to_string(),
        file_path: "a.c".to_string(),
        line,
        column: 0,
        call_type: "Direct".to_string(),
        scope_hint: None,
        confirmed_by: source,
        line_conflicts: Vec::new(),
    };
    let edges = vec![
        edge(7, SourceSet::tree_sitter()),
        edge(7, SourceSet::gtags()),
        edge(9, SourceSet::tree_sitter()),
    ];
    let out = engine
        .get_callees(
            &at(repo),
            "f",
            &[],
            &edges,
            &[],
            ListWindow::new(0, 50),
            SourceSet::tree_sitter(),
            SourceSet::tree_sitter(),
        )
        .unwrap();
    assert_eq!(out.matches("a.c:7").count(), 1, "{out}");
    assert_eq!(out.matches("a.c:9").count(), 1, "{out}");
}

#[test]
fn a_hover_needs_an_index_where_the_server_is_silent() {
    let repo = "/tmp/x/repo";
    let mut engine = CodeIntelEngine::new(&strings(&[repo]), 0);
    let disk = [on_disk("/tmp/x/repo/a.c", "int f;\n")];
    let spoken = ServerAnswer::Text("int f".to_string());
    let out = engine
        .get_hover_info(&at(repo), "a.c", 1, 4, &spoken, &disk)
        .unwrap();
    assert!(out.contains("int f"), "{out}");
    let silent = engine.get_hover_info(&at(repo), "a.c", 1, 4, &ServerAnswer::Nothing, &disk);
    assert!(silent.is_err());
    engine.publish(indexed(repo, vec![symbol("f", "a.c")]));
    let local = engine
        .get_hover_info(&at(repo), "a.c", 1, 4, &ServerAnswer::Nothing, &disk)
        .unwrap();
    assert!(local.contains('f'), "{local}");
}

#[test]
fn a_place_the_server_names_needs_no_content() {
    let repo = "/tmp/x/repo";
    let mut engine = CodeIntelEngine::new(&strings(&[repo]), 0);
    let unreadable = [DiskFile {
        path: "/tmp/x/repo/a.c".to_string(),
        canonical: Some("/tmp/x/repo/a.c".to_string()),
        content: None,
    }];
    let places = DefinitionAnswer::Places(vec![DefinitionPlace {
        path: "/tmp/x/repo/b.c".to_string(),
        in_file: true,
        line: 6,
        character: 0,
    }]);
    let out = engine
        .go_to_definition(&at(repo), "a.c", 1, 4, &places, &unreadable)
        .unwrap();
    assert!(out.contains("b.c"), "{out}");
    let none = engine.go_to_definition(
        &at(repo),
        "a.c",
        1,
        4,
        &DefinitionAnswer::Nothing,
        &unreadable,
    );
    assert!(none.is_err());
}

#[test]
fn idle_sweep_drops_the_adopted_repo_and_keeps_the_configured_one() {
    let configured = "/tmp/x/configured";
    let adopted = "/tmp/x/adopted";
    let mut engine = CodeIntelEngine::new(&strings(&[configured]), 0);
    engine.finish_initialization();
    assert!(engine.register_repo_path(adopted, 0));
    engine.publish(indexed(adopted, vec![]));

    let swept = engine.sweep_idle_repos(10_000, 60);

    assert_eq!(swept, strings(&[adopted]));
    let surviving = engine.registry.paths();
    assert!(
        surviving.iter().any(|path| path == configured),
        "a configured repo must survive any idle time: {surviving:?}"
    );
    assert!(
        !surviving.iter().any(|path| path == adopted),
        "an idle adopted repo must be dropped: {surviving:?}"
    );
    assert!(!engine.indexed_keys().iter().any(|key| key == adopted));
}

#[test]
fn a_repo_in_use_outlives_the_sweep() {
    let adopted = "/tmp/x/adopted";
    let mut engine = CodeIntelEngine::new(&[], 0);
    engine.register_repo_path(adopted, 0);
    engine.resolve_repo(&at(adopted)).unwrap();
    assert!(engine.sweep_idle_repos(1030, 60).is_empty());
    assert_eq!(idle_ttl_secs(7), 7 * 24 * 3600);
}

#[test]
fn a_repo_registered_after_startup_answers_the_git_tools() {
    let configured = "/tmp/x/configured";
    let adopted = "/tmp/x/adopted";
    let mut engine = CodeIntelEngine::with_options(
        &strings(&[configured]),
        &strings(&[configured]),
        &[],
        EngineOptions {
            git_enabled: true,
            ..EngineOptions::default()
        },
        0,
    );
    engine.finish_initialization();
    engine.register_repo_path(adopted, 1);
    engine.git_repos.push(adopted.to_string());
    engine.publish(indexed(adopted, vec![]));

    let file = format!("{adopted}/lib.rs");
    let history = engine
        .get_file_history(
            &at(adopted),
            "lib.rs",
            "abc123 add lib.rs\n".to_string(),
            &[on_disk(&file, "pub fn f() -> u32 { 1 }\n")],
        )
        .expect("an adopted repo must answer the git tools");
    assert!(
        history.contains("add lib.rs"),
        "history of the adopted repo: {history}"
    );
}

#[test]
fn repos_for_changes_maps_files_to_their_repo_once() {
    let repo = "/tmp/x/repo";
    let place = |path: &str| PathFacts {
        path: path.to_string(),
        canonical: Some(path.to_string()),
        parent_canonical: None,
    };
    let repos = vec![RepoPlace {
        path: repo.to_string(),
        canonical: Some(repo.to_string()),
        manifests: vec![],
    }];
    let changes = vec![
        place("/tmp/x/repo/a.rs"),
        place("/tmp/x/repo/sub/b.rs"),
        place("/tmp/x/outside/c.rs"),
    ];

    assert_eq!(repos_for_changes(&changes, &repos), strings(&[repo]));
}

#[test]
fn find_symbols_names_compile_commands_filter_as_the_reason_for_zero() {
    let repo = "/tmp/x/repo";
    // Four of the five sources are listed, which clears both thresholds, so the filter
    // drops exactly the one file left off the manifest.
    let listed = ["a.c", "b.c", "c.c", "d.c"];
    let walk: Vec<String> = listed
        .iter()
        .chain(["e.c"].iter())
        .map(|name| format!("{repo}/{name}"))
        .collect();
    let rules = SelectionRules {
        root: repo.to_string(),
        index_filter: vec![],
        keep_entries: vec![],
        use_compile_commands: true,
        compiled: listed.iter().map(|name| format!("{repo}/{name}")).collect(),
        unlisted: vec![],
        min_coverage_pct: 25,
    };
    let selected = select_files(&rules, &walk);
    assert_eq!(selected.manifest, ManifestUse::Applied);
    let mut engine = CodeIntelEngine::new(&strings(&[repo]), 0);
    let symbols: Vec<Symbol> = selected
        .files
        .iter()
        .map(|path| path.trim_start_matches("/tmp/x/repo/"))
        .map(|name| symbol(&name.replace('.', "_"), name))
        .collect();
    engine.publish(indexed(repo, symbols));

    let find = |engine: &mut CodeIntelEngine, file: &str| {
        let query = SymbolQuery {
            symbol_type: None,
            pattern: Some("*".to_string()),
            file_pattern: Some(file.to_string()),
            limit: 100,
        };
        engine
            .find_symbols(
                &at(repo),
                &query,
                &[],
                &selected.manifest_filtered,
                &[],
                SourceSet::tree_sitter(),
                SourceSet::tree_sitter(),
            )
            .unwrap()
    };
    let output = find(&mut engine, "e.c");

    assert!(
        output.contains("Found 0 symbols"),
        "e.c should be excluded from the index, got:\n{output}"
    );
    assert!(
        output.contains("compile_commands.json") && output.contains("e.c"),
        "zero-symbol answer must name the compile_commands filter as the reason, got:\n{output}"
    );

    // A listed file is unaffected and carries no such note.
    let output = find(&mut engine, "a.c");
    assert!(
        output.contains("a_c"),
        "a.c's own symbol should be found:\n{output}"
    );
    assert!(
        !output.contains("compile_commands.json"),
        "a listed file must not carry the exclusion note:\n{output}"
    );
}

#[test]
fn get_branch_info_caps_unpushed_commits_and_modified_files() {
    let repo = "/tmp/x/repo";
    let mut engine = CodeIntelEngine::with_options(
        &strings(&[repo]),
        &strings(&[repo]),
        &strings(&[repo]),
        EngineOptions {
            git_enabled: true,
            ..Default::default()
        },
        0,
    );
    let upstream = Some(Upstream {
        upstream: "up".to_string(),
        ahead: 25,
        behind: 0,
        unpushed: (0..25).map(|step| format!("abc{step} step {step}")).collect(),
    });
    let modified: Vec<String> = (0..25).map(|i| format!("untracked_{i}.txt")).collect();

    let output = engine
        .get_branch_info(
            &at(repo),
            "main",
            &upstream,
            &modified,
            ListWindow::new(0, 20),
        )
        .unwrap();
    assert_eq!(
        output.matches(" step ").count(),
        20,
        "limit=20 should cap unpushed commits at 20, got:\n{output}"
    );
    assert_eq!(
        output.matches("- `untracked_").count(),
        20,
        "limit=20 should cap modified files at 20, got:\n{output}"
    );
    assert!(
        output.contains("Showing 20 of 25"),
        "footer should name the total and next page:\n{output}"
    );

    let output = engine
        .get_branch_info(
            &at(repo),
            "main",
            &upstream,
            &modified,
            ListWindow::new(0, 0),
        )
        .unwrap();
    assert_eq!(output.matches(" step ").count(), 25);
    assert_eq!(output.matches("- `untracked_").count(), 25);
}

#[test]
fn get_file_header_names_the_range_it_returns() {
    let repo = "/tmp/x/repo";
    let mut engine = CodeIntelEngine::new(&strings(&[repo]), 0);
    let long_file = (1..=5000)
        .map(|n| format!("\tsome_call_number_{}(argument, argument, argument);", n))
        .collect::<Vec<_>>()
        .join("\n");
    let out = engine
        .get_file(
            &at(repo),
            "big.c",
            Some(1),
            Some(5000),
            64 * 1024,
            &[on_disk("/tmp/x/repo/big.c", &long_file)],
        )
        .unwrap();

    let header = out.lines().find(|l| l.starts_with("Lines ")).unwrap();
    let last_line: usize = header
        .trim_start_matches("Lines 1-")
        .split(' ')
        .next()
        .unwrap()
        .parse()
        .unwrap();

    assert!(last_line < 5000, "budget must bite for this file: {header}");
    assert!(
        out.contains(&format!("some_call_number_{}(", last_line)),
        "header names line {last_line}, which the body does not contain"
    );
    assert!(
        !out.contains(&format!("some_call_number_{}(", last_line + 1)),
        "body runs past the line the header names"
    );
    assert!(out.contains(&format!("start_line={}", last_line + 1)));
}

#[test]
fn get_file_refuses_a_range_the_file_cannot_satisfy() {
    let repo = "/tmp/x/repo";
    let mut engine = CodeIntelEngine::new(&strings(&[repo]), 0);
    let disk = [on_disk("/tmp/x/repo/short.c", "one\ntwo\nthree\n")];

    let past_eof = engine
        .get_file(&at(repo), "short.c", Some(99000), Some(99010), 65536, &disk)
        .unwrap_err();
    assert!(
        past_eof.contains("past the end") && past_eof.contains("3 lines"),
        "error must name the file length: {past_eof}"
    );

    let reversed = engine
        .get_file(&at(repo), "short.c", Some(3), Some(1), 65536, &disk)
        .unwrap_err();
    assert!(
        reversed.contains("start_line 3 is after end_line 1"),
        "error must name both bounds: {reversed}"
    );

    // The bounds a short file does satisfy still answer.
    let clamped = engine
        .get_file(&at(repo), "short.c", Some(2), Some(99), 65536, &disk)
        .unwrap();
    assert!(clamped.contains("Lines 2-3 of 3"), "{clamped}");
}

#[test]
fn a_served_file_lies_inside_its_repo() {
    let inside = on_disk("/r/a.c", "int a;\n");
    let linked = DiskFile {
        path: "/r/link.c".to_string(),
        canonical: Some("/etc/passwd".to_string()),
        content: Some("secret".to_string()),
    };
    let disk = [inside, linked];
    assert_eq!(locate_file(&disk, "/r", "a.c").unwrap(), 0);
    assert_eq!(read_file(&disk, "/r", "a.c").unwrap(), "int a;\n");
    assert!(read_file(&disk, "/r", "link.c").is_err());
    assert!(read_file(&disk, "/r", "missing.c").is_err());
    assert!(read_file(&disk, "/r", "../r/a.c").is_err());
}

#[test]
fn a_published_index_answers_and_a_forgotten_one_is_gone() {
    let repo = "/tmp/x/repo";
    let other = "/tmp/x/other";
    let mut engine = CodeIntelEngine::new(&strings(&[repo, other]), 0);
    engine.publish(indexed(repo, vec![symbol("f", "a.c")]));
    engine.publish(indexed(other, vec![symbol("g", "b.c")]));
    engine.cache_file(cached("/tmp/x/repo/a.c", "f"));
    engine.cache_file(cached("/tmp/x/other/b.c", "g"));
    assert_eq!(engine.indexed_keys(), strings(&[repo, other]));

    let forgot = engine.forget_repo(&at(repo)).unwrap();
    assert_eq!(forgot, "Forgot repository: /tmp/x/repo");
    assert_eq!(engine.indexed_keys(), strings(&[other]));
    assert!(!engine.has_file("/tmp/x/repo/a.c"));
    assert!(engine.has_file("/tmp/x/other/b.c"));
    let gone = engine.find_symbols(
        &at(repo),
        &everything(),
        &[],
        &[],
        &[],
        SourceSet::tree_sitter(),
        SourceSet::tree_sitter(),
    );
    assert!(gone.is_err());
}

#[test]
fn an_edit_touches_one_file_of_one_repo() {
    let repo = "/tmp/x/repo";
    let other = "/tmp/x/other";
    let mut engine = CodeIntelEngine::new(&strings(&[repo, other]), 0);
    engine.publish(indexed(
        repo,
        vec![symbol("old", "a.c"), symbol("kept", "b.c")],
    ));
    engine.publish(indexed(other, vec![symbol("g", "a.c")]));
    engine.reindex_file(
        repo,
        "a.c",
        vec![symbol("new", "a.c")],
        cached("/tmp/x/repo/a.c", "new"),
    );
    let names: Vec<&str> = engine.repos[0]
        .symbols
        .iter()
        .map(|s| s.name.as_str())
        .collect();
    assert_eq!(names, vec!["kept", "new"]);
    assert_eq!(engine.repos[1].symbols[0].name, "g");
    engine.remove_file(repo, "b.c", "/tmp/x/repo/b.c");
    assert_eq!(engine.repos[0].symbols.len(), 1);
}

#[test]
fn a_watched_change_reindexes_its_file() {
    let repo = "/tmp/x/repo";
    let mut engine = CodeIntelEngine::new(&strings(&[repo]), 0);
    engine.publish(indexed(repo, vec![symbol("old", "a.c")]));
    let places = vec![RepoPlace {
        path: repo.to_string(),
        canonical: Some(repo.to_string()),
        manifests: vec![],
    }];
    let change = SeenChange {
        place: PathFacts {
            path: "/tmp/x/repo/a.c".to_string(),
            canonical: Some("/tmp/x/repo/a.c".to_string()),
            parent_canonical: Some(repo.to_string()),
        },
        change: ChangeType::Modified,
        context: ChangeContext {
            git_ignored: false,
            index_filtered: false,
            index_filter: vec![],
        },
        parsed: Some(ParsedChange {
            symbols: vec![symbol("new", "a.c")],
            reports: vec![],
            file: cached("/tmp/x/repo/a.c", "new"),
        }),
        definitions: None,
    };
    let mut batch = ChangeBatch::new();
    let (done, manifest) = engine.process_file_changes(&mut batch, &[change], &places);
    assert_eq!(done, 1);
    assert!(manifest.is_none());
    assert_eq!(batch.count, 1);
    assert_eq!(engine.repos[0].symbols[0].name, "new");
}

#[test]
fn a_root_names_its_repo_and_not_a_nested_one() {
    assert!(path_matches_repo_root("/r", "/r/src", &[]));
    assert!(crosses_git_boundary(
        "/r",
        "/r/vendor/x/src",
        &strings(&["/r/vendor/x"])
    ));
    assert!(!path_matches_repo_root(
        "/r",
        "/r/vendor/x/src",
        &strings(&["/r/vendor/x"])
    ));
}

#[test]
fn a_repository_that_is_not_known_may_be_adopted() {
    let mut engine = CodeIntelEngine::new(&strings(&["/tmp/x/repo"]), 0);
    engine.publish(indexed("/tmp/x/repo", vec![symbol("f", "a.c")]));
    let known = engine
        .reindex(Some(&at("/tmp/x/repo")), None, false)
        .unwrap();
    assert_eq!(known.message, "Re-indexed repository: /tmp/x/repo");
    assert!(engine.indexed_keys().is_empty(), "emptied to be rebuilt");
    let refused = engine.reindex(Some(&at("/tmp/x/new")), Some("/tmp/x/new"), false);
    assert!(refused.is_err());
    let adopted = engine
        .reindex(Some(&at("/tmp/x/new")), Some("/tmp/x/new"), true)
        .unwrap();
    assert_eq!(adopted.key.as_deref(), Some("/tmp/x/new"));
    assert_eq!(
        adopted.message,
        "Registered and indexed repository: /tmp/x/new"
    );
    assert!(engine.registry.paths().contains(&"/tmp/x/new".to_string()));
    let all = engine.reindex(None, None, false).unwrap();
    assert_eq!(all.message, "Re-indexed all repositories");
    assert!(all.key.is_none());
}

#[test]
fn unknown_repos_are_errors_with_the_known_ones() {
    let mut engine = CodeIntelEngine::new(&strings(&["/tmp/x/repo", "/tmp/x/other"]), 0);
    let err = engine.resolve_repo(&named("nope")).unwrap_err();
    assert!(err.contains("nope"), "{err}");
    let empty = engine.resolve_repo(&named("")).unwrap_err();
    assert!(!empty.is_empty());
    let path = engine
        .resolve_repo(&RepoArg {
            input: "/no/such".to_string(),
            resolved: None,
            git_dirs: vec![],
            missing: vec![],
            now: 0,
        })
        .unwrap_err();
    assert!(path.contains("/no/such"), "{path}");
}

#[test]
fn contributors_come_through_the_engine() {
    let repo = "/tmp/x/repo";
    let mut engine = CodeIntelEngine::with_options(
        &strings(&[repo]),
        &strings(&[repo]),
        &[],
        EngineOptions {
            git_enabled: true,
            ..Default::default()
        },
        0,
    );
    let list = vec![Contributor {
        name: "dev <d@e>".to_string(),
        commits: 3,
    }];
    let refused = engine.get_contributors(&at(repo), None, &list, ListWindow::new(0, 30), &[]);
    assert!(refused.is_err());
    engine.git_repos.push(repo.to_string());
    let out = engine
        .get_contributors(&at(repo), None, &list, ListWindow::new(0, 30), &[])
        .unwrap();
    assert!(out.contains("dev <d@e> (3 commits)"), "{out}");
}

#[test]
fn search_reaches_the_cached_files() {
    let repo = "/tmp/x/repo";
    let mut engine = CodeIntelEngine::new(&strings(&[repo]), 0);
    engine.cache_file(cached("/tmp/x/repo/a.c", "int needle;\n"));
    let hits = engine
        .search_code(Some(&at(repo)), "needle", &[], &None)
        .unwrap();
    assert_eq!(hits.hits.len(), 1);
}

#[test]
fn graphs_are_drawn_of_what_is_indexed() {
    let repo = "/tmp/x/repo";
    let list = strings(&[repo]);
    let options = EngineOptions {
        call_graph_enabled: true,
        ..Default::default()
    };
    let mut engine = CodeIntelEngine::with_options(&list, &list, &[], options, 0);
    assert_eq!(engine.get_call_graph_for_viz(""), Ok(repo.to_string()));
    assert_eq!(engine.get_call_graph_for_viz(repo), Ok(repo.to_string()));
    assert!(engine.get_call_graph_for_viz("/tmp/x/other").is_err());
    let plain = CodeIntelEngine::new(&list, 0);
    assert!(plain.get_call_graph_for_viz(repo).is_err());

    let early = engine.get_symbol_graph_for_viz(&at(repo), "f", 10);
    assert_eq!(
        early.err().as_deref(),
        Some("Repository not indexed: /tmp/x/repo")
    );
    engine.publish(indexed(repo, vec![symbol("f", "a.c")]));
    engine.cache_file(cached("/tmp/x/repo/a.c", "int f(void);\nint x = f();\n"));
    let missing = engine.get_symbol_graph_for_viz(&at(repo), "g", 10);
    assert_eq!(missing.err().as_deref(), Some("Symbol not found: g"));
    let drawn = engine.get_symbol_graph_for_viz(&at(repo), "f", 10).ok();
    let (definition, references) = drawn.unwrap();
    assert_eq!(definition.id, "f");
    assert_eq!(definition.kind, "function");
    assert_eq!((definition.file_path.as_str(), definition.line), ("a.c", 1));
    assert!(references.iter().any(|r| r.line == 2));

    let status = engine.repo_status_snapshot();
    assert_eq!(status, vec![(repo.to_string(), 1, 1)]);
}

#[test]
fn distant_callers_are_listed_by_their_depth() {
    let repo = "/tmp/x/repo";
    let list = strings(&[repo]);
    let options = EngineOptions {
        call_graph_enabled: true,
        ..Default::default()
    };
    let mut engine = CodeIntelEngine::with_options(&list, &list, &[], options, 0);
    engine.publish(indexed(repo, vec![symbol("f", "a.c")]));
    let far = vec![DistantFunction {
        key: "m.c::main".to_string(),
        depth: 2,
    }];
    let ask = |engine: &mut CodeIntelEngine| {
        engine.get_transitive(
            &at(repo),
            EdgeTool::Callers,
            "f",
            &[],
            &far,
            3,
            &[],
            ListWindow::new(0, 50),
        )
    };
    assert!(ask(&mut engine).is_err(), "not before start-up is over");
    engine.finish_initialization();
    let out = ask(&mut engine).unwrap();
    assert!(out.contains("m.c::main"), "{out}");
}

#[test]
fn tags_join_the_symbols_of_their_file() {
    let repo = "/tmp/x/repo";
    let mut engine = CodeIntelEngine::new(&strings(&[repo]), 0);
    engine.publish(indexed(repo, vec![symbol("f", "a.c"), symbol("g", "b.c")]));
    engine.merge_tags(repo, "a.c", &[("f".to_string(), 1), ("new".to_string(), 90)]);
    let in_file = |file: &str| {
        engine.repos[0]
            .symbols
            .iter()
            .filter(|s| s.file_path == file)
            .map(|s| (s.name.as_str(), s.start_line))
            .collect::<Vec<_>>()
    };
    assert_eq!(in_file("a.c"), vec![("f", 1), ("new", 90)]);
    assert_eq!(in_file("b.c"), vec![("g", 1)]);
}

#[test]
fn a_repo_is_known_by_the_times_of_its_files() {
    let file = |path: &str, modified_secs: u64| FileTime {
        path: path.to_string(),
        modified_secs: Some(modified_secs),
    };
    let one = compute_repo_hash(&[file("/r/a.c", 1), file("/r/b.c", 2)], "/r");
    assert_eq!(one.len(), 64);
    // Neither the order nor what lies outside matters.
    let same = [file("/r/b.c", 2), file("/q/a.c", 9), file("/r/a.c", 1)];
    assert_eq!(one, compute_repo_hash(&same, "/r"));
    assert_ne!(one, compute_repo_hash(&[file("/r/a.c", 1), file("/r/b.c", 3)], "/r"));
    assert_ne!(one, compute_repo_hash(&[file("/r/a.c", 1)], "/r"));
}

#[test]
fn only_a_signature_is_kept_for_semantic_search() {
    let mut s = symbol("f", "a.c");
    assert_eq!(index_symbol_embeddings("/r", &s), None);
    s.signature = Some("int f(void)".to_string());
    assert_eq!(
        index_symbol_embeddings("/r", &s),
        Some(("/r::a.c::f".to_string(), "int f(void)".to_string()))
    );
}
