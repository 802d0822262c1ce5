use narsil_mcp::budget::ListWindow;
use narsil_mcp::cache::{
    AnalysisCache, AnalysisCacheKey, QueryCache, SearchOptions, ANALYSIS_CACHE_CAPACITY,
    QUERY_CACHE_CAPACITY,
};
use narsil_mcp::callgraph::{
    call_hierarchy_edges, call_hierarchy_pass_runs, call_hierarchy_question, cxx_functions,
    file_of_key, fold_duplicate_sites, group_by_file, gtags_call_edges, is_call_site,
    merge_lsp_callers, qualified_key, CallEdge, CxxFunction, FileFunctions, FileQuestion,
    OutgoingCall, Reference, TagReference, CXX_CALLHIERARCHY_BUDGET_NANOS,
};
use narsil_mcp::calltools::{
    ambiguity_note, call_graph_gap, edges_cache_key, render_call_path, render_complexity,
    render_direct, render_hotspots, render_transitive, CallGraphGap, DistantFunction,
    EdgeQuestion, EdgeTool, FunctionMetrics, Hotspot,
};
use narsil_mcp::settings::cache_shape;
use narsil_mcp::symbols::{SourceSet, Symbol, SymbolKind};

fn function(name: &str, file: &str, start_line: usize, end_line: usize) -> Symbol {
    Symbol {
        name: name.to_string(),
        kind: SymbolKind::Function,
        file_path: file.to_string(),
        start_line,
        end_line,
        signature: None,
        qualified_name: None,
        doc_comment: None,
        confirmed_by: SourceSet::tree_sitter(),
        line_conflicts: Vec::new(),
    }
}

fn edge(target: &str, file: &str, line: usize, source: SourceSet) -> CallEdge {
    CallEdge {
        target: target.to_string(),
        file_path: file.to_string(),
        line,
        column: 0,
        call_type: "Direct".to_string(),
        scope_hint: None,
        confirmed_by: source,
        line_conflicts: Vec::new(),
    }
}

#[test]
fn only_a_call_becomes_an_edge() {
    assert!(is_call_site(
        "\tret = dash_prefixed(progname, what);",
        "dash_prefixed",
        false
    ));
    assert!(is_call_site("\tif (mount_opt (arg))", "mount_opt", false));

    // A parameter, an address-of use and a comment are uses and no calls.
    assert!(!is_call_site(
        "static int dash_prefixed(const char *progname, const char *what, const char *value)",
        "what",
        false
    ));
    assert!(!is_call_site(
        "\thandler = &dash_prefixed;",
        "dash_prefixed",
        false
    ));
    assert!(!is_call_site(
        "// dash_prefixed() builds the -o string",
        "dash_prefixed",
        true
    ));
    // A longer name that merely ends with the one asked about.
    assert!(!is_call_site(
        "\tret = my_dash_prefixed(x);",
        "dash_prefixed",
        false
    ));
    // A letter outside ASCII belongs to the longer name too.
    assert!(!is_call_site("\tret = \u{e9}f(x);", "f", false));
}

#[test]
fn a_repeated_function_name_names_its_other_definitions() {
    let keys = vec![
        "example/invalidate_path.c::update_fs_loop".to_string(),
        "example/notify_prune.c::update_fs_loop".to_string(),
    ];
    let note = ambiguity_note(&keys, "update_fs_loop");
    assert!(note.contains("has 2 definitions"));
    assert!(note.contains("`example/invalidate_path.c::update_fs_loop`"));
    assert!(note.contains("`example/notify_prune.c::update_fs_loop`"));

    assert!(ambiguity_note(&[], "no_such_function").is_empty());
}

#[test]
fn a_key_names_its_file() {
    let key = qualified_key("src/a.c", "f");
    assert_eq!(key, "src/a.c::f");
    assert_eq!(file_of_key(&key), "src/a.c");
}

#[test]
fn every_function_of_a_cxx_file_is_asked_for() {
    let symbols = vec![
        function("f", "a.c", 3, 9),
        function("g", "b.rs", 1, 2),
        function("h", "a.c", 11, 12),
    ];
    let list = cxx_functions(&symbols);
    let names: Vec<&str> = list.iter().map(|f| f.name.as_str()).collect();
    assert_eq!(names, vec!["f", "h"]);
    let groups = group_by_file(&list);
    assert_eq!(groups.len(), 1);
    assert_eq!(groups[0].functions.len(), 2);
}

#[test]
fn a_file_is_asked_about_while_there_is_time() {
    assert!(call_hierarchy_pass_runs(true, false, true));
    assert!(!call_hierarchy_pass_runs(false, false, true));
    assert_eq!(call_hierarchy_question(true, true, 0), FileQuestion::Ask);
    assert_eq!(
        call_hierarchy_question(false, true, 0),
        FileQuestion::PassOver
    );
    assert_eq!(
        call_hierarchy_question(true, true, CXX_CALLHIERARCHY_BUDGET_NANOS + 1),
        FileQuestion::TooLate
    );
}

#[test]
fn a_servers_answer_becomes_edges() {
    let group = FileFunctions {
        file_path: "a.c".to_string(),
        functions: vec![CxxFunction {
            name: "f".to_string(),
            file_path: "a.c".to_string(),
            line: 3,
        }],
    };
    let answers = vec![vec![OutgoingCall {
        callee: "g".to_string(),
        line: 5,
    }]];
    let edges = call_hierarchy_edges(&group, &answers, SourceSet::clangd());
    assert_eq!(edges.len(), 1);
    assert_eq!(edges[0].caller, "a.c::f");
    assert_eq!(edges[0].edge.target, "g");
    assert_eq!(edges[0].edge.confirmed_by, SourceSet::clangd());
}

#[test]
fn tag_edges_are_calls() {
    let symbols = vec![function("f", "a.c", 3, 9)];
    let refs = vec![
        TagReference {
            file_path: "a.c".to_string(),
            line: 5,
            text: "\tg(x);".to_string(),
            comment_only: false,
        },
        TagReference {
            file_path: "a.c".to_string(),
            line: 6,
            text: "\thandler = &g;".to_string(),
            comment_only: false,
        },
    ];
    let edges = gtags_call_edges("g", &refs, &symbols);
    assert_eq!(edges.len(), 1);
    assert_eq!(edges[0].caller, "a.c::f");
    assert_eq!(edges[0].edge.line, 5);
}

#[test]
fn a_server_only_adds_callers() {
    let symbols = vec![function("f", "a.c", 3, 9), function("h", "a.c", 20, 30)];
    let known = vec![edge("f", "a.c", 5, SourceSet::tree_sitter())];
    let refs = vec![Reference {
        file_path: "a.c".to_string(),
        line: 25,
        content: "g(1);".to_string(),
    }];
    let merged = merge_lsp_callers(known, &refs, "g", &symbols, SourceSet::clangd());
    assert_eq!(merged.len(), 2);
    assert_eq!(merged[1].target, "h");
    assert_eq!(merged[1].line, 25);
}

#[test]
fn a_site_reported_twice_is_one_edge() {
    let edges = vec![
        edge("f", "a.c", 5, SourceSet::tree_sitter()),
        edge("f", "a.c", 5, SourceSet::clangd()),
        edge("f", "a.c", 6, SourceSet::clangd()),
    ];
    let folded = fold_duplicate_sites(&edges);
    assert_eq!(folded.len(), 2);
    assert!(folded[0].confirmed_by.contains(SourceSet::clangd()));
    assert!(folded[0].confirmed_by.contains(SourceSet::tree_sitter()));
}

#[test]
fn a_missing_call_graph_is_named() {
    assert_eq!(
        call_graph_gap(Some(""), true, true),
        Some(CallGraphGap::NoFunction)
    );
    assert_eq!(
        call_graph_gap(Some("f"), false, false),
        Some(CallGraphGap::Initializing)
    );
    assert_eq!(
        call_graph_gap(Some("f"), true, false),
        Some(CallGraphGap::NoGraph)
    );
    assert_eq!(call_graph_gap(Some("f"), true, true), None);
    for gap in [
        CallGraphGap::NoFunction,
        CallGraphGap::Initializing,
        CallGraphGap::NoGraph,
    ] {
        assert!(!gap.message("get_callers", "/r").is_empty());
    }
}

#[test]
fn questions_do_not_share_answers() {
    let ask = |offset: usize, exclude_tests: bool, transitive: bool, max_depth: usize| {
        let question = EdgeQuestion {
            window: ListWindow::new(offset, 50),
            exclude_tests,
            transitive,
            max_depth,
        };
        edges_cache_key("f", question)
    };
    let first = ask(0, false, false, 3);
    assert_eq!(first, ask(0, false, false, 3));
    assert_ne!(first, ask(50, false, false, 3));
    assert_ne!(first, ask(0, true, false, 3));
    assert_ne!(first, ask(0, false, true, 3));
    assert_ne!(first, ask(0, false, false, 4));
}

#[test]
fn a_kept_answer_is_served_while_it_holds() {
    let key = |repo: &str, what: &str| {
        AnalysisCacheKey::with_discriminator(repo, "callers_hybrid", what.to_string())
    };
    let mut cache = AnalysisCache::new(cache_shape(true, ANALYSIS_CACHE_CAPACITY, 60));
    assert_eq!(cache.get_if_hash_matches(&key("/r", "f"), "h1", 100), None);
    cache.insert_with_hash(key("/r", "f"), "answer".to_string(), "h1".to_string(), 100);
    cache.insert_with_hash(key("/q", "f"), "other".to_string(), "h1".to_string(), 100);
    let served = cache.get_if_hash_matches(&key("/r", "f"), "h1", 159);
    assert_eq!(served.as_deref(), Some("answer"));
    assert_eq!(cache.get_if_hash_matches(&key("/r", "g"), "h1", 101), None);
    // An answer as old as its time, and one about another state, are gone.
    assert_eq!(cache.get_if_hash_matches(&key("/q", "f"), "h1", 160), None);
    assert_eq!(cache.get_if_hash_matches(&key("/r", "f"), "h2", 101), None);
    assert_eq!(cache.get_if_hash_matches(&key("/r", "f"), "h1", 101), None);
    let stats = cache.cache_stats();
    assert_eq!((stats.hits, stats.misses), (1, 5));
    assert_eq!((stats.expirations, stats.evictions), (1, 0));
    assert_eq!((stats.size, stats.capacity), (0, ANALYSIS_CACHE_CAPACITY));
}

#[test]
fn a_changed_repo_loses_its_answers() {
    let key = |repo: &str, n: usize| {
        AnalysisCacheKey::with_discriminator(repo, "call_graph", n.to_string())
    };
    let mut cache = AnalysisCache::new(cache_shape(true, ANALYSIS_CACHE_CAPACITY, 60));
    for n in 0..=ANALYSIS_CACHE_CAPACITY {
        let repo = if n % 2 == 0 { "/r" } else { "/q" };
        cache.insert_with_hash(key(repo, n), n.to_string(), "h".to_string(), 1);
    }
    assert_eq!(cache.cache_stats().evictions, 1);
    assert_eq!(cache.get_if_hash_matches(&key("/r", 0), "h", 1), None);
    assert_eq!(cache.get_if_hash_matches(&key("/r", 2), "h", 1).as_deref(), Some("2"));
    cache.invalidate_cache_for_repo("/r");
    assert_eq!(cache.get_if_hash_matches(&key("/r", 2), "h", 1), None);
    assert_eq!(cache.get_if_hash_matches(&key("/q", 1), "h", 1).as_deref(), Some("1"));
    assert_eq!(cache.cache_stats().size, 500);
    cache.clear();
    assert_eq!(cache.cache_stats().size, 0);

    let mut off = AnalysisCache::new(cache_shape(false, ANALYSIS_CACHE_CAPACITY, 60));
    off.insert_with_hash(key("/r", 1), "x".to_string(), "h".to_string(), 1);
    assert_eq!(off.get_if_hash_matches(&key("/r", 1), "h", 1), None);
    assert_eq!(off.cache_stats().capacity, 1);
}

#[test]
fn a_search_is_kept_with_the_files_it_shows() {
    let key = |repo: Option<&str>, query: &str, pattern: Option<&str>| {
        let options = SearchOptions {
            file_pattern: pattern.map(|p| p.to_string()),
            max_results: 10,
            exclude_tests: None,
        };
        AnalysisCacheKey::code_search_with_options(repo, "search_code", query, &options)
    };
    let put = |cache: &mut QueryCache, at: AnalysisCacheKey, file: &str| {
        cache.insert_with_files(at, format!("in {file}"), vec![file.to_string()], 1);
    };
    let mut cache = QueryCache::new(cache_shape(true, QUERY_CACHE_CAPACITY, 60));
    put(&mut cache, key(Some("/r"), "f", None), "a.c");
    put(&mut cache, key(Some("/r"), "f", Some("")), "b.c");
    put(&mut cache, key(Some("/q"), "f", None), "c.c");
    put(&mut cache, key(None, "f", None), "d.c");
    let served = |cache: &mut QueryCache, at: AnalysisCacheKey| cache.get(&at, 2);
    assert_eq!(
        served(&mut cache, key(Some("/r"), "f", None)).as_deref(),
        Some("in a.c")
    );
    assert_eq!(
        served(&mut cache, key(Some("/r"), "f", Some(""))).as_deref(),
        Some("in b.c")
    );
    cache.invalidate_for_file("b.c");
    assert_eq!(served(&mut cache, key(Some("/r"), "f", Some(""))), None);
    assert!(served(&mut cache, key(Some("/r"), "f", None)).is_some());
    // A search over all repositories goes with any of them.
    cache.invalidate_for_repo("/r");
    assert_eq!(served(&mut cache, key(Some("/r"), "f", None)), None);
    assert_eq!(served(&mut cache, key(None, "f", None)), None);
    assert!(served(&mut cache, key(Some("/q"), "f", None)).is_some());
    let stats = cache.query_cache_stats();
    assert_eq!((stats.hits, stats.misses, stats.size), (4, 3, 1));
    assert_eq!(stats.capacity, 2000);
    cache.clear();
    assert_eq!(served(&mut cache, key(Some("/q"), "f", None)), None);
}

#[test]
fn direct_callers_are_listed() {
    let out = render_direct(
        EdgeTool::Callers,
        "g",
        "",
        &[
            edge("f", "a.c", 5, SourceSet::tree_sitter()),
            edge("t", "tests/t.c", 7, SourceSet::tree_sitter()),
        ],
        &["tests/t.c".to_string()],
        ListWindow::new(0, 50),
        SourceSet::tree_sitter(),
        SourceSet::tree_sitter(),
    );
    assert!(out.contains("`f`"), "{out}");
    assert!(out.contains("a.c"), "{out}");
    assert!(!out.contains("tests/t.c"), "{out}");
}

#[test]
fn distant_callers_carry_their_depth() {
    let out = render_transitive(
        EdgeTool::Callees,
        "f",
        "",
        &[
            DistantFunction {
                key: "a.c::g".to_string(),
                depth: 1,
            },
            DistantFunction {
                key: "b.c::h".to_string(),
                depth: 2,
            },
        ],
        3,
        &[],
        ListWindow::new(0, 1),
    );
    assert!(out.contains("a.c::g"), "{out}");
    assert!(!out.contains("b.c::h"), "{out}");
    assert!(out.contains("Showing 1 of 2"), "{out}");
}

#[test]
fn a_call_path_is_shown_or_missed() {
    let path = vec!["a".to_string(), "b".to_string(), "c".to_string()];
    let found = render_call_path("a", "c", Some(&path));
    assert!(found.contains("`b`"), "{found}");
    let missed = render_call_path("a", "z", None);
    assert!(missed.contains("z"), "{missed}");
    assert_ne!(found, missed);
}

#[test]
fn complexity_needs_a_known_function() {
    let metrics = FunctionMetrics {
        loc: 10,
        cyclomatic: 4,
        max_depth: 2,
        params: 1,
        returns: 3,
        cognitive: 7,
    };
    let out = render_complexity("f", Some(metrics));
    assert!(out.contains("10") && out.contains("7"), "{out}");
    assert!(render_complexity("f", None).contains("not found"));
}

#[test]
fn hotspots_leave_out_tests() {
    let spot = |key: &str, incoming: usize| Hotspot {
        key: key.to_string(),
        incoming,
        outgoing: 1,
    };
    let out = render_hotspots(
        "/r",
        5,
        &[spot("a.c::f", 9), spot("tests/t.c::g", 8)],
        &["tests/t.c".to_string()],
    );
    assert!(out.contains("a.c::f"), "{out}");
    assert!(!out.contains("tests/t.c::g"), "{out}");
}
