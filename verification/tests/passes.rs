use narsil_mcp::backends::{CallGraphStep, GenerateStep};
use narsil_mcp::callgraph::{OutgoingCall, TagReference};
use narsil_mcp::callpass::{AskedFile, TagAnswer};
use narsil_mcp::definitions::{BuildAction, DefinitionBuild};
use narsil_mcp::delta::AddedFile;
use narsil_mcp::engine::{CodeIntelEngine, IndexedRepo, RepoArg, RepoMetadata};
use narsil_mcp::graphs::{BlockEnd, FlowBlock, FlowKind};
use narsil_mcp::indexing::SelectionRules;
use narsil_mcp::plan::{shown_to_servers, PlanFacts};
use narsil_mcp::pullin::{DefinitionPlan, IndexedSource};
use narsil_mcp::reports::{CfgError, FlowEdge, FlowGraph, FlowReports, SearchFigures};
use narsil_mcp::scope::compile_scope;
use narsil_mcp::search::CachedFile;
use narsil_mcp::settings::{BackendIntent, EngineOptions};
use narsil_mcp::status::{CacheFigures, TreeBudget};
use narsil_mcp::symbols::{SourceSet, Symbol, SymbolKind};
use narsil_mcp::tools::DiskFile;
use narsil_mcp::tree::{build_tree, TreeNode};

const REPO: &str = "/tmp/x/repo";

fn strings(list: &[&str]) -> Vec<String> {
    list.iter().map(|s| s.to_string()).collect()
}

fn at(path: &str) -> RepoArg {
    RepoArg {
        input: path.to_string(),
        resolved: Some(path.to_string()),
        git_dirs: vec![],
        missing: vec![],
        now: 1000,
    }
}

fn symbol(name: &str, file: &str, start_line: usize, end_line: usize) -> Symbol {
    Symbol {
        name: name.to_string(),
        kind: SymbolKind::Function,
        file_path: file.to_string(),
        start_line,
        end_line,
        signature: None,
        qualified_name: None,
        doc_comment: None,
        confirmed_by: SourceSet::tree_sitter(),
        line_conflicts: Vec::new(),
    }
}

fn engine_with(symbols: Vec<Symbol>) -> CodeIntelEngine {
    let mut engine = CodeIntelEngine::with_options(
        &strings(&[REPO]),
        &strings(&[REPO]),
        &[],
        EngineOptions {
            call_graph_enabled: true,
            lsp_intent: BackendIntent::Auto,
            ..Default::default()
        },
        0,
    );
    engine.publish(IndexedRepo {
        key: REPO.to_string(),
        metadata: RepoMetadata {
            name: "repo".to_string(),
            path: REPO.to_string(),
            file_count: 2,
            total_lines: 20,
            languages: vec![],
            last_indexed: 5,
            head_hash: Some("aaaa1111bbbb".to_string()),
            cdb_hash: None,
            cdb_head_hash: Some("0000111122".to_string()),
            logic_version: 3,
        },
        symbols,
    });
    engine
}

fn on_disk(path: &str, content: &str) -> DiskFile {
    DiskFile {
        path: path.to_string(),
        canonical: Some(path.to_string()),
        content: Some(content.to_string()),
    }
}

fn facts(head: &str) -> PlanFacts {
    PlanFacts {
        logic_version: 3,
        head_hash: Some(head.to_string()),
        cdb_hash: None,
        lsp_manager_enabled: true,
        gtags_manager: false,
        gtags_may_generate: true,
        gtags_intended: true,
        database_exists: false,
        can_generate: true,
    }
}

fn no_rules() -> SelectionRules {
    SelectionRules {
        root: REPO.to_string(),
        index_filter: vec![],
        keep_entries: vec![],
        use_compile_commands: false,
        compiled: vec![],
        unlisted: vec![],
        min_coverage_pct: 25,
    }
}

#[test]
fn a_current_index_is_kept_and_an_old_one_rebuilt() {
    let engine = engine_with(vec![]);
    let walk = strings(&["/tmp/x/repo/a.c", "/tmp/x/repo/b.rs"]);
    let kept = engine.plan_index(REPO, &facts("aaaa1111bbbb"), &no_rules(), &walk);
    assert!(kept.cache.symbols_cached);
    assert!(!kept.cxx_augment);
    let rebuilt = engine.plan_index(REPO, &facts("moved"), &no_rules(), &walk);
    assert!(!rebuilt.cache.symbols_cached && rebuilt.cache.load_prior);
    assert!(rebuilt.cxx_augment);
    assert!(rebuilt.cxx);
    assert_eq!(rebuilt.generate, GenerateStep::Generate);
    let fresh = engine.plan_index("/tmp/x/new", &facts("moved"), &no_rules(), &walk);
    assert!(!fresh.cache.symbols_cached && !fresh.cache.load_prior);
}

#[test]
fn a_filtered_index_gets_a_definition_map() {
    let mut engine = engine_with(vec![]);
    engine.call_graphs.push(REPO.to_string());
    let mut rules = no_rules();
    rules.index_filter = compile_scope(&strings(&["src"]));
    let walk = strings(&["/tmp/x/repo/z.c", "/tmp/x/repo/src/a.c"]);
    let plan = engine.plan_index(REPO, &facts("moved"), &rules, &walk);
    let after = engine.settle_index(REPO, &plan, 0, true, false);
    assert_eq!(after.call_graph, CallGraphStep::Augment);
    assert_eq!(
        after.definitions.unwrap(),
        strings(&["/tmp/x/repo/src/a.c", "/tmp/x/repo/z.c"])
    );
}

#[test]
fn a_scope_in_force_shows_its_sources_only() {
    let rules = compile_scope(&strings(&["src"]));
    let files = vec![
        ("src/a.c".to_string(), "/r/src/a.c".to_string()),
        ("lib/b.c".to_string(), "/r/lib/b.c".to_string()),
    ];
    assert_eq!(shown_to_servers(false, &rules, &files), vec![true, false]);
    let elsewhere = compile_scope(&strings(&["doc"]));
    assert_eq!(shown_to_servers(false, &elsewhere, &files), vec![true, true]);
    assert_eq!(shown_to_servers(true, &rules, &files), vec![false, false]);
}

#[test]
fn answers_become_edge_batches() {
    let engine = engine_with(vec![symbol("f", "a.c", 1, 9), symbol("g", "b.c", 1, 3)]);
    let mut groups = engine.call_hierarchy_files(REPO);
    assert_eq!(groups.len(), 2);
    let group = groups.remove(0);
    assert_eq!(group.file_path, "a.c");
    let asked = vec![AskedFile {
        group,
        backend: SourceSet::clangd(),
        answers: vec![vec![OutgoingCall {
            callee: "g".to_string(),
            line: 4,
        }]],
    }];
    let tags = vec![
        TagAnswer {
            callee: "g".to_string(),
            references: vec![TagReference {
                file_path: "a.c".to_string(),
                line: 4,
                text: "\tg();".to_string(),
                comment_only: false,
            }],
        },
        TagAnswer {
            callee: "f".to_string(),
            references: vec![],
        },
    ];
    let batches = engine.augment_call_graph_cxx(REPO, &asked, &tags);
    assert_eq!(batches.len(), 2, "a batch without edges is left out");
    assert_eq!(batches[0].source, SourceSet::clangd());
    assert_eq!(batches[1].source, SourceSet::gtags());
    assert_eq!(batches[1].edges[0].caller, "a.c::f");
    assert!(engine
        .augment_call_graph_cxx("/tmp/x/other", &asked, &tags)
        .is_empty());
}

#[test]
fn a_manifest_adds_and_drops_sources() {
    let mut engine = engine_with(vec![symbol("f", "a.c", 1, 9), symbol("g", "b.c", 1, 3)]);
    assert_eq!(engine.source_files(REPO), strings(&["a.c", "b.c"]));
    let compiled = strings(&["/tmp/x/repo/a.c", "/tmp/x/repo/c.c", "/elsewhere/d.c"]);
    let indexed = vec![
        IndexedSource {
            relative_path: "a.c".to_string(),
            canonical: Some("/tmp/x/repo/a.c".to_string()),
        },
        IndexedSource {
            relative_path: "b.c".to_string(),
            canonical: Some("/tmp/x/repo/b.c".to_string()),
        },
    ];
    let (added, dropped) =
        engine.compile_commands_delta(REPO, REPO, &compiled, &indexed, false, &[]);
    assert_eq!(added, strings(&["/tmp/x/repo/c.c"]));
    assert_eq!(dropped, strings(&["b.c"]));
    let changed = engine.reindex_compile_commands_delta(
        REPO,
        REPO,
        &[AddedFile {
            relative_path: "c.c".to_string(),
            symbols: vec![symbol("h", "", 1, 2)],
            reports: vec![],
            tags: vec![],
            file: CachedFile {
                path: "/tmp/x/repo/c.c".to_string(),
                content: "int h;".to_string(),
                comment_lines: vec![false],
            },
        }],
        &dropped,
    );
    assert_eq!(changed, 2);
    assert_eq!(engine.source_files(REPO), strings(&["a.c", "c.c"]));
    assert!(engine.has_file("/tmp/x/repo/c.c"));
}

#[test]
fn a_definition_build_goes_step_by_step() {
    let plan = DefinitionPlan {
        files: (0..600).map(|i| format!("/r/{i:04}.c")).collect(),
        removed: strings(&["gone.c"]),
        up_to_date: false,
    };
    let mut build = DefinitionBuild::start(true, plan);
    assert!(matches!(build.action(), BuildAction::Open { fresh: false }));
    build.advance(true);
    assert!(matches!(build.action(), BuildAction::Retract(p) if p == "gone.c"));
    build.advance(true);
    match build.action() {
        BuildAction::Parse { files, replace } => {
            assert_eq!(files.len(), 512);
            assert!(replace);
        }
        other => panic!("{other:?}"),
    }
    build.advance(true);
    assert!(matches!(build.action(), BuildAction::Parse { files, .. } if files.len() == 88));
    build.advance(true);
    assert!(matches!(build.action(), BuildAction::Commit));
    build.advance(true);
    assert!(matches!(build.action(), BuildAction::Stop { built: true }));
}

#[test]
fn a_definition_build_ends_with_the_first_failure() {
    let plan = DefinitionPlan {
        files: strings(&["/r/a.c"]),
        removed: vec![],
        up_to_date: false,
    };
    let mut build = DefinitionBuild::start(false, plan);
    assert!(matches!(build.action(), BuildAction::Open { fresh: true }));
    build.advance(false);
    assert!(matches!(build.action(), BuildAction::Stop { built: false }));
    let current = DefinitionBuild::start(
        true,
        DefinitionPlan {
            files: vec![],
            removed: vec![],
            up_to_date: true,
        },
    );
    assert!(matches!(current.action(), BuildAction::Stop { built: false }));
}

fn file(name: &str) -> TreeNode {
    TreeNode::File {
        name: name.to_string(),
        size: "1 B".to_string(),
    }
}

#[test]
fn a_tree_is_drawn_within_its_budget() {
    let root = TreeNode::Directory {
        name: ".dot".to_string(),
        entries: vec![
            TreeNode::Directory {
                name: "target".to_string(),
                entries: vec![file("x.o")],
            },
            TreeNode::Directory {
                name: "src".to_string(),
                entries: vec![file("a.c"), file("b.c"), file("c.c")],
            },
        ],
    };
    let mut budget = TreeBudget {
        max_depth: 5,
        max_entries_per_dir: 2,
        max_total: 0,
        emitted: 0,
    };
    let mut out = String::new();
    build_tree(&root, 0, &mut budget, &mut out).unwrap();
    assert_eq!(budget.emitted, 4);
    assert!(out.contains("src/"), "{out}");
    assert!(!out.contains("target"), "{out}");
    assert!(!out.contains("c.c ("), "{out}");
    assert!(out.contains("(+1 more entries)"), "{out}");

    let mut engine = engine_with(vec![]);
    let limited = TreeBudget {
        max_depth: 5,
        max_entries_per_dir: 0,
        max_total: 2,
        emitted: 0,
    };
    let shown = engine
        .get_project_structure(&at(REPO), &root, limited)
        .unwrap();
    assert!(shown.contains("Tree truncated at 2 entries"), "{shown}");
    let locked = TreeNode::Unreadable {
        name: "x".to_string(),
        error: "denied".to_string(),
    };
    assert_eq!(
        engine
            .get_project_structure(&at(REPO), &locked, limited)
            .unwrap_err(),
        "denied"
    );
}

#[test]
fn the_status_lists_each_repository() {
    let mut engine = engine_with(vec![symbol("f", "a.c", 1, 2)]);
    engine.git_repos.push(REPO.to_string());
    let figures = || SearchFigures {
        total_documents: 4,
        total_terms: 9,
        avg_doc_length: "2.5".to_string(),
        doc_types: vec![("File".to_string(), 4)],
    };
    let out = engine.get_index_status(
        None,
        figures(),
        100,
        &[(REPO.to_string(), 6)],
        "## Memory\n",
    );
    assert!(out.contains("- Repo: `/tmp/x/repo`"), "{out}");
    assert!(out.contains("- Symbols: 1"), "{out}");
    assert!(out.contains("generated at 00001111"), "{out}");
    assert!(out.contains("(6 commit(s) behind)"), "{out}");
    assert!(out.contains("## Memory"), "{out}");
    let unknown = engine.get_index_status(Some(&at("/no/such")), figures(), 100, &[], "");
    assert!(unknown.contains("/tmp/x/repo"), "an unknown name limits nothing");
}

#[test]
fn metrics_tell_what_the_cache_is_set_to() {
    let engine = engine_with(vec![]);
    let out = engine.get_metrics(
        "# Metrics\n".to_string(),
        CacheFigures {
            enabled: false,
            ttl_seconds: 1,
            hits: 7,
            misses: 3,
            hit_rate: "70.00".to_string(),
            evictions: 0,
            expirations: 0,
            size: 1,
            capacity: 500,
        },
    );
    assert!(out.contains("**Status**: enabled"), "{out}");
    assert!(out.contains("| Hit Rate | 70.00% |"), "{out}");
}

#[test]
fn flows_are_shown_by_function_name() {
    let engine = engine_with(vec![symbol("f", "a.c", 1, 2)]);
    let disk = [on_disk("/tmp/x/repo/a.c", "int f;\n")];
    let analysis = || {
        Ok(FlowReports {
            names: strings(&["f", "g"]),
            reports: strings(&["flow of f", "flow of g"]),
        })
    };
    assert_eq!(
        engine
            .get_control_flow(REPO, "a.c", "g", analysis(), &disk)
            .unwrap(),
        "flow of g"
    );
    assert_eq!(
        engine
            .get_data_flow(REPO, "a.c", "h", analysis(), &disk)
            .unwrap_err(),
        "Function 'h' not found in a.c"
    );
    assert_eq!(
        engine
            .get_control_flow("/no", "a.c", "g", analysis(), &disk)
            .unwrap_err(),
        "Repository '/no' not found"
    );
    assert!(engine
        .get_reaching_definitions(REPO, "a.c", "f", Ok(strings(&["f"])), &[], &disk)
        .unwrap()
        .contains("f"));
}

#[test]
fn a_control_flow_graph_is_drawn() {
    let mut engine = engine_with(vec![symbol("f", "a.c", 1, 2)]);
    assert_eq!(engine.cfg_file(&at(REPO), "f").unwrap(), "a.c");
    assert_eq!(
        engine.cfg_file(&at(REPO), "nope").unwrap_err(),
        "Function not found: nope"
    );
    let graph = |name: &str| FlowGraph {
        name: name.to_string(),
        blocks: vec![FlowBlock {
            id: 0,
            label: "entry".to_string(),
            is_entry: true,
            is_exit: false,
            end: BlockEnd::Return,
            start_line: 1,
            end_line: 1,
        }],
        edges: vec![FlowEdge {
            from: 0,
            to: 1,
            kind: FlowKind::TrueBranch,
        }],
    };
    let disk = [on_disk("/tmp/x/repo/a.c", "int f(void)\n")];
    let drawn = engine
        .get_cfg_for_viz(&at(REPO), "f", Ok(vec![graph("f")]), "", &disk)
        .unwrap();
    assert_eq!(drawn.file_path, "a.c");
    assert_eq!(drawn.blocks[0].id, "block_0");
    assert_eq!(drawn.blocks[0].code, "int f(void)");
    assert_eq!(drawn.edges[0].condition.as_deref(), Some("true"));
    match engine.get_cfg_for_viz(&at(REPO), "f", Ok(vec![graph("other")]), "", &disk) {
        Err(CfgError::NotAnalyzed { available, .. }) => {
            assert_eq!(available, strings(&["other"]))
        }
        other => panic!("{other:?}"),
    }
}
