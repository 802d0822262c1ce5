use narsil_mcp::graphs::{
    choose_function, definition_node, draw_block, draw_edge, find_function, get_excerpt_for_viz,
    get_import_graph_for_viz, symbol_references, target_symbol, BlockEnd, FlowBlock, FlowKind,
    GraphFile,
};
use narsil_mcp::lookup::{
    compile_commands_filter_note, find_symbols, kind_filter, order_by_relevance, rank_of_name,
    select_symbols, SymbolQuery,
};
use narsil_mcp::position::{
    render_go_to_definition, render_hover, render_reaching_definitions, render_type_info,
    DefUseChain, DefinitionAnswer, DefinitionPlace, FlowUse, ServerAnswer,
};
use narsil_mcp::search::CachedFile;
use narsil_mcp::show::{
    find_definition, missing_symbol_message, near_names, render_definition,
    render_gtags_definition,
};
use narsil_mcp::status::{
    list_repos_scoped, process_rss_bytes, render_directory, render_incremental_status,
    render_index_status, render_metrics, render_structure, short_hash, sort_entries, CacheFigures,
    DirEntry, IndexFacts, LanguageCount, PersistedIndexState, RepoStatus, RepoSummary, TreeBudget,
    TreeStep,
};
use narsil_mcp::symbols::{SourceSet, Symbol, SymbolKind};
use narsil_mcp::text::{
    join, last_dot_part, lines, parse_usize, strip_prefix, to_ascii_lower, trim, u64_text, words,
};

fn strings(list: &[&str]) -> Vec<String> {
    list.iter().map(|s| s.to_string()).collect()
}

fn symbol(name: &str, file: &str, start_line: usize, end_line: usize) -> Symbol {
    Symbol {
        name: name.to_string(),
        kind: SymbolKind::Function,
        file_path: file.to_string(),
        start_line,
        end_line,
        signature: Some(format!("int {name}(void)")),
        qualified_name: None,
        doc_comment: None,
        confirmed_by: SourceSet::tree_sitter(),
        line_conflicts: Vec::new(),
    }
}

fn query(pattern: Option<&str>, limit: usize) -> SymbolQuery {
    SymbolQuery {
        symbol_type: None,
        pattern: pattern.map(|s| s.to_string()),
        file_pattern: None,
        limit,
    }
}

#[test]
fn a_definition_is_shown_with_its_lines() {
    let symbols = vec![symbol("f", "a.c", 2, 3), symbol("g", "a.c", 5, 5)];
    let found = find_definition(&symbols, "f").unwrap();
    let content = "/* head */\nint f(void)\n{ }\nint x;\n";
    let out = render_definition(
        &found,
        content,
        1,
        SourceSet::tree_sitter(),
        SourceSet::tree_sitter(),
        Some("hover text"),
    );
    assert!(out.contains("int f(void)"), "{out}");
    assert!(out.contains("hover text"), "{out}");
    assert!(find_definition(&symbols, "missing").is_none());
}

#[test]
fn a_missing_symbol_names_its_neighbours() {
    let symbols = vec![symbol("mount_opt", "a.c", 2, 3)];
    let hints = near_names(&symbols, "mount");
    assert_eq!(hints, strings(&["mount_opt"]));
    let msg = missing_symbol_message("mount", "/r", &hints);
    assert!(msg.contains("mount_opt"), "{msg}");
    let tagged = render_gtags_definition("M", "a.h", 1, 0, "#define M 1\n");
    assert!(tagged.contains("#define M 1"), "{tagged}");
}

#[test]
fn symbols_are_selected_ranked_and_counted() {
    let symbols = vec![
        symbol("remount", "a.c", 1, 2),
        symbol("mount", "a.c", 5, 6),
        symbol("MOUNT_all", "b.c", 7, 8),
    ];
    let picked = select_symbols(&symbols, &query(Some("*mount*"), 10), &[]);
    assert_eq!(picked.len(), 3, "names are matched without regard to case");
    let ordered = order_by_relevance(picked, &Some("mount".to_string()));
    assert_eq!(ordered[0].name, "mount");
    assert!(rank_of_name("mount", "mount") < rank_of_name("remount", "mount"));
    assert_eq!(kind_filter("function"), Some(SymbolKind::Function));
    assert_eq!(kind_filter("nonsense"), None);
    let out = find_symbols(
        "/r",
        &symbols,
        &query(Some("*mount*"), 2),
        &[],
        &[],
        &[],
        SourceSet::tree_sitter(),
        SourceSet::tree_sitter(),
    );
    assert!(out.contains("Found 3 symbols"), "{out}");
    assert!(
        compile_commands_filter_note(&[], "/r", &None).is_empty(),
        "nothing was dropped"
    );
}

#[test]
fn a_position_is_answered_by_a_server_or_the_index() {
    let symbols = vec![symbol("f", "a.c", 2, 3)];
    let served = render_hover(
        "a.c",
        2,
        4,
        &ServerAnswer::Text("int f(void)".to_string()),
        &symbols,
    );
    assert!(served.contains("int f(void)"), "{served}");
    let local = render_hover("a.c", 2, 4, &ServerAnswer::NotEnabled, &symbols);
    assert!(local.contains("f"), "{local}");
    let failed = render_type_info("a.c", 2, 4, &ServerAnswer::Failed("down".to_string()));
    assert!(failed.contains("down"), "{failed}");
    let places = DefinitionAnswer::Places(vec![DefinitionPlace {
        path: "/r/b.c".to_string(),
        in_file: true,
        line: 6,
        character: 0,
    }]);
    let gone = render_go_to_definition("a.c", 2, 4, &places, "/r", &symbols, "x\nf();\n");
    assert!(gone.contains("b.c"), "{gone}");
    let chains = vec![DefUseChain {
        variable: "n".to_string(),
        line: 3,
        uses: vec![FlowUse {
            line: 5,
            kind: "read".to_string(),
        }],
    }];
    let flow = render_reaching_definitions("f", "a.c", &chains);
    assert!(flow.contains("n") && flow.contains('5'), "{flow}");
}

#[test]
fn graphs_are_drawn_from_the_index() {
    let content = "a\nb\nc\nd\n";
    assert!(get_excerpt_for_viz(content, 2, 1).contains('b'));
    let nodes = get_import_graph_for_viz(
        &[
            GraphFile {
                path: "a.py".to_string(),
                content: Some("from os import path\n".to_string()),
            },
            GraphFile {
                path: "b.py".to_string(),
                content: None,
            },
        ],
        10,
    );
    assert_eq!(nodes[0].file, "a.py");
    assert_eq!(nodes[0].imports.len(), 1);
    let symbols = vec![symbol("f", "a.c", 2, 3)];
    assert_eq!(target_symbol(&symbols, "f"), Some(0));
    assert_eq!(definition_node(&symbols[0]).line, 2);
    let files = vec![CachedFile {
        path: "/r/a.c".to_string(),
        content: "f();\n".to_string(),
        comment_lines: vec![false],
    }];
    assert_eq!(symbol_references(&files, "/r", "f", 5).len(), 1);
    let block = draw_block(
        &FlowBlock {
            id: 1,
            label: "entry".to_string(),
            is_entry: true,
            is_exit: false,
            end: BlockEnd::Branch,
            start_line: 1,
            end_line: 2,
        },
        &strings(&["if (x)", "y();"]),
    );
    assert_eq!(block.block_type, "entry");
    let edge = draw_edge(1, 2, FlowKind::LoopBack);
    assert_eq!(edge.is_back_edge, Some(true));
    assert_eq!(choose_function(&strings(&["f", "g"]), "g", "g"), Some(1));
    let err = find_function(&strings(&["f"]), "h", "a.c").unwrap_err();
    assert_eq!(err, "Function 'h' not found in a.c");
}

#[test]
fn repositories_are_listed() {
    let repos = vec![RepoSummary {
        key: "/r".to_string(),
        name: "r".to_string(),
        file_count: 3,
        total_lines: 40,
        languages: vec![LanguageCount {
            language: "C".to_string(),
            file_count: 3,
            line_count: 40,
        }],
    }];
    let out = list_repos_scoped(&repos, None, true);
    assert!(out.contains("/r") && out.contains("C"), "{out}");
    assert_eq!(short_hash("0123456789abcdef"), "01234567");
}

#[test]
fn the_index_status_names_what_is_on() {
    let facts = IndexFacts {
        initialized: false,
        indexed_repos: 3,
        total_repos: 5,
        progress: 60,
        total_documents: 7,
        total_terms: 8,
        avg_doc_length: "9.0".to_string(),
        git_enabled: true,
        call_graph_enabled: false,
        persist_enabled: false,
        watch_enabled: true,
        doc_types: vec![("Function".to_string(), 4)],
    };
    let repos = vec![RepoStatus {
        key: "/r".to_string(),
        name: "r".to_string(),
        file_count: 2,
        symbol_count: 6,
        git: true,
        manifest_base: None,
        head: Some("0123456789abcdef".to_string()),
        commits_behind: 0,
    }];
    let out = render_index_status(&facts, &repos, None, "");
    assert!(out.contains("3/5"), "{out}");
    assert!(out.contains("/r") || out.contains("r"), "{out}");
    let state = render_incremental_status("/r", Some(&[]), 4, PersistedIndexState::NoStore);
    assert!(state.contains('4'), "{state}");
    let metrics = render_metrics(
        "report\n".to_string(),
        &CacheFigures {
            enabled: true,
            ttl_seconds: 60,
            hits: 3,
            misses: 1,
            hit_rate: "75.0".to_string(),
            evictions: 0,
            expirations: 0,
            size: 2,
            capacity: 10,
        },
    );
    assert!(metrics.contains("75.0"), "{metrics}");
    assert_eq!(
        process_rss_bytes("Name:\tx\nVmRSS:\t  2048 kB\n"),
        Some(2048 * 1024)
    );
    assert_eq!(process_rss_bytes("Name:\tx\n"), None);
}

#[test]
fn a_walk_stays_within_its_budget() {
    let mut budget = TreeBudget {
        max_depth: 3,
        max_entries_per_dir: 2,
        max_total: 2,
        emitted: 0,
    };
    assert_eq!(budget.step(0, "src", true), TreeStep::Directory);
    assert_eq!(budget.step(1, "a.c", false), TreeStep::File);
    assert!(budget.exhausted());
    assert_eq!(budget.entries_shown(9), 2);
    let entries = sort_entries(vec![
        DirEntry {
            name: "z.c".to_string(),
            is_dir: false,
        },
        DirEntry {
            name: "lib".to_string(),
            is_dir: true,
        },
        DirEntry {
            name: "a.c".to_string(),
            is_dir: false,
        },
    ]);
    let names: Vec<&str> = entries.iter().map(|e| e.name.as_str()).collect();
    assert_eq!(names, vec!["lib", "a.c", "z.c"]);
    assert!(render_directory(1, "src").contains("src"));
    assert!(render_structure("/r", "tree", &budget).contains("tree"));
}

#[test]
fn text_is_taken_apart_by_characters() {
    assert_eq!(trim("\u{a0} a b \t\n"), "a b");
    assert_eq!(lines("a\r\nb\n\nc"), strings(&["a", "b", "", "c"]));
    assert_eq!(words(" a  b\tc "), strings(&["a", "b", "c"]));
    assert_eq!(join(&strings(&["a", "b"]), ", "), "a, b");
    assert_eq!(strip_prefix("abc", "ab"), Some("c".to_string()));
    assert_eq!(strip_prefix("abc", "x"), None);
    assert_eq!(parse_usize("42"), Some(42));
    assert_eq!(parse_usize("4x"), None);
    assert_eq!(parse_usize(""), None);
    assert_eq!(u64_text(0), "0");
    assert_eq!(u64_text(u64::MAX), "18446744073709551615");
    assert_eq!(to_ascii_lower("AbC\u{c9}"), "abc\u{c9}");
    assert_eq!(last_dot_part("a.b.c"), "c");
}
