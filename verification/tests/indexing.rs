use narsil_mcp::batch::{
    augment_file_symbols, content_sha256, count_language, index_parsed_files, plan_file,
    BackendReport, BatchContext, FilePlan, ParsedFile, PriorFile,
};
use narsil_mcp::callgraph::{CallEdge, KeyedEdge};
use narsil_mcp::engine::CodeIntelEngine;
use narsil_mcp::freshness::{
    compile_commands_candidate_paths, compile_commands_diff_base, compile_commands_hash,
    fingerprint_matches, head_hash, sources_unlisted_since_cdb, IndexFingerprint, PriorManifest,
};
use narsil_mcp::imports::{
    extract_imports, parse_commonjs_imported_symbols, parse_imports_from_content, ImportType,
};
use narsil_mcp::ignored::git_ignored;
use narsil_mcp::indexing::{
    count_c_sources, coverage_is_low, select_files, ManifestUse, SelectionRules,
};
use narsil_mcp::manifest::{
    compile_command_candidates, entry_include_dirs, load_compile_commands_filter,
    read_compile_commands, resolve_compile_command_file, resolve_include_target,
};
use narsil_mcp::order::{dedup_strings, sort_strings, text_less};
use narsil_mcp::pullin::{
    delta_scoped, next_chunk, plan_definition_build, pull_in_referenced_files, unresolved_callee_names, BaseFile,
    FileStamp, StampedFile,
};
use narsil_mcp::run::{QueuedAnswer, RunFacts};
use narsil_mcp::scope::compile_scope;
use narsil_mcp::store::{
    compile_commands_watch_dirs, compile_commands_watch_paths, gtags_database_stale,
    load_prior_call_edges, load_prior_file_symbols, read_resource, resource_path, save_index,
    saved_message, FileFacts, WrittenFile,
};
use narsil_mcp::symbols::{SourceSet, Symbol, SymbolKind};

fn strings(list: &[&str]) -> Vec<String> {
    list.iter().map(|s| s.to_string()).collect()
}

fn symbol(name: &str, file: &str, line: usize) -> Symbol {
    Symbol {
        name: name.to_string(),
        kind: SymbolKind::Function,
        file_path: file.to_string(),
        start_line: line,
        end_line: line + 2,
        signature: None,
        qualified_name: None,
        doc_comment: None,
        confirmed_by: SourceSet::tree_sitter(),
        line_conflicts: Vec::new(),
    }
}

/// The first candidate that stands for an existing file.
fn resolve(candidates: &[String], existing: &[&str]) -> Option<String> {
    let canonical: Vec<Option<String>> = candidates
        .iter()
        .map(|c| {
            let mut parts: Vec<&str> = Vec::new();
            for part in c.split('/') {
                match part {
                    "" | "." => {}
                    ".." => {
                        parts.pop();
                    }
                    other => parts.push(other),
                }
            }
            let path = format!("/{}", parts.join("/"));
            if existing.contains(&path.as_str()) {
                Some(path)
            } else {
                None
            }
        })
        .collect();
    resolve_compile_command_file(&canonical)
}

#[test]
fn resolve_relative_file_via_directory_field() {
    let candidates = compile_command_candidates("../src/foo.c", Some("/tmp/r/build"), None);
    let resolved = resolve(&candidates, &["/tmp/r/src/foo.c"])
        .expect("relative file with valid directory must resolve");
    assert_eq!(resolved, "/tmp/r/src/foo.c");
}

#[test]
fn resolve_absolute_file_is_used_as_is() {
    let candidates =
        compile_command_candidates("/tmp/r/src/foo.c", Some("/nonexistent/build"), None);
    let resolved = resolve(&candidates, &["/tmp/r/src/foo.c"])
        .expect("absolute file path must resolve regardless of directory");
    assert_eq!(resolved, "/tmp/r/src/foo.c");
}

#[test]
fn resolve_falls_back_to_json_parent_when_directory_is_stale() {
    let candidates = compile_command_candidates(
        "../src/foo.c",
        Some("/this/path/does/not/exist/build"),
        Some("/tmp/r/build"),
    );
    let resolved = resolve(&candidates, &["/tmp/r/src/foo.c"])
        .expect("json-parent fallback must resolve when directory is stale");
    assert_eq!(resolved, "/tmp/r/src/foo.c");
}

#[test]
fn resolve_returns_none_when_no_strategy_succeeds() {
    let candidates = compile_command_candidates(
        "no_such_file.c",
        Some("/nonexistent/build"),
        Some("/tmp/r/build"),
    );
    let resolved = resolve(&candidates, &[]);
    assert!(
        resolved.is_none(),
        "must return None when neither directory nor json-parent resolves"
    );
}

#[test]
fn load_filter_resolves_meson_style_relative_paths() {
    let json =
        r#"[{"directory": "/tmp/r/build", "command": "cc -c ../lib/foo.c", "file": "../lib/foo.c"}]"#;
    let entries = read_compile_commands(json).unwrap();
    assert_eq!(entries.len(), 1);
    let files: Vec<Option<String>> = entries
        .iter()
        .map(|e| {
            let candidates = compile_command_candidates(
                e.file.as_deref().unwrap(),
                e.directory.as_deref(),
                Some("/tmp/r/build"),
            );
            resolve(&candidates, &["/tmp/r/lib/foo.c"])
        })
        .collect();
    let (set, missing) = load_compile_commands_filter(&files);
    assert_eq!(set.len(), 1, "must load exactly one entry");
    assert_eq!(set[0], "/tmp/r/lib/foo.c");
    assert_eq!(missing, 0);
}

#[test]
fn a_manifest_that_is_no_list_is_not_read() {
    assert!(read_compile_commands("{}").is_none());
    assert!(read_compile_commands("not json").is_none());
    let entries = read_compile_commands(
        r#"[{"file": "a.c", "arguments": ["cc", "-I", "inc", "-Ilib", "a.c"]}]"#,
    )
    .unwrap();
    assert_eq!(entry_include_dirs(&entries[0]), strings(&["inc", "lib"]));
}

#[test]
fn a_stale_manifest_drops_nothing() {
    let walk = strings(&[
        "/r/a.c", "/r/b.c", "/r/c.c", "/r/d.c", "/r/e.c", "/r/x.h",
    ]);
    let rules = |compiled: &[&str]| SelectionRules {
        root: "/r".to_string(),
        index_filter: vec![],
        keep_entries: vec![],
        use_compile_commands: true,
        compiled: strings(compiled),
        unlisted: vec![],
        min_coverage_pct: 25,
    };
    let stale = select_files(&rules(&["/r/a.c"]), &walk);
    assert_eq!(stale.manifest, ManifestUse::Stale);
    assert_eq!(stale.files, walk);
    let applied = select_files(&rules(&["/r/a.c", "/r/b.c", "/r/c.c", "/r/d.c"]), &walk);
    assert_eq!(applied.manifest, ManifestUse::Applied);
    assert_eq!(applied.manifest_filtered, strings(&["/r/e.c"]));
    assert!(applied.files.contains(&"/r/x.h".to_string()), "headers stay");
    assert_eq!(count_c_sources(&walk), 5);
    assert!(coverage_is_low(1, 5, 25));
    assert!(!coverage_is_low(2, 5, 25));
}

#[test]
fn an_index_filter_leaves_other_files_out() {
    let mut rules = SelectionRules {
        root: "/r".to_string(),
        index_filter: compile_scope(&strings(&["src"])),
        keep_entries: vec![],
        use_compile_commands: false,
        compiled: vec![],
        unlisted: vec![],
        min_coverage_pct: 25,
    };
    let walk = strings(&["/r/src/a.rs", "/r/doc/b.rs"]);
    let kept = select_files(&rules, &walk);
    assert_eq!(kept.files, strings(&["/r/src/a.rs"]));
    assert!(kept.index_filtered);
    rules.index_filter = vec![];
    assert_eq!(select_files(&rules, &walk).files, walk);
}

#[test]
fn content_is_known_by_its_digest() {
    assert_eq!(
        content_sha256(""),
        "e3b0c44298fc1c149afbf4c8996fb92427ae41e4649b934ca495991b7852b855"
    );
    assert_eq!(
        content_sha256("abc"),
        "ba7816bf8f01cfea414140de5dae2223b00361a396177a9cb410ff61f20015ad"
    );
    let hashed = compile_commands_hash(true, &[Some(b"abc".to_vec())]).unwrap();
    assert_eq!(hashed.len(), 64);
    assert_eq!(compile_commands_hash(false, &[Some(b"abc".to_vec())]), None);
}

#[test]
fn unchanged_files_are_not_queued() {
    assert_eq!(
        plan_file(false, true, true, Some("h"), "h", true),
        FilePlan::Reuse
    );
    assert_eq!(
        plan_file(false, true, true, Some("h"), "other", true),
        FilePlan::Queue
    );
    assert_eq!(
        plan_file(false, false, false, None, "h", false),
        FilePlan::Keep
    );
}

#[test]
fn a_run_is_answered_from() {
    let repo = "/tmp/x/repo";
    let mut engine = CodeIntelEngine::new(&strings(&[repo]), 0);
    let context = BatchContext {
        root: repo.to_string(),
        symbols_cached: false,
        cxx_augment: false,
        prior: vec![],
        cached_files: vec![],
    };
    let files = vec![ParsedFile {
        path: "/tmp/x/repo/a.rs".to_string(),
        content: "fn f() {}\n".to_string(),
        language: "rust".to_string(),
        symbols: vec![symbol("f", "a.rs", 1)],
    }];
    let batch = engine.begin_index(&context, &files, vec![]);
    assert_eq!(batch.file_count, 1);
    assert_eq!(batch.total_lines, 1);
    engine.finish_index(
        repo,
        false,
        batch,
        &[],
        RunFacts {
            path: repo.to_string(),
            now: 77,
            head_hash: Some("abc".to_string()),
            cdb_hash: None,
            cdb_head_hash: None,
            logic_version: 1,
        },
    );
    assert_eq!(engine.indexed_keys(), strings(&[repo]));
    assert_eq!(engine.repos[0].symbols[0].name, "f");
    assert_eq!(engine.repos[0].metadata.last_indexed, 77);
}

#[test]
fn a_queued_file_takes_the_backends_answers() {
    let context = BatchContext {
        root: "/r".to_string(),
        symbols_cached: false,
        cxx_augment: true,
        prior: vec![PriorFile {
            relative_path: "old.c".to_string(),
            content_hash: content_sha256("int old;\n"),
            symbols: vec![symbol("prior", "old.c", 1)],
        }],
        cached_files: vec![],
    };
    let file = |path: &str, content: &str| ParsedFile {
        path: path.to_string(),
        content: content.to_string(),
        language: "c".to_string(),
        symbols: vec![symbol("f", path.trim_start_matches("/r/"), 1)],
    };
    let batch = index_parsed_files(
        &context,
        &[file("/r/new.c", "int f(void);\n"), file("/r/old.c", "int old;\n")],
    );
    assert_eq!(batch.queued.len(), 1);
    assert_eq!(batch.queued[0].relative_path, "new.c");
    assert!(batch.symbols.iter().any(|s| s.name == "prior"));
    let merged = augment_file_symbols(
        vec![symbol("f", "new.c", 1)],
        "new.c",
        &[BackendReport {
            source: SourceSet::clangd(),
            symbols: vec![symbol("f", "new.c", 2)],
        }],
        &[("MACRO".to_string(), 9)],
    );
    assert_eq!(merged.len(), 2);
    assert_eq!(merged[0].start_line, 2);
    let answer = QueuedAnswer {
        reports: vec![],
        tags: vec![],
    };
    assert!(answer.reports.is_empty());
}

#[test]
fn languages_are_counted_once_each() {
    let mut list = vec![];
    count_language(&mut list, "c", 10, 100);
    count_language(&mut list, "rust", 5, 50);
    count_language(&mut list, "c", 1, 1);
    assert_eq!(list.len(), 2);
    assert_eq!(list[0].1.file_count, 2);
    assert_eq!(list[0].1.line_count, 11);
    assert_eq!(list[0].1.byte_count, 101);
}

#[test]
fn saved_symbols_and_edges_come_back() {
    let edge = KeyedEdge {
        caller: "a.c::f".to_string(),
        edge: CallEdge {
            target: "g".to_string(),
            file_path: "a.c".to_string(),
            line: 2,
            column: 0,
            call_type: "Direct".to_string(),
            scope_hint: None,
            confirmed_by: SourceSet::tree_sitter(),
            line_conflicts: vec![],
        },
    };
    let facts = vec![FileFacts {
        path: "/r/a.c".to_string(),
        modified: 5,
        size: 9,
        content: Some(b"abc".to_vec()),
    }];
    let saved = save_index("/r", &[symbol("f", "a.c", 1)], &[edge], &facts);
    assert_eq!(saved.len(), 1);
    let back = load_prior_file_symbols(&saved);
    assert_eq!(back[0].symbols[0].name, "f");
    let edges = load_prior_call_edges(&saved);
    assert_eq!(edges.len(), 1);
    assert_eq!(edges[0].caller, "a.c::f");
    assert!(saved_message(1).contains('1'));
}

#[test]
fn manifests_are_watched() {
    let paths = compile_commands_watch_paths(true, None, &strings(&["/r"]));
    assert!(paths.iter().any(|p| p == "/r/compile_commands.json"));
    assert!(compile_commands_watch_paths(false, None, &strings(&["/r"])).is_empty());
    let dirs = compile_commands_watch_dirs(
        &strings(&["/r/compile_commands.json", "/build/compile_commands.json"]),
        &strings(&["/r"]),
        &strings(&["/r", "/build"]),
    );
    assert_eq!(dirs, strings(&["/build"]));
    assert_eq!(
        compile_commands_candidate_paths(Some("/x/cdb.json"), "/r")[0],
        "/x/cdb.json"
    );
}

#[test]
fn a_database_older_than_a_file_is_stale() {
    let file = |modified: Option<u64>| WrittenFile {
        path: "/r/a.c".to_string(),
        modified,
    };
    assert!(gtags_database_stale(Some(5), &[file(Some(6))]));
    assert!(!gtags_database_stale(Some(6), &[file(Some(5))]));
}

#[test]
fn a_resource_must_be_indexed() {
    assert_eq!(resource_path("file:///r/a.c"), "/r/a.c");
    assert!(read_resource("file:///r/a.c", "/r/a.c", &strings(&["/r"])).is_ok());
    assert!(read_resource("file:///etc/x", "/etc/x", &strings(&["/r"])).is_err());
}

#[test]
fn a_manifest_is_as_old_as_its_commit() {
    assert_eq!(
        compile_commands_diff_base(
            Some("h"),
            Some(PriorManifest {
                hash: Some("h".to_string()),
                base: Some("old".to_string())
            }),
            Some("head".to_string())
        ),
        Some("old".to_string())
    );
    assert_eq!(
        compile_commands_diff_base(
            Some("new"),
            Some(PriorManifest {
                hash: Some("h".to_string()),
                base: Some("old".to_string())
            }),
            Some("head".to_string())
        ),
        Some("head".to_string())
    );
    assert_eq!(
        sources_unlisted_since_cdb(&strings(&["a.c", "b.md", "c.cpp"])),
        strings(&["a.c", "c.cpp"])
    );
    assert_eq!(head_hash("abc\n"), Some("abc".to_string()));
    assert_eq!(head_hash("\n"), None);
    let seen = IndexFingerprint {
        head_hash: Some("a".to_string()),
        cdb_hash: None,
        logic_version: 3,
    };
    assert!(fingerprint_matches(
        Some(&seen),
        3,
        &Some("a".to_string()),
        &None
    ));
    assert!(!fingerprint_matches(
        Some(&seen),
        4,
        &Some("a".to_string()),
        &None
    ));
    assert!(!fingerprint_matches(None, 3, &Some("a".to_string()), &None));
}

#[test]
fn imports_are_read_by_language() {
    let es = parse_imports_from_content("import { a as b, c } from './x';\n", "a.ts");
    assert_eq!(es.len(), 1);
    assert_eq!(es[0].import_type, ImportType::EsModule);
    assert_eq!(es[0].import_path, "./x");
    assert_eq!(es[0].imported_symbols[0].alias, Some("b".to_string()));
    let c = parse_imports_from_content("#include \"a.h\"\nint x;\n", "a.c");
    assert_eq!(c.len(), 1);
    assert_eq!(c[0].import_type, ImportType::CppInclude);
    assert_eq!(c[0].line, 1);
    let lines = extract_imports("use std::fmt;\nfn f() {}\n");
    assert_eq!(lines, strings(&["use std::fmt;"]));
}

#[test]
fn a_plain_import_is_read() {
    let py = parse_imports_from_content("import os\n", "a.py");
    assert_eq!(py.len(), 1);
    assert_eq!(py[0].import_path, "os");
    assert_eq!(py[0].import_type, ImportType::Python);
    assert_eq!(py[0].line, 1);
    assert_eq!(py[0].source_file, "a.py");
    assert_eq!(py[0].imported_symbols.len(), 1);
    assert_eq!(py[0].imported_symbols[0].name, "os");
    assert_eq!(py[0].imported_symbols[0].alias, None);
    assert!(!py[0].imported_symbols[0].is_default);

    let go = parse_imports_from_content("package a\n\nimport \"fmt\"\nimport (\n", "a.go");
    assert_eq!(go.len(), 1);
    assert_eq!(go[0].import_path, "fmt");
    assert_eq!(go[0].import_type, ImportType::Go);
    assert_eq!(go[0].line, 3);
    assert!(go[0].imported_symbols.is_empty());

    let ts = parse_imports_from_content("import fs = require('fs');\n", "a.ts");
    assert_eq!(ts.len(), 1);
    assert_eq!(ts[0].import_type, ImportType::CommonJs);
    assert_eq!(ts[0].import_path, "fs");
}

#[test]
fn the_bindings_of_a_require_stand_before_it() {
    let names = |prefix: &str| {
        parse_commonjs_imported_symbols(prefix)
            .into_iter()
            .map(|s| s.name)
            .collect::<Vec<_>>()
    };
    assert_eq!(names("const { a, b } = "), strings(&["a", "b"]));
    assert_eq!(names("const fs = "), strings(&["fs"]));
    assert!(names("").is_empty());
}

#[test]
fn a_scope_applies_where_the_manifest_lists_a_file_of_it() {
    let rules = compile_scope(&strings(&["fs/fuse"]));
    let compiled = strings(&["/r/fs/fuse/dev.c", "/other/fs/fuse/dev.c"]);
    assert!(delta_scoped(&compiled, "/r", &rules));
    assert!(!delta_scoped(&strings(&["/r/mm/slab.c"]), "/r", &rules));
}

#[test]
fn a_file_is_pulled_in_by_the_place_it_names() {
    // Two ways to write a path name one file, and a file of the base stays out.
    let base = vec![BaseFile {
        path: "/r/a.c".to_string(),
        content: String::new(),
    }];
    let listed = strings(&["/r/a.c", "/r/b.c", "/r/c.c"]);
    let tags = strings(&["./a.c", "./b.c", "b.c"]);
    let stored = strings(&["b.c", "c.c", "gone.c"]);
    let pulled = pull_in_referenced_files(&base, "/r", &listed, &[], &tags, &stored);
    assert_eq!(pulled.files.len(), 2);
    assert_eq!(pulled.from_includes, 0);
    assert_eq!(pulled.from_gtags, 1);
    assert_eq!(pulled.from_store, 1);
}

#[test]
fn referenced_files_are_pulled_in_once() {
    let base = vec![BaseFile {
        path: "/r/src/a.c".to_string(),
        content: "#include \"a.h\"\n#include \"a.h\"\n".to_string(),
    }];
    let pulled = pull_in_referenced_files(
        &base,
        "/r",
        &strings(&["/r/src/a.c", "/r/src/a.h", "/r/src/z.c"]),
        &[],
        &strings(&["/r/src/z.c"]),
        &[],
    );
    assert_eq!(pulled.from_includes, 1);
    assert_eq!(pulled.from_gtags, 1);
    assert_eq!(pulled.files.len(), 2);
    assert_eq!(
        resolve_include_target("a.h", "/r/src", "/r", &[], &strings(&["/r/src/a.h"])),
        Some("/r/src/a.h".to_string())
    );
    assert_eq!(
        unresolved_callee_names(&strings(&["f", "g", "f"]), &strings(&["g"])),
        strings(&["f"])
    );
}

#[test]
fn a_refresh_leaves_current_files() {
    let stamp = |modified: u64| FileStamp { modified, size: 1 };
    let files = vec![
        StampedFile {
            path: "/r/a.c".to_string(),
            stamp: Some(stamp(1)),
        },
        StampedFile {
            path: "/r/b.c".to_string(),
            stamp: Some(stamp(9)),
        },
    ];
    let known = vec![
        ("a.c".to_string(), stamp(1)),
        ("b.c".to_string(), stamp(2)),
        ("gone.c".to_string(), stamp(2)),
    ];
    let plan = plan_definition_build(true, &files, &known, "/r");
    assert_eq!(plan.files, strings(&["/r/b.c"]));
    assert_eq!(plan.removed, strings(&["gone.c"]));
    assert!(!plan.up_to_date);
    let (end, _, _) = next_chunk(0, 600, false, 10_000);
    assert_eq!(end, 512);
}

#[test]
fn sorting_keeps_and_orders_the_items() {
    let sorted = sort_strings(&strings(&["b", "a", "b"]));
    assert_eq!(sorted, strings(&["a", "b", "b"]));
    assert_eq!(dedup_strings(&sorted), strings(&["a", "b"]));
    assert!(text_less("a", "b") && !text_less("b", "a") && text_less("a", "aa"));
}

#[test]
fn ignore_rules_leave_files_out() {
    let shared = Some("*.o\ntarget/\n# notes\n");
    assert!(git_ignored("/r", shared, None, "a.o"));
    assert!(git_ignored("/r", shared, None, "src/deep/b.o"));
    assert!(git_ignored("/r", shared, None, "target/out.rs"));
    assert!(!git_ignored("/r", shared, None, "src/a.c"));
    assert!(!git_ignored("/r", shared, None, "target.rs"));
    assert!(!git_ignored("/r", None, None, "a.o"));
}

#[test]
fn later_ignore_rules_go_before_earlier_ones() {
    assert!(!git_ignored("/r", Some("*.o\n!keep.o\n"), None, "keep.o"));
    assert!(git_ignored("/r", Some("!a.o\n"), Some("*.o\n"), "a.o"));
    assert!(!git_ignored("/r", Some("*.o\n"), Some("!a.o\n"), "a.o"));
}

#[test]
fn an_ignore_file_may_begin_with_a_mark() {
    assert!(git_ignored("/r", Some("\u{feff}*.o\n"), None, "a.o"));
    assert!(!git_ignored("/r", Some("x\n\u{feff}*.o\n"), None, "a.o"));
}
