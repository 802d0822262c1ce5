use narsil_mcp::budget::{by_file_summary, cap, truncate_on_char_boundary, ListWindow};
use narsil_mcp::callgraph::Reference;
use narsil_mcp::ranked::{
    carries_typed_term, render_hybrid, render_semantic, select_documents, terms_as_typed,
    HybridResult, RankedDocument,
};
use narsil_mcp::references::{
    find_references, format_references, locate_name_anchor, merge_references, query_anchor,
    references_at, text_search_references, without_tests, ServerLocation,
};
use narsil_mcp::search::{
    best_anchor, file_in_scope, find_hits, line_relevance, rank_hits, render_results, CachedFile,
    ScoredHit,
};
use narsil_mcp::symbols::{SourceSet, Symbol, SymbolKind};
use narsil_mcp::usages::{
    cross_validate, find_mentions, find_symbol_usages, get_export_map, keep_telling,
    usage_backends, BackendAnswer,
};

fn reference(file: &str, line: usize, content: &str) -> Reference {
    Reference {
        file_path: file.to_string(),
        line,
        content: content.to_string(),
    }
}

fn holds(list: &[Reference], file: &str, line: usize, content: &str) -> bool {
    list.iter()
        .any(|r| r.file_path == file && r.line == line && r.content == content)
}

fn cached(path: &str, content: &str) -> CachedFile {
    CachedFile {
        path: path.to_string(),
        content: content.to_string(),
        comment_lines: content.lines().map(|_| false).collect(),
    }
}

fn function(name: &str, file: &str, start_line: usize, end_line: usize) -> Symbol {
    Symbol {
        name: name.to_string(),
        kind: SymbolKind::Function,
        file_path: file.to_string(),
        start_line,
        end_line,
        signature: Some(format!("fn {name}()")),
        qualified_name: None,
        doc_comment: None,
        confirmed_by: SourceSet::tree_sitter(),
        line_conflicts: Vec::new(),
    }
}

fn document(file: &str, start_line: usize) -> RankedDocument {
    RankedDocument {
        repo: "/r".to_string(),
        file_path: file.to_string(),
        start_line,
        end_line: start_line + 1,
        whole_file: false,
        score_text: "0.50".to_string(),
        snippet: "int validate_tag(void);".to_string(),
        regenerated: None,
    }
}

fn hybrid(file: &str, content: &str, matched: &[&str]) -> HybridResult {
    HybridResult {
        file_path: file.to_string(),
        start_line: 1,
        end_line: 4,
        content: content.to_string(),
        score_text: "0.0100".to_string(),
        whole_file: false,
        bm25_rank: Some(1),
        tfidf_rank: None,
        matched_terms: matched.iter().map(|s| s.to_string()).collect(),
        regenerated: None,
        file_content: Some(content.to_string()),
    }
}

#[test]
fn merge_references_unions_both_sources() {
    let text = vec![
        reference("chunk_remove.c", 397, "def"),
        reference("nisd_write.c", 581, "call"),
        reference("chunk_remove.h", 53, "decl"),
    ];
    let lsp = vec![reference("chunk_remove.h", 53, "lsp-decl")];

    let merged = merge_references(&text, &lsp);

    assert_eq!(
        merged.len(),
        3,
        "duplicate (path,line) must collapse: {merged:?}"
    );
    assert!(holds(&merged, "chunk_remove.c", 397, "def"));
    assert!(holds(&merged, "nisd_write.c", 581, "call"));
    // The content of the text search wins on the shared location.
    assert!(holds(&merged, "chunk_remove.h", 53, "decl"));
}

#[test]
fn merge_references_keeps_lsp_only_locations() {
    let text = vec![reference("a.c", 1, "a")];
    let lsp = vec![reference("b.c", 2, "b")];
    let merged = merge_references(&text, &lsp);
    assert_eq!(merged.len(), 2);
    assert!(holds(&merged, "b.c", 2, "b"));
}

#[test]
fn anchor_lands_on_name_not_return_type() {
    let src = "int foo(void) { return 0; }\n";
    let pos = locate_name_anchor(src, "foo", 1, 1);
    assert_eq!(pos, Some((0, 4)));
}

#[test]
fn anchor_follows_name_onto_a_later_line() {
    let src = "static int\nfoo(void)\n{\n}\n";
    let pos = locate_name_anchor(src, "foo", 1, 4);
    assert_eq!(pos, Some((1, 0)));
}

#[test]
fn anchor_requires_whole_word_match() {
    let src = "int foobar(void);\nint foo(void) { return 0; }\n";
    let pos = locate_name_anchor(src, "foo", 1, 2);
    assert_eq!(pos, Some((1, 4)));
}

#[test]
fn anchor_returns_none_when_name_absent() {
    let src = "int bar(void) { return 0; }\n";
    assert_eq!(locate_name_anchor(src, "foo", 1, 1), None);
}

#[test]
fn a_question_without_content_asks_at_the_start_of_the_line() {
    let s = function("foo", "a.c", 7, 9);
    assert_eq!(query_anchor(None, &s), (6, 0));
}

#[test]
fn hybrid_search_keeps_only_results_carrying_a_typed_term() {
    let target = "void widget_stop_engine(struct widget *w)\n{\n\tw->running = 0;\n}\n";
    let noise = "\tstop(engine);\n\twidget(engine);\n\tstop(widget);\n".repeat(40);
    let out = render_hybrid(
        "widget_stop_engine",
        "hybrid",
        Some("/r"),
        &[
            hybrid("noise.c", &noise, &["widget", "stop", "engine"]),
            hybrid("target.c", target, &["widget", "stop", "engine"]),
        ],
        &[],
        5,
    );

    assert!(out.contains("target.c"), "the file with the name: {out}");
    assert!(
        !out.contains("noise.c"),
        "a file with only the name's parts must not place: {out}"
    );
}

#[test]
fn hybrid_search_falls_back_to_partial_matches() {
    let noise = "\tstop(engine);\n\twidget(engine);\n\tstop(widget);\n".repeat(40);
    let out = render_hybrid(
        "widget_stop_engine",
        "hybrid",
        Some("/r"),
        &[hybrid("noise.c", &noise, &["widget", "stop", "engine"])],
        &[],
        5,
    );

    assert!(out.contains("noise.c"), "partial matches are kept: {out}");
    assert!(
        out.contains("match parts of them only"),
        "the answer has to say they are partial: {out}"
    );
}

#[test]
fn semantic_search_returns_a_location_once() {
    let generations: Vec<RankedDocument> = (0..6).map(|_| document("sample.c", 1)).collect();
    let out = render_semantic("validate tag", Some("/r"), &generations, &[], 6);
    assert_eq!(
        out.matches("sample.c (score").count(),
        1,
        "one location, one result: {out}"
    );
    assert_eq!(
        select_documents(&generations, Some("/r"), &[], 6),
        vec![0usize]
    );
}

#[test]
fn search_code_returns_a_region_once() {
    let content = "static void usage(void)\n\
                   {\n\
                   \tprintf(\" --verbose\\t print more\\n\"\n\
                   \t       \" --verbose=all  print everything\\n\");\n\
                   \texit(1);\n\
                   }\n";
    let files = vec![cached("/r/optparse.c", content)];
    let found = find_hits(&["/r".to_string()], &files, "--verbose", &[], &None);
    assert!(!found.fallback);
    assert_eq!(found.hits.len(), 2);
    let scored: Vec<ScoredHit> = found
        .hits
        .into_iter()
        .map(|h| ScoredHit {
            repo: h.repo,
            file_path: h.file_path,
            start_line: h.start_line,
            end_line: h.end_line,
            content: h.content,
            language: h.language,
            score: 30,
            score_text: "3.00".to_string(),
        })
        .collect();
    let out = render_results("--verbose", &rank_hits(scored, 10), false, false);
    assert_eq!(
        out.matches("`optparse.c`").count(),
        1,
        "consecutive matches are one region: {out}"
    );
}

#[test]
fn a_query_of_several_words_falls_back_to_its_words() {
    let files = vec![cached("/r/a.c", "int tag;\nint validate(void)\n{\n}\n")];
    let found = find_hits(&["/r".to_string()], &files, "validate tag", &[], &None);
    assert!(found.fallback);
    assert_eq!(found.hits.len(), 1);
    // Two words in code, in quarters.
    assert_eq!(found.hits[0].coverage, 8);
}

#[test]
fn tests_and_other_files_are_out_of_scope() {
    let tests = vec!["tests/t.c".to_string()];
    assert_eq!(
        file_in_scope("/r/a.c", "/r", &[], &None),
        Some("a.c".to_string())
    );
    assert_eq!(file_in_scope("/other/a.c", "/r", &[], &None), None);
    assert_eq!(file_in_scope("/r/tests/t.c", "/r", &tests, &None), None);
    assert_eq!(
        file_in_scope("/r/src/a.c", "/r", &[], &Some("*.c".to_string())),
        Some("src/a.c".to_string())
    );
    assert_eq!(
        file_in_scope("/r/src/a.h", "/r", &[], &Some("*.c".to_string())),
        None
    );
}

#[test]
fn a_line_is_scored_by_what_it_holds() {
    let r = line_relevance("fn validate(tag: u8) {", "validate");
    assert!(r.holds_query);
    assert!(r.definition);
    assert_eq!(r.line_bytes, "fn validate(tag: u8) {".len());
    let other = line_relevance("let x = 1;", "validate");
    assert!(!other.holds_query);
}

#[test]
fn the_best_window_covers_the_most_words() {
    let lines: Vec<String> = ["a", "b", "alpha", "beta", "c"]
        .iter()
        .map(|s| s.to_string())
        .collect();
    let tokens = vec!["alpha".to_string(), "beta".to_string()];
    let (_, coverage) = best_anchor(&lines, &tokens, &[false; 5]);
    assert_eq!(coverage, 8);
}

#[test]
fn results_are_ranked_by_score() {
    let hit = |file: &str, score: u32| ScoredHit {
        repo: "/r".to_string(),
        file_path: file.to_string(),
        start_line: 1,
        end_line: 2,
        content: "x".to_string(),
        language: "c".to_string(),
        score,
        score_text: "1.0".to_string(),
    };
    let ranked = rank_hits(vec![hit("low.c", 1), hit("high.c", 9), hit("mid.c", 5)], 2);
    let names: Vec<&str> = ranked.iter().map(|h| h.file_path.as_str()).collect();
    assert_eq!(names, vec!["high.c", "mid.c"]);
    let out = render_results("q", &ranked, false, false);
    assert!(out.contains("high.c"), "{out}");
    assert!(out.find("high.c").unwrap() < out.find("mid.c").unwrap());
}

#[test]
fn typed_terms_are_kept_whole() {
    let typed = terms_as_typed("Widget_Stop engine");
    assert!(typed.contains(&"widget_stop".to_string()), "{typed:?}");
    assert!(carries_typed_term(
        &[],
        Some("int widget_stop(void);"),
        &typed
    ));
    assert!(!carries_typed_term(&[], Some("int other(void);"), &typed));
}

#[test]
fn references_are_listed_by_page() {
    let refs = vec![
        reference("a.c", 1, "f(1);"),
        reference("b.c", 2, "f(2);"),
        reference("tests/t.c", 3, "f(3);"),
    ];
    let kept = without_tests(&refs, &["tests/t.c".to_string()]);
    assert_eq!(kept.len(), 2);
    let out = format_references(&kept, false, "f", ListWindow::new(0, 1));
    assert!(out.contains("a.c"), "{out}");
    assert!(out.contains("Showing 1 of 2"), "{out}");
    let all = find_references(
        &refs,
        true,
        Some(&[reference("c.c", 9, "f(9);")]),
        &[],
        "f",
        ListWindow::new(0, 0),
    );
    assert!(all.contains("c.c"), "{all}");
    assert!(!all.contains("Showing"), "{all}");
}

#[test]
fn text_search_finds_the_name_in_each_line() {
    let files = vec![
        cached("/r/a.c", "int f(void);\nint g;\nf();\n"),
        cached("/other/b.c", "f();\n"),
    ];
    let refs = text_search_references(&files, "/r", "f");
    assert_eq!(refs.len(), 2, "{refs:?}");
    assert_eq!((refs[0].file_path.as_str(), refs[0].line), ("a.c", 1));
    assert_eq!((refs[1].file_path.as_str(), refs[1].line), ("a.c", 3));
}

#[test]
fn server_locations_lie_inside_the_repo() {
    let places = vec![
        ServerLocation {
            path: "/r/a.c".to_string(),
            line: 0,
            content: Some("  f();".to_string()),
        },
        ServerLocation {
            path: "/usr/include/x.h".to_string(),
            line: 4,
            content: None,
        },
    ];
    let refs = references_at(&places, "/r", false);
    assert_eq!(refs[0].file_path, "a.c");
}

#[test]
fn a_backend_that_saw_nothing_is_not_asked_to_judge() {
    let answers = vec![
        BackendAnswer {
            label: "clangd".to_string(),
            references: vec![reference("a.c", 1, "f();")],
        },
        BackendAnswer {
            label: "ccls".to_string(),
            references: vec![],
        },
    ];
    let kept = keep_telling(answers);
    assert_eq!(kept.len(), 1);
    let files = vec![cached("/r/a.c", "f();\n\nint g2;\n")];
    let rows = find_mentions(&files, "/r", "f", false, &[]);
    assert_eq!(rows.len(), 1, "{rows:?}");
    let judged = cross_validate(&rows, &kept);
    assert_eq!(judged.len(), rows.len());
}

#[test]
fn usages_list_the_definition_and_the_mentions() {
    let symbols = vec![function("f", "a.c", 1, 1)];
    let files = vec![cached("/r/a.c", "int f(void);\n"), cached("/r/b.c", "f();\n")];
    let out = find_symbol_usages("f", &symbols, &files, "/r", true, &[], vec![]);
    assert!(out.contains("a.c") && out.contains("b.c"), "{out}");
    assert!(usage_backends(false, false, &symbols, "f").is_none());
}

#[test]
fn an_export_map_names_the_symbols_of_the_file() {
    let symbols = vec![function("f", "a.py", 1, 2), function("g", "b.py", 1, 2)];
    let out = get_export_map("a.py", &symbols, "def f():\n    pass\n");
    assert!(out.contains("f"), "{out}");
    assert!(out.starts_with("# Export Map"), "{out}");
}

#[test]
fn text_is_cut_at_a_character() {
    assert_eq!(truncate_on_char_boundary("h\u{e9}llo", 2), "h");
    assert_eq!(truncate_on_char_boundary("h\u{e9}llo", 3), "h\u{e9}");
    assert_eq!(truncate_on_char_boundary("abc", 10), "abc");
}

#[test]
fn pages_follow_each_other() {
    let (first, last, page) = cap(25, ListWindow::new(0, 20));
    assert_eq!((first, last), (0, 20));
    assert!(page.truncated());
    assert!(page.footer("get_branch_info").contains("Showing 20 of 25"));
    let (next, end, rest) = cap(25, ListWindow::new(20, 20));
    assert_eq!((next, end), (20, 25));
    assert!(!rest.truncated() || rest.total == 25);
    let (_, all, whole) = cap(25, ListWindow::new(0, 0));
    assert_eq!(all, 25);
    assert!(!whole.truncated());
}

#[test]
fn files_are_counted_most_first() {
    let files: Vec<String> = ["a.c", "b.c", "b.c"].iter().map(|s| s.to_string()).collect();
    let out = by_file_summary(&files, 1);
    assert!(out.contains("b.c"), "{out}");
}
