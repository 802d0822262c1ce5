use narsil_mcp::symbols::{
    enclosing_function_at, gtags_symbol, merge_symbols, reference_is_a_call, render_provenance,
    symbol_definition_ambiguity_note, ProvenanceSubject, SourceLine, SourceSet, Symbol, SymbolKind,
};

fn sym(name: &str, line: usize, source: SourceSet) -> Symbol {
    Symbol {
        name: name.to_string(),
        kind: if source == SourceSet::gtags() {
            SymbolKind::Unknown
        } else {
            SymbolKind::Function
        },
        file_path: "a.c".to_string(),
        start_line: line,
        end_line: line,
        signature: if source != SourceSet::gtags() {
            Some(format!("sig@{}", line))
        } else {
            None
        },
        qualified_name: None,
        doc_comment: None,
        confirmed_by: source,
        line_conflicts: Vec::new(),
    }
}

fn cxx_symbol(name: &str, file: &str, start_line: usize, end_line: usize) -> Symbol {
    Symbol {
        name: name.to_string(),
        kind: SymbolKind::Function,
        file_path: file.to_string(),
        start_line,
        end_line,
        signature: None,
        qualified_name: None,
        doc_comment: None,
        confirmed_by: SourceSet::ccls(),
        line_conflicts: Vec::new(),
    }
}

fn source_set(bits: &[SourceSet]) -> SourceSet {
    let mut set = SourceSet::empty();
    for bit in bits {
        set.insert(*bit);
    }
    set
}

#[test]
fn only_a_call_site_counts_as_a_caller() {
    let symbols = vec![
        cxx_symbol("spawn_helper", "src/helper.c", 101, 140),
        cxx_symbol("obtain_fd", "src/helper.c", 660, 710),
        cxx_symbol("spawn_helper", "src/helper_i.h", 246, 246),
    ];

    // A real call site.
    assert!(reference_is_a_call(
        &symbols,
        "spawn_helper",
        "src/helper.c",
        695,
        "res = spawn_helper(&fd, argv);"
    ));

    // The definition line of the function itself.
    assert!(!reference_is_a_call(
        &symbols,
        "spawn_helper",
        "src/helper.c",
        101,
        "static int spawn_helper(int *fd, char **argv)"
    ));

    // A prototype in a header.
    assert!(!reference_is_a_call(
        &symbols,
        "spawn_helper",
        "src/helper_i.h",
        246,
        "int spawn_helper(int *fd, char **argv);"
    ));

    // A header named with the line number of the file that includes it.
    assert!(!reference_is_a_call(
        &symbols,
        "spawn_helper",
        "src/helper_linux.h",
        695,
        "#define HELPER_LINUX_H"
    ));
}

#[test]
fn enclosing_function_prefers_the_tightest_range() {
    let symbols = vec![
        cxx_symbol("session_stop", "include/api.h", 2420, 6000),
        cxx_symbol("session_start", "include/api.h", 5300, 5320),
    ];

    let found = enclosing_function_at(&symbols, "include/api.h", 5310)
        .expect("a symbol covers the line");
    assert_eq!(symbols[found].name, "session_start");
    assert!(enclosing_function_at(&symbols, "include/api.h", 6001).is_none());
    assert!(enclosing_function_at(&symbols, "include/other.h", 5310).is_none());
}

#[test]
fn merge_higher_priority_wins_line_and_records_conflict() {
    let mut existing = vec![sym("foo", 10, SourceSet::tree_sitter())];
    merge_symbols(
        &mut existing,
        vec![sym("foo", 11, SourceSet::clangd())],
        SourceSet::clangd(),
    );

    assert_eq!(existing.len(), 1);
    let foo = &existing[0];
    assert_eq!(foo.start_line, 11);
    assert!(foo.confirmed_by.contains(SourceSet::tree_sitter()));
    assert!(foo.confirmed_by.contains(SourceSet::clangd()));
    assert_eq!(foo.line_conflicts.len(), 1);
    assert_eq!(foo.line_conflicts[0].source, SourceSet::tree_sitter());
    assert_eq!(foo.line_conflicts[0].line, 10);
}

#[test]
fn merge_lower_priority_keeps_line_but_adds_confirmer() {
    let mut existing = vec![sym("foo", 10, SourceSet::tree_sitter())];
    merge_symbols(
        &mut existing,
        vec![sym("foo", 9, SourceSet::gtags())],
        SourceSet::gtags(),
    );

    let foo = &existing[0];
    assert_eq!(foo.start_line, 10);
    assert_eq!(foo.kind, SymbolKind::Function);
    assert_eq!(foo.signature.as_deref(), Some("sig@10"));
    assert!(foo.confirmed_by.contains(SourceSet::gtags()));
    assert_eq!(
        foo.line_conflicts,
        vec![SourceLine {
            source: SourceSet::gtags(),
            line: 9
        }]
    );
}

#[test]
fn merge_beyond_window_keeps_overloads_separate() {
    let mut existing = vec![sym("foo", 10, SourceSet::tree_sitter())];
    merge_symbols(
        &mut existing,
        vec![sym("foo", 40, SourceSet::clangd())],
        SourceSet::clangd(),
    );

    assert_eq!(existing.len(), 2);
}

#[test]
fn merge_inserts_symbol_no_prior_backend_saw() {
    let mut existing = vec![sym("foo", 10, SourceSet::tree_sitter())];
    merge_symbols(
        &mut existing,
        vec![sym("BAR", 5, SourceSet::gtags())],
        SourceSet::gtags(),
    );

    assert_eq!(existing.len(), 2);
    let bar = existing.iter().find(|s| s.name == "BAR").unwrap();
    assert_eq!(bar.confirmed_by, SourceSet::gtags());
}

#[test]
fn the_match_window_ends_at_three_lines() {
    let mut near = vec![sym("foo", 10, SourceSet::tree_sitter())];
    merge_symbols(
        &mut near,
        vec![sym("foo", 13, SourceSet::clangd())],
        SourceSet::clangd(),
    );
    assert_eq!(near.len(), 1);
    let mut far = vec![sym("foo", 10, SourceSet::tree_sitter())];
    merge_symbols(
        &mut far,
        vec![sym("foo", 14, SourceSet::clangd())],
        SourceSet::clangd(),
    );
    assert_eq!(far.len(), 2);
}

#[test]
fn a_tag_becomes_a_symbol_of_unknown_kind() {
    let s = gtags_symbol("MACRO".to_string(), "a.h", 7);
    assert_eq!(s.kind, SymbolKind::Unknown);
    assert_eq!((s.start_line, s.end_line), (7, 7));
    assert_eq!(s.confirmed_by, SourceSet::gtags());
    assert!(s.signature.is_none());
}

#[test]
fn backends_are_ranked_and_labelled() {
    let all = source_set(&[
        SourceSet::gtags(),
        SourceSet::ccls(),
        SourceSet::tree_sitter(),
        SourceSet::clangd(),
    ]);
    assert_eq!(all.count(), 4);
    assert_eq!(all.highest(), SourceSet::clangd());
    assert!(SourceSet::clangd().rank() > SourceSet::ccls().rank());
    assert!(SourceSet::tree_sitter().rank() > SourceSet::gtags().rank());
    assert_eq!(all.labels().len(), 4);
    assert!(SourceSet::empty().is_empty());
    assert!(!all.is_empty());
}

#[test]
fn provenance_silent_without_cross_validation() {
    let out = render_provenance(
        ProvenanceSubject::Symbol,
        SourceSet::tree_sitter(),
        SourceSet::tree_sitter(),
        10,
        &[],
    );
    assert!(out.is_none());
}

#[test]
fn provenance_silent_on_full_agreement() {
    let enabled = source_set(&[SourceSet::tree_sitter(), SourceSet::clangd()]);
    assert!(render_provenance(ProvenanceSubject::Symbol, enabled, enabled, 10, &[]).is_none());
}

#[test]
fn provenance_reports_existence_disagreement() {
    let enabled = source_set(&[
        SourceSet::tree_sitter(),
        SourceSet::clangd(),
        SourceSet::ccls(),
    ]);
    let msg = render_provenance(
        ProvenanceSubject::Symbol,
        enabled,
        SourceSet::clangd(),
        10,
        &[],
    )
    .unwrap();
    assert!(msg.contains("confirmed by clangd"));
    assert!(msg.contains("not by"));
    assert!(msg.contains("ccls") && msg.contains("tree-sitter"));
}

#[test]
fn provenance_flags_gtags_only_edge_as_unverified() {
    let enabled = source_set(&[
        SourceSet::tree_sitter(),
        SourceSet::clangd(),
        SourceSet::gtags(),
    ]);
    let msg = render_provenance(
        ProvenanceSubject::CallEdge,
        enabled,
        SourceSet::gtags(),
        10,
        &[],
    )
    .unwrap();
    assert!(msg.contains("reference-derived (gtags)"));
}

#[test]
fn provenance_reports_line_disagreement() {
    let enabled = source_set(&[SourceSet::tree_sitter(), SourceSet::clangd()]);
    let conflicts = vec![SourceLine {
        source: SourceSet::tree_sitter(),
        line: 9,
    }];
    let msg =
        render_provenance(ProvenanceSubject::Symbol, enabled, enabled, 10, &conflicts).unwrap();
    assert!(msg.contains("WARNING line disagreement"));
    assert!(msg.contains("clangd 10"));
    assert!(msg.contains("tree-sitter 9"));
}

#[test]
fn a_definition_found_once_has_no_note() {
    let one = [cxx_symbol("f", "a.c", 1, 3)];
    assert!(symbol_definition_ambiguity_note(&one, &one[0]).is_empty());
    let two = [cxx_symbol("f", "a.c", 1, 3), cxx_symbol("f", "b.c", 4, 6)];
    let note = symbol_definition_ambiguity_note(&two, &two[0]);
    assert!(note.contains("b.c"), "{note}");
}
