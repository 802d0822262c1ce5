use narsil_mcp::lsp::{
    call_anchor, call_site_line, cxx_backend_for_source, cxx_language_id, definition_locations,
    flatten_document_symbols, frame_message, hover_to_markdown, lsp_kind_to_narsil, name_anchor,
    server_key, validate_lsp_server_path, CxxLspBackend, DocumentSymbol, GotoDefinitionResponse,
    HeaderReader, HeaderStep, Hover, HoverContents, LanguageString, LspConfig, LspManager,
    MarkedString, MarkupContent, MarkupKind, PendingRequests, ServerError,
};
use narsil_mcp::references::ServerLocation;
use narsil_mcp::symbols::{SourceSet, SymbolKind};

#[test]
fn test_lsp_config_default() {
    let config = LspConfig::default();
    assert!(!config.enabled);
    assert!(
        config.timeout_ms <= 2000,
        "LSP timeout should be <= 2000ms, got {}",
        config.timeout_ms
    );
}

#[test]
fn test_lsp_config_default_timeout_reduced() {
    let config = LspConfig::default();
    assert_eq!(config.timeout_ms, 1500, "Default timeout should be 1500ms");
}

#[test]
fn test_server_detection() {
    let config = LspConfig::default();
    let manager = LspManager::new(config, vec![]);

    let (cmd, _) = manager.get_server_command_for_key("rust").unwrap();
    assert_eq!(cmd, "rust-analyzer");

    let (cmd, _) = manager.get_server_command_for_key("python").unwrap();
    assert_eq!(cmd, "pyright-langserver");

    let (cmd, _) = manager.get_server_command_for_key("c:clangd").unwrap();
    assert_eq!(cmd, "clangd");

    let (cmd, _) = manager.get_server_command_for_key("c:ccls").unwrap();
    assert_eq!(cmd, "ccls");
}

#[test]
fn test_is_enabled_returns_false_by_default() {
    let config = LspConfig::default();
    let manager = LspManager::new(config, vec![]);
    assert!(!manager.is_enabled(), "LSP should be disabled by default");
}

#[test]
fn test_is_enabled_returns_true_when_enabled() {
    let config = LspConfig {
        enabled: true,
        ..Default::default()
    };
    let manager = LspManager::new(config, vec![]);
    assert!(
        manager.is_enabled(),
        "LSP should be enabled when config says so"
    );
}

#[test]
fn test_lsp_early_exit_when_disabled() {
    let config = LspConfig {
        enabled: false,
        ..Default::default()
    };
    let manager = LspManager::new(config, vec![]);
    assert!(manager.server_to_ask("rust").is_none());
    assert!(manager.warm_up("rust").is_empty());
}

#[test]
fn test_hover_to_markdown() {
    let hover = Hover {
        contents: HoverContents::Markup(MarkupContent {
            kind: MarkupKind::Markdown,
            value: "# Test\n\nSome content".to_string(),
        }),
    };

    let markdown = hover_to_markdown(&hover);
    assert_eq!(markdown, "# Test\n\nSome content");
}

#[test]
fn test_lsp_rejects_malicious_server_path() {
    let config = LspConfig {
        server_paths: vec![("rust".to_string(), ";whoami".to_string())],
        ..Default::default()
    };
    let manager = LspManager::new(config, vec![]);
    let result = manager.get_server_command_for_key("rust");
    assert!(result.is_err(), "Should reject malicious server path");
    assert!(matches!(result, Err(ServerError::InvalidPath(_))));
}

#[test]
fn test_lsp_rejects_relative_traversal_path() {
    let config = LspConfig {
        server_paths: vec![("rust".to_string(), "../../bin/evil".to_string())],
        ..Default::default()
    };
    let manager = LspManager::new(config, vec![]);
    let result = manager.get_server_command_for_key("rust");
    assert!(result.is_err(), "Should reject relative traversal path");
}

#[test]
fn a_configured_server_path_is_used() {
    assert!(validate_lsp_server_path("/usr/bin/clangd"));
    assert!(!validate_lsp_server_path(""));
    let config = LspConfig {
        server_paths: vec![("rust".to_string(), "/opt/ra".to_string())],
        ..Default::default()
    };
    let manager = LspManager::new(config, vec![]);
    let (cmd, _) = manager.get_server_command_for_key("rust").unwrap();
    assert_eq!(cmd, "/opt/ra");
    assert!(matches!(
        manager.get_server_command_for_key("cobol"),
        Err(ServerError::NotConfigured(_))
    ));
}

#[test]
fn cxx_has_one_server_for_each_backend() {
    let config = LspConfig {
        enabled: true,
        enabled_languages: vec![("c".to_string(), true)],
        cxx_lsp_backends: vec![CxxLspBackend::Clangd, CxxLspBackend::Ccls],
        ..Default::default()
    };
    let manager = LspManager::new(config, vec!["/r".to_string()]);
    assert_eq!(manager.primary_server_key("c"), "c:clangd");
    assert_eq!(server_key("c", CxxLspBackend::Ccls), "c:ccls");
    assert_eq!(manager.servers_for("c").len(), 2);
    assert_eq!(manager.server_to_ask("c"), Some("c:clangd".to_string()));
    assert_eq!(
        manager.active_cxx_backends(),
        vec![SourceSet::clangd(), SourceSet::ccls()]
    );
    assert_eq!(manager.primary_server_key("rust"), "rust");
    let restarted = manager.restart_server("c", &["c:ccls".to_string()]);
    assert!(restarted.iter().all(|(_, key)| key.starts_with("c:")));
    assert_eq!(
        CxxLspBackend::detect_available(true, false),
        vec![CxxLspBackend::Clangd]
    );
}

#[test]
fn a_backend_is_its_source() {
    for backend in [CxxLspBackend::Clangd, CxxLspBackend::Ccls] {
        assert_eq!(cxx_backend_for_source(backend.source()), Some(backend));
    }
    assert_eq!(cxx_backend_for_source(SourceSet::gtags()), None);
}

#[test]
fn a_framed_message_is_announced() {
    assert_eq!(frame_message("{}"), "Content-Length: 2\r\n\r\n{}");
    assert_eq!(
        frame_message("\u{e9}"),
        "Content-Length: 2\r\n\r\n\u{e9}",
        "the length counts bytes"
    );
    let mut reader = HeaderReader::new();
    assert_eq!(reader.read_line("Content-Length: 17\r\n"), HeaderStep::More);
    assert_eq!(reader.read_line("Content-Type: x\r\n"), HeaderStep::More);
    assert_eq!(reader.read_line("\r\n"), HeaderStep::Body(17));
    assert_eq!(reader.read_line(""), HeaderStep::End);
    let mut bad = HeaderReader::new();
    assert_eq!(
        bad.read_line("Content-Length: many\r\n"),
        HeaderStep::BadLength
    );
}

#[test]
fn a_request_is_answered_once() {
    let mut pending = PendingRequests::new();
    let first = pending.open();
    let second = pending.open();
    assert_ne!(first, second);
    assert!(pending.answer(first));
    assert!(!pending.answer(first));
    assert!(pending.answer(second));
}

#[test]
fn positions_are_found_in_the_text() {
    assert_eq!(cxx_language_id("a.c"), "c");
    assert_eq!(cxx_language_id("a.cpp"), "cpp");
    let src = "int x;\nint foo(void);\n";
    assert_eq!(name_anchor(src, "foo", 1), Some((1, 4)));
    assert_eq!(call_anchor(src, "foo", 1), (1, 4));
    assert_eq!(call_site_line(Some(4), 9), 5);
}

#[test]
fn definitions_come_as_one_place_or_many() {
    let place = |path: &str| ServerLocation {
        path: path.to_string(),
        line: 1,
        content: None,
    };
    let one = definition_locations(GotoDefinitionResponse::Scalar(place("a"))).unwrap();
    assert_eq!(one.len(), 1);
    let many =
        definition_locations(GotoDefinitionResponse::Array(vec![place("a"), place("b")])).unwrap();
    assert_eq!(many.len(), 2);
    assert!(definition_locations(GotoDefinitionResponse::Link).is_none());
}

#[test]
fn nested_document_symbols_are_flattened() {
    let leaf = |name: &str, kind: i32| DocumentSymbol {
        name: name.to_string(),
        kind,
        detail: None,
        name_line: 4,
        end_line: 6,
        children: vec![],
    };
    let tree = vec![DocumentSymbol {
        name: "S".to_string(),
        kind: 23,
        detail: None,
        name_line: 0,
        end_line: 9,
        children: vec![leaf("m", 6), leaf("f", 8)],
    }];
    let flat = flatten_document_symbols(&tree, SourceSet::clangd());
    let names: Vec<&str> = flat.iter().map(|s| s.name.as_str()).collect();
    assert_eq!(names, vec!["S", "m", "f"]);
    assert_eq!(flat[0].kind, SymbolKind::Struct);
    assert_eq!(flat[1].start_line, 5);
    assert_eq!(flat[1].confirmed_by, SourceSet::clangd());
    assert_eq!(lsp_kind_to_narsil(12), SymbolKind::Function);
}

#[test]
fn hover_texts_take_three_shapes() {
    let plain = Hover {
        contents: HoverContents::Scalar(MarkedString::String("text".to_string())),
    };
    assert_eq!(hover_to_markdown(&plain), "text");
    let code = Hover {
        contents: HoverContents::Scalar(MarkedString::LanguageString(LanguageString {
            language: "c".to_string(),
            value: "int x;".to_string(),
        })),
    };
    assert_eq!(hover_to_markdown(&code), "```c\nint x;\n```");
}
