use narsil_mcp::args::{
    apply_bool_default, expand_tilde, format_discovery_url, is_loopback_bind_addr,
    normalize_canonical_path, resolve_repo_paths, RepoPathsError,
};
use narsil_mcp::backends::{
    cache_state, call_graph_step, enabled_backends_for_repo,
    gtags_generate_step, gtags_refresh_step, lsp_repo_enabled, refresh_gtags_if_active,
    CallGraphStep, GenerateStep, RefreshStep,
};
use narsil_mcp::launch::{
    apply_named_profile, apply_profile, backend_enabled, cxx_backends, effective_transport,
    falls_back_to_cwd, lsp_setup, sse_address, Profile, ProfileRepo, ServerArgs, Transport,
};
use narsil_mcp::lsp::CxxLspBackend;
use narsil_mcp::settings::{
    cache_shape, compile_repo_settings, expand_path, load_persisted, lsp_tuning, resolve_intent,
    settings_for, BackendIntent, ClangdSettings, PersistedFile, RepoEntrySettings,
};
use narsil_mcp::symbols::SourceSet;

fn no_settings(key: Option<&str>) -> RepoEntrySettings {
    RepoEntrySettings {
        key: key.map(|s| s.to_string()),
        index_filter: vec![],
        lsp_scope: vec![],
        gtags: None,
        clangd: None,
        ccls: None,
        compile_commands_min_coverage_pct: None,
    }
}

fn no_args() -> ServerArgs {
    ServerArgs {
        repos: vec![],
        repo_settings: vec![],
        discover: None,
        preset: None,
        expose: vec![],
        git: false,
        call_graph: false,
        persist: false,
        watch: false,
        lsp: false,
        remote: false,
        neural: false,
        graph: false,
        embedding_dim: None,
        use_compile_commands: false,
        compile_commands_path: None,
        keep_entries: vec![],
    }
}

fn work_profile(repo: &str) -> Profile {
    Profile {
        name: "work".to_string(),
        repos: vec![ProfileRepo {
            path: repo.to_string(),
            settings: no_settings(Some(repo)),
        }],
        clangd: None,
        ccls: None,
        gtags: None,
        discover: None,
        preset: Some("balanced".to_string()),
        expose: vec![],
        git: Some(true),
        call_graph: Some(true),
        persist: None,
        watch: None,
        lsp: None,
        remote: None,
        neural: None,
        graph: None,
        embedding_dim: None,
        use_compile_commands: None,
        compile_commands_path: None,
        keep_entries: vec![],
    }
}

#[test]
fn resolve_repo_paths_falls_back_to_cwd_when_empty() {
    let cwd = "/home/dev/project".to_string();
    let resolved = resolve_repo_paths(vec![], None, true, Some(Some(cwd.clone()))).unwrap();
    assert_eq!(resolved, vec![cwd]);
}

#[test]
fn resolve_repo_paths_no_cwd_fallback_errors_when_empty() {
    let err = resolve_repo_paths(vec![], None, false, None).unwrap_err();
    assert!(err.message().contains("No repositories specified"));
}

#[test]
fn resolve_repo_paths_filters_missing_paths() {
    let cwd = "/home/dev/project".to_string();
    let resolved = resolve_repo_paths(vec![Some(cwd.clone()), None], None, false, None).unwrap();
    // The missing path is dropped; the existing one survives.
    assert_eq!(resolved, vec![cwd]);
}

#[test]
fn resolve_repo_paths_errors_when_all_explicit_paths_are_missing() {
    let err = resolve_repo_paths(vec![None], None, false, None).unwrap_err();
    assert!(err.message().contains("No valid repository paths"));
}

#[test]
fn resolve_repo_paths_expands_dot_to_cwd() {
    // "." is canonicalized before it is asked for.
    let cwd = "/home/dev/project".to_string();
    let resolved = resolve_repo_paths(vec![Some(cwd.clone())], None, false, None).unwrap();
    assert_eq!(resolved, vec![cwd]);
}

#[test]
fn resolve_repo_paths_keeps_explicit_paths() {
    let cwd = "/home/dev/project".to_string();
    let resolved = resolve_repo_paths(vec![Some(cwd.clone())], None, false, None).unwrap();
    assert_eq!(resolved, vec![cwd.clone()]);
    // Naming a path twice asks for it once.
    let twice =
        resolve_repo_paths(vec![Some(cwd.clone()), Some(cwd.clone())], None, false, None).unwrap();
    assert_eq!(twice, vec![cwd]);
}

#[test]
fn a_working_directory_that_is_gone_is_an_error() {
    assert_eq!(
        resolve_repo_paths(vec![], None, true, None).unwrap_err(),
        RepoPathsError::CwdUnavailable
    );
    assert_eq!(
        resolve_repo_paths(vec![], None, true, Some(None)).unwrap_err(),
        RepoPathsError::CwdInvalid
    );
}

#[test]
fn named_profile_supplies_repos_and_flags() {
    let repo = "/tmp/cfg/repo";
    let mut args = no_args();
    apply_named_profile(&mut args, Some("work"), &[work_profile(repo)]).unwrap();

    assert_eq!(args.repos, vec![repo.to_string()]);
    assert!(args.git);
    assert!(args.call_graph);
    assert_eq!(args.preset.as_deref(), Some("balanced"));
    assert!(!args.watch);
}

#[test]
fn a_profile_that_does_not_exist_is_an_error() {
    let mut args = no_args();
    let err = apply_named_profile(&mut args, Some("home"), &[work_profile("/r")]).unwrap_err();
    assert!(err.contains("home"), "{err}");
    assert!(args.repos.is_empty());
    apply_named_profile(&mut args, None, &[work_profile("/r")]).unwrap();
    assert!(args.repos.is_empty());
}

#[test]
fn the_command_line_is_authoritative() {
    let mut args = no_args();
    args.repos = vec!["/mine".to_string()];
    args.preset = Some("minimal".to_string());
    apply_profile(&mut args, &work_profile("/r"));
    assert_eq!(args.repos, vec!["/mine".to_string()]);
    assert_eq!(args.preset.as_deref(), Some("minimal"));
    assert!(args.git);
}

#[test]
fn a_profile_never_clears_a_flag() {
    let mut flag = true;
    apply_bool_default(&mut flag, Some(false));
    assert!(flag);
    let mut off = false;
    apply_bool_default(&mut off, Some(true));
    assert!(off);
}

#[test]
fn an_address_given_means_http() {
    assert_eq!(
        effective_transport(Transport::Stdio, false, true),
        Transport::Sse
    );
    assert_eq!(
        effective_transport(Transport::Stdio, false, false),
        Transport::Stdio
    );
    assert!(falls_back_to_cwd(Transport::Stdio));
    assert_eq!(Transport::Sse.name(), "sse");
    let (host, port, _) = sse_address(None, None).unwrap();
    assert_eq!((host.as_str(), port), ("127.0.0.1", 7557));
    assert!(sse_address(Some("0.0.0.0"), None).is_err());
}

#[test]
fn urls_bracket_numeric_hosts() {
    assert_eq!(
        format_discovery_url("127.0.0.1", 7557),
        "http://127.0.0.1:7557"
    );
    assert!(format_discovery_url("::1", 80).contains("[::1]:80"));
    assert!(is_loopback_bind_addr("localhost"));
    assert!(is_loopback_bind_addr("127.0.0.1"));
    assert!(!is_loopback_bind_addr("0.0.0.0"));
}

#[test]
fn a_tilde_is_the_home_directory() {
    assert_eq!(
        expand_tilde("~/src", Some("/home/dev")),
        Some("/home/dev/src".to_string())
    );
    assert_eq!(
        expand_tilde("/abs", Some("/home/dev")),
        Some("/abs".to_string())
    );
    assert_eq!(
        expand_path("~/src", Some("/home/dev")),
        Some("/home/dev/src".to_string())
    );
    assert_eq!(
        normalize_canonical_path("/a/b".to_string(), false),
        "/a/b"
    );
}

#[test]
fn backends_are_chosen_by_intent() {
    assert_eq!(resolve_intent(true, false), BackendIntent::On);
    assert_eq!(resolve_intent(false, true), BackendIntent::Off);
    assert_eq!(resolve_intent(false, false), BackendIntent::Auto);
    assert!(backend_enabled(BackendIntent::On, false));
    assert!(!backend_enabled(BackendIntent::Off, true));
    assert!(backend_enabled(BackendIntent::Auto, true));
    let both = [CxxLspBackend::Clangd, CxxLspBackend::Ccls];
    assert_eq!(cxx_backends("ccls", &both), vec![CxxLspBackend::Ccls]);
    let config = lsp_setup(BackendIntent::On, "clangd", &both, 9000);
    assert!(config.enabled);
    assert_eq!(config.index_timeout_ms, 9000);
}

#[test]
fn a_disabled_manager_enables_nothing() {
    assert!(!lsp_repo_enabled(false, BackendIntent::On, true));
    assert!(lsp_repo_enabled(true, BackendIntent::On, false));
    let set = enabled_backends_for_repo(true, true, SourceSet::clangd(), false);
    assert!(set.contains(SourceSet::clangd()));
    assert!(set.contains(SourceSet::tree_sitter()));
    let plain = enabled_backends_for_repo(false, true, SourceSet::clangd(), true);
    assert!(!plain.contains(SourceSet::clangd()));
}

#[test]
fn steps_follow_from_the_state_of_the_index() {
    let fresh = cache_state(true, true);
    assert!(fresh.symbols_cached);
    let stale = cache_state(true, false);
    assert!(!stale.symbols_cached && stale.load_prior);
    assert_eq!(
        gtags_generate_step(true, true, true, false, 60_000, true),
        GenerateStep::TooLarge
    );
    assert_eq!(
        gtags_generate_step(true, true, true, false, 10, true),
        GenerateStep::Generate
    );
    assert_eq!(
        gtags_refresh_step(true, true, true, true, false, true),
        RefreshStep::Warn
    );
    assert_eq!(
        refresh_gtags_if_active(true, Some(10), true, true),
        RefreshStep::Debounced
    );
    assert_eq!(
        call_graph_step(true, true, true, 12, true, true),
        CallGraphStep::Restore
    );
}

#[test]
fn repo_settings_are_found_by_key() {
    let mut entry = no_settings(Some("/r"));
    entry.index_filter = vec!["src".to_string()];
    entry.clangd = Some(ClangdSettings {
        enabled: Some(false),
        jobs: Some(3),
        background_index: None,
    });
    let entries = vec![entry, no_settings(None)];
    let table = compile_repo_settings(&entries, &[], &[]);
    assert_eq!(table.len(), 1);
    assert!(settings_for(&table, "/r").is_some());
    assert!(settings_for(&table, "/other").is_none());
    let tuning = lsp_tuning(&entries);
    assert_eq!(tuning.len(), 1);
    assert!(!tuning[0].1.clangd_enabled);
    assert_eq!(tuning[0].1.clangd_jobs, Some(3));
}

#[test]
fn a_cache_that_is_off_holds_nothing() {
    let on = cache_shape(true, 500, 60);
    assert_eq!((on.capacity, on.ttl_seconds), (500, 60));
    let off = cache_shape(false, 500, 60);
    assert_ne!(off, on);
}

#[test]
fn each_language_is_listed_once() {
    let file = |path: &str| PersistedFile {
        path: path.to_string(),
        size: 100,
        symbols: vec![],
    };
    let loaded = load_persisted(&[file("a.c"), file("b.c"), file("c.rs")]);
    assert_eq!(loaded.file_count, 3);
    assert_eq!(loaded.languages.len(), 2);
}
