use narsil_mcp::languages::{
    ext_to_language, get_file_icon, get_language_from_path, get_language_id, is_c_header_ext,
    is_c_source_ext, is_cxx_language, is_filename_like,
};
use narsil_mcp::lookup::submodule_paths;
use narsil_mcp::paths::{
    components, extension, file_name, file_stem, is_absolute, join_path, normalize_lexically,
    relative, strip, under, validate_path, validate_pathspec, PathError,
};
use narsil_mcp::scope::{
    any_pattern_matches, compile_include_patterns, compile_scope, is_merge_conflict_artifact,
    scope_matches, ScopeRule,
};

fn strings(list: &[&str]) -> Vec<String> {
    list.iter().map(|s| s.to_string()).collect()
}

#[test]
fn is_merge_conflict_artifact_matches_known_shapes() {
    assert!(is_merge_conflict_artifact("src/sqe_op_BACKUP_324467.c"));
    assert!(is_merge_conflict_artifact("src/sqe_op_BASE_324467.c"));
    assert!(is_merge_conflict_artifact("src/sqe_op_LOCAL_324467.c"));
    assert!(is_merge_conflict_artifact("src/sqe_op_REMOTE_324467.c"));
    assert!(is_merge_conflict_artifact("src/mount.c.orig"));
    assert!(is_merge_conflict_artifact("src/mount.c.rej"));

    assert!(!is_merge_conflict_artifact("src/sqe_op.c"));
    assert!(!is_merge_conflict_artifact("src/backup_service.c"));
}

#[test]
fn a_pathspec_need_not_exist_but_must_stay_in_the_repo() {
    assert!(validate_pathspec("test/test_ctests.py").is_ok());
    assert!(validate_pathspec("no/such/file/anywhere.c").is_ok());

    assert!(validate_pathspec("/etc/passwd").is_err());
    assert!(validate_pathspec("../outside.c").is_err());
    assert!(validate_pathspec("test/../../outside.c").is_err());

    assert_eq!(validate_pathspec("/etc/passwd"), Err(PathError::Absolute));
    assert_eq!(
        validate_pathspec("../outside.c"),
        Err(PathError::ParentComponent)
    );
}

#[test]
fn a_path_must_resolve_inside_its_repo() {
    assert!(validate_path("src/a.c", "/r", "/r/src/a.c").is_ok());
    assert_eq!(
        validate_path("src/link", "/r", "/elsewhere/a.c"),
        Err(PathError::OutsideRepository)
    );
    assert_eq!(
        validate_path("/r/a.c", "/r", "/r/a.c"),
        Err(PathError::Absolute)
    );
    assert!(!PathError::OutsideRepository.message().is_empty());
}

#[test]
fn submodule_paths_parses_gitmodules() {
    let mut paths = submodule_paths(Some(
        "[submodule \"niova-core\"]\n\tpath = niova-core\n\turl = ../niova-core.git\n\
         [submodule \"other\"]\n\tpath = vendor/other\n",
    ));
    paths.sort();
    assert_eq!(
        paths,
        vec!["niova-core".to_string(), "vendor/other".to_string()]
    );
}

#[test]
fn submodule_paths_empty_without_gitmodules() {
    assert!(submodule_paths(None).is_empty());
}

#[test]
fn is_filename_like_distinguishes_files_from_symbols() {
    assert!(is_filename_like("mount_i_linux.h"));
    assert!(is_filename_like("chunk_remove.c"));
    assert!(is_filename_like("index.rs"));
    assert!(!is_filename_like("CodeIntelEngine"));
    assert!(!is_filename_like("Type::method"));
    assert!(!is_filename_like("fn foo("));
    assert!(!is_filename_like("validate_path"));
    // The extension is compared without regard to case.
    assert!(is_filename_like("MOUNT.H"));
}

#[test]
fn cxx_parser_language_names_drive_augmentation_gate() {
    for language in ["c", "cpp"] {
        assert!(is_cxx_language(language));
    }
    // The display names count too.
    assert!(is_cxx_language("C") && is_cxx_language("C++"));
    assert!(!is_cxx_language("rust"));
}

#[test]
fn languages_follow_extensions() {
    assert_eq!(get_language_id("src/a.rs"), "rust");
    assert_eq!(get_language_from_path("src/a.py"), "python");
    assert_eq!(ext_to_language("rs"), "Rust");
    assert!(is_c_source_ext("c") && !is_c_source_ext("h"));
    assert!(is_c_header_ext("h") && !is_c_header_ext("c"));
    assert!(!get_file_icon("a.rs").is_empty());
}

#[test]
fn paths_are_split_at_components() {
    assert_eq!(components("/a//b/./c"), strings(&["/", "a", "b", "c"]));
    assert_eq!(file_name("/a/b.c"), Some("b.c".to_string()));
    assert_eq!(file_name("/"), None);
    assert_eq!(extension("a/b.tar.gz"), Some("gz".to_string()));
    assert_eq!(extension("a/.hidden"), None);
    assert_eq!(file_stem("a/b.tar.gz"), Some("b.tar".to_string()));
    assert!(is_absolute("/a") && !is_absolute("a"));
    assert_eq!(join_path("/r", "a/b.c"), "/r/a/b.c");
    assert_eq!(join_path("/r", "/abs.c"), "/abs.c");
}

#[test]
fn a_prefix_ends_at_a_component() {
    assert!(under("/r/src/a.c", "/r/src"));
    assert!(!under("/r/src2/a.c", "/r/src"));
    assert_eq!(strip("/r/src/a.c", "/r"), Some("src/a.c".to_string()));
    assert_eq!(strip("/other/a.c", "/r"), None);
    assert_eq!(relative("/r/a.c", "/r"), "a.c");
    assert_eq!(relative("/other/a.c", "/r"), "/other/a.c");
}

#[test]
fn normalizing_twice_changes_nothing() {
    let once = normalize_lexically("/r/build/../src/./a.c");
    assert_eq!(once, "/r/src/a.c");
    assert_eq!(normalize_lexically(&once), once);
}

#[test]
fn scope_entries_are_prefixes_and_globs() {
    let rules = compile_scope(&strings(&["drivers/net", "fs/**/*.c"]));
    assert_eq!(rules.len(), 2);
    assert!(matches!(&rules[0], ScopeRule::Prefix(p) if p == "drivers/net"));
    assert!(matches!(&rules[1], ScopeRule::Glob(_)));
    assert!(scope_matches(&rules, "drivers/net/a.c", "/r/drivers/net/a.c"));
    assert!(!scope_matches(&rules, "drivers/network/a.c", "/r/drivers/network/a.c"));
    assert!(scope_matches(&rules, "fs/ext4/inode.c", "/r/fs/ext4/inode.c"));
    assert!(!scope_matches(&rules, "fs/ext4/inode.h", "/r/fs/ext4/inode.h"));
    assert!(!scope_matches(&[], "a.c", "/r/a.c"));
}

#[test]
fn patterns_that_do_not_compile_are_dropped() {
    let kept = compile_include_patterns(&strings(&["*.c", "[", "src/*.h"]));
    assert_eq!(kept, strings(&["*.c", "src/*.h"]));
    assert!(any_pattern_matches(&kept, "a.c"));
    assert!(!any_pattern_matches(&kept, "a.rs"));
}
