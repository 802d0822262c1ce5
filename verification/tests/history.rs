use narsil_mcp::budget::ListWindow;
use narsil_mcp::history::{
    no_git_message, render_churn, render_commit_diff, render_contributors, render_discovered,
    render_modified_files, render_recent_changes, render_symbol_history, render_validation,
    split_diff_by_file, symbol_history_paths, CommitLine, Contributor, FileChurn, FoundRepo,
};
use narsil_mcp::symbols::{SourceSet, Symbol, SymbolKind};

fn hundred_contributors() -> Vec<Contributor> {
    (0..100)
        .map(|rank| Contributor {
            name: format!("dev{} <d{}@e>", rank, rank),
            commits: 100 - rank,
        })
        .collect()
}

#[test]
fn a_diff_splits_into_one_section_per_file() {
    let diff = "\
diff --git a/test/conftest.py b/test/conftest.py
deleted file mode 100644
--- a/test/conftest.py
+++ /dev/null
@@ -1,2 +0,0 @@
-import pytest
diff --git a/old_name.c b/new_name.c
similarity index 90%
--- a/old_name.c
+++ b/new_name.c
@@ -1 +1 @@
-int old;
+int new;
";
    let files = split_diff_by_file(diff);
    assert_eq!(files.len(), 2);
    assert_eq!(files[0].path, "test/conftest.py");
    assert!(files[0].text.contains("-import pytest"));
    // A rename is named by what the commit leaves behind.
    assert_eq!(files[1].path, "new_name.c");
    assert!(files[1].text.contains("+int new;"));
    let whole: String = files.iter().map(|f| f.text.as_str()).collect();
    assert_eq!(whole, diff);

    assert!(split_diff_by_file("").is_empty());
}

fn bulk_section(file: &str) -> String {
    let mut out = format!("diff --git a/{file} b/{file}\n--- a/{file}\n+++ b/{file}\n");
    for line in 0..2000 {
        out.push_str(&format!("-before line {line}\n+after line {line}\n"));
    }
    out
}

#[test]
fn a_commit_diff_lists_its_files_and_serves_a_deleted_one() {
    let deleted_section = "diff --git a/test_ctests.py b/test_ctests.py\n\
                           deleted file mode 100644\n\
                           --- a/test_ctests.py\n\
                           +++ /dev/null\n\
                           @@ -1 +0,0 @@\n\
                           -import pytest\n";
    let whole = format!(
        "{}{}{}",
        bulk_section("bulk_a.txt"),
        bulk_section("bulk_b.txt"),
        deleted_section
    );
    let diff = render_commit_diff("HEAD", None, &whole, None, 64 * 1024);
    assert!(diff.contains("**Files changed**: 3"), "diff was: {}", diff);
    for file in ["bulk_a.txt", "bulk_b.txt", "test_ctests.py"] {
        assert!(diff.contains(file), "{} missing from the inventory", file);
    }
    assert!(diff.contains("## Files not shown"));
    assert!(diff.contains("get_commit_diff(commit=\"HEAD\""));

    let deleted = render_commit_diff(
        "HEAD",
        Some("test_ctests.py"),
        deleted_section,
        None,
        64 * 1024,
    );
    assert!(deleted.contains("-import pytest"), "diff was: {}", deleted);

    let capped = render_commit_diff("HEAD", None, &whole, Some(6 * 1024), 64 * 1024);
    assert!(capped.len() < diff.len(), "max_bytes did not shrink");
    assert!(capped.contains("## Files not shown"));
}

#[test]
fn render_contributors_caps_and_keeps_the_ranking() {
    let output = render_contributors(&hundred_contributors(), ListWindow::new(0, 30));

    assert_eq!(output.matches("commits)").count(), 30);
    assert!(output.starts_with("- dev0 <d0@e> (100 commits)\n"));
    assert!(output.contains("Showing 30 of 100"));
    assert!(output.contains("get_contributors(offset=30)"));
}

#[test]
fn render_contributors_limit_zero_lists_everyone() {
    let output = render_contributors(&hundred_contributors(), ListWindow::new(0, 0));

    assert_eq!(output.matches("commits)").count(), 100);
    assert!(!output.contains("Showing"));
}

#[test]
fn listings_say_when_there_is_nothing() {
    assert!(render_modified_files("/r", &[]).contains("/r"));
    let some = render_modified_files("/r", &["a.c".to_string()]);
    assert!(some.contains("a.c"), "{some}");
    assert!(no_git_message("/r").contains("/r"));
    let commits = vec![CommitLine {
        short_hash: "abc1234".to_string(),
        subject: "fix".to_string(),
        author: "dev".to_string(),
        insertions: 3,
        deletions: 1,
    }];
    let recent = render_recent_changes(7, &commits);
    assert!(recent.contains("abc1234") && recent.contains("fix"), "{recent}");
    let churn = render_churn(
        30,
        &[FileChurn {
            file_path: "a.c".to_string(),
            total_commits: 9,
            unique_authors: 2,
            churn_score: "4.50".to_string(),
        }],
    );
    assert!(churn.contains("a.c") && churn.contains("4.50"), "{churn}");
    let found = render_discovered(
        "/home",
        2,
        &[FoundRepo {
            name: "x".to_string(),
            path: "/home/x".to_string(),
        }],
    );
    assert!(found.contains("/home/x"), "{found}");
    assert_ne!(
        render_validation("/r", "r", Ok(true)),
        render_validation("/r", "r", Ok(false))
    );
    assert!(render_validation("/r", "r", Err("denied".to_string())).contains("denied"));
}

#[test]
fn a_symbols_history_is_that_of_its_files() {
    let symbols = vec![Symbol {
        name: "f".to_string(),
        kind: SymbolKind::Function,
        file_path: "a.c".to_string(),
        start_line: 1,
        end_line: 2,
        signature: None,
        qualified_name: None,
        doc_comment: None,
        confirmed_by: SourceSet::tree_sitter(),
        line_conflicts: Vec::new(),
    }];
    assert_eq!(
        symbol_history_paths("", &symbols, "f", "/r").unwrap(),
        vec!["a.c".to_string()]
    );
    assert!(symbol_history_paths("", &symbols, "missing", "/r").is_err());
    assert_eq!(
        symbol_history_paths("b.c", &symbols, "f", "/r").unwrap(),
        vec!["b.c".to_string()]
    );
    let out = render_symbol_history("log".to_string(), "", &["a.c".to_string()]);
    assert!(out.contains("log"), "{out}");
}
