//! Tests for search-path splitting, merging and shell-output handling.

use mcpmux_transport::{
    choose_shell, clean_shell_output, join_path, merge_paths, shell_invocation_args,
    shell_resolution_next, split_path, trim_spaces, ShellFlags, ShellStep,
};

#[test]
fn test_merge_paths_deduplicates() {
    let result = merge_paths("/usr/bin:/usr/local/bin", "/usr/bin:/opt/homebrew/bin");
    assert_eq!(result, "/usr/bin:/usr/local/bin:/opt/homebrew/bin");
}

#[test]
fn test_merge_paths_primary_order_preserved() {
    let result = merge_paths("/a:/b:/c", "/d:/b:/e");
    assert_eq!(result, "/a:/b:/c:/d:/e");
}

#[test]
fn test_merge_paths_empty_entries_skipped() {
    let result = merge_paths("/a::/b", ":/c:");
    assert_eq!(result, "/a:/b:/c");
}

#[test]
fn test_merge_paths_empty_secondary() {
    let result = merge_paths("/a:/b", "");
    assert_eq!(result, "/a:/b");
}

#[test]
fn test_merge_paths_empty_primary() {
    let result = merge_paths("", "/a:/b");
    assert_eq!(result, "/a:/b");
}

#[test]
fn test_merge_paths_both_empty() {
    let result = merge_paths("", "");
    assert_eq!(result, "");
}

#[test]
fn test_merge_paths_identical() {
    let result = merge_paths("/a:/b:/c", "/a:/b:/c");
    assert_eq!(result, "/a:/b:/c");
}

#[test]
fn test_merge_paths_many_duplicates() {
    let result = merge_paths("/a:/b:/c:/d", "/d:/c:/b:/a:/e");
    assert_eq!(result, "/a:/b:/c:/d:/e");
}

#[test]
fn test_split_and_join_round_trip() {
    let parts = split_path("/a:/b:/c");
    assert_eq!(parts, vec!["/a".to_string(), "/b".to_string(), "/c".to_string()]);
    assert_eq!(join_path(&parts), "/a:/b:/c");
}

#[test]
fn test_split_path_empty_segments_kept() {
    let parts = split_path(":/a:");
    assert_eq!(parts, vec!["".to_string(), "/a".to_string(), "".to_string()]);
}

#[test]
fn test_trim_spaces_strips_newlines() {
    assert_eq!(trim_spaces("  /usr/bin:/bin\n"), "/usr/bin:/bin");
    assert_eq!(trim_spaces("\t\r\n "), "");
    assert_eq!(trim_spaces("inner space kept"), "inner space kept");
}

#[test]
fn test_clean_shell_output_empty_is_none() {
    assert_eq!(clean_shell_output(""), None);
    assert_eq!(clean_shell_output(" \n"), None);
    assert_eq!(clean_shell_output("/bin\n"), Some("/bin".to_string()));
}

#[test]
fn test_choose_shell_falls_back() {
    assert_eq!(choose_shell(Some("/bin/zsh".to_string())), "/bin/zsh");
    assert_eq!(choose_shell(None), "/bin/sh");
}

#[test]
fn test_shell_invocation_args_flag_sets() {
    let interactive = shell_invocation_args(ShellFlags::LoginInteractive);
    assert_eq!(interactive, vec!["-l", "-i", "-c", "printf \"%s\" \"$PATH\""]);
    let login_only = shell_invocation_args(ShellFlags::LoginOnly);
    assert_eq!(login_only, vec!["-l", "-c", "printf \"%s\" \"$PATH\""]);
}

#[test]
fn test_shell_resolution_success_merges_ambient() {
    let step = shell_resolution_next(
        ShellFlags::LoginInteractive,
        Some("/opt/homebrew/bin:/usr/bin\n"),
        "/usr/bin:/bin",
    );
    match step {
        ShellStep::Resolved(path) => {
            assert_eq!(path, "/opt/homebrew/bin:/usr/bin:/bin");
        }
        _ => panic!("expected a resolved path"),
    }
}

#[test]
fn test_shell_resolution_retries_login_only() {
    let step = shell_resolution_next(ShellFlags::LoginInteractive, None, "/usr/bin");
    assert!(matches!(step, ShellStep::Retry(ShellFlags::LoginOnly)));
    let empty = shell_resolution_next(ShellFlags::LoginInteractive, Some("\n"), "/usr/bin");
    assert!(matches!(empty, ShellStep::Retry(ShellFlags::LoginOnly)));
}

#[test]
fn test_shell_resolution_falls_back_to_ambient() {
    let step = shell_resolution_next(ShellFlags::LoginOnly, None, "/usr/bin");
    assert!(matches!(step, ShellStep::Ambient));
}
