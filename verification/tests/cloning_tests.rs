use yarm::cloning::{
    clone_target, derive_target_from_url, extract_percent, extract_repo_display_name,
    is_progress_stage, parse_git_progress, progress_message, ProgressReader,
};

#[test]
fn test_derive_target_from_url_https() {
    assert_eq!(derive_target_from_url("https://github.com/owner/repo.git"), "repo".to_string());
}

#[test]
fn test_derive_target_from_url_ssh() {
    assert_eq!(derive_target_from_url("git@github.com:owner/repo.git"), "repo".to_string());
}

#[test]
fn test_derive_target_from_url_no_extension() {
    assert_eq!(derive_target_from_url("https://github.com/owner/repo"), "repo".to_string());
}

#[test]
fn test_extract_repo_display_name_https() {
    assert_eq!(
        extract_repo_display_name("https://github.com/rust-lang/cargo.git"),
        "rust-lang/cargo"
    );
}

#[test]
fn test_extract_repo_display_name_ssh() {
    assert_eq!(
        extract_repo_display_name("git@github.com:rust-lang/cargo.git"),
        "rust-lang/cargo"
    );
}

#[test]
fn test_parse_git_progress_remote_stage() {
    assert_eq!(
        parse_git_progress("remote: Enumerating objects: 123, done."),
        Some(("Enumerating objects".to_string(), None))
    );
}

#[test]
fn test_parse_git_progress_direct_stage_with_percent() {
    assert_eq!(
        parse_git_progress("Receiving objects:  45% (55/123)"),
        Some(("Receiving objects".to_string(), Some(45)))
    );
}

#[test]
fn test_parse_git_progress_resolving_deltas_complete() {
    assert_eq!(
        parse_git_progress("Resolving deltas: 100% (50/50), done."),
        Some(("Resolving deltas".to_string(), Some(100)))
    );
}

#[test]
fn test_parse_git_progress_remote_with_percent() {
    assert_eq!(
        parse_git_progress("remote: Counting objects: 75% (90/120)"),
        Some(("Counting objects".to_string(), Some(75)))
    );
}

#[test]
fn test_parse_git_progress_non_stage_line() {
    assert_eq!(parse_git_progress("fatal: repository not found"), None);
}

#[test]
fn test_parse_git_progress_empty_line() {
    assert_eq!(parse_git_progress(""), None);
}

#[test]
fn display_name_of_a_bare_name_is_the_name() {
    assert_eq!(extract_repo_display_name("repo.git"), "repo");
    assert_eq!(extract_repo_display_name("dir/repo"), "repo");
    assert_eq!(extract_repo_display_name("repo.git.git"), "repo");
}

#[test]
fn clone_target_prefers_the_given_path() {
    assert_eq!(clone_target("https://h/o/r.git", Some("elsewhere")), "elsewhere");
    assert_eq!(clone_target("https://h/o/r.git", None), "r");
}

#[test]
fn progress_stage_names_are_exact() {
    for s in [
        "Cloning into",
        "Enumerating objects",
        "Counting objects",
        "Compressing objects",
        "Receiving objects",
        "Resolving deltas",
        "Updating files",
    ]
    .iter()
    {
        assert!(is_progress_stage(s));
    }
    assert!(!is_progress_stage("receiving objects"));
    assert!(!is_progress_stage(""));
}

#[test]
fn percent_is_a_byte_before_the_percent_sign() {
    assert_eq!(extract_percent(" 45% (55/123)"), Some(45));
    assert_eq!(extract_percent("100% (50/50), done."), Some(100));
    assert_eq!(extract_percent("0%"), Some(0));
    assert_eq!(extract_percent("255%"), Some(255));
    assert_eq!(extract_percent("256%"), None);
    assert_eq!(extract_percent("99999999999999999999%"), None);
    assert_eq!(extract_percent("+7%"), Some(7));
    assert_eq!(extract_percent("007%"), Some(7));
    assert_eq!(extract_percent("-7%"), None);
    assert_eq!(extract_percent("%"), None);
    assert_eq!(extract_percent("+%"), None);
    assert_eq!(extract_percent("4 5%"), None);
    assert_eq!(extract_percent("no percent"), None);
}

#[test]
fn progress_message_names_stage_and_percent() {
    assert_eq!(
        progress_message("Receiving objects", Some(45)),
        "Cloning repository [Receiving objects: 45%]..."
    );
    assert_eq!(progress_message("Cloning into", None), "Cloning repository [Cloning into]...");
}

#[test]
fn progress_reader_splits_on_line_ends_and_keeps_the_rest() {
    let mut reader = ProgressReader::new();
    let first = reader.feed("Receiving objects:  10% (1/10)\rReceiving obj");
    assert_eq!(first, vec!["Cloning repository [Receiving objects: 10%]...".to_string()]);
    assert_eq!(reader.line, "Receiving obj");
    let second = reader.feed("ects:  20% (2/10)\r\nfatal: nothing\nResolving deltas: done");
    assert_eq!(second, vec!["Cloning repository [Receiving objects: 20%]...".to_string()]);
    assert_eq!(reader.line, "Resolving deltas: done");
    let third = reader.feed("\n");
    assert_eq!(third, vec!["Cloning repository [Resolving deltas]...".to_string()]);
    assert_eq!(reader.line, "");
}
