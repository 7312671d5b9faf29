use yarm::apply::{
    applied_message, applied_to_message, display_path, pool_repositories, run, ApplyTarget,
};
use yarm::git::{current_branch, format_error, is_dirty, remotes, set_config, set_config_succeeded};
use yarm::profile::Profile;

#[test]
fn test_format_error_with_message() {
    let result = format_error("Clone failed", "fatal: repository not found");
    assert!(result.contains("Clone failed"));
    assert!(result.contains("fatal: repository not found"));
}

#[test]
fn test_format_error_empty_stderr() {
    let result = format_error("Clone failed", "");
    assert!(result.contains("Clone failed"));
    assert!(!result.contains("\n\n"));
}

#[test]
fn test_format_error_multiline() {
    let result = format_error("Clone failed", "line1\nline2\nline3");
    assert!(result.contains("line1"));
    assert!(result.contains("line2"));
    assert!(result.contains("line3"));
}

#[test]
fn error_report_indents_every_line() {
    assert_eq!(format_error("H", "  a\r\nb\n\n c \n\n"), "H\n\n    a\n    b\n    \n     c");
    assert_eq!(format_error("H", " \n\t"), "H");
}

#[test]
fn remotes_are_the_fetch_lines() {
    let out = "origin\thttps://h/o/r.git (fetch)\norigin\thttps://h/o/r.git (push)\nup\tgit@h:o/r (fetch)\nbroken (fetch)\n";
    assert_eq!(
        remotes(out),
        vec![
            ("origin".to_string(), "https://h/o/r.git".to_string()),
            ("up".to_string(), "git@h:o/r".to_string()),
        ]
    );
    assert!(remotes("").is_empty());
}

#[test]
fn config_arguments_depend_on_the_kind_of_path() {
    assert_eq!(
        set_config("/repo", true, "user.name", Some("N")),
        vec!["-C", "/repo", "config", "--local", "user.name", "N"]
    );
    assert_eq!(
        set_config("/f", false, "user.email", None),
        vec!["config", "--file", "/f", "--unset", "user.email"]
    );
}

#[test]
fn unsetting_a_missing_key_is_no_failure() {
    assert!(set_config_succeeded(false, Some(0)));
    assert!(set_config_succeeded(true, Some(0)));
    assert!(set_config_succeeded(true, Some(5)));
    assert!(!set_config_succeeded(false, Some(5)));
    assert!(!set_config_succeeded(true, Some(1)));
    assert!(!set_config_succeeded(true, None));
}

#[test]
fn branch_and_dirt_are_read_from_the_output() {
    assert_eq!(current_branch("main\n"), "main");
    assert!(is_dirty(" M file\n"));
    assert!(!is_dirty(""));
}

#[test]
fn apply_goes_to_a_pool_before_a_repository() {
    let r = run(Some("repo"), Some("work"), Some("pool"));
    assert_eq!(r.profile_name, Some("work".to_string()));
    match r.target {
        ApplyTarget::Pool(p) => assert_eq!(p, "pool"),
        _ => panic!("the pool goes first"),
    }
    match run(Some("repo"), None, None).target {
        ApplyTarget::Repository(n) => assert_eq!(n, "repo"),
        _ => panic!("a name is a repository"),
    }
    let bare = run(None, None, None);
    assert!(matches!(bare.target, ApplyTarget::WorkingDirectory));
    assert_eq!(bare.profile_name, None);
}

#[test]
fn pool_holds_the_repositories_below_it() {
    let repos = vec!["/w/a".to_string(), "/wx/b".to_string(), "/w/c/d".to_string(), "/w".to_string()];
    assert_eq!(
        pool_repositories(&repos, "/w"),
        vec!["/w/a".to_string(), "/w/c/d".to_string(), "/w".to_string()]
    );
}

#[test]
fn applied_messages_name_profile_and_count() {
    let p = Profile {
        name: "work".to_string(),
        source: "/s".to_string(),
        user_name: Some("W".to_string()),
        user_email: None,
        signing_key: None,
        gpg_sign: None,
        gpg_format: None,
        tag_gpg_sign: Some(true),
        is_default: false,
    };
    assert_eq!(applied_message(&p), "Applied profile 'work' (W, Sign tags: enabled)");
    assert_eq!(
        applied_to_message(&p, 1),
        "Applied profile 'work' (W, Sign tags: enabled) to 1 repository"
    );
    assert_eq!(
        applied_to_message(&p, 12),
        "Applied profile 'work' (W, Sign tags: enabled) to 12 repositories"
    );
}

#[test]
fn target_is_shown_by_its_canonical_name() {
    assert_eq!(display_path(Some("/home/u/proj"), "."), "proj");
    assert_eq!(display_path(Some("/"), "."), ".");
    assert_eq!(display_path(None, "./x"), "./x");
}
