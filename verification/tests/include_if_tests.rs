use yarm::environment::Environment;
use yarm::include_if::{
    parse_include_if_from_file, parse_include_if_rules, IncludeIfRule, ProfileContext,
};

fn rule(condition: &str, target: &str) -> IncludeIfRule {
    IncludeIfRule { condition: condition.to_string(), target_path: target.to_string() }
}

fn no_env() -> Environment {
    Environment::new(None)
}

#[test]
fn test_include_if_rule_url_match() {
    let rule = rule("hasconfig:remote.*.url:*github.com/mycompany/*", "/test");

    let matching_context = ProfileContext {
        target_path: None,
        clone_url: Some("https://github.com/mycompany/project.git".to_string()),
    };
    assert!(rule.matches(&matching_context, &no_env()));

    let non_matching_context = ProfileContext {
        target_path: None,
        clone_url: Some("https://github.com/other/project.git".to_string()),
    };
    assert!(!rule.matches(&non_matching_context, &no_env()));
}

#[test]
fn test_matches_gitdir_directory_prefix() {
    let rule = rule("gitdir:/tmp/yarm-test-gitdir-prefix/work/", "/dummy");
    let ctx = ProfileContext {
        target_path: Some("/tmp/yarm-test-gitdir-prefix/work/project".to_string()),
        clone_url: None,
    };
    assert!(rule.matches(&ctx, &no_env()));
}

#[test]
fn test_matches_gitdir_directory_prefix_no_match() {
    let rule = rule("gitdir:/tmp/yarm-test-gitdir-prefix-no/work/", "/dummy");
    let ctx = ProfileContext {
        target_path: Some("/tmp/yarm-test-gitdir-prefix-no/personal/project".to_string()),
        clone_url: None,
    };
    assert!(!rule.matches(&ctx, &no_env()));
}

#[test]
fn test_matches_gitdir_case_insensitive() {
    let rule = rule("gitdir/i:/tmp/yarm-test-gitdir-case/work/", "/dummy");
    let ctx = ProfileContext {
        target_path: Some("/tmp/yarm-test-gitdir-case/Work/project".to_string()),
        clone_url: None,
    };
    assert!(rule.matches(&ctx, &no_env()));
}

#[test]
fn test_matches_gitdir_no_target_path() {
    let rule = rule("gitdir:/some/path/", "/dummy");
    let ctx = ProfileContext { target_path: None, clone_url: None };
    assert!(!rule.matches(&ctx, &no_env()));
}

#[test]
fn test_matches_url_no_clone_url() {
    let rule = rule("hasconfig:remote.*.url:*github.com*", "/dummy");
    let ctx = ProfileContext { target_path: None, clone_url: None };
    assert!(!rule.matches(&ctx, &no_env()));
}

#[test]
fn test_matches_unknown_condition() {
    let rule = rule("onbranch:main", "/dummy");
    let ctx = ProfileContext {
        target_path: Some("/some/path".to_string()),
        clone_url: Some("https://github.com/user/repo".to_string()),
    };
    assert!(!rule.matches(&ctx, &no_env()));
}

#[test]
fn test_matches_gitdir_double_star_suffix() {
    let rule = rule("gitdir:/tmp/yarm-test-gitdir-dstar/work/**", "/dummy");
    let ctx = ProfileContext {
        target_path: Some("/tmp/yarm-test-gitdir-dstar/work/deep/project".to_string()),
        clone_url: None,
    };
    assert!(rule.matches(&ctx, &no_env()));
}

#[test]
fn test_parse_include_if_from_file_basic() {
    let content = "[includeIf \"gitdir:~/work/\"]
\tpath = ~/.config/git/work.gitconfig
[includeIf \"hasconfig:remote.*.url:*github.com/company/*\"]
\tpath = ~/.config/git/company.gitconfig
[user]
\tname = Default
";
    let rules = parse_include_if_from_file(content, Some("/home/u"));
    assert_eq!(rules.len(), 2);
    assert_eq!(rules[0].condition, "gitdir:~/work/");
    assert_eq!(rules[1].condition, "hasconfig:remote.*.url:*github.com/company/*");
    assert_eq!(rules[0].target_path, "/home/u/.config/git/work.gitconfig");
    assert_eq!(rules[1].target_path, "/home/u/.config/git/company.gitconfig");
}

#[test]
fn test_parse_include_if_from_file_no_rules() {
    let rules = parse_include_if_from_file("[user]\n\tname = Test\n", None);
    assert!(rules.is_empty());
}

#[test]
fn test_parse_include_if_from_file_nonexistent() {
    let rules = parse_include_if_from_file("", None);
    assert!(rules.is_empty());
    let of_no_file = parse_include_if_rules(&vec![], None);
    assert!(of_no_file.is_empty());
}

#[test]
fn context_new_sets_the_path() {
    let c = ProfileContext::new("/r".to_string(), Some("u".to_string()));
    assert_eq!(c.target_path, Some("/r".to_string()));
    assert_eq!(c.clone_url, Some("u".to_string()));
    let d = ProfileContext::default();
    assert_eq!(d.target_path, None);
    assert_eq!(d.clone_url, None);
}

#[test]
fn a_block_is_closed_by_any_other_header() {
    let content = "[includeIf \"gitdir:/a/\"]\n[core]\npath = /lost\n[includeIf \"gitdir:/b/\"]\n  path=/kept \npath   =   /too\npathology = /odd\n[includeIf \"]\npath = /closed\n";
    let rules = parse_include_if_from_file(content, None);
    let got: Vec<(String, String)> =
        rules.iter().map(|r| (r.condition.clone(), r.target_path.clone())).collect();
    assert_eq!(
        got,
        vec![
            ("gitdir:/b/".to_string(), "/kept".to_string()),
            ("gitdir:/b/".to_string(), "/too".to_string()),
        ]
    );
}

#[test]
fn rules_of_several_files_follow_each_other() {
    let a = "[includeIf \"gitdir:/a/\"]\npath = /one\n".to_string();
    let b = "[includeIf \"gitdir:/b/\"]\npath = ~/two\n".to_string();
    let rules = parse_include_if_rules(&vec![a, b], Some("/h"));
    assert_eq!(rules.len(), 2);
    assert_eq!(rules[0].target_path, "/one");
    assert_eq!(rules[1].target_path, "/h/two");
}

#[test]
fn gitdir_pattern_is_expanded_and_resolved() {
    let mut env = Environment::new(Some("/home/u".to_string()));
    env.record("/home/u/work/".to_string(), "/mnt/disk/work".to_string());
    env.record("/home/u/work/p".to_string(), "/mnt/disk/work/p".to_string());
    let r = rule("gitdir:~/work/", "/dummy");
    let inside = ProfileContext { target_path: Some("/home/u/work/p".to_string()), clone_url: None };
    assert!(r.matches(&inside, &env));
    let literal = ProfileContext { target_path: Some("/home/u/work/q".to_string()), clone_url: None };
    assert!(!r.matches(&literal, &env));
    assert_eq!(env.canonical("/home/u/work/"), "/mnt/disk/work");
    assert_eq!(env.canonical("/nowhere"), "/nowhere");
}

#[test]
fn gitdir_without_star_or_slash_must_be_equal() {
    let r = rule("gitdir:/a/b", "/dummy");
    let same = ProfileContext { target_path: Some("/a/b".to_string()), clone_url: None };
    let below = ProfileContext { target_path: Some("/a/b/c".to_string()), clone_url: None };
    assert!(r.matches(&same, &no_env()));
    assert!(!r.matches(&below, &no_env()));
    let g = rule("gitdir:/a/*/c", "/dummy");
    let hit = ProfileContext { target_path: Some("/a/b/c".to_string()), clone_url: None };
    assert!(g.matches(&hit, &no_env()));
    assert!(!g.matches(&same, &no_env()));
}

#[test]
fn gitdir_prefix_is_a_prefix_of_text() {
    let r = rule("gitdir:/a/work/", "/dummy");
    let sibling = ProfileContext { target_path: Some("/a/workshop".to_string()), clone_url: None };
    assert!(r.matches(&sibling, &no_env()));
}

#[test]
fn static_matchers_agree_with_the_rule() {
    let ctx = ProfileContext {
        target_path: Some("/A/B".to_string()),
        clone_url: Some("https://h/x".to_string()),
    };
    assert!(IncludeIfRule::matches_gitdir("/a/b", &ctx, true, &no_env()));
    assert!(!IncludeIfRule::matches_gitdir("/a/b", &ctx, false, &no_env()));
    assert!(IncludeIfRule::matches_url("https://*", &ctx));
    assert!(!IncludeIfRule::matches_url("http://*", &ctx));
}
