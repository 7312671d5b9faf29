use yarm::config::{Config, ProfilesConfig, RepositoriesConfig};
use yarm::paths::{expand_tilde, format_home_path, join_paths, path_is_under, file_name_of};

#[test]
fn test_empty_config() {
    let config = Config::default();
    assert!(config.profiles.default.is_none());
    assert!(config.profiles.paths.is_empty());
    assert!(config.repositories.pools.is_empty());
}

#[test]
fn test_config_with_paths() {
    let config = Config {
        profiles: ProfilesConfig {
            default: None,
            paths: vec!["/custom/path".to_string(), "~/gitconfigs".to_string()],
        },
        repositories: RepositoriesConfig::default(),
    };
    assert_eq!(config.profiles.paths.len(), 2);
    assert_eq!(config.profiles.paths[0], "/custom/path");
    assert_eq!(config.profiles.paths[1], "~/gitconfigs");
}

#[test]
fn test_profile_paths_expansion() {
    let config = Config {
        profiles: ProfilesConfig { default: None, paths: vec!["/absolute/path".to_string()] },
        repositories: RepositoriesConfig::default(),
    };
    let paths = config.profile_paths(Some("/home/u"));
    assert_eq!(paths[0], "/absolute/path".to_string());
}

#[test]
fn test_config_with_default() {
    let config = Config {
        profiles: ProfilesConfig { default: Some("work".to_string()), paths: vec![] },
        repositories: RepositoriesConfig::default(),
    };
    assert_eq!(config.profiles.default.as_deref(), Some("work"));
    assert_eq!(config.default_profile(), Some("work"));
}

#[test]
fn test_config_with_pools() {
    let config = Config {
        profiles: ProfilesConfig::default(),
        repositories: RepositoriesConfig {
            pools: vec!["~/projects".to_string(), "/work/repos".to_string()],
            exclude: vec![],
            max_depth: None,
        },
    };
    assert_eq!(config.repositories.pools.len(), 2);
    let paths = config.pool_paths(Some("/home/u"));
    assert_eq!(paths[1], "/work/repos".to_string());
    assert_eq!(paths[0], "/home/u/projects".to_string());
}

#[test]
fn test_expand_tilde_absolute() {
    assert_eq!(expand_tilde("/absolute/path", Some("/home/u")), "/absolute/path".to_string());
}

#[test]
fn test_expand_tilde_with_home() {
    let expanded = expand_tilde("~/some/path", Some("/home/u"));
    assert_eq!(expanded, "/home/u/some/path");
}

#[test]
fn tilde_is_only_expanded_at_the_front_and_with_a_home() {
    assert_eq!(expand_tilde("~/x", None), "~/x");
    assert_eq!(expand_tilde("~", Some("/h")), "~");
    assert_eq!(expand_tilde("~x/y", Some("/h")), "~x/y");
    assert_eq!(expand_tilde("a/~/b", Some("/h")), "a/~/b");
    assert_eq!(expand_tilde("~/", Some("/h")), "/h/");
    assert_eq!(expand_tilde("~/x", Some("/h/")), "/h/x");
    assert_eq!(expand_tilde("~//abs", Some("/h")), "/abs");
    assert_eq!(expand_tilde("~/x", Some("")), "x");
}

#[test]
fn joining_puts_one_separator_between() {
    assert_eq!(join_paths("/a", "b"), "/a/b");
    assert_eq!(join_paths("/a/", "b"), "/a/b");
    assert_eq!(join_paths("", "b"), "b");
    assert_eq!(join_paths("/a", "/b"), "/b");
    assert_eq!(join_paths("/a", ""), "/a/");
}

#[test]
fn home_display_goes_by_components() {
    assert_eq!(format_home_path("/home/u/x/y", Some("/home/u")), "~/x/y");
    assert_eq!(format_home_path("/home/u", Some("/home/u")), "~/");
    assert_eq!(format_home_path("/home/user2/x", Some("/home/u")), "/home/user2/x");
    assert_eq!(format_home_path("/home/u/x", None), "/home/u/x");
    assert_eq!(format_home_path("/home/u/x", Some("/home/u/")), "~/x");
    assert_eq!(format_home_path("relative/x", Some("/home/u")), "relative/x");
}

#[test]
fn lying_under_a_directory_goes_by_components() {
    assert!(path_is_under("/w/a/b", "/w/a"));
    assert!(path_is_under("/w/a", "/w/a"));
    assert!(!path_is_under("/w/ab", "/w/a"));
    assert!(!path_is_under("/w", "/w/a"));
    assert!(path_is_under("/w//a/./b", "/w/a/"));
}

#[test]
fn file_name_is_the_last_name() {
    assert_eq!(file_name_of("/a/b.txt"), Some("b.txt".to_string()));
    assert_eq!(file_name_of("/a/b/"), Some("b".to_string()));
    assert_eq!(file_name_of("/a/b/."), Some("b".to_string()));
    assert_eq!(file_name_of("/a/b/.."), None);
    assert_eq!(file_name_of("/"), None);
    assert_eq!(file_name_of(""), None);
    assert_eq!(file_name_of("."), None);
    assert_eq!(file_name_of("x"), Some("x".to_string()));
}

#[test]
fn config_paths_are_expanded_in_order() {
    let config = Config {
        profiles: ProfilesConfig {
            default: None,
            paths: vec!["~/a".to_string(), "/b".to_string(), "~c".to_string()],
        },
        repositories: RepositoriesConfig { pools: vec![], exclude: vec![], max_depth: Some(3) },
    };
    assert_eq!(
        config.profile_paths(Some("/h")),
        vec!["/h/a".to_string(), "/b".to_string(), "~c".to_string()]
    );
    assert_eq!(
        config.profile_paths(None),
        vec!["~/a".to_string(), "/b".to_string(), "~c".to_string()]
    );
    assert!(config.pool_paths(Some("/h")).is_empty());
    assert_eq!(config.repositories.max_depth, Some(3));
    assert_eq!(config.default_profile(), None);
}
