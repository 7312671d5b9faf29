use yarm::catalog::{
    additional_sources, apply_profile, discover_profiles, find_gitconfig_files,
    find_profile_by_name, get_current_git_config, profile_options, promote_default,
    reorder_profiles_by_context, reorder_profiles_by_rules, resolve_profile_with_context,
    select_profile, ProfileError, Resolution, NO_PROFILES_ERROR,
};
use yarm::environment::Environment;
use yarm::include_if::{IncludeIfRule, ProfileContext};
use yarm::profile::Profile;

fn test_profile(name: &str, user_name: Option<&str>, user_email: Option<&str>) -> Profile {
    Profile {
        name: name.to_string(),
        source: format!("/test/{name}"),
        user_name: user_name.map(String::from),
        user_email: user_email.map(String::from),
        signing_key: None,
        gpg_sign: None,
        gpg_format: None,
        tag_gpg_sign: None,
        is_default: false,
    }
}

fn test_profile_with_source(
    name: &str,
    source: &str,
    user_name: Option<&str>,
    user_email: Option<&str>,
) -> Profile {
    Profile {
        name: name.to_string(),
        source: source.to_string(),
        user_name: user_name.map(String::from),
        user_email: user_email.map(String::from),
        signing_key: None,
        gpg_sign: None,
        gpg_format: None,
        tag_gpg_sign: None,
        is_default: false,
    }
}

fn sample_profiles() -> Vec<Profile> {
    vec![
        test_profile_with_source("work", "/home/user/.gitconfig-work", Some("Work"), Some("w@co.com")),
        test_profile_with_source(".personal", "/home/user/.personal", Some("Me"), Some("me@me.com")),
        test_profile_with_source(
            ".gitconfig-oss",
            "/home/user/.gitconfig-oss",
            Some("OSS"),
            Some("oss@ex.com"),
        ),
        test_profile_with_source("global", "/home/user/.gitconfig", Some("Default"), Some("d@ex.com")),
    ]
}

fn names(v: &Vec<Profile>) -> Vec<String> {
    v.iter().map(|p| p.name.clone()).collect()
}

fn no_env() -> Environment {
    Environment::new(None)
}

#[test]
fn test_find_profile_by_name_exact() {
    let profiles = sample_profiles();
    let found = find_profile_by_name(&profiles, "work").unwrap();
    assert_eq!(found.name, "work");
}

#[test]
fn test_find_profile_by_name_exact_path() {
    let profiles = sample_profiles();
    let found = find_profile_by_name(&profiles, "/home/user/.gitconfig-work").unwrap();
    assert_eq!(found.name, "work");
}

#[test]
fn test_find_profile_by_name_dot_prefix_fallback() {
    let profiles = sample_profiles();
    let found = find_profile_by_name(&profiles, "personal").unwrap();
    assert_eq!(found.name, ".personal");
}

#[test]
fn test_find_profile_by_name_gitconfig_prefix_fallback() {
    let profiles = sample_profiles();
    let found = find_profile_by_name(&profiles, "oss").unwrap();
    assert_eq!(found.name, ".gitconfig-oss");
}

#[test]
fn test_find_profile_by_name_not_found() {
    let profiles = sample_profiles();
    let result = find_profile_by_name(&profiles, "nonexistent");
    assert!(result.is_err());
    let err = result.unwrap_err().message();
    assert!(err.contains("nonexistent"));
    assert!(err.contains("not found"));
}

#[test]
fn test_promote_default_moves_to_front() {
    let profiles = vec![
        test_profile("alpha", Some("A"), Some("a@ex.com")),
        test_profile("beta", Some("B"), Some("b@ex.com")),
        test_profile("gamma", Some("C"), Some("c@ex.com")),
    ];
    let result = promote_default(profiles, Some("gamma"));
    assert_eq!(result[0].name, "gamma");
    assert_eq!(result[1].name, "alpha");
    assert_eq!(result[2].name, "beta");
}

#[test]
fn test_promote_default_none_is_noop() {
    let profiles = vec![
        test_profile("alpha", Some("A"), Some("a@ex.com")),
        test_profile("beta", Some("B"), Some("b@ex.com")),
    ];
    let result = promote_default(profiles, None);
    assert_eq!(result[0].name, "alpha");
    assert_eq!(result[1].name, "beta");
}

#[test]
fn test_promote_default_not_found_is_noop() {
    let profiles = vec![
        test_profile("alpha", Some("A"), Some("a@ex.com")),
        test_profile("beta", Some("B"), Some("b@ex.com")),
    ];
    let result = promote_default(profiles, Some("nonexistent"));
    assert_eq!(result[0].name, "alpha");
    assert_eq!(result[1].name, "beta");
}

#[test]
fn test_promote_default_already_first() {
    let profiles = vec![
        test_profile("alpha", Some("A"), Some("a@ex.com")),
        test_profile("beta", Some("B"), Some("b@ex.com")),
    ];
    let result = promote_default(profiles, Some("alpha"));
    assert_eq!(result[0].name, "alpha");
    assert_eq!(result[1].name, "beta");
}

#[test]
fn test_reorder_by_matching_rules() {
    let profiles = vec![
        test_profile_with_source(
            "personal",
            "/home/user/.gitconfig-personal",
            Some("P"),
            Some("p@ex.com"),
        ),
        test_profile_with_source("work", "/home/user/.gitconfig-work", Some("W"), Some("w@co.com")),
    ];

    let rules = vec![IncludeIfRule {
        condition: "hasconfig:remote.*.url:*company.com*".to_string(),
        target_path: "/home/user/.gitconfig-work".to_string(),
    }];

    let context = ProfileContext {
        target_path: None,
        clone_url: Some("https://company.com/repo.git".to_string()),
    };

    let result = reorder_profiles_by_rules(profiles, &context, &rules, None, &no_env());
    assert_eq!(result[0].name, "work");
    assert_eq!(result[1].name, "personal");
}

#[test]
fn test_reorder_no_matching_rules_falls_back_to_default() {
    let profiles = vec![
        test_profile("alpha", Some("A"), Some("a@ex.com")),
        test_profile("beta", Some("B"), Some("b@ex.com")),
    ];

    let rules = vec![IncludeIfRule {
        condition: "hasconfig:remote.*.url:*nomatch*".to_string(),
        target_path: "/dummy".to_string(),
    }];

    let context = ProfileContext {
        target_path: None,
        clone_url: Some("https://github.com/user/repo.git".to_string()),
    };

    let result = reorder_profiles_by_rules(profiles, &context, &rules, Some("beta"), &no_env());
    assert_eq!(result[0].name, "beta");
    assert_eq!(result[1].name, "alpha");
}

#[test]
fn test_reorder_empty_rules_falls_back_to_default() {
    let profiles = vec![
        test_profile("alpha", Some("A"), Some("a@ex.com")),
        test_profile("beta", Some("B"), Some("b@ex.com")),
    ];

    let context = ProfileContext { target_path: Some("/some/path".to_string()), clone_url: None };

    let result = reorder_profiles_by_rules(profiles, &context, &vec![], Some("beta"), &no_env());
    assert_eq!(result[0].name, "beta");
    assert_eq!(result[1].name, "alpha");
}

#[test]
fn lookup_falls_back_in_order() {
    let profiles = vec![
        test_profile("work", Some("W"), None),
        test_profile(".personal", Some("P"), None),
        test_profile(".gitconfig-oss", Some("O"), None),
    ];
    assert_eq!(find_profile_by_name(&profiles, "personal").unwrap().name, ".personal");
    assert_eq!(find_profile_by_name(&profiles, "oss").unwrap().name, ".gitconfig-oss");
    assert_eq!(find_profile_by_name(&profiles, "work").unwrap().name, "work");
    match find_profile_by_name(&profiles, "none") {
        Err(ProfileError::NotFound { name, available }) => {
            assert_eq!(name, "none");
            assert_eq!(
                available,
                vec!["work".to_string(), ".personal".to_string(), ".gitconfig-oss".to_string()]
            );
        }
        _ => panic!("an unmatched query is an error"),
    }
    let message = find_profile_by_name(&profiles, "none").unwrap_err().message();
    assert_eq!(
        message,
        "Profile 'none' not found. Available profiles: work, .personal, .gitconfig-oss"
    );
}

#[test]
fn an_exact_hit_goes_before_an_earlier_fallback() {
    let profiles = vec![
        test_profile(".x", Some("dot"), None),
        test_profile(".gitconfig-x", Some("dash"), None),
        test_profile("x", Some("plain"), None),
    ];
    assert_eq!(
        find_profile_by_name(&profiles, "x").unwrap().user_name,
        Some("plain".to_string())
    );
}

#[test]
fn the_dot_form_goes_before_the_gitconfig_form() {
    let dash_first = vec![
        test_profile(".gitconfig-x", Some("dash"), None),
        test_profile(".x", Some("dot"), None),
    ];
    assert_eq!(
        find_profile_by_name(&dash_first, "x").unwrap().user_name,
        Some("dot".to_string())
    );
    let dot_first = vec![
        test_profile(".x", Some("dot"), None),
        test_profile(".gitconfig-x", Some("dash"), None),
    ];
    assert_eq!(find_profile_by_name(&dot_first, "x").unwrap().user_name, Some("dot".to_string()));
    let dash_only = vec![
        test_profile("y", Some("other"), None),
        test_profile(".gitconfig-x", Some("dash"), None),
        test_profile(".gitconfig-x", Some("second"), None),
    ];
    assert_eq!(
        find_profile_by_name(&dash_only, "x").unwrap().user_name,
        Some("dash".to_string())
    );
    let by_source = vec![
        test_profile(".x", Some("dot"), None),
        test_profile_with_source("far", "x", Some("source"), None),
    ];
    assert_eq!(
        find_profile_by_name(&by_source, "x").unwrap().user_name,
        Some("source".to_string())
    );
}

#[test]
fn context_reordering_prefers_rules_then_default() {
    let profiles = || {
        vec![
            test_profile_with_source("personal", "/h/.gitconfig-personal", Some("P"), None),
            test_profile_with_source("work", "/h/.gitconfig-work", Some("W"), None),
        ]
    };
    let rules = vec![IncludeIfRule {
        condition: "hasconfig:remote.*.url:*company.com*".to_string(),
        target_path: "/h/.gitconfig-work".to_string(),
    }];
    let hit = ProfileContext {
        target_path: None,
        clone_url: Some("https://company.com/x.git".to_string()),
    };
    let first = reorder_profiles_by_context(profiles(), &hit, &rules, Some("personal"), &no_env());
    assert_eq!(names(&first), vec!["work".to_string(), "personal".to_string()]);
    let miss = ProfileContext {
        target_path: None,
        clone_url: Some("https://elsewhere.org/x.git".to_string()),
    };
    let second = reorder_profiles_by_context(profiles(), &miss, &rules, Some("personal"), &no_env());
    assert_eq!(names(&second), vec!["personal".to_string(), "work".to_string()]);
    let bare = ProfileContext { target_path: None, clone_url: None };
    let always = vec![IncludeIfRule {
        condition: "hasconfig:remote.*.url:*".to_string(),
        target_path: "/h/.gitconfig-work".to_string(),
    }];
    let third = reorder_profiles_by_context(profiles(), &bare, &always, None, &no_env());
    assert_eq!(names(&third), vec!["personal".to_string(), "work".to_string()]);
}

#[test]
fn reordering_keeps_the_order_within_each_group() {
    let profiles = vec![
        test_profile_with_source("a", "/a", Some("A"), None),
        test_profile_with_source("b", "/b", Some("B"), None),
        test_profile_with_source("c", "/c", Some("C"), None),
        test_profile_with_source("d", "/d", Some("D"), None),
    ];
    let rules = vec![
        IncludeIfRule { condition: "gitdir:/repo".to_string(), target_path: "/d".to_string() },
        IncludeIfRule { condition: "gitdir:/other".to_string(), target_path: "/a".to_string() },
        IncludeIfRule { condition: "gitdir:/repo".to_string(), target_path: "/link-b".to_string() },
    ];
    let mut env = Environment::new(None);
    env.record("/link-b".to_string(), "/b".to_string());
    let ctx = ProfileContext { target_path: Some("/repo".to_string()), clone_url: None };
    let result = reorder_profiles_by_rules(profiles, &ctx, &rules, Some("c"), &env);
    assert_eq!(
        names(&result),
        vec!["b".to_string(), "d".to_string(), "a".to_string(), "c".to_string()]
    );
}

#[test]
fn resolving_without_profiles_is_an_error() {
    let ctx = ProfileContext::default();
    let r = resolve_profile_with_context(Some("x"), &ctx, vec![], &vec![], None, &no_env());
    match r {
        Err(e) => {
            assert!(matches!(e, ProfileError::NoProfiles));
            assert_eq!(e.message(), NO_PROFILES_ERROR);
            assert_eq!(
                e.message(),
                "No git profiles found. Configure user.name/user.email in a gitconfig file."
            );
        }
        Ok(_) => panic!("no profile is an error"),
    }
}

#[test]
fn resolving_by_name_looks_into_the_ordered_catalog() {
    let ctx = ProfileContext::default();
    let r = resolve_profile_with_context(
        Some("personal"),
        &ctx,
        sample_profiles(),
        &vec![],
        Some("global"),
        &no_env(),
    );
    match r {
        Ok(Resolution::Chosen(p)) => assert_eq!(p.name, ".personal"),
        _ => panic!("the name finds a profile"),
    }
    let missing = resolve_profile_with_context(
        Some("zzz"),
        &ctx,
        sample_profiles(),
        &vec![],
        Some("global"),
        &no_env(),
    );
    match missing {
        Err(ProfileError::NotFound { name, available }) => {
            assert_eq!(name, "zzz");
            assert_eq!(available[0], "global");
            assert_eq!(available.len(), 4);
        }
        _ => panic!("an unknown name is an error"),
    }
}

#[test]
fn resolving_without_a_name_offers_the_ordered_catalog() {
    let ctx = ProfileContext::default();
    let r = resolve_profile_with_context(
        None,
        &ctx,
        sample_profiles(),
        &vec![],
        Some("global"),
        &no_env(),
    );
    match r {
        Ok(Resolution::Offer(list)) => assert_eq!(
            names(&list),
            vec![
                "global".to_string(),
                "work".to_string(),
                ".personal".to_string(),
                ".gitconfig-oss".to_string()
            ]
        ),
        _ => panic!("without a name the catalog is offered"),
    }
}

#[test]
fn selection_maps_the_chosen_line_back() {
    let list = sample_profiles();
    let options = profile_options(&list, Some("/home/user"));
    assert_eq!(options[1], "Me <me@me.com> (~/.personal)");
    let picked = select_profile(sample_profiles(), Some(options[1].as_str()), Some("/home/user"));
    assert_eq!(picked.unwrap().unwrap().name, ".personal");
    assert!(select_profile(sample_profiles(), None, Some("/home/user")).unwrap().is_none());
    match select_profile(sample_profiles(), Some("nothing such"), Some("/home/user")) {
        Err(e) => {
            assert!(matches!(e, ProfileError::SelectionLost));
            assert_eq!(e.message(), "Failed to find selected profile");
        }
        Ok(_) => panic!("an unknown line is an error"),
    }
}

#[test]
fn catalog_puts_the_active_profile_first_and_marks_the_default() {
    let git_known = vec![
        test_profile_with_source("work", "/w", Some("W"), Some("w@co.com")),
        test_profile_with_source("global", "/g", Some("G"), Some("g@ex.com")),
        test_profile_with_source("alpha", "/a", Some("A"), Some("w@co.com")),
    ];
    let additional = vec![
        test_profile_with_source("zeta", "/z", Some("Z"), Some("w@co.com")),
        test_profile_with_source("beta", "/b", Some("B"), None),
    ];
    let all = discover_profiles(git_known, additional, Some("w@co.com"), Some("beta"));
    assert_eq!(
        names(&all),
        vec![
            "alpha".to_string(),
            "global".to_string(),
            "work".to_string(),
            "beta".to_string(),
            "zeta".to_string()
        ]
    );
    let flags: Vec<bool> = all.iter().map(|p| p.is_default).collect();
    assert_eq!(flags, vec![false, false, false, true, false]);
}

#[test]
fn every_profile_of_the_default_name_is_the_default() {
    let git_known = vec![
        test_profile_with_source("global", "/h/.gitconfig", Some("A"), None),
        test_profile_with_source("global", "/h/.config/git/config", Some("B"), None),
        test_profile_with_source("work", "/h/work.gitconfig", Some("W"), None),
    ];
    let mut stale = test_profile_with_source("old", "/h/old.gitconfig", Some("O"), None);
    stale.is_default = true;
    let additional =
        vec![stale, test_profile_with_source("global", "/x/global", Some("C"), None)];
    let all = discover_profiles(git_known, additional, None, Some("global"));
    let flags: Vec<(String, bool)> = all.iter().map(|p| (p.name.clone(), p.is_default)).collect();
    assert_eq!(
        flags,
        vec![
            ("global".to_string(), true),
            ("global".to_string(), true),
            ("work".to_string(), false),
            ("global".to_string(), true),
            ("old".to_string(), false),
        ]
    );
    for p in all.iter() {
        assert_eq!(p.is_default, p.name == "global");
    }
}

#[test]
fn catalog_without_active_profile_is_git_known_then_additional() {
    let git_known = vec![
        test_profile_with_source("work", "/w", Some("W"), Some("w@co.com")),
        test_profile_with_source("global", "/g", Some("G"), Some("g@ex.com")),
    ];
    let additional = vec![test_profile_with_source("aaa", "/a", Some("A"), Some("x@y.z"))];
    let all = discover_profiles(git_known, additional, Some("x@y.z"), None);
    assert_eq!(names(&all), vec!["global".to_string(), "work".to_string(), "aaa".to_string()]);
    assert!(all.iter().all(|p| !p.is_default));
}

#[test]
fn files_that_git_knows_are_not_read_again() {
    let git_known = vec![test_profile_with_source("work", "/h/.gitconfig-work", Some("W"), None)];
    let files = vec![
        "/h/.gitconfig-oss".to_string(),
        "/h/.gitconfig-work".to_string(),
        "/extra/one".to_string(),
        "/h/.gitconfig-oss".to_string(),
    ];
    assert_eq!(
        additional_sources(&files, &git_known),
        vec!["/h/.gitconfig-oss".to_string(), "/extra/one".to_string()]
    );
}

#[test]
fn gitconfig_files_are_picked_by_their_names() {
    let home_names = vec![
        ".gitconfig".to_string(),
        ".gitconfig-work".to_string(),
        ".gitconfig.oss".to_string(),
        "notes.gitconfig".to_string(),
    ];
    let xdg_names =
        vec!["config".to_string(), "work.gitconfig".to_string(), "ignore".to_string()];
    let extra = vec!["/extra/any".to_string()];
    assert_eq!(
        find_gitconfig_files(Some("/h"), &home_names, &xdg_names, &extra),
        vec![
            "/h/.gitconfig-work".to_string(),
            "/h/.gitconfig.oss".to_string(),
            "/h/.config/git/work.gitconfig".to_string(),
            "/extra/any".to_string(),
        ]
    );
    assert_eq!(
        find_gitconfig_files(None, &home_names, &xdg_names, &extra),
        vec!["/extra/any".to_string()]
    );
}

#[test]
fn applying_writes_only_the_fields_that_are_set() {
    let mut p = test_profile("work", Some("W"), None);
    p.gpg_sign = Some(false);
    p.tag_gpg_sign = Some(true);
    p.gpg_format = Some("ssh".to_string());
    let plan = apply_profile("/repo", true, &p).unwrap();
    assert_eq!(
        plan,
        vec![
            ("user.name".to_string(), "W".to_string()),
            ("gpg.format".to_string(), "ssh".to_string()),
            ("commit.gpgsign".to_string(), "false".to_string()),
            ("tag.gpgsign".to_string(), "true".to_string()),
        ]
    );
    let mut full = test_profile("full", Some("N"), Some("e@x"));
    full.signing_key = Some("K".to_string());
    let keys: Vec<String> =
        apply_profile("/repo", true, &full).unwrap().into_iter().map(|(k, _)| k).collect();
    assert_eq!(
        keys,
        vec!["user.name".to_string(), "user.email".to_string(), "user.signingkey".to_string()]
    );
    assert!(apply_profile("/repo", true, &test_profile("none", None, None)).unwrap().is_empty());
}

#[test]
fn applying_outside_a_repository_fails_fast() {
    let p = test_profile("work", Some("W"), None);
    match apply_profile("/not/a/repo", false, &p) {
        Err(e) => assert_eq!(e.message(), "Not a git repository: /not/a/repo"),
        Ok(_) => panic!("a directory without .git is refused"),
    }
}

#[test]
fn current_value_is_the_trimmed_output() {
    assert_eq!(get_current_git_config("me@ex.com\n"), Some("me@ex.com".to_string()));
    assert_eq!(get_current_git_config("  a b \t\n"), Some("a b".to_string()));
    assert_eq!(get_current_git_config("\n"), None);
    assert_eq!(get_current_git_config(""), None);
}
