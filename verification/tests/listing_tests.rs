use yarm::listing::{
    derive_profile_name, parse_bool, parse_config_line, parse_git_config_output,
    parse_gitconfig_listing, parse_lowered_bool, ProfileFields,
};

#[test]
fn test_parse_config_line() {
    let line = "file:/Users/test/.gitconfig\tuser.name=Test User";
    let result = parse_config_line(line);

    assert!(result.is_some());
    let (source, key, value) = result.unwrap();
    assert_eq!(source, "/Users/test/.gitconfig".to_string());
    assert_eq!(key, "user.name");
    assert_eq!(value, "Test User");
}

#[test]
fn test_parse_config_line_with_equals_in_value() {
    let line = "file:/Users/test/.gitconfig\tcore.editor=code --wait";
    let result = parse_config_line(line);

    assert!(result.is_some());
    let (_, key, value) = result.unwrap();
    assert_eq!(key, "core.editor");
    assert_eq!(value, "code --wait");
}

#[test]
fn test_parse_config_line_preserves_equals_in_value() {
    let line = "file:/Users/test/.gitconfig\tcore.sshCommand=ssh -o SendEnv=GIT_PROTOCOL";
    let (_, key, value) = parse_config_line(line).unwrap();
    assert_eq!(key, "core.sshCommand");
    assert_eq!(value, "ssh -o SendEnv=GIT_PROTOCOL");
}

#[test]
fn test_derive_profile_name_gitconfig() {
    assert_eq!(derive_profile_name("/Users/test/.gitconfig"), "global");
}

#[test]
fn test_derive_profile_name_named() {
    assert_eq!(derive_profile_name("/Users/test/.config/git/work.gitconfig"), "work");
}

#[test]
fn test_derive_profile_name_local() {
    assert_eq!(derive_profile_name("/project/.git/config"), "local");
}

#[test]
fn test_parse_git_config_output() {
    let output = "file:/Users/test/.gitconfig\tuser.name=Default User
file:/Users/test/.gitconfig\tuser.email=default@example.com
file:/Users/test/.config/git/work.gitconfig\tuser.name=Work User
file:/Users/test/.config/git/work.gitconfig\tuser.email=work@company.com
file:/Users/test/.config/git/work.gitconfig\tcommit.gpgsign=true";

    let profiles = parse_git_config_output(output);

    assert_eq!(profiles.len(), 2);

    assert_eq!(profiles[0].name, "global");
    assert_eq!(profiles[0].user_name, Some("Default User".to_string()));
    assert_eq!(profiles[0].user_email, Some("default@example.com".to_string()));

    assert_eq!(profiles[1].name, "work");
    assert_eq!(profiles[1].user_name, Some("Work User".to_string()));
    assert_eq!(profiles[1].user_email, Some("work@company.com".to_string()));
    assert_eq!(profiles[1].gpg_sign, Some(true));
}

#[test]
fn test_parse_git_config_output_skips_files_without_user_config() {
    let output = "file:/Users/test/.gitconfig\tcore.editor=vim
file:/Users/test/.gitconfig\tcore.pager=less";

    let profiles = parse_git_config_output(output);
    assert!(profiles.is_empty());
}

#[test]
fn test_parse_git_config_output_last_value_wins() {
    let output = "file:/Users/test/.gitconfig\tuser.name=First
file:/Users/test/.gitconfig\tuser.name=Second";

    let profiles = parse_git_config_output(output);
    assert_eq!(profiles.len(), 1);
    assert_eq!(profiles[0].user_name, Some("Second".to_string()));
}

#[test]
fn test_parse_bool() {
    assert_eq!(parse_bool("true"), Some(true));
    assert_eq!(parse_bool("True"), Some(true));
    assert_eq!(parse_bool("yes"), Some(true));
    assert_eq!(parse_bool("on"), Some(true));
    assert_eq!(parse_bool("1"), Some(true));

    assert_eq!(parse_bool("false"), Some(false));
    assert_eq!(parse_bool("False"), Some(false));
    assert_eq!(parse_bool("no"), Some(false));
    assert_eq!(parse_bool("off"), Some(false));
    assert_eq!(parse_bool("0"), Some(false));

    assert_eq!(parse_bool("invalid"), None);
}

#[test]
fn test_derive_profile_name_gitconfig_dash_prefix() {
    assert_eq!(derive_profile_name("/home/user/.gitconfig-work"), ".gitconfig-work");
}

#[test]
fn test_derive_profile_name_gitconfig_dot_prefix() {
    assert_eq!(derive_profile_name("/home/user/.gitconfig.personal"), ".gitconfig.personal");
}

#[test]
fn test_derive_profile_name_xdg_config() {
    assert_eq!(derive_profile_name("/home/user/.config/git/config"), "global");
}

#[test]
fn test_derive_profile_name_bare_file() {
    assert_eq!(derive_profile_name("/custom/profiles/myprofile"), "myprofile");
}

#[test]
fn lowered_bool_knows_eight_words() {
    for w in ["true", "yes", "on", "1"].iter() {
        assert_eq!(parse_lowered_bool(w), Some(true));
    }
    for w in ["false", "no", "off", "0"].iter() {
        assert_eq!(parse_lowered_bool(w), Some(false));
    }
    for w in ["", "True", "2", "y", " true"].iter() {
        assert_eq!(parse_lowered_bool(w), None);
    }
}

#[test]
fn parse_bool_ignores_case() {
    assert_eq!(parse_bool("TRUE"), Some(true));
    assert_eq!(parse_bool("oFF"), Some(false));
    assert_eq!(parse_bool("YES"), Some(true));
    assert_eq!(parse_bool("tru"), None);
}

#[test]
fn profile_name_strips_suffixes_again_and_again() {
    assert_eq!(derive_profile_name("/p/work.gitconfig.gitconfig"), "work");
    assert_eq!(derive_profile_name("/p/work.git"), "work");
    assert_eq!(derive_profile_name("/p/work.git.gitconfig"), "work");
    assert_eq!(derive_profile_name("/p/work.gitconfig.git"), "work.gitconfig");
    assert_eq!(derive_profile_name("/p/q/"), "q");
}

#[test]
fn profile_name_without_a_file_name_is_unknown() {
    assert_eq!(derive_profile_name("/"), "unknown");
    assert_eq!(derive_profile_name(""), "unknown");
    assert_eq!(derive_profile_name("/a/.."), "unknown");
}

#[test]
fn profile_name_of_a_bare_global_file_is_global() {
    assert_eq!(derive_profile_name(".gitconfig"), "global");
    assert_eq!(derive_profile_name("config"), "global");
    assert_eq!(derive_profile_name("/x/git/config"), "global");
    assert_eq!(derive_profile_name(".git/config"), "local");
    assert_eq!(derive_profile_name("../config"), "global");
}

#[test]
fn config_line_needs_tab_origin_and_equals() {
    assert_eq!(parse_config_line("file:/a user.name=x"), None);
    assert_eq!(parse_config_line("blob:/a\tuser.name=x"), None);
    assert_eq!(parse_config_line("file:/a\tuser.name"), None);
    assert_eq!(
        parse_config_line("file:/a\t=x"),
        Some(("/a".to_string(), "".to_string(), "x".to_string()))
    );
    assert_eq!(
        parse_config_line("file:/a\tk=v\tw=z"),
        Some(("/a".to_string(), "k".to_string(), "v\tw=z".to_string()))
    );
}

#[test]
fn fields_apply_replaces_known_keys_only() {
    let mut f = ProfileFields::default();
    assert!(!f.has_user_config());
    f.apply("core.editor", "vim".to_string());
    assert!(!f.has_user_config());
    f.apply("user.signingkey", "K1".to_string());
    f.apply("gpg.format", "ssh".to_string());
    f.apply("commit.gpgsign", "Yes".to_string());
    f.apply("tag.gpgsign", "off".to_string());
    assert!(!f.has_user_config());
    f.apply("user.email", "a@b.c".to_string());
    assert!(f.has_user_config());
    f.apply("commit.gpgsign", "maybe".to_string());
    let p = f.into_profile("/h/.gitconfig-a".to_string());
    assert_eq!(p.name, ".gitconfig-a");
    assert_eq!(p.source, "/h/.gitconfig-a");
    assert_eq!(p.user_name, None);
    assert_eq!(p.user_email, Some("a@b.c".to_string()));
    assert_eq!(p.signing_key, Some("K1".to_string()));
    assert_eq!(p.gpg_format, Some("ssh".to_string()));
    assert_eq!(p.gpg_sign, None);
    assert_eq!(p.tag_gpg_sign, Some(false));
    assert!(!p.is_default);
}

#[test]
fn single_file_listing_gives_one_profile() {
    let listing = "user.name=Ann\ncore.editor=vi\nuser.name=Bea\nurl.x.insteadof=a=b\n";
    let p = parse_gitconfig_listing(listing, "/h/x.gitconfig").unwrap();
    assert_eq!(p.name, "x");
    assert_eq!(p.user_name, Some("Bea".to_string()));
    assert_eq!(p.user_email, None);
    assert!(parse_gitconfig_listing("core.editor=vi\n", "/h/x.gitconfig").is_none());
    assert!(parse_gitconfig_listing("", "/h/x.gitconfig").is_none());
}

#[test]
fn aggregate_listing_keeps_files_apart_and_the_last_value() {
    let output = "file:/b\tuser.name=B1\nfile:/a\tuser.email=a@x\nfile:/b\tuser.name=B2\nfile:/a\tuser.email=a@y\nfile:/c\tcore.x=1\r\njunk\n";
    let profiles = parse_git_config_output(output);
    assert_eq!(profiles.len(), 2);
    assert_eq!(profiles[0].name, "a");
    assert_eq!(profiles[0].user_email, Some("a@y".to_string()));
    assert_eq!(profiles[1].name, "b");
    assert_eq!(profiles[1].user_name, Some("B2".to_string()));
}

#[test]
fn aggregate_listing_orders_equal_names_by_first_line() {
    let output = "file:/z/work.gitconfig\tuser.name=Z\nfile:/a/work.gitconfig\tuser.name=A\n";
    let profiles = parse_git_config_output(output);
    assert_eq!(profiles.len(), 2);
    assert_eq!(profiles[0].source, "/z/work.gitconfig");
    assert_eq!(profiles[1].source, "/a/work.gitconfig");
}

#[test]
fn every_parsed_profile_names_a_user() {
    let output = "file:/a\tuser.signingkey=K\nfile:/b\tuser.name=B\nfile:/c\tuser.email=c@x\n";
    let profiles = parse_git_config_output(output);
    assert_eq!(profiles.len(), 2);
    for p in profiles.iter() {
        assert!(p.user_name.is_some() || p.user_email.is_some());
    }
}
