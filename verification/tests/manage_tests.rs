use yarm::manage::{
    create_settings, deletable_profiles, edit_changes, edit_profile, field_diff, format_index,
    is_deletable, is_xdg_location, location_options, menu_options, profile_locations,
    profiles_found, signing_format, Answers, FieldChange, MenuOption, ProfileAction,
};
use yarm::profile::Profile;
use yarm::status::{pool_status, repo_list, should_auto_rescan, CommandKind, PoolStatus};

fn profile(name: &str, source: &str) -> Profile {
    Profile {
        name: name.to_string(),
        source: source.to_string(),
        user_name: Some("N".to_string()),
        user_email: None,
        signing_key: None,
        gpg_sign: None,
        gpg_format: None,
        tag_gpg_sign: None,
        is_default: false,
    }
}

fn answers(email: &str, key: &str, format: Option<&str>, commits: bool, tags: bool) -> Answers {
    Answers {
        name: "N".to_string(),
        email: email.to_string(),
        signing_key: key.to_string(),
        format: format.map(String::from),
        sign_commits: commits,
        sign_tags: tags,
    }
}

fn set(k: &str, v: &str) -> (String, Option<String>) {
    (k.to_string(), Some(v.to_string()))
}

fn unset(k: &str) -> (String, Option<String>) {
    (k.to_string(), None)
}

#[test]
fn menus_read_as_they_should() {
    assert_eq!(MenuOption::Edit.label(), "Edit profile");
    assert_eq!(MenuOption::Create.label(), "Create new profile");
    assert_eq!(MenuOption::Delete.label(), "Delete profile");
    assert_eq!(MenuOption::List.label(), "List profiles");
    assert_eq!(ProfileAction::Show.label(), "Show details");
    assert_eq!(ProfileAction::Edit.label(), "Edit profile");
    assert_eq!(ProfileAction::Delete.label(), "Delete profile");
    assert_eq!(
        menu_options(true),
        vec![MenuOption::Edit, MenuOption::Create, MenuOption::Delete, MenuOption::List]
    );
    assert_eq!(menu_options(false), vec![MenuOption::Create, MenuOption::List]);
}

#[test]
fn main_and_system_files_cannot_be_deleted() {
    assert!(is_deletable(&profile("work", "/home/u/.gitconfig-work")));
    assert!(is_deletable(&profile("x", "/home/u/.config/git/x.gitconfig")));
    assert!(!is_deletable(&profile("global", "/home/u/.gitconfig")));
    assert!(!is_deletable(&profile("system", "/etc/gitconfig")));
    assert!(!is_deletable(&profile("local", "/repo/.git/config")));
    assert!(is_deletable(&profile("bare", ".gitconfig")));
    let kept = deletable_profiles(&vec![
        profile("global", "/home/u/.gitconfig"),
        profile("a", "/p/a"),
        profile("sys", "/usr/etc/x"),
        profile("b", "/p/b"),
    ]);
    let names: Vec<String> = kept.into_iter().map(|p| p.name).collect();
    assert_eq!(names, vec!["a".to_string(), "b".to_string()]);
}

#[test]
fn the_profile_to_edit_is_found_by_its_line() {
    let list = vec![profile("a", "/home/u/a"), profile("b", "/home/u/b")];
    assert_eq!(edit_profile(&list, "b (~/b)", Some("/home/u")).unwrap().name, "b");
    assert!(edit_profile(&list, "b (/home/u/b)", Some("/home/u")).is_none());
    assert_eq!(edit_profile(&list, "a (/home/u/a)", None).unwrap().name, "a");
}

#[test]
fn editing_without_a_key_unsets_all_signing() {
    assert_eq!(
        edit_changes(&answers("", "", Some("ssh"), true, true)),
        vec![
            set("user.name", "N"),
            unset("user.email"),
            unset("user.signingkey"),
            unset("gpg.format"),
            unset("commit.gpgsign"),
            unset("tag.gpgsign"),
        ]
    );
}

#[test]
fn editing_with_a_key_sets_what_is_on() {
    assert_eq!(
        edit_changes(&answers("e@x", "K", Some("ssh"), true, false)),
        vec![
            set("user.name", "N"),
            set("user.email", "e@x"),
            set("user.signingkey", "K"),
            set("gpg.format", "ssh"),
            set("commit.gpgsign", "true"),
            unset("tag.gpgsign"),
        ]
    );
    assert_eq!(
        edit_changes(&answers("e@x", "K", None, false, true))[3..].to_vec(),
        vec![unset("gpg.format"), unset("commit.gpgsign"), set("tag.gpgsign", "true")]
    );
}

#[test]
fn creating_writes_only_what_was_given() {
    assert_eq!(
        create_settings(&answers("", "", None, false, false)),
        vec![("user.name".to_string(), "N".to_string())]
    );
    let pairs = create_settings(&answers("e@x", "K", Some("x509"), true, true));
    let shown: Vec<(&str, &str)> = pairs.iter().map(|(k, v)| (k.as_str(), v.as_str())).collect();
    assert_eq!(
        shown,
        vec![
            ("user.name", "N"),
            ("user.email", "e@x"),
            ("user.signingkey", "K"),
            ("gpg.format", "x509"),
            ("commit.gpgsign", "true"),
            ("tag.gpgsign", "true"),
        ]
    );
}

#[test]
fn the_format_is_the_first_word_of_the_choice() {
    assert_eq!(signing_format("openpgp (GPG)"), None);
    assert_eq!(signing_format("ssh"), Some("ssh".to_string()));
    assert_eq!(signing_format("x509"), Some("x509".to_string()));
    assert_eq!(signing_format("  ssh\tkeys"), Some("ssh".to_string()));
    assert_eq!(signing_format(""), None);
    assert_eq!(signing_format("   "), None);
    assert_eq!(format_index(None), 0);
    assert_eq!(format_index(Some("openpgp")), 0);
    assert_eq!(format_index(Some("ssh")), 1);
    assert_eq!(format_index(Some("x509")), 2);
    assert_eq!(format_index(Some("other")), 0);
}

#[test]
fn a_field_changes_in_one_of_four_ways() {
    assert_eq!(field_diff(Some("a"), Some("a")), FieldChange::Unchanged);
    assert_eq!(field_diff(None, None), FieldChange::Unchanged);
    assert_eq!(
        field_diff(Some("a"), Some("b")),
        FieldChange::Changed { old: "a".to_string(), new: "b".to_string() }
    );
    assert_eq!(field_diff(None, Some("b")), FieldChange::Added { new: "b".to_string() });
    assert_eq!(field_diff(Some("a"), None), FieldChange::Removed { old: "a".to_string() });
}

#[test]
fn a_new_profile_has_two_possible_places() {
    assert_eq!(
        profile_locations("/home/u", "work"),
        (
            "/home/u/.gitconfig-work".to_string(),
            "/home/u/.config/git/work.gitconfig".to_string()
        )
    );
    let options = location_options("work");
    assert_eq!(
        options,
        vec!["~/.gitconfig-work".to_string(), "~/.config/git/work.gitconfig".to_string()]
    );
    assert!(!is_xdg_location(&options[0]));
    assert!(is_xdg_location(&options[1]));
}

#[test]
fn the_number_of_profiles_is_told() {
    assert_eq!(profiles_found(1), "1 profile found");
    assert_eq!(profiles_found(0), "0 profiles found");
    assert_eq!(profiles_found(3), "3 profiles found");
}

#[test]
fn a_pool_stands_in_one_of_three_ways() {
    assert_eq!(pool_status(false, 3), PoolStatus::NotFound);
    assert_eq!(pool_status(true, 0), PoolStatus::NoScanData);
    assert_eq!(pool_status(true, 3), PoolStatus::Repositories(3));
    assert_eq!(pool_status(false, 3).label(), "(not found)");
    assert_eq!(pool_status(true, 0).label(), "(no scan data)");
    assert_eq!(pool_status(true, 1).label(), "(1 repository)");
    assert_eq!(pool_status(true, 3).label(), "(3 repositories)");
}

#[test]
fn repositories_are_listed_as_seen_from_the_pool() {
    let repos = vec!["/w/z".to_string(), "/w/a/b".to_string(), "/elsewhere".to_string()];
    assert_eq!(
        repo_list(&repos, "/w"),
        vec!["/elsewhere".to_string(), "a/b".to_string(), "z".to_string()]
    );
}

#[test]
fn scan_and_completion_do_not_rescan() {
    for c in [
        CommandKind::Scan,
        CommandKind::Completions,
        CommandKind::CompleteRepoNames,
        CommandKind::CompletePoolNames,
    ]
    .iter()
    {
        assert!(!should_auto_rescan(*c));
    }
    for c in [
        CommandKind::Clone,
        CommandKind::Init,
        CommandKind::Apply,
        CommandKind::Profiles,
        CommandKind::Find,
        CommandKind::Stat,
        CommandKind::Status,
    ]
    .iter()
    {
        assert!(should_auto_rescan(*c));
    }
}
