use yarm::profile::{format_profile_display, sort_by_name, Profile};

fn test_profile(name: &str, user_name: Option<&str>, user_email: Option<&str>) -> Profile {
    Profile {
        name: name.to_string(),
        source: format!("/test/{name}"),
        user_name: user_name.map(String::from),
        user_email: user_email.map(String::from),
        signing_key: None,
        gpg_sign: None,
        gpg_format: None,
        tag_gpg_sign: None,
        is_default: false,
    }
}

#[test]
fn test_profile_config_summary() {
    let profile = Profile {
        name: "test".to_string(),
        source: "/test".to_string(),
        user_name: Some("John Doe".to_string()),
        user_email: Some("john@example.com".to_string()),
        signing_key: None,
        gpg_sign: Some(true),
        gpg_format: None,
        tag_gpg_sign: None,
        is_default: false,
    };

    assert_eq!(profile.config_summary(), "John Doe <john@example.com>, Sign commits: enabled");
}

#[test]
fn test_profile_config_summary_with_key() {
    let profile = Profile {
        name: "test".to_string(),
        source: "/test".to_string(),
        user_name: Some("Jane Doe".to_string()),
        user_email: Some("jane@example.com".to_string()),
        signing_key: Some("ABC123".to_string()),
        gpg_sign: Some(false),
        gpg_format: Some("ssh".to_string()),
        tag_gpg_sign: Some(true),
        is_default: false,
    };

    assert_eq!(
        profile.config_summary(),
        "Jane Doe <jane@example.com>, Signing key: ABC123, Signing format: ssh, Sign commits: disabled, Sign tags: enabled"
    );
}

#[test]
fn test_identity_name_and_email() {
    let p = test_profile("t", Some("Alice"), Some("alice@ex.com"));
    assert_eq!(p.identity(), Some("Alice <alice@ex.com>".to_string()));
}

#[test]
fn test_identity_name_only() {
    let p = test_profile("t", Some("Alice"), None);
    assert_eq!(p.identity(), Some("Alice".to_string()));
}

#[test]
fn test_identity_email_only() {
    let p = test_profile("t", None, Some("alice@ex.com"));
    assert_eq!(p.identity(), Some("<alice@ex.com>".to_string()));
}

#[test]
fn test_identity_none() {
    let p = test_profile("t", None, None);
    assert_eq!(p.identity(), None);
}

#[test]
fn fields_come_in_a_fixed_order_with_their_labels() {
    let mut p = test_profile("t", Some("A"), None);
    assert!(p.fields().is_empty());
    p.tag_gpg_sign = Some(false);
    p.signing_key = Some("K".to_string());
    p.gpg_sign = Some(true);
    p.gpg_format = Some("x509".to_string());
    let fields = p.fields();
    let shown: Vec<(String, String)> =
        fields.iter().map(|f| (f.label.to_string(), f.value.to_string())).collect();
    assert_eq!(
        shown,
        vec![
            ("Signing key".to_string(), "K".to_string()),
            ("Signing format".to_string(), "x509".to_string()),
            ("Sign commits".to_string(), "enabled".to_string()),
            ("Sign tags".to_string(), "disabled".to_string()),
        ]
    );
}

#[test]
fn summary_without_identity_lists_the_fields_alone() {
    let mut p = test_profile("t", None, None);
    assert_eq!(p.config_summary(), "");
    p.gpg_format = Some("ssh".to_string());
    assert_eq!(p.config_summary(), "Signing format: ssh");
}

#[test]
fn display_option_shortens_the_home_directory() {
    let mut p = test_profile("work", Some("W"), None);
    p.source = "/home/u/.config/git/work.gitconfig".to_string();
    assert_eq!(p.display_option(Some("/home/u")), "work (~/.config/git/work.gitconfig)");
    assert_eq!(p.display_option(Some("/home/v")), "work (/home/u/.config/git/work.gitconfig)");
    assert_eq!(p.display_option(None), "work (/home/u/.config/git/work.gitconfig)");
}

#[test]
fn long_form_shows_identity_attributes_and_source() {
    let mut p = test_profile("work", Some("W"), Some("w@co.com"));
    p.source = "/home/u/.gitconfig-work".to_string();
    assert_eq!(format_profile_display(&p, Some("/home/u")), "W <w@co.com> (~/.gitconfig-work)");
    p.signing_key = Some("K9".to_string());
    assert_eq!(
        format_profile_display(&p, Some("/home/u")),
        "W <w@co.com> [signing key: K9] (~/.gitconfig-work)"
    );
    p.gpg_sign = Some(true);
    assert_eq!(
        format_profile_display(&p, None),
        "W <w@co.com> [signing key: K9, gpgsign] (/home/u/.gitconfig-work)"
    );
    p.signing_key = None;
    p.user_name = None;
    p.user_email = None;
    assert_eq!(format_profile_display(&p, None), "[gpgsign] (/home/u/.gitconfig-work)");
    p.gpg_sign = Some(false);
    assert_eq!(format_profile_display(&p, None), "(/home/u/.gitconfig-work)");
}

#[test]
fn copy_is_equal_to_the_original() {
    let mut p = test_profile("work", Some("W"), Some("w@co.com"));
    p.tag_gpg_sign = Some(true);
    p.is_default = true;
    assert_eq!(p.copy(), p);
}

#[test]
fn sorting_by_name_is_stable() {
    let mut a = test_profile("b", Some("1"), None);
    a.source = "/one".to_string();
    let mut b = test_profile("a", Some("2"), None);
    b.source = "/two".to_string();
    let mut c = test_profile("b", Some("3"), None);
    c.source = "/three".to_string();
    let mut d = test_profile("B", Some("4"), None);
    d.source = "/four".to_string();
    let sorted = sort_by_name(vec![a, b, c, d]);
    let order: Vec<&str> = sorted.iter().map(|p| p.source.as_str()).collect();
    assert_eq!(order, vec!["/four", "/two", "/one", "/three"]);
}
