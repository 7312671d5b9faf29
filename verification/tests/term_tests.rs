use yarm::term::{
    format_elapsed, FilterableSelect, MenuLevel, MenuSession, SilentExit, NO_MATCHES_TEXT,
};

#[test]
fn help_lines_depend_on_the_level() {
    assert_eq!(MenuLevel::Top.help(), "esc to quit");
    assert_eq!(MenuLevel::Sub.help(), "esc to cancel");
    assert_eq!(MenuLevel::Top.help_filterable(), "type to filter \u{2014} esc to quit");
    assert_eq!(MenuLevel::Sub.help_filterable(), "type to filter \u{2014} esc to cancel");
    assert_eq!(
        MenuLevel::Sub.help_with("e.g., 'work'"),
        "e.g., 'work' \u{2014} esc to cancel"
    );
}

#[test]
fn filterable_select_keeps_what_it_is_given() {
    let options = vec!["Alpha".to_string(), "beta".to_string()];
    let s = MenuLevel::Sub.select_filterable("Select profile:", options.clone());
    assert_eq!(s.message, "Select profile:");
    assert_eq!(s.options, options);
    assert_eq!(s.help, "type to filter \u{2014} esc to cancel");
    let t = FilterableSelect::new("m", vec![], "h");
    assert_eq!(t.message, "m");
    assert_eq!(t.help, "h");
    assert!(t.options.is_empty());
}

#[test]
fn filter_shows_options_that_hold_the_input() {
    let s = MenuLevel::Sub
        .select_filterable("m", vec!["Alpha One".to_string(), "beta two".to_string()]);
    let ph = NO_MATCHES_TEXT;
    assert_eq!(s.score(ph, "", "Alpha One"), Some(0));
    assert_eq!(s.score(ph, "", ph), None);
    assert_eq!(s.score(ph, "ONE", "Alpha One"), Some(0));
    assert_eq!(s.score(ph, "ONE", "beta two"), None);
    assert_eq!(s.score(ph, "ONE", ph), None);
    assert_eq!(s.score(ph, "zzz", "Alpha One"), None);
    assert_eq!(s.score(ph, "zzz", ph), Some(0));
    assert!(FilterableSelect::asks_again("(no matches)", ph));
    assert!(!FilterableSelect::asks_again("Alpha One", ph));
}

#[test]
fn menu_line_is_cleared_between_menus() {
    let mut s = MenuSession::new();
    assert!(!s.prepare());
    assert!(s.prepare());
    s.printed_output();
    assert!(!s.prepare());
    assert!(s.prepare());
    let mut t = MenuSession::new();
    t.printed_output();
    assert!(!t.prepare());
    assert!(t.prepare());
}

#[test]
fn elapsed_time_is_told_in_the_largest_unit() {
    assert_eq!(format_elapsed(None), "just now");
    assert_eq!(format_elapsed(Some(0)), "just now");
    assert_eq!(format_elapsed(Some(59)), "just now");
    assert_eq!(format_elapsed(Some(60)), "1 minute ago");
    assert_eq!(format_elapsed(Some(119)), "1 minute ago");
    assert_eq!(format_elapsed(Some(120)), "2 minutes ago");
    assert_eq!(format_elapsed(Some(3599)), "59 minutes ago");
    assert_eq!(format_elapsed(Some(3600)), "1 hour ago");
    assert_eq!(format_elapsed(Some(3 * 3600 + 5)), "3 hours ago");
    assert_eq!(format_elapsed(Some(86399)), "23 hours ago");
    assert_eq!(format_elapsed(Some(86400)), "1 day ago");
    assert_eq!(format_elapsed(Some(10 * 86400)), "10 days ago");
    assert_eq!(format_elapsed(Some(u64::MAX)), "213503982334601 days ago");
}

#[test]
fn silent_exit_reads_as_its_code() {
    assert_eq!(SilentExit(1).message(), "exit 1");
    assert_eq!(SilentExit(0).message(), "exit 0");
    assert_eq!(SilentExit(-2).message(), "exit -2");
    assert_eq!(SilentExit(i32::MIN).message(), "exit -2147483648");
    assert_eq!(SilentExit(i32::MAX).message(), "exit 2147483647");
}
