use yarm::glob::glob_match;

#[test]
fn test_glob_match_exact() {
    assert!(glob_match("hello", "hello"));
    assert!(!glob_match("hello", "world"));
}

#[test]
fn test_glob_match_wildcard() {
    assert!(glob_match("*.com", "example.com"));
    assert!(glob_match("*.com", "test.com"));
    assert!(!glob_match("*.com", "example.org"));
}

#[test]
fn test_glob_match_prefix_suffix() {
    assert!(glob_match("https://*", "https://github.com"));
    assert!(glob_match("*github.com*", "https://github.com/user/repo"));
    assert!(!glob_match("https://*", "http://github.com"));
}

#[test]
fn test_glob_match_middle() {
    assert!(glob_match("*github*repo*", "https://github.com/user/repo"));
    assert!(!glob_match("*gitlab*repo*", "https://github.com/user/repo"));
}

#[test]
fn test_glob_match_single_star_matches_anything() {
    assert!(glob_match("*", "anything"));
    assert!(glob_match("*", ""));
}

#[test]
fn test_glob_match_double_star_matches_anything() {
    assert!(glob_match("**", "anything/with/slashes"));
}

#[test]
fn test_glob_match_empty_pattern_empty_text() {
    assert!(glob_match("", ""));
    assert!(!glob_match("", "notempty"));
}

#[test]
fn test_glob_match_no_wildcard_must_be_exact() {
    assert!(glob_match("/exact/path", "/exact/path"));
    assert!(!glob_match("/exact/path", "/exact/path/extra"));
}

#[test]
fn glob_without_star_is_equality() {
    let texts = ["", "a", "ab", "abc", "a/b", "ABC", "ab "];
    for p in texts.iter() {
        for t in texts.iter() {
            assert_eq!(glob_match(p, t), p == t);
        }
    }
}

#[test]
fn glob_star_matches_every_text() {
    for t in ["", "x", "a*b", "/long/path/with/parts", "\u{e9}t\u{e9}"].iter() {
        assert!(glob_match("*", t));
    }
}

#[test]
fn glob_interior_pieces_are_found_in_order() {
    assert!(glob_match("a*b*c", "a-b-c"));
    assert!(glob_match("a*b*c", "abc"));
    assert!(!glob_match("a*b*c", "a-c-b"));
    assert!(glob_match("*ab*ab*", "abab"));
    assert!(!glob_match("*ab*ab*", "aba"));
    assert!(glob_match("x**y", "xy"));
}

#[test]
fn glob_interior_piece_starts_behind_the_first() {
    assert!(!glob_match("ab*b*", "ab"));
    assert!(glob_match("ab*b*", "abb"));
}

#[test]
fn glob_last_piece_is_only_asked_at_the_end() {
    assert!(glob_match("ab*b", "ab"));
    assert!(!glob_match("ab*c", "abcd"));
}

#[test]
fn glob_handles_text_beyond_ascii() {
    assert!(glob_match("caf\u{e9}*", "caf\u{e9}-au-lait"));
    assert!(glob_match("*\u{fc}ber*", "dar\u{fc}ber hinaus"));
    assert!(!glob_match("*\u{fc}ber", "dar\u{fc}ber hinaus"));
}
