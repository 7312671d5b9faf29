use yarm::find::{
    classify_matches, complete_pool_names, complete_repo_names, ends_with_lowered, find_matches,
    find_suggestion, path_suffix_matches, pick_suggestion, resolve_repo, Lookup,
};

fn repos() -> Vec<String> {
    vec![
        "/home/user/projects/yarm".to_string(),
        "/home/user/projects/other".to_string(),
        "/home/user/work/yarm".to_string(),
        "/home/user/Source/OSS/kfoo".to_string(),
    ]
}

fn parts(v: &[&str]) -> Vec<String> {
    v.iter().map(|s| s.to_string()).collect()
}

#[test]
fn test_exact_basename_single() {
    let matches = find_matches(&repos(), "other");
    assert_eq!(matches, vec!["/home/user/projects/other".to_string()]);
}

#[test]
fn test_exact_basename_multiple() {
    let matches = find_matches(&repos(), "yarm");
    assert_eq!(matches.len(), 2);
    assert!(matches.contains(&"/home/user/projects/yarm".to_string()));
    assert!(matches.contains(&"/home/user/work/yarm".to_string()));
}

#[test]
fn test_exact_basename_case_insensitive() {
    let matches = find_matches(&repos(), "YARM");
    assert_eq!(matches.len(), 2);
}

#[test]
fn test_suffix_match() {
    let matches = find_matches(&repos(), "work/yarm");
    assert_eq!(matches, vec!["/home/user/work/yarm".to_string()]);
}

#[test]
fn test_suffix_match_case_insensitive() {
    let matches = find_matches(&repos(), "oss/kfoo");
    assert_eq!(matches, vec!["/home/user/Source/OSS/kfoo".to_string()]);
}

#[test]
fn test_no_match() {
    let matches = find_matches(&repos(), "nonexistent");
    assert!(matches.is_empty());
}

#[test]
fn test_suffix_too_long() {
    let matches = find_matches(&repos(), "a/b/c/d/e/f/g");
    assert!(matches.is_empty());
}

#[test]
fn test_suggestion_typo() {
    assert_eq!(find_suggestion(&repos(), "yram"), Some("yarm".to_string()));
}

#[test]
fn test_suggestion_partial() {
    assert_eq!(find_suggestion(&repos(), "yar"), Some("yarm".to_string()));
}

#[test]
fn test_suggestion_no_close_match() {
    assert_eq!(find_suggestion(&repos(), "zzzzzzzzz"), None);
}

#[test]
fn test_suggestion_exact_excluded() {
    assert_eq!(find_suggestion(&repos(), "yarm"), None);
}

#[test]
fn test_path_suffix_matches_basic() {
    let path = "/home/user/Source/OSS/yarm";
    assert!(path_suffix_matches(path, &parts(&["yarm"])));
    assert!(path_suffix_matches(path, &parts(&["OSS", "yarm"])));
    assert!(path_suffix_matches(path, &parts(&["oss", "yarm"])));
    assert!(!path_suffix_matches(path, &parts(&["projects", "yarm"])));
}

#[test]
fn path_suffix_counts_the_root_as_a_component() {
    assert!(path_suffix_matches("/a", &parts(&["/", "a"])));
    assert!(!path_suffix_matches("/a", &parts(&["", "a"])));
    assert!(!path_suffix_matches("a", &parts(&["/", "a"])));
    assert!(path_suffix_matches("a//b/./c/", &parts(&["a", "b", "c"])));
}

#[test]
fn suggestion_is_the_first_of_the_closest() {
    assert_eq!(pick_suggestion(&vec![]), None);
    assert_eq!(pick_suggestion(&vec![0, 4, 9]), None);
    assert_eq!(pick_suggestion(&vec![3, 2, 2, 1, 1]), Some(3));
    assert_eq!(pick_suggestion(&vec![0, 3, 4]), Some(1));
    assert_eq!(pick_suggestion(&vec![2, 2]), Some(0));
}

#[test]
fn suggestion_keeps_the_case_of_the_name() {
    let list = vec!["/x/Yarm".to_string()];
    assert_eq!(find_suggestion(&list, "YRAM"), Some("Yarm".to_string()));
}

#[test]
fn matches_are_classified_by_their_number() {
    assert!(matches!(classify_matches(vec![]), Lookup::Missing));
    match classify_matches(vec!["/a".to_string()]) {
        Lookup::Found(p) => assert_eq!(p, "/a"),
        _ => panic!("one match is found"),
    }
    match classify_matches(vec!["/a".to_string(), "/b".to_string()]) {
        Lookup::Ambiguous(v) => assert_eq!(v, vec!["/a".to_string(), "/b".to_string()]),
        _ => panic!("two matches are ambiguous"),
    }
}

#[test]
fn a_name_resolves_only_if_it_finds_one_repository() {
    assert_eq!(resolve_repo(&repos(), "other"), Some("/home/user/projects/other".to_string()));
    assert_eq!(resolve_repo(&repos(), "yarm"), None);
    assert_eq!(resolve_repo(&repos(), "missing"), None);
}

#[test]
fn completion_names_are_sorted_and_unique() {
    assert_eq!(
        complete_repo_names(&repos()),
        vec!["kfoo".to_string(), "other".to_string(), "yarm".to_string()]
    );
    assert_eq!(
        complete_pool_names(&vec!["/p/work".to_string(), "/".to_string(), "/q/play/".to_string()]),
        vec!["work".to_string(), "play".to_string()]
    );
}

#[test]
fn lowered_components_are_compared_from_the_end() {
    let chars = |v: &[&str]| -> Vec<Vec<char>> { v.iter().map(|s| s.chars().collect()).collect() };
    let path = chars(&["/", "home", "oss", "yarm"]);
    assert!(ends_with_lowered(&path, &chars(&["yarm"])));
    assert!(ends_with_lowered(&path, &chars(&["oss", "yarm"])));
    assert!(ends_with_lowered(&path, &chars(&[])));
    assert!(ends_with_lowered(&path, &chars(&["/", "home", "oss", "yarm"])));
    assert!(!ends_with_lowered(&path, &chars(&["OSS", "yarm"])));
    assert!(!ends_with_lowered(&path, &chars(&["home", "yarm"])));
    assert!(!ends_with_lowered(&path, &chars(&["x", "/", "home", "oss", "yarm"])));
}
