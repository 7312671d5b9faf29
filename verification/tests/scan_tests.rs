use yarm::scan::{
    build_exclude_set, has_git_entry, is_skipped_dir, scan, scan_directory, scan_summary,
    wants_descent, DirEntry, DirNode, ExcludeSet, Pool, ScanError, ScanWalk,
};
use yarm::seqs::normalize_paths;

fn dir(name: &str, children: Vec<DirNode>) -> DirNode {
    DirNode { name: name.to_string(), is_dir: true, readable: true, children }
}

fn file(name: &str) -> DirNode {
    DirNode { name: name.to_string(), is_dir: false, readable: false, children: vec![] }
}

fn locked(name: &str, children: Vec<DirNode>) -> DirNode {
    DirNode { name: name.to_string(), is_dir: true, readable: false, children }
}

fn repo(name: &str) -> DirNode {
    dir(name, vec![dir(".git", vec![])])
}

fn empty_exclude() -> ExcludeSet {
    build_exclude_set(&vec![]).unwrap()
}

fn exclude(patterns: &[&str]) -> ExcludeSet {
    build_exclude_set(&patterns.iter().map(|p| p.to_string()).collect()).unwrap()
}

fn sorted(mut v: Vec<String>) -> Vec<String> {
    v.sort();
    v
}

#[test]
fn test_scan_finds_repos() {
    let tmp = dir("finds-repos", vec![repo("repo-a"), repo("repo-b"), dir("not-a-repo", vec![])]);
    let repos = sorted(scan_directory(&tmp, "/tmp/finds-repos", &empty_exclude(), None));

    assert_eq!(repos.len(), 2);
    assert_eq!(repos[0], "/tmp/finds-repos/repo-a");
    assert_eq!(repos[1], "/tmp/finds-repos/repo-b");
}

#[test]
fn test_scan_skips_hidden_dirs() {
    let tmp = dir("skips-hidden", vec![repo("visible"), repo(".hidden")]);
    let repos = scan_directory(&tmp, "/tmp/skips-hidden", &empty_exclude(), None);

    assert_eq!(repos.len(), 1);
    assert_eq!(repos[0], "/tmp/skips-hidden/visible");
}

#[test]
fn test_scan_skips_node_modules() {
    let tmp = dir(
        "skips-nm",
        vec![repo("real-repo"), dir("node_modules", vec![repo("some-pkg")])],
    );
    let repos = scan_directory(&tmp, "/tmp/skips-nm", &empty_exclude(), None);

    assert_eq!(repos.len(), 1);
    assert_eq!(repos[0], "/tmp/skips-nm/real-repo");
}

#[test]
fn test_scan_nested_repos() {
    let tmp = dir("nested", vec![dir("org", vec![repo("project")])]);
    let repos = scan_directory(&tmp, "/tmp/nested", &empty_exclude(), None);

    assert_eq!(repos.len(), 1);
    assert_eq!(repos[0], "/tmp/nested/org/project");
}

#[test]
fn test_scan_detects_git_file() {
    let tmp = dir("git-file", vec![dir("parent", vec![dir("sub", vec![file(".git")])])]);
    let repos = scan_directory(&tmp, "/tmp/git-file", &empty_exclude(), None);

    assert_eq!(repos.len(), 1);
    assert_eq!(repos[0], "/tmp/git-file/parent/sub");
}

#[test]
fn test_scan_empty_directory() {
    let tmp = dir("empty", vec![]);
    let repos = scan_directory(&tmp, "/tmp/empty", &empty_exclude(), None);
    assert!(repos.is_empty());
}

#[test]
fn test_scan_excludes_by_name() {
    let tmp = dir(
        "exclude-name",
        vec![repo("kept"), dir("build-output", vec![repo("nested-repo")])],
    );
    let exclude = exclude(&["build-output"]);
    let repos = scan_directory(&tmp, "/tmp/exclude-name", &exclude, None);

    assert_eq!(repos.len(), 1);
    assert_eq!(repos[0], "/tmp/exclude-name/kept");
}

#[test]
fn test_scan_excludes_by_glob() {
    let tmp = dir(
        "exclude-glob",
        vec![
            repo("my-project"),
            dir("foo-build", vec![repo("repo")]),
            dir("bar-build", vec![repo("repo")]),
        ],
    );
    let exclude = exclude(&["*-build"]);
    let repos = scan_directory(&tmp, "/tmp/exclude-glob", &exclude, None);

    assert_eq!(repos.len(), 1);
    assert_eq!(repos[0], "/tmp/exclude-glob/my-project");
}

#[test]
fn test_scan_excludes_nested_path() {
    let tmp = dir(
        "exclude-nested",
        vec![dir("project", vec![repo("src"), dir("external", vec![repo("dep")])])],
    );
    let exclude = exclude(&["project/external"]);
    let repos = scan_directory(&tmp, "/tmp/exclude-nested", &exclude, None);

    assert_eq!(repos.len(), 1);
    assert_eq!(repos[0], "/tmp/exclude-nested/project/src");
}

#[test]
fn test_scan_max_depth_zero_finds_root_repo() {
    let tmp = dir("depth-zero", vec![dir(".git", vec![]), repo("child")]);
    let repos = scan_directory(&tmp, "/tmp/depth-zero", &empty_exclude(), Some(0));

    assert_eq!(repos.len(), 1);
    assert_eq!(repos[0], "/tmp/depth-zero");
}

#[test]
fn test_scan_max_depth_limits_traversal() {
    let tmp = dir(
        "depth-limit",
        vec![dir("org", vec![repo("repo-a"), dir("group", vec![repo("repo-b")])])],
    );

    let repos_limited = scan_directory(&tmp, "/tmp/depth-limit", &empty_exclude(), Some(2));
    assert_eq!(repos_limited.len(), 1);
    assert_eq!(repos_limited[0], "/tmp/depth-limit/org/repo-a");

    let repos_unlimited = scan_directory(&tmp, "/tmp/depth-limit", &empty_exclude(), None);
    assert_eq!(repos_unlimited.len(), 2);
}

#[test]
fn test_scan_max_depth_none_is_unlimited() {
    let tmp = dir(
        "depth-unlimited",
        vec![dir("a", vec![dir("b", vec![dir("c", vec![repo("repo")])])])],
    );
    let repos = scan_directory(&tmp, "/tmp/depth-unlimited", &empty_exclude(), None);

    assert_eq!(repos.len(), 1);
    assert_eq!(repos[0], "/tmp/depth-unlimited/a/b/c/repo");
}

#[test]
fn scanning_twice_gives_the_same_list() {
    let tree = || {
        dir(
            "root",
            vec![repo("b"), dir("a", vec![repo("y"), repo("x")]), repo("c"), file("README")],
        )
    };
    let pools = vec![
        Pool { path: "/p".to_string(), tree: Some(tree()) },
        Pool { path: "/p".to_string(), tree: Some(tree()) },
    ];
    let first = scan(&pools, &empty_exclude(), None).unwrap();
    let second = scan(&pools, &empty_exclude(), None).unwrap();
    assert_eq!(first.repositories, second.repositories);
    assert_eq!(
        first.repositories,
        vec![
            "/p/a/x".to_string(),
            "/p/a/y".to_string(),
            "/p/b".to_string(),
            "/p/c".to_string()
        ]
    );
    assert_eq!(normalize_paths(first.repositories), second.repositories);
}

#[test]
fn a_repository_is_not_descended_into() {
    let root = dir("root", vec![repo("child"), dir(".git", vec![])]);
    for depth in [None, Some(0), Some(1), Some(7)].iter() {
        let repos = scan_directory(&root, "/root", &empty_exclude(), *depth);
        assert_eq!(repos, vec!["/root".to_string()]);
    }
    let nested = dir("root", vec![dir("outer", vec![file(".git"), repo("inner")])]);
    assert_eq!(
        scan_directory(&nested, "/root", &empty_exclude(), None),
        vec!["/root/outer".to_string()]
    );
}

#[test]
fn depth_zero_looks_into_the_root_alone() {
    let root = dir("root", vec![repo("child")]);
    assert!(scan_directory(&root, "/root", &empty_exclude(), Some(0)).is_empty());
    assert_eq!(
        scan_directory(&root, "/root", &empty_exclude(), Some(1)),
        vec!["/root/child".to_string()]
    );
    assert_eq!(
        scan_directory(&root, "/root", &empty_exclude(), None),
        vec!["/root/child".to_string()]
    );
}

#[test]
fn exclusion_drops_the_subtree_and_keeps_siblings() {
    let root = dir(
        "root",
        vec![
            dir("a-build", vec![repo("one"), dir("deep", vec![repo("two")])]),
            dir("keep", vec![repo("three"), dir("b-build", vec![repo("four")])]),
            repo("c-build"),
            repo("sibling"),
        ],
    );
    let repos = sorted(scan_directory(&root, "/root", &exclude(&["*-build"]), None));
    assert_eq!(
        repos,
        vec![
            "/root/keep/b-build/four".to_string(),
            "/root/keep/three".to_string(),
            "/root/sibling".to_string()
        ]
    );
}

#[test]
fn the_walk_takes_the_last_candidate_first() {
    let root = dir("root", vec![repo("a"), dir("b", vec![repo("x"), repo("y")]), repo("c")]);
    assert_eq!(
        scan_directory(&root, "/root", &empty_exclude(), None),
        vec![
            "/root/c".to_string(),
            "/root/b/y".to_string(),
            "/root/b/x".to_string(),
            "/root/a".to_string()
        ]
    );
}

#[test]
fn unreadable_directories_are_passed_over() {
    let root = dir("root", vec![locked("secret", vec![dir(".git", vec![])]), repo("open")]);
    assert_eq!(
        scan_directory(&root, "/root", &empty_exclude(), None),
        vec!["/root/open".to_string()]
    );
    assert!(scan_directory(&locked("root", vec![]), "/root", &empty_exclude(), None).is_empty());
    assert!(scan_directory(&file("root"), "/root", &empty_exclude(), None).is_empty());
}

#[test]
fn skipped_names_are_the_known_five() {
    for n in ["node_modules", "target", "vendor", "__pycache__", ".build"].iter() {
        assert!(is_skipped_dir(n));
    }
    assert!(!is_skipped_dir("Target"));
    assert!(!is_skipped_dir("build"));
    let root = dir("root", vec![dir("target", vec![repo("x")]), dir("vendor", vec![repo("y")])]);
    assert!(scan_directory(&root, "/root", &empty_exclude(), None).is_empty());
}

#[test]
fn descent_is_for_plain_directories_that_are_not_excluded() {
    let ex = exclude(&["a/skip"]);
    let entry = |name: &str, is_dir: bool| DirEntry { name: name.to_string(), is_dir };
    assert!(wants_descent(&entry("src", true), "a", &ex));
    assert!(!wants_descent(&entry("src", false), "a", &ex));
    assert!(!wants_descent(&entry(".cache", true), "a", &ex));
    assert!(!wants_descent(&entry("vendor", true), "a", &ex));
    assert!(!wants_descent(&entry("skip", true), "a", &ex));
    assert!(wants_descent(&entry("skip", true), "b", &ex));
    assert!(wants_descent(&entry("skip", true), "", &ex));
    assert!(has_git_entry(&vec![entry("x", true), entry(".git", false)]));
    assert!(!has_git_entry(&vec![entry("x", true), entry(".github", true)]));
}

#[test]
fn star_does_not_cross_a_separator() {
    let ex = exclude(&["*-build"]);
    assert!(ex.is_match("foo-build"));
    assert!(!ex.is_match("keep/foo-build"));
    assert!(!ex.is_match("foo-builder"));
    let root = dir("root", vec![dir("keep", vec![dir("foo-build", vec![repo("r")])])]);
    assert_eq!(
        scan_directory(&root, "/root", &ex, None),
        vec!["/root/keep/foo-build/r".to_string()]
    );
}

#[test]
fn an_invalid_pattern_is_reported_by_name() {
    match build_exclude_set(&vec!["ok".to_string(), "bad[".to_string(), "worse{".to_string()]) {
        Err(ScanError::InvalidPattern { pattern, detail }) => {
            assert_eq!(pattern, "bad[");
            assert!(!detail.is_empty());
        }
        _ => panic!("an unclosed class is no glob"),
    }
    let e = build_exclude_set(&vec!["bad[".to_string()]).err().unwrap();
    assert!(e.message().starts_with("Invalid exclude pattern: bad[: "));
}

#[test]
fn a_set_is_built_for_patterns_that_are_all_globs() {
    assert!(build_exclude_set(&vec![]).is_ok());
    assert!(build_exclude_set(&vec!["a".to_string(), "*/b".to_string(), "**".to_string()]).is_ok());
    assert!(build_exclude_set(&vec!["a".to_string(), "b[".to_string()]).is_err());
}

#[test]
fn a_set_too_large_to_build_is_reported() {
    let huge = "?".repeat(1_500_000);
    match build_exclude_set(&vec![huge]) {
        Err(e) => {
            assert!(matches!(e, ScanError::BuildFailed { .. }));
            assert!(e.message().starts_with("Failed to build exclude set: "));
        }
        Ok(_) => panic!("a matcher beyond the size limit cannot be built"),
    }
}

#[test]
fn the_walk_can_be_driven_from_outside() {
    let ex = empty_exclude();
    let mut walk = ScanWalk::new("/root");
    assert_eq!(walk.pending(), 1);
    assert_eq!(walk.next_directory(), Some("/root".to_string()));
    let listing = vec![
        DirEntry { name: "a".to_string(), is_dir: true },
        DirEntry { name: "f".to_string(), is_dir: false },
        DirEntry { name: "b".to_string(), is_dir: true },
    ];
    assert_eq!(walk.record(Some(&listing), &ex, Some(1)), vec![0, 2]);
    assert_eq!(walk.next_directory(), Some("/root/b".to_string()));
    let repo = vec![DirEntry { name: ".git".to_string(), is_dir: true }];
    assert!(walk.record(Some(&repo), &ex, Some(1)).is_empty());
    assert_eq!(walk.next_directory(), Some("/root/a".to_string()));
    let deeper = vec![DirEntry { name: "later".to_string(), is_dir: true }];
    assert!(walk.record(Some(&deeper), &ex, Some(1)).is_empty());
    assert_eq!(walk.next_directory(), None);
    assert!(walk.record(None, &ex, Some(1)).is_empty());
    assert_eq!(walk.into_found(), vec!["/root/b".to_string()]);
}

#[test]
fn a_walk_skips_what_cannot_be_read() {
    let ex = empty_exclude();
    let mut walk = ScanWalk::new("/root");
    assert!(walk.record(None, &ex, None).is_empty());
    assert_eq!(walk.pending(), 0);
    assert!(walk.into_found().is_empty());
}

#[test]
fn pools_are_scanned_together_and_missing_ones_listed() {
    let pools = vec![
        Pool { path: "/w".to_string(), tree: Some(dir("w", vec![repo("z"), repo("a")])) },
        Pool { path: "/gone".to_string(), tree: None },
        Pool { path: "/w/a".to_string(), tree: Some(repo("a")) },
    ];
    let report = scan(&pools, &empty_exclude(), None).unwrap();
    assert_eq!(report.repositories, vec!["/w/a".to_string(), "/w/z".to_string()]);
    assert_eq!(report.pool_count, 2);
    assert_eq!(report.missing, vec!["/gone".to_string()]);
}

#[test]
fn scanning_needs_a_pool_that_exists() {
    match scan(&vec![], &empty_exclude(), None) {
        Err(e) => {
            assert!(matches!(e, ScanError::NoPools));
            assert!(e.message().starts_with("No repository pools configured.\nAdd pools to"));
        }
        Ok(_) => panic!("no pool is an error"),
    }
    let gone = vec![Pool { path: "/gone".to_string(), tree: None }];
    match scan(&gone, &empty_exclude(), None) {
        Err(e) => {
            assert!(matches!(e, ScanError::NoPoolFound));
            assert_eq!(e.message(), "None of the configured pool directories exist");
        }
        Ok(_) => panic!("a missing pool is an error"),
    }
}

#[test]
fn summary_counts_with_singular_and_plural() {
    assert_eq!(scan_summary(1, 1), "Found 1 repository across 1 pool");
    assert_eq!(scan_summary(0, 2), "Found 0 repositories across 2 pools");
    assert_eq!(scan_summary(120, 1), "Found 120 repositories across 1 pool");
}

#[test]
fn normalizing_sorts_and_removes_repeats() {
    let v = vec!["/b".to_string(), "/a".to_string(), "/b".to_string(), "/a/b".to_string(), "/a-b".to_string()];
    let once = normalize_paths(v);
    assert_eq!(
        once,
        vec!["/a".to_string(), "/a-b".to_string(), "/a/b".to_string(), "/b".to_string()]
    );
    let twice = normalize_paths(normalize_paths(vec![
        "/b".to_string(),
        "/a".to_string(),
        "/b".to_string(),
    ]));
    assert_eq!(twice, vec!["/a".to_string(), "/b".to_string()]);
    assert!(normalize_paths(vec![]).is_empty());
}
