use pathfilter::{build_ignore, locate_repo, ancestors, DirProbe, Ignore, RepoInfo};

fn build(info: Option<RepoInfo>, texts: Vec<&str>) -> Ignore {
    let texts: Vec<String> = texts.into_iter().map(|t| t.to_string()).collect();
    match build_ignore(&info, &texts) {
        Ok(ig) => ig,
        Err(_) => panic!("the rule set did not build"),
    }
}

fn repo(root: &str, files: Vec<&str>) -> Option<RepoInfo> {
    Some(RepoInfo {
        root: root.to_string(),
        ignore_files: files.into_iter().map(|f| f.to_string()).collect(),
    })
}

#[test]
fn no_repository_excludes_nothing() {
    let ig = build(None, vec![]);
    assert!(!ig.is_excluded("/repo/anything"));
    assert!(!ig.is_excluded("/x/y/z"));
    assert!(!ig.is_excluded(""));
}

#[test]
fn no_marker_anywhere_means_no_repository() {
    let cwd = "/repo/sub";
    let dirs = ancestors(cwd);
    let probes: Vec<DirProbe> = dirs
        .into_iter()
        .map(|d| DirProbe { path: d, has_ignore_file: true, has_marker: false })
        .collect();
    assert!(locate_repo(cwd, &probes).is_none());
}

#[test]
fn nested_rule_is_scoped_to_its_subdirectory() {
    let ig = build(repo("/r", vec!["/r/a/b/.gitignore"]), vec!["x\n"]);
    assert!(ig.is_excluded("/r/a/b/x"));
    assert!(!ig.is_excluded("/r/c/x"));
}

#[test]
fn directory_rule_covers_descendants() {
    let ig = build(repo("/r", vec!["/r/a/b/.gitignore"]), vec!["x\n"]);
    assert!(ig.is_excluded("/r/a/b/x/nested/file"));
}

#[test]
fn later_negation_overrides_earlier_rule() {
    let ig = build(repo("/r", vec!["/r/.gitignore"]), vec!["x\n!x\n"]);
    assert!(!ig.is_excluded("/r/x"));
}

#[test]
fn comments_and_blanks_are_skipped() {
    let ig = build(repo("/r", vec!["/r/.gitignore"]), vec!["# note\n\nx\n"]);
    assert!(ig.is_excluded("/r/x"));
    assert!(!ig.is_excluded("/r/note"));
}

#[test]
fn located_repository_end_to_end() {
    // Working directory /repo/sub; the marker sits in /repo; an ignore
    // file in both directories.
    let cwd = "/repo/sub";
    let dirs = ancestors(cwd);
    assert_eq!(
        dirs,
        vec!["/repo/sub".to_string(), "/repo".to_string(), "/".to_string()],
    );
    let probes = vec![
        DirProbe { path: dirs[0].clone(), has_ignore_file: true, has_marker: false },
        DirProbe { path: dirs[1].clone(), has_ignore_file: true, has_marker: true },
        DirProbe { path: dirs[2].clone(), has_ignore_file: false, has_marker: false },
    ];
    let info = match locate_repo(cwd, &probes) {
        Some(info) => info,
        None => panic!("the repository was not located"),
    };
    assert_eq!(info.root, "/repo".to_string());
    // The file nearest the root comes first.
    assert_eq!(
        info.ignore_files,
        vec!["/repo/.gitignore".to_string(), "/repo/sub/.gitignore".to_string()],
    );

    let ig = build(Some(info), vec!["build/\n", "*.log\n"]);
    assert!(ig.is_excluded("/repo/build/out.o"));
    assert!(ig.is_excluded("/repo/sub/app.log"));
    // The *.log rule is scoped to /repo/sub.
    assert!(!ig.is_excluded("/repo/other/app.log"));
}

#[test]
fn malformed_rule_aborts_the_build() {
    let info = repo("/r", vec!["/r/.gitignore"]);
    let texts: Vec<String> = vec!["a{b\n".to_string()];
    assert!(build_ignore(&info, &texts).is_err());
}

#[test]
fn comment_only_files_build_an_empty_matcher() {
    let ig = build(repo("/r", vec!["/r/.gitignore"]), vec!["# a\n\n# b\n"]);
    assert!(!ig.is_excluded("/r/a"));
    assert!(!ig.is_excluded("/r/anything/else"));
}

#[test]
fn trailing_whitespace_in_a_rule_is_trimmed_by_the_engine() {
    let ig = build(repo("/r", vec!["/r/.gitignore"]), vec!["x \n"]);
    assert!(ig.is_excluded("/r/x"));
    assert!(!ig.is_excluded("/r/x "));
}
