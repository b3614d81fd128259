use pathfilter::Filter;

#[test]
fn empty_filter_excludes_nothing() {
    let f = Filter::new("/w");
    assert!(!f.is_excluded("/w/anything"));
    assert!(!f.is_excluded("/elsewhere/file.txt"));
    assert!(!f.is_excluded(""));
}

#[test]
fn ignore_wins_over_filter() {
    let mut f = Filter::new("/w");
    assert!(f.add_filter("*.rs", false).is_ok());
    assert!(f.add_ignore("main.rs", false).is_ok());
    // Both the filter and the ignore match; the ignore decides.
    assert!(f.is_excluded("/w/main.rs"));
}

#[test]
fn allow_list_mode_excludes_unmatched() {
    let mut f = Filter::new("/w");
    assert!(f.add_filter("*.rs", false).is_ok());
    // No filter matches, and the filter list is non-empty.
    assert!(f.is_excluded("/w/readme.md"));
}

#[test]
fn filter_match_includes() {
    let mut f = Filter::new("/w");
    assert!(f.add_filter("*.rs", false).is_ok());
    assert!(f.add_ignore("main.rs", false).is_ok());
    assert!(!f.is_excluded("/w/lib.rs"));
}

#[test]
fn ignores_only_is_deny_list() {
    let mut f = Filter::new("/w");
    assert!(f.add_ignore("*.log", false).is_ok());
    assert!(f.is_excluded("/w/out.log"));
    assert!(!f.is_excluded("/w/out.txt"));
}

#[test]
fn invalid_pattern_is_rejected_and_state_kept() {
    let mut f = Filter::new("/w");
    assert!(f.add_filter("***", false).is_err());
    assert!(f.add_ignore("***", false).is_err());
    // Nothing was added: no filters means nothing is excluded.
    assert!(!f.is_excluded("/w/anything"));
}

#[test]
fn compile_error_reports_position() {
    let mut f = Filter::new("/w");
    match f.add_filter("a**b", false) {
        Ok(_) => panic!("malformed pattern was accepted"),
        Err(e) => assert!(!e.msg.is_empty()),
    }
}

#[test]
fn relative_pattern_resolves_against_working_dir() {
    let mut f = Filter::new("/w");
    assert!(f.add_ignore("logs/out.txt", false).is_ok());
    assert!(f.is_excluded("/w/logs/out.txt"));
    assert!(!f.is_excluded("/x/logs/out.txt"));
}

#[test]
fn absolute_pattern_is_kept_as_given() {
    let mut f = Filter::new("/w");
    assert!(f.add_ignore("/tmp/cache", false).is_ok());
    assert!(f.is_excluded("/tmp/cache"));
}

#[test]
fn directory_pattern_widens_to_entries() {
    let mut f = Filter::new("/w");
    // The caller found that /w/src names a directory on disk.
    assert!(f.add_filter("src", true).is_ok());
    assert!(!f.is_excluded("/w/src/lib.rs"));
    // The directory itself is not matched by the widened pattern.
    assert!(f.is_excluded("/w/src"));
}

#[test]
fn resolve_reports_the_checked_path() {
    let f = Filter::new("/w");
    assert_eq!(f.resolve("src"), "/w/src".to_string());
    assert_eq!(f.resolve("/abs/p"), "/abs/p".to_string());
}

#[test]
fn add_filter_returns_the_compiled_pattern() {
    let mut f = Filter::new("/w");
    match f.add_filter("*.rs", false) {
        Ok(p) => assert_eq!(p.as_str(), "/w/*.rs"),
        Err(_) => panic!("pattern did not compile"),
    }
}
