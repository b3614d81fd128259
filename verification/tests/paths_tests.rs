use pathfilter::{ancestors, is_absolute, join_path, parent_dir, rules_for_file, split_lines};

#[test]
fn absolute_paths_start_with_a_separator() {
    assert!(is_absolute("/a/b"));
    assert!(!is_absolute("a/b"));
    assert!(!is_absolute(""));
}

#[test]
fn join_inserts_one_separator() {
    assert_eq!(join_path("/a", "b"), "/a/b".to_string());
    assert_eq!(join_path("/", "b"), "/b".to_string());
    assert_eq!(join_path("", "b"), "b".to_string());
}

#[test]
fn join_lets_an_absolute_path_replace_the_base() {
    assert_eq!(join_path("/a", "/x/y"), "/x/y".to_string());
}

#[test]
fn parent_drops_the_last_component() {
    assert_eq!(parent_dir("/a/b"), "/a".to_string());
    assert_eq!(parent_dir("/a"), "/".to_string());
}

#[test]
fn ancestor_chain_ends_at_the_root() {
    assert_eq!(
        ancestors("/repo/sub"),
        vec!["/repo/sub".to_string(), "/repo".to_string(), "/".to_string()],
    );
    assert_eq!(ancestors("/"), vec!["/".to_string()]);
}

#[test]
fn lines_split_on_newlines() {
    assert_eq!(
        split_lines("a\r\nb\nc"),
        vec!["a".to_string(), "b".to_string(), "c".to_string()],
    );
    assert_eq!(split_lines(""), Vec::<String>::new());
    assert_eq!(split_lines("a\n\n"), vec!["a".to_string(), "".to_string()]);
    // A carriage return not followed by a newline is kept.
    assert_eq!(split_lines("a\r"), vec!["a\r".to_string()]);
}

#[test]
fn rules_are_scoped_and_doubled() {
    assert_eq!(
        rules_for_file("/r", "/r/a/b/.gitignore", "x\n# c\n\ny\n"),
        vec![
            "a/b/x".to_string(),
            "a/b/x/**".to_string(),
            "a/b/y".to_string(),
            "a/b/y/**".to_string(),
        ],
    );
}

#[test]
fn root_level_rules_keep_their_text() {
    assert_eq!(
        rules_for_file("/r", "/r/.gitignore", "build/\n"),
        vec!["build/".to_string(), "build/**".to_string()],
    );
}
