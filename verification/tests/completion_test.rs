use ochki::repl::{children_to_fetch, complete_path};

fn names(line: &str, pos: usize, cwd: &str, children: &[&str]) -> (usize, Vec<String>) {
    let kids: Vec<String> = children.iter().map(|s| s.to_string()).collect();
    let (start, cands) = complete_path(line, pos, cwd, &kids);
    (start, cands.iter().map(|c| c.display().to_string()).collect())
}

#[test]
fn test_complete_command_names() {
    let (start, n) = names("ge", 2, "/", &[]);
    assert_eq!(start, 0);
    assert!(n.contains(&"get".to_string()));
    assert!(n.contains(&"get-acl".to_string()));
    let (start, n) = names("cr", 2, "/", &[]);
    assert_eq!(start, 0);
    assert_eq!(n, vec!["create"]);
}

#[test]
fn test_complete_root_children() {
    assert_eq!(children_to_fetch("get /al", 7, "/"), Some("/".to_string()));
    let (start, n) = names("get /al", 6, "/", &["alpha", "beta", "alpha-sub", "zookeeper"]);
    assert_eq!(start, 4);
    assert_eq!(n, vec!["/alpha", "/alpha-sub"]);
}

#[test]
fn test_complete_subpath() {
    assert_eq!(children_to_fetch("ls /apps/a", 9, "/"), Some("/apps".to_string()));
    let (start, n) = names("ls /apps/a", 9, "/", &["api", "web"]);
    assert_eq!(start, 3);
    assert_eq!(n, vec!["/apps/api", "/apps/web"]);
    let (start, n) = names("ls /apps/a", 10, "/", &["api", "web"]);
    assert_eq!(start, 3);
    assert_eq!(n, vec!["/apps/api"]);
}

#[test]
fn test_complete_with_cwd() {
    assert_eq!(children_to_fetch("get chi", 7, "/test"), Some("/test".to_string()));
    let (start, n) = names("get chi", 7, "/test", &["child1", "child2", "other"]);
    assert_eq!(start, 4);
    assert_eq!(n, vec!["child1", "child2"]);
}

#[test]
fn test_complete_dot_slash() {
    assert_eq!(children_to_fetch("get ./f", 7, "/test"), Some("/test".to_string()));
    let (start, n) = names("get ./f", 7, "/test", &["foo", "bar"]);
    assert_eq!(start, 4);
    assert_eq!(n, vec!["/test/foo"]);
}

#[test]
fn test_complete_no_match() {
    let (start, n) = names("get /zzz", 8, "/", &["alpha", "zookeeper"]);
    assert_eq!(start, 4);
    assert!(n.is_empty());
}

#[test]
fn test_complete_non_path_command() {
    assert_eq!(children_to_fetch("connect loc", 11, "/"), None);
    let (start, n) = names("connect loc", 11, "/", &["loc1"]);
    assert_eq!(start, 11);
    assert!(n.is_empty());
}

#[test]
fn completion_partial_relative_path_keeps_typed_head() {
    let (start, n) = names("get apps/a", 10, "/", &["api", "web"]);
    assert_eq!(start, 4);
    assert_eq!(n, vec!["apps/api"]);
    let (start, n) = names("get ", 4, "/", &["a", "b"]);
    assert_eq!(start, 4);
    assert_eq!(n, vec!["a", "b"]);
}

#[test]
fn completion_counts_bytes_before_word() {
    // "é" takes two bytes: the word "/a" starts at byte 6.
    let (start, n) = names("ls é /a", 8, "/", &["ab", "b"]);
    assert_eq!(start, 6);
    assert_eq!(n, vec!["/ab"]);
}
