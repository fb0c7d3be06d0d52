use ochki::client::{child_path, creation_plan, created_path, normalize_path, NodeMode};
use ochki::repl::{abbrev_path, resolve_path, split_path};

#[test]
fn test_path_normalization() {
    assert_eq!(normalize_path("norm"), "/norm");
    assert_eq!(normalize_path("/norm"), "/norm");
    assert_eq!(normalize_path(""), "/");
    assert_eq!(normalize_path(normalize_path("a/b").as_str()), "/a/b");
}

#[test]
fn child_path_collapses_double_slash() {
    assert_eq!(child_path("/", "zookeeper"), "/zookeeper");
    assert_eq!(child_path("/a", "b"), "/a/b");
    assert_eq!(child_path("/a/", "b"), "/a/b");
    assert_eq!(child_path("/restored", "/dump"), "/restored/dump");
    assert_eq!(child_path("/x", "//y"), "/x//y");
}

#[test]
fn resolve_path_cases() {
    assert_eq!(resolve_path("/apps", "/abs"), "/abs");
    assert_eq!(resolve_path("/apps", "."), "/apps");
    assert_eq!(resolve_path("/apps", "./api"), "/apps/api");
    assert_eq!(resolve_path("/", "./api"), "/api");
    assert_eq!(resolve_path("/apps/api", ".."), "/apps");
    assert_eq!(resolve_path("/apps", ".."), "/");
    assert_eq!(resolve_path("/", ".."), "/");
    assert_eq!(resolve_path("/apps/api", "../web"), "/apps/web");
    assert_eq!(resolve_path("/apps", "../web"), "/web");
    assert_eq!(resolve_path("/apps", "api"), "/apps/api");
    assert_eq!(resolve_path("/", "api"), "/api");
}

#[test]
fn cd_into_child_and_back() {
    let cwd = "/apps";
    let child = resolve_path(cwd, "api");
    assert_eq!(resolve_path(child.as_str(), ".."), cwd);
}

#[test]
fn split_path_cases() {
    assert_eq!(split_path("/", "/al"), ("/".to_string(), "al".to_string(), true));
    assert_eq!(split_path("/", "/apps/a"), ("/apps".to_string(), "a".to_string(), true));
    assert_eq!(split_path("/test", "chi"), ("/test".to_string(), "chi".to_string(), false));
    assert_eq!(split_path("/test", "./f"), ("/test".to_string(), "f".to_string(), true));
    assert_eq!(split_path("/", "zzz"), ("/".to_string(), "zzz".to_string(), false));
}

#[test]
fn abbrev_path_keeps_path() {
    assert_eq!(abbrev_path("/"), "/");
    assert_eq!(abbrev_path("/a/b"), "/a/b");
}

#[test]
fn test_create_recursive() {
    let plan = creation_plan("/a/b/c/d").unwrap();
    assert_eq!(plan, vec!["/a", "/a/b", "/a/b/c", "/a/b/c/d"]);
    assert_eq!(creation_plan("a//b/").unwrap(), vec!["/a", "/a/b"]);
    assert!(creation_plan("/").is_none());
    assert!(creation_plan("").is_none());
}

#[test]
fn test_create_sequential() {
    assert_eq!(created_path("/seq", NodeMode::PersistentSequential, "0000000001"), "/seq0000000001");
    assert_eq!(created_path("/seq", NodeMode::EphemeralSequential, "0000000002"), "/seq0000000002");
    assert_eq!(created_path("/plain", NodeMode::Persistent, "0000000003"), "/plain");
    assert_eq!(created_path("/e", NodeMode::Ephemeral, "7"), "/e");
}

#[test]
fn bare_name_resolves_to_child_path() {
    for cwd in ["/", "/apps", "/a/b/c"] {
        for name in ["api", "x-1", "node_0000000001"] {
            assert_eq!(resolve_path(cwd, name), child_path(cwd, name));
        }
    }
}

#[test]
fn test_deep_nesting() {
    let mut path = String::new();
    for i in 0..10 {
        path.push_str(&format!("/level{}", i));
    }
    let plan = creation_plan(&path).unwrap();
    assert_eq!(plan.len(), 10);
    assert_eq!(plan[0], "/level0");
    assert_eq!(plan[9], path);
}
