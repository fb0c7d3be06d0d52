use ochki::commands::diff::{diff_snapshots, format_human};
use ochki::commands::find::{is_reported, node_name, NameMatcher};
use ochki::output::DiffResult;
use ochki::walk::Walk;

fn snap(items: &[(&str, &[u8])]) -> Vec<(String, Vec<u8>)> {
    items.iter().map(|(p, d)| (p.to_string(), d.to_vec())).collect()
}

#[test]
fn test_diff_same_cluster() {
    let t = snap(&[("/diff-test", b"same")]);
    let r = diff_snapshots("/diff-test".to_string(), &t, &t);
    assert!(r.added.is_empty());
    assert!(r.removed.is_empty());
    assert!(r.modified.is_empty());
    assert_eq!(format_human(&r), "No differences found");
}

#[test]
fn diff_finds_each_kind() {
    let t1 = snap(&[("/r", b""), ("/r/a", b"1"), ("/r/b", b"2"), ("/r/c", b"3")]);
    let t2 = snap(&[("/r", b""), ("/r/b", b"2"), ("/r/c", b"X"), ("/r/d", b"4")]);
    let r = diff_snapshots("/r".to_string(), &t1, &t2);
    assert_eq!(r.added, vec!["/r/d"]);
    assert_eq!(r.removed, vec!["/r/a"]);
    assert_eq!(r.modified, vec!["/r/c"]);
    assert_eq!(
        format_human(&r),
        "- /r/a (only in host1)\n+ /r/d (only in host2)\n~ /r/c (data differs)"
    );
    let back = diff_snapshots("/r".to_string(), &t2, &t1);
    assert_eq!(back.added, vec!["/r/a"]);
    assert_eq!(back.removed, vec!["/r/d"]);
}

#[test]
fn diff_printed_from_result() {
    let r = DiffResult { path: "/".into(), added: vec!["/x".into()], removed: vec![], modified: vec![] };
    assert_eq!(format_human(&r), "+ /x (only in host2)");
}

#[test]
fn walk_is_preorder() {
    let mut w = Walk::new("/t");
    let mut seen = Vec::new();
    while let Some((p, d)) = w.next() {
        seen.push((p.clone(), d));
        let kids: Vec<String> = match p.as_str() {
            "/t" => vec!["a".into(), "b".into()],
            "/t/a" => vec!["x".into()],
            _ => vec![],
        };
        w.push_children(&p, d, &kids);
    }
    let expect: Vec<(String, usize)> = vec![
        ("/t".into(), 0), ("/t/a".into(), 1), ("/t/a/x".into(), 2), ("/t/b".into(), 1),
    ];
    assert_eq!(seen, expect);
}

#[test]
fn test_find() {
    assert_eq!(node_name("/f/alpha"), "alpha");
    assert_eq!(node_name("noslash"), "noslash");
    assert_eq!(node_name("/"), "");
    let m = NameMatcher::new("al.*").ok().unwrap();
    assert!(is_reported(&m, "/f/alpha", 0, None));
    assert!(!is_reported(&m, "/f/beta", 0, None));
    assert!(!is_reported(&m, "/alpha/beta", 0, None));
    assert!(is_reported(&m, "/f/alpha", 5, Some("ephemeral")));
    assert!(!is_reported(&m, "/f/alpha", 0, Some("ephemeral")));
    assert!(is_reported(&m, "/f/alpha", 0, Some("persistent")));
    assert!(!is_reported(&m, "/f/alpha", 0, Some("other")));
    assert!(NameMatcher::new("foo(bar").is_err());
}

#[test]
fn bad_pattern_gives_regex_message() {
    let err = NameMatcher::new("foo(bar").err().unwrap();
    assert_eq!(err, regex::Regex::new("foo(bar").unwrap_err().to_string());
}
