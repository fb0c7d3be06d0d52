use ochki::commands::{auth, cp, create, delete, node_exists, get, health, ls, mv, stat, tree};
use ochki::client::NodeMode;
use ochki::output::{
    ChildInfo, CpResult, CreateResult, DeleteResult, LsDetailedResult, LsResult, MvResult,
    StatJson, TreeEntry, TreeResult,
};
use ochki::style;

fn plain() {
    colored::control::set_override(false);
}

fn stat_of(version: i32, data_length: i32, num_children: i32, owner: i64) -> StatJson {
    StatJson {
        czxid: 10, mzxid: 11, ctime: 1700000000000, mtime: 1700000000001, version,
        cversion: 0, aversion: 0, ephemeral_owner: owner, data_length, num_children, pzxid: -1,
    }
}

const STAT_LINES: &str = "cZxid: 10\nmZxid: 11\ncTime: 1700000000000\nmTime: 1700000000001\nVersion: 1\ncVersion: 0\naVersion: 0\nEphemeralOwner: 0\nDataLength: 2\nNumChildren: 0\npZxid: -1";

#[test]
fn kv_line() {
    plain();
    assert_eq!(style::kv("Version", "3"), "Version: 3");
}

#[test]
fn styles_paint_when_forced() {
    colored::control::set_override(true);
    assert_eq!(style::path("/a"), "\x1b[36m/a\x1b[0m");
    assert_eq!(style::label("k"), "\x1b[1mk\x1b[0m");
    colored::control::set_override(false);
    assert_eq!(style::path("/a"), "/a");
}

#[test]
fn stat_printed() {
    plain();
    assert_eq!(stat::format_human(&stat_of(1, 2, 0, 0)), STAT_LINES);
}

#[test]
fn test_binary_data() {
    plain();
    let r = get::get_result("/test".to_string(), &b"hello".to_vec(), stat_of(0, 5, 0, 0));
    assert_eq!(r.data, "hello");
    assert_eq!(r.data_encoding, "utf-8");
    let r = get::get_result("/bin".to_string(), &vec![0x00, 0x01, 0xFF, 0xFE], stat_of(0, 4, 0, 0));
    assert_eq!(r.data_encoding, "hex");
    assert_eq!(r.data, "<binary:4:0001fffe>");
    let r = get::get_result("/u".to_string(), &"Привет 🌍".as_bytes().to_vec(), stat_of(0, 4, 0, 0));
    assert_eq!(r.data, "Привет 🌍");
    let r = get::get_result("/e".to_string(), &vec![], stat_of(0, 0, 0, 0));
    assert_eq!(r.data, "");
    assert_eq!(r.data_encoding, "utf-8");
}

#[test]
fn get_hex_printed_then_stat() {
    colored::control::set_override(true);
    let st = stat_of(0, 2, 0, 0);
    let r = get::get_result("/b".to_string(), &vec![0x00, 0xFF], st.clone());
    let out = get::format_human(&r);
    let expected = format!("\x1b[33m<binary:2:00ff>\x1b[0m\n\n{}", stat::format_human(&st));
    colored::control::set_override(false);
    assert_eq!(out, expected);
}

#[test]
fn get_printed() {
    plain();
    let r = get::get_result("/x".to_string(), &b"v2".to_vec(), stat_of(1, 2, 0, 0));
    assert_eq!(get::format_human(&r), format!("v2\n\n{}", STAT_LINES));
}

#[test]
fn set_printed() {
    plain();
    let r = ochki::commands::set::set_result("/x".to_string(), stat_of(1, 2, 0, 0));
    assert_eq!(r.version, 1);
    assert_eq!(ochki::commands::set::format_human(&r), "Updated /x (version: 1)");
}

#[test]
fn create_printed() {
    plain();
    assert_eq!(create::mode_for(true, true), NodeMode::EphemeralSequential);
    assert_eq!(create::mode_for(true, false), NodeMode::Ephemeral);
    assert_eq!(create::mode_for(false, true), NodeMode::PersistentSequential);
    assert_eq!(create::mode_for(false, false), NodeMode::Persistent);
    assert_eq!(create::mode_name(NodeMode::Container), "container");
    let r = create::create_result("/eph".to_string(), NodeMode::Ephemeral);
    assert_eq!(r.mode, "ephemeral");
    assert_eq!(create::format_human(&r), "Created /eph (ephemeral)");
    let r = CreateResult { path: "/s".into(), mode: "persistent_sequential".into() };
    assert_eq!(create::format_human(&r), "Created /s (persistent_sequential)");
}

#[test]
fn delete_cp_mv_printed() {
    assert_eq!(delete::format_human(&DeleteResult { path: "/del".into(), recursive: false }), "Deleted /del");
    assert_eq!(delete::format_human(&DeleteResult { path: "/r".into(), recursive: true }), "Deleted /r (recursive)");
    assert_eq!(
        cp::format_human(&CpResult { src: "/src".into(), dst: "/dst".into(), recursive: true }),
        "Copied /src -> /dst (recursive)"
    );
    assert_eq!(cp::format_human(&CpResult { src: "/a".into(), dst: "/b".into(), recursive: false }), "Copied /a -> /b");
    assert_eq!(mv::format_human(&MvResult { src: "/old".into(), dst: "/new".into() }), "Moved /old -> /new");
    assert_eq!(
        mv::dry_run_notice("/old", "/new"),
        "Would move /old -> /new (non-atomic: read -> create -> delete)"
    );
    assert_eq!(mv::ephemeral_refusal("/e", 42), Some("Cannot move ephemeral node /e".to_string()));
    assert_eq!(mv::ephemeral_refusal("/p", 0), None);
    assert_eq!(
        cp::ephemeral_copy_warning("/e", 7),
        Some("Warning: /e is ephemeral, skipping".to_string())
    );
    assert_eq!(cp::ephemeral_copy_warning("/p", 0), None);
    assert!(mv::non_atomic_warning().starts_with("Warning: mv is non-atomic"));
}

#[test]
fn health_address_and_output() {
    assert_eq!(health::health_address("localhost"), "localhost:2181");
    assert_eq!(health::health_address("zk:2182"), "zk:2182");
    let r = health::health_result("ruok", "zk", "imok".to_string());
    assert_eq!(r.command, "ruok");
    assert_eq!(health::format_human(&r), "imok");
}

#[test]
fn auth_printed() {
    plain();
    let r = auth::AddAuthResult { scheme: "digest".into() };
    assert_eq!(auth::format_human(&r), "\u{2713} Authenticated via digest");
}

#[test]
fn exists_result_and_printed() {
    plain();
    let r = node_exists::exists_result("/e".to_string(), Some(stat_of(3, 4, 1, 0)), false);
    assert!(r.exists);
    assert!(r.stat.is_none());
    assert_eq!(node_exists::format_human(&r), None);
    let r = node_exists::exists_result("/e".to_string(), Some(stat_of(3, 4, 1, 0)), true);
    assert_eq!(
        node_exists::format_human(&r),
        Some("\u{2713} /e (version=3, dataLength=4, numChildren=1)".to_string())
    );
    let r = node_exists::exists_result("/nope".to_string(), None, true);
    assert!(!r.exists);
    assert_eq!(node_exists::format_human(&r), None);
}

#[test]
fn test_ls_detailed() {
    let simple = ls::LsOutput::Simple(LsResult { path: "/".into(), children: vec!["a".into(), "b".into()] });
    assert_eq!(ls::format_human(&simple), "a\nb");
    let s = stat_of(0, 4, 2, 0);
    let e = stat_of(0, 0, 0, 99);
    let detailed = ls::LsOutput::Detailed(LsDetailedResult {
        path: "/".into(),
        children: vec![ls::child_info("d1".into(), &s), ls::child_info("d2".into(), &e)],
    });
    assert_eq!(ls::format_human(&detailed), "P\t4\t2\td1\nE\t0\t0\td2");
    let c: &ChildInfo = match &detailed {
        ls::LsOutput::Detailed(d) => &d.children[1],
        _ => unreachable!(),
    };
    assert!(c.ephemeral);
}

#[test]
fn test_tree() {
    plain();
    let r = TreeResult {
        path: "/tr".into(),
        tree: vec![
            TreeEntry { path: "/tr".into(), depth: 0 },
            TreeEntry { path: "/tr/a".into(), depth: 1 },
            TreeEntry { path: "/tr/a/b".into(), depth: 2 },
        ],
    };
    assert_eq!(tree::format_human(&r), "/tr\n\u{251c}\u{2500}a\n\u{2502} \u{251c}\u{2500}b");
    assert!(tree::within_depth(2, None));
    assert!(tree::within_depth(2, Some(2)));
    assert!(!tree::within_depth(3, Some(2)));
}

#[test]
fn watch_line_printed() {
    plain();
    let e = ochki::commands::watch::WatchEvent { path: "/a".into(), event_type: "NodeCreated".into() };
    assert_eq!(ochki::commands::watch::format_event(&e), "WatchEvent: /a \"NodeCreated\"");
}
