use ochki::commands::acl::{acl_entry, format_human, format_perms, parse_acl, parse_perms, AclError, Perms};
use ochki::output::{AclEntry, AclResult};

fn perms(c: bool, d: bool, r: bool, w: bool, a: bool) -> Perms {
    Perms { create: c, delete: d, read: r, write: w, admin: a }
}

#[test]
fn perms_letters() {
    assert_eq!(format_perms(perms(true, true, true, true, true)), "cdrwa");
    assert_eq!(format_perms(perms(false, false, true, false, false)), "r");
    assert_eq!(format_perms(perms(false, false, false, false, false)), "");
    assert_eq!(format_perms(perms(true, false, false, true, true)), "cwa");
}

#[test]
fn perms_parse() {
    assert_eq!(parse_perms("cdrwa"), Ok(perms(true, true, true, true, true)));
    assert_eq!(parse_perms("ar"), Ok(perms(false, false, true, false, true)));
    assert_eq!(parse_perms("rr"), Ok(perms(false, false, true, false, false)));
    assert_eq!(parse_perms(""), Ok(perms(false, false, false, false, false)));
    assert_eq!(parse_perms("rxz"), Err('x'));
}

#[test]
fn perms_roundtrip() {
    for bits in 0u8..32 {
        let p = perms(bits & 1 != 0, bits & 2 != 0, bits & 4 != 0, bits & 8 != 0, bits & 16 != 0);
        assert_eq!(parse_perms(format_perms(p).as_str()), Ok(p));
    }
}

#[test]
fn acl_parse() {
    let a = parse_acl("world:anyone:r").unwrap();
    assert_eq!(a.scheme, "world");
    assert_eq!(a.id, "anyone");
    assert_eq!(a.perms, perms(false, false, true, false, false));
    let b = parse_acl("digest:user:hash:cdrwa");
    assert_eq!(b, Err(AclError::InvalidPermission('h')));
    let c = parse_acl("ip:10.0.0.1:rw").unwrap();
    assert_eq!(c.id, "10.0.0.1");
    assert_eq!(parse_acl("world:anyone"), Err(AclError::Format));
    assert_eq!(parse_acl("nothing"), Err(AclError::Format));
    assert_eq!(parse_acl("world:anyone:q"), Err(AclError::InvalidPermission('q')));
}

#[test]
fn acl_errors_read_as_messages() {
    assert_eq!(AclError::Format.message(), "ACL format: scheme:id:perms (e.g. world:anyone:cdrwa)");
    assert_eq!(
        AclError::InvalidPermission('x').message(),
        "Invalid permission char: 'x'. Use: cdrwa"
    );
}

#[test]
fn test_acl_roundtrip() {
    let e = acl_entry("world", "anyone", perms(false, true, true, false, true));
    let line = format!("{}:{}:{}", e.scheme, e.id, e.permissions);
    assert_eq!(line, "world:anyone:dra");
    let back = parse_acl(&line).unwrap();
    assert_eq!(back.perms, perms(false, true, true, false, true));
}

#[test]
fn acl_printed() {
    let r = AclResult {
        path: "/acl-test".to_string(),
        acls: vec![
            AclEntry { scheme: "world".into(), id: "anyone".into(), permissions: "cdrwa".into() },
            AclEntry { scheme: "ip".into(), id: "127.0.0.1".into(), permissions: "r".into() },
        ],
    };
    assert_eq!(format_human(&r), "world:anyone:cdrwa\nip:127.0.0.1:r");
    let empty = AclResult { path: "/x".into(), acls: vec![] };
    assert_eq!(format_human(&empty), "");
}
