use ochki::commands::dump::{base64_encode, dump_node, DumpStat};
use ochki::commands::load::{base64_decode, load_steps, load_summary, load_write, LoadWrite};
use ochki::output::StatJson;

#[test]
fn encode_known_values() {
    assert_eq!(base64_encode(b""), "");
    assert_eq!(base64_encode(b"f"), "Zg==");
    assert_eq!(base64_encode(b"fo"), "Zm8=");
    assert_eq!(base64_encode(b"foo"), "Zm9v");
    assert_eq!(base64_encode(b"foobar"), "Zm9vYmFy");
    assert_eq!(base64_encode(&[0xff, 0xfe, 0x00]), "//4A");
    assert_eq!(base64_encode(b"leaf"), "bGVhZg==");
}

#[test]
fn decode_known_values() {
    assert_eq!(base64_decode(""), b"".to_vec());
    assert_eq!(base64_decode("Zg=="), b"f".to_vec());
    assert_eq!(base64_decode("Zm8="), b"fo".to_vec());
    assert_eq!(base64_decode("Zm9vYmFy"), b"foobar".to_vec());
    assert_eq!(base64_decode("//4A"), vec![0xff, 0xfe, 0x00]);
    // A single leftover digit still yields one byte, as before.
    assert_eq!(base64_decode("Zm9vY"), vec![b'f', b'o', b'o', 0x60]);
}

#[test]
fn base64_roundtrip_all_bytes() {
    let all: Vec<u8> = (0u8..=255).collect();
    for n in 0..all.len() {
        let data = &all[..n];
        assert_eq!(base64_decode(&base64_encode(data)), data.to_vec());
    }
}

fn stat() -> StatJson {
    StatJson {
        czxid: 1, mzxid: 2, ctime: 3, mtime: 4, version: 5, cversion: 6, aversion: 7,
        ephemeral_owner: 0, data_length: 4, num_children: 1, pzxid: 8,
    }
}

#[test]
fn test_dump_load_roundtrip() {
    let leaf = dump_node("/dump/a", b"leaf", &stat(), vec![]);
    assert_eq!(leaf.data, "bGVhZg==");
    assert_eq!(
        leaf.stat,
        DumpStat { version: 5, cversion: 6, aversion: 7, data_length: 4, num_children: 1, ephemeral_owner: 0 }
    );
    let root = dump_node("/dump", b"", &stat(), vec![leaf]);
    let steps = load_steps("/restored", &root);
    assert_eq!(
        steps,
        vec![
            ("/restored/dump".to_string(), vec![]),
            ("/restored/dump/a".to_string(), b"leaf".to_vec()),
        ]
    );
    assert_eq!(load_summary(steps.len(), "/restored"), "Loaded 2 nodes into /restored");
}

#[test]
fn load_write_modes() {
    assert_eq!(load_write(false, true), LoadWrite::CreateOrFail);
    assert_eq!(load_write(false, false), LoadWrite::CreateOrFail);
    assert_eq!(load_write(true, true), LoadWrite::SetData);
    assert_eq!(load_write(true, false), LoadWrite::CreateOrSet);
}

#[test]
fn load_steps_cover_every_node_in_preorder() {
    let c = dump_node("/s/a/c", &[0u8, 255u8], &stat(), vec![]);
    let a = dump_node("/s/a", b"A", &stat(), vec![c]);
    let b = dump_node("/s/b", b"bee", &stat(), vec![]);
    let s = dump_node("/s", b"root", &stat(), vec![a, b]);
    let steps = load_steps("/r", &s);
    assert_eq!(
        steps,
        vec![
            ("/r/s".to_string(), b"root".to_vec()),
            ("/r/s/a".to_string(), b"A".to_vec()),
            ("/r/s/a/c".to_string(), vec![0u8, 255u8]),
            ("/r/s/b".to_string(), b"bee".to_vec()),
        ]
    );
}
