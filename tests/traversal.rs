use std::io::Write;

use modscan::archive::leaf_name;
use modscan::descriptor::{Environment, MixinConfig};
use modscan::traverse::{collect_mixins, traverse, TraverseError, Traversed, MAX_NESTING};

fn archive(entries: &[(&str, &[u8])]) -> Vec<u8> {
    let mut w = zip::ZipWriter::new(std::io::Cursor::new(Vec::new()));
    for (name, data) in entries {
        let options = zip::write::FileOptions::default()
            .compression_method(zip::CompressionMethod::Stored);
        w.start_file(*name, options).unwrap();
        w.write_all(data).unwrap();
    }
    w.finish().unwrap().into_inner()
}

fn deflated(entries: &[(&str, &[u8])]) -> Vec<u8> {
    let mut w = zip::ZipWriter::new(std::io::Cursor::new(Vec::new()));
    for (name, data) in entries {
        let options = zip::write::FileOptions::default()
            .compression_method(zip::CompressionMethod::Deflated);
        w.start_file(*name, options).unwrap();
        w.write_all(data).unwrap();
    }
    w.finish().unwrap().into_inner()
}

fn as_mod(t: Traversed) -> modscan::traverse::ModInfo {
    match t {
        Traversed::Mod(m) => m,
        Traversed::NotAMod => panic!("expected a mod"),
    }
}

#[test]
fn archive_without_descriptor_is_not_a_mod() {
    let bytes = archive(&[("a.txt", b"hello"), ("data/b.bin", &[0, 1, 2])]);
    assert!(matches!(traverse(&bytes), Ok(Traversed::NotAMod)));
}

#[test]
fn empty_archive_is_not_a_mod() {
    let bytes = archive(&[]);
    assert!(matches!(traverse(&bytes), Ok(Traversed::NotAMod)));
}

#[test]
fn bytes_that_are_no_archive_fail() {
    let bytes = b"this is not a zip file".to_vec();
    assert!(matches!(traverse(&bytes), Err(TraverseError::MalformedArchive)));
}

#[test]
fn descriptor_without_id_is_invalid() {
    let bytes = archive(&[("fabric.mod.json", br#"{"version":"1.0"}"#)]);
    assert!(matches!(traverse(&bytes), Err(TraverseError::InvalidDescriptor)));
}

#[test]
fn descriptor_that_is_no_json_is_invalid() {
    let bytes = archive(&[("fabric.mod.json", b"{not json")]);
    assert!(matches!(traverse(&bytes), Err(TraverseError::InvalidDescriptor)));
}

#[test]
fn descriptor_with_unknown_environment_is_invalid() {
    let bytes = archive(&[("fabric.mod.json", br#"{"id":"a","version":"1","environment":"moon"}"#)]);
    assert!(matches!(traverse(&bytes), Err(TraverseError::InvalidDescriptor)));
}

#[test]
fn minimal_descriptor_gives_defaults() {
    let bytes = archive(&[("fabric.mod.json", br#"{"id":"a","version":"1.0"}"#)]);
    let m = as_mod(traverse(&bytes).unwrap());
    assert_eq!(m.id, "a");
    assert_eq!(m.version, "1.0");
    assert_eq!(m.name, None);
    assert_eq!(m.environment, Environment::Both);
    assert!(m.contained.is_empty());
    assert!(m.mixins.both.is_empty() && m.mixins.client.is_empty() && m.mixins.server.is_empty());
    assert!(m.plugins.is_empty());
    assert_eq!(m.access_widener, None);
}

#[test]
fn descriptor_fields_are_read() {
    let bytes = deflated(&[(
        "fabric.mod.json",
        br#"{"id":"m","version":"2","name":"My Mod","environment":"client","extra":[1,2]}"#,
    )]);
    let m = as_mod(traverse(&bytes).unwrap());
    assert_eq!(m.id, "m");
    assert_eq!(m.name, Some("My Mod".to_string()));
    assert_eq!(m.environment, Environment::Client);
}

#[test]
fn no_jars_gives_no_nested_archives() {
    let bytes = archive(&[
        ("fabric.mod.json", br#"{"id":"a","version":"1","jars":[]}"#),
        ("libs/x.jar", b"ignored"),
    ]);
    let m = as_mod(traverse(&bytes).unwrap());
    assert!(m.contained.is_empty());
}

#[test]
fn client_override_round_trip() {
    let bytes = archive(&[
        (
            "fabric.mod.json",
            br#"{"id":"a","version":"1.0","mixins":[{"config":"c.json","environment":"client"}]}"#,
        ),
        ("c.json", br#"{"mixins":["x.mixins.json"]}"#),
    ]);
    let m = as_mod(traverse(&bytes).unwrap());
    assert_eq!(m.mixins.client, vec!["x.mixins.json".to_string()]);
    assert!(m.mixins.both.is_empty());
    assert!(m.mixins.server.is_empty());
}

#[test]
fn server_override_collects_every_list() {
    let bytes = archive(&[
        (
            "fabric.mod.json",
            br#"{"id":"a","version":"1","mixins":[{"config":"s.json","environment":"server"}]}"#,
        ),
        ("s.json", br#"{"mixins":["A"],"client":["B"],"server":["C"],"plugin":"p.Plugin"}"#),
    ]);
    let m = as_mod(traverse(&bytes).unwrap());
    assert!(m.mixins.both.is_empty());
    assert!(m.mixins.client.is_empty());
    assert_eq!(m.mixins.server, vec!["A".to_string(), "B".to_string(), "C".to_string()]);
    assert_eq!(m.plugins, vec!["p.Plugin".to_string()]);
}

#[test]
fn unforced_lists_go_to_their_own_bucket_and_keep_duplicates() {
    let bytes = archive(&[
        (
            "fabric.mod.json",
            br#"{"id":"a","version":"1","mixins":["one.json",{"config":"two.json","environment":"*"},{"config":"one.json"}]}"#,
        ),
        ("one.json", br#"{"mixins":["A"],"client":["B"],"server":["C"]}"#),
        ("two.json", br#"{"mixins":["D"],"plugin":null}"#),
    ]);
    let m = as_mod(traverse(&bytes).unwrap());
    assert_eq!(m.mixins.both, vec!["A".to_string(), "D".to_string(), "A".to_string()]);
    assert_eq!(m.mixins.client, vec!["B".to_string(), "B".to_string()]);
    assert_eq!(m.mixins.server, vec!["C".to_string(), "C".to_string()]);
    assert!(m.plugins.is_empty());
}

#[test]
fn broken_or_missing_mixin_config_is_skipped() {
    let bytes = archive(&[
        (
            "fabric.mod.json",
            br#"{"id":"a","version":"1","mixins":["missing.json","bad.json","good.json"]}"#,
        ),
        ("bad.json", br#"{"mixins":[1]}"#),
        ("good.json", br#"{"mixins":["G"],"plugin":"q"}"#),
    ]);
    let m = as_mod(traverse(&bytes).unwrap());
    assert_eq!(m.mixins.both, vec!["G".to_string()]);
    assert_eq!(m.plugins, vec!["q".to_string()]);
}

#[test]
fn nested_archive_is_keyed_by_leaf_name() {
    let inner = archive(&[("readme.txt", b"plain library")]);
    let outer = archive(&[
        ("fabric.mod.json", br#"{"id":"outer","version":"1","jars":[{"file":"libs/inner.jar"}]}"#),
        ("libs/inner.jar", &inner),
    ]);
    let m = as_mod(traverse(&outer).unwrap());
    assert_eq!(m.id, "outer");
    assert_eq!(m.contained.len(), 1);
    assert_eq!(m.contained[0].0, "inner.jar");
    assert!(matches!(m.contained[0].1, Traversed::NotAMod));
}

#[test]
fn nested_mod_is_traversed() {
    let inner = archive(&[("fabric.mod.json", br#"{"id":"lib","version":"3"}"#)]);
    let outer = deflated(&[
        ("fabric.mod.json", br#"{"id":"outer","version":"1","jars":[{"file":"META-INF/jars/lib.jar"}]}"#),
        ("META-INF/jars/lib.jar", &inner),
    ]);
    let m = as_mod(traverse(&outer).unwrap());
    assert_eq!(m.contained[0].0, "lib.jar");
    let lib = match &m.contained[0].1 {
        Traversed::Mod(l) => l,
        Traversed::NotAMod => panic!("expected a nested mod"),
    };
    assert_eq!(lib.id, "lib");
    assert_eq!(lib.version, "3");
}

#[test]
fn same_leaf_name_keeps_the_last() {
    let first = archive(&[("fabric.mod.json", br#"{"id":"first","version":"1"}"#)]);
    let second = archive(&[("fabric.mod.json", br#"{"id":"second","version":"1"}"#)]);
    let outer = archive(&[
        (
            "fabric.mod.json",
            br#"{"id":"o","version":"1","jars":[{"file":"a/x.jar"},{"file":"b/x.jar"}]}"#,
        ),
        ("a/x.jar", &first),
        ("b/x.jar", &second),
    ]);
    let m = as_mod(traverse(&outer).unwrap());
    assert_eq!(m.contained.len(), 1);
    assert_eq!(m.contained[0].0, "x.jar");
    match &m.contained[0].1 {
        Traversed::Mod(l) => assert_eq!(l.id, "second"),
        Traversed::NotAMod => panic!("expected a nested mod"),
    }
}

#[test]
fn missing_nested_archive_is_entry_not_found() {
    let outer = archive(&[("fabric.mod.json", br#"{"id":"o","version":"1","jars":[{"file":"gone.jar"}]}"#)]);
    assert!(matches!(traverse(&outer), Err(TraverseError::EntryNotFound)));
}

#[test]
fn broken_nested_archive_fails_the_parent() {
    let outer = archive(&[
        ("fabric.mod.json", br#"{"id":"o","version":"1","jars":[{"file":"bad.jar"}]}"#),
        ("bad.jar", b"not a zip"),
    ]);
    assert!(matches!(traverse(&outer), Err(TraverseError::MalformedArchive)));
}

#[test]
fn access_widener_is_read_as_text() {
    let bytes = archive(&[
        ("fabric.mod.json", br#"{"id":"a","version":"1","accessWidener":"a.accesswidener"}"#),
        ("a.accesswidener", b"accessWidener v1 named\naccessible class net/x/Y\n"),
    ]);
    let m = as_mod(traverse(&bytes).unwrap());
    assert_eq!(
        m.access_widener,
        Some("accessWidener v1 named\naccessible class net/x/Y\n".to_string())
    );
}

#[test]
fn missing_access_widener_is_entry_not_found() {
    let bytes = archive(&[("fabric.mod.json", br#"{"id":"a","version":"1","accessWidener":"gone"}"#)]);
    assert!(matches!(traverse(&bytes), Err(TraverseError::EntryNotFound)));
}

#[test]
fn access_widener_that_is_no_text_is_encoding_error() {
    let bytes = archive(&[
        ("fabric.mod.json", br#"{"id":"a","version":"1","accessWidener":"aw"}"#),
        ("aw", &[0xff, 0xfe, 0x00]),
    ]);
    assert!(matches!(traverse(&bytes), Err(TraverseError::EncodingError)));
}

#[test]
fn nesting_beyond_the_limit_fails() {
    let mut bytes = archive(&[("fabric.mod.json", br#"{"id":"leaf","version":"1"}"#)]);
    for _ in 0..(MAX_NESTING + 1) {
        bytes = archive(&[
            ("fabric.mod.json", br#"{"id":"n","version":"1","jars":[{"file":"in.jar"}]}"#),
            ("in.jar", &bytes),
        ]);
    }
    assert!(matches!(traverse(&bytes), Err(TraverseError::TooDeep)));
}

#[test]
fn leaf_name_takes_the_last_segment() {
    assert_eq!(leaf_name("libs/inner.jar"), "inner.jar");
    assert_eq!(leaf_name("inner.jar"), "inner.jar");
    assert_eq!(leaf_name("a/b/c.jar"), "c.jar");
    assert_eq!(leaf_name("dir/"), "");
    assert_eq!(leaf_name(""), "");
}

#[test]
fn collect_mixins_distributes_by_override() {
    let config = MixinConfig {
        plugin: Some("P".to_string()),
        mixins: vec!["m".to_string()],
        client: vec!["c".to_string()],
        server: vec!["s".to_string()],
    };
    let other = MixinConfig {
        plugin: None,
        mixins: vec!["m2".to_string()],
        client: vec![],
        server: vec!["s2".to_string()],
    };
    let entries = vec![
        (Some(Environment::Server), Some(config)),
        (None, None),
        (Some(Environment::Both), Some(other)),
    ];
    let (lists, plugins) = collect_mixins(&entries);
    assert_eq!(lists.both, vec!["m2".to_string()]);
    assert!(lists.client.is_empty());
    assert_eq!(lists.server, vec!["m".to_string(), "c".to_string(), "s".to_string(), "s2".to_string()]);
    assert_eq!(plugins, vec!["P".to_string()]);
}
