use std::io::Write;

use modscan::archive::{contains_folded, matches_filter};
use modscan::collate::{
    collate_files, find_collated, gather, keep_names, mixin_view, occurrences, reverse_roots, Facet,
};
use modscan::descriptor::Environment;
use modscan::traverse::{traverse, Traversed};

fn archive(entries: &[(&str, &[u8])]) -> Vec<u8> {
    let mut w = zip::ZipWriter::new(std::io::Cursor::new(Vec::new()));
    for (name, data) in entries {
        let options = zip::write::FileOptions::default()
            .compression_method(zip::CompressionMethod::Stored);
        w.start_file(*name, options).unwrap();
        w.write_all(data).unwrap();
    }
    w.finish().unwrap().into_inner()
}

fn mod_with_mixins(id: &str, names: &[&str]) -> Vec<u8> {
    let list: Vec<String> = names.iter().map(|n| format!("\"{}\"", n)).collect();
    let desc = format!(r#"{{"id":"{}","version":"1","mixins":["m.json"]}}"#, id);
    let config = format!(r#"{{"mixins":[{}]}}"#, list.join(","));
    archive(&[("fabric.mod.json", desc.as_bytes()), ("m.json", config.as_bytes())])
}

fn strings(v: &[&str]) -> Vec<String> {
    v.iter().map(|s| s.to_string()).collect()
}

fn traversed(bytes: &[u8]) -> Traversed {
    traverse(&bytes.to_vec()).unwrap()
}

#[test]
fn shared_id_is_one_entry_with_both_files() {
    let files = vec![
        ("a.jar".to_string(), traversed(&mod_with_mixins("shared", &["X"]))),
        ("b.jar".to_string(), traversed(&mod_with_mixins("shared", &["Y"]))),
    ];
    let merged = collate_files(&files);
    let report = mixin_view(&merged, None);
    assert_eq!(report.len(), 1);
    assert_eq!(report[0].id, "shared");
    assert_eq!(report[0].file_names, strings(&["a.jar", "b.jar"]));
    assert_eq!(report[0].both, strings(&["X", "Y"]));
}

#[test]
fn merge_does_not_depend_on_file_order() {
    let make = || {
        vec![
            ("one.jar".to_string(), traversed(&mod_with_mixins("zeta", &["b", "a"]))),
            ("two.jar".to_string(), traversed(&mod_with_mixins("alpha", &["c"]))),
            ("three.jar".to_string(), traversed(&mod_with_mixins("zeta", &["a", "d"]))),
        ]
    };
    let forward = make();
    let mut backward = make();
    backward.reverse();
    let r1 = mixin_view(&collate_files(&forward), None);
    let r2 = mixin_view(&collate_files(&backward), None);
    assert_eq!(r1.len(), 2);
    assert_eq!(r1.len(), r2.len());
    for (x, y) in r1.iter().zip(r2.iter()) {
        assert_eq!(x.id, y.id);
        assert_eq!(x.file_names, y.file_names);
        assert_eq!(x.both, y.both);
        assert_eq!(x.client, y.client);
        assert_eq!(x.server, y.server);
    }
    assert_eq!(r1[0].id, "alpha");
    assert_eq!(r1[1].id, "zeta");
    assert_eq!(r1[1].both, strings(&["a", "b", "d"]));
    assert_eq!(r1[1].file_names, strings(&["one.jar", "three.jar"]));
}

#[test]
fn filter_keeps_only_matching_names() {
    let files = vec![
        ("a.jar".to_string(), traversed(&mod_with_mixins("first", &["FooMixin", "bar", "food"]))),
        ("b.jar".to_string(), traversed(&mod_with_mixins("second", &["nothing"]))),
    ];
    let merged = collate_files(&files);
    let filter = "FOO".to_string();
    let report = mixin_view(&merged, Some(&filter));
    assert_eq!(report.len(), 1);
    assert_eq!(report[0].id, "first");
    assert_eq!(report[0].both, strings(&["FooMixin", "food"]));
    for name in &report[0].both {
        assert!(name.to_lowercase().contains("foo"));
    }
}

#[test]
fn without_filter_mods_without_patches_are_listed() {
    let files = vec![("a.jar".to_string(), traversed(&archive(&[("fabric.mod.json", br#"{"id":"bare","version":"1"}"#)])))];
    let merged = collate_files(&files);
    let report = mixin_view(&merged, None);
    assert_eq!(report.len(), 1);
    assert!(report[0].both.is_empty());
    let filter = "x".to_string();
    assert!(mixin_view(&merged, Some(&filter)).is_empty());
}

#[test]
fn environment_sections_are_kept_apart() {
    let bytes = archive(&[
        ("fabric.mod.json", br#"{"id":"e","version":"1","mixins":["m.json"]}"#),
        ("m.json", br#"{"mixins":["B"],"client":["C2","C1"],"server":["S"]}"#),
    ]);
    let files = vec![("e.jar".to_string(), traversed(&bytes))];
    let report = mixin_view(&collate_files(&files), None);
    assert_eq!(report[0].both, strings(&["B"]));
    assert_eq!(report[0].client, strings(&["C1", "C2"]));
    assert_eq!(report[0].server, strings(&["S"]));
}

fn holder(id: &str, inner: &[u8]) -> Vec<u8> {
    let desc = format!(r#"{{"id":"{}","version":"1","jars":[{{"file":"META-INF/jars/lib.jar"}}]}}"#, id);
    archive(&[("fabric.mod.json", desc.as_bytes()), ("META-INF/jars/lib.jar", inner)])
}

#[test]
fn nested_in_two_files_has_two_parents() {
    let lib = archive(&[("fabric.mod.json", br#"{"id":"lib","version":"1"}"#)]);
    let files = vec![
        ("p.jar".to_string(), traversed(&holder("pa", &lib))),
        ("q.jar".to_string(), traversed(&holder("qb", &lib))),
    ];
    let merged = collate_files(&files);
    let i = find_collated(&merged, &"lib".to_string()).unwrap();
    assert_eq!(merged[i].parents, strings(&["pa", "qb"]));
    assert_eq!(merged[i].file_names, strings(&["lib.jar"]));
    assert_eq!(reverse_roots(&merged, None), strings(&["lib"]));
    let filter = "LI".to_string();
    assert_eq!(reverse_roots(&merged, Some(&filter)), strings(&["lib"]));
    let other = "zz".to_string();
    assert!(reverse_roots(&merged, Some(&other)).is_empty());
    let top = find_collated(&merged, &"pa".to_string()).unwrap();
    assert!(merged[top].parents.is_empty());
    assert_eq!(find_collated(&merged, &"none".to_string()), None);
}

#[test]
fn occurrences_list_roots_then_nested() {
    let lib = archive(&[("fabric.mod.json", br#"{"id":"lib","version":"1"}"#)]);
    let plain = archive(&[("x.txt", b"x")]);
    let files = vec![
        ("p.jar".to_string(), traversed(&holder("pa", &lib))),
        ("plain.jar".to_string(), traversed(&plain)),
    ];
    let occs = occurrences(&files);
    assert_eq!(occs.len(), 2);
    assert_eq!(occs[0].id, "pa");
    assert_eq!(occs[0].file_name, "p.jar");
    assert_eq!(occs[0].parent, None);
    assert_eq!(occs[1].id, "lib");
    assert_eq!(occs[1].file_name, "lib.jar");
    assert_eq!(occs[1].parent, Some("pa".to_string()));
    assert_eq!(gather(&occs, &"lib".to_string(), Facet::Parents), strings(&["pa"]));
    assert!(gather(&occs, &"lib".to_string(), Facet::Patches(Environment::Both)).is_empty());
}

#[test]
fn access_wideners_are_gathered() {
    let bytes = archive(&[
        ("fabric.mod.json", br#"{"id":"w","version":"1","accessWidener":"w.aw"}"#),
        ("w.aw", b"accessWidener v1 named\n"),
    ]);
    let files = vec![
        ("w1.jar".to_string(), traversed(&bytes)),
        ("w2.jar".to_string(), traversed(&bytes)),
    ];
    let merged = collate_files(&files);
    assert_eq!(merged[0].wideners, strings(&["accessWidener v1 named\n"]));
    assert_eq!(merged[0].file_names, strings(&["w1.jar", "w2.jar"]));
}

#[test]
fn filter_matching_ignores_case() {
    assert!(matches_filter("MyFooMixin", "foo"));
    assert!(matches_filter("myfoomixin", "FOO"));
    assert!(!matches_filter("MyBarMixin", "foo"));
    assert!(matches_filter("anything", ""));
    assert!(contains_folded("abc", "bc"));
    assert!(!contains_folded("abc", "BC"));
}

#[test]
fn keep_names_filters_in_order() {
    let v = strings(&["Alpha", "beta", "ALPHABET"]);
    let f = "alpha".to_string();
    assert_eq!(keep_names(&v, Some(&f)), strings(&["Alpha", "ALPHABET"]));
    assert_eq!(keep_names(&v, None), v);
}
