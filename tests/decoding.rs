use modscan::descriptor::{
    decode_descriptor, decode_jar, decode_mixin_config, decode_mixin_ref, env_from_name, Environment,
};
use modscan::json::{find_field, Json};

fn s(x: &str) -> Json {
    Json::Str(x.to_string())
}

fn obj(fields: Vec<(&str, Json)>) -> Json {
    Json::Object(fields.into_iter().map(|(k, v)| (k.to_string(), v)).collect())
}

#[test]
fn environment_names() {
    assert_eq!(env_from_name(&"*".to_string()), Some(Environment::Both));
    assert_eq!(env_from_name(&"client".to_string()), Some(Environment::Client));
    assert_eq!(env_from_name(&"server".to_string()), Some(Environment::Server));
    assert_eq!(env_from_name(&"Client".to_string()), None);
}

#[test]
fn descriptor_decodes_every_field() {
    let doc = obj(vec![
        ("id", s("m")),
        ("version", s("1.2")),
        ("name", Json::Null),
        ("environment", s("server")),
        ("jars", Json::Array(vec![obj(vec![("file", s("a/b.jar"))])])),
        (
            "mixins",
            Json::Array(vec![s("one.json"), obj(vec![("config", s("two.json")), ("environment", s("client"))])]),
        ),
        ("accessWidener", s("m.aw")),
    ]);
    let d = decode_descriptor(&doc).unwrap();
    assert_eq!(d.id, "m");
    assert_eq!(d.version, "1.2");
    assert_eq!(d.name, None);
    assert_eq!(d.environment, Environment::Server);
    assert_eq!(d.jars, vec!["a/b.jar".to_string()]);
    assert_eq!(d.mixins.len(), 2);
    assert_eq!(d.mixins[0].config, "one.json");
    assert_eq!(d.mixins[0].environment, None);
    assert_eq!(d.mixins[1].config, "two.json");
    assert_eq!(d.mixins[1].environment, Some(Environment::Client));
    assert_eq!(d.access_widener, Some("m.aw".to_string()));
}

#[test]
fn descriptor_with_wrong_types_is_rejected() {
    assert!(decode_descriptor(&obj(vec![("id", s("m"))])).is_none());
    assert!(decode_descriptor(&obj(vec![("id", Json::Other), ("version", s("1"))])).is_none());
    assert!(decode_descriptor(&obj(vec![("id", s("m")), ("version", s("1")), ("jars", s("x"))])).is_none());
    assert!(decode_descriptor(&obj(vec![("id", s("m")), ("version", s("1")), ("environment", Json::Null)])).is_none());
    assert!(decode_descriptor(&Json::Array(vec![])).is_none());
}

#[test]
fn jar_and_reference_entries() {
    assert_eq!(decode_jar(&obj(vec![("file", s("x.jar"))])), Some("x.jar".to_string()));
    assert_eq!(decode_jar(&s("x.jar")), None);
    let r = decode_mixin_ref(&obj(vec![("config", s("c.json")), ("environment", Json::Null)])).unwrap();
    assert_eq!(r.config, "c.json");
    assert_eq!(r.environment, None);
    assert!(decode_mixin_ref(&obj(vec![("config", s("c.json")), ("environment", s("mars"))])).is_none());
    assert!(decode_mixin_ref(&obj(vec![("environment", s("client"))])).is_none());
}

#[test]
fn mixin_config_decodes() {
    let doc = obj(vec![
        ("plugin", s("p.Plugin")),
        ("mixins", Json::Array(vec![s("A"), s("B")])),
        ("server", Json::Array(vec![s("S")])),
        ("package", s("net.example")),
    ]);
    let c = decode_mixin_config(&doc).unwrap();
    assert_eq!(c.plugin, Some("p.Plugin".to_string()));
    assert_eq!(c.mixins, vec!["A".to_string(), "B".to_string()]);
    assert!(c.client.is_empty());
    assert_eq!(c.server, vec!["S".to_string()]);
    assert!(decode_mixin_config(&obj(vec![("client", Json::Array(vec![Json::Other]))])).is_none());
}

#[test]
fn first_field_of_a_name_is_found() {
    let fields = vec![
        ("a".to_string(), s("1")),
        ("b".to_string(), s("2")),
        ("b".to_string(), s("3")),
    ];
    assert_eq!(find_field(&fields, &"b".to_string()), Some(1));
    assert_eq!(find_field(&fields, &"c".to_string()), None);
}
