//! Decoding of the mod descriptor and of patch-configuration documents from JSON.
use vstd::prelude::*;
use crate::json::{Json, JsonAt, Json1, Json2, Json3, view1, view3, items1, field, lookup, opt_view0, opt_view2};

verus! {

/// Where a mod, or a patch, is meant to run.
#[derive(Clone, Copy, Debug, PartialEq, Eq, Structural)]
pub enum Environment {
    Both,
    Client,
    Server,
}

/// The environment that a document names: `"*"`, `"client"` or `"server"`.
pub open spec fn env_named(s: Seq<char>) -> Option<Environment> {
    if s == "*"@ {
        Some(Environment::Both)
    } else if s == "client"@ {
        Some(Environment::Client)
    } else if s == "server"@ {
        Some(Environment::Server)
    } else {
        None
    }
}

/// A string field that may be absent or null.
pub open spec fn opt_str_of<C>(v: Option<JsonAt<C>>) -> Option<Option<Seq<char>>> {
    match v {
        None => Some(None),
        Some(JsonAt::Null) => Some(None),
        Some(JsonAt::Str(s)) => Some(Some(s)),
        _ => None,
    }
}

/// A string field that must be present.
pub open spec fn req_str_of<C>(v: Option<JsonAt<C>>) -> Option<Seq<char>> {
    match v {
        Some(JsonAt::Str(s)) => Some(s),
        _ => None,
    }
}

/// An environment field that defaults to `Both` when absent.
pub open spec fn env_field_of<C>(v: Option<JsonAt<C>>) -> Option<Environment> {
    match v {
        None => Some(Environment::Both),
        Some(JsonAt::Str(s)) => env_named(s),
        _ => None,
    }
}

/// A nested-archive entry: `{"file": path}`.
pub open spec fn jar_of(item: Json1) -> Option<Seq<char>> {
    match item {
        JsonAt::Object(fields) => req_str_of(field(fields, "file"@)),
        _ => None,
    }
}

/// A patch-configuration reference: a bare name, or `{"config": name, "environment": env}`
/// where the environment may be absent or null.
pub open spec fn mixin_ref_of(item: Json1) -> Option<(Seq<char>, Option<Environment>)> {
    match item {
        JsonAt::Str(s) => Some((s, None)),
        JsonAt::Object(fields) => match req_str_of(field(fields, "config"@)) {
            Some(c) => match field(fields, "environment"@) {
                None => Some((c, None)),
                Some(JsonAt::Null) => Some((c, None)),
                Some(JsonAt::Str(e)) => match env_named(e) {
                    Some(env) => Some((c, Some(env))),
                    None => None,
                },
                _ => None,
            },
            None => None,
        },
        _ => None,
    }
}

pub open spec fn str_item_of(item: Json1) -> Option<Seq<char>> {
    match item {
        JsonAt::Str(s) => Some(s),
        _ => None,
    }
}

/// The paths of a list of nested-archive entries; `None` if one entry does not decode.
pub open spec fn jars_of(items: Seq<Json1>) -> Option<Seq<Seq<char>>> {
    if forall|i: int| 0 <= i < items.len() ==> #[trigger] jar_of(items[i]) is Some {
        Some(items.map_values(|x: Json1| jar_of(x)->0))
    } else {
        None
    }
}

/// A list of patch-configuration references; `None` if one does not decode.
pub open spec fn mixin_refs_of(items: Seq<Json1>) -> Option<Seq<(Seq<char>, Option<Environment>)>> {
    if forall|i: int| 0 <= i < items.len() ==> #[trigger] mixin_ref_of(items[i]) is Some {
        Some(items.map_values(|x: Json1| mixin_ref_of(x)->0))
    } else {
        None
    }
}

/// A list of strings; `None` if one item is not a string.
pub open spec fn strs_of(items: Seq<Json1>) -> Option<Seq<Seq<char>>> {
    if forall|i: int| 0 <= i < items.len() ==> #[trigger] str_item_of(items[i]) is Some {
        Some(items.map_values(|x: Json1| str_item_of(x)->0))
    } else {
        None
    }
}

pub open spec fn jars_field_of(v: Option<Json2>) -> Option<Seq<Seq<char>>> {
    match v {
        None => Some(Seq::empty()),
        Some(JsonAt::Array(items)) => jars_of(items),
        _ => None,
    }
}

pub open spec fn mixin_refs_field_of(v: Option<Json2>) -> Option<Seq<(Seq<char>, Option<Environment>)>> {
    match v {
        None => Some(Seq::empty()),
        Some(JsonAt::Array(items)) => mixin_refs_of(items),
        _ => None,
    }
}

pub open spec fn strs_field_of(v: Option<Json2>) -> Option<Seq<Seq<char>>> {
    match v {
        None => Some(Seq::empty()),
        Some(JsonAt::Array(items)) => strs_of(items),
        _ => None,
    }
}

/// What a mod descriptor declares.
pub struct DescriptorModel {
    pub id: Seq<char>,
    pub version: Seq<char>,
    pub name: Option<Seq<char>>,
    pub environment: Environment,
    pub jars: Seq<Seq<char>>,
    pub mixins: Seq<(Seq<char>, Option<Environment>)>,
    pub access_widener: Option<Seq<char>>,
}

/// The descriptor that a document declares, or `None` where it does not have the
/// descriptor's shape.
pub open spec fn descriptor_of(doc: Json3) -> Option<DescriptorModel> {
    match doc {
        JsonAt::Object(f) => {
            let id = req_str_of(field(f, "id"@));
            let version = req_str_of(field(f, "version"@));
            let name = opt_str_of(field(f, "name"@));
            let env = env_field_of(field(f, "environment"@));
            let jars = jars_field_of(field(f, "jars"@));
            let mixins = mixin_refs_field_of(field(f, "mixins"@));
            let aw = opt_str_of(field(f, "accessWidener"@));
            if id is Some && version is Some && name is Some && env is Some && jars is Some
                && mixins is Some && aw is Some {
                Some(DescriptorModel {
                    id: id->0,
                    version: version->0,
                    name: name->0,
                    environment: env->0,
                    jars: jars->0,
                    mixins: mixins->0,
                    access_widener: aw->0,
                })
            } else {
                None
            }
        },
        _ => None,
    }
}

/// What a patch-configuration document holds.
pub struct MixinConfigModel {
    pub plugin: Option<Seq<char>>,
    pub mixins: Seq<Seq<char>>,
    pub client: Seq<Seq<char>>,
    pub server: Seq<Seq<char>>,
}

pub open spec fn mixin_config_of(doc: Json3) -> Option<MixinConfigModel> {
    match doc {
        JsonAt::Object(f) => {
            let plugin = opt_str_of(field(f, "plugin"@));
            let mixins = strs_field_of(field(f, "mixins"@));
            let client = strs_field_of(field(f, "client"@));
            let server = strs_field_of(field(f, "server"@));
            if plugin is Some && mixins is Some && client is Some && server is Some {
                Some(MixinConfigModel {
                    plugin: plugin->0,
                    mixins: mixins->0,
                    client: client->0,
                    server: server->0,
                })
            } else {
                None
            }
        },
        _ => None,
    }
}

pub open spec fn strs_view(v: Seq<String>) -> Seq<Seq<char>> {
    v.map_values(|s: String| s@)
}

pub open spec fn opt_view(o: Option<String>) -> Option<Seq<char>> {
    match o {
        Some(s) => Some(s@),
        None => None,
    }
}

pub open spec fn opt_opt_view(o: Option<Option<String>>) -> Option<Option<Seq<char>>> {
    match o {
        Some(x) => Some(opt_view(x)),
        None => None,
    }
}

pub open spec fn opt_strs_view(o: Option<Vec<String>>) -> Option<Seq<Seq<char>>> {
    match o {
        Some(v) => Some(strs_view(v@)),
        None => None,
    }
}

pub open spec fn refs_view(v: Seq<MixinRef>) -> Seq<(Seq<char>, Option<Environment>)> {
    v.map_values(|m: MixinRef| (m.config@, m.environment))
}

/// A reference to a patch-configuration document, with its environment if one is given.
#[derive(Debug)]
pub struct MixinRef {
    pub config: String,
    pub environment: Option<Environment>,
}

/// A decoded mod descriptor.
#[derive(Debug)]
pub struct ModDescriptor {
    pub id: String,
    pub version: String,
    pub name: Option<String>,
    pub environment: Environment,
    pub jars: Vec<String>,
    pub mixins: Vec<MixinRef>,
    pub access_widener: Option<String>,
}

impl View for ModDescriptor {
    type V = DescriptorModel;

    open spec fn view(&self) -> DescriptorModel {
        DescriptorModel {
            id: self.id@,
            version: self.version@,
            name: opt_view(self.name),
            environment: self.environment,
            jars: strs_view(self.jars@),
            mixins: refs_view(self.mixins@),
            access_widener: opt_view(self.access_widener),
        }
    }
}

/// A decoded patch-configuration document.
#[derive(Debug)]
pub struct MixinConfig {
    pub plugin: Option<String>,
    pub mixins: Vec<String>,
    pub client: Vec<String>,
    pub server: Vec<String>,
}

impl View for MixinConfig {
    type V = MixinConfigModel;

    open spec fn view(&self) -> MixinConfigModel {
        MixinConfigModel {
            plugin: opt_view(self.plugin),
            mixins: strs_view(self.mixins@),
            client: strs_view(self.client@),
            server: strs_view(self.server@),
        }
    }
}

/// The environment that `s` names.
pub fn env_from_name(s: &String) -> (r: Option<Environment>)
    ensures
        r == env_named(s@),
{
    if *s == "*".to_owned() {
        Some(Environment::Both)
    } else if *s == "client".to_owned() {
        Some(Environment::Client)
    } else if *s == "server".to_owned() {
        Some(Environment::Server)
    } else {
        None
    }
}

fn req_str(v: Option<&Json>) -> (r: Option<String>)
    ensures
        opt_view(r) == req_str_of(opt_view0(v)),
        opt_view(r) == req_str_of(opt_view2(v)),
{
    match v {
        Some(Json::Str(s)) => Some(s.clone()),
        _ => None,
    }
}

fn opt_str(v: Option<&Json>) -> (r: Option<Option<String>>)
    ensures
        opt_opt_view(r) == opt_str_of(opt_view0(v)),
        opt_opt_view(r) == opt_str_of(opt_view2(v)),
{
    match v {
        None => Some(None),
        Some(Json::Null) => Some(None),
        Some(Json::Str(s)) => Some(Some(s.clone())),
        _ => None,
    }
}

fn env_field(v: Option<&Json>) -> (r: Option<Environment>)
    ensures
        r == env_field_of(opt_view2(v)),
{
    match v {
        None => Some(Environment::Both),
        Some(Json::Str(s)) => env_from_name(s),
        _ => None,
    }
}

/// Decodes one nested-archive entry.
pub fn decode_jar(item: &Json) -> (r: Option<String>)
    ensures
        opt_view(r) == jar_of(view1(*item)),
{
    match item {
        Json::Object(f) => {
            let key = "file".to_owned();
            req_str(lookup(f, &key))
        },
        _ => None,
    }
}

/// Decodes one patch-configuration reference.
pub fn decode_mixin_ref(item: &Json) -> (r: Option<MixinRef>)
    ensures
        match r {
            Some(m) => mixin_ref_of(view1(*item)) == Some((m.config@, m.environment)),
            None => mixin_ref_of(view1(*item)) is None,
        },
{
    match item {
        Json::Str(s) => Some(MixinRef { config: s.clone(), environment: None }),
        Json::Object(f) => {
            let config_key = "config".to_owned();
            let env_key = "environment".to_owned();
            match req_str(lookup(f, &config_key)) {
                Some(config) => match lookup(f, &env_key) {
                    None => Some(MixinRef { config, environment: None }),
                    Some(Json::Null) => Some(MixinRef { config, environment: None }),
                    Some(Json::Str(e)) => match env_from_name(e) {
                        Some(env) => Some(MixinRef { config, environment: Some(env) }),
                        None => None,
                    },
                    _ => None,
                },
                None => None,
            }
        },
        _ => None,
    }
}

/// Decodes a list of nested-archive entries.
pub fn decode_jars(items: &Vec<Json>) -> (r: Option<Vec<String>>)
    ensures
        opt_strs_view(r) == jars_of(items1(items@)),
{
    let ghost s = items1(items@);
    let mut out: Vec<String> = Vec::new();
    let mut i: usize = 0;
    while i < items.len()
        invariant
            i <= items@.len(),
            s == items1(items@),
            out@.len() == i,
            forall|j: int| 0 <= j < i ==> #[trigger] jar_of(s[j]) is Some && out@[j]@ == jar_of(s[j])->0,
        decreases items@.len() - i,
    {
        match decode_jar(&items[i]) {
            Some(p) => out.push(p),
            None => {
                assert(!(jar_of(s[i as int]) is Some));
                return None;
            },
        }
        i = i + 1;
    }
    assert(strs_view(out@) =~= s.map_values(|x: Json1| jar_of(x)->0));
    Some(out)
}

/// Decodes a list of patch-configuration references.
pub fn decode_mixin_refs(items: &Vec<Json>) -> (r: Option<Vec<MixinRef>>)
    ensures
        match r {
            Some(v) => mixin_refs_of(items1(items@)) == Some(refs_view(v@)),
            None => mixin_refs_of(items1(items@)) is None,
        },
{
    let ghost s = items1(items@);
    let mut out: Vec<MixinRef> = Vec::new();
    let mut i: usize = 0;
    while i < items.len()
        invariant
            i <= items@.len(),
            s == items1(items@),
            out@.len() == i,
            forall|j: int| 0 <= j < i ==> #[trigger] mixin_ref_of(s[j]) is Some
                && (out@[j].config@, out@[j].environment) == mixin_ref_of(s[j])->0,
        decreases items@.len() - i,
    {
        match decode_mixin_ref(&items[i]) {
            Some(m) => out.push(m),
            None => {
                assert(!(mixin_ref_of(s[i as int]) is Some));
                return None;
            },
        }
        i = i + 1;
    }
    assert(refs_view(out@) =~= s.map_values(|x: Json1| mixin_ref_of(x)->0));
    Some(out)
}

/// Decodes a list of strings.
pub fn decode_strs(items: &Vec<Json>) -> (r: Option<Vec<String>>)
    ensures
        opt_strs_view(r) == strs_of(items1(items@)),
{
    let ghost s = items1(items@);
    let mut out: Vec<String> = Vec::new();
    let mut i: usize = 0;
    while i < items.len()
        invariant
            i <= items@.len(),
            s == items1(items@),
            out@.len() == i,
            forall|j: int| 0 <= j < i ==> #[trigger] str_item_of(s[j]) is Some
                && out@[j]@ == str_item_of(s[j])->0,
        decreases items@.len() - i,
    {
        match &items[i] {
            Json::Str(x) => out.push(x.clone()),
            _ => {
                assert(!(str_item_of(s[i as int]) is Some));
                return None;
            },
        }
        i = i + 1;
    }
    assert(strs_view(out@) =~= s.map_values(|x: Json1| str_item_of(x)->0));
    Some(out)
}

fn jars_field(v: Option<&Json>) -> (r: Option<Vec<String>>)
    ensures
        opt_strs_view(r) == jars_field_of(opt_view2(v)),
{
    match v {
        None => Some(Vec::new()),
        Some(Json::Array(items)) => decode_jars(items),
        _ => None,
    }
}

fn strs_field(v: Option<&Json>) -> (r: Option<Vec<String>>)
    ensures
        opt_strs_view(r) == strs_field_of(opt_view2(v)),
{
    match v {
        None => Some(Vec::new()),
        Some(Json::Array(items)) => decode_strs(items),
        _ => None,
    }
}

fn mixin_refs_field(v: Option<&Json>) -> (r: Option<Vec<MixinRef>>)
    ensures
        match r {
            Some(x) => mixin_refs_field_of(opt_view2(v)) == Some(refs_view(x@)),
            None => mixin_refs_field_of(opt_view2(v)) is None,
        },
{
    match v {
        None => Some(Vec::new()),
        Some(Json::Array(items)) => decode_mixin_refs(items),
        _ => None,
    }
}

/// Decodes a mod descriptor document.
pub fn decode_descriptor(doc: &Json) -> (r: Option<ModDescriptor>)
    ensures
        match r {
            Some(d) => descriptor_of(view3(*doc)) == Some(d@),
            None => descriptor_of(view3(*doc)) is None,
        },
{
    match doc {
        Json::Object(f) => {
            let id = req_str(lookup(f, &"id".to_owned()));
            let version = req_str(lookup(f, &"version".to_owned()));
            let name = opt_str(lookup(f, &"name".to_owned()));
            let environment = env_field(lookup(f, &"environment".to_owned()));
            let jars = jars_field(lookup(f, &"jars".to_owned()));
            let mixins = mixin_refs_field(lookup(f, &"mixins".to_owned()));
            let access_widener = opt_str(lookup(f, &"accessWidener".to_owned()));
            match (id, version, name, environment, jars, mixins, access_widener) {
                (Some(id), Some(version), Some(name), Some(environment), Some(jars), Some(mixins), Some(access_widener)) =>
                    Some(ModDescriptor { id, version, name, environment, jars, mixins, access_widener }),
                _ => None,
            }
        },
        _ => None,
    }
}

/// Decodes a patch-configuration document.
pub fn decode_mixin_config(doc: &Json) -> (r: Option<MixinConfig>)
    ensures
        match r {
            Some(c) => mixin_config_of(view3(*doc)) == Some(c@),
            None => mixin_config_of(view3(*doc)) is None,
        },
{
    match doc {
        Json::Object(f) => {
            let plugin = opt_str(lookup(f, &"plugin".to_owned()));
            let mixins = strs_field(lookup(f, &"mixins".to_owned()));
            let client = strs_field(lookup(f, &"client".to_owned()));
            let server = strs_field(lookup(f, &"server".to_owned()));
            match (plugin, mixins, client, server) {
                (Some(plugin), Some(mixins), Some(client), Some(server)) =>
                    Some(MixinConfig { plugin, mixins, client, server }),
                _ => None,
            }
        },
        _ => None,
    }
}

} // verus!
