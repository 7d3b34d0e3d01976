//! The traversal engine: from the bytes of an archive to a tree of what it declares,
//! recursing into the nested archives that its descriptor names.
use vstd::prelude::*;
use vstd::utf8::{valid_utf8, decode_utf8};
use crate::archive::{ReadFailure, zip_entry, read_entry, utf8_text, leaf_of, leaf_name};
use crate::descriptor::{
    Environment, DescriptorModel, MixinConfigModel, MixinConfig, ModDescriptor, descriptor_of,
    mixin_config_of, decode_descriptor, decode_mixin_config, strs_view, opt_view,
};
use crate::json::{json_doc, parse_json};

verus! {

/// Why an archive could not be traversed.
#[derive(Clone, Copy, Debug, PartialEq, Eq, Structural)]
pub enum TraverseError {
    /// The container's structure cannot be read.
    MalformedArchive,
    /// A declared nested archive or access-widener entry is absent.
    EntryNotFound,
    /// The access-widener entry is not UTF-8 text.
    EncodingError,
    /// The descriptor is present but does not have the descriptor's shape.
    InvalidDescriptor,
    /// Archives are nested deeper than `MAX_NESTING` levels.
    TooDeep,
}

/// How many levels of nested archives are followed below a top-level archive.
pub const MAX_NESTING: usize = 16;

/// The patch names of a mod, one list per environment.
pub struct BucketsModel {
    pub both: Seq<Seq<char>>,
    pub client: Seq<Seq<char>>,
    pub server: Seq<Seq<char>>,
}

/// Patch names by environment, in the order they were declared; duplicates are kept.
#[derive(Debug)]
pub struct EnvLists {
    pub both: Vec<String>,
    pub client: Vec<String>,
    pub server: Vec<String>,
}

impl View for EnvLists {
    type V = BucketsModel;

    open spec fn view(&self) -> BucketsModel {
        BucketsModel {
            both: strs_view(self.both@),
            client: strs_view(self.client@),
            server: strs_view(self.server@),
        }
    }
}

impl EnvLists {
    pub fn new() -> (r: EnvLists)
        ensures
            r@ == empty_buckets(),
    {
        let r = EnvLists { both: Vec::new(), client: Vec::new(), server: Vec::new() };
        assert(r@.both =~= Seq::empty());
        assert(r@.client =~= Seq::empty());
        assert(r@.server =~= Seq::empty());
        r
    }

    /// The list of patch names for one environment.
    pub fn get(&self, env: Environment) -> (r: &Vec<String>)
        ensures
            strs_view(r@) == bucket(self@, env),
    {
        match env {
            Environment::Both => &self.both,
            Environment::Client => &self.client,
            Environment::Server => &self.server,
        }
    }
}

pub open spec fn empty_buckets() -> BucketsModel {
    BucketsModel { both: Seq::empty(), client: Seq::empty(), server: Seq::empty() }
}

pub open spec fn bucket(b: BucketsModel, env: Environment) -> Seq<Seq<char>> {
    match env {
        Environment::Both => b.both,
        Environment::Client => b.client,
        Environment::Server => b.server,
    }
}

/// The environment that a reference forces on every patch name of its document:
/// an explicit client or server environment; none for `Both` or no environment.
pub open spec fn forced_env(env: Option<Environment>) -> Option<Environment> {
    match env {
        Some(Environment::Client) => Some(Environment::Client),
        Some(Environment::Server) => Some(Environment::Server),
        _ => None,
    }
}

/// The buckets after the patch names of one document are added.
pub open spec fn add_config_spec(b: BucketsModel, env: Option<Environment>, c: MixinConfigModel) -> BucketsModel {
    match forced_env(env) {
        Some(Environment::Client) => BucketsModel {
            both: b.both,
            client: b.client + c.mixins + c.client + c.server,
            server: b.server,
        },
        Some(Environment::Server) => BucketsModel {
            both: b.both,
            client: b.client,
            server: b.server + c.mixins + c.client + c.server,
        },
        _ => BucketsModel {
            both: b.both + c.mixins,
            client: b.client + c.client,
            server: b.server + c.server,
        },
    }
}

/// The buckets built from a list of (reference environment, document) pairs; a
/// document that could not be read is `None` and contributes nothing.
pub open spec fn buckets_of(cs: Seq<(Option<Environment>, Option<MixinConfigModel>)>) -> BucketsModel
    decreases cs.len(),
{
    if cs.len() == 0 {
        empty_buckets()
    } else {
        let b = buckets_of(cs.drop_last());
        match cs.last().1 {
            Some(c) => add_config_spec(b, cs.last().0, c),
            None => b,
        }
    }
}

/// The plugin names of the documents, in order.
pub open spec fn plugins_of(cs: Seq<(Option<Environment>, Option<MixinConfigModel>)>) -> Seq<Seq<char>>
    decreases cs.len(),
{
    if cs.len() == 0 {
        Seq::empty()
    } else {
        let p = plugins_of(cs.drop_last());
        match cs.last().1 {
            Some(c) => match c.plugin {
                Some(x) => p.push(x),
                None => p,
            },
            None => p,
        }
    }
}

pub open spec fn opt_config_view(c: Option<MixinConfig>) -> Option<MixinConfigModel> {
    match c {
        Some(x) => Some(x@),
        None => None,
    }
}

pub open spec fn config_entries_view(s: Seq<(Option<Environment>, Option<MixinConfig>)>) -> Seq<(Option<Environment>, Option<MixinConfigModel>)> {
    s.map_values(|e: (Option<Environment>, Option<MixinConfig>)| (e.0, opt_config_view(e.1)))
}

fn append_all(dst: &mut Vec<String>, src: &Vec<String>)
    ensures
        strs_view(final(dst)@) == strs_view(old(dst)@) + strs_view(src@),
{
    let ghost start = strs_view(dst@);
    let mut i: usize = 0;
    while i < src.len()
        invariant
            i <= src@.len(),
            strs_view(dst@) == start + strs_view(src@).take(i as int),
        decreases src@.len() - i,
    {
        let ghost before = dst@;
        let c = src[i].clone();
        dst.push(c);
        assert(strs_view(dst@) =~= strs_view(before).push(c@));
        i = i + 1;
        assert(strs_view(src@).take(i as int) =~= strs_view(src@).take(i - 1).push(src@[i - 1]@));
        assert(strs_view(dst@) =~= start + strs_view(src@).take(i as int));
    }
    assert(strs_view(src@).take(i as int) =~= strs_view(src@));
}

/// Adds the patch names of one document to the buckets, into the environment that
/// the reference forces or else into the list's own environment, and records the
/// document's plugin name.
pub fn add_mixin_config(
    lists: &mut EnvLists,
    plugins: &mut Vec<String>,
    env: Option<Environment>,
    config: &MixinConfig,
)
    ensures
        final(lists)@ == add_config_spec(old(lists)@, env, config@),
        strs_view(final(plugins)@) == match config@.plugin {
            Some(p) => strs_view(old(plugins)@).push(p),
            None => strs_view(old(plugins)@),
        },
{
    match env {
        Some(Environment::Client) => {
            append_all(&mut lists.client, &config.mixins);
            append_all(&mut lists.client, &config.client);
            append_all(&mut lists.client, &config.server);
        },
        Some(Environment::Server) => {
            append_all(&mut lists.server, &config.mixins);
            append_all(&mut lists.server, &config.client);
            append_all(&mut lists.server, &config.server);
        },
        _ => {
            append_all(&mut lists.both, &config.mixins);
            append_all(&mut lists.client, &config.client);
            append_all(&mut lists.server, &config.server);
        },
    }
    match &config.plugin {
        Some(p) => {
            plugins.push(p.clone());
            assert(strs_view(plugins@) =~= strs_view(old(plugins)@).push(p@));
        },
        None => {},
    }
}

/// Distributes the patch names of each document into the three buckets and lists
/// the plugin names, in order. A `None` document contributes nothing.
pub fn collect_mixins(entries: &Vec<(Option<Environment>, Option<MixinConfig>)>) -> (r: (EnvLists, Vec<String>))
    ensures
        r.0@ == buckets_of(config_entries_view(entries@)),
        strs_view(r.1@) == plugins_of(config_entries_view(entries@)),
{
    let ghost cs = config_entries_view(entries@);
    let mut lists = EnvLists::new();
    let mut plugins: Vec<String> = Vec::new();
    let mut i: usize = 0;
    assert(strs_view(plugins@) =~= Seq::empty());
    assert(cs.take(0) =~= Seq::empty());
    while i < entries.len()
        invariant
            i <= entries@.len(),
            cs == config_entries_view(entries@),
            lists@ == buckets_of(cs.take(i as int)),
            strs_view(plugins@) == plugins_of(cs.take(i as int)),
        decreases entries@.len() - i,
    {
        assert(cs.take(i + 1).drop_last() =~= cs.take(i as int));
        match &entries[i].1 {
            Some(c) => add_mixin_config(&mut lists, &mut plugins, entries[i].0, c),
            None => {},
        }
        i = i + 1;
    }
    assert(cs.take(i as int) =~= cs);
    (lists, plugins)
}

/// What an archive declares, as found by `traverse`.
#[derive(Debug)]
pub struct ModInfo {
    pub id: String,
    pub version: String,
    pub name: Option<String>,
    pub environment: Environment,
    pub mixins: EnvLists,
    pub plugins: Vec<String>,
    /// Nested archives by the leaf name of their declared path.
    pub contained: Vec<(String, Traversed)>,
    pub access_widener: Option<String>,
}

/// The outcome of traversing one archive.
#[derive(Debug)]
pub enum Traversed {
    /// The archive has no mod descriptor; its contents are not looked into.
    NotAMod,
    Mod(ModInfo),
}

// ---- what the archive bytes declare ----

/// The descriptor of an archive: `Ok(None)` where it has none.
pub open spec fn descriptor_in(b: Seq<u8>) -> Result<Option<DescriptorModel>, TraverseError> {
    match zip_entry(b, "fabric.mod.json"@) {
        Err(ReadFailure::Missing) => Ok(None),
        Err(_) => Err(TraverseError::MalformedArchive),
        Ok(db) => match json_doc(db) {
            Some(doc) => match descriptor_of(doc) {
                Some(d) => Ok(Some(d)),
                None => Err(TraverseError::InvalidDescriptor),
            },
            None => Err(TraverseError::InvalidDescriptor),
        },
    }
}

/// The contents of a declared entry.
pub open spec fn entry_in(b: Seq<u8>, p: Seq<char>) -> Result<Seq<u8>, TraverseError> {
    match zip_entry(b, p) {
        Ok(x) => Ok(x),
        Err(ReadFailure::Missing) => Err(TraverseError::EntryNotFound),
        Err(_) => Err(TraverseError::MalformedArchive),
    }
}

/// The patch-configuration document at `p`; `None` where it cannot be read or decoded.
pub open spec fn config_in(b: Seq<u8>, p: Seq<char>) -> Option<MixinConfigModel> {
    match zip_entry(b, p) {
        Ok(x) => match json_doc(x) {
            Some(doc) => mixin_config_of(doc),
            None => None,
        },
        Err(_) => None,
    }
}

pub open spec fn configs_in(b: Seq<u8>, refs: Seq<(Seq<char>, Option<Environment>)>) -> Seq<(Option<Environment>, Option<MixinConfigModel>)> {
    refs.map_values(|r: (Seq<char>, Option<Environment>)| (r.1, config_in(b, r.0)))
}

/// The access-widener text, where the descriptor declares one.
pub open spec fn widener_in(b: Seq<u8>, p: Option<Seq<char>>) -> Result<Option<Seq<char>>, TraverseError> {
    match p {
        None => Ok(None),
        Some(p) => match entry_in(b, p) {
            Ok(x) => if valid_utf8(x) {
                Ok(Some(decode_utf8(x)))
            } else {
                Err(TraverseError::EncodingError)
            },
            Err(e) => Err(e),
        },
    }
}

/// How traversal of the first `n` declared nested archives ends: the first failure
/// among them, in declaration order.
pub open spec fn jars_outcome(b: Seq<u8>, jars: Seq<Seq<char>>, n: int, depth: nat) -> Result<(), TraverseError>
    decreases MAX_NESTING + 1 - depth, 0nat, n,
{
    if n <= 0 || depth > MAX_NESTING {
        Ok(())
    } else {
        match jars_outcome(b, jars, n - 1, depth) {
            Err(e) => Err(e),
            Ok(_) => match entry_in(b, jars[n - 1]) {
                Err(e) => Err(e),
                Ok(x) => outcome(x, depth + 1),
            },
        }
    }
}

/// How traversal of the archive `b`, found at nesting depth `depth`, ends: the first
/// failure of reading the descriptor, then of the nested archives in order, then of
/// reading the access widener.
pub open spec fn outcome(b: Seq<u8>, depth: nat) -> Result<(), TraverseError>
    decreases MAX_NESTING + 1 - depth, 1nat, 0int,
{
    if depth > MAX_NESTING {
        Err(TraverseError::TooDeep)
    } else {
        match descriptor_in(b) {
            Err(e) => Err(e),
            Ok(None) => Ok(()),
            Ok(Some(d)) => match jars_outcome(b, d.jars, d.jars.len() as int, depth) {
                Err(e) => Err(e),
                Ok(_) => match widener_in(b, d.access_widener) {
                    Err(e) => Err(e),
                    Ok(_) => Ok(()),
                },
            },
        }
    }
}

/// Once one of the first `n` nested archives fails, later ones change nothing.
proof fn lemma_jars_outcome_sticks(b: Seq<u8>, jars: Seq<Seq<char>>, n: int, m: int, depth: nat)
    requires
        0 <= n <= m,
        depth <= MAX_NESTING,
        jars_outcome(b, jars, n, depth) is Err,
    ensures
        jars_outcome(b, jars, m, depth) == jars_outcome(b, jars, n, depth),
    decreases m - n,
{
    if m > n {
        lemma_jars_outcome_sticks(b, jars, n, m - 1, depth);
    }
}

pub open spec fn keys_of(c: Seq<(String, Traversed)>) -> Seq<Seq<char>> {
    c.map_values(|e: (String, Traversed)| e.0@)
}

/// `j` is the last of the first `n` declared paths whose leaf name is `key`.
pub open spec fn last_with_leaf(jars: Seq<Seq<char>>, n: int, key: Seq<char>, j: int) -> bool {
    0 <= j < n && leaf_of(jars[j]) == key && forall|k: int| j < k < n ==> leaf_of(#[trigger] jars[k]) != key
}

/// The fields of a mod record that come from its own archive.
pub open spec fn fields_match(m: ModInfo, b: Seq<u8>, d: DescriptorModel) -> bool {
    &&& m.id@ == d.id
    &&& m.version@ == d.version
    &&& opt_view(m.name) == d.name
    &&& m.environment == d.environment
    &&& m.mixins@ == buckets_of(configs_in(b, d.mixins))
    &&& strs_view(m.plugins@) == plugins_of(configs_in(b, d.mixins))
    &&& widener_in(b, d.access_widener) == Ok::<Option<Seq<char>>, TraverseError>(opt_view(m.access_widener))
}

/// The nested archive `e` stands for the last of the first `n` declared paths with
/// its leaf name, and is the traversal of that path's contents.
pub open spec fn nested_entry(e: (String, Traversed), b: Seq<u8>, jars: Seq<Seq<char>>, n: int, depth: nat) -> bool
    decreases MAX_NESTING + 1 - depth, 0nat,
{
    exists|j: int| #[trigger] last_with_leaf(jars, n, e.0@, j) && entry_in(b, jars[j]) is Ok
        && (depth < MAX_NESTING + 1 ==> tree_of(e.1, entry_in(b, jars[j])->Ok_0, depth + 1))
}

/// The nested archives of a mod record: one per distinct leaf name of the declared
/// paths, each the traversal of the last path with that leaf name.
pub open spec fn nested_match(c: Seq<(String, Traversed)>, b: Seq<u8>, jars: Seq<Seq<char>>, n: int, depth: nat) -> bool
    decreases MAX_NESTING + 1 - depth, 1nat,
{
    &&& forall|i1: int, i2: int| 0 <= i1 < c.len() && 0 <= i2 < c.len() && i1 != i2 ==> c[i1].0@ != c[i2].0@
    &&& forall|j: int| 0 <= j < n ==> exists|i: int| 0 <= i < c.len() && #[trigger] c[i].0@ == leaf_of(#[trigger] jars[j])
    &&& forall|i: int| 0 <= i < c.len() ==> nested_entry(#[trigger] c[i], b, jars, n, depth)
}

/// `t` is what the archive `b`, found at nesting depth `depth`, declares.
pub open spec fn tree_of(t: Traversed, b: Seq<u8>, depth: nat) -> bool
    decreases MAX_NESTING + 1 - depth, 2nat,
{
    if depth > MAX_NESTING {
        false
    } else {
        match descriptor_in(b) {
            Err(_) => false,
            Ok(None) => t is NotAMod,
            Ok(Some(d)) => match t {
                Traversed::NotAMod => false,
                Traversed::Mod(m) => fields_match(m, b, d)
                    && nested_match(m.contained@, b, d.jars, d.jars.len() as int, depth),
            },
        }
    }
}

/// The step of the nested-archive loop: the traversal of the `k`-th declared path
/// is stored under its leaf name, replacing an earlier one of the same name.
proof fn lemma_nested_step(
    c: Seq<(String, Traversed)>,
    c2: Seq<(String, Traversed)>,
    e: (String, Traversed),
    b: Seq<u8>,
    jars: Seq<Seq<char>>,
    k: int,
    depth: nat,
    pos: Option<usize>,
)
    requires
        0 <= k < jars.len(),
        depth <= MAX_NESTING,
        nested_match(c, b, jars, k, depth),
        entry_in(b, jars[k]) is Ok,
        e.0@ == leaf_of(jars[k]),
        tree_of(e.1, entry_in(b, jars[k])->Ok_0, depth + 1),
        match pos {
            Some(i) => i < c.len() && c[i as int].0@ == e.0@ && c2 == c.update(i as int, e),
            None => (forall|i: int| 0 <= i < c.len() ==> #[trigger] c[i].0@ != e.0@) && c2 == c.push(e),
        },
    ensures
        nested_match(c2, b, jars, k + 1, depth),
{
    let key = e.0@;
    let ni: int = match pos {
        Some(i) => i as int,
        None => c.len() as int,
    };
    assert(0 <= ni < c2.len());
    assert(c2[ni] == e);
    assert(forall|i: int| 0 <= i < c.len() ==> #[trigger] c2[i].0@ == c[i].0@);
    assert(forall|i: int| 0 <= i < c.len() && i != ni ==> #[trigger] c2[i] == c[i]);
    assert(forall|i: int| 0 <= i < c.len() && i != ni ==> #[trigger] c[i].0@ != key);
    assert forall|i1: int, i2: int|
        0 <= i1 < c2.len() && 0 <= i2 < c2.len() && i1 != i2 implies c2[i1].0@ != c2[i2].0@ by {
        if i1 != ni && i2 != ni {
            assert(c2[i1].0@ == c[i1].0@ && c2[i2].0@ == c[i2].0@);
        }
    }
    assert forall|j: int| 0 <= j < k + 1 implies exists|i: int|
        0 <= i < c2.len() && #[trigger] c2[i].0@ == leaf_of(#[trigger] jars[j]) by {
        if j == k {
            assert(c2[ni].0@ == leaf_of(jars[j]));
        } else {
            let i = choose|i: int| 0 <= i < c.len() && #[trigger] c[i].0@ == leaf_of(jars[j]);
            assert(c2[i].0@ == leaf_of(jars[j]));
        }
    }
    assert forall|i: int| 0 <= i < c2.len() implies nested_entry(#[trigger] c2[i], b, jars, k + 1, depth) by {
        if i == ni {
            assert(last_with_leaf(jars, k + 1, c2[i].0@, k));
        } else {
            assert(c2[i] == c[i]);
            assert(nested_entry(c[i], b, jars, k, depth));
            let j = choose|j: int| #[trigger] last_with_leaf(jars, k, c[i].0@, j) && entry_in(b, jars[j]) is Ok
                && (depth < MAX_NESTING + 1 ==> tree_of(c[i].1, entry_in(b, jars[j])->Ok_0, depth + 1));
            assert(leaf_of(jars[k]) != c[i].0@);
            assert(last_with_leaf(jars, k + 1, c2[i].0@, j));
        }
    }
}

/// Stores `t` under `key`: in place of an entry with the same key, or at the end.
fn put_nested(contained: &mut Vec<(String, Traversed)>, key: String, t: Traversed) -> (pos: Option<usize>)
    ensures
        match pos {
            Some(i) => i < old(contained)@.len() && old(contained)@[i as int].0@ == key@
                && final(contained)@ == old(contained)@.update(i as int, (key, t)),
            None => (forall|i: int| 0 <= i < old(contained)@.len() ==> #[trigger] old(contained)@[i].0@ != key@)
                && final(contained)@ == old(contained)@.push((key, t)),
        },
{
    let mut i: usize = 0;
    while i < contained.len()
        invariant
            i <= contained@.len(),
            contained@ == old(contained)@,
            forall|j: int| 0 <= j < i ==> #[trigger] contained@[j].0@ != key@,
        decreases contained@.len() - i,
    {
        if contained[i].0 == key {
            contained.set(i, (key, t));
            return Some(i);
        }
        i = i + 1;
    }
    contained.push((key, t));
    None
}

fn read_config(data: &[u8], name: &String) -> (r: Option<MixinConfig>)
    ensures
        opt_config_view(r) == config_in(data@, name@),
{
    match read_entry(data, name.as_str()) {
        Ok(bytes) => match parse_json(bytes.as_slice()) {
            Some(doc) => decode_mixin_config(&doc),
            None => None,
        },
        Err(_) => None,
    }
}

fn traverse_at(bytes: &Vec<u8>, depth: usize) -> (r: Result<Traversed, TraverseError>)
    ensures
        match r {
            Ok(t) => outcome(bytes@, depth as nat) is Ok && tree_of(t, bytes@, depth as nat),
            Err(e) => outcome(bytes@, depth as nat) == Err::<(), TraverseError>(e),
        },
    decreases MAX_NESTING + 1 - depth,
{
    if depth > MAX_NESTING {
        return Err(TraverseError::TooDeep);
    }
    let ghost b = bytes@;
    let data = bytes.as_slice();
    let desc_bytes = match read_entry(data, "fabric.mod.json") {
        Ok(x) => x,
        Err(ReadFailure::Missing) => return Ok(Traversed::NotAMod),
        Err(_) => return Err(TraverseError::MalformedArchive),
    };
    let desc = match parse_json(desc_bytes.as_slice()) {
        Some(doc) => match decode_descriptor(&doc) {
            Some(d) => d,
            None => return Err(TraverseError::InvalidDescriptor),
        },
        None => return Err(TraverseError::InvalidDescriptor),
    };
    let ghost d = desc@;
    assert(descriptor_in(b) == Ok::<Option<DescriptorModel>, TraverseError>(Some(d)));

    let mut contained: Vec<(String, Traversed)> = Vec::new();
    let mut k: usize = 0;
    while k < desc.jars.len()
        invariant
            k <= desc.jars@.len(),
            d == desc@,
            b == bytes@,
            data@ == b,
            depth <= MAX_NESTING,
            descriptor_in(b) == Ok::<Option<DescriptorModel>, TraverseError>(Some(d)),
            nested_match(contained@, b, d.jars, k as int, depth as nat),
            jars_outcome(b, d.jars, k as int, depth as nat) is Ok,
        decreases desc.jars@.len() - k,
    {
        let path = &desc.jars[k];
        assert(path@ == d.jars[k as int]);
        let inner = match read_entry(data, path.as_str()) {
            Ok(x) => x,
            Err(ReadFailure::Missing) => {
                proof { lemma_jars_outcome_sticks(b, d.jars, k + 1, d.jars.len() as int, depth as nat); }
                return Err(TraverseError::EntryNotFound);
            },
            Err(_) => {
                proof { lemma_jars_outcome_sticks(b, d.jars, k + 1, d.jars.len() as int, depth as nat); }
                return Err(TraverseError::MalformedArchive);
            },
        };
        let t = match traverse_at(&inner, depth + 1) {
            Ok(t) => t,
            Err(e) => {
                proof { lemma_jars_outcome_sticks(b, d.jars, k + 1, d.jars.len() as int, depth as nat); }
                return Err(e);
            },
        };
        let key = leaf_name(path.as_str());
        let ghost before = contained@;
        let ghost e = (key, t);
        let pos = put_nested(&mut contained, key, t);
        proof {
            lemma_nested_step(before, contained@, e, b, d.jars, k as int, depth as nat, pos);
        }
        k = k + 1;
    }

    let mut entries: Vec<(Option<Environment>, Option<MixinConfig>)> = Vec::new();
    let mut i: usize = 0;
    assert(configs_in(b, d.mixins).take(0) =~= config_entries_view(entries@));
    while i < desc.mixins.len()
        invariant
            i <= desc.mixins@.len(),
            d == desc@,
            b == bytes@,
            data@ == b,
            config_entries_view(entries@) == configs_in(b, d.mixins).take(i as int),
        decreases desc.mixins@.len() - i,
    {
        let c = read_config(data, &desc.mixins[i].config);
        let ghost before = entries@;
        let env = desc.mixins[i].environment;
        entries.push((env, c));
        assert(d.mixins[i as int] == (desc.mixins@[i as int].config@, env));
        assert(configs_in(b, d.mixins)[i as int] == (env, opt_config_view(c)));
        assert(config_entries_view(entries@) =~= config_entries_view(before).push((env, opt_config_view(c))));
        assert(config_entries_view(entries@) =~= configs_in(b, d.mixins).take(i + 1));
        i = i + 1;
    }
    assert(configs_in(b, d.mixins).take(i as int) =~= configs_in(b, d.mixins));
    let (mixins, plugins) = collect_mixins(&entries);

    let access_widener: Option<String> = match &desc.access_widener {
        None => None,
        Some(p) => match read_entry(data, p.as_str()) {
            Ok(x) => match utf8_text(x) {
                Some(text) => Some(text),
                None => return Err(TraverseError::EncodingError),
            },
            Err(ReadFailure::Missing) => return Err(TraverseError::EntryNotFound),
            Err(_) => return Err(TraverseError::MalformedArchive),
        },
    };
    let m = ModInfo {
        id: desc.id,
        version: desc.version,
        name: desc.name,
        environment: desc.environment,
        mixins,
        plugins,
        contained,
        access_widener,
    };
    assert(fields_match(m, b, d));
    Ok(Traversed::Mod(m))
}

/// Traverses the archive held in `bytes`: `NotAMod` where it has no descriptor,
/// else what its descriptor declares, with each nested archive traversed in turn.
pub fn traverse(bytes: &Vec<u8>) -> (r: Result<Traversed, TraverseError>)
    ensures
        match r {
            Ok(t) => outcome(bytes@, 0) is Ok && tree_of(t, bytes@, 0),
            Err(e) => outcome(bytes@, 0) == Err::<(), TraverseError>(e),
        },
        zip_entry(bytes@, "fabric.mod.json"@) == Err::<Seq<u8>, ReadFailure>(ReadFailure::Missing)
            ==> r matches Ok(Traversed::NotAMod),
{
    traverse_at(bytes, 0)
}

/// A mod whose descriptor declares no nested archives has none.
pub proof fn lemma_no_jars_no_nested(t: Traversed, b: Seq<u8>, depth: nat)
    requires
        tree_of(t, b, depth),
        descriptor_in(b) matches Ok(Some(d)) && d.jars.len() == 0,
    ensures
        t matches Traversed::Mod(m) && m.contained@.len() == 0,
{
    let d = descriptor_in(b)->Ok_0->0;
    if let Traversed::Mod(m) = t {
        assert(nested_match(m.contained@, b, d.jars, 0, depth));
        if m.contained@.len() > 0 {
            assert(nested_entry(m.contained@[0], b, d.jars, 0, depth));
        }
    }
}

} // verus!
