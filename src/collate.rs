//! Merging of traversal results by mod id, and the projections that the reports print.
use vstd::prelude::*;
use crate::archive::{matches_filter_spec, matches_filter};
use crate::descriptor::{Environment, strs_view, opt_view};
use crate::traverse::{BucketsModel, EnvLists, ModInfo, Traversed, MAX_NESTING, bucket};

verus! {

// ---- ordered sets of names ----

/// Lexicographic order of strings by code point.
pub open spec fn str_lt(a: Seq<char>, b: Seq<char>) -> bool
    decreases a.len(),
{
    if a.len() == 0 {
        b.len() > 0
    } else if b.len() == 0 {
        false
    } else if a[0] != b[0] {
        (a[0] as int) < (b[0] as int)
    } else {
        str_lt(a.drop_first(), b.drop_first())
    }
}

proof fn lemma_str_lt_total(a: Seq<char>, b: Seq<char>)
    requires
        a != b,
    ensures
        str_lt(a, b) || str_lt(b, a),
    decreases a.len(),
{
    if a.len() > 0 && b.len() > 0 && a[0] == b[0] {
        if a.drop_first() == b.drop_first() {
            assert(a =~= seq![a[0]] + a.drop_first());
            assert(b =~= seq![b[0]] + b.drop_first());
        }
        lemma_str_lt_total(a.drop_first(), b.drop_first());
    } else if a.len() > 0 && b.len() > 0 {
        assert((a[0] as int) != (b[0] as int));
    } else if a.len() == 0 && b.len() == 0 {
        assert(a =~= b);
    }
}

/// Relies on the order of `String`: lexicographic over the UTF-8 bytes, which orders
/// strings as their code points do.
#[verifier::external_body]
fn str_less(a: &String, b: &String) -> (r: bool)
    ensures
        r == str_lt(a@, b@),
{
    a < b
}

/// Distinct names in ascending order.
pub open spec fn sorted_set(s: Seq<Seq<char>>) -> bool {
    &&& s.no_duplicates()
    &&& forall|i: int| 0 <= i < s.len() - 1 ==> str_lt(#[trigger] s[i], s[i + 1])
}

/// Adds `x` to an ordered set of names.
pub fn insert_sorted(v: &mut Vec<String>, x: String)
    requires
        sorted_set(strs_view(old(v)@)),
    ensures
        sorted_set(strs_view(final(v)@)),
        strs_view(final(v)@).to_set() == strs_view(old(v)@).to_set().insert(x@),
{
    let ghost s = strs_view(v@);
    let mut i: usize = 0;
    while i < v.len()
        invariant
            i <= v@.len(),
            v@ == old(v)@,
            s == strs_view(v@),
            sorted_set(s),
            forall|j: int| 0 <= j < i ==> #[trigger] s[j] != x@,
        decreases v@.len() - i,
    {
        if v[i] == x {
            assert(s[i as int] == v@[i as int]@);
            assert(s.contains(x@));
            assert(s.to_set().insert(x@) =~= s.to_set());
            return;
        }
        i = i + 1;
    }
    let mut p: usize = 0;
    let mut done = false;
    while !done && p < v.len()
        invariant
            p <= v@.len(),
            v@ == old(v)@,
            s == strs_view(v@),
            sorted_set(s),
            forall|j: int| 0 <= j < s.len() ==> #[trigger] s[j] != x@,
            p > 0 ==> str_lt(s[p - 1], x@),
            done ==> p < v@.len() && !str_lt(s[p as int], x@),
        decreases v@.len() - p + (if done { 0int } else { 1int }),
    {
        if str_less(&v[p], &x) {
            p = p + 1;
        } else {
            done = true;
        }
    }
    let ghost xv = x@;
    v.insert(p, x);
    let ghost t = strs_view(v@);
    assert(t =~= s.insert(p as int, xv));
    proof {
        if p < s.len() {
            lemma_str_lt_total(s[p as int], xv);
        }
    }
    assert forall|k: int| 0 <= k < t.len() - 1 implies str_lt(#[trigger] t[k], t[k + 1]) by {
        if k < p - 1 {
            assert(t[k] == s[k] && t[k + 1] == s[k + 1]);
        } else if k == p - 1 {
        } else if k == p {
        } else {
            assert(t[k] == s[k - 1] && t[k + 1] == s[k]);
        }
    }
    assert forall|a: int, b: int| 0 <= a < t.len() && 0 <= b < t.len() && a != b implies t[a] != t[b] by {
        if a != p && b != p {
            assert(t[a] == s[if a < p { a } else { a - 1 }]);
            assert(t[b] == s[if b < p { b } else { b - 1 }]);
        } else if a == p {
            assert(t[b] == s[if b < p { b } else { b - 1 }]);
        } else {
            assert(t[a] == s[if a < p { a } else { a - 1 }]);
        }
    }
    assert(t.to_set() =~= s.to_set().insert(xv)) by {
        assert forall|y: Seq<char>| t.contains(y) <==> s.to_set().insert(xv).contains(y) by {
            if t.contains(y) {
                let a = choose|a: int| 0 <= a < t.len() && t[a] == y;
                if a != p {
                    assert(s[if a < p { a } else { a - 1 }] == y);
                }
            }
            if s.contains(y) {
                let a = choose|a: int| 0 <= a < s.len() && s[a] == y;
                assert(t[if a < p { a } else { a + 1 }] == y);
            }
            if y == xv {
                assert(t[p as int] == y);
            }
        }
    }
}

// ---- appearances of mods ----

/// One appearance of a mod: as a top-level file, or as a nested entry of another mod.
pub struct OccModel {
    pub id: Seq<char>,
    pub file: Seq<char>,
    pub parent: Option<Seq<char>>,
    pub mixins: BucketsModel,
    pub widener: Option<Seq<char>>,
}

/// One appearance of a mod, with the file or entry name it was found under and the
/// id of the mod that holds it, if any.
#[derive(Debug)]
pub struct Occurrence {
    pub id: String,
    pub file_name: String,
    pub parent: Option<String>,
    pub mixins: EnvLists,
    pub access_widener: Option<String>,
}

impl View for Occurrence {
    type V = OccModel;

    open spec fn view(&self) -> OccModel {
        OccModel {
            id: self.id@,
            file: self.file_name@,
            parent: opt_view(self.parent),
            mixins: self.mixins@,
            widener: opt_view(self.access_widener),
        }
    }
}

pub open spec fn occs_view(v: Seq<Occurrence>) -> Seq<OccModel> {
    v.map_values(|o: Occurrence| o@)
}

pub open spec fn opt_ref_view(o: Option<&String>) -> Option<Seq<char>> {
    match o {
        Some(s) => Some(s@),
        None => None,
    }
}

pub open spec fn occ_of(m: ModInfo, file: Seq<char>, parent: Option<Seq<char>>) -> OccModel {
    OccModel { id: m.id@, file, parent, mixins: m.mixins@, widener: opt_view(m.access_widener) }
}

/// The appearances of mods in a tree found at nesting depth `depth`: the root first,
/// then those of each nested archive in turn. Trees are read as deep as `traverse`
/// builds them.
pub open spec fn flat(t: Traversed, file: Seq<char>, parent: Option<Seq<char>>, depth: nat) -> Seq<OccModel>
    decreases MAX_NESTING + 1 - depth, 1nat, 0int,
{
    if depth > MAX_NESTING {
        Seq::empty()
    } else {
        match t {
            Traversed::NotAMod => Seq::empty(),
            Traversed::Mod(m) => seq![occ_of(m, file, parent)] + flat_children(
                m.contained@,
                m.id@,
                depth,
                m.contained@.len() as int,
            ),
        }
    }
}

/// The appearances in the first `n` nested archives of a mod with id `parent`.
pub open spec fn flat_children(c: Seq<(String, Traversed)>, parent: Seq<char>, depth: nat, n: int) -> Seq<OccModel>
    decreases MAX_NESTING + 1 - depth, 0nat, n,
{
    if n <= 0 || n > c.len() || depth > MAX_NESTING {
        Seq::empty()
    } else {
        flat_children(c, parent, depth, n - 1) + flat(c[n - 1].1, c[n - 1].0@, Some(parent), depth + 1)
    }
}

/// The appearances in a list of top-level files, in order.
pub open spec fn flat_files(files: Seq<(String, Traversed)>) -> Seq<OccModel>
    decreases files.len(),
{
    if files.len() == 0 {
        Seq::empty()
    } else {
        flat_files(files.drop_last()) + flat(files.last().1, files.last().0@, None, 0)
    }
}

fn copy_strs(v: &Vec<String>) -> (r: Vec<String>)
    ensures
        strs_view(r@) == strs_view(v@),
{
    let mut r: Vec<String> = Vec::new();
    let mut i: usize = 0;
    while i < v.len()
        invariant
            i <= v@.len(),
            strs_view(r@) == strs_view(v@).take(i as int),
        decreases v@.len() - i,
    {
        let ghost before = r@;
        let c = v[i].clone();
        r.push(c);
        assert(strs_view(r@) =~= strs_view(before).push(c@));
        i = i + 1;
        assert(strs_view(v@).take(i as int) =~= strs_view(v@).take(i - 1).push(v@[i - 1]@));
    }
    assert(strs_view(v@).take(i as int) =~= strs_view(v@));
    r
}

fn copy_opt(o: &Option<String>) -> (r: Option<String>)
    ensures
        opt_view(r) == opt_view(*o),
{
    match o {
        Some(s) => Some(s.clone()),
        None => None,
    }
}

fn flatten_into(t: &Traversed, file: &String, parent: Option<&String>, depth: usize, out: &mut Vec<Occurrence>)
    ensures
        occs_view(final(out)@) == occs_view(old(out)@) + flat(*t, file@, opt_ref_view(parent), depth as nat),
    decreases MAX_NESTING + 1 - depth,
{
    if depth > MAX_NESTING {
        assert(occs_view(out@) =~= occs_view(out@) + Seq::<OccModel>::empty());
        return;
    }
    match t {
        Traversed::NotAMod => {
            assert(occs_view(out@) =~= occs_view(out@) + Seq::<OccModel>::empty());
        },
        Traversed::Mod(m) => {
            let ghost start = occs_view(out@);
            let mixins = EnvLists {
                both: copy_strs(&m.mixins.both),
                client: copy_strs(&m.mixins.client),
                server: copy_strs(&m.mixins.server),
            };
            let parent_copy = match parent {
                Some(p) => Some(p.clone()),
                None => None,
            };
            let o = Occurrence {
                id: m.id.clone(),
                file_name: file.clone(),
                parent: parent_copy,
                mixins,
                access_widener: copy_opt(&m.access_widener),
            };
            assert(o@ == occ_of(*m, file@, opt_ref_view(parent)));
            out.push(o);
            let ghost head = start + seq![occ_of(*m, file@, opt_ref_view(parent))];
            assert(occs_view(out@) =~= head + flat_children(m.contained@, m.id@, depth as nat, 0));
            let mut i: usize = 0;
            while i < m.contained.len()
                invariant
                    i <= m.contained@.len(),
                    depth <= MAX_NESTING,
                    occs_view(out@) == head + flat_children(m.contained@, m.id@, depth as nat, i as int),
                decreases m.contained@.len() - i,
            {
                let ghost before = occs_view(out@);
                flatten_into(&m.contained[i].1, &m.contained[i].0, Some(&m.id), depth + 1, out);
                i = i + 1;
                assert(occs_view(out@) =~= head + flat_children(m.contained@, m.id@, depth as nat, i as int));
            }
            assert(flat(*t, file@, opt_ref_view(parent), depth as nat) =~= seq![occ_of(*m, file@, opt_ref_view(parent))]
                + flat_children(m.contained@, m.id@, depth as nat, m.contained@.len() as int));
        },
    }
}

/// Every appearance of a mod in the given top-level files, each file under its own
/// name and without a parent, nested archives under their leaf names with the id of
/// the mod that holds them.
pub fn occurrences(files: &Vec<(String, Traversed)>) -> (r: Vec<Occurrence>)
    ensures
        occs_view(r@) == flat_files(files@),
{
    let mut out: Vec<Occurrence> = Vec::new();
    let mut i: usize = 0;
    assert(occs_view(out@) =~= flat_files(files@.take(0)));
    while i < files.len()
        invariant
            i <= files@.len(),
            occs_view(out@) == flat_files(files@.take(i as int)),
        decreases files@.len() - i,
    {
        flatten_into(&files[i].1, &files[i].0, None, 0, &mut out);
        assert(files@.take(i + 1).drop_last() =~= files@.take(i as int));
        i = i + 1;
    }
    assert(files@.take(i as int) =~= files@);
    out
}

// ---- merging by id ----

/// What is gathered, per mod id, over all the appearances of that id.
#[derive(Clone, Copy, Debug, PartialEq, Eq, Structural)]
pub enum Facet {
    /// The file or entry names it was found under.
    Files,
    /// The ids of the mods that hold it.
    Parents,
    /// Its access-widener texts.
    Wideners,
    /// Its patch names for one environment.
    Patches(Environment),
}

pub open spec fn facet_of(o: OccModel, f: Facet) -> Set<Seq<char>> {
    match f {
        Facet::Files => set![o.file],
        Facet::Parents => match o.parent {
            Some(p) => set![p],
            None => Set::empty(),
        },
        Facet::Wideners => match o.widener {
            Some(w) => set![w],
            None => Set::empty(),
        },
        Facet::Patches(env) => bucket(o.mixins, env).to_set(),
    }
}

/// Everything of facet `f` over the appearances of the id `id`.
pub open spec fn gathered(occs: Seq<OccModel>, id: Seq<char>, f: Facet) -> Set<Seq<char>> {
    Set::new(|x: Seq<char>| exists|i: int| 0 <= i < occs.len() && occs[i].id == id && #[trigger] facet_of(occs[i], f).contains(x))
}

/// The ids that appear.
pub open spec fn ids_in(occs: Seq<OccModel>) -> Set<Seq<char>> {
    Set::new(|x: Seq<char>| exists|i: int| 0 <= i < occs.len() && #[trigger] occs[i].id == x)
}

proof fn lemma_gathered_step(occs: Seq<OccModel>, id: Seq<char>, f: Facet, k: int)
    requires
        0 <= k < occs.len(),
    ensures
        gathered(occs.take(k + 1), id, f) == if occs[k].id == id {
            gathered(occs.take(k), id, f).union(facet_of(occs[k], f))
        } else {
            gathered(occs.take(k), id, f)
        },
{
    let a = occs.take(k + 1);
    let b = occs.take(k);
    let rhs = if occs[k].id == id { gathered(b, id, f).union(facet_of(occs[k], f)) } else { gathered(b, id, f) };
    assert forall|x: Seq<char>| gathered(a, id, f).contains(x) <==> rhs.contains(x) by {
        if gathered(a, id, f).contains(x) {
            let i = choose|i: int| 0 <= i < a.len() && a[i].id == id && #[trigger] facet_of(a[i], f).contains(x);
            if i < k {
                assert(b[i] == a[i]);
            }
        }
        if gathered(b, id, f).contains(x) {
            let i = choose|i: int| 0 <= i < b.len() && b[i].id == id && #[trigger] facet_of(b[i], f).contains(x);
            assert(a[i] == b[i]);
        }
        if occs[k].id == id && facet_of(occs[k], f).contains(x) {
            assert(a[k] == occs[k]);
        }
    }
    assert(gathered(a, id, f) =~= rhs);
}

proof fn lemma_ids_step(occs: Seq<OccModel>, k: int)
    requires
        0 <= k < occs.len(),
    ensures
        ids_in(occs.take(k + 1)) == ids_in(occs.take(k)).insert(occs[k].id),
{
    let a = occs.take(k + 1);
    let b = occs.take(k);
    assert forall|x: Seq<char>| ids_in(a).contains(x) <==> ids_in(b).insert(occs[k].id).contains(x) by {
        if ids_in(a).contains(x) {
            let i = choose|i: int| 0 <= i < a.len() && #[trigger] a[i].id == x;
            if i < k {
                assert(b[i] == a[i]);
            }
        }
        if ids_in(b).contains(x) {
            let i = choose|i: int| 0 <= i < b.len() && #[trigger] b[i].id == x;
            assert(a[i] == b[i]);
        }
        if x == occs[k].id {
            assert(a[k] == occs[k]);
        }
    }
    assert(ids_in(a) =~= ids_in(b).insert(occs[k].id));
}

proof fn lemma_push_to_set(s: Seq<Seq<char>>, a: Seq<char>)
    ensures
        s.push(a).to_set() == s.to_set().insert(a),
{
    let t = s.push(a);
    assert forall|x: Seq<char>| t.contains(x) <==> s.to_set().insert(a).contains(x) by {
        if t.contains(x) {
            let i = choose|i: int| 0 <= i < t.len() && t[i] == x;
            if i < s.len() {
                assert(s[i] == x);
            }
        }
        if s.contains(x) {
            let i = choose|i: int| 0 <= i < s.len() && s[i] == x;
            assert(t[i] == x);
        }
        if x == a {
            assert(t[s.len() as int] == x);
        }
    }
    assert(t.to_set() =~= s.to_set().insert(a));
}

/// Adds every name of `src` to an ordered set of names.
fn insert_all(dst: &mut Vec<String>, src: &Vec<String>)
    requires
        sorted_set(strs_view(old(dst)@)),
    ensures
        sorted_set(strs_view(final(dst)@)),
        strs_view(final(dst)@).to_set() == strs_view(old(dst)@).to_set().union(strs_view(src@).to_set()),
{
    let ghost start = strs_view(dst@).to_set();
    let mut j: usize = 0;
    assert(strs_view(src@).take(0).to_set() =~= Set::<Seq<char>>::empty());
    assert(start.union(Set::<Seq<char>>::empty()) =~= start);
    while j < src.len()
        invariant
            j <= src@.len(),
            sorted_set(strs_view(dst@)),
            strs_view(dst@).to_set() == start.union(strs_view(src@).take(j as int).to_set()),
        decreases src@.len() - j,
    {
        insert_sorted(dst, src[j].clone());
        assert(strs_view(src@).take(j + 1) =~= strs_view(src@).take(j as int).push(src@[j as int]@));
        proof { lemma_push_to_set(strs_view(src@).take(j as int), src@[j as int]@); }
        j = j + 1;
        assert(strs_view(dst@).to_set() =~= start.union(strs_view(src@).take(j as int).to_set()));
    }
    assert(strs_view(src@).take(j as int) =~= strs_view(src@));
}

/// Everything of facet `f` over the appearances of `id`, as an ordered set.
pub fn gather(occs: &Vec<Occurrence>, id: &String, f: Facet) -> (r: Vec<String>)
    ensures
        sorted_set(strs_view(r@)),
        strs_view(r@).to_set() == gathered(occs_view(occs@), id@, f),
{
    let ghost os = occs_view(occs@);
    let mut r: Vec<String> = Vec::new();
    let mut k: usize = 0;
    assert(gathered(os.take(0), id@, f) =~= Set::<Seq<char>>::empty());
    assert(strs_view(r@).to_set() =~= Set::<Seq<char>>::empty());
    while k < occs.len()
        invariant
            k <= occs@.len(),
            os == occs_view(occs@),
            sorted_set(strs_view(r@)),
            strs_view(r@).to_set() == gathered(os.take(k as int), id@, f),
        decreases occs@.len() - k,
    {
        proof { lemma_gathered_step(os, id@, f, k as int); }
        let o = &occs[k];
        assert(os[k as int] == o@);
        if o.id == *id {
            let ghost before = strs_view(r@).to_set();
            match f {
                Facet::Files => {
                    insert_sorted(&mut r, o.file_name.clone());
                    assert(before.insert(o.file_name@) =~= before.union(set![o.file_name@]));
                },
                Facet::Parents => match &o.parent {
                    Some(p) => {
                        insert_sorted(&mut r, p.clone());
                        assert(before.insert(p@) =~= before.union(set![p@]));
                    },
                    None => {
                        assert(before =~= before.union(Set::<Seq<char>>::empty()));
                    },
                },
                Facet::Wideners => match &o.access_widener {
                    Some(w) => {
                        insert_sorted(&mut r, w.clone());
                        assert(before.insert(w@) =~= before.union(set![w@]));
                    },
                    None => {
                        assert(before =~= before.union(Set::<Seq<char>>::empty()));
                    },
                },
                Facet::Patches(env) => {
                    insert_all(&mut r, o.mixins.get(env));
                },
            }
        }
        k = k + 1;
    }
    assert(os.take(k as int) =~= os);
    r
}

/// Every id that appears, as an ordered set.
pub fn gather_ids(occs: &Vec<Occurrence>) -> (r: Vec<String>)
    ensures
        sorted_set(strs_view(r@)),
        strs_view(r@).to_set() == ids_in(occs_view(occs@)),
{
    let ghost os = occs_view(occs@);
    let mut r: Vec<String> = Vec::new();
    let mut k: usize = 0;
    assert(ids_in(os.take(0)) =~= Set::<Seq<char>>::empty());
    assert(strs_view(r@).to_set() =~= Set::<Seq<char>>::empty());
    while k < occs.len()
        invariant
            k <= occs@.len(),
            os == occs_view(occs@),
            sorted_set(strs_view(r@)),
            strs_view(r@).to_set() == ids_in(os.take(k as int)),
        decreases occs@.len() - k,
    {
        proof { lemma_ids_step(os, k as int); }
        assert(os[k as int] == occs@[k as int]@);
        insert_sorted(&mut r, occs[k].id.clone());
        k = k + 1;
    }
    assert(os.take(k as int) =~= os);
    r
}

/// What is known of one mod id over all its appearances.
pub struct CollatedModel {
    pub id: Seq<char>,
    pub file_names: Seq<Seq<char>>,
    pub parents: Seq<Seq<char>>,
    pub both: Seq<Seq<char>>,
    pub client: Seq<Seq<char>>,
    pub server: Seq<Seq<char>>,
    pub wideners: Seq<Seq<char>>,
}

/// One mod id with everything gathered over its appearances, each as an ordered set.
#[derive(Debug)]
pub struct Collated {
    pub id: String,
    pub file_names: Vec<String>,
    pub parents: Vec<String>,
    pub both: Vec<String>,
    pub client: Vec<String>,
    pub server: Vec<String>,
    pub wideners: Vec<String>,
}

impl View for Collated {
    type V = CollatedModel;

    open spec fn view(&self) -> CollatedModel {
        CollatedModel {
            id: self.id@,
            file_names: strs_view(self.file_names@),
            parents: strs_view(self.parents@),
            both: strs_view(self.both@),
            client: strs_view(self.client@),
            server: strs_view(self.server@),
            wideners: strs_view(self.wideners@),
        }
    }
}

pub open spec fn collated_view(v: Seq<Collated>) -> Seq<CollatedModel> {
    v.map_values(|c: Collated| c@)
}

pub open spec fn collated_ids(v: Seq<CollatedModel>) -> Seq<Seq<char>> {
    v.map_values(|c: CollatedModel| c.id)
}

/// `s` is the ordered set of what `gathered` gives.
pub open spec fn holds_gathered(s: Seq<Seq<char>>, occs: Seq<OccModel>, id: Seq<char>, f: Facet) -> bool {
    sorted_set(s) && s.to_set() == gathered(occs, id, f)
}

/// The merged record of `c.id` over the appearances `occs`.
pub open spec fn collated_ok(c: CollatedModel, occs: Seq<OccModel>) -> bool {
    &&& holds_gathered(c.file_names, occs, c.id, Facet::Files)
    &&& holds_gathered(c.parents, occs, c.id, Facet::Parents)
    &&& holds_gathered(c.both, occs, c.id, Facet::Patches(Environment::Both))
    &&& holds_gathered(c.client, occs, c.id, Facet::Patches(Environment::Client))
    &&& holds_gathered(c.server, occs, c.id, Facet::Patches(Environment::Server))
    &&& holds_gathered(c.wideners, occs, c.id, Facet::Wideners)
}

/// The merge of appearances by mod id: one record per id, in ascending id order.
pub open spec fn merged(r: Seq<CollatedModel>, occs: Seq<OccModel>) -> bool {
    &&& sorted_set(collated_ids(r))
    &&& collated_ids(r).to_set() == ids_in(occs)
    &&& forall|i: int| 0 <= i < r.len() ==> collated_ok(#[trigger] r[i], occs)
}

/// Merges the appearances by mod id.
pub fn collate(occs: &Vec<Occurrence>) -> (r: Vec<Collated>)
    ensures
        merged(collated_view(r@), occs_view(occs@)),
{
    let ghost os = occs_view(occs@);
    let ids = gather_ids(occs);
    let mut r: Vec<Collated> = Vec::new();
    let mut i: usize = 0;
    while i < ids.len()
        invariant
            i <= ids@.len(),
            os == occs_view(occs@),
            sorted_set(strs_view(ids@)),
            strs_view(ids@).to_set() == ids_in(os),
            collated_ids(collated_view(r@)) == strs_view(ids@).take(i as int),
            forall|j: int| 0 <= j < r@.len() ==> collated_ok(#[trigger] collated_view(r@)[j], os),
        decreases ids@.len() - i,
    {
        let id = &ids[i];
        let c = Collated {
            id: id.clone(),
            file_names: gather(occs, id, Facet::Files),
            parents: gather(occs, id, Facet::Parents),
            both: gather(occs, id, Facet::Patches(Environment::Both)),
            client: gather(occs, id, Facet::Patches(Environment::Client)),
            server: gather(occs, id, Facet::Patches(Environment::Server)),
            wideners: gather(occs, id, Facet::Wideners),
        };
        let ghost before = r@;
        r.push(c);
        assert(collated_view(r@) =~= collated_view(before).push(c@));
        assert(c@.id == strs_view(ids@)[i as int]);
        assert(strs_view(ids@).take(i + 1) =~= strs_view(ids@).take(i as int).push(c@.id));
        i = i + 1;
        assert(collated_ids(collated_view(r@)) =~= strs_view(ids@).take(i as int));
    }
    assert(strs_view(ids@).take(i as int) =~= strs_view(ids@));
    r
}

/// Merges by mod id every appearance in the given top-level files.
pub fn collate_files(files: &Vec<(String, Traversed)>) -> (r: Vec<Collated>)
    ensures
        merged(collated_view(r@), flat_files(files@)),
{
    let occs = occurrences(files);
    collate(&occs)
}

/// The index of the record of `id`, if there is one.
pub fn find_collated(c: &Vec<Collated>, id: &String) -> (r: Option<usize>)
    ensures
        match r {
            Some(i) => i < c@.len() && c@[i as int].id@ == id@,
            None => forall|i: int| 0 <= i < c@.len() ==> #[trigger] c@[i].id@ != id@,
        },
{
    let mut i: usize = 0;
    while i < c.len()
        invariant
            i <= c@.len(),
            forall|j: int| 0 <= j < i ==> #[trigger] c@[j].id@ != id@,
        decreases c@.len() - i,
    {
        if c[i].id == *id {
            return Some(i);
        }
        i = i + 1;
    }
    None
}

// ---- the patch-name report ----

/// The names of `s` that match `filter`, in order.
pub open spec fn keep_matching(s: Seq<Seq<char>>, filter: Seq<char>) -> Seq<Seq<char>>
    decreases s.len(),
{
    if s.len() == 0 {
        s
    } else {
        let r = keep_matching(s.drop_last(), filter);
        if matches_filter_spec(s.last(), filter) {
            r.push(s.last())
        } else {
            r
        }
    }
}

pub open spec fn kept(s: Seq<Seq<char>>, filter: Option<Seq<char>>) -> Seq<Seq<char>> {
    match filter {
        None => s,
        Some(f) => keep_matching(s, f),
    }
}

/// One mod of the patch-name report.
pub struct MixinModel {
    pub id: Seq<char>,
    pub file_names: Seq<Seq<char>>,
    pub both: Seq<Seq<char>>,
    pub client: Seq<Seq<char>>,
    pub server: Seq<Seq<char>>,
}

/// One mod of the patch-name report: its id, the names it was found under, and its
/// patch names by environment.
#[derive(Debug)]
pub struct MixinEntry {
    pub id: String,
    pub file_names: Vec<String>,
    pub both: Vec<String>,
    pub client: Vec<String>,
    pub server: Vec<String>,
}

impl View for MixinEntry {
    type V = MixinModel;

    open spec fn view(&self) -> MixinModel {
        MixinModel {
            id: self.id@,
            file_names: strs_view(self.file_names@),
            both: strs_view(self.both@),
            client: strs_view(self.client@),
            server: strs_view(self.server@),
        }
    }
}

pub open spec fn mixin_entries_view(v: Seq<MixinEntry>) -> Seq<MixinModel> {
    v.map_values(|e: MixinEntry| e@)
}

pub open spec fn mixin_entry_of(c: CollatedModel, filter: Option<Seq<char>>) -> MixinModel {
    MixinModel {
        id: c.id,
        file_names: c.file_names,
        both: kept(c.both, filter),
        client: kept(c.client, filter),
        server: kept(c.server, filter),
    }
}

/// Without a filter every mod is shown; with one, only those that keep a patch name.
pub open spec fn shown(e: MixinModel, filter: Option<Seq<char>>) -> bool {
    filter is None || e.both.len() > 0 || e.client.len() > 0 || e.server.len() > 0
}

/// The patch-name report over merged records, in their order.
pub open spec fn mixin_report(cs: Seq<CollatedModel>, filter: Option<Seq<char>>) -> Seq<MixinModel>
    decreases cs.len(),
{
    if cs.len() == 0 {
        Seq::empty()
    } else {
        let r = mixin_report(cs.drop_last(), filter);
        let e = mixin_entry_of(cs.last(), filter);
        if shown(e, filter) {
            r.push(e)
        } else {
            r
        }
    }
}

/// The names of `v` that match `filter`, in order; all of them without a filter.
pub fn keep_names(v: &Vec<String>, filter: Option<&String>) -> (r: Vec<String>)
    ensures
        strs_view(r@) == kept(strs_view(v@), opt_ref_view(filter)),
{
    let ghost s = strs_view(v@);
    let mut r: Vec<String> = Vec::new();
    let mut i: usize = 0;
    assert(strs_view(r@) =~= kept(s.take(0), opt_ref_view(filter)));
    while i < v.len()
        invariant
            i <= v@.len(),
            s == strs_view(v@),
            strs_view(r@) == kept(s.take(i as int), opt_ref_view(filter)),
        decreases v@.len() - i,
    {
        assert(s.take(i + 1).drop_last() =~= s.take(i as int));
        let keep = match filter {
            None => true,
            Some(f) => matches_filter(v[i].as_str(), f.as_str()),
        };
        if keep {
            let ghost before = r@;
            let c = v[i].clone();
            r.push(c);
            assert(strs_view(r@) =~= strs_view(before).push(c@));
        }
        i = i + 1;
        assert(s.take(i as int) =~= s.take(i - 1).push(s[i - 1]));
    }
    assert(s.take(i as int) =~= s);
    r
}

/// The patch-name report: for each merged mod, in order, its patch names that match
/// the filter; with a filter, mods left without a patch name are not listed.
pub fn mixin_view(c: &Vec<Collated>, filter: Option<&String>) -> (r: Vec<MixinEntry>)
    ensures
        mixin_entries_view(r@) == mixin_report(collated_view(c@), opt_ref_view(filter)),
{
    let ghost cs = collated_view(c@);
    let ghost fv = opt_ref_view(filter);
    let mut r: Vec<MixinEntry> = Vec::new();
    let mut i: usize = 0;
    assert(mixin_entries_view(r@) =~= mixin_report(cs.take(0), fv));
    while i < c.len()
        invariant
            i <= c@.len(),
            cs == collated_view(c@),
            fv == opt_ref_view(filter),
            mixin_entries_view(r@) == mixin_report(cs.take(i as int), fv),
        decreases c@.len() - i,
    {
        assert(cs.take(i + 1).drop_last() =~= cs.take(i as int));
        assert(cs.take(i + 1).last() == c@[i as int]@);
        let e = MixinEntry {
            id: c[i].id.clone(),
            file_names: copy_strs(&c[i].file_names),
            both: keep_names(&c[i].both, filter),
            client: keep_names(&c[i].client, filter),
            server: keep_names(&c[i].server, filter),
        };
        assert(e@ == mixin_entry_of(c@[i as int]@, fv));
        let show = match filter {
            None => true,
            Some(_) => e.both.len() > 0 || e.client.len() > 0 || e.server.len() > 0,
        };
        if show {
            let ghost before = r@;
            r.push(e);
            assert(mixin_entries_view(r@) =~= mixin_entries_view(before).push(e@));
        }
        i = i + 1;
    }
    assert(cs.take(i as int) =~= cs);
    r
}

// ---- the reverse containment report ----

/// The ids at which the reverse report starts: those held by another mod and, with a
/// filter, matching it; in the order of the merged records.
pub open spec fn reverse_roots_spec(cs: Seq<CollatedModel>, filter: Option<Seq<char>>) -> Seq<Seq<char>>
    decreases cs.len(),
{
    if cs.len() == 0 {
        Seq::empty()
    } else {
        let r = reverse_roots_spec(cs.drop_last(), filter);
        let c = cs.last();
        if c.parents.len() > 0 && match filter {
            None => true,
            Some(f) => matches_filter_spec(c.id, f),
        } {
            r.push(c.id)
        } else {
            r
        }
    }
}

/// The ids at which the reverse containment report starts.
pub fn reverse_roots(c: &Vec<Collated>, filter: Option<&String>) -> (r: Vec<String>)
    ensures
        strs_view(r@) == reverse_roots_spec(collated_view(c@), opt_ref_view(filter)),
{
    let ghost cs = collated_view(c@);
    let ghost fv = opt_ref_view(filter);
    let mut r: Vec<String> = Vec::new();
    let mut i: usize = 0;
    assert(strs_view(r@) =~= reverse_roots_spec(cs.take(0), fv));
    while i < c.len()
        invariant
            i <= c@.len(),
            cs == collated_view(c@),
            fv == opt_ref_view(filter),
            strs_view(r@) == reverse_roots_spec(cs.take(i as int), fv),
        decreases c@.len() - i,
    {
        assert(cs.take(i + 1).drop_last() =~= cs.take(i as int));
        assert(cs.take(i + 1).last() == c@[i as int]@);
        let keep = c[i].parents.len() > 0 && match filter {
            None => true,
            Some(f) => matches_filter(c[i].id.as_str(), f.as_str()),
        };
        if keep {
            let ghost before = r@;
            let x = c[i].id.clone();
            r.push(x);
            assert(strs_view(r@) =~= strs_view(before).push(x@));
        }
        i = i + 1;
    }
    assert(cs.take(i as int) =~= cs);
    r
}

} // verus!
