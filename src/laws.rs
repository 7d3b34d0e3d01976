//! Properties that relate several functions of the library, or that hold of every
//! input, stated over the models that their contracts use.
use vstd::prelude::*;
use crate::archive::matches_filter_spec;
use crate::collate::{
    OccModel, CollatedModel, Facet, facet_of, gathered, ids_in, flat, flat_files, keep_matching,
    mixin_report, reverse_roots_spec, merged, collated_ok, collated_ids, sorted_set, str_lt,
};
use crate::descriptor::{Environment, MixinConfigModel};
use crate::traverse::{buckets_of, Traversed};

verus! {

// ---- environment override ----

/// A document referenced with the server environment adds all its patch names, from
/// its unscoped, client and server lists, to the server bucket, and nothing to the others.
pub proof fn lemma_server_override(cs: Seq<(Option<Environment>, Option<MixinConfigModel>)>, c: MixinConfigModel)
    ensures
        ({
            let before = buckets_of(cs);
            let after = buckets_of(cs.push((Some(Environment::Server), Some(c))));
            &&& after.both == before.both
            &&& after.client == before.client
            &&& after.server == before.server + c.mixins + c.client + c.server
        }),
{
    assert(cs.push((Some(Environment::Server), Some(c))).drop_last() =~= cs);
}

/// When every reference forces the server environment, the unscoped and client
/// buckets stay empty.
pub proof fn lemma_all_server_refs(cs: Seq<(Option<Environment>, Option<MixinConfigModel>)>)
    requires
        forall|i: int| 0 <= i < cs.len() ==> (#[trigger] cs[i]).0 == Some(Environment::Server),
    ensures
        buckets_of(cs).both.len() == 0,
        buckets_of(cs).client.len() == 0,
    decreases cs.len(),
{
    if cs.len() > 0 {
        let rest = cs.drop_last();
        assert forall|i: int| 0 <= i < rest.len() implies (#[trigger] rest[i]).0 == Some(Environment::Server) by {
            assert(rest[i] == cs[i]);
        }
        lemma_all_server_refs(rest);
        assert(cs.last() == cs[cs.len() - 1]);
    }
}

// ---- filters ----

/// A case-insensitive filter keeps only names that contain it.
pub proof fn lemma_keep_matching(s: Seq<Seq<char>>, filter: Seq<char>)
    ensures
        forall|j: int| 0 <= j < keep_matching(s, filter).len()
            ==> matches_filter_spec(#[trigger] keep_matching(s, filter)[j], filter),
    decreases s.len(),
{
    if s.len() > 0 {
        let r = keep_matching(s.drop_last(), filter);
        lemma_keep_matching(s.drop_last(), filter);
        let t = keep_matching(s, filter);
        assert forall|j: int| 0 <= j < t.len() implies matches_filter_spec(#[trigger] t[j], filter) by {
            if j < r.len() {
                assert(t[j] == r[j]);
            }
        }
    }
}

/// With a filter, every patch name in the report contains the filter, case-folded.
pub proof fn lemma_report_names_match(cs: Seq<CollatedModel>, filter: Seq<char>)
    ensures
        forall|i: int| #![trigger mixin_report(cs, Some(filter))[i]]
            0 <= i < mixin_report(cs, Some(filter)).len() ==> {
                let e = mixin_report(cs, Some(filter))[i];
                &&& forall|j: int| 0 <= j < e.both.len() ==> matches_filter_spec(#[trigger] e.both[j], filter)
                &&& forall|j: int| 0 <= j < e.client.len() ==> matches_filter_spec(#[trigger] e.client[j], filter)
                &&& forall|j: int| 0 <= j < e.server.len() ==> matches_filter_spec(#[trigger] e.server[j], filter)
            },
    decreases cs.len(),
{
    if cs.len() > 0 {
        let r = mixin_report(cs.drop_last(), Some(filter));
        lemma_report_names_match(cs.drop_last(), filter);
        let c = cs.last();
        lemma_keep_matching(c.both, filter);
        lemma_keep_matching(c.client, filter);
        lemma_keep_matching(c.server, filter);
        let t = mixin_report(cs, Some(filter));
        assert forall|i: int| 0 <= i < t.len() && i < r.len() implies #[trigger] t[i] == r[i] by {}
    }
}

/// With a filter, every id at which the reverse report starts contains the filter,
/// case-folded.
pub proof fn lemma_reverse_roots_match(cs: Seq<CollatedModel>, filter: Seq<char>)
    ensures
        forall|i: int| 0 <= i < reverse_roots_spec(cs, Some(filter)).len()
            ==> matches_filter_spec(#[trigger] reverse_roots_spec(cs, Some(filter))[i], filter),
    decreases cs.len(),
{
    if cs.len() > 0 {
        let r = reverse_roots_spec(cs.drop_last(), Some(filter));
        lemma_reverse_roots_match(cs.drop_last(), filter);
        let t = reverse_roots_spec(cs, Some(filter));
        assert forall|j: int| 0 <= j < t.len() implies matches_filter_spec(#[trigger] t[j], filter) by {
            if j < r.len() {
                assert(t[j] == r[j]);
            }
        }
    }
}

// ---- merging by id ----

proof fn lemma_concat_contains(a: Seq<OccModel>, b: Seq<OccModel>, o: OccModel)
    ensures
        (a + b).contains(o) <==> a.contains(o) || b.contains(o),
{
    let s = a + b;
    if s.contains(o) {
        let i = choose|i: int| 0 <= i < s.len() && s[i] == o;
        if i < a.len() {
            assert(a[i] == o);
        } else {
            assert(b[i - a.len()] == o);
        }
    }
    if a.contains(o) {
        let i = choose|i: int| 0 <= i < a.len() && a[i] == o;
        assert(s[i] == o);
    }
    if b.contains(o) {
        let i = choose|i: int| 0 <= i < b.len() && b[i] == o;
        assert(s[i + a.len()] == o);
    }
}

/// An appearance is in the flattening of a list of files exactly when it is in the
/// flattening of one of them.
proof fn lemma_flat_files_contains(files: Seq<(String, Traversed)>, o: OccModel)
    ensures
        flat_files(files).contains(o) <==> exists|i: int|
            0 <= i < files.len() && #[trigger] flat(files[i].1, files[i].0@, None, 0).contains(o),
    decreases files.len(),
{
    if files.len() > 0 {
        let rest = files.drop_last();
        lemma_flat_files_contains(rest, o);
        lemma_concat_contains(flat_files(rest), flat(files.last().1, files.last().0@, None, 0), o);
        if exists|i: int| 0 <= i < files.len() && #[trigger] flat(files[i].1, files[i].0@, None, 0).contains(o) {
            let i = choose|i: int| 0 <= i < files.len() && #[trigger] flat(files[i].1, files[i].0@, None, 0).contains(o);
            if i < files.len() - 1 {
                assert(rest[i] == files[i]);
            }
        }
        if exists|i: int| 0 <= i < rest.len() && #[trigger] flat(rest[i].1, rest[i].0@, None, 0).contains(o) {
            let i = choose|i: int| 0 <= i < rest.len() && #[trigger] flat(rest[i].1, rest[i].0@, None, 0).contains(o);
            assert(rest[i] == files[i]);
        }
    }
}

proof fn lemma_same_members_same_merge(a: Seq<OccModel>, b: Seq<OccModel>)
    requires
        forall|o: OccModel| a.contains(o) <==> b.contains(o),
    ensures
        ids_in(a) == ids_in(b),
        forall|id: Seq<char>, f: Facet| #[trigger] gathered(a, id, f) == gathered(b, id, f),
{
    assert forall|x: Seq<char>| ids_in(a).contains(x) implies ids_in(b).contains(x) by {
        let i = choose|i: int| 0 <= i < a.len() && #[trigger] a[i].id == x;
        assert(a.contains(a[i]));
        let j = choose|j: int| 0 <= j < b.len() && b[j] == a[i];
        assert(b[j].id == x);
    }
    assert forall|x: Seq<char>| ids_in(b).contains(x) implies ids_in(a).contains(x) by {
        let i = choose|i: int| 0 <= i < b.len() && #[trigger] b[i].id == x;
        assert(b.contains(b[i]));
        let j = choose|j: int| 0 <= j < a.len() && a[j] == b[i];
        assert(a[j].id == x);
    }
    assert(ids_in(a) =~= ids_in(b));
    assert forall|id: Seq<char>, f: Facet| #[trigger] gathered(a, id, f) == gathered(b, id, f) by {
        assert forall|x: Seq<char>| gathered(a, id, f).contains(x) implies gathered(b, id, f).contains(x) by {
            let i = choose|i: int| 0 <= i < a.len() && a[i].id == id && #[trigger] facet_of(a[i], f).contains(x);
            assert(a.contains(a[i]));
            let j = choose|j: int| 0 <= j < b.len() && b[j] == a[i];
            assert(facet_of(b[j], f).contains(x));
        }
        assert forall|x: Seq<char>| gathered(b, id, f).contains(x) implies gathered(a, id, f).contains(x) by {
            let i = choose|i: int| 0 <= i < b.len() && b[i].id == id && #[trigger] facet_of(b[i], f).contains(x);
            assert(b.contains(b[i]));
            let j = choose|j: int| 0 <= j < a.len() && a[j] == b[i];
            assert(facet_of(a[j], f).contains(x));
        }
        assert(gathered(a, id, f) =~= gathered(b, id, f));
    }
}

/// Merging by mod id does not depend on the order in which the top-level files come:
/// two lists holding the same files give the same ids, and for each id the same file
/// names, parents, patch names and access-widener texts.
pub proof fn lemma_merge_order_independent(
    files1: Seq<(String, Traversed)>,
    files2: Seq<(String, Traversed)>,
)
    requires
        files1.to_multiset() == files2.to_multiset(),
    ensures
        ids_in(flat_files(files1)) == ids_in(flat_files(files2)),
        forall|id: Seq<char>, f: Facet| #[trigger] gathered(flat_files(files1), id, f) == gathered(flat_files(files2), id, f),
{
    files1.to_multiset_ensures();
    files2.to_multiset_ensures();
    assert forall|e: (String, Traversed)| files1.contains(e) <==> files2.contains(e) by {
        assert(files1.to_multiset().count(e) == files2.to_multiset().count(e));
        assert(files1.to_multiset().count(e) > 0 <==> files1.contains(e));
        assert(files2.to_multiset().count(e) > 0 <==> files2.contains(e));
    }
    assert forall|o: OccModel| flat_files(files1).contains(o) <==> flat_files(files2).contains(o) by {
        lemma_flat_files_contains(files1, o);
        lemma_flat_files_contains(files2, o);
        if exists|i: int| 0 <= i < files1.len() && #[trigger] flat(files1[i].1, files1[i].0@, None, 0).contains(o) {
            let i = choose|i: int| 0 <= i < files1.len() && #[trigger] flat(files1[i].1, files1[i].0@, None, 0).contains(o);
            assert(files1.contains(files1[i]));
            let j = choose|j: int| 0 <= j < files2.len() && files2[j] == files1[i];
            assert(flat(files2[j].1, files2[j].0@, None, 0).contains(o));
        }
        if exists|i: int| 0 <= i < files2.len() && #[trigger] flat(files2[i].1, files2[i].0@, None, 0).contains(o) {
            let i = choose|i: int| 0 <= i < files2.len() && #[trigger] flat(files2[i].1, files2[i].0@, None, 0).contains(o);
            assert(files2.contains(files2[i]));
            let j = choose|j: int| 0 <= j < files1.len() && files1[j] == files2[i];
            assert(flat(files1[j].1, files1[j].0@, None, 0).contains(o));
        }
    }
    lemma_same_members_same_merge(flat_files(files1), flat_files(files2));
}

/// A mod that appears under exactly two parents with different ids has exactly those
/// two parent ids, and its merged record lists both.
pub proof fn lemma_two_parents(
    occs: Seq<OccModel>,
    x: Seq<char>,
    i1: int,
    i2: int,
    parent_a: Seq<char>,
    parent_b: Seq<char>,
    r: Seq<CollatedModel>,
    k: int,
)
    requires
        0 <= i1 < occs.len(),
        0 <= i2 < occs.len(),
        occs[i1].id == x && occs[i1].parent == Some(parent_a),
        occs[i2].id == x && occs[i2].parent == Some(parent_b),
        parent_a != parent_b,
        forall|i: int| 0 <= i < occs.len() && (#[trigger] occs[i]).id == x ==> i == i1 || i == i2,
        merged(r, occs),
        0 <= k < r.len() && r[k].id == x,
    ensures
        gathered(occs, x, Facet::Parents) == set![parent_a, parent_b],
        r[k].parents.len() == 2,
        r[k].parents.contains(parent_a) && r[k].parents.contains(parent_b),
{
    let g = gathered(occs, x, Facet::Parents);
    assert(facet_of(occs[i1], Facet::Parents).contains(parent_a));
    assert(facet_of(occs[i2], Facet::Parents).contains(parent_b));
    assert forall|y: Seq<char>| g.contains(y) implies y == parent_a || y == parent_b by {
        let i = choose|i: int| 0 <= i < occs.len() && occs[i].id == x && #[trigger] facet_of(occs[i], Facet::Parents).contains(y);
        assert(i == i1 || i == i2);
    }
    assert(g =~= set![parent_a, parent_b]);
    assert(collated_ok(r[k], occs));
    let ps = r[k].parents;
    ps.unique_seq_to_set();
    assert(set![parent_a, parent_b].len() == 2) by {
        assert(set![parent_a, parent_b] =~= Set::<Seq<char>>::empty().insert(parent_a).insert(parent_b));
    }
    assert(ps.to_set().contains(parent_a) && ps.to_set().contains(parent_b));
}

// ---- the order of names ----

proof fn lemma_str_lt_irreflexive(a: Seq<char>)
    ensures
        !str_lt(a, a),
    decreases a.len(),
{
    if a.len() > 0 {
        lemma_str_lt_irreflexive(a.drop_first());
    }
}

proof fn lemma_str_lt_transitive(a: Seq<char>, b: Seq<char>, c: Seq<char>)
    requires
        str_lt(a, b),
        str_lt(b, c),
    ensures
        str_lt(a, c),
    decreases a.len(),
{
    if a.len() > 0 && b.len() > 0 && c.len() > 0 && a[0] == b[0] && b[0] == c[0] {
        lemma_str_lt_transitive(a.drop_first(), b.drop_first(), c.drop_first());
    }
}

/// In an ordered set every earlier name is below every later one.
proof fn lemma_sorted_set_ordered(s: Seq<Seq<char>>, i: int, j: int)
    requires
        sorted_set(s),
        0 <= i < j < s.len(),
    ensures
        str_lt(s[i], s[j]),
    decreases j - i,
{
    if j > i + 1 {
        lemma_sorted_set_ordered(s, i, j - 1);
        assert(str_lt(s[j - 1], s[j]));
        lemma_str_lt_transitive(s[i], s[j - 1], s[j]);
    }
}

/// An ordered set of names is determined by the names it holds.
pub proof fn lemma_sorted_set_unique(a: Seq<Seq<char>>, b: Seq<Seq<char>>)
    requires
        sorted_set(a),
        sorted_set(b),
        a.to_set() == b.to_set(),
    ensures
        a == b,
    decreases a.len(),
{
    if a.len() == 0 {
        if b.len() > 0 {
            assert(b.to_set().contains(b[0]));
        }
        assert(a =~= b);
    } else if b.len() == 0 {
        assert(a.to_set().contains(a[0]));
    } else {
        assert(a.to_set().contains(a[0]) && b.to_set().contains(b[0]));
        let ja = choose|j: int| 0 <= j < b.len() && b[j] == a[0];
        let jb = choose|j: int| 0 <= j < a.len() && a[j] == b[0];
        if ja > 0 {
            lemma_sorted_set_ordered(b, 0, ja);
            if jb > 0 {
                lemma_sorted_set_ordered(a, 0, jb);
                lemma_str_lt_transitive(a[0], b[0], a[0]);
                lemma_str_lt_irreflexive(a[0]);
            }
        }
        assert(a[0] == b[0]);
        let ra = a.drop_first();
        let rb = b.drop_first();
        assert(sorted_set(ra)) by {
            assert forall|i: int| 0 <= i < ra.len() - 1 implies str_lt(#[trigger] ra[i], ra[i + 1]) by {
                assert(ra[i] == a[i + 1] && ra[i + 1] == a[i + 2]);
            }
        }
        assert(sorted_set(rb)) by {
            assert forall|i: int| 0 <= i < rb.len() - 1 implies str_lt(#[trigger] rb[i], rb[i + 1]) by {
                assert(rb[i] == b[i + 1] && rb[i + 1] == b[i + 2]);
            }
        }
        assert forall|x: Seq<char>| ra.to_set().contains(x) <==> rb.to_set().contains(x) by {
            if ra.contains(x) {
                let i = choose|i: int| 0 <= i < ra.len() && ra[i] == x;
                assert(a[i + 1] == x && x != a[0]);
                assert(a.to_set().contains(x));
                let j = choose|j: int| 0 <= j < b.len() && b[j] == x;
                assert(j != 0);
                assert(rb[j - 1] == x);
            }
            if rb.contains(x) {
                let i = choose|i: int| 0 <= i < rb.len() && rb[i] == x;
                assert(b[i + 1] == x && x != b[0]);
                assert(b.to_set().contains(x));
                let j = choose|j: int| 0 <= j < a.len() && a[j] == x;
                assert(j != 0);
                assert(ra[j - 1] == x);
            }
        }
        assert(ra.to_set() =~= rb.to_set());
        lemma_sorted_set_unique(ra, rb);
        assert(a =~= seq![a[0]] + ra);
        assert(b =~= seq![b[0]] + rb);
    }
}

/// Two merges of the same appearances are the same sequence of records.
pub proof fn lemma_merge_unique(r1: Seq<CollatedModel>, r2: Seq<CollatedModel>, occs1: Seq<OccModel>, occs2: Seq<OccModel>)
    requires
        merged(r1, occs1),
        merged(r2, occs2),
        ids_in(occs1) == ids_in(occs2),
        forall|id: Seq<char>, f: Facet| #[trigger] gathered(occs1, id, f) == gathered(occs2, id, f),
    ensures
        r1 == r2,
{
    lemma_sorted_set_unique(collated_ids(r1), collated_ids(r2));
    assert(r1.len() == collated_ids(r1).len());
    assert forall|i: int| 0 <= i < r1.len() implies #[trigger] r1[i] == r2[i] by {
        let (a, b) = (r1[i], r2[i]);
        assert(collated_ids(r1)[i] == collated_ids(r2)[i]);
        assert(collated_ok(a, occs1) && collated_ok(b, occs2));
        let id = a.id;
        assert(gathered(occs1, id, Facet::Files) == gathered(occs2, id, Facet::Files));
        assert(gathered(occs1, id, Facet::Parents) == gathered(occs2, id, Facet::Parents));
        assert(gathered(occs1, id, Facet::Wideners) == gathered(occs2, id, Facet::Wideners));
        assert(gathered(occs1, id, Facet::Patches(Environment::Both)) == gathered(occs2, id, Facet::Patches(Environment::Both)));
        assert(gathered(occs1, id, Facet::Patches(Environment::Client)) == gathered(occs2, id, Facet::Patches(Environment::Client)));
        assert(gathered(occs1, id, Facet::Patches(Environment::Server)) == gathered(occs2, id, Facet::Patches(Environment::Server)));
        lemma_sorted_set_unique(a.file_names, b.file_names);
        lemma_sorted_set_unique(a.parents, b.parents);
        lemma_sorted_set_unique(a.wideners, b.wideners);
        lemma_sorted_set_unique(a.both, b.both);
        lemma_sorted_set_unique(a.client, b.client);
        lemma_sorted_set_unique(a.server, b.server);
    }
    assert(r1 =~= r2);
}

/// The patch-name report does not depend on the order in which the top-level files
/// come: for two lists holding the same files, the merges are the same records, and
/// so the reports are the same, with or without a filter.
pub proof fn lemma_report_order_independent(
    files1: Seq<(String, Traversed)>,
    files2: Seq<(String, Traversed)>,
    r1: Seq<CollatedModel>,
    r2: Seq<CollatedModel>,
    filter: Option<Seq<char>>,
)
    requires
        files1.to_multiset() == files2.to_multiset(),
        merged(r1, flat_files(files1)),
        merged(r2, flat_files(files2)),
    ensures
        r1 == r2,
        mixin_report(r1, filter) == mixin_report(r2, filter),
{
    lemma_merge_order_independent(files1, files2);
    lemma_merge_unique(r1, r2, flat_files(files1), flat_files(files2));
}

} // verus!
