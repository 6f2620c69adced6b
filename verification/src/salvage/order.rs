//! Planning from extent records does not depend on the order of the
//! records: grouping by path sorts the groups, and sorting each group by
//! offset leaves nothing to the input order once the accepted extents have
//! distinct offsets.
use vstd::prelude::*;
use crate::text::{chars_lt, chars_le, lemma_chars_lt_irreflexive, lemma_chars_lt_asymmetric};
use super::grouping::{items_with_key, with_u64_key, sorted_by_u64_key, is_grouping, is_stable_sort_by_u64_key, lemma_items_with_key_origin};
use super::types::{BlockVerification, Extent, FilePlan, FilePlanView, MappingProvenance, PlanError, RecoveryClassification, RedundantMapFile};
use super::records::{ExperimentalExtentRecord, ExtentRecordView, extent_record_views};
use super::metadata::{first_file_fault, file_fault, redundant_plan_view, plan_views, sorted_by_path, prefix_len, law_accepted_map_covers_every_file, extent_well_placed};
use super::planning::{experimental_items, pair_extents, is_experimental_files, experimental_file_of_group, experimental_outcome, relabel, sizes_agree, law_size_conflict_is_order_free, lemma_no_conflict_iff_sizes_agree};
use crate::seqs::lemma_map_preserves_multiset_eq;

verus! {

/// An item's count among the items filed under `p` is the count of the
/// keyed item `(p, x)`.
proof fn lemma_filed_count<T>(s: Seq<(Seq<char>, T)>, p: Seq<char>, x: T)
    ensures
        items_with_key(s, p).to_multiset().count(x) == s.to_multiset().count((p, x)),
    decreases s.len(),
{
    broadcast use vstd::multiset::group_multiset_axioms;
    if s.len() > 0 {
        let d = s.drop_last();
        lemma_filed_count(d, p, x);
        assert(s =~= d.push(s.last()));
        vstd::seq_lib::to_multiset_build(d, s.last());
        let r = items_with_key(d, p);
        if s.last().0 == p {
            vstd::seq_lib::to_multiset_build(r, s.last().1);
        }
    } else {
        vstd::seq_lib::to_multiset_contains(s, (p, x));
        vstd::seq_lib::to_multiset_contains(items_with_key(s, p), x);
        assert(!items_with_key(s, p).contains(x));
    }
}

/// An item's count among the items of key `v` is its count in `s` when it
/// has that key, else zero.
proof fn lemma_keyed_count<T>(s: Seq<(u64, T)>, v: u64, x: (u64, T))
    ensures
        with_u64_key(s, v).to_multiset().count(x) == if x.0 == v { s.to_multiset().count(x) } else { 0 },
    decreases s.len(),
{
    broadcast use vstd::multiset::group_multiset_axioms;
    if s.len() > 0 {
        let d = s.drop_last();
        lemma_keyed_count(d, v, x);
        assert(s =~= d.push(s.last()));
        vstd::seq_lib::to_multiset_build(d, s.last());
        let r = with_u64_key(d, v);
        if s.last().0 == v {
            vstd::seq_lib::to_multiset_build(r, s.last());
        }
    } else {
        vstd::seq_lib::to_multiset_contains(s, x);
        vstd::seq_lib::to_multiset_contains(with_u64_key(s, v), x);
        assert(!with_u64_key(s, v).contains(x));
    }
}

/// Filing by key keeps two reorderings of each other reorderings.
pub proof fn lemma_filed_reordered<T>(s1: Seq<(Seq<char>, T)>, s2: Seq<(Seq<char>, T)>, p: Seq<char>)
    requires
        s1.to_multiset() == s2.to_multiset(),
    ensures
        items_with_key(s1, p).to_multiset() == items_with_key(s2, p).to_multiset(),
{
    assert forall|x: T| #[trigger] items_with_key(s1, p).to_multiset().count(x) == items_with_key(s2, p).to_multiset().count(x) by {
        lemma_filed_count(s1, p, x);
        lemma_filed_count(s2, p, x);
    }
    assert(items_with_key(s1, p).to_multiset() =~= items_with_key(s2, p).to_multiset());
}

/// Taking the items of one key keeps two reorderings of each other
/// reorderings.
pub proof fn lemma_keyed_reordered<T>(s1: Seq<(u64, T)>, s2: Seq<(u64, T)>, v: u64)
    requires
        s1.to_multiset() == s2.to_multiset(),
    ensures
        with_u64_key(s1, v).to_multiset() == with_u64_key(s2, v).to_multiset(),
{
    assert forall|x: (u64, T)| #[trigger] with_u64_key(s1, v).to_multiset().count(x) == with_u64_key(s2, v).to_multiset().count(x) by {
        lemma_keyed_count(s1, v, x);
        lemma_keyed_count(s2, v, x);
    }
    assert(with_u64_key(s1, v).to_multiset() =~= with_u64_key(s2, v).to_multiset());
}

/// Two reorderings of each other with at most one item are equal.
pub proof fn lemma_short_reordering_equal<A>(a: Seq<A>, b: Seq<A>)
    requires
        a.to_multiset() == b.to_multiset(),
        a.len() <= 1,
    ensures
        a == b,
{
    vstd::seq_lib::to_multiset_len(a);
    vstd::seq_lib::to_multiset_len(b);
    if a.len() == 1 {
        vstd::seq_lib::to_multiset_contains(a, a[0]);
        vstd::seq_lib::to_multiset_contains(b, a[0]);
        assert(a.contains(a[0]));
        assert(b.contains(a[0]));
        assert(b[0] == a[0]);
        assert(a =~= b);
    } else {
        assert(a =~= b);
    }
}

/// Where an item of key `v` comes from in the sequence.
pub proof fn keyed_origin<T>(s: Seq<(u64, T)>, v: u64, i: int) -> (j: int)
    requires
        0 <= i < with_u64_key(s, v).len(),
    ensures
        0 <= j < s.len(),
        s[j] == with_u64_key(s, v)[i],
        s[j].0 == v,
    decreases s.len(),
{
    let d = s.drop_last();
    let r = with_u64_key(d, v);
    if s.last().0 == v && i == r.len() {
        s.len() - 1
    } else {
        let j = keyed_origin(d, v, i);
        assert(s[j] == d[j]);
        j
    }
}

/// Where an item of the sequence stands among the items of its key.
pub proof fn keyed_index<T>(s: Seq<(u64, T)>, v: u64, j: int) -> (i: int)
    requires
        0 <= j < s.len(),
        s[j].0 == v,
    ensures
        0 <= i < with_u64_key(s, v).len(),
        with_u64_key(s, v)[i] == s[j],
    decreases s.len(),
{
    let d = s.drop_last();
    let r = with_u64_key(d, v);
    if j == s.len() - 1 {
        r.len() as int
    } else {
        let i = keyed_index(d, v, j);
        assert(d[j] == s[j]);
        if s.last().0 == v {
            assert(r.push(s.last())[i] == r[i]);
        }
        i
    }
}

/// Two key-sorted sequences holding the same items of every key, in the
/// same order, are equal.
pub proof fn lemma_keyed_sorted_unique<T>(s1: Seq<(u64, T)>, s2: Seq<(u64, T)>)
    requires
        sorted_by_u64_key(s1),
        sorted_by_u64_key(s2),
        forall|v: u64| #[trigger] with_u64_key(s1, v) == with_u64_key(s2, v),
    ensures
        s1 == s2,
    decreases s1.len() + s2.len(),
{
    if s1.len() == 0 && s2.len() == 0 {
        assert(s1 =~= s2);
    } else if s1.len() == 0 {
        let v = s2.last().0;
        assert(with_u64_key(s2, v).len() > 0);
        assert(with_u64_key(s1, v).len() == 0);
    } else if s2.len() == 0 {
        let v = s1.last().0;
        assert(with_u64_key(s1, v).len() > 0);
        assert(with_u64_key(s2, v).len() == 0);
    } else {
        let k1 = s1.last().0;
        let k2 = s2.last().0;
        assert(with_u64_key(s1, k1).len() > 0);
        let a = keyed_origin(s2, k1, 0);
        assert(s2[a].0 <= s2[s2.len() - 1].0);
        assert(with_u64_key(s2, k2).len() > 0);
        let b = keyed_origin(s1, k2, 0);
        assert(s1[b].0 <= s1[s1.len() - 1].0);
        assert(k1 == k2);
        assert(with_u64_key(s1, k1).last() == s1.last());
        assert(with_u64_key(s2, k1).last() == s2.last());
        let d1 = s1.drop_last();
        let d2 = s2.drop_last();
        assert forall|v: u64| #[trigger] with_u64_key(d1, v) == with_u64_key(d2, v) by {
            assert(with_u64_key(s1, v) == with_u64_key(s2, v));
            if v == k1 {
                assert(with_u64_key(s1, v).drop_last() =~= with_u64_key(d1, v));
                assert(with_u64_key(s2, v).drop_last() =~= with_u64_key(d2, v));
            }
        }
        assert forall|i: int, j: int| 0 <= i < j < d1.len() implies (#[trigger] d1[i]).0 <= (#[trigger] d1[j]).0 by {
            assert(s1[i] == d1[i] && s1[j] == d1[j]);
        }
        assert forall|i: int, j: int| 0 <= i < j < d2.len() implies (#[trigger] d2[i]).0 <= (#[trigger] d2[j]).0 by {
            assert(s2[i] == d2[i] && s2[j] == d2[j]);
        }
        lemma_keyed_sorted_unique(d1, d2);
        assert(s1 =~= d1.push(s1.last()));
        assert(s2 =~= d2.push(s2.last()));
    }
}

/// Two strictly ascending key sequences with the same keys are equal.
pub proof fn lemma_ascending_keys_unique(x: Seq<Seq<char>>, y: Seq<Seq<char>>)
    requires
        forall|i: int, j: int| 0 <= i < j < x.len() ==> chars_lt(#[trigger] x[i], #[trigger] x[j]),
        forall|i: int, j: int| 0 <= i < j < y.len() ==> chars_lt(#[trigger] y[i], #[trigger] y[j]),
        forall|k: Seq<char>| x.contains(k) <==> y.contains(k),
    ensures
        x == y,
    decreases x.len() + y.len(),
{
    if x.len() == 0 && y.len() == 0 {
        assert(x =~= y);
    } else if x.len() == 0 {
        assert(y.contains(y[0]));
    } else if y.len() == 0 {
        assert(x.contains(x[0]));
    } else {
        let xl = x.len() - 1;
        let yl = y.len() - 1;
        assert(x.contains(x[xl]));
        assert(y.contains(y[yl]));
        let a = choose|a: int| 0 <= a < y.len() && y[a] == x[xl];
        let b = choose|b: int| 0 <= b < x.len() && x[b] == y[yl];
        if a < yl {
            assert(chars_lt(y[a], y[yl]));
            lemma_chars_lt_irreflexive(x[xl]);
            if b < xl {
                assert(chars_lt(x[b], x[xl]));
                lemma_chars_lt_asymmetric(x[xl], y[yl]);
            }
        }
        assert(x[xl] == y[yl]);
        let dx = x.drop_last();
        let dy = y.drop_last();
        assert forall|k: Seq<char>| dx.contains(k) <==> dy.contains(k) by {
            if dx.contains(k) {
                let i = choose|i: int| 0 <= i < dx.len() && dx[i] == k;
                assert(x[i] == k && chars_lt(x[i], x[xl]));
                lemma_chars_lt_irreflexive(k);
                assert(x.contains(k));
                let j = choose|j: int| 0 <= j < y.len() && y[j] == k;
                assert(j != yl);
                assert(dy[j] == k);
            }
            if dy.contains(k) {
                let i = choose|i: int| 0 <= i < dy.len() && dy[i] == k;
                assert(y[i] == k && chars_lt(y[i], y[yl]));
                lemma_chars_lt_irreflexive(k);
                assert(y.contains(k));
                let j = choose|j: int| 0 <= j < x.len() && x[j] == k;
                assert(j != xl);
                assert(dx[j] == k);
            }
        }
        assert forall|i: int, j: int| 0 <= i < j < dx.len() implies chars_lt(#[trigger] dx[i], #[trigger] dx[j]) by {
            assert(dx[i] == x[i] && dx[j] == x[j]);
        }
        assert forall|i: int, j: int| 0 <= i < j < dy.len() implies chars_lt(#[trigger] dy[i], #[trigger] dy[j]) by {
            assert(dy[i] == y[i] && dy[j] == y[j]);
        }
        lemma_ascending_keys_unique(dx, dy);
        assert(x =~= dx.push(x[xl]));
        assert(y =~= dy.push(y[yl]));
    }
}

/// Plans in path order that are a reordering of plans in strictly
/// ascending path order are those plans.
pub proof fn lemma_path_sorted_matches(x: Seq<FilePlanView>, z: Seq<FilePlanView>)
    requires
        sorted_by_path(x),
        forall|i: int, j: int| 0 <= i < j < z.len() ==> chars_lt(#[trigger] z[i].file_path, #[trigger] z[j].file_path),
        x.to_multiset() == z.to_multiset(),
    ensures
        x == z,
    decreases x.len(),
{
    broadcast use vstd::multiset::group_multiset_axioms;
    vstd::seq_lib::to_multiset_len(x);
    vstd::seq_lib::to_multiset_len(z);
    if x.len() == 0 {
        assert(x =~= z);
    } else {
        let xl = x.len() - 1;
        let zl = z.len() - 1;
        vstd::seq_lib::to_multiset_contains(x, x[xl]);
        vstd::seq_lib::to_multiset_contains(z, x[xl]);
        vstd::seq_lib::to_multiset_contains(x, z[zl]);
        vstd::seq_lib::to_multiset_contains(z, z[zl]);
        assert(x.contains(x[xl]));
        assert(z.contains(z[zl]));
        let b = choose|b: int| 0 <= b < z.len() && z[b] == x[xl];
        let a = choose|a: int| 0 <= a < x.len() && x[a] == z[zl];
        if a < xl {
            assert(chars_le(x[a].file_path, x[xl].file_path));
        }
        assert(chars_le(z[zl].file_path, z[b].file_path));
        if b < zl {
            assert(chars_lt(z[b].file_path, z[zl].file_path));
            lemma_chars_lt_irreflexive(z[zl].file_path);
            lemma_chars_lt_asymmetric(z[zl].file_path, z[b].file_path);
        }
        assert(x[xl] == z[zl]);
        let dx = x.drop_last();
        let dz = z.drop_last();
        assert(x =~= dx.push(x[xl]));
        assert(z =~= dz.push(z[zl]));
        vstd::seq_lib::to_multiset_build(dx, x[xl]);
        vstd::seq_lib::to_multiset_build(dz, z[zl]);
        assert(dx.to_multiset() =~= x.to_multiset().remove(x[xl]));
        assert(dz.to_multiset() =~= z.to_multiset().remove(z[zl]));
        assert forall|i: int, j: int| 0 <= i < j < dx.len() implies chars_le(#[trigger] dx[i].file_path, #[trigger] dx[j].file_path) by {
            assert(dx[i] == x[i] && dx[j] == x[j]);
        }
        assert forall|i: int, j: int| 0 <= i < j < dz.len() implies chars_lt(#[trigger] dz[i].file_path, #[trigger] dz[j].file_path) by {
            assert(dz[i] == z[i] && dz[j] == z[j]);
        }
        lemma_path_sorted_matches(dx, dz);
    }
}

/// Two files state the same path, size and extents.
pub open spec fn same_file(a: RedundantMapFile, b: RedundantMapFile) -> bool {
    a.path@ == b.path@ && a.size == b.size && a.extents@ == b.extents@
}

/// Files stating the same paths, sizes and extents, one by one, have the
/// same faults.
pub proof fn lemma_same_files_same_faults(f1: Seq<RedundantMapFile>, f2: Seq<RedundantMapFile>, bv: Map<u32, BlockVerification>, i: int)
    requires
        f1.len() == f2.len(),
        forall|k: int| 0 <= k < f1.len() ==> same_file(#[trigger] f1[k], f2[k]),
    ensures
        first_file_fault(f1, bv, i) == first_file_fault(f2, bv, i),
    decreases f1.len() - i,
{
    if 0 <= i < f1.len() {
        lemma_same_files_same_faults(f1, f2, bv, i + 1);
        assert(same_file(f1[i], f2[i]));
        assert((exists|j: int| 0 <= j < i && #[trigger] f1[j].path@ == f1[i].path@)
            == (exists|j: int| 0 <= j < i && #[trigger] f2[j].path@ == f2[i].path@)) by {
            if exists|j: int| 0 <= j < i && #[trigger] f1[j].path@ == f1[i].path@ {
                let j = choose|j: int| 0 <= j < i && #[trigger] f1[j].path@ == f1[i].path@;
                assert(same_file(f1[j], f2[j]));
            }
            if exists|j: int| 0 <= j < i && #[trigger] f2[j].path@ == f2[i].path@ {
                let j = choose|j: int| 0 <= j < i && #[trigger] f2[j].path@ == f2[i].path@;
                assert(same_file(f1[j], f2[j]));
            }
        }
        assert(file_fault(f1, bv, i) == file_fault(f2, bv, i));
    }
}

proof fn lemma_prefix_grows(es: Seq<Extent>, a: int, b: int)
    requires
        0 <= a <= b <= es.len(),
    ensures
        prefix_len(es, a) <= prefix_len(es, b),
    decreases b - a,
{
    if a < b {
        lemma_prefix_grows(es, a, b - 1);
    }
}

/// The extents of an accepted file start at strictly increasing offsets.
proof fn lemma_accepted_offsets_ascend(es: Seq<Extent>, bv: Map<u32, BlockVerification>)
    requires
        forall|k: int| 0 <= k < es.len() ==> #[trigger] extent_well_placed(es, k, bv),
    ensures
        forall|i: int, j: int| 0 <= i < j < es.len() ==> (#[trigger] es[i]).offset < (#[trigger] es[j]).offset,
{
    assert forall|i: int, j: int| 0 <= i < j < es.len() implies (#[trigger] es[i]).offset < (#[trigger] es[j]).offset by {
        assert(extent_well_placed(es, i, bv));
        assert(extent_well_placed(es, j, bv));
        lemma_prefix_grows(es, i + 1, j);
        assert(prefix_len(es, i + 1) == prefix_len(es, i) + es[i].len);
    }
}

/// With strictly increasing keys, no key has more than one item.
proof fn lemma_keyed_at_most_one<T>(s: Seq<(u64, T)>, v: u64)
    requires
        forall|i: int, j: int| 0 <= i < j < s.len() ==> (#[trigger] s[i]).0 < (#[trigger] s[j]).0,
    ensures
        with_u64_key(s, v).len() <= 1,
    decreases s.len(),
{
    if s.len() > 0 {
        let d = s.drop_last();
        assert forall|i: int, j: int| 0 <= i < j < d.len() implies (#[trigger] d[i]).0 < (#[trigger] d[j]).0 by {
            assert(d[i] == s[i] && d[j] == s[j]);
        }
        lemma_keyed_at_most_one(d, v);
        if s.last().0 == v && with_u64_key(d, v).len() > 0 {
            let j = keyed_origin(d, v, 0);
            assert(s[j] == d[j]);
            assert(s[j].0 < s[s.len() - 1].0);
        }
    }
}

/// Some record names `path`.
pub open spec fn has_path(rs: Seq<ExtentRecordView>, path: Seq<char>) -> bool {
    exists|j: int| 0 <= j < rs.len() && (#[trigger] rs[j]).path == path
}

/// The grouping's keys are the paths the records name.
proof fn lemma_group_keys_are_paths(rs: Seq<ExtentRecordView>, g: Seq<(Seq<char>, Seq<(u64, (Extent, u64))>)>, path: Seq<char>)
    requires
        is_grouping(experimental_items(rs), g),
    ensures
        g.map_values(|e: (Seq<char>, Seq<(u64, (Extent, u64))>)| e.0).contains(path) <==> has_path(rs, path),
{
    let ks = g.map_values(|e: (Seq<char>, Seq<(u64, (Extent, u64))>)| e.0);
    let it = experimental_items(rs);
    if ks.contains(path) {
        let a = choose|a: int| 0 <= a < ks.len() && ks[a] == path;
        assert(g[a].0 == path);
        assert(g[a].1.len() > 0);
        lemma_items_with_key_origin(it, path, 0);
        let j = choose|j: int| 0 <= j < it.len() && (#[trigger] it[j]).0 == path && it[j].1 == items_with_key(it, path)[0];
        assert(rs[j].path == path);
    }
    if has_path(rs, path) {
        let j = choose|j: int| 0 <= j < rs.len() && (#[trigger] rs[j]).path == path;
        assert(it[j].0 == path);
        let a = choose|a: int| 0 <= a < g.len() && #[trigger] g[a].0 == #[trigger] it[j].0;
        assert(ks[a] == path);
    }
}

/// A reordering of the records names the same paths.
proof fn lemma_paths_reordered(rs1: Seq<ExtentRecordView>, rs2: Seq<ExtentRecordView>, path: Seq<char>)
    requires
        rs1.to_multiset() == rs2.to_multiset(),
        has_path(rs1, path),
    ensures
        has_path(rs2, path),
{
    let j = choose|j: int| 0 <= j < rs1.len() && (#[trigger] rs1[j]).path == path;
    vstd::seq_lib::to_multiset_contains(rs1, rs1[j]);
    vstd::seq_lib::to_multiset_contains(rs2, rs1[j]);
    assert(rs1.contains(rs1[j]));
    let q = choose|q: int| 0 <= q < rs2.len() && rs2[q] == rs1[j];
    assert(rs2[q].path == path);
}

/// Every item of a sorted group carries its extent's offset as its key.
proof fn lemma_sorted_group_keys(rs: Seq<ExtentRecordView>, g: Seq<(Seq<char>, Seq<(u64, (Extent, u64))>)>, k: int, sp: Seq<(u64, (Extent, u64))>)
    requires
        is_grouping(experimental_items(rs), g),
        0 <= k < g.len(),
        is_stable_sort_by_u64_key(g[k].1, sp),
    ensures
        forall|i: int| 0 <= i < sp.len() ==> (#[trigger] sp[i]).0 == sp[i].1.0.offset,
{
    let it = experimental_items(rs);
    assert forall|i: int| 0 <= i < sp.len() implies (#[trigger] sp[i]).0 == sp[i].1.0.offset by {
        let v = sp[i].0;
        let idx = keyed_index(sp, v, i);
        assert(with_u64_key(sp, v) == with_u64_key(g[k].1, v));
        let jg = keyed_origin(g[k].1, v, idx);
        assert(g[k].1 == items_with_key(it, g[k].0));
        lemma_items_with_key_origin(it, g[k].0, jg);
        let jj = choose|jj: int| 0 <= jj < it.len() && (#[trigger] it[jj]).0 == g[k].0 && it[jj].1 == items_with_key(it, g[k].0)[jg];
        assert(it[jj].1 == (rs[jj].extent.offset, (rs[jj].extent, rs[jj].size)));
    }
}

/// The files of the same group of two reorderings of the records are the
/// same file, when the first is accepted.
proof fn lemma_group_file_matches(
    rs1: Seq<ExtentRecordView>,
    rs2: Seq<ExtentRecordView>,
    g1: Seq<(Seq<char>, Seq<(u64, (Extent, u64))>)>,
    g2: Seq<(Seq<char>, Seq<(u64, (Extent, u64))>)>,
    f1: RedundantMapFile,
    f2: RedundantMapFile,
    bv: Map<u32, BlockVerification>,
    k: int,
)
    requires
        rs1.to_multiset() == rs2.to_multiset(),
        experimental_items(rs1).to_multiset() == experimental_items(rs2).to_multiset(),
        is_grouping(experimental_items(rs1), g1),
        is_grouping(experimental_items(rs2), g2),
        0 <= k < g1.len(),
        k < g2.len(),
        g1[k].0 == g2[k].0,
        experimental_file_of_group(rs1, f1, g1[k]),
        experimental_file_of_group(rs2, f2, g2[k]),
        forall|q: int| 0 <= q < f1.extents@.len() ==> #[trigger] extent_well_placed(f1.extents@, q, bv),
    ensures
        same_file(f1, f2),
{
    let p = g1[k].0;
    let it1 = experimental_items(rs1);
    let it2 = experimental_items(rs2);
    // size
    assert(g1[k].1.len() > 0);
    lemma_items_with_key_origin(it1, p, 0);
    let j = choose|j: int| 0 <= j < it1.len() && (#[trigger] it1[j]).0 == p && it1[j].1 == items_with_key(it1, p)[0];
    assert(rs1[j].path == p);
    vstd::seq_lib::to_multiset_contains(rs1, rs1[j]);
    vstd::seq_lib::to_multiset_contains(rs2, rs1[j]);
    assert(rs1.contains(rs1[j]));
    let j2 = choose|j2: int| 0 <= j2 < rs2.len() && rs2[j2] == rs1[j];
    assert(f1.size == rs1[j].size);
    assert(f2.size == rs2[j2].size);
    // extents
    let sp1 = choose|sp: Seq<(u64, (Extent, u64))>| is_stable_sort_by_u64_key(g1[k].1, sp) && f1.extents@ == pair_extents(sp);
    let sp2 = choose|sp: Seq<(u64, (Extent, u64))>| is_stable_sort_by_u64_key(g2[k].1, sp) && f2.extents@ == pair_extents(sp);
    lemma_sorted_group_keys(rs1, g1, k, sp1);
    let es = f1.extents@;
    lemma_accepted_offsets_ascend(es, bv);
    assert forall|a: int, b: int| 0 <= a < b < sp1.len() implies (#[trigger] sp1[a]).0 < (#[trigger] sp1[b]).0 by {
        assert(es[a] == sp1[a].1.0 && es[b] == sp1[b].1.0);
    }
    assert(g1[k].1 == items_with_key(it1, p));
    assert(g2[k].1 == items_with_key(it2, p));
    lemma_filed_reordered(it1, it2, p);
    assert forall|v: u64| #[trigger] with_u64_key(sp1, v) == with_u64_key(sp2, v) by {
        lemma_keyed_at_most_one(sp1, v);
        assert(with_u64_key(sp1, v) == with_u64_key(g1[k].1, v));
        assert(with_u64_key(sp2, v) == with_u64_key(g2[k].1, v));
        lemma_keyed_reordered(g1[k].1, g2[k].1, v);
        lemma_short_reordering_equal(with_u64_key(g1[k].1, v), with_u64_key(g2[k].1, v));
    }
    lemma_keyed_sorted_unique(sp1, sp2);
}

/// Two reorderings of the records group into the same files, one by one,
/// when the files of the first are accepted.
pub proof fn lemma_reordered_records_same_files(
    rs1: Seq<ExtentRecordView>,
    rs2: Seq<ExtentRecordView>,
    f1s: Seq<RedundantMapFile>,
    f2s: Seq<RedundantMapFile>,
    bv: Map<u32, BlockVerification>,
)
    requires
        rs1.to_multiset() == rs2.to_multiset(),
        is_experimental_files(rs1, f1s),
        is_experimental_files(rs2, f2s),
        first_file_fault(f1s, bv, 0) is None,
    ensures
        f1s.len() == f2s.len(),
        forall|k: int| 0 <= k < f1s.len() ==> same_file(#[trigger] f1s[k], f2s[k]),
        forall|i: int, j: int| 0 <= i < j < f1s.len() ==> chars_lt(#[trigger] f1s[i].path@, #[trigger] f1s[j].path@),
{
    let g1 = choose|g: Seq<(Seq<char>, Seq<(u64, (Extent, u64))>)>| {
        &&& is_grouping(experimental_items(rs1), g)
        &&& f1s.len() == g.len()
        &&& forall|k: int| 0 <= k < f1s.len() ==> experimental_file_of_group(rs1, #[trigger] f1s[k], g[k])
    };
    let g2 = choose|g: Seq<(Seq<char>, Seq<(u64, (Extent, u64))>)>| {
        &&& is_grouping(experimental_items(rs2), g)
        &&& f2s.len() == g.len()
        &&& forall|k: int| 0 <= k < f2s.len() ==> experimental_file_of_group(rs2, #[trigger] f2s[k], g[k])
    };
    let f = |r: ExtentRecordView| (r.path, (r.extent.offset, (r.extent, r.size)));
    lemma_map_preserves_multiset_eq(rs1, rs2, f);
    assert(experimental_items(rs1) =~= rs1.map_values(f));
    assert(experimental_items(rs2) =~= rs2.map_values(f));
    let ks1 = g1.map_values(|e: (Seq<char>, Seq<(u64, (Extent, u64))>)| e.0);
    let ks2 = g2.map_values(|e: (Seq<char>, Seq<(u64, (Extent, u64))>)| e.0);
    assert forall|key: Seq<char>| ks1.contains(key) <==> ks2.contains(key) by {
        lemma_group_keys_are_paths(rs1, g1, key);
        lemma_group_keys_are_paths(rs2, g2, key);
        if has_path(rs1, key) {
            lemma_paths_reordered(rs1, rs2, key);
        }
        if has_path(rs2, key) {
            lemma_paths_reordered(rs2, rs1, key);
        }
    }
    assert forall|i: int, j: int| 0 <= i < j < ks1.len() implies chars_lt(#[trigger] ks1[i], #[trigger] ks1[j]) by {
        assert(ks1[i] == g1[i].0 && ks1[j] == g1[j].0);
    }
    assert forall|i: int, j: int| 0 <= i < j < ks2.len() implies chars_lt(#[trigger] ks2[i], #[trigger] ks2[j]) by {
        assert(ks2[i] == g2[i].0 && ks2[j] == g2[j].0);
    }
    lemma_ascending_keys_unique(ks1, ks2);
    law_accepted_map_covers_every_file(f1s, bv);
    assert forall|k: int| 0 <= k < f1s.len() implies same_file(#[trigger] f1s[k], f2s[k]) by {
        assert(ks1[k] == ks2[k]);
        assert(experimental_file_of_group(rs1, f1s[k], g1[k]));
        assert(experimental_file_of_group(rs2, f2s[k], g2[k]));
        lemma_group_file_matches(rs1, rs2, g1, g2, f1s[k], f2s[k], bv, k);
    }
    assert forall|i: int, j: int| 0 <= i < j < f1s.len() implies chars_lt(#[trigger] f1s[i].path@, #[trigger] f1s[j].path@) by {
        assert(experimental_file_of_group(rs1, f1s[i], g1[i]));
        assert(experimental_file_of_group(rs1, f1s[j], g1[j]));
    }
}

/// The plans an accepted file map yields, in file order.
pub open spec fn accepted_plans(files: Seq<RedundantMapFile>, bv: Map<u32, BlockVerification>, m: MappingProvenance) -> Seq<FilePlanView> {
    files.map_values(|f: RedundantMapFile| relabel(redundant_plan_view(f, bv), m, RecoveryClassification::FullVerified))
}

/// Planning from extent records does not depend on the order of the
/// records: for any reordering of them, planning succeeds exactly when it
/// succeeds on the original order, and then gives the same plans; and
/// records that give one file two sizes are refused.
pub proof fn law_experimental_plans_are_order_free(
    records1: Seq<ExperimentalExtentRecord>,
    records2: Seq<ExperimentalExtentRecord>,
    bv: Map<u32, BlockVerification>,
    m: MappingProvenance,
    r1: Result<Vec<FilePlan>, PlanError>,
    r2: Result<Vec<FilePlan>, PlanError>,
)
    requires
        extent_record_views(records1).to_multiset() == extent_record_views(records2).to_multiset(),
        experimental_outcome(records1, bv, m, r1),
        experimental_outcome(records2, bv, m, r2),
    ensures
        (r1 is Ok) == (r2 is Ok),
        r1 is Ok && r2 is Ok ==> plan_views(r1->Ok_0@) == plan_views(r2->Ok_0@),
        !sizes_agree(extent_record_views(records1)) ==> r1 is Err,
{
    let rs1 = extent_record_views(records1);
    let rs2 = extent_record_views(records2);
    law_size_conflict_is_order_free(rs1, rs2);
    lemma_no_conflict_iff_sizes_agree(rs1);
    if r1 is Ok {
        let p1 = r1->Ok_0;
        let files1 = choose|files: Seq<RedundantMapFile>| {
            &&& is_experimental_files(rs1, files)
            &&& first_file_fault(files, bv, 0) is None
            &&& plan_views(p1@).to_multiset() == files.map_values(
                |f: RedundantMapFile| relabel(redundant_plan_view(f, bv), m, RecoveryClassification::FullVerified),
            ).to_multiset()
            &&& sorted_by_path(plan_views(p1@))
        };
        match r2 {
            Ok(p2) => {
                let files2 = choose|files: Seq<RedundantMapFile>| {
                    &&& is_experimental_files(rs2, files)
                    &&& first_file_fault(files, bv, 0) is None
                    &&& plan_views(p2@).to_multiset() == files.map_values(
                        |f: RedundantMapFile| relabel(redundant_plan_view(f, bv), m, RecoveryClassification::FullVerified),
                    ).to_multiset()
                    &&& sorted_by_path(plan_views(p2@))
                };
                lemma_reordered_records_same_files(rs1, rs2, files1, files2, bv);
                let z1 = accepted_plans(files1, bv, m);
                let z2 = accepted_plans(files2, bv, m);
                assert(z1 =~= z2) by {
                    assert forall|k: int| 0 <= k < z1.len() implies z1[k] == z2[k] by {
                        assert(same_file(files1[k], files2[k]));
                    }
                }
                assert forall|i: int, j: int| 0 <= i < j < z1.len() implies chars_lt(#[trigger] z1[i].file_path, #[trigger] z1[j].file_path) by {
                    assert(z1[i].file_path == files1[i].path@ && z1[j].file_path == files1[j].path@);
                }
                lemma_path_sorted_matches(plan_views(p1@), z1);
                lemma_path_sorted_matches(plan_views(p2@), z2);
            },
            Err(e) => {
                let files2 = choose|files: Seq<RedundantMapFile>| {
                    &&& is_experimental_files(rs2, files)
                    &&& first_file_fault(files, bv, 0) == Some(e)
                };
                lemma_reordered_records_same_files(rs1, rs2, files1, files2, bv);
                lemma_same_files_same_faults(files1, files2, bv, 0);
            },
        }
    } else if r2 is Ok {
        let p2 = r2->Ok_0;
        let files2 = choose|files: Seq<RedundantMapFile>| {
            &&& is_experimental_files(rs2, files)
            &&& first_file_fault(files, bv, 0) is None
            &&& plan_views(p2@).to_multiset() == files.map_values(
                |f: RedundantMapFile| relabel(redundant_plan_view(f, bv), m, RecoveryClassification::FullVerified),
            ).to_multiset()
            &&& sorted_by_path(plan_views(p2@))
        };
        let e = r1->Err_0;
        let files1 = choose|files: Seq<RedundantMapFile>| {
            &&& is_experimental_files(rs1, files)
            &&& first_file_fault(files, bv, 0) == Some(e)
        };
        lemma_reordered_records_same_files(rs2, rs1, files2, files1, bv);
        lemma_same_files_same_faults(files2, files1, bv, 0);
    }
}

} // verus!
