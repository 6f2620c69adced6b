//! Salvage plans from extent-level metadata records: self-describing
//! extents, checkpoint snapshots, file identity extents and payload block
//! identities.
use vstd::prelude::*;
use std::collections::BTreeMap;
use vstd::multiset::Multiset;
use super::types::{BlockVerification, Extent, FilePlan, FilePlanView, MappingProvenance, PlanError, RecoveryClassification, RedundantMapFile};
use super::records::{ExperimentalExtentRecord, ExtentRecordView, extent_record_views};
use super::grouping::{lemma_items_with_key_origin, items_with_key, group_by_key, is_grouping, keyed_views, group_views, stable_sort_by_u64_key, is_stable_sort_by_u64_key};
use super::metadata::{verify_and_plan_redundant_map, first_file_fault, redundant_plan_view, plan_views, sorted_by_path, prefix_len, law_accepted_map_covers_every_file, extent_well_placed};
use super::manifest::offsets_nondecreasing;
use crate::text::str_equals;
use crate::seqs::lemma_map_preserves_multiset_eq;

verus! {

/// Record `i` gives its file a size other than an earlier record of the same path.
pub open spec fn size_conflict_at(rs: Seq<ExtentRecordView>, i: int) -> bool {
    exists|j: int| 0 <= j < i && (#[trigger] rs[j]).path == rs[i].path && rs[j].size != rs[i].size
}

/// The first record from `i` on whose size conflicts with an earlier record of its file.
pub open spec fn first_size_conflict_from(rs: Seq<ExtentRecordView>, i: int) -> Option<int>
    decreases rs.len() - i,
{
    if i < 0 || i >= rs.len() {
        None
    } else if size_conflict_at(rs, i) {
        Some(i)
    } else {
        first_size_conflict_from(rs, i + 1)
    }
}

/// The first record whose size conflicts with an earlier record of its file.
pub open spec fn first_size_conflict(rs: Seq<ExtentRecordView>) -> Option<int> {
    first_size_conflict_from(rs, 0)
}

proof fn lemma_first_size_conflict_skip(rs: Seq<ExtentRecordView>, i: int)
    requires
        0 <= i <= rs.len(),
        forall|q: int| 0 <= q < i ==> !size_conflict_at(rs, q),
    ensures
        first_size_conflict(rs) == first_size_conflict_from(rs, i),
    decreases i,
{
    if i > 0 {
        lemma_first_size_conflict_skip(rs, i - 1);
    }
}

proof fn lemma_no_size_conflict(rs: Seq<ExtentRecordView>, i: int)
    requires
        0 <= i <= rs.len(),
        first_size_conflict_from(rs, i) is None,
    ensures
        forall|q: int| i <= q < rs.len() ==> !size_conflict_at(rs, q),
    decreases rs.len() - i,
{
    if i < rs.len() {
        lemma_no_size_conflict(rs, i + 1);
    }
}

/// The records agree on every file's size: two records of one path never
/// give it different sizes.
pub open spec fn sizes_agree(rs: Seq<ExtentRecordView>) -> bool {
    forall|x: ExtentRecordView, y: ExtentRecordView| rs.contains(x) && rs.contains(y) && x.path == y.path ==> x.size == y.size
}

proof fn lemma_conflict_found(rs: Seq<ExtentRecordView>, i: int)
    ensures
        match first_size_conflict_from(rs, i) {
            Some(q) => 0 <= q < rs.len() && size_conflict_at(rs, q),
            None => true,
        },
    decreases rs.len() - i,
{
    if 0 <= i < rs.len() && !size_conflict_at(rs, i) {
        lemma_conflict_found(rs, i + 1);
    }
}

/// Records have no size conflict exactly when they agree on sizes.
pub proof fn lemma_no_conflict_iff_sizes_agree(rs: Seq<ExtentRecordView>)
    ensures
        (first_size_conflict(rs) is None) == sizes_agree(rs),
{
    lemma_conflict_found(rs, 0);
    if first_size_conflict(rs) is None {
        lemma_no_size_conflict(rs, 0);
        assert forall|x: ExtentRecordView, y: ExtentRecordView| rs.contains(x) && rs.contains(y) && x.path == y.path implies x.size == y.size by {
            let a = choose|a: int| 0 <= a < rs.len() && rs[a] == x;
            let b = choose|b: int| 0 <= b < rs.len() && rs[b] == y;
            if a < b {
                assert(!size_conflict_at(rs, b));
                assert(!(rs[a].path == rs[b].path && rs[a].size != rs[b].size));
            } else if b < a {
                assert(!size_conflict_at(rs, a));
                assert(!(rs[b].path == rs[a].path && rs[b].size != rs[a].size));
            }
        }
    } else {
        let q = first_size_conflict(rs)->Some_0;
        let j = choose|j: int| 0 <= j < q && (#[trigger] rs[j]).path == rs[q].path && rs[j].size != rs[q].size;
        assert(rs.contains(rs[j]) && rs.contains(rs[q]));
    }
}

/// Whether extent records conflict on a file's size does not depend on
/// their order: any reordering of the records has a size conflict exactly
/// when they have one.
pub proof fn law_size_conflict_is_order_free(rs1: Seq<ExtentRecordView>, rs2: Seq<ExtentRecordView>)
    requires
        rs1.to_multiset() == rs2.to_multiset(),
    ensures
        (first_size_conflict(rs1) is None) == (first_size_conflict(rs2) is None),
{
    lemma_no_conflict_iff_sizes_agree(rs1);
    lemma_no_conflict_iff_sizes_agree(rs2);
    assert forall|x: ExtentRecordView| rs1.contains(x) <==> rs2.contains(x) by {
        vstd::seq_lib::to_multiset_contains(rs1, x);
        vstd::seq_lib::to_multiset_contains(rs2, x);
        assert(rs1.to_multiset().count(x) == rs2.to_multiset().count(x));
    }
}

/// The (path, (offset, (extent, size))) items that extent records are grouped from.
pub open spec fn experimental_items(rs: Seq<ExtentRecordView>) -> Seq<(Seq<char>, (u64, (Extent, u64)))> {
    rs.map_values(|r: ExtentRecordView| (r.path, (r.extent.offset, (r.extent, r.size))))
}

/// The extents of offset-keyed items.
pub open spec fn pair_extents(s: Seq<(u64, (Extent, u64))>) -> Seq<Extent> {
    s.map_values(|p: (u64, (Extent, u64))| p.1.0)
}

/// `files` is what extent records yield once grouped by path (in path
/// order), each file taking the size its records agree on and its extents
/// sorted by offset (records of equal offset in record order).
pub open spec fn is_experimental_files(rs: Seq<ExtentRecordView>, files: Seq<RedundantMapFile>) -> bool {
    exists|g: Seq<(Seq<char>, Seq<(u64, (Extent, u64))>)>| {
        &&& is_grouping(experimental_items(rs), g)
        &&& files.len() == g.len()
        &&& forall|k: int| 0 <= k < files.len() ==> experimental_file_of_group(rs, #[trigger] files[k], g[k])
    }
}

/// One grouped file: its path, the size its records state, and its extents in offset order.
pub open spec fn experimental_file_of_group(
    rs: Seq<ExtentRecordView>,
    f: RedundantMapFile,
    grp: (Seq<char>, Seq<(u64, (Extent, u64))>),
) -> bool {
    &&& f.path@ == grp.0
    &&& forall|j: int| 0 <= j < rs.len() && (#[trigger] rs[j]).path == grp.0 ==> f.size == rs[j].size
    &&& exists|sp: Seq<(u64, (Extent, u64))>| is_stable_sort_by_u64_key(grp.1, sp) && f.extents@ == pair_extents(sp)
}

/// A plan of the redundant-map planner, relabelled with another provenance
/// and classification.
pub open spec fn relabel(p: FilePlanView, m: MappingProvenance, c: RecoveryClassification) -> FilePlanView {
    FilePlanView { mapping_provenance: m, recovery_classification: c, ..p }
}

fn first_size_conflict_exec(records: &Vec<ExperimentalExtentRecord>) -> (r: Option<usize>)
    ensures
        match r {
            Some(i) => first_size_conflict(extent_record_views(records@)) == Some(i as int),
            None => first_size_conflict(extent_record_views(records@)) is None,
        },
{
    let ghost rs = extent_record_views(records@);
    let mut i: usize = 0;
    while i < records.len()
        invariant
            rs == extent_record_views(records@),
            i <= records@.len(),
            forall|q: int| 0 <= q < i ==> !size_conflict_at(rs, q),
        decreases records.len() - i,
    {
        let mut j: usize = 0;
        while j < i
            invariant
                rs == extent_record_views(records@),
                j <= i < records@.len(),
                forall|q: int| 0 <= q < i ==> !size_conflict_at(rs, q),
                forall|q: int| 0 <= q < j ==> !((#[trigger] rs[q]).path == rs[i as int].path && rs[q].size != rs[i as int].size),
            decreases i - j,
        {
            if str_equals(records[j].path.as_str(), records[i].path.as_str()) && records[j].size != records[i].size {
                assert(rs[j as int].path == rs[i as int].path && rs[j as int].size != rs[i as int].size);
                assert(size_conflict_at(rs, i as int));
                proof {
                    lemma_first_size_conflict_skip(rs, i as int);
                }
                return Some(i);
            }
            j = j + 1;
        }
        i = i + 1;
    }
    proof {
        lemma_first_size_conflict_skip(rs, i as int);
    }
    None
}

/// What planning from extent records may return: `Ok` with plans for the
/// files the records describe exactly when the records agree on sizes and
/// every file verifies, else the first fault.
pub open spec fn experimental_outcome(
    records: Seq<ExperimentalExtentRecord>,
    bv: Map<u32, BlockVerification>,
    m: MappingProvenance,
    r: Result<Vec<FilePlan>, PlanError>,
) -> bool {
    match r {
        Ok(plans) => first_size_conflict(extent_record_views(records)) is None
            && exists|files: Seq<RedundantMapFile>| {
                &&& is_experimental_files(extent_record_views(records), files)
                &&& first_file_fault(files, bv, 0) is None
                &&& plan_views(plans@).to_multiset() == files.map_values(
                    |f: RedundantMapFile| relabel(redundant_plan_view(f, bv), m, RecoveryClassification::FullVerified),
                ).to_multiset()
                &&& sorted_by_path(plan_views(plans@))
            },
        Err(e) => match first_size_conflict(extent_record_views(records)) {
            Some(i) => e == PlanError::InconsistentFileSize { record_index: i as usize },
            None => exists|files: Seq<RedundantMapFile>| {
                &&& is_experimental_files(extent_record_views(records), files)
                &&& first_file_fault(files, bv, 0) == Some(e)
            },
        },
    }
}

/// Plans files from self-describing or checkpoint extent records. Records
/// are grouped by path; all records of a path must state the same file size
/// (otherwise the first record that disagrees with an earlier one is
/// reported); each file's extents are ordered by offset and the files are
/// verified by `verify_and_plan_redundant_map`. Every resulting plan carries
/// the given provenance and is classified `FULL_VERIFIED`.
pub fn verify_and_plan_experimental_records(
    records: Vec<ExperimentalExtentRecord>,
    block_verification: &BTreeMap<u32, BlockVerification>,
    mapping_provenance: MappingProvenance,
) -> (r: Result<Vec<FilePlan>, PlanError>)
    ensures
        experimental_outcome(records@, block_verification@, mapping_provenance, r),
        r matches Ok(plans) ==> forall|i: int| 0 <= i < plans@.len() ==> {
            &&& (#[trigger] plans@[i]).mapping_provenance == mapping_provenance
            &&& plans@[i].recovery_classification == RecoveryClassification::FullVerified
            &&& offsets_nondecreasing(plans@[i].extents@)
        },
{
    let ghost rs = extent_record_views(records@);
    match first_size_conflict_exec(&records) {
        Some(i) => {
            return Err(PlanError::InconsistentFileSize { record_index: i });
        },
        None => {},
    }
    let mut items: Vec<(String, (u64, (Extent, u64)))> = Vec::new();
    let mut rest = records;
    let ghost mut n: int = 0;
    while rest.len() > 0
        invariant
            0 <= n <= rs.len(),
            extent_record_views(rest@) == rs.subrange(n, rs.len() as int),
            keyed_views(items@) == experimental_items(rs.take(n)),
        decreases rest.len(),
    {
        let ghost old_rest = rest@;
        assert(extent_record_views(rest@).len() == rest@.len());
        assert(extent_record_views(rest@)[0] == rs.subrange(n, rs.len() as int)[0]);
        let rec = rest.remove(0);
        let ExperimentalExtentRecord { path, size, extent } = rec;
        items.push((path, (extent.offset, (extent, size))));
        proof {
            assert(rest@ =~= old_rest.subrange(1, old_rest.len() as int));
            assert(extent_record_views(rest@) =~= extent_record_views(old_rest).subrange(1, old_rest.len() as int));
            assert(experimental_items(rs.take(n + 1)) =~= experimental_items(rs.take(n)).push((rs[n].path, (rs[n].extent.offset, (rs[n].extent, rs[n].size)))));
            assert(keyed_views(items@) =~= experimental_items(rs.take(n + 1)));
            n = n + 1;
        }
    }
    proof {
        assert(rs.take(n) =~= rs);
    }
    proof {
        lemma_no_size_conflict(rs, 0);
    }
    let groups = group_by_key(items);
    let ghost g = group_views(groups@);
    let ghost its = experimental_items(rs);
    let mut files: Vec<RedundantMapFile> = Vec::new();
    let mut grest = groups;
    let ghost mut k: int = 0;
    while grest.len() > 0
        invariant
            0 <= k <= g.len(),
            is_grouping(its, g),
            its == experimental_items(rs),
            forall|q: int| 0 <= q < rs.len() ==> !size_conflict_at(rs, q),
            group_views(grest@) == g.subrange(k, g.len() as int),
            files@.len() == k,
            forall|q: int| 0 <= q < k ==> experimental_file_of_group(rs, #[trigger] files@[q], g[q]),
        decreases grest.len(),
    {
        let ghost old_grest = grest@;
        assert(group_views(grest@).len() == grest@.len());
        assert(group_views(grest@)[0] == g.subrange(k, g.len() as int)[0]);
        assert(g.subrange(k, g.len() as int)[0] == g[k]);
        assert(group_views(old_grest)[0] == g[k]);
        let ghost first = old_grest[0];
        let (path, pairs) = grest.remove(0);
        assert(path == first.0 && pairs == first.1);
        let ghost grp = g[k];
        assert(group_views(old_grest)[0] == (old_grest[0].0@, old_grest[0].1@));
        assert(grp == (path@, pairs@));
        assert(is_grouping(its, g));
        assert(0 <= k < g.len());
        assert(g[k].1.len() > 0);
        assert(pairs@.len() > 0);
        let size = (pairs[0].1).1;
        proof {
            lemma_items_with_key_origin(its, grp.0, 0);
            let j0 = choose|j: int| 0 <= j < its.len() && (#[trigger] its[j]).0 == grp.0 && its[j].1 == items_with_key(its, grp.0)[0];
            assert(rs[j0].path == grp.0 && rs[j0].size == size);
            assert forall|j: int| 0 <= j < rs.len() && (#[trigger] rs[j]).path == grp.0 implies size == rs[j].size by {
                if j < j0 {
                    assert(!size_conflict_at(rs, j0));
                } else if j > j0 {
                    assert(!size_conflict_at(rs, j));
                }
            }
        }
        let sorted = stable_sort_by_u64_key(pairs);
        let mut extents: Vec<Extent> = Vec::new();
        let mut m: usize = 0;
        while m < sorted.len()
            invariant
                m <= sorted@.len(),
                extents@ == pair_extents(sorted@.take(m as int)),
            decreases sorted.len() - m,
        {
            extents.push((sorted[m].1).0);
            proof {
                assert(pair_extents(sorted@.take(m + 1)) =~= pair_extents(sorted@.take(m as int)).push(sorted@[m as int].1.0));
            }
            m = m + 1;
        }
        proof {
            assert(sorted@.take(m as int) =~= sorted@);
        }
        let file = RedundantMapFile { path, size, extents };
        assert(experimental_file_of_group(rs, file, grp));
        files.push(file);
        proof {
            assert(grest@ =~= old_grest.subrange(1, old_grest.len() as int));
            assert(group_views(grest@) =~= group_views(old_grest).subrange(1, old_grest.len() as int));
            k = k + 1;
        }
    }
    proof {
        assert(is_experimental_files(rs, files@));
    }
    let ghost fs = files@;
    match verify_and_plan_redundant_map(files, block_verification) {
        Err(e) => Err(e),
        Ok(plans) => {
            let ghost pv = plan_views(plans@);
            let out = relabel_plans(plans, mapping_provenance, RecoveryClassification::FullVerified);
            proof {
                let f = |p: FilePlanView| relabel(p, mapping_provenance, RecoveryClassification::FullVerified);
                lemma_map_preserves_multiset_eq(pv, fs.map_values(|fl: RedundantMapFile| redundant_plan_view(fl, block_verification@)), f);
                assert(fs.map_values(|fl: RedundantMapFile| redundant_plan_view(fl, block_verification@)).map_values(f) =~= fs.map_values(
                    |fl: RedundantMapFile| relabel(redundant_plan_view(fl, block_verification@), mapping_provenance, RecoveryClassification::FullVerified)));
                assert(plan_views(out@) =~= pv.map_values(f));
                let fvs = fs.map_values(|fl: RedundantMapFile| redundant_plan_view(fl, block_verification@));
                law_accepted_map_covers_every_file(fs, block_verification@);
                assert forall|i: int| 0 <= i < out@.len() implies {
                    &&& (#[trigger] out@[i]).mapping_provenance == mapping_provenance
                    &&& out@[i].recovery_classification == RecoveryClassification::FullVerified
                    &&& offsets_nondecreasing(out@[i].extents@)
                } by {
                    assert(plan_views(out@).len() == out@.len());
                    assert(pv.map_values(f).len() == pv.len());
                    assert(i < pv.len());
                    assert(plan_views(out@)[i] == out@[i]@);
                    assert(pv.map_values(f)[i] == f(pv[i]));
                    assert(out@[i]@ == f(pv[i]));
                    vstd::seq_lib::to_multiset_contains(pv, pv[i]);
                    vstd::seq_lib::to_multiset_contains(fvs, pv[i]);
                    assert(pv.contains(pv[i]));
                    assert(fvs.contains(pv[i]));
                    let j = choose|j: int| 0 <= j < fvs.len() && fvs[j] == pv[i];
                    let es = fs[j].extents@;
                    assert(pv[i].extents == es);
                    assert forall|a: int, b: int| 0 <= a < b < es.len() implies (#[trigger] es[a]).offset <= (#[trigger] es[b]).offset by {
                        assert(extent_well_placed(fs[j].extents@, a, block_verification@));
                        assert(extent_well_placed(fs[j].extents@, b, block_verification@));
                        lemma_prefix_len_monotone(es, a, b);
                    }
                }
            }
            Ok(out)
        },
    }
}

/// Gives every plan the same provenance and classification, keeping order.
fn relabel_plans(plans: Vec<FilePlan>, m: MappingProvenance, c: RecoveryClassification) -> (out: Vec<FilePlan>)
    ensures
        plan_views(out@) == plan_views(plans@).map_values(|p: FilePlanView| relabel(p, m, c)),
        sorted_by_path(plan_views(plans@)) ==> sorted_by_path(plan_views(out@)),
{
    let ghost pv = plan_views(plans@);
    let mut rest = plans;
    let mut out: Vec<FilePlan> = Vec::new();
    let ghost mut i: int = 0;
    while rest.len() > 0
        invariant
            0 <= i <= pv.len(),
            plan_views(rest@) == pv.subrange(i, pv.len() as int),
            plan_views(out@) == pv.take(i).map_values(|p: FilePlanView| relabel(p, m, c)),
        decreases rest.len(),
    {
        let ghost old_rest = rest@;
        assert(plan_views(rest@).len() == rest@.len());
        assert(plan_views(rest@)[0] == pv.subrange(i, pv.len() as int)[0]);
        let mut p = rest.remove(0);
        p.mapping_provenance = m;
        p.recovery_classification = c;
        out.push(p);
        proof {
            assert(rest@ =~= old_rest.subrange(1, old_rest.len() as int));
            assert(plan_views(rest@) =~= plan_views(old_rest).subrange(1, old_rest.len() as int));
            assert(plan_views(old_rest).subrange(1, old_rest.len() as int) =~= pv.subrange(i + 1, pv.len() as int));
            assert(pv.take(i + 1).map_values(|p: FilePlanView| relabel(p, m, c)) =~= pv.take(i).map_values(|p: FilePlanView| relabel(p, m, c)).push(relabel(pv[i], m, c)));
            assert(plan_views(out@) =~= pv.take(i + 1).map_values(|p: FilePlanView| relabel(p, m, c)));
            i = i + 1;
        }
    }
    proof {
        assert(pv.take(i) =~= pv);
    }
    out
}


/// Lengths never shrink a prefix's total.
proof fn lemma_prefix_len_monotone(es: Seq<Extent>, a: int, b: int)
    requires
        0 <= a <= b <= es.len(),
    ensures
        prefix_len(es, a) <= prefix_len(es, b),
    decreases b - a,
{
    if a < b {
        lemma_prefix_len_monotone(es, a, b - 1);
    }
}

} // verus!
