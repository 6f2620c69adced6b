//! Metadata-driven salvage planning: every metadata source is reduced to a
//! list of files with extents, which is verified against the block index.
use vstd::prelude::*;
use std::collections::BTreeMap;
use vstd::multiset::Multiset;
use crate::text::{chars_le, chars_lt, str_equals, str_lt, lemma_chars_lt_total, lemma_chars_lt_transitive, lemma_chars_lt_asymmetric};
use super::types::{BlockVerification, Extent, FilePlan, FilePlanView, MappingProvenance, PlanError, RecoveryClassification, RedundantMapFile};
use super::discovery::{classify_file, spec_classify_file};

verus! {

broadcast use vstd::laws_cmp::group_laws_cmp, vstd::seq_lib::group_to_multiset_ensures;

/// Total length of the first `k` extents.
pub open spec fn prefix_len(es: Seq<Extent>, k: int) -> int
    decreases k,
{
    if k <= 0 || k > es.len() {
        0
    } else {
        prefix_len(es, k - 1) + es[k - 1].len
    }
}

/// The block ids of a list of extents, in order.
pub open spec fn block_ids(es: Seq<Extent>) -> Seq<u32> {
    es.map_values(|e: Extent| e.block_id)
}

/// The fault of extent `k` of file `fi`, given that the extents before it passed.
pub open spec fn extent_fault(
    fi: int,
    es: Seq<Extent>,
    size: u64,
    bv: Map<u32, BlockVerification>,
    k: int,
) -> Option<PlanError> {
    let e = es[k];
    let end = e.offset + e.len;
    let f = fi as usize;
    let x = k as usize;
    if e.len == 0 {
        Some(PlanError::ExtentZeroLength { file_index: f, extent_index: x })
    } else if e.offset != prefix_len(es, k) {
        Some(PlanError::ExtentsNotContiguous { file_index: f, extent_index: x })
    } else if end > u64::MAX {
        Some(PlanError::ExtentOffsetOverflow { file_index: f, extent_index: x })
    } else if end > size {
        Some(PlanError::ExtentExceedsFileSize { file_index: f, extent_index: x })
    } else if !bv.contains_key(e.block_id) {
        Some(PlanError::UnmappedBlock { file_index: f, extent_index: x, block_id: e.block_id })
    } else if bv[e.block_id].verified_raw_len is None {
        Some(PlanError::MissingVerifiedRawLen { file_index: f, extent_index: x, block_id: e.block_id })
    } else if end > bv[e.block_id].verified_raw_len->0 {
        Some(PlanError::ExtentExceedsRawLen { file_index: f, extent_index: x, block_id: e.block_id })
    } else {
        None
    }
}

/// The first fault among the extents from `k` on.
pub open spec fn first_extent_fault(
    fi: int,
    es: Seq<Extent>,
    size: u64,
    bv: Map<u32, BlockVerification>,
    k: int,
) -> Option<PlanError>
    decreases es.len() - k,
{
    if k < 0 || k >= es.len() {
        None
    } else {
        match extent_fault(fi, es, size, bv, k) {
            Some(e) => Some(e),
            None => first_extent_fault(fi, es, size, bv, k + 1),
        }
    }
}

/// The fault of file `i`, given that the files before it passed.
pub open spec fn file_fault(files: Seq<RedundantMapFile>, bv: Map<u32, BlockVerification>, i: int) -> Option<PlanError> {
    let f = files[i];
    let es = f.extents@;
    if exists|j: int| 0 <= j < i && #[trigger] files[j].path@ == f.path@ {
        Some(PlanError::DuplicatePath { file_index: i as usize })
    } else if f.size == 0 && es.len() > 0 {
        Some(PlanError::ZeroSizedFileHasExtents { file_index: i as usize })
    } else {
        match first_extent_fault(i, es, f.size, bv, 0) {
            Some(e) => Some(e),
            None => if prefix_len(es, es.len() as int) != f.size {
                Some(PlanError::IncompleteCoverage { file_index: i as usize })
            } else {
                None
            },
        }
    }
}

/// The first fault among the files from `i` on.
pub open spec fn first_file_fault(files: Seq<RedundantMapFile>, bv: Map<u32, BlockVerification>, i: int) -> Option<PlanError>
    decreases files.len() - i,
{
    if i < 0 || i >= files.len() {
        None
    } else {
        match file_fault(files, bv, i) {
            Some(e) => Some(e),
            None => first_file_fault(files, bv, i + 1),
        }
    }
}

/// The plan that the redundant map yields for a file that passed.
pub open spec fn redundant_plan_view(f: RedundantMapFile, bv: Map<u32, BlockVerification>) -> FilePlanView {
    let es = f.extents@;
    let c = spec_classify_file(es, block_ids(es), bv);
    FilePlanView {
        mapping_provenance: MappingProvenance::RedundantVerifiedMap,
        recovery_classification: RecoveryClassification::FullVerified,
        file_path: f.path@,
        status: c.0,
        reason: c.1,
        failure_reasons: c.2,
        required_block_ids: block_ids(es),
        extents: es,
        file_size: f.size,
    }
}

/// The views of a list of plans.
pub open spec fn plan_views(ps: Seq<FilePlan>) -> Seq<FilePlanView> {
    ps.map_values(|p: FilePlan| p@)
}

/// Plans are in path order.
pub open spec fn sorted_by_path(ps: Seq<FilePlanView>) -> bool {
    forall|i: int, j: int| 0 <= i < j < ps.len() ==> chars_le(#[trigger] ps[i].file_path, #[trigger] ps[j].file_path)
}

proof fn lemma_first_extent_fault_skip(fi: int, es: Seq<Extent>, size: u64, bv: Map<u32, BlockVerification>, k: int)
    requires
        0 <= k <= es.len(),
        forall|j: int| 0 <= j < k ==> extent_fault(fi, es, size, bv, j) is None,
    ensures
        first_extent_fault(fi, es, size, bv, 0) == first_extent_fault(fi, es, size, bv, k),
    decreases k,
{
    if k > 0 {
        lemma_first_extent_fault_skip(fi, es, size, bv, k - 1);
    }
}

proof fn lemma_first_file_fault_skip(files: Seq<RedundantMapFile>, bv: Map<u32, BlockVerification>, i: int)
    requires
        0 <= i <= files.len(),
        forall|j: int| 0 <= j < i ==> file_fault(files, bv, j) is None,
    ensures
        first_file_fault(files, bv, 0) == first_file_fault(files, bv, i),
    decreases i,
{
    if i > 0 {
        lemma_first_file_fault_skip(files, bv, i - 1);
    }
}

/// `x` placed after the last plan whose path is at most its path.
pub open spec fn insert_by_path(s: Seq<FilePlanView>, x: FilePlanView) -> Seq<FilePlanView>
    decreases s.len(),
{
    if s.len() == 0 {
        seq![x]
    } else if chars_lt(x.file_path, s.last().file_path) {
        insert_by_path(s.drop_last(), x).push(s.last())
    } else {
        s.push(x)
    }
}

/// The stable sort of plans by path: what a stable `sort_by` comparing the
/// paths yields (plans with equal paths keep their order).
pub open spec fn sort_by_path(s: Seq<FilePlanView>) -> Seq<FilePlanView>
    decreases s.len(),
{
    if s.len() == 0 {
        seq![]
    } else {
        insert_by_path(sort_by_path(s.drop_last()), s.last())
    }
}

/// Orders plans by path (ascending `String` order), keeping plans with
/// equal paths in their given order.
pub fn sort_plans_by_path(plans: Vec<FilePlan>) -> (r: Vec<FilePlan>)
    ensures
        plan_views(r@) == sort_by_path(plan_views(plans@)),
        plan_views(r@).to_multiset() == plan_views(plans@).to_multiset(),
        sorted_by_path(plan_views(r@)),
{
    let ghost orig = plan_views(plans@);
    let mut rest = plans;
    let mut out: Vec<FilePlan> = Vec::new();
    let ghost mut n: int = 0;
    proof {
        assert(orig.take(0) =~= Seq::<FilePlanView>::empty());
        assert(plan_views(rest@) =~= orig.skip(0));
    }
    while rest.len() > 0
        invariant
            0 <= n <= orig.len(),
            plan_views(rest@) == orig.skip(n),
            plan_views(out@) == sort_by_path(orig.take(n)),
            plan_views(out@).to_multiset() == orig.take(n).to_multiset(),
            sorted_by_path(plan_views(out@)),
        decreases rest.len(),
    {
        let ghost before_rest = rest@;
        proof {
            assert(plan_views(before_rest).len() == orig.skip(n).len());
            assert(plan_views(before_rest)[0] == orig.skip(n)[0]);
        }
        let p = rest.remove(0);
        proof {
            assert(before_rest[0]@ == plan_views(before_rest)[0]);
            assert(p@ == orig[n]);
            assert(rest@ =~= before_rest.skip(1));
            assert(plan_views(rest@) =~= plan_views(before_rest).skip(1));
            assert(plan_views(rest@) =~= orig.skip(n + 1));
            assert(orig.take(n + 1) =~= orig.take(n).push(p@));
            assert(orig.take(n + 1).drop_last() =~= orig.take(n));
        }
        let ghost ov = plan_views(out@);
        let mut pos: usize = out.len();
        proof {
            assert(ov.take(pos as int) =~= ov);
            assert(ov.skip(pos as int) =~= Seq::<FilePlanView>::empty());
            assert(insert_by_path(ov, p@) + ov.skip(pos as int) =~= insert_by_path(ov, p@));
        }
        while pos > 0 && str_lt(p.file_path.as_str(), out[pos - 1].file_path.as_str())
            invariant
                pos <= out@.len(),
                ov == plan_views(out@),
                insert_by_path(ov, p@) == insert_by_path(ov.take(pos as int), p@) + ov.skip(pos as int),
                forall|j: int| pos <= j < ov.len() ==> chars_lt(p.file_path@, #[trigger] ov[j].file_path),
            decreases pos,
        {
            proof {
                let t = ov.take(pos as int);
                assert(t.drop_last() =~= ov.take(pos - 1));
                assert(t.last() == ov[pos - 1]);
                assert(insert_by_path(ov.take(pos - 1), p@).push(ov[pos - 1]) + ov.skip(pos as int)
                    =~= insert_by_path(ov.take(pos - 1), p@) + ov.skip(pos - 1));
            }
            pos = pos - 1;
        }
        proof {
            if pos == 0 {
                assert(ov.take(0) =~= Seq::<FilePlanView>::empty());
            } else {
                assert(!chars_lt(p.file_path@, ov[pos - 1].file_path));
                assert(ov.take(pos as int).last() == ov[pos - 1]);
            }
            assert(insert_by_path(ov.take(pos as int), p@) =~= ov.take(pos as int).push(p@));
            assert(ov.take(pos as int).push(p@) + ov.skip(pos as int) =~= ov.insert(pos as int, p@));
        }
        let ghost old_out = out@;
        out.insert(pos, p);
        proof {
            assert(plan_views(out@) =~= plan_views(old_out).insert(pos as int, p@));
            assert(ov =~= ov.take(pos as int) + ov.skip(pos as int));
            assert(plan_views(out@) =~= (ov.take(pos as int).push(p@)) + ov.skip(pos as int));
            assert(ov.take(pos as int).push(p@).to_multiset() =~= ov.take(pos as int).to_multiset().insert(p@));
            vstd::seq_lib::lemma_multiset_commutative(ov.take(pos as int).push(p@), ov.skip(pos as int));
            vstd::seq_lib::lemma_multiset_commutative(ov.take(pos as int), ov.skip(pos as int));
            assert(orig.take(n + 1).to_multiset() =~= orig.take(n).to_multiset().insert(p@));
            let v = plan_views(out@);
            if pos > 0 {
                lemma_chars_lt_total(p.file_path@, ov[pos - 1].file_path);
            }
            assert forall|i: int, j: int| 0 <= i < j < v.len() implies chars_le(#[trigger] v[i].file_path, #[trigger] v[j].file_path) by {
                if j < pos {
                } else if j == pos {
                    if i < pos - 1 {
                        assert(chars_le(ov[i].file_path, ov[pos - 1].file_path));
                        if chars_lt(ov[i].file_path, ov[pos - 1].file_path) && chars_lt(ov[pos - 1].file_path, p.file_path@) {
                            lemma_chars_lt_transitive(ov[i].file_path, ov[pos - 1].file_path, p.file_path@);
                        }
                    }
                } else if i == pos {
                    assert(chars_lt(p.file_path@, ov[j - 1].file_path));
                } else if i < pos {
                    assert(chars_le(ov[i].file_path, ov[j - 1].file_path));
                } else {
                    assert(chars_le(ov[i - 1].file_path, ov[j - 1].file_path));
                }
            }
            n = n + 1;
        }
    }
    proof {
        assert(orig.take(n) =~= orig);
    }
    out
}

/// Builds the block id list of a file's extents.
pub(crate) fn extent_block_ids(extents: &Vec<Extent>) -> (r: Vec<u32>)
    ensures
        r@ == block_ids(extents@),
{
    let mut r: Vec<u32> = Vec::new();
    let mut i: usize = 0;
    while i < extents.len()
        invariant
            i <= extents@.len(),
            r@ == block_ids(extents@.subrange(0, i as int)),
        decreases extents.len() - i,
    {
        r.push(extents[i].block_id);
        proof {
            assert(block_ids(extents@.subrange(0, i + 1)) =~= block_ids(extents@.subrange(0, i as int)).push(extents@[i as int].block_id));
        }
        i = i + 1;
    }
    proof {
        assert(extents@.subrange(0, i as int) =~= extents@);
    }
    r
}

/// Checks the extents of file `fi`: each must be non-empty, start where the
/// previous one ended (the first at 0), end within the file size, name an
/// indexed block with a verified raw length and end within that length.
/// Returns the total length covered.
fn check_file_extents(
    fi: usize,
    file: &RedundantMapFile,
    block_verification: &BTreeMap<u32, BlockVerification>,
) -> (r: Result<u64, PlanError>)
    ensures
        match r {
            Ok(covered) => first_extent_fault(fi as int, file.extents@, file.size, block_verification@, 0) is None
                && covered == prefix_len(file.extents@, file.extents@.len() as int),
            Err(e) => first_extent_fault(fi as int, file.extents@, file.size, block_verification@, 0) == Some(e),
        },
{
    let ghost es = file.extents@;
    let ghost bv = block_verification@;
    let mut covered: u64 = 0;
    let mut prev_end: u64 = 0;
    let mut k: usize = 0;
    while k < file.extents.len()
        invariant
            es == file.extents@,
            bv == block_verification@,
            k <= es.len(),
            covered == prefix_len(es, k as int),
            prev_end == covered,
            forall|j: int| 0 <= j < k ==> extent_fault(fi as int, es, file.size, bv, j) is None,
        decreases file.extents.len() - k,
    {
        let extent = file.extents[k];
        proof {
            lemma_first_extent_fault_skip(fi as int, es, file.size, bv, k as int);
        }
        if extent.len == 0 {
            return Err(PlanError::ExtentZeroLength { file_index: fi, extent_index: k });
        }
        if extent.offset != prev_end {
            return Err(PlanError::ExtentsNotContiguous { file_index: fi, extent_index: k });
        }
        let end = match extent.offset.checked_add(extent.len) {
            Some(v) => v,
            None => {
                return Err(PlanError::ExtentOffsetOverflow { file_index: fi, extent_index: k });
            },
        };
        if end > file.size {
            return Err(PlanError::ExtentExceedsFileSize { file_index: fi, extent_index: k });
        }
        prev_end = end;
        covered = end;
        let state = match block_verification.get(&extent.block_id) {
            Some(v) => v,
            None => {
                return Err(PlanError::UnmappedBlock { file_index: fi, extent_index: k, block_id: extent.block_id });
            },
        };
        let raw_len = match state.verified_raw_len {
            Some(v) => v,
            None => {
                return Err(PlanError::MissingVerifiedRawLen { file_index: fi, extent_index: k, block_id: extent.block_id });
            },
        };
        if end > raw_len {
            return Err(PlanError::ExtentExceedsRawLen { file_index: fi, extent_index: k, block_id: extent.block_id });
        }
        assert(extent_fault(fi as int, es, file.size, bv, k as int) is None);
        k = k + 1;
    }
    proof {
        lemma_first_extent_fault_skip(fi as int, es, file.size, bv, k as int);
    }
    Ok(covered)
}

/// What planning a redundant file map may return: `Ok` with one plan per
/// file, in path order, when no file is at fault; else the first fault.
pub open spec fn redundant_outcome(files: Seq<RedundantMapFile>, bv: Map<u32, BlockVerification>, r: Result<Vec<FilePlan>, PlanError>) -> bool {
    match r {
        Ok(plans) => {
            &&& first_file_fault(files, bv, 0) is None
            &&& plan_views(plans@).to_multiset() == files.map_values(
                |f: RedundantMapFile| redundant_plan_view(f, bv),
            ).to_multiset()
            &&& sorted_by_path(plan_views(plans@))
        },
        Err(e) => first_file_fault(files, bv, 0) == Some(e),
    }
}

/// Verifies a redundant file map against the block index and plans every
/// file. The map is rejected as a whole (with the first fault, in file and
/// extent order) when two files share a path, a zero-sized file lists
/// extents, an extent is empty, out of order, not contiguous, past the file
/// size, on an unindexed block, on a block without verified raw length or
/// past that length, or the extents do not cover the whole file. Otherwise
/// each file gets a plan classified by `classify_file`, and the plans come
/// back in path order.
pub fn verify_and_plan_redundant_map(
    files: Vec<RedundantMapFile>,
    block_verification: &BTreeMap<u32, BlockVerification>,
) -> (r: Result<Vec<FilePlan>, PlanError>)
    ensures
        redundant_outcome(files@, block_verification@, r),
{
    let ghost fs = files@;
    let ghost bv = block_verification@;
    let mut rest = files;
    let mut plans: Vec<FilePlan> = Vec::new();
    let mut idx: usize = 0;
    while rest.len() > 0
        invariant
            fs == files@,
            bv == block_verification@,
            idx <= fs.len(),
            rest@ == fs.subrange(idx as int, fs.len() as int),
            plans@.len() == idx,
            forall|j: int| 0 <= j < idx ==> #[trigger] plans@[j]@ == redundant_plan_view(fs[j], bv),
            forall|j: int| 0 <= j < idx ==> file_fault(fs, bv, j) is None,
        decreases rest.len(),
    {
        assert(rest@[0] == fs[idx as int]);
        let file = rest.remove(0);
        assert(file == fs[idx as int]);
        assert(idx < fs.len());
        proof {
            lemma_first_file_fault_skip(fs, bv, idx as int);
        }
        let mut j: usize = 0;
        while j < plans.len()
            invariant
                fs == files@,
                bv == block_verification@,
                idx < fs.len(),
                first_file_fault(fs, bv, 0) == first_file_fault(fs, bv, idx as int),
                file == fs[idx as int],
                plans@.len() == idx,
                forall|q: int| 0 <= q < idx ==> #[trigger] plans@[q]@ == redundant_plan_view(fs[q], bv),
                j <= idx,
                forall|q: int| 0 <= q < j ==> fs[q].path@ != file.path@,
            decreases plans.len() - j,
        {
            if str_equals(plans[j].file_path.as_str(), file.path.as_str()) {
                assert(plans@[j as int]@ == redundant_plan_view(fs[j as int], bv));
                assert(fs[j as int].path@ == fs[idx as int].path@);
                assert(file_fault(fs, bv, idx as int) == Some(PlanError::DuplicatePath { file_index: idx }));
                return Err(PlanError::DuplicatePath { file_index: idx });
            }
            assert(plans@[j as int]@ == redundant_plan_view(fs[j as int], bv));
            j = j + 1;
        }
        assert(!(exists|q: int| 0 <= q < idx && #[trigger] fs[q].path@ == fs[idx as int].path@));
        if file.size == 0 && file.extents.len() > 0 {
            return Err(PlanError::ZeroSizedFileHasExtents { file_index: idx });
        }
        let covered = match check_file_extents(idx, &file, block_verification) {
            Ok(c) => c,
            Err(e) => {
                return Err(e);
            },
        };
        if covered != file.size {
            return Err(PlanError::IncompleteCoverage { file_index: idx });
        }
        assert(file_fault(fs, bv, idx as int) is None);
        let required_block_ids = extent_block_ids(&file.extents);
        let (status, reason, failure_reasons) = classify_file(
            file.extents.as_slice(),
            required_block_ids.as_slice(),
            block_verification,
        );
        let RedundantMapFile { path, size, extents } = file;
        let plan = FilePlan {
            mapping_provenance: MappingProvenance::RedundantVerifiedMap,
            recovery_classification: RecoveryClassification::FullVerified,
            file_path: path,
            status,
            reason,
            failure_reasons,
            required_block_ids,
            extents,
            file_size: size,
        };
        assert(plan@ == redundant_plan_view(fs[idx as int], bv));
        plans.push(plan);
        idx = plans.len();
        proof {
            assert(rest@ =~= fs.subrange(idx as int, fs.len() as int));
        }
    }
    proof {
        lemma_first_file_fault_skip(fs, bv, idx as int);
        assert(plan_views(plans@) =~= fs.map_values(|f: RedundantMapFile| redundant_plan_view(f, bv)));
    }
    Ok(sort_plans_by_path(plans))
}


proof fn lemma_no_file_fault_from(files: Seq<RedundantMapFile>, bv: Map<u32, BlockVerification>, i: int, j: int)
    requires
        0 <= i <= j < files.len(),
        first_file_fault(files, bv, i) is None,
    ensures
        file_fault(files, bv, j) is None,
    decreases j - i,
{
    if i < j {
        lemma_no_file_fault_from(files, bv, i + 1, j);
    }
}

proof fn lemma_no_extent_fault_from(fi: int, es: Seq<Extent>, size: u64, bv: Map<u32, BlockVerification>, k: int, j: int)
    requires
        0 <= k <= j < es.len(),
        first_extent_fault(fi, es, size, bv, k) is None,
    ensures
        extent_fault(fi, es, size, bv, j) is None,
    decreases j - k,
{
    if k < j {
        lemma_no_extent_fault_from(fi, es, size, bv, k + 1, j);
    }
}

/// An extent of an accepted file: non-empty, starting where the previous
/// extents end, inside an indexed block with a verified raw length that
/// holds it.
pub open spec fn extent_well_placed(es: Seq<Extent>, k: int, bv: Map<u32, BlockVerification>) -> bool {
    let e = es[k];
    &&& e.len > 0
    &&& e.offset == prefix_len(es, k)
    &&& bv.contains_key(e.block_id)
    &&& bv[e.block_id].verified_raw_len is Some
    &&& e.offset + e.len <= bv[e.block_id].verified_raw_len->0
}

/// A redundant map is accepted only when its paths are distinct and every
/// file is covered exactly, from offset 0 to its size, by non-empty
/// contiguous extents lying within verified blocks.
pub proof fn law_accepted_map_covers_every_file(files: Seq<RedundantMapFile>, bv: Map<u32, BlockVerification>)
    requires
        first_file_fault(files, bv, 0) is None,
    ensures
        forall|i: int, j: int| 0 <= j < i < files.len() ==> (#[trigger] files[j]).path@ != (#[trigger] files[i]).path@,
        forall|i: int| 0 <= i < files.len() ==> prefix_len((#[trigger] files[i]).extents@, files[i].extents@.len() as int) == files[i].size,
        forall|i: int, k: int| 0 <= i < files.len() && 0 <= k < files[i].extents@.len() ==> #[trigger] extent_well_placed(files[i].extents@, k, bv),
{
    assert forall|i: int, j: int| 0 <= j < i < files.len() implies (#[trigger] files[j]).path@ != (#[trigger] files[i]).path@ by {
        lemma_no_file_fault_from(files, bv, 0, i);
    }
    assert forall|i: int| 0 <= i < files.len() implies prefix_len((#[trigger] files[i]).extents@, files[i].extents@.len() as int) == files[i].size by {
        lemma_no_file_fault_from(files, bv, 0, i);
        if files[i].size == 0 {
            assert(files[i].extents@.len() == 0);
        }
    }
    assert forall|i: int, k: int| 0 <= i < files.len() && 0 <= k < files[i].extents@.len() implies #[trigger] extent_well_placed(files[i].extents@, k, bv) by {
        lemma_no_file_fault_from(files, bv, 0, i);
        lemma_no_extent_fault_from(i, files[i].extents@, files[i].size, bv, 0, k);
    }
}

} // verus!
