//! Classification of planned files against the verified block set.
use vstd::prelude::*;
use std::collections::BTreeMap;
use super::types::{BlockVerification, Extent, FilePlan, PlanReason, PlanStatus, ReasonCode};

verus! {

broadcast use vstd::laws_cmp::group_laws_cmp;

/// Some required block is not indexed at all.
pub open spec fn some_block_unmapped(required: Seq<u32>, bv: Map<u32, BlockVerification>) -> bool {
    exists|i: int| 0 <= i < required.len() && !bv.contains_key(#[trigger] required[i])
}

/// Some required block is indexed but its content did not verify.
pub open spec fn some_block_unverified(required: Seq<u32>, bv: Map<u32, BlockVerification>) -> bool {
    exists|i: int|
        0 <= i < required.len() && bv.contains_key(#[trigger] required[i])
            && !bv[required[i]].content_verified
}

/// The end of an extent, saturating at `u64::MAX`.
pub open spec fn saturating_end(e: Extent) -> u64 {
    if e.offset + e.len > u64::MAX { u64::MAX } else { (e.offset + e.len) as u64 }
}

/// An extent reaches past the verified raw length of its block.
pub open spec fn extent_out_of_bounds(e: Extent, bv: Map<u32, BlockVerification>) -> bool {
    bv.contains_key(e.block_id) && match bv[e.block_id].verified_raw_len {
        Some(raw_len) => saturating_end(e) > raw_len,
        None => false,
    }
}

/// Some extent reaches past the verified raw length of its block.
pub open spec fn some_extent_out_of_bounds(extents: Seq<Extent>, bv: Map<u32, BlockVerification>) -> bool {
    exists|i: int| 0 <= i < extents.len() && extent_out_of_bounds(#[trigger] extents[i], bv)
}

/// The failure reasons of a file, in reporting order.
pub open spec fn classify_failures(
    extents: Seq<Extent>,
    required: Seq<u32>,
    bv: Map<u32, BlockVerification>,
) -> Seq<ReasonCode> {
    (if some_block_unmapped(required, bv) { seq![ReasonCode::RequiredBlockUnmapped] } else { seq![] })
    + (if some_block_unverified(required, bv) { seq![ReasonCode::RequiredBlockNotContentVerified] } else { seq![] })
    + (if some_extent_out_of_bounds(extents, bv) { seq![ReasonCode::RequiredExtentOutOfBounds] } else { seq![] })
}

/// The verdict on a file: status, reason and failure reasons.
pub open spec fn spec_classify_file(
    extents: Seq<Extent>,
    required: Seq<u32>,
    bv: Map<u32, BlockVerification>,
) -> (PlanStatus, PlanReason, Seq<ReasonCode>) {
    if required.len() == 0 {
        (PlanStatus::Unsalvageable, PlanReason::Code(ReasonCode::NoRequiredBlocks), seq![ReasonCode::NoRequiredBlocks])
    } else {
        let reasons = classify_failures(extents, required, bv);
        if reasons.len() == 0 {
            (PlanStatus::Salvageable, PlanReason::AllRequiredDependenciesVerified, reasons)
        } else {
            (PlanStatus::Unsalvageable, PlanReason::Code(reasons[0]), reasons)
        }
    }
}

/// Decides whether a file can be salvaged from its extents: every required
/// block must be indexed and content-verified, and no extent may reach past
/// the verified raw length of its block.
pub fn classify_file(
    extents: &[Extent],
    required_block_ids: &[u32],
    block_verification: &BTreeMap<u32, BlockVerification>,
) -> (r: (PlanStatus, PlanReason, Vec<ReasonCode>))
    ensures
        (r.0, r.1, r.2@) == spec_classify_file(extents@, required_block_ids@, block_verification@),
{
    if required_block_ids.len() == 0 {
        let mut v = Vec::new();
        v.push(ReasonCode::NoRequiredBlocks);
        proof { assert(v@ =~= seq![ReasonCode::NoRequiredBlocks]); }
        return (PlanStatus::Unsalvageable, PlanReason::Code(ReasonCode::NoRequiredBlocks), v);
    }
    let ghost bv = block_verification@;
    let mut unmapped = false;
    let mut unverified = false;
    let mut i: usize = 0;
    while i < required_block_ids.len()
        invariant
            bv == block_verification@,
            i <= required_block_ids@.len(),
            unmapped == exists|j: int| 0 <= j < i && !bv.contains_key(#[trigger] required_block_ids@[j]),
            unverified == exists|j: int|
                0 <= j < i && bv.contains_key(#[trigger] required_block_ids@[j])
                    && !bv[required_block_ids@[j]].content_verified,
        decreases required_block_ids.len() - i,
    {
        let id = required_block_ids[i];
        match block_verification.get(&id) {
            None => {
                unmapped = true;
            },
            Some(state) => {
                if !state.content_verified {
                    unverified = true;
                }
            },
        }
        i = i + 1;
    }
    let mut oob = false;
    let mut k: usize = 0;
    while k < extents.len()
        invariant
            bv == block_verification@,
            k <= extents@.len(),
            oob == exists|j: int| 0 <= j < k && extent_out_of_bounds(#[trigger] extents@[j], bv),
        decreases extents.len() - k,
    {
        let e = extents[k];
        match block_verification.get(&e.block_id) {
            Some(state) => {
                match state.verified_raw_len {
                    Some(raw_len) => {
                        let end = e.offset.saturating_add(e.len);
                        if end > raw_len {
                            oob = true;
                        }
                    },
                    None => {},
                }
            },
            None => {},
        }
        assert(extent_out_of_bounds(extents@[k as int], bv) ==> oob);
        k = k + 1;
    }
    let mut reasons: Vec<ReasonCode> = Vec::new();
    if unmapped {
        reasons.push(ReasonCode::RequiredBlockUnmapped);
    }
    if unverified {
        reasons.push(ReasonCode::RequiredBlockNotContentVerified);
    }
    if oob {
        reasons.push(ReasonCode::RequiredExtentOutOfBounds);
    }
    proof {
        assert(reasons@ =~= classify_failures(extents@, required_block_ids@, bv));
    }
    if reasons.len() == 0 {
        (PlanStatus::Salvageable, PlanReason::AllRequiredDependenciesVerified, reasons)
    } else {
        let first = reasons[0];
        (PlanStatus::Unsalvageable, PlanReason::Code(first), reasons)
    }
}


/// A file is salvageable only when it needs at least one block, every
/// block it needs is indexed and content-verified, and no extent reaches
/// past the verified raw length of its block.
pub proof fn law_salvageable_requires_verified_blocks(
    extents: Seq<Extent>,
    required: Seq<u32>,
    bv: Map<u32, BlockVerification>,
)
    ensures
        spec_classify_file(extents, required, bv).0 == PlanStatus::Salvageable ==> {
            &&& required.len() > 0
            &&& forall|i: int| 0 <= i < required.len() ==> bv.contains_key(#[trigger] required[i]) && bv[required[i]].content_verified
            &&& forall|i: int| 0 <= i < extents.len() ==> !extent_out_of_bounds(#[trigger] extents[i], bv)
        },
{
    if spec_classify_file(extents, required, bv).0 == PlanStatus::Salvageable {
        assert(classify_failures(extents, required, bv).len() == 0);
        assert(!some_block_unmapped(required, bv));
        assert(!some_block_unverified(required, bv));
        assert(!some_extent_out_of_bounds(extents, bv));
    }
}


/// How many plans have status `s`.
pub open spec fn status_count(ps: Seq<FilePlan>, s: PlanStatus) -> nat
    decreases ps.len(),
{
    if ps.len() == 0 {
        0
    } else {
        status_count(ps.drop_last(), s) + if ps.last().status == s { 1nat } else { 0nat }
    }
}

/// The numbers of salvageable, unsalvageable and unmappable plans: the
/// summary of a salvage plan.
pub struct StatusCounts {
    pub salvageable_files: u64,
    pub unsalvageable_files: u64,
    pub unmappable_files: u64,
}

/// Counts the plans by status.
pub fn status_counts(plans: &Vec<FilePlan>) -> (r: StatusCounts)
    requires
        plans@.len() <= u64::MAX,
    ensures
        r.salvageable_files == status_count(plans@, PlanStatus::Salvageable),
        r.unsalvageable_files == status_count(plans@, PlanStatus::Unsalvageable),
        r.unmappable_files == status_count(plans@, PlanStatus::Unmappable),
        r.salvageable_files + r.unsalvageable_files + r.unmappable_files == plans@.len(),
{
    let mut r = StatusCounts { salvageable_files: 0, unsalvageable_files: 0, unmappable_files: 0 };
    let mut i: usize = 0;
    while i < plans.len()
        invariant
            i <= plans@.len() <= u64::MAX,
            r.salvageable_files == status_count(plans@.take(i as int), PlanStatus::Salvageable),
            r.unsalvageable_files == status_count(plans@.take(i as int), PlanStatus::Unsalvageable),
            r.unmappable_files == status_count(plans@.take(i as int), PlanStatus::Unmappable),
            r.salvageable_files + r.unsalvageable_files + r.unmappable_files == i,
        decreases plans.len() - i,
    {
        proof {
            assert(plans@.take(i + 1).drop_last() =~= plans@.take(i as int));
            assert(plans@.take(i + 1).last() == plans@[i as int]);
        }
        match plans[i].status {
            PlanStatus::Salvageable => r.salvageable_files = r.salvageable_files + 1,
            PlanStatus::Unsalvageable => r.unsalvageable_files = r.unsalvageable_files + 1,
            PlanStatus::Unmappable => r.unmappable_files = r.unmappable_files + 1,
        }
        i = i + 1;
    }
    proof {
        assert(plans@.take(plans@.len() as int) =~= plans@);
    }
    r
}

} // verus!
