//! Where the file plans come from: the redundant map ledger when the
//! archive carries one that parses and verifies, else the first family of
//! experimental metadata records whose planner accepts them, in the order
//! self-describing extents, checkpoint map snapshots, file identity
//! extents, payload block identities.
use vstd::prelude::*;
use std::collections::{BTreeMap, BTreeSet};
use crate::json::JsonValue;
use super::types::{BlockVerification, FilePlan, MappingProvenance, PlanError, RedundantMapFile};
use super::ledger::{parse_redundant_map_files, spec_ledger, ledger_file_view};
use super::metadata::{verify_and_plan_redundant_map, redundant_outcome};
use super::records::{
    parse_self_describing_extent_records, parse_checkpoint_extent_records, parse_file_identity_extent_records,
    parse_payload_block_identity_records, ExperimentalExtentRecord, FileIdentityExtentRecord, PayloadBlockIdentityRecord,
    extent_record_views, file_identity_views, payload_identity_views, self_describing_record, checkpoint_records,
    file_identity_record, payload_identity_record,
};
use super::planning::{verify_and_plan_experimental_records, experimental_outcome};
use super::identity::{verify_and_plan_file_identity_extent_records, verify_and_plan_payload_block_identity_records, file_identity_outcome, payload_identity_outcome};

verus! {

/// The ledger parses to `files` and planning them gives `r`.
pub open spec fn ledger_outcome(doc: JsonValue, bv: Map<u32, BlockVerification>, r: Result<Vec<FilePlan>, PlanError>) -> bool {
    exists|files: Seq<RedundantMapFile>| {
        &&& spec_ledger(doc) == Ok::<_, super::ledger::LedgerError>(files.map_values(|f: RedundantMapFile| ledger_file_view(f)))
        &&& redundant_outcome(files, bv, r)
    }
}

/// Plans from the redundant map ledger, when the archive carries one (as a
/// parsed document) that parses as a file map and verifies.
pub fn plans_from_ledger(ledger: Option<JsonValue>, bv: &BTreeMap<u32, BlockVerification>) -> (r: Option<Vec<FilePlan>>)
    ensures
        match r {
            Some(p) => ledger is Some && ledger_outcome(ledger->Some_0, bv@, Ok(p)),
            None => match ledger {
                Some(doc) => spec_ledger(doc) is Err || exists|e: PlanError| ledger_outcome(doc, bv@, Err(e)),
                None => true,
            },
        },
{
    match ledger {
        Some(doc) => match parse_redundant_map_files(&doc) {
            Ok(files) => {
                let ghost fs = files@;
                let r = verify_and_plan_redundant_map(files, bv);
                match r {
                    Ok(p) => {
                        proof {
                            assert(ledger_outcome(doc, bv@, Ok(p))) by {
                                assert(spec_ledger(doc) == Ok::<_, super::ledger::LedgerError>(fs.map_values(|f: RedundantMapFile| ledger_file_view(f))));
                            }
                        }
                        Some(p)
                    },
                    Err(e) => {
                        proof {
                            assert(ledger_outcome(doc, bv@, Err(e)));
                        }
                        None
                    },
                }
            },
            Err(_) => None,
        },
        None => None,
    }
}

/// Planning the self-describing extent records of the metadata gives `r`.
pub open spec fn stage1(values: Seq<JsonValue>, bv: Map<u32, BlockVerification>, r: Result<Vec<FilePlan>, PlanError>) -> bool {
    exists|recs: Seq<ExperimentalExtentRecord>| {
        &&& extent_record_views(recs) == values.filter_map(|v: JsonValue| self_describing_record(v))
        &&& experimental_outcome(recs, bv, MappingProvenance::SelfDescribingExtent, r)
    }
}

/// Planning the checkpoint map snapshot records of the metadata gives `r`.
pub open spec fn stage2(values: Seq<JsonValue>, bv: Map<u32, BlockVerification>, r: Result<Vec<FilePlan>, PlanError>) -> bool {
    exists|recs: Seq<ExperimentalExtentRecord>| {
        &&& extent_record_views(recs) == values.map_values(|v: JsonValue| checkpoint_records(v)).flatten()
        &&& experimental_outcome(recs, bv, MappingProvenance::CheckpointMapSnapshot, r)
    }
}

/// Planning the file identity extent records of the metadata gives `r`.
pub open spec fn stage3(values: Seq<JsonValue>, bv: Map<u32, BlockVerification>, offs: Set<u64>, r: Result<Vec<FilePlan>, PlanError>) -> bool {
    exists|recs: Seq<FileIdentityExtentRecord>| {
        &&& file_identity_views(recs) == values.filter_map(|v: JsonValue| file_identity_record(v))
        &&& file_identity_outcome(recs, values, bv, offs, r)
    }
}

/// Planning the payload block identity records of the metadata gives `r`.
pub open spec fn stage4(values: Seq<JsonValue>, bv: Map<u32, BlockVerification>, offs: Set<u64>, r: Result<Vec<FilePlan>, PlanError>) -> bool {
    exists|recs: Seq<PayloadBlockIdentityRecord>| {
        &&& payload_identity_views(recs) == values.filter_map(|v: JsonValue| payload_identity_record(v))
        &&& payload_identity_outcome(recs, values, bv, offs, r)
    }
}

/// Stage `k` is passed over: it has no records, or its planner rejects them.
pub open spec fn skipped(values: Seq<JsonValue>, bv: Map<u32, BlockVerification>, offs: Set<u64>, k: int) -> bool {
    if k == 1 {
        values.filter_map(|v: JsonValue| self_describing_record(v)).len() == 0 || exists|e: PlanError| stage1(values, bv, Err(e))
    } else if k == 2 {
        values.map_values(|v: JsonValue| checkpoint_records(v)).flatten().len() == 0 || exists|e: PlanError| stage2(values, bv, Err(e))
    } else if k == 3 {
        values.filter_map(|v: JsonValue| file_identity_record(v)).len() == 0 || exists|e: PlanError| stage3(values, bv, offs, Err(e))
    } else {
        values.filter_map(|v: JsonValue| payload_identity_record(v)).len() == 0 || exists|e: PlanError| stage4(values, bv, offs, Err(e))
    }
}

/// The provenance of the first plan, or `d` when there is none.
pub open spec fn first_provenance(p: Seq<FilePlan>, d: MappingProvenance) -> MappingProvenance {
    if p.len() > 0 { p[0].mapping_provenance } else { d }
}

/// What choosing plans from the metadata gives: the plans of the first
/// stage that has records and whose planner accepts them, with that
/// stage's provenance (for the identity stages, that of the first plan);
/// nothing when every stage is passed over.
pub open spec fn metadata_choice(
    values: Seq<JsonValue>,
    bv: Map<u32, BlockVerification>,
    offs: Set<u64>,
    r: Option<(Vec<FilePlan>, MappingProvenance)>,
) -> bool {
    match r {
        Some((p, m)) => {
            ||| (values.filter_map(|v: JsonValue| self_describing_record(v)).len() > 0 && stage1(values, bv, Ok(p))
                && m == MappingProvenance::SelfDescribingExtent)
            ||| (skipped(values, bv, offs, 1) && values.map_values(|v: JsonValue| checkpoint_records(v)).flatten().len() > 0
                && stage2(values, bv, Ok(p)) && m == MappingProvenance::CheckpointMapSnapshot)
            ||| (skipped(values, bv, offs, 1) && skipped(values, bv, offs, 2)
                && values.filter_map(|v: JsonValue| file_identity_record(v)).len() > 0 && stage3(values, bv, offs, Ok(p))
                && m == first_provenance(p@, MappingProvenance::FileIdentityExtent))
            ||| (skipped(values, bv, offs, 1) && skipped(values, bv, offs, 2) && skipped(values, bv, offs, 3)
                && values.filter_map(|v: JsonValue| payload_identity_record(v)).len() > 0 && stage4(values, bv, offs, Ok(p))
                && m == first_provenance(p@, MappingProvenance::PayloadBlockIdentity))
        },
        None => forall|k: int| 1 <= k <= 4 ==> #[trigger] skipped(values, bv, offs, k),
    }
}

/// Plans from the experimental metadata records, trying each family in
/// turn (see `metadata_choice`).
pub fn plans_from_metadata(
    values: &[JsonValue],
    bv: &BTreeMap<u32, BlockVerification>,
    verified_offsets: &BTreeSet<u64>,
) -> (r: Option<(Vec<FilePlan>, MappingProvenance)>)
    ensures
        metadata_choice(values@, bv@, verified_offsets@, r),
{
    let ghost vs = values@;
    let sd = parse_self_describing_extent_records(values);
    let ghost sdv = sd@;
    let n1 = sd.len() > 0;
    proof {
        assert(extent_record_views(sdv).len() == sdv.len());
    }
    if n1 {
        match verify_and_plan_experimental_records(sd, bv, MappingProvenance::SelfDescribingExtent) {
            Ok(p) => {
                proof {
                    assert(stage1(vs, bv@, Ok(p)));
                }
                return Some((p, MappingProvenance::SelfDescribingExtent));
            },
            Err(e) => {
                proof {
                    assert(stage1(vs, bv@, Err(e)));
                }
            },
        }
    }
    proof {
        assert(skipped(vs, bv@, verified_offsets@, 1));
    }
    let cp = parse_checkpoint_extent_records(values);
    let ghost cpv = cp@;
    proof {
        assert(extent_record_views(cpv).len() == cpv.len());
    }
    if cp.len() > 0 {
        match verify_and_plan_experimental_records(cp, bv, MappingProvenance::CheckpointMapSnapshot) {
            Ok(p) => {
                proof {
                    assert(stage2(vs, bv@, Ok(p)));
                }
                return Some((p, MappingProvenance::CheckpointMapSnapshot));
            },
            Err(e) => {
                proof {
                    assert(stage2(vs, bv@, Err(e)));
                }
            },
        }
    }
    proof {
        assert(skipped(vs, bv@, verified_offsets@, 2));
    }
    let fi = parse_file_identity_extent_records(values);
    let ghost fiv = fi@;
    proof {
        assert(file_identity_views(fiv).len() == fiv.len());
    }
    if fi.len() > 0 {
        match verify_and_plan_file_identity_extent_records(fi, values, bv, verified_offsets) {
            Ok(p) => {
                proof {
                    assert(stage3(vs, bv@, verified_offsets@, Ok(p)));
                }
                let m = if p.len() > 0 { p[0].mapping_provenance } else { MappingProvenance::FileIdentityExtent };
                return Some((p, m));
            },
            Err(e) => {
                proof {
                    assert(stage3(vs, bv@, verified_offsets@, Err(e)));
                }
            },
        }
    }
    proof {
        assert(skipped(vs, bv@, verified_offsets@, 3));
    }
    let pi = parse_payload_block_identity_records(values);
    let ghost piv = pi@;
    proof {
        assert(payload_identity_views(piv).len() == piv.len());
    }
    if pi.len() > 0 {
        match verify_and_plan_payload_block_identity_records(pi, values, bv, verified_offsets) {
            Ok(p) => {
                proof {
                    assert(stage4(vs, bv@, verified_offsets@, Ok(p)));
                }
                let m = if p.len() > 0 { p[0].mapping_provenance } else { MappingProvenance::PayloadBlockIdentity };
                return Some((p, m));
            },
            Err(e) => {
                proof {
                    assert(stage4(vs, bv@, verified_offsets@, Err(e)));
                }
            },
        }
    }
    proof {
        assert(skipped(vs, bv@, verified_offsets@, 4));
        assert forall|k: int| 1 <= k <= 4 implies #[trigger] skipped(vs, bv@, verified_offsets@, k) by {
            if k == 1 {} else if k == 2 {} else if k == 3 {} else {}
        }
    }
    None
}

/// Chooses where the plans come from: the ledger's plans with the redundant
/// map provenance when it gives any, else the metadata's choice, else no
/// plans (with the manifest provenance).
pub fn choose_file_plans(
    ledger: Option<JsonValue>,
    values: &[JsonValue],
    bv: &BTreeMap<u32, BlockVerification>,
    verified_offsets: &BTreeSet<u64>,
) -> (r: (Vec<FilePlan>, MappingProvenance))
    ensures
        (ledger is Some && ledger_outcome(ledger->Some_0, bv@, Ok(r.0)) && r.1 == MappingProvenance::RedundantVerifiedMap)
            || ((match ledger {
                Some(doc) => spec_ledger(doc) is Err || exists|e: PlanError| ledger_outcome(doc, bv@, Err(e)),
                None => true,
            }) && (metadata_choice(values@, bv@, verified_offsets@, Some(r))
                || (metadata_choice(values@, bv@, verified_offsets@, None) && r.0@.len() == 0
                    && r.1 == MappingProvenance::FileManifest))),
{
    let ghost l0 = ledger;
    match plans_from_ledger(ledger, bv) {
        Some(p) => (p, MappingProvenance::RedundantVerifiedMap),
        None => match plans_from_metadata(values, bv, verified_offsets) {
            Some(c) => c,
            None => (Vec::new(), MappingProvenance::FileManifest),
        },
    }
}

} // verus!
