use std::collections::{BTreeMap, BTreeSet};

use crushr::json::JsonValue;
use crushr::salvage::identity::{anonymous_file_path, verify_and_plan_payload_block_identity_records};
use crushr::salvage::records::PayloadBlockIdentityRecord;
use crushr::salvage::types::{BlockVerification, MappingProvenance, PlanError, PlanStatus, RecoveryClassification};

fn record(file_id: u32, block_index: u64, total: u64, offset: u64, len: u64, block_id: u32) -> PayloadBlockIdentityRecord {
    PayloadBlockIdentityRecord {
        archive_identity: "arch".to_string(),
        file_id,
        block_index,
        total_block_count: total,
        full_file_size: 8,
        logical_offset: offset,
        logical_length: len,
        payload_codec: 1,
        payload_length: len,
        block_id,
        block_scan_offset: None,
        payload_hash_blake3: "p".to_string(),
        raw_hash_blake3: "r".to_string(),
    }
}

fn verified(ids: &[(u32, u64)]) -> BTreeMap<u32, BlockVerification> {
    let mut bv = BTreeMap::new();
    for (id, len) in ids {
        bv.insert(*id, BlockVerification { content_verified: true, verified_raw_len: Some(*len) });
    }
    bv
}

#[test]
fn anonymous_paths_are_zero_padded() {
    assert_eq!(anonymous_file_path(7), "anonymous_verified/file_00000007.bin");
    assert_eq!(anonymous_file_path(123456789), "anonymous_verified/file_123456789.bin");
}

#[test]
fn unnamed_payload_identity_records_plan_an_anonymous_file() {
    let records = vec![record(7, 1, 2, 4, 4, 2), record(7, 0, 2, 0, 4, 1)];
    let bv = verified(&[(1, 4), (2, 8)]);
    let plans = verify_and_plan_payload_block_identity_records(records, &[], &bv, &BTreeSet::new()).ok().unwrap();
    assert_eq!(plans.len(), 1);
    assert_eq!(plans[0].file_path, "anonymous_verified/file_00000007.bin");
    assert_eq!(plans[0].status, PlanStatus::Salvageable);
    assert_eq!(plans[0].recovery_classification, RecoveryClassification::FullAnonymous);
    assert_eq!(plans[0].mapping_provenance, MappingProvenance::PayloadBlockIdentityAnonymous);
    assert_eq!(plans[0].extents[0].block_id, 1);
}

#[test]
fn payload_identity_record_faults_are_reported() {
    let bv = verified(&[(1, 8)]);
    let zero = vec![record(1, 0, 0, 0, 8, 1)];
    assert_eq!(
        verify_and_plan_payload_block_identity_records(zero, &[], &bv, &BTreeSet::new()).err(),
        Some(PlanError::PayloadTotalBlockCountZero { record_index: 0 })
    );
    let unverified = vec![record(1, 0, 1, 0, 8, 5)];
    assert_eq!(
        verify_and_plan_payload_block_identity_records(unverified, &[], &bv, &BTreeSet::new()).err(),
        Some(PlanError::UnverifiedContentBlock { record_index: 0 })
    );
    let mut scanned = BTreeSet::new();
    scanned.insert(64u64);
    let mut by_offset = record(1, 0, 1, 0, 8, 5);
    by_offset.block_scan_offset = Some(64);
    assert!(verify_and_plan_payload_block_identity_records(vec![by_offset], &[], &bv, &scanned).is_err());
    let gap = vec![record(1, 1, 2, 0, 8, 1)];
    assert!(verify_and_plan_payload_block_identity_records(gap, &[], &bv, &BTreeSet::new()).is_err());
}
