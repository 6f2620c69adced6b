use crushr::json::JsonValue;
use crushr::salvage::identity::anonymous_file_path;
use crushr::salvage::manifest::verify_and_apply_manifest_expectations;
use crushr::salvage::records::FileManifestRecord;
use crushr::salvage::types::{
    BlockVerification, Extent, FilePlan, MappingProvenance, PlanReason, PlanStatus, ReasonCode, RecoveryClassification,
};
use std::collections::BTreeMap;

fn obj(members: Vec<(&str, JsonValue)>) -> JsonValue {
    JsonValue::Object(members.into_iter().map(|(k, v)| (k.to_string(), v)).collect())
}

fn text(s: &str) -> JsonValue {
    JsonValue::Str(s.to_string())
}

fn num(n: u64) -> JsonValue {
    JsonValue::Number(Some(n))
}

fn identity_value(file_id: u64, block_index: u64, block_id: u64, len: u64, raw_hash: &str) -> JsonValue {
    obj(vec![
        ("schema", text("crushr-payload-block-identity.v1")),
        ("archive_identity", text("arch")),
        ("file_id", num(file_id)),
        ("block_index", num(block_index)),
        ("total_block_count", num(1)),
        ("full_file_size", num(len)),
        ("logical_offset", num(0)),
        ("logical_length", num(len)),
        ("payload_codec", num(1)),
        ("payload_length", num(len)),
        ("block_id", num(block_id)),
        ("content_identity", obj(vec![("payload_hash_blake3", text("p")), ("raw_hash_blake3", text(raw_hash))])),
    ])
}

fn manifest(file_id: u32, path: Option<&str>, size: u64, blocks: u64, digest: &str) -> FileManifestRecord {
    FileManifestRecord {
        file_id,
        path: path.map(|p| p.to_string()),
        file_size: size,
        expected_block_count: blocks,
        extent_count: blocks,
        file_digest: digest.to_string(),
    }
}

fn plan(path: &str, status: PlanStatus) -> FilePlan {
    FilePlan {
        mapping_provenance: MappingProvenance::PayloadBlockIdentity,
        recovery_classification: RecoveryClassification::FullVerified,
        file_path: path.to_string(),
        status,
        reason: PlanReason::AllRequiredDependenciesVerified,
        failure_reasons: Vec::new(),
        required_block_ids: vec![1],
        extents: vec![Extent { block_id: 1, offset: 0, len: 5 }],
        file_size: 5,
    }
}

fn verified() -> BTreeMap<u32, BlockVerification> {
    let mut bv = BTreeMap::new();
    bv.insert(1u32, BlockVerification { content_verified: true, verified_raw_len: Some(5) });
    bv
}

#[test]
fn a_matching_manifest_makes_a_plan_fully_verified() {
    let values = vec![identity_value(7, 0, 1, 5, "abc")];
    let out = verify_and_apply_manifest_expectations(
        vec![plan("a.txt", PlanStatus::Salvageable)],
        vec![manifest(7, Some("a.txt"), 5, 1, "abc")],
        &values,
        &verified(),
        MappingProvenance::FileManifest,
    );
    assert_eq!(out.len(), 1);
    assert_eq!(out[0].recovery_classification, RecoveryClassification::FullVerified);
    assert_eq!(out[0].mapping_provenance, MappingProvenance::FileManifest);
    assert_eq!(out[0].status, PlanStatus::Salvageable);
    assert!(out[0].failure_reasons.is_empty());
}

#[test]
fn a_manifest_digest_mismatch_downgrades_the_classification_only() {
    let values = vec![identity_value(7, 0, 1, 5, "abc")];
    let out = verify_and_apply_manifest_expectations(
        vec![plan("a.txt", PlanStatus::Salvageable)],
        vec![manifest(7, Some("a.txt"), 5, 1, "zzz")],
        &values,
        &verified(),
        MappingProvenance::FileManifest,
    );
    assert_eq!(out[0].recovery_classification, RecoveryClassification::PartialOrdered);
    assert_eq!(out[0].failure_reasons, vec![ReasonCode::ManifestDigestNotVerified]);
    assert_eq!(out[0].status, PlanStatus::Salvageable);
    assert_eq!(out[0].file_path, "a.txt");
    assert_eq!(out[0].extents, vec![Extent { block_id: 1, offset: 0, len: 5 }]);
}

#[test]
fn plans_without_manifest_are_classified_by_status() {
    let out = verify_and_apply_manifest_expectations(
        vec![
            plan("u", PlanStatus::Unmappable),
            plan("v", PlanStatus::Unsalvageable),
            plan("w", PlanStatus::Salvageable),
        ],
        vec![manifest(1, Some("other"), 5, 1, "abc"), manifest(2, Some("u"), 5, 0, "abc")],
        &[],
        &verified(),
        MappingProvenance::FileManifest,
    );
    assert_eq!(out[0].recovery_classification, RecoveryClassification::OrphanBlocks);
    assert_eq!(out[1].recovery_classification, RecoveryClassification::PartialOrdered);
    assert_eq!(out[2].recovery_classification, RecoveryClassification::FullVerified);
    assert_eq!(out[2].mapping_provenance, MappingProvenance::PayloadBlockIdentity);
    let statuses: Vec<PlanStatus> = out.iter().map(|p| p.status).collect();
    assert_eq!(statuses, vec![PlanStatus::Unmappable, PlanStatus::Unsalvageable, PlanStatus::Salvageable]);
}

#[test]
fn without_plans_each_usable_manifest_builds_one() {
    let values = vec![identity_value(3, 0, 1, 5, "abc")];
    let out = verify_and_apply_manifest_expectations(
        Vec::new(),
        vec![manifest(3, None, 5, 2, "abc"), manifest(9, Some("nothing"), 4, 1, "d")],
        &values,
        &verified(),
        MappingProvenance::FileManifest,
    );
    assert_eq!(out.len(), 2);
    assert_eq!(out[0].file_path, anonymous_file_path(3));
    assert_eq!(out[0].status, PlanStatus::Unsalvageable);
    assert_eq!(out[0].reason, PlanReason::ManifestExpectedBlocksMissing);
    assert_eq!(out[0].extents, vec![Extent { block_id: 1, offset: 0, len: 5 }]);
    assert_eq!(out[0].recovery_classification, RecoveryClassification::PartialOrdered);
    assert_eq!(out[1].file_path, "nothing");
    assert_eq!(out[1].status, PlanStatus::Unsalvageable);
    assert_eq!(out[1].reason, PlanReason::ManifestExpectedBlocksMissing);
    assert_eq!(out[1].recovery_classification, RecoveryClassification::PartialOrdered);
    assert_eq!(out[1].failure_reasons.last(), Some(&ReasonCode::ManifestDigestNotVerified));
    assert!(out[1].extents.is_empty());
}
