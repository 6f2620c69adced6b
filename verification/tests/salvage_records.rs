use crushr::digest::digest_hex_of_str;
use crushr::json::JsonValue;
use crushr::salvage::identity::{anonymous_file_path, verify_and_plan_file_identity_extent_records};
use crushr::salvage::records::{
    parse_checkpoint_extent_records, parse_file_identity_extent_records, parse_file_identity_path_map,
    parse_file_manifest_records, parse_payload_block_identity_records, parse_payload_block_path_checkpoints,
};
use crushr::salvage::types::{BlockVerification, Extent, MappingProvenance, PlanError, PlanStatus, RecoveryClassification};
use std::collections::{BTreeMap, BTreeSet};

fn obj(members: Vec<(&str, JsonValue)>) -> JsonValue {
    JsonValue::Object(members.into_iter().map(|(k, v)| (k.to_string(), v)).collect())
}

fn text(s: &str) -> JsonValue {
    JsonValue::Str(s.to_string())
}

fn num(n: u64) -> JsonValue {
    JsonValue::Number(Some(n))
}

fn path_entry(schema: Option<&str>, id: u64, path: &str, digest: &str) -> JsonValue {
    let mut m = vec![("file_id", num(id)), ("path", text(path)), ("path_digest_blake3", text(digest))];
    if let Some(s) = schema {
        m.insert(0, ("schema", text(s)));
    }
    obj(m)
}

fn identity_extent(file_id: u64, ordinal: u64, block_id: u64, offset: u64, len: u64, size: u64, path_digest: &str) -> JsonValue {
    obj(vec![
        ("schema", text("crushr-file-identity-extent.v1")),
        ("file_id", num(file_id)),
        ("full_file_size", num(size)),
        ("extent_ordinal", num(ordinal)),
        ("block_id", num(block_id)),
        ("logical_offset", num(offset)),
        ("logical_length", num(len)),
        ("path_linkage", obj(vec![("path_digest_blake3", text(path_digest))])),
        ("content_identity", obj(vec![("payload_hash_blake3", text("p")), ("raw_hash_blake3", text("r"))])),
    ])
}

fn verified(ids: &[u32]) -> BTreeMap<u32, BlockVerification> {
    ids.iter().map(|id| (*id, BlockVerification { content_verified: true, verified_raw_len: Some(16) })).collect()
}

#[test]
fn path_maps_keep_entries_whose_digest_verifies() {
    let good = digest_hex_of_str("docs/a.txt");
    let values = vec![
        obj(vec![
            ("schema", text("crushr-file-path-map.v1")),
            ("records", JsonValue::Array(vec![path_entry(None, 1, "docs/a.txt", &good), path_entry(None, 2, "b", "00")])),
        ]),
        path_entry(Some("crushr-file-path-map-entry.v1"), 3, "c", &digest_hex_of_str("c")),
        path_entry(Some("crushr-file-path-map-entry.v1"), 1, "docs/z", &digest_hex_of_str("docs/z")),
    ];
    let map = parse_file_identity_path_map(&values);
    assert_eq!(map.len(), 2);
    assert_eq!(map.get(&1).map(String::as_str), Some("docs/z"));
    assert_eq!(map.get(&3).map(String::as_str), Some("c"));

    let mut entry = path_entry(None, 4, "d", &digest_hex_of_str("d"));
    if let JsonValue::Object(m) = &mut entry {
        m.push(("full_file_size".to_string(), num(9)));
        m.push(("total_block_count".to_string(), num(1)));
    }
    let zero_blocks = obj(vec![
        ("file_id", num(5)),
        ("path", text("e")),
        ("path_digest_blake3", text(&digest_hex_of_str("e"))),
        ("full_file_size", num(9)),
        ("total_block_count", num(0)),
    ]);
    let checkpoints = vec![obj(vec![
        ("schema", text("crushr-path-checkpoint.v1")),
        ("entries", JsonValue::Array(vec![entry, zero_blocks])),
    ])];
    let cp = parse_payload_block_path_checkpoints(&checkpoints);
    assert_eq!(cp.len(), 1);
    assert_eq!(cp.get(&4).map(String::as_str), Some("d"));
}

#[test]
fn checkpoint_and_manifest_records_are_read() {
    let rec = |path: &str, block: u64| {
        obj(vec![
            ("path", text(path)),
            ("full_file_size", num(10)),
            ("block_id", num(block)),
            ("logical_offset", num(0)),
            ("logical_length", num(10)),
        ])
    };
    let values = vec![obj(vec![
        ("schema", text("crushr-checkpoint-map-snapshot.v1")),
        ("records", JsonValue::Array(vec![rec("x", 1), rec("y", 1u64 << 33), rec("z", 2)])),
    ])];
    let records = parse_checkpoint_extent_records(&values);
    assert_eq!(records.len(), 2);
    assert_eq!(records[0].path, "x");
    assert_eq!(records[1].extent, Extent { block_id: 2, offset: 0, len: 10 });

    let manifests = parse_file_manifest_records(&vec![
        obj(vec![("schema", text("crushr-file-manifest.v1")), ("file_id", num(8)), ("file_size", num(3))]),
        obj(vec![("schema", text("crushr-file-manifest.v1")), ("path", text("no-id"))]),
        obj(vec![
            ("schema", text("crushr-file-manifest.v1")),
            ("file_id", num(9)),
            ("path", text("p")),
            ("expected_block_count", num(2)),
            ("extent_count", num(2)),
            ("file_digest", text("dd")),
        ]),
    ]);
    assert_eq!(manifests.len(), 2);
    assert_eq!(manifests[0].file_id, 8);
    assert_eq!(manifests[0].file_size, 3);
    assert_eq!(manifests[0].expected_block_count, 0);
    assert!(manifests[0].path.is_none());
    assert_eq!(manifests[0].file_digest, "");
    assert_eq!(manifests[1].path.as_deref(), Some("p"));
    assert_eq!(manifests[1].file_digest, "dd");
}

#[test]
fn payload_identity_records_need_every_required_field() {
    let full = obj(vec![
        ("schema", text("crushr-payload-block-identity.v1")),
        ("archive_identity", text("arch")),
        ("file_id", num(2)),
        ("block_index", num(0)),
        ("total_block_count", num(1)),
        ("full_file_size", num(4)),
        ("logical_offset", num(0)),
        ("logical_length", num(4)),
        ("payload_codec", num(1)),
        ("payload_length", num(9)),
        ("block_id", num(6)),
        ("block_scan_offset", num(77)),
        ("content_identity", obj(vec![("payload_hash_blake3", text("ph")), ("raw_hash_blake3", text("rh"))])),
    ]);
    let missing = obj(vec![("schema", text("crushr-payload-block-identity.v1")), ("file_id", num(2))]);
    let records = parse_payload_block_identity_records(&vec![missing, full]);
    assert_eq!(records.len(), 1);
    let r = &records[0];
    assert_eq!((r.file_id, r.block_id, r.payload_length, r.block_scan_offset), (2, 6, 9, Some(77)));
    assert_eq!(r.archive_identity, "arch");
    assert_eq!(r.raw_hash_blake3, "rh");
}

#[test]
fn file_identity_extents_plan_named_files_in_ordinal_order() {
    let digest = digest_hex_of_str("docs/a.txt");
    let values = vec![
        path_entry(Some("crushr-file-path-map-entry.v1"), 1, "docs/a.txt", &digest),
        identity_extent(1, 1, 2, 5, 5, 10, &digest),
        identity_extent(1, 0, 1, 0, 5, 10, &digest),
    ];
    let records = parse_file_identity_extent_records(&values);
    assert_eq!(records.len(), 2);
    assert_eq!(records[0].extent_ordinal, 1);
    let plans = verify_and_plan_file_identity_extent_records(records, &values, &verified(&[1, 2]), &BTreeSet::new()).unwrap();
    assert_eq!(plans.len(), 1);
    assert_eq!(plans[0].file_path, "docs/a.txt");
    assert_eq!(plans[0].status, PlanStatus::Salvageable);
    assert_eq!(plans[0].extents, vec![Extent { block_id: 1, offset: 0, len: 5 }, Extent { block_id: 2, offset: 5, len: 5 }]);
    assert_eq!(plans[0].mapping_provenance, MappingProvenance::FileIdentityExtent);
    assert_eq!(plans[0].recovery_classification, RecoveryClassification::FullVerified);
}

#[test]
fn file_identity_extents_without_a_path_are_recovered_anonymously() {
    let values = vec![identity_extent(4, 0, 1, 0, 5, 5, "any")];
    let records = parse_file_identity_extent_records(&values);
    let plans = verify_and_plan_file_identity_extent_records(records, &values, &verified(&[1]), &BTreeSet::new()).unwrap();
    assert_eq!(plans[0].file_path, anonymous_file_path(4));
    assert_eq!(plans[0].mapping_provenance, MappingProvenance::FileIdentityExtentAnonymous);
    assert_eq!(plans[0].recovery_classification, RecoveryClassification::FullAnonymous);
}

#[test]
fn file_identity_faults_are_reported() {
    let digest = digest_hex_of_str("f");
    let named = path_entry(Some("crushr-file-path-map-entry.v1"), 1, "f", &digest);

    let values = vec![named.clone_json(), identity_extent(1, 0, 3, 0, 5, 5, &digest)];
    let r = verify_and_plan_file_identity_extent_records(parse_file_identity_extent_records(&values), &values, &verified(&[1]), &BTreeSet::new());
    assert_eq!(r.err(), Some(PlanError::UnverifiedContentBlock { record_index: 0 }));

    let values = vec![named.clone_json(), identity_extent(1, 0, 1, 0, 5, 5, "00")];
    let r = verify_and_plan_file_identity_extent_records(parse_file_identity_extent_records(&values), &values, &verified(&[1]), &BTreeSet::new());
    assert_eq!(r.err(), Some(PlanError::PathDigestMismatch { record_index: 0 }));

    let values = vec![named.clone_json(), identity_extent(1, 0, 1, 0, 5, 10, &digest), identity_extent(1, 2, 2, 5, 5, 10, &digest)];
    let r = verify_and_plan_file_identity_extent_records(parse_file_identity_extent_records(&values), &values, &verified(&[1, 2]), &BTreeSet::new());
    assert_eq!(r.err(), Some(PlanError::ExtentOrdinalGap { group_index: 0 }));

    let values = vec![named.clone_json(), identity_extent(1, 0, 1, 0, 5, 10, &digest), identity_extent(1, 1, 2, 5, 5, 12, &digest)];
    let r = verify_and_plan_file_identity_extent_records(parse_file_identity_extent_records(&values), &values, &verified(&[1, 2]), &BTreeSet::new());
    assert_eq!(r.err(), Some(PlanError::InconsistentFileSize { record_index: 1 }));
}

trait CloneJson {
    fn clone_json(&self) -> JsonValue;
}

impl CloneJson for JsonValue {
    fn clone_json(&self) -> JsonValue {
        match self {
            JsonValue::Null => JsonValue::Null,
            JsonValue::Bool(b) => JsonValue::Bool(*b),
            JsonValue::Number(n) => JsonValue::Number(*n),
            JsonValue::Str(s) => JsonValue::Str(s.clone()),
            JsonValue::Array(a) => JsonValue::Array(a.iter().map(|v| v.clone_json()).collect()),
            JsonValue::Object(m) => JsonValue::Object(m.iter().map(|(k, v)| (k.clone(), v.clone_json())).collect()),
        }
    }
}
