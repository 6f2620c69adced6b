use std::collections::BTreeMap;

use crushr::json::JsonValue;
use crushr::salvage::ledger::{parse_redundant_map_files, LedgerError};
use crushr::salvage::metadata::verify_and_plan_redundant_map;
use crushr::salvage::planning::verify_and_plan_experimental_records;
use crushr::salvage::records::parse_self_describing_extent_records;
use crushr::salvage::types::{BlockVerification, Extent, MappingProvenance, PlanError, PlanStatus, RedundantMapFile};

fn obj(members: Vec<(&str, JsonValue)>) -> JsonValue {
    JsonValue::Object(members.into_iter().map(|(k, v)| (k.to_string(), v)).collect())
}

fn num(n: u64) -> JsonValue {
    JsonValue::Number(Some(n))
}

fn text(s: &str) -> JsonValue {
    JsonValue::Str(s.to_string())
}

fn verified(ids: &[(u32, u64)]) -> BTreeMap<u32, BlockVerification> {
    let mut bv = BTreeMap::new();
    for (id, len) in ids {
        bv.insert(*id, BlockVerification { content_verified: true, verified_raw_len: Some(*len) });
    }
    bv
}

fn file(path: &str, size: u64, extents: Vec<Extent>) -> RedundantMapFile {
    RedundantMapFile { path: path.to_string(), size, extents }
}

#[test]
fn ledger_documents_parse_into_files() {
    let doc = obj(vec![
        ("schema", text("crushr-redundant-file-map.v1")),
        (
            "files",
            JsonValue::Array(vec![obj(vec![
                ("path", text("a.txt")),
                ("size", num(10)),
                ("extents", JsonValue::Array(vec![obj(vec![("block_id", num(1)), ("file_offset", num(0)), ("len", num(10))])])),
            ])]),
        ),
    ]);
    let files = parse_redundant_map_files(&doc).ok().unwrap();
    assert_eq!(files.len(), 1);
    assert_eq!(files[0].path, "a.txt");
    assert_eq!(files[0].extents, vec![Extent { block_id: 1, offset: 0, len: 10 }]);
}

#[test]
fn ledger_errors_name_the_first_problem() {
    assert_eq!(parse_redundant_map_files(&text("x")).err(), Some(LedgerError::NotAnObject));
    assert_eq!(parse_redundant_map_files(&obj(vec![])).err(), Some(LedgerError::MissingSchema));
    assert_eq!(
        parse_redundant_map_files(&obj(vec![("schema", text("other"))])).err(),
        Some(LedgerError::UnsupportedSchema)
    );
    assert_eq!(
        parse_redundant_map_files(&obj(vec![("schema", text("crushr-redundant-file-map.experimental.v2"))])).err(),
        Some(LedgerError::MissingFiles)
    );
    let doc = obj(vec![
        ("schema", text("crushr-redundant-file-map.v1")),
        ("files", JsonValue::Array(vec![obj(vec![("path", text("")), ("size", num(1))])])),
    ]);
    assert_eq!(parse_redundant_map_files(&doc).err(), Some(LedgerError::EmptyPath { file_index: 0 }));
    let bad_extent = obj(vec![
        ("schema", text("crushr-redundant-file-map.v1")),
        (
            "files",
            JsonValue::Array(vec![obj(vec![
                ("path", text("p")),
                ("size", num(1)),
                ("extents", JsonValue::Array(vec![obj(vec![("block_id", num(1 << 40)), ("file_offset", num(0)), ("len", num(1))])])),
            ])]),
        ),
    ]);
    assert_eq!(
        parse_redundant_map_files(&bad_extent).err(),
        Some(LedgerError::BlockIdOutOfRange { file_index: 0, extent_index: 0 })
    );
}

#[test]
fn a_verified_map_plans_every_file_in_path_order() {
    let bv = verified(&[(1, 8), (2, 12)]);
    let files = vec![
        file("z.bin", 12, vec![Extent { block_id: 1, offset: 0, len: 8 }, Extent { block_id: 2, offset: 8, len: 4 }]),
        file("a.bin", 0, vec![]),
    ];
    let plans = verify_and_plan_redundant_map(files, &bv).ok().unwrap();
    assert_eq!(plans.len(), 2);
    assert_eq!(plans[0].file_path, "a.bin");
    assert_eq!(plans[0].status, PlanStatus::Unsalvageable);
    assert_eq!(plans[1].status, PlanStatus::Salvageable);
    assert_eq!(plans[1].required_block_ids, vec![1, 2]);
    assert_eq!(plans[1].mapping_provenance, MappingProvenance::RedundantVerifiedMap);
}

#[test]
fn map_faults_are_reported() {
    let bv = verified(&[(1, 8)]);
    let dup = vec![file("a", 8, vec![Extent { block_id: 1, offset: 0, len: 8 }]), file("a", 8, vec![Extent { block_id: 1, offset: 0, len: 8 }])];
    assert_eq!(verify_and_plan_redundant_map(dup, &bv).err(), Some(PlanError::DuplicatePath { file_index: 1 }));
    let gap = vec![file("a", 8, vec![Extent { block_id: 1, offset: 1, len: 7 }])];
    assert_eq!(
        verify_and_plan_redundant_map(gap, &bv).err(),
        Some(PlanError::ExtentsNotContiguous { file_index: 0, extent_index: 0 })
    );
    let short = vec![file("a", 9, vec![Extent { block_id: 1, offset: 0, len: 8 }])];
    assert_eq!(verify_and_plan_redundant_map(short, &bv).err(), Some(PlanError::IncompleteCoverage { file_index: 0 }));
    let unmapped = vec![file("a", 4, vec![Extent { block_id: 7, offset: 0, len: 4 }])];
    assert_eq!(
        verify_and_plan_redundant_map(unmapped, &bv).err(),
        Some(PlanError::UnmappedBlock { file_index: 0, extent_index: 0, block_id: 7 })
    );
    let too_long = vec![file("a", 9, vec![Extent { block_id: 1, offset: 0, len: 9 }])];
    assert_eq!(
        verify_and_plan_redundant_map(too_long, &bv).err(),
        Some(PlanError::ExtentExceedsRawLen { file_index: 0, extent_index: 0, block_id: 1 })
    );
    let zero = vec![file("a", 0, vec![Extent { block_id: 1, offset: 0, len: 0 }])];
    assert_eq!(verify_and_plan_redundant_map(zero, &bv).err(), Some(PlanError::ZeroSizedFileHasExtents { file_index: 0 }));
}

#[test]
fn self_describing_records_become_plans() {
    let rec = |path: &str, off: u64, len: u64, block: u64| {
        obj(vec![
            ("schema", text("crushr-self-describing-extent.v1")),
            (
                "record",
                obj(vec![
                    ("path", text(path)),
                    ("full_file_size", num(6)),
                    ("block_id", num(block)),
                    ("logical_offset", num(off)),
                    ("logical_length", num(len)),
                ]),
            ),
        ])
    };
    let values = vec![rec("f", 0, 3, 1), obj(vec![("schema", text("other"))]), rec("f", 3, 3, 2)];
    let records = parse_self_describing_extent_records(&values);
    assert_eq!(records.len(), 2);
    assert_eq!(records[1].extent, Extent { block_id: 2, offset: 3, len: 3 });
    let bv = verified(&[(1, 3), (2, 6)]);
    let plans = verify_and_plan_experimental_records(records, &bv, MappingProvenance::SelfDescribingExtent).ok().unwrap();
    assert_eq!(plans.len(), 1);
    assert_eq!(plans[0].status, PlanStatus::Salvageable);
    assert_eq!(plans[0].extents.len(), 2);
    assert_eq!(plans[0].mapping_provenance, MappingProvenance::SelfDescribingExtent);
}

fn record(path: &str, size: u64, block_id: u32, offset: u64, len: u64) -> crushr::salvage::records::ExperimentalExtentRecord {
    crushr::salvage::records::ExperimentalExtentRecord { path: path.to_string(), size, extent: Extent { block_id, offset, len } }
}

#[test]
fn size_conflicts_are_found_in_any_record_order() {
    let bv = verified(&[(1, 4), (2, 8)]);
    let forward = vec![record("a", 8, 1, 0, 4), record("b", 4, 2, 0, 4), record("a", 9, 2, 4, 4)];
    let backward = vec![record("a", 9, 2, 4, 4), record("b", 4, 2, 0, 4), record("a", 8, 1, 0, 4)];
    assert!(verify_and_plan_experimental_records(forward, &bv, MappingProvenance::SelfDescribingExtent).is_err());
    assert!(verify_and_plan_experimental_records(backward, &bv, MappingProvenance::SelfDescribingExtent).is_err());
    let agree = vec![record("a", 8, 2, 4, 4), record("a", 8, 1, 0, 4)];
    let plans = verify_and_plan_experimental_records(agree, &bv, MappingProvenance::SelfDescribingExtent).ok().unwrap();
    assert_eq!(plans.len(), 1);
    assert_eq!(plans[0].extents, vec![Extent { block_id: 1, offset: 0, len: 4 }, Extent { block_id: 2, offset: 4, len: 4 }]);
}

#[test]
fn reordered_records_give_the_same_plans() {
    let bv = verified(&[(1, 4), (2, 8), (3, 6)]);
    let forward = vec![record("b", 6, 3, 0, 6), record("a", 8, 1, 0, 4), record("a", 8, 2, 4, 4)];
    let backward = vec![record("a", 8, 2, 4, 4), record("a", 8, 1, 0, 4), record("b", 6, 3, 0, 6)];
    let p1 = verify_and_plan_experimental_records(forward, &bv, MappingProvenance::CheckpointMapSnapshot).ok().unwrap();
    let p2 = verify_and_plan_experimental_records(backward, &bv, MappingProvenance::CheckpointMapSnapshot).ok().unwrap();
    assert_eq!(p1.len(), 2);
    assert_eq!(p2.len(), 2);
    for (a, b) in p1.iter().zip(p2.iter()) {
        assert_eq!(a.file_path, b.file_path);
        assert_eq!(a.extents, b.extents);
        assert_eq!(a.file_size, b.file_size);
        assert_eq!(a.required_block_ids, b.required_block_ids);
        assert_eq!(a.mapping_provenance, b.mapping_provenance);
    }
    assert_eq!(p1[0].file_path, "a");
    assert_eq!(p1[1].file_path, "b");
}
