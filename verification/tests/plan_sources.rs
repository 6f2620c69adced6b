use crushr::json::JsonValue;
use crushr::salvage::sources::{choose_file_plans, plans_from_ledger, plans_from_metadata};
use crushr::salvage::types::MappingProvenance;
use std::collections::{BTreeMap, BTreeSet};

#[test]
fn no_ledger_and_no_metadata_gives_no_plans() {
    let bv = BTreeMap::new();
    let offs = BTreeSet::new();
    assert!(plans_from_ledger(None, &bv).is_none());
    assert!(plans_from_metadata(&[], &bv, &offs).is_none());
    let (plans, provenance) = choose_file_plans(None, &[], &bv, &offs);
    assert!(plans.is_empty());
    assert_eq!(provenance, MappingProvenance::FileManifest);
}

#[test]
fn a_ledger_that_is_not_a_file_map_is_passed_over() {
    let bv = BTreeMap::new();
    let offs = BTreeSet::new();
    assert!(plans_from_ledger(Some(JsonValue::Null), &bv).is_none());
    let (plans, provenance) = choose_file_plans(Some(JsonValue::Array(vec![])), &[JsonValue::Null], &bv, &offs);
    assert!(plans.is_empty());
    assert_eq!(provenance, MappingProvenance::FileManifest);
}

fn obj(members: Vec<(&str, JsonValue)>) -> JsonValue {
    JsonValue::Object(members.into_iter().map(|(k, v)| (k.to_string(), v)).collect())
}

fn num(n: u64) -> JsonValue {
    JsonValue::Number(Some(n))
}

fn ledger_doc() -> JsonValue {
    obj(vec![
        ("schema", JsonValue::Str("crushr-redundant-file-map.v1".to_string())),
        (
            "files",
            JsonValue::Array(vec![obj(vec![
                ("path", JsonValue::Str("a.txt".to_string())),
                ("size", num(10)),
                ("extents", JsonValue::Array(vec![obj(vec![("block_id", num(1)), ("file_offset", num(0)), ("len", num(10))])])),
            ])]),
        ),
    ])
}

#[test]
fn a_verified_ledger_is_chosen_first() {
    let mut bv = BTreeMap::new();
    bv.insert(1u32, crushr::salvage::types::BlockVerification { content_verified: true, verified_raw_len: Some(10) });
    let offs = BTreeSet::new();
    let (plans, provenance) = choose_file_plans(Some(ledger_doc()), &[], &bv, &offs);
    assert_eq!(provenance, MappingProvenance::RedundantVerifiedMap);
    assert_eq!(plans.len(), 1);
    assert_eq!(plans[0].file_path, "a.txt");
}

#[test]
fn a_ledger_on_an_unindexed_block_is_rejected() {
    let bv = BTreeMap::new();
    assert!(plans_from_ledger(Some(ledger_doc()), &bv).is_none());
}
