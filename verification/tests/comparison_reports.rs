use crushr::json::JsonValue;
use crushr::lab::classes::{classification_delta, count_outcomes, merge_classification_counts, metadata_node_count};
use crushr::lab::terminal::class_count;
use crushr::lab::dict_metrics::{format13_dict_stats, format15_dictionary_metrics, RowEncoding};
use crushr::lab::groups::{build_experimental_groups, build_format05_groups, build_groups, group_comparison_rows, RowKey};
use crushr::lab::markdown::{render_comparison_markdown, scenario_row, summarize_redundant_map_comparison};
use crushr::lab::outcome::OutcomeMetrics;
use crushr::lab::row_groups::group_rows_by_key;
use crushr::lab::scenarios::ComparisonScenario;
use crushr::lab::stats::{identity_row_paths, stress_identity_stats};
use crushr::lab::summary::{sort_rows_by_scenario_id, count_improvement_classes, count_salvage_rises, count_transitions, summarize_comparison};
use crushr::salvage::grouping::{group_by_key, stable_sort_by_u64_key};
use crushr::salvage::manifest::sort_by_u64_key;

fn obj(members: Vec<(&str, JsonValue)>) -> JsonValue {
    JsonValue::Object(members.into_iter().map(|(k, v)| (k.to_string(), v)).collect())
}

fn text(s: &str) -> JsonValue {
    JsonValue::Str(s.to_string())
}

fn num(n: u64) -> JsonValue {
    JsonValue::Number(Some(n))
}

fn metrics(outcome: &str, verified: u64, salvageable: u64, full: u64) -> OutcomeMetrics {
    OutcomeMetrics {
        outcome: outcome.to_string(),
        verified_block_count: verified,
        salvageable_file_count: salvageable,
        exported_full_file_count: full,
    }
}

fn scenario(id: &str, dataset: &'static str, target: &'static str) -> ComparisonScenario {
    ComparisonScenario {
        scenario_id: id.to_string(),
        dataset,
        corruption_model: "byte_flip",
        corruption_target: target,
        magnitude: "small",
        seed: 1,
        break_redundant_map: false,
    }
}

#[test]
fn scenario_rows_classify_the_candidate_against_the_baseline() {
    let r = scenario_row(
        &scenario("s1", "mixed", "index"),
        vec![metrics("ORPHAN_EVIDENCE_ONLY", 2, 0, 0), metrics("PARTIAL_FILE_SALVAGE", 3, 1, 0)],
        1,
    );
    assert_eq!(r.improvement_class, "IMPROVED_ORPHAN_TO_PARTIAL");
    assert_eq!(r.dataset, "mixed");
}

fn rows() -> Vec<crushr::lab::groups::ScenarioRow> {
    vec![
        scenario_row(
            &scenario("b", "mixed", "index"),
            vec![metrics("ORPHAN_EVIDENCE_ONLY", 2, 0, 0), metrics("FULL_FILE_SALVAGE_AVAILABLE", 5, 1, 1)],
            1,
        ),
        scenario_row(
            &scenario("a", "smallfiles", "index"),
            vec![metrics("NO_VERIFIED_EVIDENCE", 0, 0, 0), metrics("NO_VERIFIED_EVIDENCE", 0, 0, 0)],
            1,
        ),
        scenario_row(
            &scenario("c", "mixed", "tail"),
            vec![metrics("PARTIAL_FILE_SALVAGE", 4, 2, 0), metrics("ORPHAN_EVIDENCE_ONLY", 1, 0, 0)],
            1,
        ),
    ]
}

#[test]
fn comparison_totals_and_groups() {
    let t = summarize_comparison(rows(), 2, 1);
    assert_eq!(t.scenario_count, 3);
    let ids: Vec<&str> = t.per_scenario_rows.iter().map(|r| r.scenario_id.as_str()).collect();
    assert_eq!(ids, vec!["a", "b", "c"]);
    assert_eq!(t.total_verified_block_delta, (5 - 2) + 0 + (1 - 4));
    assert_eq!(t.total_salvageable_file_delta, 1 - 2);
    assert_eq!(t.total_exported_full_file_delta, 1);
    let keys: Vec<&str> = t.by_dataset.iter().map(|g| g.key.as_str()).collect();
    assert_eq!(keys, vec!["mixed", "smallfiles"]);
    assert_eq!(t.by_dataset[0].scenario_count, 2);
    let sum: usize = t.by_corruption_target.iter().map(|g| g.scenario_count).sum();
    assert_eq!(sum, 3);
    assert_eq!(t.outcome_counts[0], vec![
        ("NO_VERIFIED_EVIDENCE".to_string(), 1),
        ("ORPHAN_EVIDENCE_ONLY".to_string(), 1),
        ("PARTIAL_FILE_SALVAGE".to_string(), 1)
    ]);
}

#[test]
fn transitions_rises_and_classes_are_counted() {
    let rs = rows();
    assert_eq!(count_transitions(&rs, 0, "ORPHAN_EVIDENCE_ONLY", 1, "FULL_FILE_SALVAGE_AVAILABLE"), 1);
    assert_eq!(count_salvage_rises(&rs, 0, 1), 1);
    assert_eq!(count_improvement_classes(&rs, "UNCHANGED", "DEGRADED"), 2);
    let gs = build_groups(&rs, RowKey::CorruptionTarget);
    assert_eq!(gs.len(), 2);
    assert_eq!(gs[0].key, "index");
}

#[test]
fn redundant_map_summary_and_report() {
    let s = summarize_redundant_map_comparison(rows(), "0.1.0".to_string(), "LABEL".to_string());
    assert_eq!(s.scenario_count, 3);
    assert_eq!(s.orphan_to_salvage_improvements, 1);
    assert_eq!(s.unchanged_outcome_count, 1);
    assert_eq!(s.degraded_outcome_count, 1);
    let md = render_comparison_markdown(&s);
    assert!(md.contains("`b`"));
    assert!(md.contains("ORPHAN_EVIDENCE_ONLY → FULL_FILE_SALVAGE_AVAILABLE (IMPROVED_ORPHAN_TO_FULL)"));
}

#[test]
fn identity_stats_over_rows_or_fallback_paths() {
    let id = |p: Option<&str>| {
        let mut m = vec![("schema", text("crushr-payload-block-identity.v1"))];
        if let Some(p) = p {
            m.push(("path", text(p)));
        }
        obj(m)
    };
    let rows = vec![id(Some("d/a__frag_000.bin")), id(Some("d/a__frag_001.bin")), id(None), id(Some("é")), obj(vec![])];
    let (n, paths) = identity_row_paths(&rows);
    assert_eq!(n, 4);
    assert_eq!(paths.len(), 3);
    let s = stress_identity_stats(&rows, &Vec::new());
    assert_eq!(s.path_count, 3);
    assert_eq!(s.path_char_count, 17 + 17 + 2);
    assert_eq!(s.max_path_length, 17);
    assert_eq!(s.total_extent_count, 4);
    assert_eq!(s.extents_per_logical_file, vec![("a".to_string(), 2), ("é".to_string(), 1)]);
    assert_eq!(s.max_extents_per_file, 2);
    assert_eq!(s.extents_per_file_distribution, vec![("1".to_string(), 1), ("2".to_string(), 1)]);
    let fallback = stress_identity_stats(&vec![obj(vec![])], &vec!["x.bin".to_string(), "y/z.bin".to_string()]);
    assert_eq!(fallback.path_count, 2);
    assert_eq!(fallback.total_extent_count, 2);
    assert_eq!(fallback.path_char_count, 5 + 7);
}

#[test]
fn first_generation_dictionary_stats() {
    let rows = vec![
        obj(vec![("schema", text("crushr-path-dictionary-copy.v1")), ("entry_count", num(0)), ("entries", JsonValue::Array(vec![num(1), num(2)]))]),
        obj(vec![("schema", text("crushr-payload-block-identity.v1")), ("path", text("abc"))]),
        obj(vec![("schema", text("crushr-path-dictionary-copy.v1")), ("entry_count", num(5))]),
    ];
    let s = format13_dict_stats(&rows, &vec![40, 10, 60], &vec!["ignored".to_string()]);
    assert_eq!(s.dictionary_entry_count, 5);
    assert_eq!(s.dictionary_total_bytes, 100);
    assert_eq!(s.number_of_dictionary_copies, 2);
    assert_eq!(s.total_extent_count, 1);
    assert_eq!(s.total_path_characters, 3);
    let none = format13_dict_stats(&vec![], &vec![], &vec!["ab".to_string(), "c".to_string()]);
    assert_eq!(none.total_extent_count, 2);
    assert_eq!(none.total_path_characters, 3);
}

#[test]
fn factored_dictionary_metrics_validate_copies() {
    let body = obj(vec![
        ("directories", JsonValue::Array(vec![text("d")])),
        ("file_bindings", JsonValue::Array(vec![num(1), num(2), num(3)])),
    ]);
    let body_bytes = b"{\"body\":1}".to_vec();
    let hash = blake3::hash(&body_bytes).to_hex().to_string();
    let copy = |instance: &str, h: &str, len: u64, generation: u64| {
        obj(vec![
            ("schema", text("crushr-path-dictionary-copy.v2")),
            ("archive_instance_id", text(instance)),
            ("generation", num(generation)),
            ("dictionary_content_hash", text(h)),
            ("dictionary_length", num(len)),
            ("body", body.clone_value()),
        ])
    };
    let rows = vec![
        obj(vec![("schema", text("crushr-payload-block-identity.v1")), ("archive_identity", text("arch-1"))]),
        copy("arch-1", &hash, body_bytes.len() as u64, 1),
        copy("arch-2", &hash, body_bytes.len() as u64, 1),
        copy("arch-1", "00", body_bytes.len() as u64, 2),
    ];
    let enc = |row_len: u64, b: bool| RowEncoding {
        row_len,
        body: if b { Some(body_bytes.clone()) } else { None },
        directories_len: if b { Some(5) } else { None },
        basenames_len: None,
        file_bindings_len: if b { Some(7) } else { None },
    };
    let m = format15_dictionary_metrics(&rows, &vec![enc(10, false), enc(100, true), enc(100, true), enc(100, true)]);
    assert_eq!(m.dictionary_total_bytes, 300);
    assert_eq!(m.valid_dictionary_copy_count, 1);
    assert_eq!(m.rejected_wrong_archive_count, 1);
    assert_eq!(m.rejected_hash_mismatch_count, 1);
    assert_eq!(m.detected_generation_mismatch_count, 1);
    assert_eq!(m.directory_dictionary_bytes, 5);
    assert_eq!(m.basename_dictionary_bytes, 0);
    assert_eq!(m.file_binding_table_bytes, 7);
    assert_eq!(m.entry_count, 3);
}

trait CloneValue {
    fn clone_value(&self) -> JsonValue;
}

impl CloneValue for JsonValue {
    fn clone_value(&self) -> JsonValue {
        match self {
            JsonValue::Null => JsonValue::Null,
            JsonValue::Bool(b) => JsonValue::Bool(*b),
            JsonValue::Number(n) => JsonValue::Number(*n),
            JsonValue::Str(s) => JsonValue::Str(s.clone()),
            JsonValue::Array(a) => JsonValue::Array(a.iter().map(|v| v.clone_value()).collect()),
            JsonValue::Object(ms) => JsonValue::Object(ms.iter().map(|(k, v)| (k.clone(), v.clone_value())).collect()),
        }
    }
}

#[test]
fn rows_group_by_a_string_field_with_tallies() {
    let row = |ds: &str, outcome: &str, named: u64, manifest: u64| {
        obj(vec![
            ("dataset", text(ds)),
            ("outcome", text(outcome)),
            ("recovery_classification_counts", obj(vec![("FULL_NAMED_VERIFIED", num(named)), ("ORPHAN_EVIDENCE_ONLY", num(1))])),
            ("manifest_checkpoint_survival_count", num(manifest)),
        ])
    };
    let rows = vec![row("mixed", "A", 2, 1), row("large", "B", 0, 0), row("mixed", "A", 3, 4), obj(vec![("outcome", text("C"))])];
    let gs = group_rows_by_key(rows, "dataset");
    assert_eq!(gs.len(), 2);
    assert_eq!(gs[0].key, "large");
    assert_eq!(gs[1].key, "mixed");
    assert_eq!(gs[1].scenario_count, 2);
    assert_eq!(gs[1].recovery_outcome_counts, vec![("A".to_string(), 2)]);
    assert_eq!(gs[1].named_recovery_count, 5);
    assert_eq!(gs[1].orphan_evidence_count, 2);
    assert_eq!(gs[1].manifest_checkpoint_survival_count, 5);
    assert_eq!(gs[1].path_checkpoint_survival_count, 0);
}

#[test]
fn grouping_and_sorting_helpers() {
    let items = vec![("b".to_string(), 1), ("a".to_string(), 2), ("b".to_string(), 3)];
    let g = group_by_key(items);
    assert_eq!(g, vec![("a".to_string(), vec![2]), ("b".to_string(), vec![1, 3])]);
    let total: usize = g.iter().map(|(_, v)| v.len()).sum();
    assert_eq!(total, 3);
    let sorted = sort_by_u64_key(vec![(3u64, 'a'), (1, 'b'), (3, 'c'), (0, 'd')]);
    assert_eq!(sorted, vec![(0, 'd'), (1, 'b'), (3, 'a'), (3, 'c')]);
}

#[test]
fn outcome_tallies_add_up_to_the_items_counted() {
    let items: Vec<String> = ["PARTIAL_FILE_SALVAGE", "NO_VERIFIED_EVIDENCE", "PARTIAL_FILE_SALVAGE", "ORPHAN_EVIDENCE_ONLY"]
        .iter()
        .map(|s| s.to_string())
        .collect();
    let table = count_outcomes(&items);
    assert_eq!(
        table,
        vec![
            ("NO_VERIFIED_EVIDENCE".to_string(), 1),
            ("ORPHAN_EVIDENCE_ONLY".to_string(), 1),
            ("PARTIAL_FILE_SALVAGE".to_string(), 2),
        ]
    );
    assert_eq!(table.iter().map(|(_, n)| n).sum::<u64>(), items.len() as u64);
    assert!(count_outcomes(&Vec::new()).is_empty());
}

#[test]
fn groups_split_the_scenarios_under_every_key() {
    let rs = rows();
    for key in [RowKey::Dataset, RowKey::CorruptionTarget, RowKey::CorruptionModel, RowKey::Magnitude] {
        let gs = build_groups(&rs, key);
        let total: usize = gs.iter().map(|g| g.scenario_count).sum();
        assert_eq!(total, rs.len());
    }
}

#[test]
fn classification_tables_merge_and_compare() {
    let rows = vec![
        obj(vec![("classes", obj(vec![("FULL_VERIFIED", num(1)), ("ORPHAN_BLOCKS", num(2))]))]),
        obj(vec![("other", num(1))]),
        obj(vec![("classes", obj(vec![("FULL_VERIFIED", num(3)), ("PARTIAL_ORDERED", text("x"))]))]),
    ];
    let merged = merge_classification_counts(&rows, "classes");
    assert_eq!(
        merged,
        vec![
            ("FULL_VERIFIED".to_string(), 4),
            ("ORPHAN_BLOCKS".to_string(), 2),
            ("PARTIAL_ORDERED".to_string(), 0),
        ]
    );
    let base = vec![("FULL_VERIFIED".to_string(), 1u64)];
    assert_eq!(classification_delta(&base, &merged, "FULL_VERIFIED"), 3);
    assert_eq!(classification_delta(&merged, &base, "ORPHAN_BLOCKS"), -2);
    assert_eq!(classification_delta(&base, &base, "NONE"), 0);
    assert_eq!(class_count(&merged, &["FULL_VERIFIED", "ORPHAN_BLOCKS", "MISSING"]), 6);

    let plan = obj(vec![(
        "experimental_metadata",
        JsonValue::Array(vec![
            obj(vec![("schema", text("crushr-file-manifest-checkpoint.v1"))]),
            obj(vec![("schema", text("other"))]),
            obj(vec![("schema", text("crushr-file-manifest-checkpoint.v1"))]),
        ]),
    )]);
    assert_eq!(metadata_node_count(&plan, "crushr-file-manifest-checkpoint.v1"), 2);
    assert_eq!(metadata_node_count(&obj(vec![]), "x"), 0);
}

fn wide_rows(arms: usize) -> Vec<crushr::lab::groups::ScenarioRow> {
    let ids = ["z", "m", "a"];
    ids.iter()
        .enumerate()
        .map(|(i, id)| {
            let mut ms = vec![metrics("NO_VERIFIED_EVIDENCE", 0, 0, 0)];
            for a in 1..arms {
                ms.push(metrics("ORPHAN_EVIDENCE_ONLY", (a + i) as u64, 0, 0));
            }
            scenario_row(&scenario(id, if i == 1 { "mixed" } else { "largefiles" }, "payload"), ms, arms - 1)
        })
        .collect()
}

#[test]
fn many_variant_groups_compare_the_last_variant() {
    let r4 = wide_rows(4);
    let g4 = build_experimental_groups(&r4, RowKey::Dataset);
    assert_eq!(g4.len(), 2);
    assert_eq!(g4[0].key, "largefiles");
    assert_eq!(g4[0].scenario_count, 2);
    assert_eq!(g4[0].outcome_counts.len(), 4);
    assert_eq!(g4[0].verified_block_delta, 3 + 5);
    let r5 = wide_rows(5);
    let g5 = build_format05_groups(&r5, RowKey::Dataset);
    assert_eq!(g5[1].key, "mixed");
    assert_eq!(g5[1].verified_block_delta, 5);
    assert_eq!(g5[1].outcome_counts[4], vec![("ORPHAN_EVIDENCE_ONLY".to_string(), 1)]);
    let g = group_comparison_rows(&r5, RowKey::CorruptionTarget, 5, 2);
    assert_eq!(g.len(), 1);
    assert_eq!(g[0].verified_block_delta, 2 + 3 + 4);
    let sorted = sort_rows_by_scenario_id(wide_rows(3));
    let ids: Vec<&str> = sorted.iter().map(|r| r.scenario_id.as_str()).collect();
    assert_eq!(ids, vec!["a", "m", "z"]);
}

#[test]
fn stable_sorting_keeps_equal_keys_in_order() {
    let out = stable_sort_by_u64_key(vec![(3u64, "c"), (1, "a"), (3, "d"), (1, "b")]);
    assert_eq!(out, vec![(1, "a"), (1, "b"), (3, "c"), (3, "d")]);
}
