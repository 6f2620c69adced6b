use crushr::lab::metric_rows::{
    classes_flags, count_marked, extent_density_bucket_for, max_weight, metric_breakdown, metric_cell, path_length_bucket_for,
    sum_weight, summarize_metric_variants, terminal_flags, MetricRow, RowKey,
};
use crushr::lab::terminal::TerminalRecoveryOutcome;
use crushr::lab::terminal::TerminalRecoveryOutcome::{AnonymousFull, Named, NoVerifiedEvidence};

fn row(dataset: &str, target: &str, variant: &str, size: u64, t: TerminalRecoveryOutcome, conflict: bool, metrics: Vec<u64>) -> MetricRow {
    MetricRow {
        scenario_id: format!("{dataset}_{target}"),
        dataset: dataset.to_string(),
        corruption_target: target.to_string(),
        variant: variant.to_string(),
        path_length_bucket: if dataset == "deep_paths" { "very_long".to_string() } else { "normal".to_string() },
        extent_density_bucket: "normal".to_string(),
        archive_byte_size: size,
        flags: terminal_flags(t),
        dictionary_conflict: conflict,
        metrics,
    }
}

fn sample() -> Vec<MetricRow> {
    vec![
        row("smallfiles", "primary_dictionary", "inline", 100, Named, false, vec![3, 10]),
        row("smallfiles", "primary_dictionary", "dict", 80, AnonymousFull, true, vec![5, 2]),
        row("deep_paths", "both_dictionaries", "inline", 150, AnonymousFull, false, vec![7, 1]),
        row("deep_paths", "both_dictionaries", "dict", 90, Named, true, vec![1, 4]),
        row("mixed", "mirrored_dictionary", "dict", 70, NoVerifiedEvidence, false, vec![2, 9]),
    ]
}

#[test]
fn average_path_length_buckets() {
    assert_eq!(path_length_bucket_for(360, 2), "very_long");
    assert_eq!(path_length_bucket_for(359, 2), "long");
    assert_eq!(path_length_bucket_for(240, 2), "long");
    assert_eq!(path_length_bucket_for(239, 2), "normal");
    assert_eq!(path_length_bucket_for(1000, 0), "normal");
}

#[test]
fn extent_density_buckets() {
    assert_eq!(extent_density_bucket_for(64, 2, "normal"), "extreme_fragmentation");
    assert_eq!(extent_density_bucket_for(63, 2, "normal"), "fragmented");
    assert_eq!(extent_density_bucket_for(16, 2, "normal"), "fragmented");
    assert_eq!(extent_density_bucket_for(15, 2, "low_fragmentation"), "low_fragmentation");
    assert_eq!(extent_density_bucket_for(99, 0, "normal"), "normal");
}

#[test]
fn terminal_outcome_sets_exactly_one_flag() {
    let f = terminal_flags(TerminalRecoveryOutcome::PartialOrdered);
    assert!(f.partial_ordered_recovery);
    assert!(!f.named_recovery && !f.anonymous_full_recovery && !f.partial_unordered_recovery);
    assert!(!f.orphan_evidence && !f.no_verified_evidence);
}

#[test]
fn classification_counts_set_flags() {
    let f = classes_flags(&vec![("FULL_NAMED_VERIFIED".to_string(), 2), ("ORPHAN_EVIDENCE_ONLY".to_string(), 1)]);
    assert!(f.named_recovery && f.orphan_evidence);
    assert!(!f.anonymous_full_recovery && !f.no_verified_evidence);
    let none = classes_flags(&vec![]);
    assert!(none.no_verified_evidence && !none.named_recovery);
}

#[test]
fn cell_counts_marks_and_sums_metrics() {
    let rows = sample();
    let c = metric_cell(&rows, "dict", RowKey::Dataset, &vec![], 2);
    assert_eq!(c.scenario_count, 3);
    assert_eq!(c.archive_byte_size, 240);
    assert_eq!(c.named_recovery_count, 1);
    assert_eq!(c.anonymous_full_recovery_count, 1);
    assert_eq!(c.no_verified_evidence_count, 1);
    assert_eq!(c.dictionary_conflict_count, 2);
    assert_eq!(c.conflict_without_named_count, 1);
    assert_eq!(c.conflict_anonymous_count, 1);
    assert_eq!(c.metric_sums, vec![8, 15]);
    assert_eq!(c.metric_maxes, vec![5, 9]);
}

#[test]
fn cell_selects_attribute_values() {
    let rows = sample();
    let one_copy = metric_cell(&rows, "dict", RowKey::CorruptionTarget, &vec!["primary_dictionary", "mirrored_dictionary"], 2);
    assert_eq!(one_copy.scenario_count, 2);
    assert_eq!(one_copy.archive_byte_size, 150);
    assert_eq!(count_marked(&rows, "inline", RowKey::CorruptionTarget, &vec!["both_dictionaries"], 1), 1);
    assert_eq!(sum_weight(&rows, "inline", RowKey::Dataset, &vec![], Some(1)), 11);
    assert_eq!(max_weight(&rows, "dict", RowKey::Dataset, &vec!["smallfiles"], Some(0)), 5);
    assert_eq!(sum_weight(&rows, "dict", RowKey::Dataset, &vec![], Some(7)), 0);
}

#[test]
fn summary_states_overheads_against_baselines() {
    let rows = sample();
    let s = summarize_metric_variants(&rows, &vec!["inline", "dict"], &vec!["inline", "dict"], 2);
    assert_eq!(s.len(), 2);
    assert_eq!(s[0].variant, "inline");
    assert_eq!(s[0].cell.archive_byte_size, 250);
    assert_eq!(s[0].overhead_deltas, vec![0, 10]);
    assert_eq!(s[1].overhead_deltas, vec![-10, 0]);
    assert_eq!(s[1].cell.named_recovery_count, 1);
}

#[test]
fn breakdown_lists_values_in_order() {
    let rows = sample();
    let gs = metric_breakdown(&rows, RowKey::Dataset, &vec!["inline", "dict"], 2);
    let keys: Vec<&str> = gs.iter().map(|g| g.key.as_str()).collect();
    assert_eq!(keys, vec!["deep_paths", "mixed", "smallfiles"]);
    assert_eq!(gs[1].cells[0].scenario_count, 0);
    assert_eq!(gs[1].cells[1].scenario_count, 1);
    assert_eq!(gs[0].cells[1].named_recovery_count, 1);
    let buckets = metric_breakdown(&rows, RowKey::PathLengthBucket, &vec!["dict"], 0);
    assert_eq!(buckets.len(), 2);
    assert_eq!(buckets[0].key, "normal");
    assert_eq!(buckets[0].cells[0].scenario_count, 2);
}

#[test]
fn resilience_judgment_answers() {
    let j = crushr::lab::metric_rows::judge_dictionary_resilience(0, 3, 2, 4, 4);
    assert!(j.single_dictionary_fragile && j.mirror_keeps_names && j.both_lost_falls_back && j.conflicts_fail_closed);
    let k = crushr::lab::metric_rows::judge_dictionary_resilience(1, 0, 0, 4, 3);
    assert!(!k.single_dictionary_fragile && !k.mirror_keeps_names && !k.both_lost_falls_back && !k.conflicts_fail_closed);
    assert!(!crushr::lab::metric_rows::judge_dictionary_resilience(0, 0, 0, 0, 0).conflicts_fail_closed);
}

#[test]
fn factoring_judgment_answers() {
    let j = crushr::lab::metric_rows::judge_factoring(120, -40, 2, 1, 5);
    assert!(j.reduces_dictionary_size && j.smaller_than_inline_path && j.detects_generation_mismatch);
    assert!(j.one_copy_keeps_names && j.names_recovered);
    let k = crushr::lab::metric_rows::judge_factoring(0, 0, 0, 0, 0);
    assert!(!k.reduces_dictionary_size && !k.smaller_than_inline_path && !k.detects_generation_mismatch);
}

#[test]
fn inline_stress_judgment_answers() {
    let j = crushr::lab::metric_rows::judge_inline_stress(120, 900);
    assert!(j.inline_overhead_grew && j.inline_smaller_than_manifest);
    let k = crushr::lab::metric_rows::judge_inline_stress(0, -5);
    assert!(!k.inline_overhead_grew && !k.inline_smaller_than_manifest);
}

#[test]
fn stress_variants_in_order() {
    assert_eq!(
        crushr::lab::scenarios::format12_stress_variants(),
        vec!["payload_only", "extent_identity_only", "extent_identity_inline_path", "payload_plus_manifest"]
    );
}
