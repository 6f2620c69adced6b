use crushr::lab::variants::{
    breakdown, cell_totals, named_deltas, overhead_deltas, path_length_bucket_of, outcome_deltas, render_variant_markdown, row_flags, summarize_variant_comparison,
    RowField, VariantRow,
};

fn row(variant: &str, dataset: &str, target: &str, outcome: &str, classes: &[(&str, u64)], size: u64, meta: u64) -> VariantRow {
    VariantRow {
        scenario_id: format!("{dataset}_{target}"),
        dataset: dataset.to_string(),
        corruption_model: "byte_flip".to_string(),
        corruption_target: target.to_string(),
        magnitude: "small".to_string(),
        seed: 1,
        variant: variant.to_string(),
        recovery_outcome: outcome.to_string(),
        classes: classes.iter().map(|(k, n)| (k.to_string(), *n)).collect(),
        archive_byte_size: size,
        metadata_byte_estimate: meta,
    }
}

fn rows() -> Vec<VariantRow> {
    vec![
        row("payload_only", "mixed", "header", "ORPHAN_EVIDENCE_ONLY", &[("ORPHAN_EVIDENCE_ONLY", 1)], 100, 10),
        row("full_current_experimental", "mixed", "header", "FULL_FILE_SALVAGE_AVAILABLE", &[("FULL_NAMED_VERIFIED", 1)], 180, 60),
        row("payload_only", "smallfiles", "tail", "NO_VERIFIED_EVIDENCE", &[], 50, 5),
        row("full_current_experimental", "smallfiles", "tail", "FULL_FILE_SALVAGE_AVAILABLE", &[("FULL_ANONYMOUS_VERIFIED", 2), ("FULL_NAMED_VERIFIED", 1)], 90, 40),
    ]
}

#[test]
fn row_flags_read_the_classification_counts() {
    let r = &rows()[3];
    let f = row_flags(r, false);
    assert!(f.named_recovery && f.anonymous_full_recovery);
    assert!(!f.orphan_evidence && !f.no_verified_evidence);
    let empty = &rows()[2];
    assert!(row_flags(empty, true).no_verified_evidence);
    assert!(!row_flags(empty, false).no_verified_evidence);
}

#[test]
fn cells_total_their_rows() {
    let rs = rows();
    let t = cell_totals(&rs, "full_current_experimental", None, false);
    assert_eq!(t.scenario_count, 2);
    assert_eq!(t.named_recovery_count, 2);
    assert_eq!(t.anonymous_full_recovery_count, 1);
    assert_eq!(t.archive_byte_size, 270);
    assert_eq!(t.metadata_byte_estimate, 100);
    assert_eq!(t.recovery_outcome_counts, vec![("FULL_FILE_SALVAGE_AVAILABLE".to_string(), 2)]);
    assert_eq!(
        t.recovery_classification_counts,
        vec![("FULL_ANONYMOUS_VERIFIED".to_string(), 2), ("FULL_NAMED_VERIFIED".to_string(), 2)]
    );
    let cell = cell_totals(&rs, "payload_only", Some((RowField::Dataset, "smallfiles")), true);
    assert_eq!(cell.scenario_count, 1);
    assert_eq!(cell.no_verified_evidence_count, 1);
    assert_eq!(cell.archive_byte_size, 50);
}

#[test]
fn variant_comparison_summary_and_report() {
    let rs = rows();
    let variants = vec!["full_current_experimental", "payload_only"];
    let s = summarize_variant_comparison(&rs, &variants, false);
    assert_eq!(s.scenario_count, 4);
    assert_eq!(s.by_variant[0].variant, "full_current_experimental");
    assert_eq!(s.by_variant[0].overhead_delta_vs_payload_only, 270 - 150);
    assert_eq!(s.by_variant[1].overhead_delta_vs_payload_only, 0);
    let keys: Vec<&str> = s.by_dataset.iter().map(|g| g.key.as_str()).collect();
    assert_eq!(keys, vec!["mixed", "smallfiles"]);
    assert_eq!(s.by_corruption_target[1].key, "tail");
    assert_eq!(s.by_corruption_target[1].cells[0].archive_byte_size, 90);
    assert_eq!(s.by_corruption_target[1].cells[1].scenario_count, 1);

    let full = outcome_deltas(&s, 0, "FULL_FILE_SALVAGE_AVAILABLE");
    assert_eq!(full, vec![0, -2]);
    let named = named_deltas(&s, 1);
    assert_eq!(named, vec![2, 0]);

    let md = render_variant_markdown("Format-10 metadata pruning comparison", &s, None);
    assert!(md.starts_with("# Format-10 metadata pruning comparison\n\nScenarios: 4\n\n## Variant summary\n\n"));
    assert!(md.contains("| full_current_experimental | 2 | 2 | 1 | 0 | 0 | 0 | 0 | 270 | 100 | 120 |\n"));
    assert!(md.contains("| payload_only | 2 | 0 | 0 | 0 | 0 | 1 | 0 | 150 | 15 | 0 |\n"));
    let md11 = render_variant_markdown("T", &s, Some(&named));
    assert!(md11.contains("| payload_only | 2 | 0 | 0 | 0 | 0 | 1 | 0 | 150 | 15 | 0 | 0 |\n"));
    assert!(md11.contains("named_delta_vs_payload_plus_manifest |\n|---|---:|---:|---:|---:|---:|---:|---:|---:|---:|---:|---:|\n"));
}

#[test]
fn path_buckets_and_overheads_between_variants() {
    let rs = rows();
    let variants = vec!["full_current_experimental", "payload_only"];
    let gs = breakdown(&rs, RowField::PathLengthBucket, &variants, false);
    let keys: Vec<&str> = gs.iter().map(|g| g.key.as_str()).collect();
    assert_eq!(keys, vec!["long_path", "short_path"]);
    assert_eq!(gs[0].cells[0].archive_byte_size, 180);
    assert_eq!(path_length_bucket_of("mixed"), "long_path");
    assert_eq!(path_length_bucket_of("largefiles"), "short_path");
    let s = summarize_variant_comparison(&rs, &variants, false);
    assert_eq!(overhead_deltas(&s, 1), vec![120, 0]);
    assert_eq!(overhead_deltas(&s, 0), vec![0, -120]);
}
