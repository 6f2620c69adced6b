use crushr::lab::format09::{metadata_recovery_gains, summarize_format09, Format09Row};

fn row(strategy: &str, regime: &str, target: &str, damage: &str, class: &str, manifest: u64, path: u64) -> Format09Row {
    Format09Row {
        strategy: strategy.to_string(),
        scenario_id: format!("{regime}_{target}_{damage}"),
        dataset: "smallfiles".to_string(),
        metadata_regime: regime.to_string(),
        metadata_target: target.to_string(),
        metadata_operation: "byte_flip".to_string(),
        payload_damage: damage.to_string(),
        recovery_class: class.to_string(),
        manifest_checkpoint_survival_count: manifest,
        path_checkpoint_survival_count: path,
    }
}

fn sample() -> Vec<Format09Row> {
    vec![
        row("fixed", "metadata_intact", "manifest", "none", "full_named", 2, 3),
        row("fixed", "metadata_destroyed", "manifest", "none", "full_anonymous", 0, 0),
        row("fixed", "metadata_partial", "manifest", "none", "full_anonymous", 1, 0),
        row("hash", "metadata_intact", "manifest", "none", "full_named", 4, 1),
        row("fixed", "metadata_conflicting", "path", "none", "orphan", 0, 2),
    ]
}

#[test]
fn gains_compare_with_the_destroyed_run_of_the_cell() {
    let gains = metadata_recovery_gains(&sample());
    assert_eq!(gains, vec!["full_anonymous->full_named", "baseline", "unchanged", "unknown", "unknown"]);
}

#[test]
fn the_last_destroyed_run_is_the_baseline() {
    let mut rows = sample();
    rows.push(row("fixed", "metadata_destroyed", "manifest", "none", "orphan", 0, 0));
    let gains = metadata_recovery_gains(&rows);
    assert_eq!(gains[0], "orphan->full_named");
    assert_eq!(gains[2], "orphan->full_anonymous");
}

#[test]
fn summary_tallies_all_rows_and_each_strategy() {
    let s = summarize_format09(&sample(), &vec!["fixed", "hash", "golden"]);
    assert_eq!(s.overall.scenario_count, 5);
    assert_eq!(
        s.overall.recovery_class_distribution,
        vec![("full_anonymous".to_string(), 2), ("full_named".to_string(), 2), ("orphan".to_string(), 1)]
    );
    assert_eq!(s.overall.metadata_survival.manifest_checkpoint_survival_count, 7);
    assert_eq!(s.overall.metadata_survival.path_checkpoint_survival_count, 6);
    assert_eq!(s.overall.metadata_survival.verified_metadata_node_count, 13);
    assert_eq!(s.by_strategy[0].scenario_count, 4);
    assert_eq!(s.by_strategy[1].scenario_count, 1);
    assert_eq!(s.by_strategy[2].scenario_count, 0);
    assert_eq!(s.by_strategy[1].metadata_recovery_gain_distribution, vec![("unknown".to_string(), 1)]);
    assert_eq!(
        s.by_strategy[0].metadata_recovery_gain_distribution,
        vec![
            ("baseline".to_string(), 1),
            ("full_anonymous->full_named".to_string(), 1),
            ("unchanged".to_string(), 1),
            ("unknown".to_string(), 1)
        ]
    );
}
