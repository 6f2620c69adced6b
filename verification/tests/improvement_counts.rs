use crushr::lab::groups::ScenarioRow;
use crushr::lab::outcome::OutcomeMetrics;
use crushr::lab::transitions::{count_transitions, improvement_counts};

fn arm(outcome: &str) -> OutcomeMetrics {
    OutcomeMetrics {
        outcome: outcome.to_string(),
        verified_block_count: 0,
        salvageable_file_count: 0,
        exported_full_file_count: 0,
    }
}

fn row(id: &str, outcomes: [&str; 3]) -> ScenarioRow {
    ScenarioRow {
        scenario_id: id.to_string(),
        dataset: "smallfiles".to_string(),
        corruption_model: "byte_flip".to_string(),
        corruption_target: "index".to_string(),
        magnitude: "small".to_string(),
        seed: 1,
        arms: outcomes.iter().map(|o| arm(o)).collect(),
        improvement_class: "unchanged".to_string(),
    }
}

fn sample() -> Vec<ScenarioRow> {
    vec![
        row("a", ["ORPHAN_EVIDENCE_ONLY", "ORPHAN_EVIDENCE_ONLY", "PARTIAL_FILE_SALVAGE"]),
        row("b", ["NO_VERIFIED_EVIDENCE", "PARTIAL_FILE_SALVAGE", "FULL_FILE_SALVAGE_AVAILABLE"]),
        row("c", ["ORPHAN_EVIDENCE_ONLY", "FULL_FILE_SALVAGE_AVAILABLE", "FULL_FILE_SALVAGE_AVAILABLE"]),
        row("d", ["PARTIAL_FILE_SALVAGE", "PARTIAL_FILE_SALVAGE", "FULL_FILE_SALVAGE_AVAILABLE"]),
        row("e", ["NO_VERIFIED_EVIDENCE", "NO_VERIFIED_EVIDENCE", "PARTIAL_FILE_SALVAGE"]),
    ]
}

#[test]
fn improvements_over_the_old_layout() {
    let c = improvement_counts(&sample(), 0, 2);
    assert_eq!(c.orphan_to_salvage, 4);
    assert_eq!(c.orphan_to_partial, 1);
    assert_eq!(c.orphan_to_full, 1);
    assert_eq!(c.no_evidence_to_partial, 1);
    assert_eq!(c.no_evidence_to_full, 1);
}

#[test]
fn improvements_over_the_redundant_map() {
    let rows = sample();
    assert_eq!(count_transitions(&rows, 1, 2, 0), 2);
    assert_eq!(count_transitions(&rows, 2, 1, 0), 0);
}
