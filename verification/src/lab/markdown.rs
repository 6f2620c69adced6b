//! The Markdown report of the redundant-map comparison.
use vstd::prelude::*;
use vstd::string::*;
use crate::text::{push_str, str_equals, str_starts_with, u64_to_decimal, i64_to_decimal, decimal, signed_decimal};
use super::groups::{ScenarioRow, ComparisonGroup, RowKey, rows_have_arms, total_weight, arm_delta, arm_outcomes, is_row_grouping};
use super::summary::{summarize_comparison, sorted_by_id, count_rows_where, has_class, count_improvement_classes};
use super::classes::is_count_table;
use super::outcome::{OutcomeMetrics, classify_improvement, spec_classify_improvement};
use super::scenarios::ComparisonScenario;

verus! {

/// The summary of a redundant-map comparison run.
pub struct ComparisonSummary {
    pub schema_version: String,
    pub tool: String,
    pub tool_version: String,
    pub verification_label: String,
    pub scenario_count: usize,
    pub old_archive_count: usize,
    pub new_archive_count: usize,
    pub old_outcome_counts: Vec<(String, u64)>,
    pub new_outcome_counts: Vec<(String, u64)>,
    pub orphan_to_salvage_improvements: u64,
    pub no_evidence_to_salvage_improvements: u64,
    pub unchanged_outcome_count: u64,
    pub degraded_outcome_count: u64,
    pub total_verified_block_delta: i64,
    pub total_salvageable_file_delta: i64,
    pub total_exported_full_file_delta: i64,
    pub by_dataset: Vec<ComparisonGroup>,
    pub by_corruption_target: Vec<ComparisonGroup>,
    pub by_corruption_model: Vec<ComparisonGroup>,
    pub by_magnitude: Vec<ComparisonGroup>,
    pub per_scenario_rows: Vec<ScenarioRow>,
}

/// One line per tally entry: `  - label: count`.
pub open spec fn count_lines(es: Seq<(String, u64)>) -> Seq<char>
    decreases es.len(),
{
    if es.len() == 0 {
        seq![]
    } else {
        count_lines(es.drop_last()) + "  - "@ + es.last().0@ + ": "@ + decimal(es.last().1 as nat) + "\n"@
    }
}

/// The line of a group: its key, scenario count and two of its totals.
pub open spec fn group_line(g: ComparisonGroup) -> Seq<char> {
    "- `"@ + g.key@ + "`: scenarios="@ + decimal(g.scenario_count as nat) + ", Δverified="@
        + signed_decimal(g.verified_block_delta as int) + ", Δsalvageable="@
        + signed_decimal(g.salvageable_file_delta as int) + "\n"@
}

/// One line per group.
pub open spec fn group_lines(gs: Seq<ComparisonGroup>) -> Seq<char>
    decreases gs.len(),
{
    if gs.len() == 0 {
        seq![]
    } else {
        group_lines(gs.drop_last()) + group_line(gs.last())
    }
}

/// The line of a scenario: id, old and new outcome, improvement class.
pub open spec fn row_line(r: ScenarioRow) -> Seq<char> {
    "- `"@ + r.scenario_id@ + "`: "@ + r.arms@[0].outcome@ + " → "@ + r.arms@[1].outcome@ + " ("@
        + r.improvement_class@ + ")\n"@
}

/// The improvement class of a row names an improvement.
pub open spec fn is_improved_row(r: ScenarioRow) -> bool {
    "IMPROVED"@.len() <= r.improvement_class@.len() && r.improvement_class@.subrange(0, "IMPROVED"@.len() as int)
        == "IMPROVED"@
}

/// The outcome of a row did not improve.
pub open spec fn is_flat_row(r: ScenarioRow) -> bool {
    r.improvement_class@ == "UNCHANGED"@ || r.improvement_class@ == "DEGRADED"@
}

/// The lines of the first `limit` rows that pass `improved` (or, when it
/// is false, that did not improve).
pub open spec fn selected_lines(rs: Seq<ScenarioRow>, improved: bool, limit: nat) -> Seq<char>
    decreases rs.len(),
{
    if rs.len() == 0 || limit == 0 {
        seq![]
    } else if (if improved { is_improved_row(rs[0]) } else { is_flat_row(rs[0]) }) {
        row_line(rs[0]) + selected_lines(rs.drop_first(), improved, (limit - 1) as nat)
    } else {
        selected_lines(rs.drop_first(), improved, limit)
    }
}

/// The whole report.
pub open spec fn comparison_markdown(s: ComparisonSummary) -> Seq<char> {
    "# Redundant Map Salvage Comparison\n\n"@
        + "Purpose: targeted deterministic before/after comparison of old-style (no redundant map) and new-style (redundant map) archives.\n\n"@
        + "Strict boundary reminder: research-only salvage outputs; canonical extraction semantics remain unchanged.\n\n"@
        + "- Scenario count: `"@ + decimal(s.scenario_count as nat) + "`\n"@
        + "- Old archive count: `"@ + decimal(s.old_archive_count as nat) + "`\n"@
        + "- New archive count: `"@ + decimal(s.new_archive_count as nat) + "`\n"@
        + "- Orphan→salvage improvements: `"@ + decimal(s.orphan_to_salvage_improvements as nat) + "`\n"@
        + "- No-evidence→salvage improvements: `"@ + decimal(s.no_evidence_to_salvage_improvements as nat) + "`\n\n"@
        + "## Outcome totals\n\n"@
        + "- Old:\n"@ + count_lines(s.old_outcome_counts@)
        + "- New:\n"@ + count_lines(s.new_outcome_counts@)
        + "\n## Grouped by dataset\n\n"@ + group_lines(s.by_dataset@)
        + "\n## Grouped by corruption target\n\n"@ + group_lines(s.by_corruption_target@)
        + "\n## Most improved scenarios\n\n"@ + selected_lines(s.per_scenario_rows@, true, 5)
        + "\n## No improvement / degraded scenarios\n\n"@ + selected_lines(s.per_scenario_rows@, false, 8)
}

fn push_count_lines(md: &mut String, es: &Vec<(String, u64)>)
    ensures
        final(md)@ == old(md)@ + count_lines(es@),
{
    let ghost start = md@;
    let mut i: usize = 0;
    proof {
        assert(es@.take(0) =~= Seq::<(String, u64)>::empty());
        assert(start + count_lines(es@.take(0)) =~= start);
    }
    while i < es.len()
        invariant
            i <= es@.len(),
            md@ == start + count_lines(es@.take(i as int)),
        decreases es.len() - i,
    {
        push_str(md, "  - ");
        push_str(md, es[i].0.as_str());
        push_str(md, ": ");
        let n = u64_to_decimal(es[i].1);
        push_str(md, n.as_str());
        push_str(md, "\n");
        proof {
            assert(es@.take(i + 1).drop_last() =~= es@.take(i as int));
            assert(es@.take(i + 1).last() == es@[i as int]);
            assert(md@ =~= start + count_lines(es@.take(i + 1)));
        }
        i = i + 1;
    }
    proof {
        assert(es@.take(es@.len() as int) =~= es@);
    }
}

fn push_group_lines(md: &mut String, gs: &Vec<ComparisonGroup>)
    ensures
        final(md)@ == old(md)@ + group_lines(gs@),
{
    let ghost start = md@;
    let mut i: usize = 0;
    proof {
        assert(gs@.take(0) =~= Seq::<ComparisonGroup>::empty());
        assert(start + group_lines(gs@.take(0)) =~= start);
    }
    while i < gs.len()
        invariant
            i <= gs@.len(),
            md@ == start + group_lines(gs@.take(i as int)),
        decreases gs.len() - i,
    {
        let g = &gs[i];
        push_str(md, "- `");
        push_str(md, g.key.as_str());
        push_str(md, "`: scenarios=");
        let c = u64_to_decimal(g.scenario_count as u64);
        push_str(md, c.as_str());
        push_str(md, ", Δverified=");
        let v = i64_to_decimal(g.verified_block_delta);
        push_str(md, v.as_str());
        push_str(md, ", Δsalvageable=");
        let sv = i64_to_decimal(g.salvageable_file_delta);
        push_str(md, sv.as_str());
        push_str(md, "\n");
        proof {
            assert(gs@.take(i + 1).drop_last() =~= gs@.take(i as int));
            assert(gs@.take(i + 1).last() == gs@[i as int]);
            assert(md@ =~= start + group_lines(gs@.take(i + 1)));
        }
        i = i + 1;
    }
    proof {
        assert(gs@.take(gs@.len() as int) =~= gs@);
    }
}

fn push_selected_lines(md: &mut String, rows: &Vec<ScenarioRow>, improved: bool, limit: usize)
    requires
        forall|i: int| 0 <= i < rows@.len() ==> (#[trigger] rows@[i]).arms@.len() >= 2,
    ensures
        final(md)@ == old(md)@ + selected_lines(rows@, improved, limit as nat),
{
    let ghost start = md@;
    let mut i: usize = 0;
    let mut left = limit;
    proof {
        assert(rows@.skip(0) =~= rows@);
        assert(start + seq![] =~= start);
    }
    while i < rows.len() && left > 0
        invariant
            i <= rows@.len(),
            left <= limit,
            forall|q: int| 0 <= q < rows@.len() ==> (#[trigger] rows@[q]).arms@.len() >= 2,
            start + selected_lines(rows@, improved, limit as nat) == md@ + selected_lines(rows@.skip(i as int), improved, left as nat),
        decreases rows.len() - i,
    {
        let r = &rows[i];
        let ghost rest = rows@.skip(i as int);
        proof {
            assert(rest[0] == rows@[i as int]);
            assert(rest.drop_first() =~= rows@.skip(i + 1));
            assert(rows@[i as int].arms@.len() >= 2);
        }
        let class = r.improvement_class.as_str();
        let hit = if improved {
            str_starts_with(class, "IMPROVED")
        } else {
            str_equals(class, "UNCHANGED") || str_equals(class, "DEGRADED")
        };
        if hit {
            let ghost before = md@;
            push_str(md, "- `");
            push_str(md, r.scenario_id.as_str());
            push_str(md, "`: ");
            push_str(md, r.arms[0].outcome.as_str());
            push_str(md, " → ");
            push_str(md, r.arms[1].outcome.as_str());
            push_str(md, " (");
            push_str(md, class);
            push_str(md, ")\n");
            proof {
                assert(md@ =~= before + row_line(rows@[i as int]));
            }
            left = left - 1;
        }
        i = i + 1;
    }
    proof {
        if i == rows@.len() {
            assert(rows@.skip(i as int).len() == 0);
        }
        assert(md@ + seq![] =~= md@);
    }
}

/// Renders the Markdown report of a redundant-map comparison: headline
/// counts, outcome totals, the groups by dataset and corruption target, the
/// first five improved scenarios and the first eight unchanged or degraded
/// ones.
pub fn render_comparison_markdown(summary: &ComparisonSummary) -> (md: String)
    requires
        forall|i: int| 0 <= i < summary.per_scenario_rows@.len() ==> (#[trigger] summary.per_scenario_rows@[i]).arms@.len() >= 2,
    ensures
        md@ == comparison_markdown(*summary),
{
    let mut md = String::new();
    push_str(&mut md, "# Redundant Map Salvage Comparison\n\n");
    push_str(&mut md, "Purpose: targeted deterministic before/after comparison of old-style (no redundant map) and new-style (redundant map) archives.\n\n");
    push_str(&mut md, "Strict boundary reminder: research-only salvage outputs; canonical extraction semantics remain unchanged.\n\n");
    push_str(&mut md, "- Scenario count: `");
    push_str(&mut md, u64_to_decimal(summary.scenario_count as u64).as_str());
    push_str(&mut md, "`\n");
    push_str(&mut md, "- Old archive count: `");
    push_str(&mut md, u64_to_decimal(summary.old_archive_count as u64).as_str());
    push_str(&mut md, "`\n");
    push_str(&mut md, "- New archive count: `");
    push_str(&mut md, u64_to_decimal(summary.new_archive_count as u64).as_str());
    push_str(&mut md, "`\n");
    push_str(&mut md, "- Orphan→salvage improvements: `");
    push_str(&mut md, u64_to_decimal(summary.orphan_to_salvage_improvements).as_str());
    push_str(&mut md, "`\n");
    push_str(&mut md, "- No-evidence→salvage improvements: `");
    push_str(&mut md, u64_to_decimal(summary.no_evidence_to_salvage_improvements).as_str());
    push_str(&mut md, "`\n\n");
    push_str(&mut md, "## Outcome totals\n\n");
    push_str(&mut md, "- Old:\n");
    push_count_lines(&mut md, &summary.old_outcome_counts);
    push_str(&mut md, "- New:\n");
    push_count_lines(&mut md, &summary.new_outcome_counts);
    push_str(&mut md, "\n## Grouped by dataset\n\n");
    push_group_lines(&mut md, &summary.by_dataset);
    push_str(&mut md, "\n## Grouped by corruption target\n\n");
    push_group_lines(&mut md, &summary.by_corruption_target);
    push_str(&mut md, "\n## Most improved scenarios\n\n");
    push_selected_lines(&mut md, &summary.per_scenario_rows, true, 5);
    push_str(&mut md, "\n## No improvement / degraded scenarios\n\n");
    push_selected_lines(&mut md, &summary.per_scenario_rows, false, 8);
    proof {
        assert(md@ =~= comparison_markdown(*summary));
    }
    md
}


/// The row of one scenario, from the outcome of each archive variant
/// (variant 0 the baseline); the improvement class compares variant `cand`
/// with the baseline.
pub fn scenario_row(scenario: &ComparisonScenario, arms: Vec<OutcomeMetrics>, cand: usize) -> (r: ScenarioRow)
    requires
        0 < cand < arms@.len(),
    ensures
        r.scenario_id@ == scenario.scenario_id@,
        r.dataset@ == scenario.dataset@,
        r.corruption_model@ == scenario.corruption_model@,
        r.corruption_target@ == scenario.corruption_target@,
        r.magnitude@ == scenario.magnitude@,
        r.seed == scenario.seed,
        r.arms@ == arms@,
        r.improvement_class@ == spec_classify_improvement(arms@[0].outcome@, arms@[cand as int].outcome@),
{
    let improvement_class = classify_improvement(arms[0].outcome.as_str(), arms[cand].outcome.as_str());
    ScenarioRow {
        scenario_id: scenario.scenario_id.clone(),
        dataset: String::from_str(scenario.dataset),
        corruption_model: String::from_str(scenario.corruption_model),
        corruption_target: String::from_str(scenario.corruption_target),
        magnitude: String::from_str(scenario.magnitude),
        seed: scenario.seed,
        arms,
        improvement_class,
    }
}

/// Summarizes a redundant-map comparison (old and new variants): rows in
/// scenario order, outcome tallies, improvement counts by class, totals and
/// the four groupings.
pub fn summarize_redundant_map_comparison(
    rows: Vec<ScenarioRow>,
    tool_version: String,
    verification_label: String,
) -> (s: ComparisonSummary)
    requires
        rows_have_arms(rows@, 2),
        total_weight(rows@, 1) <= i64::MAX,
    ensures
        s.schema_version@ == "crushr-lab-salvage-comparison.v1"@,
        s.tool@ == "crushr-lab-salvage"@,
        s.tool_version@ == tool_version@,
        s.verification_label@ == verification_label@,
        s.per_scenario_rows@ == sorted_by_id(rows@),
        s.scenario_count == rows@.len(),
        s.old_archive_count == rows@.len(),
        s.new_archive_count == rows@.len(),
        is_count_table(s.old_outcome_counts@, arm_outcomes(s.per_scenario_rows@, 0)),
        is_count_table(s.new_outcome_counts@, arm_outcomes(s.per_scenario_rows@, 1)),
        s.orphan_to_salvage_improvements == count_rows_where(
            s.per_scenario_rows@,
            |r: ScenarioRow| has_class(r, "IMPROVED_ORPHAN_TO_PARTIAL"@, "IMPROVED_ORPHAN_TO_FULL"@),
        ),
        s.no_evidence_to_salvage_improvements == count_rows_where(
            s.per_scenario_rows@,
            |r: ScenarioRow| has_class(r, "IMPROVED_NONE_TO_PARTIAL"@, "IMPROVED_NONE_TO_FULL"@),
        ),
        s.unchanged_outcome_count == count_rows_where(s.per_scenario_rows@, |r: ScenarioRow| has_class(r, "UNCHANGED"@, "UNCHANGED"@)),
        s.degraded_outcome_count == count_rows_where(s.per_scenario_rows@, |r: ScenarioRow| has_class(r, "DEGRADED"@, "DEGRADED"@)),
        s.total_verified_block_delta == arm_delta(s.per_scenario_rows@, 1, 0),
        s.total_salvageable_file_delta == arm_delta(s.per_scenario_rows@, 1, 1),
        s.total_exported_full_file_delta == arm_delta(s.per_scenario_rows@, 1, 2),
        is_row_grouping(s.by_dataset@, s.per_scenario_rows@, RowKey::Dataset, 2, 1),
        is_row_grouping(s.by_corruption_target@, s.per_scenario_rows@, RowKey::CorruptionTarget, 2, 1),
        is_row_grouping(s.by_corruption_model@, s.per_scenario_rows@, RowKey::CorruptionModel, 2, 1),
        is_row_grouping(s.by_magnitude@, s.per_scenario_rows@, RowKey::Magnitude, 2, 1),
{
    let mut t = summarize_comparison(rows, 2, 1);
    let orphan_to_salvage_improvements = count_improvement_classes(
        &t.per_scenario_rows,
        "IMPROVED_ORPHAN_TO_PARTIAL",
        "IMPROVED_ORPHAN_TO_FULL",
    );
    let no_evidence_to_salvage_improvements = count_improvement_classes(
        &t.per_scenario_rows,
        "IMPROVED_NONE_TO_PARTIAL",
        "IMPROVED_NONE_TO_FULL",
    );
    let unchanged_outcome_count = count_improvement_classes(&t.per_scenario_rows, "UNCHANGED", "UNCHANGED");
    let degraded_outcome_count = count_improvement_classes(&t.per_scenario_rows, "DEGRADED", "DEGRADED");
    let ghost counts = t.outcome_counts@;
    let new_outcome_counts = t.outcome_counts.pop().unwrap();
    let old_outcome_counts = t.outcome_counts.pop().unwrap();
    proof {
        assert(old_outcome_counts == counts[0]);
        assert(new_outcome_counts == counts[1]);
    }
    ComparisonSummary {
        schema_version: String::from_str("crushr-lab-salvage-comparison.v1"),
        tool: String::from_str("crushr-lab-salvage"),
        tool_version,
        verification_label,
        scenario_count: t.scenario_count,
        old_archive_count: t.scenario_count,
        new_archive_count: t.scenario_count,
        old_outcome_counts,
        new_outcome_counts,
        orphan_to_salvage_improvements,
        no_evidence_to_salvage_improvements,
        unchanged_outcome_count,
        degraded_outcome_count,
        total_verified_block_delta: t.total_verified_block_delta,
        total_salvageable_file_delta: t.total_salvageable_file_delta,
        total_exported_full_file_delta: t.total_exported_full_file_delta,
        by_dataset: t.by_dataset,
        by_corruption_target: t.by_corruption_target,
        by_corruption_model: t.by_corruption_model,
        by_magnitude: t.by_magnitude,
        per_scenario_rows: t.per_scenario_rows,
    }
}

} // verus!
