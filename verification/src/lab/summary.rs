//! Whole-run summaries of a comparison: rows in scenario order, outcome
//! tallies per variant, transition counts and totals.
use vstd::prelude::*;
use vstd::string::*;
use crate::text::{chars_lt, chars_le, str_lt, str_equals, lemma_chars_lt_total, lemma_chars_lt_asymmetric};
use super::outcome::{OutcomeMetrics, spec_outcome_rank, outcome_rank};
use super::classes::{count_outcomes, is_count_table};
use super::groups::{ScenarioRow, ComparisonGroup, RowKey, rows_have_arms, total_weight, arm_delta, arm_outcomes, metric, is_row_grouping, group_comparison_rows};

verus! {

/// `x` placed after the last row whose scenario id is at most its id.
pub open spec fn insert_by_id(s: Seq<ScenarioRow>, x: ScenarioRow) -> Seq<ScenarioRow>
    decreases s.len(),
{
    if s.len() == 0 {
        seq![x]
    } else if chars_le(s.last().scenario_id@, x.scenario_id@) {
        s.push(x)
    } else {
        insert_by_id(s.drop_last(), x).push(s.last())
    }
}

/// The rows stably sorted by scenario id (what `sort_by` on the id yields).
pub open spec fn sorted_by_id(s: Seq<ScenarioRow>) -> Seq<ScenarioRow>
    decreases s.len(),
{
    if s.len() == 0 {
        seq![]
    } else {
        insert_by_id(sorted_by_id(s.drop_last()), s.last())
    }
}

proof fn lemma_insert_by_id_at(s: Seq<ScenarioRow>, x: ScenarioRow, j: int)
    requires
        0 <= j <= s.len(),
        forall|k: int| j <= k < s.len() ==> chars_lt(x.scenario_id@, (#[trigger] s[k]).scenario_id@),
        j == 0 || chars_le(s[j - 1].scenario_id@, x.scenario_id@),
    ensures
        insert_by_id(s, x) == s.insert(j, x),
    decreases s.len(),
{
    if j == s.len() {
        assert(s.push(x) =~= s.insert(j, x));
        if s.len() == 0 {
            assert(seq![x] =~= s.insert(j, x));
        }
    } else {
        let last = s[s.len() - 1];
        assert(chars_lt(x.scenario_id@, last.scenario_id@));
        lemma_chars_lt_asymmetric(x.scenario_id@, last.scenario_id@);
        crate::text::lemma_chars_lt_irreflexive(x.scenario_id@);
        assert(!chars_le(last.scenario_id@, x.scenario_id@));
        lemma_insert_by_id_at(s.drop_last(), x, j);
        assert(s.drop_last().insert(j, x).push(s.last()) =~= s.insert(j, x));
    }
}

/// Sorts rows by scenario id, keeping the order of rows with equal ids.
pub fn sort_rows_by_scenario_id(rows: Vec<ScenarioRow>) -> (out: Vec<ScenarioRow>)
    ensures
        out@ == sorted_by_id(rows@),
{
    let ghost all = rows@;
    let mut rest = rows;
    let mut out: Vec<ScenarioRow> = Vec::new();
    let ghost mut i: int = 0;
    while rest.len() > 0
        invariant
            0 <= i <= all.len(),
            rest@ == all.subrange(i, all.len() as int),
            out@ == sorted_by_id(all.take(i)),
        decreases rest.len(),
    {
        let ghost old_rest = rest@;
        let x = rest.remove(0);
        proof {
            assert(x == all[i]);
        }
        let mut j = out.len();
        while j > 0 && str_lt(x.scenario_id.as_str(), out[j - 1].scenario_id.as_str())
            invariant
                j <= out@.len(),
                forall|k: int| j <= k < out@.len() ==> chars_lt(x.scenario_id@, (#[trigger] out@[k]).scenario_id@),
            decreases j,
        {
            j = j - 1;
        }
        proof {
            if j > 0 {
                lemma_chars_lt_total(out@[j - 1].scenario_id@, x.scenario_id@);
            }
            lemma_insert_by_id_at(out@, x, j as int);
            assert(all.take(i + 1).drop_last() =~= all.take(i));
            assert(all.take(i + 1).last() == x);
        }
        out.insert(j, x);
        proof {
            i = i + 1;
            assert(rest@ =~= all.subrange(i, all.len() as int));
        }
    }
    proof {
        assert(all.take(i) =~= all);
    }
    out
}

/// What a comparison run adds up to over its rows.
pub struct ComparisonTotals {
    pub scenario_count: usize,
    pub outcome_counts: Vec<Vec<(String, u64)>>,
    pub total_verified_block_delta: i64,
    pub total_salvageable_file_delta: i64,
    pub total_exported_full_file_delta: i64,
    pub by_dataset: Vec<ComparisonGroup>,
    pub by_corruption_target: Vec<ComparisonGroup>,
    pub by_corruption_model: Vec<ComparisonGroup>,
    pub by_magnitude: Vec<ComparisonGroup>,
    pub per_scenario_rows: Vec<ScenarioRow>,
}

proof fn lemma_delta_within_weight(rs: Seq<ScenarioRow>, cand: int, m: int)
    requires
        0 <= m < 3,
    ensures
        -total_weight(rs, cand) <= arm_delta(rs, cand, m) <= total_weight(rs, cand),
        total_weight(rs, cand) >= 0,
    decreases rs.len(),
{
    if rs.len() > 0 {
        lemma_delta_within_weight(rs.drop_last(), cand, m);
    }
}

proof fn lemma_weight_prefix(rs: Seq<ScenarioRow>, j: int, cand: int)
    requires
        0 <= j <= rs.len(),
    ensures
        total_weight(rs.take(j), cand) <= total_weight(rs, cand),
    decreases rs.len(),
{
    if j < rs.len() {
        assert(rs.drop_last().take(j) =~= rs.take(j));
        lemma_weight_prefix(rs.drop_last(), j, cand);
        lemma_delta_within_weight(rs.drop_last(), cand, 0);
    } else {
        assert(rs.take(j) =~= rs);
    }
}

/// The total by which variant `cand` moved from the baseline on metric `m`.
fn total_delta(rows: &Vec<ScenarioRow>, arms: usize, cand: usize, m: usize) -> (r: i64)
    requires
        0 < cand < arms,
        m < 3,
        rows_have_arms(rows@, arms as int),
        total_weight(rows@, cand as int) <= i64::MAX,
    ensures
        r == arm_delta(rows@, cand as int, m as int),
{
    let mut acc: i64 = 0;
    let mut j: usize = 0;
    while j < rows.len()
        invariant
            j <= rows@.len(),
            0 < cand < arms,
            m < 3,
            rows_have_arms(rows@, arms as int),
            total_weight(rows@, cand as int) <= i64::MAX,
            acc == arm_delta(rows@.take(j as int), cand as int, m as int),
        decreases rows.len() - j,
    {
        proof {
            assert(rows@.take(j + 1).drop_last() =~= rows@.take(j as int));
            assert(rows@.take(j + 1).last() == rows@[j as int]);
            assert(rows@[j as int].arms@.len() == arms);
            lemma_weight_prefix(rows@, j + 1, cand as int);
            lemma_delta_within_weight(rows@.take(j + 1), cand as int, m as int);
            lemma_delta_within_weight(rows@.take(j as int), cand as int, m as int);
        }
        let base = &rows[j].arms[0];
        let c = &rows[j].arms[cand];
        let (bv, cv) = if m == 0 {
            (base.verified_block_count, c.verified_block_count)
        } else if m == 1 {
            (base.salvageable_file_count, c.salvageable_file_count)
        } else {
            (base.exported_full_file_count, c.exported_full_file_count)
        };
        acc = acc + (cv as i64 - bv as i64);
        j = j + 1;
    }
    proof {
        assert(rows@.take(rows@.len() as int) =~= rows@);
    }
    acc
}

fn arm_labels(rows: &Vec<ScenarioRow>, a: usize, Ghost(arms): Ghost<int>) -> (labels: Vec<String>)
    requires
        a < arms,
        rows_have_arms(rows@, arms),
    ensures
        labels@.map_values(|s: String| s@) == arm_outcomes(rows@, a as int),
{
    let mut labels: Vec<String> = Vec::new();
    let mut j: usize = 0;
    while j < rows.len()
        invariant
            j <= rows@.len(),
            a < arms,
            rows_have_arms(rows@, arms),
            labels@.map_values(|s: String| s@) == arm_outcomes(rows@.take(j as int), a as int),
        decreases rows.len() - j,
    {
        proof {
            assert(rows@[j as int].arms@.len() == arms);
        }
        let ghost old_labels = labels@;
        labels.push(rows[j].arms[a].outcome.clone());
        proof {
            assert(labels@.map_values(|s: String| s@) =~= old_labels.map_values(|s: String| s@).push(rows@[j as int].arms@[a as int].outcome@));
            assert(arm_outcomes(rows@.take(j + 1), a as int) =~= arm_outcomes(rows@.take(j as int), a as int).push(rows@[j as int].arms@[a as int].outcome@));
        }
        j = j + 1;
    }
    proof {
        assert(rows@.take(rows@.len() as int) =~= rows@);
    }
    labels
}

proof fn lemma_sorted_preserves(s: Seq<ScenarioRow>, arms: int, cand: int)
    requires
        rows_have_arms(s, arms),
    ensures
        rows_have_arms(sorted_by_id(s), arms),
        sorted_by_id(s).len() == s.len(),
        total_weight(sorted_by_id(s), cand) == total_weight(s, cand),
    decreases s.len(),
{
    if s.len() > 0 {
        lemma_sorted_preserves(s.drop_last(), arms, cand);
        lemma_insert_preserves(sorted_by_id(s.drop_last()), s.last(), arms, cand);
    }
}

proof fn lemma_insert_preserves(s: Seq<ScenarioRow>, x: ScenarioRow, arms: int, cand: int)
    requires
        rows_have_arms(s, arms),
        x.arms@.len() == arms,
    ensures
        rows_have_arms(insert_by_id(s, x), arms),
        insert_by_id(s, x).len() == s.len() + 1,
        total_weight(insert_by_id(s, x), cand) == total_weight(s, cand) + crate::lab::groups::row_weight(x, cand),
    decreases s.len(),
{
    if s.len() > 0 && !chars_le(s.last().scenario_id@, x.scenario_id@) {
        lemma_insert_preserves(s.drop_last(), x, arms, cand);
        let r = insert_by_id(s.drop_last(), x);
        assert(r.push(s.last()).drop_last() =~= r);
    } else if s.len() > 0 {
        assert(s.push(x).drop_last() =~= s);
    } else {
        assert(seq![x].drop_last() =~= s);
    }
}

/// Sorts the rows by scenario id and adds them up: outcome tallies of
/// each of the `arms` variants, the totals by which variant `cand` moved
/// from the baseline, and the rows grouped by each scenario attribute.
pub fn summarize_comparison(rows: Vec<ScenarioRow>, arms: usize, cand: usize) -> (t: ComparisonTotals)
    requires
        0 < cand < arms,
        rows_have_arms(rows@, arms as int),
        total_weight(rows@, cand as int) <= i64::MAX,
    ensures
        t.per_scenario_rows@ == sorted_by_id(rows@),
        t.scenario_count == rows@.len(),
        t.outcome_counts@.len() == arms,
        forall|a: int| 0 <= a < arms ==> is_count_table(#[trigger] t.outcome_counts@[a]@, arm_outcomes(t.per_scenario_rows@, a)),
        t.total_verified_block_delta == arm_delta(t.per_scenario_rows@, cand as int, 0),
        t.total_salvageable_file_delta == arm_delta(t.per_scenario_rows@, cand as int, 1),
        t.total_exported_full_file_delta == arm_delta(t.per_scenario_rows@, cand as int, 2),
        is_row_grouping(t.by_dataset@, t.per_scenario_rows@, RowKey::Dataset, arms as int, cand as int),
        is_row_grouping(t.by_corruption_target@, t.per_scenario_rows@, RowKey::CorruptionTarget, arms as int, cand as int),
        is_row_grouping(t.by_corruption_model@, t.per_scenario_rows@, RowKey::CorruptionModel, arms as int, cand as int),
        is_row_grouping(t.by_magnitude@, t.per_scenario_rows@, RowKey::Magnitude, arms as int, cand as int),
{
    proof {
        lemma_sorted_preserves(rows@, arms as int, cand as int);
    }
    let sorted = sort_rows_by_scenario_id(rows);
    let mut outcome_counts: Vec<Vec<(String, u64)>> = Vec::new();
    let mut a: usize = 0;
    while a < arms
        invariant
            a <= arms,
            rows_have_arms(sorted@, arms as int),
            outcome_counts@.len() == a,
            forall|b: int| 0 <= b < a ==> is_count_table(#[trigger] outcome_counts@[b]@, arm_outcomes(sorted@, b)),
        decreases arms - a,
    {
        let labels = arm_labels(&sorted, a, Ghost(arms as int));
        outcome_counts.push(count_outcomes(&labels));
        a = a + 1;
    }
    let total_verified_block_delta = total_delta(&sorted, arms, cand, 0);
    let total_salvageable_file_delta = total_delta(&sorted, arms, cand, 1);
    let total_exported_full_file_delta = total_delta(&sorted, arms, cand, 2);
    let by_dataset = group_comparison_rows(&sorted, RowKey::Dataset, arms, cand);
    let by_corruption_target = group_comparison_rows(&sorted, RowKey::CorruptionTarget, arms, cand);
    let by_corruption_model = group_comparison_rows(&sorted, RowKey::CorruptionModel, arms, cand);
    let by_magnitude = group_comparison_rows(&sorted, RowKey::Magnitude, arms, cand);
    ComparisonTotals {
        scenario_count: sorted.len(),
        outcome_counts,
        total_verified_block_delta,
        total_salvageable_file_delta,
        total_exported_full_file_delta,
        by_dataset,
        by_corruption_target,
        by_corruption_model,
        by_magnitude,
        per_scenario_rows: sorted,
    }
}

/// The number of rows that satisfy a predicate.
pub open spec fn count_rows_where(rs: Seq<ScenarioRow>, p: spec_fn(ScenarioRow) -> bool) -> nat
    decreases rs.len(),
{
    if rs.len() == 0 {
        0
    } else {
        count_rows_where(rs.drop_last(), p) + if p(rs.last()) { 1nat } else { 0nat }
    }
}

/// The row went from outcome `from` on variant `a` to outcome `to` on variant `b`.
pub open spec fn is_transition(r: ScenarioRow, a: int, from: Seq<char>, b: int, to: Seq<char>) -> bool {
    r.arms@[a].outcome@ == from && r.arms@[b].outcome@ == to
}

/// Counts the rows that went from outcome `from` on variant `a` to
/// outcome `to` on variant `b`.
pub fn count_transitions(rows: &Vec<ScenarioRow>, a: usize, from: &str, b: usize, to: &str) -> (n: u64)
    requires
        forall|i: int| 0 <= i < rows@.len() ==> a < (#[trigger] rows@[i]).arms@.len() && b < rows@[i].arms@.len(),
    ensures
        n == count_rows_where(rows@, |r: ScenarioRow| is_transition(r, a as int, from@, b as int, to@)),
{
    let ghost p = |r: ScenarioRow| is_transition(r, a as int, from@, b as int, to@);
    let mut n: u64 = 0;
    let mut j: usize = 0;
    while j < rows.len()
        invariant
            j <= rows@.len(),
            forall|i: int| 0 <= i < rows@.len() ==> a < (#[trigger] rows@[i]).arms@.len() && b < rows@[i].arms@.len(),
            p == (|r: ScenarioRow| is_transition(r, a as int, from@, b as int, to@)),
            n == count_rows_where(rows@.take(j as int), p),
            n <= j,
        decreases rows.len() - j,
    {
        proof {
            assert(rows@.take(j + 1).drop_last() =~= rows@.take(j as int));
            assert(rows@.take(j + 1).last() == rows@[j as int]);
            assert(a < rows@[j as int].arms@.len() && b < rows@[j as int].arms@.len());
        }
        if str_equals(rows[j].arms[a].outcome.as_str(), from) && str_equals(rows[j].arms[b].outcome.as_str(), to) {
            n = n + 1;
        }
        j = j + 1;
    }
    proof {
        assert(rows@.take(rows@.len() as int) =~= rows@);
    }
    n
}

/// The row rose from orphan evidence or less on variant `a` to some file
/// salvage on variant `b`.
pub open spec fn is_salvage_rise(r: ScenarioRow, a: int, b: int) -> bool {
    spec_outcome_rank(r.arms@[a].outcome@) <= 1 && spec_outcome_rank(r.arms@[b].outcome@) >= 2
}

/// Counts the rows that rose from orphan evidence or less on variant `a`
/// to some file salvage on variant `b`.
pub fn count_salvage_rises(rows: &Vec<ScenarioRow>, a: usize, b: usize) -> (n: u64)
    requires
        forall|i: int| 0 <= i < rows@.len() ==> a < (#[trigger] rows@[i]).arms@.len() && b < rows@[i].arms@.len(),
    ensures
        n == count_rows_where(rows@, |r: ScenarioRow| is_salvage_rise(r, a as int, b as int)),
{
    let ghost p = |r: ScenarioRow| is_salvage_rise(r, a as int, b as int);
    let mut n: u64 = 0;
    let mut j: usize = 0;
    while j < rows.len()
        invariant
            j <= rows@.len(),
            forall|i: int| 0 <= i < rows@.len() ==> a < (#[trigger] rows@[i]).arms@.len() && b < rows@[i].arms@.len(),
            p == (|r: ScenarioRow| is_salvage_rise(r, a as int, b as int)),
            n == count_rows_where(rows@.take(j as int), p),
            n <= j,
        decreases rows.len() - j,
    {
        proof {
            assert(rows@.take(j + 1).drop_last() =~= rows@.take(j as int));
            assert(rows@.take(j + 1).last() == rows@[j as int]);
            assert(a < rows@[j as int].arms@.len() && b < rows@[j as int].arms@.len());
        }
        if outcome_rank(rows[j].arms[a].outcome.as_str()) <= 1 && outcome_rank(rows[j].arms[b].outcome.as_str()) >= 2 {
            n = n + 1;
        }
        j = j + 1;
    }
    proof {
        assert(rows@.take(rows@.len() as int) =~= rows@);
    }
    n
}

/// The row's improvement class is one of the two given labels.
pub open spec fn has_class(r: ScenarioRow, c1: Seq<char>, c2: Seq<char>) -> bool {
    r.improvement_class@ == c1 || r.improvement_class@ == c2
}

/// Counts the rows whose improvement class is either label.
pub fn count_improvement_classes(rows: &Vec<ScenarioRow>, c1: &str, c2: &str) -> (n: u64)
    ensures
        n == count_rows_where(rows@, |r: ScenarioRow| has_class(r, c1@, c2@)),
{
    let ghost p = |r: ScenarioRow| has_class(r, c1@, c2@);
    let mut n: u64 = 0;
    let mut j: usize = 0;
    while j < rows.len()
        invariant
            j <= rows@.len(),
            p == (|r: ScenarioRow| has_class(r, c1@, c2@)),
            n == count_rows_where(rows@.take(j as int), p),
            n <= j,
        decreases rows.len() - j,
    {
        proof {
            assert(rows@.take(j + 1).drop_last() =~= rows@.take(j as int));
            assert(rows@.take(j + 1).last() == rows@[j as int]);
        }
        let c = rows[j].improvement_class.as_str();
        if str_equals(c, c1) || str_equals(c, c2) {
            n = n + 1;
        }
        j = j + 1;
    }
    proof {
        assert(rows@.take(rows@.len() as int) =~= rows@);
    }
    n
}

} // verus!
