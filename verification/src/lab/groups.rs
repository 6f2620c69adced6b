//! Comparison rows grouped by a scenario attribute: outcome tallies per
//! archive variant and the totals by which the candidate variant moved.
use vstd::prelude::*;
use vstd::string::*;
use crate::salvage::grouping::{group_by_key, is_grouping, keyed_views, group_views, items_with_key};
use super::outcome::OutcomeMetrics;
use super::classes::{count_outcomes, is_count_table};

verus! {

/// One scenario of a comparison, with the outcome of each archive variant
/// (variant 0 is the baseline).
pub struct ScenarioRow {
    pub scenario_id: String,
    pub dataset: String,
    pub corruption_model: String,
    pub corruption_target: String,
    pub magnitude: String,
    pub seed: u64,
    pub arms: Vec<OutcomeMetrics>,
    pub improvement_class: String,
}

/// The scenario attribute rows are grouped by.
#[derive(Clone, Copy, Debug, PartialEq, Eq, Structural)]
pub enum RowKey {
    Dataset,
    CorruptionTarget,
    CorruptionModel,
    Magnitude,
}

/// The rows of one group: tallies of each variant's outcomes, and how far
/// the candidate variant moved from the baseline.
pub struct ComparisonGroup {
    pub key: String,
    pub scenario_count: usize,
    pub outcome_counts: Vec<Vec<(String, u64)>>,
    pub verified_block_delta: i64,
    pub salvageable_file_delta: i64,
    pub exported_full_file_delta: i64,
}

/// The attribute of a row that `k` selects.
pub open spec fn row_key(r: ScenarioRow, k: RowKey) -> Seq<char> {
    match k {
        RowKey::Dataset => r.dataset@,
        RowKey::CorruptionTarget => r.corruption_target@,
        RowKey::CorruptionModel => r.corruption_model@,
        RowKey::Magnitude => r.magnitude@,
    }
}

/// Each row's key with its index.
pub open spec fn keyed_rows(rows: Seq<ScenarioRow>, k: RowKey) -> Seq<(Seq<char>, usize)> {
    Seq::new(rows.len(), |i: int| (row_key(rows[i], k), i as usize))
}

/// The rows whose key is `key`, in order.
pub open spec fn group_rows(rows: Seq<ScenarioRow>, k: RowKey, key: Seq<char>) -> Seq<ScenarioRow> {
    items_with_key(keyed_rows(rows, k), key).map_values(|i: usize| rows[i as int])
}

/// The outcome labels of variant `a` over the rows.
pub open spec fn arm_outcomes(rs: Seq<ScenarioRow>, a: int) -> Seq<Seq<char>> {
    rs.map_values(|r: ScenarioRow| r.arms@[a].outcome@)
}

/// Metric `m` of an outcome: 0 verified blocks, 1 salvageable files, 2 fully exported files.
pub open spec fn metric(o: OutcomeMetrics, m: int) -> u64 {
    if m == 0 {
        o.verified_block_count
    } else if m == 1 {
        o.salvageable_file_count
    } else {
        o.exported_full_file_count
    }
}

/// The sum over the rows of metric `m` of variant `cand` minus that of the baseline.
pub open spec fn arm_delta(rs: Seq<ScenarioRow>, cand: int, m: int) -> int
    decreases rs.len(),
{
    if rs.len() == 0 {
        0
    } else {
        arm_delta(rs.drop_last(), cand, m) + metric(rs.last().arms@[cand], m) - metric(rs.last().arms@[0], m)
    }
}

/// The baseline and candidate metrics of a row, summed.
pub open spec fn row_weight(r: ScenarioRow, cand: int) -> int {
    metric(r.arms@[0], 0) + metric(r.arms@[0], 1) + metric(r.arms@[0], 2) + metric(r.arms@[cand], 0)
        + metric(r.arms@[cand], 1) + metric(r.arms@[cand], 2)
}

/// The weights of the rows, summed.
pub open spec fn total_weight(rs: Seq<ScenarioRow>, cand: int) -> int
    decreases rs.len(),
{
    if rs.len() == 0 {
        0
    } else {
        total_weight(rs.drop_last(), cand) + row_weight(rs.last(), cand)
    }
}

/// Every row has the given number of variants.
pub open spec fn rows_have_arms(rows: Seq<ScenarioRow>, arms: int) -> bool {
    forall|i: int| 0 <= i < rows.len() ==> (#[trigger] rows[i]).arms@.len() == arms
}

/// `g` summarizes the rows whose key is its key.
pub open spec fn group_ok(g: ComparisonGroup, rows: Seq<ScenarioRow>, k: RowKey, arms: int, cand: int) -> bool {
    let rs = group_rows(rows, k, g.key@);
    &&& rs.len() > 0
    &&& g.scenario_count == rs.len()
    &&& g.outcome_counts@.len() == arms
    &&& forall|a: int| 0 <= a < arms ==> is_count_table(#[trigger] g.outcome_counts@[a]@, arm_outcomes(rs, a))
    &&& g.verified_block_delta == arm_delta(rs, cand, 0)
    &&& g.salvageable_file_delta == arm_delta(rs, cand, 1)
    &&& g.exported_full_file_delta == arm_delta(rs, cand, 2)
}

/// `gs` groups the rows by key: keys in ascending order, one group per key
/// that occurs, each summarizing the rows of its key.
pub open spec fn is_row_grouping(gs: Seq<ComparisonGroup>, rows: Seq<ScenarioRow>, k: RowKey, arms: int, cand: int) -> bool {
    &&& forall|a: int, b: int| 0 <= a < b < gs.len() ==> crate::text::chars_lt(#[trigger] gs[a].key@, #[trigger] gs[b].key@)
    &&& forall|i: int| 0 <= i < rows.len() ==> exists|a: int| 0 <= a < gs.len() && #[trigger] gs[a].key@ == row_key(#[trigger] rows[i], k)
    &&& forall|a: int| 0 <= a < gs.len() ==> group_ok(#[trigger] gs[a], rows, k, arms, cand)
}

/// The scenario counts of the first `n` groups, summed.
pub open spec fn group_scenario_total(gs: Seq<ComparisonGroup>, n: int) -> nat
    decreases n,
{
    if n <= 0 {
        0
    } else {
        group_scenario_total(gs, n - 1) + gs[n - 1].scenario_count as nat
    }
}

/// The row indices of each group, keyed as the grouping files them.
spec fn filed_row_indices(gs: Seq<ComparisonGroup>, rows: Seq<ScenarioRow>, k: RowKey) -> Seq<(Seq<char>, Seq<usize>)> {
    gs.map_values(|g: ComparisonGroup| (g.key@, items_with_key(keyed_rows(rows, k), g.key@)))
}

proof fn lemma_group_totals(gs: Seq<ComparisonGroup>, rows: Seq<ScenarioRow>, k: RowKey, arms: int, cand: int, n: int)
    requires
        is_row_grouping(gs, rows, k, arms, cand),
        0 <= n <= gs.len(),
    ensures
        crate::salvage::grouping::group_sizes(filed_row_indices(gs, rows, k), n) == group_scenario_total(gs, n),
    decreases n,
{
    if n > 0 {
        lemma_group_totals(gs, rows, k, arms, cand, n - 1);
        assert(group_ok(gs[n - 1], rows, k, arms, cand));
        assert(filed_row_indices(gs, rows, k)[n - 1].1 == items_with_key(keyed_rows(rows, k), gs[n - 1].key@));
    }
}

/// A comparison's groups split its scenarios: every scenario falls in
/// exactly one group, so the groups' scenario counts add up to the number
/// of scenarios.
pub proof fn law_groups_split_the_scenarios(gs: Seq<ComparisonGroup>, rows: Seq<ScenarioRow>, k: RowKey, arms: int, cand: int)
    requires
        is_row_grouping(gs, rows, k, arms, cand),
    ensures
        group_scenario_total(gs, gs.len() as int) == rows.len(),
{
    let items = keyed_rows(rows, k);
    let groups = filed_row_indices(gs, rows, k);
    assert forall|a: int, b: int| 0 <= a < b < groups.len() implies crate::text::chars_lt(#[trigger] groups[a].0, #[trigger] groups[b].0) by {
        assert(groups[a].0 == gs[a].key@ && groups[b].0 == gs[b].key@);
    }
    assert forall|j: int| 0 <= j < items.len() implies exists|a: int| 0 <= a < groups.len() && #[trigger] groups[a].0 == #[trigger] items[j].0 by {
        assert(items[j].0 == row_key(rows[j], k));
        let a = choose|a: int| 0 <= a < gs.len() && #[trigger] gs[a].key@ == row_key(rows[j], k);
        assert(groups[a].0 == gs[a].key@);
    }
    assert forall|a: int| 0 <= a < groups.len() implies #[trigger] groups[a].1 == items_with_key(items, groups[a].0) by {}
    assert forall|a: int| 0 <= a < groups.len() implies (#[trigger] groups[a].1).len() > 0 by {
        assert(group_ok(gs[a], rows, k, arms, cand));
    }
    assert(is_grouping(items, groups));
    crate::salvage::grouping::law_grouping_accounts_for_every_item(items, groups);
    lemma_group_totals(gs, rows, k, arms, cand, gs.len() as int);
}

proof fn lemma_keyed_indices_increasing(rows: Seq<ScenarioRow>, k: RowKey, key: Seq<char>, m: int)
    requires
        0 <= m <= rows.len(),
        rows.len() <= usize::MAX,
    ensures
        forall|a: int| 0 <= a < items_with_key(keyed_rows(rows, k).take(m), key).len() ==>
            (#[trigger] items_with_key(keyed_rows(rows, k).take(m), key)[a]) < m,
        forall|a: int, b: int| 0 <= a < b < items_with_key(keyed_rows(rows, k).take(m), key).len() ==>
            (#[trigger] items_with_key(keyed_rows(rows, k).take(m), key)[a]) < (#[trigger] items_with_key(keyed_rows(rows, k).take(m), key)[b]),
    decreases m,
{
    if m > 0 {
        lemma_keyed_indices_increasing(rows, k, key, m - 1);
        let items = keyed_rows(rows, k);
        assert(items.take(m).drop_last() =~= items.take(m - 1));
        let sq = items_with_key(items.take(m), key);
        let r = items_with_key(items.take(m - 1), key);
        assert(items.take(m).last() == items[m - 1]);
        assert(sq == if items[m - 1].0 == key { r.push((m - 1) as usize) } else { r });
        assert forall|a: int| 0 <= a < sq.len() implies (#[trigger] sq[a]) < m by {
            if a < r.len() {
                assert(sq[a] == r[a]);
            }
        }
        assert forall|a: int, b: int| 0 <= a < b < sq.len() implies (#[trigger] sq[a]) < (#[trigger] sq[b]) by {
            if b < r.len() {
                assert(sq[a] == r[a] && sq[b] == r[b]);
            } else {
                assert(sq[a] == r[a]);
            }
        }
    }
}

proof fn lemma_index_sum_bound(rows: Seq<ScenarioRow>, idx: Seq<usize>, n: int, cand: int)
    requires
        0 <= n <= rows.len(),
        forall|a: int| 0 <= a < idx.len() ==> (#[trigger] idx[a]) < n,
        forall|a: int, b: int| 0 <= a < b < idx.len() ==> (#[trigger] idx[a]) < (#[trigger] idx[b]),
    ensures
        total_weight(idx.map_values(|i: usize| rows[i as int]), cand) <= total_weight(rows.take(n), cand),
    decreases n,
{
    let picked = idx.map_values(|i: usize| rows[i as int]);
    if n == 0 {
        if idx.len() > 0 {
            assert(idx[0] < 0);
        }
        assert(picked =~= Seq::<ScenarioRow>::empty());
    } else if idx.len() > 0 && idx.last() == n - 1 {
        let rest = idx.drop_last();
        assert forall|a: int| 0 <= a < rest.len() implies (#[trigger] rest[a]) < n - 1 by {
            assert(idx[a] < idx[idx.len() - 1]);
        }
        lemma_index_sum_bound(rows, rest, n - 1, cand);
        assert(picked.drop_last() =~= rest.map_values(|i: usize| rows[i as int]));
        assert(rows.take(n).drop_last() =~= rows.take(n - 1));
        lemma_weight_nonneg(rows.take(n - 1), cand);
    } else {
        assert forall|a: int| 0 <= a < idx.len() implies (#[trigger] idx[a]) < n - 1 by {
            if idx.len() > 0 {
                if a < idx.len() - 1 {
                    assert(idx[a] < idx[idx.len() - 1]);
                }
            }
        }
        lemma_index_sum_bound(rows, idx, n - 1, cand);
        assert(rows.take(n).drop_last() =~= rows.take(n - 1));
    }
}

proof fn lemma_weight_nonneg(rs: Seq<ScenarioRow>, cand: int)
    ensures
        total_weight(rs, cand) >= 0,
    decreases rs.len(),
{
    if rs.len() > 0 {
        lemma_weight_nonneg(rs.drop_last(), cand);
    }
}

proof fn lemma_delta_bounded(rs: Seq<ScenarioRow>, cand: int, m: int)
    requires
        0 <= m < 3,
    ensures
        -total_weight(rs, cand) <= arm_delta(rs, cand, m) <= total_weight(rs, cand),
    decreases rs.len(),
{
    if rs.len() > 0 {
        lemma_delta_bounded(rs.drop_last(), cand, m);
    }
}

fn row_key_text(r: &ScenarioRow, k: RowKey) -> (s: String)
    ensures
        s@ == row_key(*r, k),
{
    match k {
        RowKey::Dataset => r.dataset.clone(),
        RowKey::CorruptionTarget => r.corruption_target.clone(),
        RowKey::CorruptionModel => r.corruption_model.clone(),
        RowKey::Magnitude => r.magnitude.clone(),
    }
}

fn summarize_group(rows: &Vec<ScenarioRow>, key: String, idx: Vec<usize>, arms: usize, cand: usize, Ghost(k): Ghost<RowKey>) -> (g: ComparisonGroup)
    requires
        0 < cand < arms,
        rows_have_arms(rows@, arms as int),
        total_weight(rows@, cand as int) <= i64::MAX,
        idx@.len() > 0,
        forall|a: int| 0 <= a < idx@.len() ==> (#[trigger] idx@[a]) < rows@.len(),
        forall|a: int, b: int| 0 <= a < b < idx@.len() ==> (#[trigger] idx@[a]) < (#[trigger] idx@[b]),
        idx@ == items_with_key(keyed_rows(rows@, k), key@),
    ensures
        g.key@ == key@,
        group_ok(g, rows@, k, arms as int, cand as int),
{
    let ghost rs = idx@.map_values(|i: usize| rows@[i as int]);
    proof {
        assert(rows@.take(rows@.len() as int) =~= rows@);
        lemma_index_sum_bound(rows@, idx@, rows@.len() as int, cand as int);
        assert(rs == group_rows(rows@, k, key@));
    }
    let mut outcome_counts: Vec<Vec<(String, u64)>> = Vec::new();
    let mut a: usize = 0;
    while a < arms
        invariant
            a <= arms,
            0 < cand < arms,
            rows_have_arms(rows@, arms as int),
            forall|q: int| 0 <= q < idx@.len() ==> (#[trigger] idx@[q]) < rows@.len(),
            rs == idx@.map_values(|i: usize| rows@[i as int]),
            outcome_counts@.len() == a,
            forall|b: int| 0 <= b < a ==> is_count_table(#[trigger] outcome_counts@[b]@, arm_outcomes(rs, b)),
        decreases arms - a,
    {
        let mut labels: Vec<String> = Vec::new();
        let mut j: usize = 0;
        while j < idx.len()
            invariant
                j <= idx@.len(),
                a < arms,
                rows_have_arms(rows@, arms as int),
                forall|q: int| 0 <= q < idx@.len() ==> (#[trigger] idx@[q]) < rows@.len(),
                rs == idx@.map_values(|i: usize| rows@[i as int]),
                labels@.map_values(|s: String| s@) == arm_outcomes(rs.take(j as int), a as int),
            decreases idx.len() - j,
        {
            let r = &rows[idx[j]];
            proof {
                assert(rows@[idx@[j as int] as int].arms@.len() == arms);
            }
            let ghost old_labels = labels@;
            labels.push(r.arms[a].outcome.clone());
            proof {
                assert(rs[j as int] == rows@[idx@[j as int] as int]);
                assert(labels@.map_values(|s: String| s@) =~= old_labels.map_values(|s: String| s@).push(rs[j as int].arms@[a as int].outcome@));
                assert(rs.take(j + 1) =~= rs.take(j as int).push(rs[j as int]));
                assert(labels@.map_values(|s: String| s@) =~= arm_outcomes(rs.take(j + 1), a as int));
            }
            j = j + 1;
        }
        proof {
            assert(rs.take(idx@.len() as int) =~= rs);
        }
        let counts = count_outcomes(&labels);
        outcome_counts.push(counts);
        a = a + 1;
    }
    let mut dv: i64 = 0;
    let mut ds: i64 = 0;
    let mut de: i64 = 0;
    let mut j: usize = 0;
    while j < idx.len()
        invariant
            j <= idx@.len(),
            0 < cand < arms,
            rows_have_arms(rows@, arms as int),
            forall|q: int| 0 <= q < idx@.len() ==> (#[trigger] idx@[q]) < rows@.len(),
            rs == idx@.map_values(|i: usize| rows@[i as int]),
            total_weight(rs, cand as int) <= i64::MAX,
            dv == arm_delta(rs.take(j as int), cand as int, 0),
            ds == arm_delta(rs.take(j as int), cand as int, 1),
            de == arm_delta(rs.take(j as int), cand as int, 2),
        decreases idx.len() - j,
    {
        let r = &rows[idx[j]];
        proof {
            assert(rows@[idx@[j as int] as int].arms@.len() == arms);
            assert(rs.take(j + 1).drop_last() =~= rs.take(j as int));
            assert(rs.take(j + 1).last() == rs[j as int]);
            lemma_prefix_weight(rs, j + 1, cand as int);
            lemma_delta_bounded(rs.take(j + 1), cand as int, 0);
            lemma_delta_bounded(rs.take(j + 1), cand as int, 1);
            lemma_delta_bounded(rs.take(j + 1), cand as int, 2);
            lemma_weight_nonneg(rs.take(j as int), cand as int);
            assert(rs.take(j + 1).drop_last() =~= rs.take(j as int));
        }
        let base = &r.arms[0];
        let c = &r.arms[cand];
        dv = dv + (c.verified_block_count as i64 - base.verified_block_count as i64);
        ds = ds + (c.salvageable_file_count as i64 - base.salvageable_file_count as i64);
        de = de + (c.exported_full_file_count as i64 - base.exported_full_file_count as i64);
        j = j + 1;
    }
    proof {
        assert(rs.take(idx@.len() as int) =~= rs);
    }
    ComparisonGroup {
        key,
        scenario_count: idx.len(),
        outcome_counts,
        verified_block_delta: dv,
        salvageable_file_delta: ds,
        exported_full_file_delta: de,
    }
}

proof fn lemma_prefix_weight(rs: Seq<ScenarioRow>, j: int, cand: int)
    requires
        0 <= j <= rs.len(),
    ensures
        total_weight(rs.take(j), cand) <= total_weight(rs, cand),
    decreases rs.len(),
{
    if j < rs.len() {
        assert(rs.drop_last().take(j) =~= rs.take(j));
        lemma_prefix_weight(rs.drop_last(), j, cand);
    } else {
        assert(rs.take(j) =~= rs);
    }
}

/// Groups comparison rows by the attribute `key`, tallying each of the
/// `arms` variants' outcomes and totalling how variant `cand` moved from
/// the baseline.
pub fn group_comparison_rows(rows: &Vec<ScenarioRow>, key: RowKey, arms: usize, cand: usize) -> (gs: Vec<ComparisonGroup>)
    requires
        0 < cand < arms,
        rows_have_arms(rows@, arms as int),
        total_weight(rows@, cand as int) <= i64::MAX,
    ensures
        is_row_grouping(gs@, rows@, key, arms as int, cand as int),
{
    let mut items: Vec<(String, usize)> = Vec::new();
    let mut i: usize = 0;
    while i < rows.len()
        invariant
            i <= rows@.len(),
            keyed_views(items@) == keyed_rows(rows@, key).take(i as int),
        decreases rows.len() - i,
    {
        let t = row_key_text(&rows[i], key);
        let ghost old_items = items@;
        items.push((t, i));
        proof {
            assert(keyed_views(items@) =~= keyed_views(old_items).push((t@, i)));
            assert(keyed_rows(rows@, key)[i as int] == (t@, i));
        }
        proof {
            assert(keyed_views(items@) =~= keyed_rows(rows@, key).take(i + 1));
        }
        i = i + 1;
    }
    proof {
        assert(keyed_rows(rows@, key).take(rows@.len() as int) =~= keyed_rows(rows@, key));
    }
    let groups = group_by_key(items);
    let ghost kr = keyed_rows(rows@, key);
    let ghost gv = group_views(groups@);
    proof {
        lemma_keyed_indices_increasing(rows@, key, seq![], rows@.len() as int);
        assert(kr.take(rows@.len() as int) =~= kr);
    }
    let mut rest = groups;
    let mut out: Vec<ComparisonGroup> = Vec::new();
    let rlen = rows.len();
    let ghost mut q: int = 0;
    while rest.len() > 0
        invariant
            rlen == rows@.len(),
            0 <= q <= gv.len(),
            0 < cand < arms,
            rows_have_arms(rows@, arms as int),
            total_weight(rows@, cand as int) <= i64::MAX,
            kr == keyed_rows(rows@, key),
            is_grouping(kr, gv),
            group_views(rest@) == gv.subrange(q, gv.len() as int),
            out@.len() == q,
            forall|a: int| 0 <= a < q ==> (#[trigger] out@[a]).key@ == gv[a].0,
            forall|a: int| 0 <= a < q ==> group_ok(#[trigger] out@[a], rows@, key, arms as int, cand as int),
        decreases rest.len(),
    {
        let ghost old_rest = rest@;
        assert(group_views(rest@).len() == rest@.len());
        let (gk, idx) = rest.remove(0);
        proof {
            assert(group_views(old_rest)[0] == gv[q]);
            assert(gv[q].1.len() > 0);
            lemma_keyed_indices_increasing(rows@, key, gk@, rows@.len() as int);
            assert(kr.take(rows@.len() as int) =~= kr);
        }
        let g = summarize_group(rows, gk, idx, arms, cand, Ghost(key));
        out.push(g);
        proof {
            assert(rest@ =~= old_rest.subrange(1, old_rest.len() as int));
            assert(group_views(rest@) =~= group_views(old_rest).subrange(1, old_rest.len() as int));
            q = q + 1;
            assert(group_views(rest@) =~= gv.subrange(q, gv.len() as int));
        }
    }
    proof {
        assert(q == gv.len());
        assert forall|i: int| 0 <= i < rows@.len() implies exists|a: int| 0 <= a < out@.len() && #[trigger] out@[a].key@ == row_key(#[trigger] rows@[i], key) by {
            assert(kr[i].0 == row_key(rows@[i], key));
            let a = choose|a: int| 0 <= a < gv.len() && #[trigger] gv[a].0 == #[trigger] kr[i].0;
            assert(out@[a].key@ == gv[a].0);
        }
    }
    out
}


/// Groups the rows of a baseline-versus-redundant-map comparison (two
/// variants, old and new) by an attribute.
pub fn build_groups(rows: &Vec<ScenarioRow>, key: RowKey) -> (gs: Vec<ComparisonGroup>)
    requires
        rows_have_arms(rows@, 2),
        total_weight(rows@, 1) <= i64::MAX,
    ensures
        is_row_grouping(gs@, rows@, key, 2, 1),
{
    group_comparison_rows(rows, key, 2, 1)
}

/// Groups the rows of the experimental resilience comparison (old,
/// redundant, experimental and file identity variants) by an attribute;
/// the totals are those of the file identity variant against the old one.
pub fn build_experimental_groups(rows: &Vec<ScenarioRow>, key: RowKey) -> (gs: Vec<ComparisonGroup>)
    requires
        rows_have_arms(rows@, 4),
        total_weight(rows@, 3) <= i64::MAX,
    ensures
        is_row_grouping(gs@, rows@, key, 4, 3),
{
    group_comparison_rows(rows, key, 4, 3)
}

/// Groups the rows of the format-05 comparison (old, redundant,
/// experimental, file identity and format-05 variants) by an attribute;
/// the totals are those of the format-05 variant against the old one.
pub fn build_format05_groups(rows: &Vec<ScenarioRow>, key: RowKey) -> (gs: Vec<ComparisonGroup>)
    requires
        rows_have_arms(rows@, 5),
        total_weight(rows@, 4) <= i64::MAX,
    ensures
        is_row_grouping(gs@, rows@, key, 5, 4),
{
    group_comparison_rows(rows, key, 5, 4)
}

} // verus!
