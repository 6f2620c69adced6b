//! The metadata survivability audit (format 09): what each placement
//! strategy recovered under each metadata regime, and what the metadata
//! gained over the run of the same strategy, target and payload damage
//! with its metadata destroyed.
use vstd::prelude::*;
use vstd::string::*;
use crate::text::{str_equals, push_str};
use super::classes::{count_outcomes, is_count_table};

verus! {

/// One scenario of the audit run under one placement strategy.
pub struct Format09Row {
    pub strategy: String,
    pub scenario_id: String,
    pub dataset: String,
    pub metadata_regime: String,
    pub metadata_target: String,
    pub metadata_operation: String,
    pub payload_damage: String,
    pub recovery_class: String,
    pub manifest_checkpoint_survival_count: u64,
    pub path_checkpoint_survival_count: u64,
}

/// Two rows share strategy, metadata target and payload damage.
pub open spec fn same_cell(a: Format09Row, b: Format09Row) -> bool {
    a.strategy@ == b.strategy@ && a.metadata_target@ == b.metadata_target@ && a.payload_damage@ == b.payload_damage@
}

/// The row's metadata was destroyed.
pub open spec fn is_destroyed(r: Format09Row) -> bool {
    r.metadata_regime@ == "metadata_destroyed"@
}

/// The last of the first `n` rows whose metadata was destroyed and that
/// shares `r`'s strategy, target and damage.
pub open spec fn last_baseline(rows: Seq<Format09Row>, r: Format09Row, n: int) -> Option<int>
    decreases n,
{
    if n <= 0 {
        None
    } else if is_destroyed(rows[n - 1]) && same_cell(rows[n - 1], r) {
        Some(n - 1)
    } else {
        last_baseline(rows, r, n - 1)
    }
}

/// What the metadata gained for row `i`: `baseline` for a destroyed-
/// metadata row; else against the last destroyed-metadata row of its cell,
/// `unchanged` when the recovery class is the same and `<baseline>-><class>`
/// when not; `unknown` when the cell has no such row.
pub open spec fn spec_gain(rows: Seq<Format09Row>, i: int) -> Seq<char> {
    let r = rows[i];
    if is_destroyed(r) {
        "baseline"@
    } else {
        match last_baseline(rows, r, rows.len() as int) {
            Some(j) => if rows[j].recovery_class@ == r.recovery_class@ {
                "unchanged"@
            } else {
                rows[j].recovery_class@ + "->"@ + r.recovery_class@
            },
            None => "unknown"@,
        }
    }
}

fn same_cell_exec(a: &Format09Row, b: &Format09Row) -> (s: bool)
    ensures
        s == same_cell(*a, *b),
{
    str_equals(a.strategy.as_str(), b.strategy.as_str()) && str_equals(a.metadata_target.as_str(), b.metadata_target.as_str())
        && str_equals(a.payload_damage.as_str(), b.payload_damage.as_str())
}

fn find_baseline(rows: &Vec<Format09Row>, r: &Format09Row) -> (j: Option<usize>)
    ensures
        match j {
            Some(k) => k < rows@.len() && last_baseline(rows@, *r, rows@.len() as int) == Some(k as int),
            None => last_baseline(rows@, *r, rows@.len() as int) == None::<int>,
        },
{
    let mut n: usize = rows.len();
    while n > 0
        invariant
            n <= rows@.len(),
            last_baseline(rows@, *r, rows@.len() as int) == last_baseline(rows@, *r, n as int),
        decreases n,
    {
        let c = &rows[n - 1];
        if str_equals(c.metadata_regime.as_str(), "metadata_destroyed") && same_cell_exec(c, r) {
            return Some(n - 1);
        }
        n = n - 1;
    }
    None
}

/// The metadata recovery gain of every row (see `spec_gain`).
pub fn metadata_recovery_gains(rows: &Vec<Format09Row>) -> (gs: Vec<String>)
    ensures
        gs@.len() == rows@.len(),
        forall|i: int| 0 <= i < rows@.len() ==> #[trigger] gs@[i]@ == spec_gain(rows@, i),
{
    let mut gs: Vec<String> = Vec::new();
    let mut i: usize = 0;
    while i < rows.len()
        invariant
            i <= rows@.len(),
            gs@.len() == i,
            forall|q: int| 0 <= q < i ==> #[trigger] gs@[q]@ == spec_gain(rows@, q),
        decreases rows.len() - i,
    {
        let r = &rows[i];
        let g = if str_equals(r.metadata_regime.as_str(), "metadata_destroyed") {
            String::from_str("baseline")
        } else {
            match find_baseline(rows, r) {
                Some(j) => {
                    if str_equals(rows[j].recovery_class.as_str(), r.recovery_class.as_str()) {
                        String::from_str("unchanged")
                    } else {
                        let mut s = rows[j].recovery_class.clone();
                        push_str(&mut s, "->");
                        push_str(&mut s, r.recovery_class.as_str());
                        s
                    }
                },
                None => String::from_str("unknown"),
            }
        };
        proof {
            reveal_strlit("metadata_destroyed");
        }
        gs.push(g);
        i = i + 1;
    }
    gs
}

/// The indices of the rows of a strategy (all rows for `None`), in order,
/// among the first `n`.
pub open spec fn strategy_indices(rows: Seq<Format09Row>, s: Option<Seq<char>>, n: int) -> Seq<int>
    decreases n,
{
    if n <= 0 {
        seq![]
    } else {
        let p = strategy_indices(rows, s, n - 1);
        match s {
            Some(v) => if rows[n - 1].strategy@ == v { p.push(n - 1) } else { p },
            None => p.push(n - 1),
        }
    }
}

/// Checkpoint survival totals: manifest, path, and both.
pub struct SurvivalTotals {
    pub manifest_checkpoint_survival_count: u64,
    pub path_checkpoint_survival_count: u64,
    pub verified_metadata_node_count: u64,
}

/// The sums of the manifest (`which` 0) or path checkpoint counts over the
/// rows at `idx`.
pub open spec fn survival_sum(rows: Seq<Format09Row>, idx: Seq<int>, which: int) -> nat
    decreases idx.len(),
{
    if idx.len() == 0 {
        0
    } else {
        survival_sum(rows, idx.drop_last(), which) + if which == 0 {
            rows[idx.last()].manifest_checkpoint_survival_count as nat
        } else {
            rows[idx.last()].path_checkpoint_survival_count as nat
        }
    }
}

/// A strategy's (or the whole run's) distributions and survival totals.
pub struct Format09Tally {
    pub scenario_count: usize,
    pub recovery_class_distribution: Vec<(String, u64)>,
    pub metadata_survival: SurvivalTotals,
    pub metadata_recovery_gain_distribution: Vec<(String, u64)>,
}

/// `t` tallies the rows at `idx`, given the gains of all rows.
pub open spec fn is_tally(t: Format09Tally, rows: Seq<Format09Row>, idx: Seq<int>) -> bool {
    &&& t.scenario_count == idx.len()
    &&& is_count_table(t.recovery_class_distribution@, idx.map_values(|i: int| rows[i].recovery_class@))
    &&& is_count_table(t.metadata_recovery_gain_distribution@, idx.map_values(|i: int| spec_gain(rows, i)))
    &&& t.metadata_survival.manifest_checkpoint_survival_count == survival_sum(rows, idx, 0)
    &&& t.metadata_survival.path_checkpoint_survival_count == survival_sum(rows, idx, 1)
    &&& t.metadata_survival.verified_metadata_node_count == survival_sum(rows, idx, 0) + survival_sum(rows, idx, 1)
}

/// All checkpoint counts together fit in 64 bits.
pub open spec fn survival_fits(rows: Seq<Format09Row>) -> bool {
    survival_sum(rows, strategy_indices(rows, None, rows.len() as int), 0)
        + survival_sum(rows, strategy_indices(rows, None, rows.len() as int), 1) <= u64::MAX
}

proof fn lemma_indices_bounded(rows: Seq<Format09Row>, s: Option<Seq<char>>, n: int)
    requires
        0 <= n <= rows.len(),
    ensures
        forall|k: int| 0 <= k < strategy_indices(rows, s, n).len() ==> 0 <= #[trigger] strategy_indices(rows, s, n)[k] < n,
        strategy_indices(rows, s, n).len() <= n,
    decreases n,
{
    if n > 0 {
        lemma_indices_bounded(rows, s, n - 1);
    }
}

/// A strategy's rows survive no more checkpoints than all rows do.
proof fn lemma_survival_le(rows: Seq<Format09Row>, s: Option<Seq<char>>, n: int, which: int)
    requires
        0 <= n <= rows.len(),
    ensures
        survival_sum(rows, strategy_indices(rows, s, n), which) <= survival_sum(rows, strategy_indices(rows, None, n), which),
    decreases n,
{
    if n > 0 {
        lemma_survival_le(rows, s, n - 1, which);
        let p = strategy_indices(rows, s, n - 1);
        let a = strategy_indices(rows, None, n - 1);
        assert(a.push(n - 1).drop_last() =~= a);
        if let Some(v) = s {
            if rows[n - 1].strategy@ == v {
                assert(p.push(n - 1).drop_last() =~= p);
            }
        }
    }
}

proof fn lemma_survival_prefix(rows: Seq<Format09Row>, n: int, which: int)
    requires
        0 <= n <= rows.len(),
    ensures
        survival_sum(rows, strategy_indices(rows, None, n), which) <= survival_sum(rows, strategy_indices(rows, None, rows.len() as int), which),
    decreases rows.len() - n,
{
    if n < rows.len() {
        lemma_survival_prefix(rows, n + 1, which);
        let a = strategy_indices(rows, None, n);
        assert(a.push(n).drop_last() =~= a);
    }
}

/// Tallies the rows of a strategy (all rows for `None`): how many, their
/// recovery class and gain distributions, and their checkpoint survival.
pub fn tally_format09(rows: &Vec<Format09Row>, gains: &Vec<String>, strategy: Option<&str>) -> (t: Format09Tally)
    requires
        gains@.len() == rows@.len(),
        forall|i: int| 0 <= i < rows@.len() ==> #[trigger] gains@[i]@ == spec_gain(rows@, i),
        survival_fits(rows@),
    ensures
        is_tally(t, rows@, strategy_indices(rows@, match strategy { Some(s) => Some(s@), None => None }, rows@.len() as int)),
{
    let ghost s = match strategy { Some(s) => Some(s@), None => None::<Seq<char>> };
    let mut classes: Vec<String> = Vec::new();
    let mut gs: Vec<String> = Vec::new();
    let mut manifest: u64 = 0;
    let mut path: u64 = 0;
    let mut i: usize = 0;
    while i < rows.len()
        invariant
            i <= rows@.len(),
            gains@.len() == rows@.len(),
            forall|q: int| 0 <= q < rows@.len() ==> #[trigger] gains@[q]@ == spec_gain(rows@, q),
            survival_fits(rows@),
            s == match strategy { Some(x) => Some(x@), None => None::<Seq<char>> },
            classes@.map_values(|x: String| x@) == strategy_indices(rows@, s, i as int).map_values(|k: int| rows@[k].recovery_class@),
            gs@.map_values(|x: String| x@) == strategy_indices(rows@, s, i as int).map_values(|k: int| spec_gain(rows@, k)),
            manifest == survival_sum(rows@, strategy_indices(rows@, s, i as int), 0),
            path == survival_sum(rows@, strategy_indices(rows@, s, i as int), 1),
        decreases rows.len() - i,
    {
        let r = &rows[i];
        let take = match strategy {
            Some(v) => str_equals(r.strategy.as_str(), v),
            None => true,
        };
        if take {
            let ghost p = strategy_indices(rows@, s, i as int);
            let ghost q = p.push(i as int);
            proof {
                assert(strategy_indices(rows@, s, i + 1) == q);
                assert(q.drop_last() =~= p);
                lemma_survival_le(rows@, s, i + 1, 0);
                lemma_survival_le(rows@, s, i + 1, 1);
                lemma_survival_prefix(rows@, i + 1, 0);
                lemma_survival_prefix(rows@, i + 1, 1);
            }
            let ghost oc = classes@;
            let ghost og = gs@;
            classes.push(r.recovery_class.clone());
            gs.push(gains[i].clone());
            manifest = manifest + r.manifest_checkpoint_survival_count;
            path = path + r.path_checkpoint_survival_count;
            proof {
                assert(classes@.map_values(|x: String| x@) =~= oc.map_values(|x: String| x@).push(rows@[i as int].recovery_class@));
                assert(q.map_values(|k: int| rows@[k].recovery_class@) =~= p.map_values(|k: int| rows@[k].recovery_class@).push(rows@[i as int].recovery_class@));
                assert(gs@.map_values(|x: String| x@) =~= og.map_values(|x: String| x@).push(gains@[i as int]@));
                assert(q.map_values(|k: int| spec_gain(rows@, k)) =~= p.map_values(|k: int| spec_gain(rows@, k)).push(spec_gain(rows@, i as int)));
            }
        } else {
            proof {
                assert(strategy_indices(rows@, s, i + 1) == strategy_indices(rows@, s, i as int));
            }
        }
        i = i + 1;
    }
    proof {
        lemma_survival_le(rows@, s, rows@.len() as int, 0);
        lemma_survival_le(rows@, s, rows@.len() as int, 1);
    }
    Format09Tally {
        scenario_count: classes.len(),
        recovery_class_distribution: count_outcomes(&classes),
        metadata_survival: SurvivalTotals {
            manifest_checkpoint_survival_count: manifest,
            path_checkpoint_survival_count: path,
            verified_metadata_node_count: manifest + path,
        },
        metadata_recovery_gain_distribution: count_outcomes(&gs),
    }
}

/// The audit's summary: every row's metadata recovery gain, the tally of
/// all rows, and the tally of each strategy.
pub struct Format09Summary {
    pub gains: Vec<String>,
    pub overall: Format09Tally,
    pub by_strategy: Vec<Format09Tally>,
}

/// Summarizes the audit: the gain of every row, the tally of all rows and
/// of each strategy (in the order given).
pub fn summarize_format09(rows: &Vec<Format09Row>, strategies: &Vec<&str>) -> (s: Format09Summary)
    requires
        survival_fits(rows@),
    ensures
        s.gains@.len() == rows@.len(),
        forall|i: int| 0 <= i < rows@.len() ==> #[trigger] s.gains@[i]@ == spec_gain(rows@, i),
        is_tally(s.overall, rows@, strategy_indices(rows@, None, rows@.len() as int)),
        s.by_strategy@.len() == strategies@.len(),
        forall|m: int| 0 <= m < strategies@.len() ==> is_tally(
            #[trigger] s.by_strategy@[m],
            rows@,
            strategy_indices(rows@, Some(strategies@[m]@), rows@.len() as int),
        ),
{
    let gains = metadata_recovery_gains(rows);
    let overall = tally_format09(rows, &gains, None);
    let mut by_strategy: Vec<Format09Tally> = Vec::new();
    let mut m: usize = 0;
    while m < strategies.len()
        invariant
            m <= strategies@.len(),
            gains@.len() == rows@.len(),
            forall|i: int| 0 <= i < rows@.len() ==> #[trigger] gains@[i]@ == spec_gain(rows@, i),
            survival_fits(rows@),
            by_strategy@.len() == m,
            forall|q: int| 0 <= q < m ==> is_tally(
                #[trigger] by_strategy@[q],
                rows@,
                strategy_indices(rows@, Some(strategies@[q]@), rows@.len() as int),
            ),
        decreases strategies.len() - m,
    {
        by_strategy.push(tally_format09(rows, &gains, Some(strategies[m])));
        m = m + 1;
    }
    Format09Summary { gains, overall, by_strategy }
}

} // verus!
