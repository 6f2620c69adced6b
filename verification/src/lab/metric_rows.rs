//! Stress and dictionary comparisons: one row per scenario and packing
//! variant with its recovery flags and measured metrics, and the totals of
//! a variant over the rows whose attribute takes one of some values.
use vstd::prelude::*;
use vstd::string::*;
use crate::text::str_equals;
use super::terminal::TerminalRecoveryOutcome;
use super::variants::RowFlags;
use super::counts::{has_label, label_count, labels_ascending, count_for_label};
use super::classes::{count_outcomes, is_count_table};

verus! {

/// The attribute rows are selected or broken down by.
#[derive(Clone, Copy, Debug, PartialEq, Eq, Structural)]
pub enum RowKey {
    Dataset,
    CorruptionTarget,
    PathLengthBucket,
    ExtentDensityBucket,
}

/// One scenario packed with one variant: its attributes, archive size,
/// recovery flags, whether its dictionary copies were left conflicting,
/// and its measured metrics (their meaning is the comparison's).
pub struct MetricRow {
    pub scenario_id: String,
    pub dataset: String,
    pub corruption_target: String,
    pub variant: String,
    pub path_length_bucket: String,
    pub extent_density_bucket: String,
    pub archive_byte_size: u64,
    pub flags: RowFlags,
    pub dictionary_conflict: bool,
    pub metrics: Vec<u64>,
}

/// The bucket of an average path length (`chars / paths`, taken exactly; 0
/// without paths): 180 and more is very long, 120 and more long.
pub open spec fn path_bucket(chars: nat, paths: nat) -> Seq<char> {
    if paths > 0 && chars >= 180 * paths {
        "very_long"@
    } else if paths > 0 && chars >= 120 * paths {
        "long"@
    } else {
        "normal"@
    }
}

/// Buckets the average path length of an archive's identity paths.
pub fn path_length_bucket_for(path_chars: u64, path_count: u64) -> (b: &'static str)
    ensures
        b@ == path_bucket(path_chars as nat, path_count as nat),
{
    if path_count > 0 && path_chars as u128 >= 180 * path_count as u128 {
        "very_long"
    } else if path_count > 0 && path_chars as u128 >= 120 * path_count as u128 {
        "long"
    } else {
        "normal"
    }
}

/// The bucket of an average extent count per file (`extents / files`,
/// taken exactly; 0 without files): 32 and more is extreme fragmentation, 8
/// and more fragmented, below that `low`.
pub open spec fn density_bucket(extents: nat, files: nat, low: Seq<char>) -> Seq<char> {
    if files > 0 && extents >= 32 * files {
        "extreme_fragmentation"@
    } else if files > 0 && extents >= 8 * files {
        "fragmented"@
    } else {
        low
    }
}

/// Buckets the average number of extents per logical file; `low` names the
/// lowest bucket.
pub fn extent_density_bucket_for(extents: u64, files: u64, low: &'static str) -> (b: &'static str)
    ensures
        b@ == density_bucket(extents as nat, files as nat, low@),
{
    if files > 0 && extents as u128 >= 32 * files as u128 {
        "extreme_fragmentation"
    } else if files > 0 && extents as u128 >= 8 * files as u128 {
        "fragmented"
    } else {
        low
    }
}

/// The flags of a terminal outcome: exactly the one it names.
pub open spec fn spec_terminal_flags(t: TerminalRecoveryOutcome) -> RowFlags {
    RowFlags {
        named_recovery: t == TerminalRecoveryOutcome::Named,
        anonymous_full_recovery: t == TerminalRecoveryOutcome::AnonymousFull,
        partial_ordered_recovery: t == TerminalRecoveryOutcome::PartialOrdered,
        partial_unordered_recovery: t == TerminalRecoveryOutcome::PartialUnordered,
        orphan_evidence: t == TerminalRecoveryOutcome::OrphanEvidence,
        no_verified_evidence: t == TerminalRecoveryOutcome::NoVerifiedEvidence,
    }
}

/// The recovery flags of a terminal outcome.
pub fn terminal_flags(t: TerminalRecoveryOutcome) -> (f: RowFlags)
    ensures
        f == spec_terminal_flags(t),
{
    RowFlags {
        named_recovery: matches!(t, TerminalRecoveryOutcome::Named),
        anonymous_full_recovery: matches!(t, TerminalRecoveryOutcome::AnonymousFull),
        partial_ordered_recovery: matches!(t, TerminalRecoveryOutcome::PartialOrdered),
        partial_unordered_recovery: matches!(t, TerminalRecoveryOutcome::PartialUnordered),
        orphan_evidence: matches!(t, TerminalRecoveryOutcome::OrphanEvidence),
        no_verified_evidence: matches!(t, TerminalRecoveryOutcome::NoVerifiedEvidence),
    }
}

/// The flags of a run's recovery classification counts: each class with a
/// positive count, and no verified evidence when there is no class at all.
pub open spec fn spec_classes_flags(classes: Seq<(String, u64)>) -> RowFlags {
    RowFlags {
        named_recovery: label_count(classes, "FULL_NAMED_VERIFIED"@) > 0,
        anonymous_full_recovery: label_count(classes, "FULL_ANONYMOUS_VERIFIED"@) > 0,
        partial_ordered_recovery: label_count(classes, "PARTIAL_ORDERED_VERIFIED"@) > 0,
        partial_unordered_recovery: label_count(classes, "PARTIAL_UNORDERED_VERIFIED"@) > 0,
        orphan_evidence: label_count(classes, "ORPHAN_EVIDENCE_ONLY"@) > 0,
        no_verified_evidence: classes.len() == 0,
    }
}

/// Reads the recovery flags from a run's classification counts.
pub fn classes_flags(classes: &Vec<(String, u64)>) -> (f: RowFlags)
    requires
        labels_ascending(classes@),
    ensures
        f == spec_classes_flags(classes@),
{
    RowFlags {
        named_recovery: count_for_label(classes, "FULL_NAMED_VERIFIED") > 0,
        anonymous_full_recovery: count_for_label(classes, "FULL_ANONYMOUS_VERIFIED") > 0,
        partial_ordered_recovery: count_for_label(classes, "PARTIAL_ORDERED_VERIFIED") > 0,
        partial_unordered_recovery: count_for_label(classes, "PARTIAL_UNORDERED_VERIFIED") > 0,
        orphan_evidence: count_for_label(classes, "ORPHAN_EVIDENCE_ONLY") > 0,
        no_verified_evidence: classes.len() == 0,
    }
}

/// The value of a row's attribute.
pub open spec fn key_of(r: MetricRow, k: RowKey) -> Seq<char> {
    match k {
        RowKey::Dataset => r.dataset@,
        RowKey::CorruptionTarget => r.corruption_target@,
        RowKey::PathLengthBucket => r.path_length_bucket@,
        RowKey::ExtentDensityBucket => r.extent_density_bucket@,
    }
}

/// The row belongs to variant `v` and, unless `values` is empty, its
/// attribute `k` is one of `values`.
pub open spec fn picks(r: MetricRow, v: Seq<char>, k: RowKey, values: Seq<Seq<char>>) -> bool {
    r.variant@ == v && (values.len() == 0 || values.contains(key_of(r, k)))
}

/// Mark `m` of a row: 0 to 5 its recovery flags (named, anonymous full,
/// partial ordered, partial unordered, orphan evidence, no verified
/// evidence), 6 a dictionary conflict, 7 a conflict without named
/// recovery, 8 a conflict with anonymous full recovery; any other `m`
/// marks every row.
pub open spec fn row_mark(r: MetricRow, m: int) -> bool {
    if m == 0 {
        r.flags.named_recovery
    } else if m == 1 {
        r.flags.anonymous_full_recovery
    } else if m == 2 {
        r.flags.partial_ordered_recovery
    } else if m == 3 {
        r.flags.partial_unordered_recovery
    } else if m == 4 {
        r.flags.orphan_evidence
    } else if m == 5 {
        r.flags.no_verified_evidence
    } else if m == 6 {
        r.dictionary_conflict
    } else if m == 7 {
        r.dictionary_conflict && !r.flags.named_recovery
    } else if m == 8 {
        r.dictionary_conflict && r.flags.anonymous_full_recovery
    } else {
        true
    }
}

/// How many picked rows carry mark `m`.
pub open spec fn marked_count(rows: Seq<MetricRow>, v: Seq<char>, k: RowKey, values: Seq<Seq<char>>, m: int) -> nat
    decreases rows.len(),
{
    if rows.len() == 0 {
        0
    } else {
        marked_count(rows.drop_last(), v, k, values, m)
            + if picks(rows.last(), v, k, values) && row_mark(rows.last(), m) { 1nat } else { 0nat }
    }
}

/// Weight `w` of a row: its archive size for `None`, its metric `j` (0
/// past its metrics) for `Some(j)`.
pub open spec fn row_weight(r: MetricRow, w: Option<usize>) -> nat {
    match w {
        None => r.archive_byte_size as nat,
        Some(j) => if j < r.metrics@.len() { r.metrics@[j as int] as nat } else { 0 },
    }
}

/// The weights of the picked rows, summed.
pub open spec fn weight_sum(rows: Seq<MetricRow>, v: Seq<char>, k: RowKey, values: Seq<Seq<char>>, w: Option<usize>) -> nat
    decreases rows.len(),
{
    if rows.len() == 0 {
        0
    } else {
        weight_sum(rows.drop_last(), v, k, values, w)
            + if picks(rows.last(), v, k, values) { row_weight(rows.last(), w) } else { 0 }
    }
}

/// The largest weight among the picked rows (0 for none).
pub open spec fn weight_max(rows: Seq<MetricRow>, v: Seq<char>, k: RowKey, values: Seq<Seq<char>>, w: Option<usize>) -> nat
    decreases rows.len(),
{
    if rows.len() == 0 {
        0
    } else {
        let p = weight_max(rows.drop_last(), v, k, values, w);
        if picks(rows.last(), v, k, values) && row_weight(rows.last(), w) > p { row_weight(rows.last(), w) } else { p }
    }
}

/// The weights of all rows, summed.
pub open spec fn all_weight(rows: Seq<MetricRow>, w: Option<usize>) -> nat
    decreases rows.len(),
{
    if rows.len() == 0 {
        0
    } else {
        all_weight(rows.drop_last(), w) + row_weight(rows.last(), w)
    }
}

proof fn lemma_weight_sum_le(rows: Seq<MetricRow>, v: Seq<char>, k: RowKey, values: Seq<Seq<char>>, w: Option<usize>)
    ensures
        weight_sum(rows, v, k, values, w) <= all_weight(rows, w),
    decreases rows.len(),
{
    if rows.len() > 0 {
        lemma_weight_sum_le(rows.drop_last(), v, k, values, w);
    }
}

proof fn lemma_all_weight_prefix(rows: Seq<MetricRow>, i: int, w: Option<usize>)
    requires
        0 <= i <= rows.len(),
    ensures
        all_weight(rows.take(i), w) <= all_weight(rows, w),
    decreases rows.len(),
{
    if i == rows.len() {
        assert(rows.take(i) =~= rows);
    } else {
        assert(rows.drop_last().take(i) =~= rows.take(i));
        lemma_all_weight_prefix(rows.drop_last(), i, w);
    }
}

proof fn lemma_marked_le(rows: Seq<MetricRow>, v: Seq<char>, k: RowKey, values: Seq<Seq<char>>, m: int)
    ensures
        marked_count(rows, v, k, values, m) <= rows.len(),
    decreases rows.len(),
{
    if rows.len() > 0 {
        lemma_marked_le(rows.drop_last(), v, k, values, m);
    }
}

fn contains_str(values: &Vec<&str>, s: &str) -> (b: bool)
    ensures
        b == values@.map_values(|x: &str| x@).contains(s@),
{
    let ghost vs = values@.map_values(|x: &str| x@);
    let mut i: usize = 0;
    while i < values.len()
        invariant
            i <= values@.len(),
            vs == values@.map_values(|x: &str| x@),
            forall|q: int| 0 <= q < i ==> vs[q] != s@,
        decreases values.len() - i,
    {
        if str_equals(values[i], s) {
            proof {
                assert(vs[i as int] == s@);
            }
            return true;
        }
        i = i + 1;
    }
    false
}

/// The selection's values as plain values.
pub open spec fn value_views(values: Seq<&str>) -> Seq<Seq<char>> {
    values.map_values(|x: &str| x@)
}

fn row_picked(r: &MetricRow, variant: &str, key: RowKey, values: &Vec<&str>) -> (b: bool)
    ensures
        b == picks(*r, variant@, key, value_views(values@)),
{
    if !str_equals(r.variant.as_str(), variant) {
        return false;
    }
    if values.len() == 0 {
        return true;
    }
    let k = match key {
        RowKey::Dataset => r.dataset.as_str(),
        RowKey::CorruptionTarget => r.corruption_target.as_str(),
        RowKey::PathLengthBucket => r.path_length_bucket.as_str(),
        RowKey::ExtentDensityBucket => r.extent_density_bucket.as_str(),
    };
    contains_str(values, k)
}

fn mark_of(r: &MetricRow, m: usize) -> (b: bool)
    ensures
        b == row_mark(*r, m as int),
{
    let f = &r.flags;
    if m == 0 {
        f.named_recovery
    } else if m == 1 {
        f.anonymous_full_recovery
    } else if m == 2 {
        f.partial_ordered_recovery
    } else if m == 3 {
        f.partial_unordered_recovery
    } else if m == 4 {
        f.orphan_evidence
    } else if m == 5 {
        f.no_verified_evidence
    } else if m == 6 {
        r.dictionary_conflict
    } else if m == 7 {
        r.dictionary_conflict && !f.named_recovery
    } else if m == 8 {
        r.dictionary_conflict && f.anonymous_full_recovery
    } else {
        true
    }
}

fn weight_of(r: &MetricRow, w: Option<usize>) -> (n: u64)
    ensures
        n == row_weight(*r, w),
{
    match w {
        None => r.archive_byte_size,
        Some(j) => if j < r.metrics.len() { r.metrics[j] } else { 0 },
    }
}

/// Counts the picked rows that carry mark `m` (see `row_mark`; a mark
/// past 8 counts every picked row).
pub fn count_marked(rows: &Vec<MetricRow>, variant: &str, key: RowKey, values: &Vec<&str>, m: usize) -> (n: usize)
    ensures
        n == marked_count(rows@, variant@, key, value_views(values@), m as int),
{
    let ghost vs = value_views(values@);
    let mut n: usize = 0;
    let mut i: usize = 0;
    while i < rows.len()
        invariant
            i <= rows@.len(),
            vs == value_views(values@),
            n == marked_count(rows@.take(i as int), variant@, key, vs, m as int),
        decreases rows.len() - i,
    {
        proof {
            assert(rows@.take(i + 1).drop_last() =~= rows@.take(i as int));
            lemma_marked_le(rows@.take(i as int), variant@, key, vs, m as int);
        }
        if row_picked(&rows[i], variant, key, values) && mark_of(&rows[i], m) {
            n = n + 1;
        }
        i = i + 1;
    }
    proof {
        assert(rows@.take(rows@.len() as int) =~= rows@);
    }
    n
}

/// Sums weight `w` (see `row_weight`) over the picked rows.
pub fn sum_weight(rows: &Vec<MetricRow>, variant: &str, key: RowKey, values: &Vec<&str>, w: Option<usize>) -> (t: u64)
    requires
        all_weight(rows@, w) <= u64::MAX,
    ensures
        t == weight_sum(rows@, variant@, key, value_views(values@), w),
{
    let ghost vs = value_views(values@);
    let mut t: u64 = 0;
    let mut i: usize = 0;
    while i < rows.len()
        invariant
            i <= rows@.len(),
            vs == value_views(values@),
            all_weight(rows@, w) <= u64::MAX,
            t == weight_sum(rows@.take(i as int), variant@, key, vs, w),
        decreases rows.len() - i,
    {
        proof {
            assert(rows@.take(i + 1).drop_last() =~= rows@.take(i as int));
            lemma_weight_sum_le(rows@.take(i + 1), variant@, key, vs, w);
            lemma_all_weight_prefix(rows@, i + 1, w);
        }
        if row_picked(&rows[i], variant, key, values) {
            t = t + weight_of(&rows[i], w);
        }
        i = i + 1;
    }
    proof {
        assert(rows@.take(rows@.len() as int) =~= rows@);
    }
    t
}

/// The largest weight `w` among the picked rows (0 for none).
pub fn max_weight(rows: &Vec<MetricRow>, variant: &str, key: RowKey, values: &Vec<&str>, w: Option<usize>) -> (t: u64)
    ensures
        t == weight_max(rows@, variant@, key, value_views(values@), w),
{
    let ghost vs = value_views(values@);
    let mut t: u64 = 0;
    let mut i: usize = 0;
    while i < rows.len()
        invariant
            i <= rows@.len(),
            vs == value_views(values@),
            t == weight_max(rows@.take(i as int), variant@, key, vs, w),
        decreases rows.len() - i,
    {
        proof {
            assert(rows@.take(i + 1).drop_last() =~= rows@.take(i as int));
        }
        if row_picked(&rows[i], variant, key, values) {
            let x = weight_of(&rows[i], w);
            if x > t {
                t = x;
            }
        }
        i = i + 1;
    }
    proof {
        assert(rows@.take(rows@.len() as int) =~= rows@);
    }
    t
}

/// What a variant's picked rows add up to: how many, their archive sizes,
/// how many carry each mark, and each metric's sum and maximum.
pub struct MetricCell {
    pub scenario_count: usize,
    pub archive_byte_size: u64,
    pub named_recovery_count: usize,
    pub anonymous_full_recovery_count: usize,
    pub partial_ordered_recovery_count: usize,
    pub partial_unordered_recovery_count: usize,
    pub orphan_evidence_count: usize,
    pub no_verified_evidence_count: usize,
    pub dictionary_conflict_count: usize,
    pub conflict_without_named_count: usize,
    pub conflict_anonymous_count: usize,
    pub metric_sums: Vec<u64>,
    pub metric_maxes: Vec<u64>,
}

/// The count of mark `m` in a cell (9 being the scenario count).
pub open spec fn cell_mark(c: MetricCell, m: int) -> usize {
    if m == 0 {
        c.named_recovery_count
    } else if m == 1 {
        c.anonymous_full_recovery_count
    } else if m == 2 {
        c.partial_ordered_recovery_count
    } else if m == 3 {
        c.partial_unordered_recovery_count
    } else if m == 4 {
        c.orphan_evidence_count
    } else if m == 5 {
        c.no_verified_evidence_count
    } else if m == 6 {
        c.dictionary_conflict_count
    } else if m == 7 {
        c.conflict_without_named_count
    } else if m == 8 {
        c.conflict_anonymous_count
    } else {
        c.scenario_count
    }
}

/// `c` totals the rows of variant `v` picked by `k` and `values`, over `n`
/// metrics.
pub open spec fn is_cell(c: MetricCell, rows: Seq<MetricRow>, v: Seq<char>, k: RowKey, values: Seq<Seq<char>>, n: nat) -> bool {
    &&& forall|m: int| 0 <= m < 10 ==> #[trigger] cell_mark(c, m) == marked_count(rows, v, k, values, m)
    &&& c.archive_byte_size == weight_sum(rows, v, k, values, None)
    &&& c.metric_sums@.len() == n
    &&& c.metric_maxes@.len() == n
    &&& forall|j: int| 0 <= j < n ==> #[trigger] c.metric_sums@[j] == weight_sum(rows, v, k, values, Some(j as usize))
    &&& forall|j: int| 0 <= j < n ==> #[trigger] c.metric_maxes@[j] == weight_max(rows, v, k, values, Some(j as usize))
}

/// The archive sizes and each of the `n` metrics, summed over all rows,
/// fit in 64 bits.
pub open spec fn metric_rows_fit(rows: Seq<MetricRow>, n: nat) -> bool {
    &&& all_weight(rows, None) <= u64::MAX
    &&& forall|j: int| 0 <= j < n ==> #[trigger] all_weight(rows, Some(j as usize)) <= u64::MAX
}

/// Totals the rows of a variant whose attribute `key` is one of `values`
/// (all its rows when `values` is empty), over `n_metrics` metrics.
pub fn metric_cell(rows: &Vec<MetricRow>, variant: &str, key: RowKey, values: &Vec<&str>, n_metrics: usize) -> (c: MetricCell)
    requires
        metric_rows_fit(rows@, n_metrics as nat),
    ensures
        is_cell(c, rows@, variant@, key, value_views(values@), n_metrics as nat),
{
    let ghost vs = value_views(values@);
    let mut sums: Vec<u64> = Vec::new();
    let mut maxes: Vec<u64> = Vec::new();
    let mut j: usize = 0;
    while j < n_metrics
        invariant
            j <= n_metrics,
            vs == value_views(values@),
            metric_rows_fit(rows@, n_metrics as nat),
            sums@.len() == j,
            maxes@.len() == j,
            forall|q: int| 0 <= q < j ==> #[trigger] sums@[q] == weight_sum(rows@, variant@, key, vs, Some(q as usize)),
            forall|q: int| 0 <= q < j ==> #[trigger] maxes@[q] == weight_max(rows@, variant@, key, vs, Some(q as usize)),
        decreases n_metrics - j,
    {
        proof {
            assert(all_weight(rows@, Some(j as int as usize)) <= u64::MAX);
        }
        sums.push(sum_weight(rows, variant, key, values, Some(j)));
        maxes.push(max_weight(rows, variant, key, values, Some(j)));
        j = j + 1;
    }
    let c = MetricCell {
        scenario_count: count_marked(rows, variant, key, values, 9),
        archive_byte_size: sum_weight(rows, variant, key, values, None),
        named_recovery_count: count_marked(rows, variant, key, values, 0),
        anonymous_full_recovery_count: count_marked(rows, variant, key, values, 1),
        partial_ordered_recovery_count: count_marked(rows, variant, key, values, 2),
        partial_unordered_recovery_count: count_marked(rows, variant, key, values, 3),
        orphan_evidence_count: count_marked(rows, variant, key, values, 4),
        no_verified_evidence_count: count_marked(rows, variant, key, values, 5),
        dictionary_conflict_count: count_marked(rows, variant, key, values, 6),
        conflict_without_named_count: count_marked(rows, variant, key, values, 7),
        conflict_anonymous_count: count_marked(rows, variant, key, values, 8),
        metric_sums: sums,
        metric_maxes: maxes,
    };
    proof {
        assert forall|m: int| 0 <= m < 10 implies #[trigger] cell_mark(c, m) == marked_count(rows@, variant@, key, vs, m) by {
            if m == 0 {} else if m == 1 {} else if m == 2 {} else if m == 3 {} else if m == 4 {}
            else if m == 5 {} else if m == 6 {} else if m == 7 {} else if m == 8 {} else {
                assert(m == 9);
            }
        }
    }
    c
}

/// A variant's totals over all its rows, and its archive size against each
/// baseline variant's.
pub struct MetricVariantSummary {
    pub variant: String,
    pub cell: MetricCell,
    pub overhead_deltas: Vec<i64>,
}

/// `s` summarizes variant `v`: its totals, and its archive size minus each
/// baseline's.
pub open spec fn is_metric_summary(s: MetricVariantSummary, rows: Seq<MetricRow>, v: Seq<char>, baselines: Seq<Seq<char>>, n: nat) -> bool {
    &&& s.variant@ == v
    &&& is_cell(s.cell, rows, v, RowKey::Dataset, seq![], n)
    &&& s.overhead_deltas@.len() == baselines.len()
    &&& forall|b: int| 0 <= b < baselines.len() ==> #[trigger] s.overhead_deltas@[b]
        == weight_sum(rows, v, RowKey::Dataset, seq![], None) - weight_sum(rows, baselines[b], RowKey::Dataset, seq![], None)
}

/// Summarizes each variant (in the order given) over all its rows, with
/// its archive size against each baseline variant's.
pub fn summarize_metric_variants(rows: &Vec<MetricRow>, variants: &Vec<&str>, baselines: &Vec<&str>, n_metrics: usize) -> (s: Vec<MetricVariantSummary>)
    requires
        metric_rows_fit(rows@, n_metrics as nat),
        all_weight(rows@, None) <= i64::MAX,
    ensures
        s@.len() == variants@.len(),
        forall|m: int| 0 <= m < variants@.len() ==> is_metric_summary(#[trigger] s@[m], rows@, variants@[m]@, value_views(baselines@), n_metrics as nat),
{
    let all: Vec<&str> = Vec::new();
    proof {
        assert(value_views(all@) =~= Seq::<Seq<char>>::empty());
    }
    let mut base_sizes: Vec<u64> = Vec::new();
    let mut b: usize = 0;
    while b < baselines.len()
        invariant
            b <= baselines@.len(),
            value_views(all@) == Seq::<Seq<char>>::empty(),
            metric_rows_fit(rows@, n_metrics as nat),
            all_weight(rows@, None) <= i64::MAX,
            base_sizes@.len() == b,
            forall|q: int| 0 <= q < b ==> #[trigger] base_sizes@[q] == weight_sum(rows@, baselines@[q]@, RowKey::Dataset, seq![], None),
            forall|q: int| 0 <= q < b ==> #[trigger] base_sizes@[q] <= i64::MAX,
        decreases baselines.len() - b,
    {
        let t = sum_weight(rows, baselines[b], RowKey::Dataset, &all, None);
        proof {
            lemma_weight_sum_le(rows@, baselines@[b as int]@, RowKey::Dataset, seq![], None);
        }
        base_sizes.push(t);
        b = b + 1;
    }
    let mut out: Vec<MetricVariantSummary> = Vec::new();
    let mut m: usize = 0;
    while m < variants.len()
        invariant
            m <= variants@.len(),
            value_views(all@) == Seq::<Seq<char>>::empty(),
            metric_rows_fit(rows@, n_metrics as nat),
            all_weight(rows@, None) <= i64::MAX,
            base_sizes@.len() == baselines@.len(),
            forall|q: int| 0 <= q < baselines@.len() ==> #[trigger] base_sizes@[q] == weight_sum(rows@, baselines@[q]@, RowKey::Dataset, seq![], None),
            forall|q: int| 0 <= q < baselines@.len() ==> #[trigger] base_sizes@[q] <= i64::MAX,
            out@.len() == m,
            forall|q: int| 0 <= q < m ==> is_metric_summary(#[trigger] out@[q], rows@, variants@[q]@, value_views(baselines@), n_metrics as nat),
        decreases variants.len() - m,
    {
        let cell = metric_cell(rows, variants[m], RowKey::Dataset, &all, n_metrics);
        proof {
            lemma_weight_sum_le(rows@, variants@[m as int]@, RowKey::Dataset, seq![], None);
        }
        let mut deltas: Vec<i64> = Vec::new();
        let mut b: usize = 0;
        while b < base_sizes.len()
            invariant
                b <= base_sizes@.len(),
                base_sizes@.len() == baselines@.len(),
                forall|q: int| 0 <= q < baselines@.len() ==> #[trigger] base_sizes@[q] <= i64::MAX,
                cell.archive_byte_size <= i64::MAX,
                deltas@.len() == b,
                forall|q: int| 0 <= q < b ==> #[trigger] deltas@[q] == cell.archive_byte_size - base_sizes@[q],
            decreases base_sizes.len() - b,
        {
            deltas.push(cell.archive_byte_size as i64 - base_sizes[b] as i64);
            b = b + 1;
        }
        let s = MetricVariantSummary { variant: String::from_str(variants[m]), cell, overhead_deltas: deltas };
        proof {
            let bv = value_views(baselines@);
            assert forall|q: int| 0 <= q < bv.len() implies #[trigger] s.overhead_deltas@[q]
                == weight_sum(rows@, variants@[m as int]@, RowKey::Dataset, seq![], None) - weight_sum(rows@, bv[q], RowKey::Dataset, seq![], None) by {
                assert(bv[q] == baselines@[q]@);
            }
        }
        out.push(s);
        m = m + 1;
    }
    out
}

/// The totals of every variant for one value of an attribute.
pub struct MetricGroup {
    pub key: String,
    pub cells: Vec<MetricCell>,
}

/// The values of an attribute over the rows.
pub open spec fn key_values(rows: Seq<MetricRow>, k: RowKey) -> Seq<Seq<char>> {
    rows.map_values(|r: MetricRow| key_of(r, k))
}

/// `gs` breaks the rows down by attribute `k`: one entry per value met, in
/// ascending order, each holding the totals of every variant for it.
pub open spec fn is_metric_breakdown(gs: Seq<MetricGroup>, rows: Seq<MetricRow>, k: RowKey, variants: Seq<Seq<char>>, n: nat) -> bool {
    &&& forall|a: int, b: int| 0 <= a < b < gs.len() ==> crate::text::chars_lt(#[trigger] gs[a].key@, #[trigger] gs[b].key@)
    &&& forall|x: Seq<char>| (exists|a: int| 0 <= a < gs.len() && #[trigger] gs[a].key@ == x) <==> key_values(rows, k).contains(x)
    &&& forall|a: int| 0 <= a < gs.len() ==> (#[trigger] gs[a]).cells@.len() == variants.len()
    &&& forall|a: int, m: int| 0 <= a < gs.len() && 0 <= m < variants.len() ==> is_cell(
        #[trigger] gs[a].cells@[m],
        rows,
        variants[m],
        k,
        seq![gs[a].key@],
        n,
    )
}

/// Breaks the rows down by an attribute: for each value met, in ascending
/// order, the totals of every variant for it.
pub fn metric_breakdown(rows: &Vec<MetricRow>, key: RowKey, variants: &Vec<&str>, n_metrics: usize) -> (gs: Vec<MetricGroup>)
    requires
        metric_rows_fit(rows@, n_metrics as nat),
    ensures
        is_metric_breakdown(gs@, rows@, key, value_views(variants@), n_metrics as nat),
{
    let ghost vs = value_views(variants@);
    let mut vals: Vec<String> = Vec::new();
    let mut i: usize = 0;
    while i < rows.len()
        invariant
            i <= rows@.len(),
            vals@.map_values(|s: String| s@) == key_values(rows@.take(i as int), key),
        decreases rows.len() - i,
    {
        let v = match key {
            RowKey::Dataset => rows[i].dataset.clone(),
            RowKey::CorruptionTarget => rows[i].corruption_target.clone(),
            RowKey::PathLengthBucket => rows[i].path_length_bucket.clone(),
            RowKey::ExtentDensityBucket => rows[i].extent_density_bucket.clone(),
        };
        let ghost old_vals = vals@;
        vals.push(v);
        proof {
            assert(key_values(rows@.take(i + 1), key) =~= key_values(rows@.take(i as int), key).push(key_of(rows@[i as int], key)));
            assert(vals@.map_values(|s: String| s@) =~= old_vals.map_values(|s: String| s@).push(v@));
        }
        i = i + 1;
    }
    proof {
        assert(rows@.take(rows@.len() as int) =~= rows@);
    }
    let table = count_outcomes(&vals);
    let mut gs: Vec<MetricGroup> = Vec::new();
    let mut a: usize = 0;
    while a < table.len()
        invariant
            a <= table@.len(),
            vs == value_views(variants@),
            metric_rows_fit(rows@, n_metrics as nat),
            is_count_table(table@, key_values(rows@, key)),
            gs@.len() == a,
            forall|b: int| 0 <= b < a ==> (#[trigger] gs@[b]).key@ == table@[b].0@,
            forall|b: int| 0 <= b < a ==> (#[trigger] gs@[b]).cells@.len() == vs.len(),
            forall|b: int, m: int| 0 <= b < a && 0 <= m < vs.len() ==> is_cell(
                #[trigger] gs@[b].cells@[m],
                rows@,
                vs[m],
                key,
                seq![gs@[b].key@],
                n_metrics as nat,
            ),
        decreases table.len() - a,
    {
        let k = table[a].0.clone();
        let mut sel: Vec<&str> = Vec::new();
        sel.push(k.as_str());
        proof {
            assert(value_views(sel@) =~= seq![k@]);
        }
        let mut cells: Vec<MetricCell> = Vec::new();
        let mut m: usize = 0;
        while m < variants.len()
            invariant
                m <= variants@.len(),
                vs == value_views(variants@),
                value_views(sel@) == seq![k@],
                metric_rows_fit(rows@, n_metrics as nat),
                cells@.len() == m,
                forall|q: int| 0 <= q < m ==> is_cell(#[trigger] cells@[q], rows@, vs[q], key, seq![k@], n_metrics as nat),
            decreases variants.len() - m,
        {
            let c = metric_cell(rows, variants[m], key, &sel, n_metrics);
            proof {
                assert(vs[m as int] == variants@[m as int]@);
            }
            cells.push(c);
            m = m + 1;
        }
        gs.push(MetricGroup { key: k, cells });
        a = a + 1;
    }
    proof {
        let g = gs@;
        assert forall|x: int, y: int| 0 <= x < y < g.len() implies crate::text::chars_lt(#[trigger] g[x].key@, #[trigger] g[y].key@) by {
            assert(g[x].key@ == table@[x].0@ && g[y].key@ == table@[y].0@);
        }
        assert forall|x: Seq<char>| (exists|q: int| 0 <= q < g.len() && #[trigger] g[q].key@ == x) <==> key_values(rows@, key).contains(x) by {
            if exists|q: int| 0 <= q < g.len() && #[trigger] g[q].key@ == x {
                let q = choose|q: int| 0 <= q < g.len() && #[trigger] g[q].key@ == x;
                assert(table@[q].0@ == x);
                assert(has_label(table@, x));
            }
            if key_values(rows@, key).contains(x) {
                assert(has_label(table@, x));
                let q = choose|q: int| 0 <= q < table@.len() && #[trigger] table@[q].0@ == x;
                assert(g[q].key@ == x);
            }
        }
    }
    gs
}

/// The answers of the dictionary resilience judgment.
pub struct ResilienceJudgment {
    pub single_dictionary_fragile: bool,
    pub mirror_keeps_names: bool,
    pub both_lost_falls_back: bool,
    pub conflicts_fail_closed: bool,
}

/// Judges dictionary resilience: a single dictionary is fragile when no
/// scenario that lost it kept names; header-and-tail copies keep names when
/// some scenario that lost the mirror did; losing both falls back when some
/// such scenario recovered anonymously; conflicts are handled when some
/// were detected and every one failed closed.
pub fn judge_dictionary_resilience(
    single_named_with_primary_loss: usize,
    mirrored_named_with_mirror_loss: usize,
    mirrored_anonymous_with_both_lost: usize,
    conflicts_detected: usize,
    conflicts_failed_closed: usize,
) -> (j: ResilienceJudgment)
    ensures
        j.single_dictionary_fragile == (single_named_with_primary_loss == 0),
        j.mirror_keeps_names == (mirrored_named_with_mirror_loss > 0),
        j.both_lost_falls_back == (mirrored_anonymous_with_both_lost > 0),
        j.conflicts_fail_closed == (conflicts_detected > 0 && conflicts_failed_closed == conflicts_detected),
{
    ResilienceJudgment {
        single_dictionary_fragile: single_named_with_primary_loss == 0,
        mirror_keeps_names: mirrored_named_with_mirror_loss > 0,
        both_lost_falls_back: mirrored_anonymous_with_both_lost > 0,
        conflicts_fail_closed: conflicts_detected > 0 && conflicts_failed_closed == conflicts_detected,
    }
}

/// The answers of the namespace factoring judgment.
pub struct FactoringJudgment {
    pub reduces_dictionary_size: bool,
    pub smaller_than_inline_path: bool,
    pub detects_generation_mismatch: bool,
    pub one_copy_keeps_names: bool,
    pub names_recovered: bool,
}

/// Judges namespace factoring: it reduces the dictionary when the factored
/// variant saves bytes against the non-factored one, stays smaller than
/// inline paths when its overhead against them is negative, detects
/// generation mismatches when it counted some, keeps names with one copy
/// invalid when some such scenario did, and recovers names when it named
/// any file.
pub fn judge_factoring(
    savings_vs_non_factored: i64,
    overhead_vs_inline_path: i64,
    generation_mismatches: u64,
    named_with_one_copy_invalid: usize,
    named_recoveries: usize,
) -> (j: FactoringJudgment)
    ensures
        j.reduces_dictionary_size == (savings_vs_non_factored > 0),
        j.smaller_than_inline_path == (overhead_vs_inline_path < 0),
        j.detects_generation_mismatch == (generation_mismatches > 0),
        j.one_copy_keeps_names == (named_with_one_copy_invalid > 0),
        j.names_recovered == (named_recoveries > 0),
{
    FactoringJudgment {
        reduces_dictionary_size: savings_vs_non_factored > 0,
        smaller_than_inline_path: overhead_vs_inline_path < 0,
        detects_generation_mismatch: generation_mismatches > 0,
        one_copy_keeps_names: named_with_one_copy_invalid > 0,
        names_recovered: named_recoveries > 0,
    }
}

/// The answers of the inline-path stress judgment.
pub struct InlineStressJudgment {
    pub inline_overhead_grew: bool,
    pub inline_smaller_than_manifest: bool,
}

/// Judges inline paths under stress: their overhead over extent identity
/// alone grew when it is positive, and they stay smaller than a manifest
/// when their overhead is below the manifest's.
pub fn judge_inline_stress(inline_overhead: i64, manifest_overhead: i64) -> (j: InlineStressJudgment)
    ensures
        j.inline_overhead_grew == (inline_overhead > 0),
        j.inline_smaller_than_manifest == (inline_overhead < manifest_overhead),
{
    InlineStressJudgment {
        inline_overhead_grew: inline_overhead > 0,
        inline_smaller_than_manifest: inline_overhead < manifest_overhead,
    }
}

} // verus!
