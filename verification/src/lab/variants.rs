//! Metadata-variant comparisons (pruning and extent identity): one row per
//! scenario and packing variant, and the totals of each variant overall and
//! broken down by dataset and by corruption target.
use vstd::prelude::*;
use vstd::string::*;
use crate::text::{str_equals, push_str, u64_to_decimal, i64_to_decimal, decimal, signed_decimal};
use super::counts::{labels_ascending, has_label, label_count, count_for_label, add_to_label};
use super::classes::{count_outcomes, is_count_table, is_sum_table, member_sum, has_member, lemma_has_member_push, lemma_member_sum_append};

verus! {

/// One scenario packed with one metadata variant: the scenario's
/// attributes, the variant, the outcome of the salvage plan, its recovery
/// classification counts (ascending labels) and the archive's sizes.
pub struct VariantRow {
    pub scenario_id: String,
    pub dataset: String,
    pub corruption_model: String,
    pub corruption_target: String,
    pub magnitude: String,
    pub seed: u64,
    pub variant: String,
    pub recovery_outcome: String,
    pub classes: Vec<(String, u64)>,
    pub archive_byte_size: u64,
    pub metadata_byte_estimate: u64,
}

/// The attribute rows are broken down by.
#[derive(Clone, Copy, Debug, PartialEq, Eq, Structural)]
pub enum RowField {
    Dataset,
    CorruptionTarget,
    PathLengthBucket,
}

/// The path-length bucket of a dataset: the mixed dataset holds the long
/// path.
pub open spec fn path_length_bucket(dataset: Seq<char>) -> Seq<char> {
    if dataset == "mixed"@ { "long_path"@ } else { "short_path"@ }
}

/// Buckets a dataset by the length of its paths.
pub fn path_length_bucket_of(dataset: &str) -> (b: &'static str)
    ensures
        b@ == path_length_bucket(dataset@),
{
    if str_equals(dataset, "mixed") { "long_path" } else { "short_path" }
}

/// The value of a row's attribute.
pub open spec fn field_of(r: VariantRow, f: RowField) -> Seq<char> {
    match f {
        RowField::Dataset => r.dataset@,
        RowField::CorruptionTarget => r.corruption_target@,
        RowField::PathLengthBucket => path_length_bucket(r.dataset@),
    }
}

/// The row belongs to the variant and, when a key is given, has that
/// attribute value.
pub open spec fn in_cell(r: VariantRow, v: Seq<char>, key: Option<(RowField, Seq<char>)>) -> bool {
    r.variant@ == v && match key {
        Some((f, val)) => field_of(r, f) == val,
        None => true,
    }
}

/// The rows of a cell, in order.
pub open spec fn cell_rows(rows: Seq<VariantRow>, v: Seq<char>, key: Option<(RowField, Seq<char>)>) -> Seq<VariantRow>
    decreases rows.len(),
{
    if rows.len() == 0 {
        seq![]
    } else {
        let p = cell_rows(rows.drop_last(), v, key);
        if in_cell(rows.last(), v, key) { p.push(rows.last()) } else { p }
    }
}

/// The row's classification count under a label is positive.
pub open spec fn row_has(r: VariantRow, label: Seq<char>) -> bool {
    label_count(r.classes@, label) > 0
}

/// Flag `i` of a row: 0 named, 1 anonymous full, 2 partial ordered,
/// 3 partial unordered, 4 orphan evidence, 5 no verified evidence (the
/// `NO_VERIFIED_EVIDENCE` class, or no class at all when `empty_means_none`).
pub open spec fn row_flag(r: VariantRow, i: int, empty_means_none: bool) -> bool {
    if i == 0 {
        row_has(r, "FULL_NAMED_VERIFIED"@)
    } else if i == 1 {
        row_has(r, "FULL_ANONYMOUS_VERIFIED"@)
    } else if i == 2 {
        row_has(r, "PARTIAL_ORDERED_VERIFIED"@)
    } else if i == 3 {
        row_has(r, "PARTIAL_UNORDERED_VERIFIED"@)
    } else if i == 4 {
        row_has(r, "ORPHAN_EVIDENCE_ONLY"@)
    } else if empty_means_none {
        r.classes@.len() == 0
    } else {
        row_has(r, "NO_VERIFIED_EVIDENCE"@)
    }
}

/// The recovery flags of a row.
#[derive(Clone, Copy, Debug, PartialEq, Eq, Structural)]
pub struct RowFlags {
    pub named_recovery: bool,
    pub anonymous_full_recovery: bool,
    pub partial_ordered_recovery: bool,
    pub partial_unordered_recovery: bool,
    pub orphan_evidence: bool,
    pub no_verified_evidence: bool,
}

/// The flags as a function of their index.
pub open spec fn flag_at(f: RowFlags, i: int) -> bool {
    if i == 0 {
        f.named_recovery
    } else if i == 1 {
        f.anonymous_full_recovery
    } else if i == 2 {
        f.partial_ordered_recovery
    } else if i == 3 {
        f.partial_unordered_recovery
    } else if i == 4 {
        f.orphan_evidence
    } else {
        f.no_verified_evidence
    }
}

fn class_present(r: &VariantRow, label: &str) -> (b: bool)
    requires
        labels_ascending(r.classes@),
    ensures
        b == row_has(*r, label@),
{
    count_for_label(&r.classes, label) > 0
}

/// Reads the recovery flags of a row from its classification counts.
pub fn row_flags(r: &VariantRow, empty_means_none: bool) -> (f: RowFlags)
    requires
        labels_ascending(r.classes@),
    ensures
        forall|i: int| 0 <= i < 6 ==> flag_at(f, i) == row_flag(*r, i, empty_means_none),
{
    RowFlags {
        named_recovery: class_present(r, "FULL_NAMED_VERIFIED"),
        anonymous_full_recovery: class_present(r, "FULL_ANONYMOUS_VERIFIED"),
        partial_ordered_recovery: class_present(r, "PARTIAL_ORDERED_VERIFIED"),
        partial_unordered_recovery: class_present(r, "PARTIAL_UNORDERED_VERIFIED"),
        orphan_evidence: class_present(r, "ORPHAN_EVIDENCE_ONLY"),
        no_verified_evidence: if empty_means_none { r.classes.len() == 0 } else { class_present(r, "NO_VERIFIED_EVIDENCE") },
    }
}

/// How many rows have flag `i`.
pub open spec fn flag_total(cs: Seq<VariantRow>, i: int, empty_means_none: bool) -> nat
    decreases cs.len(),
{
    if cs.len() == 0 {
        0
    } else {
        flag_total(cs.drop_last(), i, empty_means_none) + if row_flag(cs.last(), i, empty_means_none) { 1nat } else { 0nat }
    }
}

/// Byte size 0 (archive) or 1 (metadata estimate) of a row.
pub open spec fn row_size(r: VariantRow, which: int) -> nat {
    if which == 0 { r.archive_byte_size as nat } else { r.metadata_byte_estimate as nat }
}

/// The sizes of the rows, summed.
pub open spec fn size_total(cs: Seq<VariantRow>, which: int) -> nat
    decreases cs.len(),
{
    if cs.len() == 0 {
        0
    } else {
        size_total(cs.drop_last(), which) + row_size(cs.last(), which)
    }
}

/// The classification counts of a row as plain members.
pub open spec fn class_members(r: VariantRow) -> Seq<(Seq<char>, u64)> {
    r.classes@.map_values(|e: (String, u64)| (e.0@, e.1))
}

/// The classification members of the rows, in order.
pub open spec fn all_members(cs: Seq<VariantRow>) -> Seq<(Seq<char>, u64)>
    decreases cs.len(),
{
    if cs.len() == 0 {
        seq![]
    } else {
        all_members(cs.drop_last()) + class_members(cs.last())
    }
}

/// The recovery outcomes of the rows, in order.
pub open spec fn outcomes_of(cs: Seq<VariantRow>) -> Seq<Seq<char>> {
    cs.map_values(|r: VariantRow| r.recovery_outcome@)
}

/// What a variant's rows (or those of one attribute value) add up to.
pub struct CellTotals {
    pub scenario_count: usize,
    pub recovery_outcome_counts: Vec<(String, u64)>,
    pub recovery_classification_counts: Vec<(String, u64)>,
    pub named_recovery_count: usize,
    pub anonymous_full_recovery_count: usize,
    pub partial_ordered_recovery_count: usize,
    pub partial_unordered_recovery_count: usize,
    pub orphan_evidence_count: usize,
    pub no_verified_evidence_count: usize,
    pub archive_byte_size: u64,
    pub metadata_byte_estimate: u64,
}

/// The flag counts as a function of their index.
pub open spec fn count_at(t: CellTotals, i: int) -> usize {
    if i == 0 {
        t.named_recovery_count
    } else if i == 1 {
        t.anonymous_full_recovery_count
    } else if i == 2 {
        t.partial_ordered_recovery_count
    } else if i == 3 {
        t.partial_unordered_recovery_count
    } else if i == 4 {
        t.orphan_evidence_count
    } else {
        t.no_verified_evidence_count
    }
}

/// `t` totals the rows `cs`.
pub open spec fn totals_of(t: CellTotals, cs: Seq<VariantRow>, empty_means_none: bool) -> bool {
    &&& t.scenario_count == cs.len()
    &&& is_count_table(t.recovery_outcome_counts@, outcomes_of(cs))
    &&& is_sum_table(t.recovery_classification_counts@, all_members(cs))
    &&& forall|i: int| 0 <= i < 6 ==> #[trigger] count_at(t, i) == flag_total(cs, i, empty_means_none)
    &&& t.archive_byte_size == size_total(cs, 0)
    &&& t.metadata_byte_estimate == size_total(cs, 1)
}

/// The rows' sums fit: sizes in `u64`, every label's classification sum
/// in `u64`.
pub open spec fn rows_fit(rows: Seq<VariantRow>) -> bool {
    &&& size_total(rows, 0) <= u64::MAX
    &&& size_total(rows, 1) <= u64::MAX
    &&& forall|k: Seq<char>| #[trigger] member_sum(all_members(rows), k) <= u64::MAX
}

/// Every row's classification labels ascend.
pub open spec fn rows_well_formed(rows: Seq<VariantRow>) -> bool {
    forall|i: int| 0 <= i < rows.len() ==> labels_ascending(#[trigger] rows[i].classes@)
}


/// A cell's rows add up to no more than all the rows.
proof fn lemma_cell_le(rs: Seq<VariantRow>, v: Seq<char>, key: Option<(RowField, Seq<char>)>, w: int, k: Seq<char>)
    ensures
        size_total(cell_rows(rs, v, key), w) <= size_total(rs, w),
        member_sum(all_members(cell_rows(rs, v, key)), k) <= member_sum(all_members(rs), k),
    decreases rs.len(),
{
    if rs.len() > 0 {
        let p = cell_rows(rs.drop_last(), v, key);
        lemma_cell_le(rs.drop_last(), v, key, w, k);
        lemma_member_sum_append(all_members(rs.drop_last()), class_members(rs.last()), k);
        if in_cell(rs.last(), v, key) {
            assert(p.push(rs.last()).drop_last() =~= p);
            lemma_member_sum_append(all_members(p), class_members(rs.last()), k);
        }
    }
}

/// A prefix's cell adds up to no more than all the rows.
proof fn lemma_cell_prefix_le(rows: Seq<VariantRow>, v: Seq<char>, key: Option<(RowField, Seq<char>)>, i: int, w: int, k: Seq<char>)
    requires
        0 <= i <= rows.len(),
    ensures
        size_total(cell_rows(rows.take(i), v, key), w) <= size_total(rows, w),
        member_sum(all_members(cell_rows(rows.take(i), v, key)), k) <= member_sum(all_members(rows), k),
    decreases rows.len(),
{
    if i == rows.len() {
        assert(rows.take(i) =~= rows);
        lemma_cell_le(rows, v, key, w, k);
    } else {
        assert(rows.drop_last().take(i) =~= rows.take(i));
        lemma_cell_prefix_le(rows.drop_last(), v, key, i, w, k);
        lemma_member_sum_append(all_members(rows.drop_last()), class_members(rows.last()), k);
    }
}

/// Adds a row's classification counts to a sum table.
fn add_members(out: &mut Vec<(String, u64)>, r: &VariantRow, Ghost(done): Ghost<Seq<(Seq<char>, u64)>>)
    requires
        is_sum_table(old(out)@, done),
        forall|k: Seq<char>| #[trigger] member_sum(done + class_members(*r), k) <= u64::MAX,
    ensures
        is_sum_table(final(out)@, done + class_members(*r)),
{
    let ghost ms = class_members(*r);
    let mut j: usize = 0;
    proof {
        assert(done + ms.take(0) =~= done);
    }
    while j < r.classes.len()
        invariant
            j <= r.classes@.len(),
            ms == class_members(*r),
            ms.len() == r.classes@.len(),
            forall|k: Seq<char>| #[trigger] member_sum(done + ms, k) <= u64::MAX,
            is_sum_table(out@, done + ms.take(j as int)),
        decreases r.classes.len() - j,
    {
        let n = r.classes[j].1;
        let ghost pre = done + ms.take(j as int);
        let ghost key = r.classes@[j as int].0@;
        proof {
            assert(ms[j as int] == (key, n));
            assert(done + ms.take(j + 1) =~= pre.push((key, n)));
            assert(done + ms =~= (done + ms.take(j + 1)) + ms.subrange(j + 1, ms.len() as int));
            lemma_member_sum_append(done + ms.take(j + 1), ms.subrange(j + 1, ms.len() as int), key);
            assert(member_sum(pre.push((key, n)), key) == member_sum(pre, key) + n) by {
                assert(pre.push((key, n)).drop_last() =~= pre);
            }
        }
        add_to_label(out, r.classes[j].0.as_str(), n);
        proof {
            let post = pre.push((key, n));
            assert forall|k: Seq<char>| #[trigger] has_label(out@, k) <==> has_member(post, k) by {
                lemma_has_member_push(pre, (key, n), k);
            }
            assert forall|k: Seq<char>| #[trigger] label_count(out@, k) == member_sum(post, k) by {
                assert(post.drop_last() =~= pre);
            }
        }
        j = j + 1;
    }
    proof {
        assert(ms.take(ms.len() as int) =~= ms);
    }
}

/// Whether a row lies in the cell of a variant and an optional attribute value.
fn row_in_cell(r: &VariantRow, variant: &str, key: Option<(RowField, &str)>) -> (b: bool)
    ensures
        b == in_cell(*r, variant@, match key { Some((f, val)) => Some((f, val@)), None => None }),
{
    if !str_equals(r.variant.as_str(), variant) {
        return false;
    }
    match key {
        Some((RowField::Dataset, val)) => str_equals(r.dataset.as_str(), val),
        Some((RowField::CorruptionTarget, val)) => str_equals(r.corruption_target.as_str(), val),
        Some((RowField::PathLengthBucket, val)) => str_equals(path_length_bucket_of(r.dataset.as_str()), val),
        None => true,
    }
}

/// The key as plain values.
pub open spec fn key_view(key: Option<(RowField, &str)>) -> Option<(RowField, Seq<char>)> {
    match key {
        Some((f, val)) => Some((f, val@)),
        None => None,
    }
}

/// Totals the rows of a variant (and, when a key is given, of one value of
/// an attribute): how many, their outcome and classification counts, how
/// many have each recovery flag, and their sizes.
pub fn cell_totals(rows: &Vec<VariantRow>, variant: &str, key: Option<(RowField, &str)>, empty_means_none: bool) -> (t: CellTotals)
    requires
        rows_well_formed(rows@),
        rows_fit(rows@),
    ensures
        totals_of(t, cell_rows(rows@, variant@, key_view(key)), empty_means_none),
{
    let ghost kv = key_view(key);
    let mut outs: Vec<String> = Vec::new();
    let mut classes: Vec<(String, u64)> = Vec::new();
    let mut counts: [usize; 6] = [0, 0, 0, 0, 0, 0];
    let mut archive: u64 = 0;
    let mut metadata: u64 = 0;
    let mut n: usize = 0;
    let mut i: usize = 0;
    proof {
        assert(rows@.take(0) =~= Seq::<VariantRow>::empty());
        assert(outcomes_of(Seq::<VariantRow>::empty()) =~= Seq::<Seq<char>>::empty());
        assert(outs@.map_values(|s: String| s@) =~= Seq::<Seq<char>>::empty());
    }
    while i < rows.len()
        invariant
            i <= rows@.len(),
            kv == key_view(key),
            rows_well_formed(rows@),
            rows_fit(rows@),
            n == cell_rows(rows@.take(i as int), variant@, kv).len(),
            n <= i,
            outs@.map_values(|s: String| s@) == outcomes_of(cell_rows(rows@.take(i as int), variant@, kv)),
            is_sum_table(classes@, all_members(cell_rows(rows@.take(i as int), variant@, kv))),
            forall|q: int| 0 <= q < 6 ==> #[trigger] counts@[q] == flag_total(cell_rows(rows@.take(i as int), variant@, kv), q, empty_means_none),
            archive == size_total(cell_rows(rows@.take(i as int), variant@, kv), 0),
            metadata == size_total(cell_rows(rows@.take(i as int), variant@, kv), 1),
        decreases rows.len() - i,
    {
        let r = &rows[i];
        let ghost cs = cell_rows(rows@.take(i as int), variant@, kv);
        proof {
            assert(rows@.take(i + 1).drop_last() =~= rows@.take(i as int));
            assert(rows@.take(i + 1).last() == rows@[i as int]);
        }
        if row_in_cell(r, variant, key) {
            let ghost next = cs.push(rows@[i as int]);
            proof {
                assert(next.drop_last() =~= cs);
                assert(cell_rows(rows@.take(i + 1), variant@, kv) == next);
                lemma_cell_prefix_le(rows@, variant@, kv, i + 1, 0, seq![]);
                lemma_cell_prefix_le(rows@, variant@, kv, i + 1, 1, seq![]);
                assert forall|k: Seq<char>| #[trigger] member_sum(all_members(cs) + class_members(*r), k) <= u64::MAX by {
                    lemma_cell_prefix_le(rows@, variant@, kv, i + 1, 0, k);
                    assert(all_members(next) == all_members(cs) + class_members(*r));
                }
                assert(labels_ascending(rows@[i as int].classes@));
            }
            let ghost old_outs = outs@;
            let o = r.recovery_outcome.clone();
            outs.push(o);
            add_members(&mut classes, r, Ghost(all_members(cs)));
            let f = row_flags(r, empty_means_none);
            let mut q: usize = 0;
            while q < 6
                invariant
                    q <= 6,
                    n == cs.len(),
                    n <= i,
                    i < rows.len(),
                    next.len() == cs.len() + 1,
                    forall|x: int| 0 <= x < 6 ==> flag_at(f, x) == row_flag(rows@[i as int], x, empty_means_none),
                    forall|x: int| 0 <= x < q ==> #[trigger] counts@[x] == flag_total(next, x, empty_means_none),
                    forall|x: int| q <= x < 6 ==> #[trigger] counts@[x] == flag_total(cs, x, empty_means_none),
                    next.drop_last() == cs,
                    next.last() == rows@[i as int],
                decreases 6 - q,
            {
                let bit = if q == 0 {
                    f.named_recovery
                } else if q == 1 {
                    f.anonymous_full_recovery
                } else if q == 2 {
                    f.partial_ordered_recovery
                } else if q == 3 {
                    f.partial_unordered_recovery
                } else if q == 4 {
                    f.orphan_evidence
                } else {
                    f.no_verified_evidence
                };
                proof {
                    assert(bit == flag_at(f, q as int));
                    lemma_flag_total_le(cs, q as int, empty_means_none);
                    assert(counts@[q as int] == flag_total(cs, q as int, empty_means_none));
                    assert(i < rows.len());
                }
                let ghost before = counts@;
                if bit {
                    counts[q] = counts[q] + 1;
                }
                proof {
                    assert(flag_total(next, q as int, empty_means_none)
                        == flag_total(cs, q as int, empty_means_none) + if row_flag(rows@[i as int], q as int, empty_means_none) { 1nat } else { 0nat });
                    assert(counts@[q as int] == flag_total(next, q as int, empty_means_none));
                    assert forall|x: int| 0 <= x < 6 && x != q implies counts@[x] == before[x] by {}
                }
                q = q + 1;
            }
            archive = archive + r.archive_byte_size;
            metadata = metadata + r.metadata_byte_estimate;
            n = n + 1;
            proof {
                assert(outs@ == old_outs.push(o));
                assert(o@ == rows@[i as int].recovery_outcome@);
                assert(outs@.map_values(|s: String| s@) =~= outcomes_of(cs).push(o@));
                assert(outcomes_of(next) =~= outcomes_of(cs).push(rows@[i as int].recovery_outcome@));
            }
        } else {
            proof {
                assert(cell_rows(rows@.take(i + 1), variant@, kv) == cs);
            }
        }
        i = i + 1;
    }
    proof {
        assert(rows@.take(rows@.len() as int) =~= rows@);
    }
    let t = CellTotals {
        scenario_count: n,
        recovery_outcome_counts: count_outcomes(&outs),
        recovery_classification_counts: classes,
        named_recovery_count: counts[0],
        anonymous_full_recovery_count: counts[1],
        partial_ordered_recovery_count: counts[2],
        partial_unordered_recovery_count: counts[3],
        orphan_evidence_count: counts[4],
        no_verified_evidence_count: counts[5],
        archive_byte_size: archive,
        metadata_byte_estimate: metadata,
    };
    proof {
        assert forall|x: int| 0 <= x < 6 implies #[trigger] count_at(t, x) == flag_total(cell_rows(rows@, variant@, kv), x, empty_means_none) by {
            assert(counts@[x] == flag_total(cell_rows(rows@, variant@, kv), x, empty_means_none));
        }
    }
    t
}

proof fn lemma_flag_total_le(cs: Seq<VariantRow>, i: int, empty_means_none: bool)
    ensures
        flag_total(cs, i, empty_means_none) <= cs.len(),
    decreases cs.len(),
{
    if cs.len() > 0 {
        lemma_flag_total_le(cs.drop_last(), i, empty_means_none);
    }
}


/// A variant's totals and its archive size against the `payload_only`
/// variant's.
pub struct VariantSummary {
    pub variant: String,
    pub totals: CellTotals,
    pub overhead_delta_vs_payload_only: i64,
}

/// The totals of every variant for one value of an attribute.
pub struct GroupBreakdown {
    pub key: String,
    pub cells: Vec<CellTotals>,
}

/// A variant comparison: per variant overall, and per dataset and per
/// corruption target.
pub struct VariantComparison {
    pub scenario_count: usize,
    pub by_variant: Vec<VariantSummary>,
    pub by_dataset: Vec<GroupBreakdown>,
    pub by_corruption_target: Vec<GroupBreakdown>,
}

/// The values of an attribute over the rows.
pub open spec fn field_values(rows: Seq<VariantRow>, f: RowField) -> Seq<Seq<char>> {
    rows.map_values(|r: VariantRow| field_of(r, f))
}

/// `gs` breaks the rows down by attribute `f`: one entry per value met, in
/// ascending order, each holding the totals of every variant for it.
pub open spec fn is_breakdown(
    gs: Seq<GroupBreakdown>,
    rows: Seq<VariantRow>,
    f: RowField,
    variants: Seq<Seq<char>>,
    empty_means_none: bool,
) -> bool {
    &&& forall|a: int, b: int| 0 <= a < b < gs.len() ==> crate::text::chars_lt(#[trigger] gs[a].key@, #[trigger] gs[b].key@)
    &&& forall|k: Seq<char>| (exists|a: int| 0 <= a < gs.len() && #[trigger] gs[a].key@ == k) <==> field_values(rows, f).contains(k)
    &&& forall|a: int| 0 <= a < gs.len() ==> (#[trigger] gs[a]).cells@.len() == variants.len()
    &&& forall|a: int, m: int| 0 <= a < gs.len() && 0 <= m < variants.len() ==> totals_of(
        #[trigger] gs[a].cells@[m],
        cell_rows(rows, variants[m], Some((f, gs[a].key@))),
        empty_means_none,
    )
}

/// Breaks the rows down by an attribute: for each value met, in ascending
/// order, the totals of every variant.
pub fn breakdown(rows: &Vec<VariantRow>, f: RowField, variants: &Vec<&str>, empty_means_none: bool) -> (gs: Vec<GroupBreakdown>)
    requires
        rows_well_formed(rows@),
        rows_fit(rows@),
    ensures
        is_breakdown(gs@, rows@, f, variants@.map_values(|v: &str| v@), empty_means_none),
{
    let ghost vs = variants@.map_values(|v: &str| v@);
    let mut vals: Vec<String> = Vec::new();
    let mut i: usize = 0;
    while i < rows.len()
        invariant
            i <= rows@.len(),
            vals@.map_values(|s: String| s@) == field_values(rows@.take(i as int), f),
        decreases rows.len() - i,
    {
        let v = match f {
            RowField::Dataset => rows[i].dataset.clone(),
            RowField::CorruptionTarget => rows[i].corruption_target.clone(),
            RowField::PathLengthBucket => String::from_str(path_length_bucket_of(rows[i].dataset.as_str())),
        };
        let ghost old_vals = vals@;
        vals.push(v);
        proof {
            assert(field_values(rows@.take(i + 1), f) =~= field_values(rows@.take(i as int), f).push(field_of(rows@[i as int], f)));
            assert(vals@.map_values(|s: String| s@) =~= old_vals.map_values(|s: String| s@).push(v@));
        }
        i = i + 1;
    }
    proof {
        assert(rows@.take(rows@.len() as int) =~= rows@);
    }
    let table = count_outcomes(&vals);
    let mut gs: Vec<GroupBreakdown> = Vec::new();
    let mut a: usize = 0;
    while a < table.len()
        invariant
            a <= table@.len(),
            vs == variants@.map_values(|v: &str| v@),
            rows_well_formed(rows@),
            rows_fit(rows@),
            is_count_table(table@, field_values(rows@, f)),
            gs@.len() == a,
            forall|b: int| 0 <= b < a ==> (#[trigger] gs@[b]).key@ == table@[b].0@,
            forall|b: int| 0 <= b < a ==> (#[trigger] gs@[b]).cells@.len() == vs.len(),
            forall|b: int, m: int| 0 <= b < a && 0 <= m < vs.len() ==> totals_of(
                #[trigger] gs@[b].cells@[m],
                cell_rows(rows@, vs[m], Some((f, gs@[b].key@))),
                empty_means_none,
            ),
        decreases table.len() - a,
    {
        let key = table[a].0.clone();
        let mut cells: Vec<CellTotals> = Vec::new();
        let mut m: usize = 0;
        while m < variants.len()
            invariant
                m <= variants@.len(),
                vs == variants@.map_values(|v: &str| v@),
                rows_well_formed(rows@),
                rows_fit(rows@),
                cells@.len() == m,
                forall|q: int| 0 <= q < m ==> totals_of(#[trigger] cells@[q], cell_rows(rows@, vs[q], Some((f, key@))), empty_means_none),
            decreases variants.len() - m,
        {
            let t = cell_totals(rows, variants[m], Some((f, key.as_str())), empty_means_none);
            cells.push(t);
            m = m + 1;
        }
        gs.push(GroupBreakdown { key, cells });
        a = a + 1;
    }
    proof {
        let g = gs@;
        assert forall|x: int, y: int| 0 <= x < y < g.len() implies crate::text::chars_lt(#[trigger] g[x].key@, #[trigger] g[y].key@) by {
            assert(g[x].key@ == table@[x].0@ && g[y].key@ == table@[y].0@);
        }
        assert forall|k: Seq<char>| (exists|x: int| 0 <= x < g.len() && #[trigger] g[x].key@ == k) <==> field_values(rows@, f).contains(k) by {
            if exists|x: int| 0 <= x < g.len() && #[trigger] g[x].key@ == k {
                let x = choose|x: int| 0 <= x < g.len() && #[trigger] g[x].key@ == k;
                assert(table@[x].0@ == k);
                assert(has_label(table@, k));
            }
            if field_values(rows@, f).contains(k) {
                assert(has_label(table@, k));
                let x = choose|x: int| 0 <= x < table@.len() && #[trigger] table@[x].0@ == k;
                assert(g[x].key@ == k);
            }
        }
    }
    gs
}

/// The totals of each variant with their overhead against `payload_only`.
pub open spec fn is_variant_summary(
    s: VariantSummary,
    rows: Seq<VariantRow>,
    v: Seq<char>,
    empty_means_none: bool,
) -> bool {
    &&& s.variant@ == v
    &&& totals_of(s.totals, cell_rows(rows, v, None), empty_means_none)
    &&& s.overhead_delta_vs_payload_only == size_total(cell_rows(rows, v, None), 0) - size_total(
        cell_rows(rows, "payload_only"@, None),
        0,
    )
}

/// Summarizes a variant comparison over its rows: the totals of each
/// variant (in the order given) with its archive size against the
/// `payload_only` variant, and the same totals broken down by dataset and by
/// corruption target. A row's "no verified evidence" flag is the
/// `NO_VERIFIED_EVIDENCE` class, or having no class when `empty_means_none`.
pub fn summarize_variant_comparison(rows: &Vec<VariantRow>, variants: &Vec<&str>, empty_means_none: bool) -> (s: VariantComparison)
    requires
        rows_well_formed(rows@),
        rows_fit(rows@),
        size_total(rows@, 0) <= i64::MAX,
    ensures
        s.scenario_count == rows@.len(),
        s.by_variant@.len() == variants@.len(),
        forall|m: int| 0 <= m < variants@.len() ==> is_variant_summary(#[trigger] s.by_variant@[m], rows@, variants@[m]@, empty_means_none),
        is_breakdown(s.by_dataset@, rows@, RowField::Dataset, variants@.map_values(|v: &str| v@), empty_means_none),
        is_breakdown(s.by_corruption_target@, rows@, RowField::CorruptionTarget, variants@.map_values(|v: &str| v@), empty_means_none),
{
    let base = cell_totals(rows, "payload_only", None, empty_means_none);
    proof {
        lemma_cell_le(rows@, "payload_only"@, None, 0, seq![]);
    }
    let mut by_variant: Vec<VariantSummary> = Vec::new();
    let mut m: usize = 0;
    while m < variants.len()
        invariant
            m <= variants@.len(),
            rows_well_formed(rows@),
            rows_fit(rows@),
            size_total(rows@, 0) <= i64::MAX,
            base.archive_byte_size == size_total(cell_rows(rows@, "payload_only"@, None), 0),
            base.archive_byte_size <= i64::MAX,
            by_variant@.len() == m,
            forall|q: int| 0 <= q < m ==> is_variant_summary(#[trigger] by_variant@[q], rows@, variants@[q]@, empty_means_none),
        decreases variants.len() - m,
    {
        let t = cell_totals(rows, variants[m], None, empty_means_none);
        proof {
            lemma_cell_le(rows@, variants@[m as int]@, None, 0, seq![]);
        }
        let overhead = t.archive_byte_size as i64 - base.archive_byte_size as i64;
        by_variant.push(VariantSummary { variant: String::from_str(variants[m]), totals: t, overhead_delta_vs_payload_only: overhead });
        m = m + 1;
    }
    VariantComparison {
        scenario_count: rows.len(),
        by_variant,
        by_dataset: breakdown(rows, RowField::Dataset, variants, empty_means_none),
        by_corruption_target: breakdown(rows, RowField::CorruptionTarget, variants, empty_means_none),
    }
}

/// How many more rows of variant `a` than of variant `b` ended with an
/// outcome label (the full-file delta of the pruning comparison).
pub fn outcome_count_delta(a: &CellTotals, b: &CellTotals, label: &str) -> (d: i64)
    requires
        labels_ascending(a.recovery_outcome_counts@),
        labels_ascending(b.recovery_outcome_counts@),
        label_count(a.recovery_outcome_counts@, label@) <= i64::MAX,
        label_count(b.recovery_outcome_counts@, label@) <= i64::MAX,
    ensures
        d == label_count(a.recovery_outcome_counts@, label@) - label_count(b.recovery_outcome_counts@, label@),
{
    count_for_label(&a.recovery_outcome_counts, label) as i64 - count_for_label(&b.recovery_outcome_counts, label) as i64
}

/// How many more named recoveries variant `a` has than variant `b` (the
/// named delta of the extent identity comparison).
pub fn named_recovery_delta(a: &CellTotals, b: &CellTotals) -> (d: i64)
    requires
        a.named_recovery_count <= i64::MAX,
        b.named_recovery_count <= i64::MAX,
    ensures
        d == a.named_recovery_count - b.named_recovery_count,
{
    a.named_recovery_count as i64 - b.named_recovery_count as i64
}


/// The outcome-label deltas of every variant against the variant at
/// `baseline` (the pruning comparison's full-file delta).
pub fn outcome_deltas(s: &VariantComparison, baseline: usize, label: &str) -> (ds: Vec<i64>)
    requires
        baseline < s.by_variant@.len(),
        forall|m: int| 0 <= m < s.by_variant@.len() ==> labels_ascending((#[trigger] s.by_variant@[m]).totals.recovery_outcome_counts@),
        forall|m: int| 0 <= m < s.by_variant@.len() ==> label_count((#[trigger] s.by_variant@[m]).totals.recovery_outcome_counts@, label@) <= i64::MAX,
    ensures
        ds@.len() == s.by_variant@.len(),
        forall|m: int| 0 <= m < ds@.len() ==> #[trigger] ds@[m] == label_count(s.by_variant@[m].totals.recovery_outcome_counts@, label@)
            - label_count(s.by_variant@[baseline as int].totals.recovery_outcome_counts@, label@),
{
    let mut ds: Vec<i64> = Vec::new();
    let mut m: usize = 0;
    while m < s.by_variant.len()
        invariant
            m <= s.by_variant@.len(),
            baseline < s.by_variant@.len(),
            forall|q: int| 0 <= q < s.by_variant@.len() ==> labels_ascending((#[trigger] s.by_variant@[q]).totals.recovery_outcome_counts@),
            forall|q: int| 0 <= q < s.by_variant@.len() ==> label_count((#[trigger] s.by_variant@[q]).totals.recovery_outcome_counts@, label@) <= i64::MAX,
            ds@.len() == m,
            forall|q: int| 0 <= q < m ==> #[trigger] ds@[q] == label_count(s.by_variant@[q].totals.recovery_outcome_counts@, label@)
                - label_count(s.by_variant@[baseline as int].totals.recovery_outcome_counts@, label@),
        decreases s.by_variant.len() - m,
    {
        ds.push(outcome_count_delta(&s.by_variant[m].totals, &s.by_variant[baseline].totals, label));
        m = m + 1;
    }
    ds
}

/// The named-recovery deltas of every variant against the variant at
/// `baseline` (the extent identity comparison's named delta).
pub fn named_deltas(s: &VariantComparison, baseline: usize) -> (ds: Vec<i64>)
    requires
        baseline < s.by_variant@.len(),
        forall|m: int| 0 <= m < s.by_variant@.len() ==> (#[trigger] s.by_variant@[m]).totals.named_recovery_count <= i64::MAX,
    ensures
        ds@.len() == s.by_variant@.len(),
        forall|m: int| 0 <= m < ds@.len() ==> #[trigger] ds@[m] == s.by_variant@[m].totals.named_recovery_count
            - s.by_variant@[baseline as int].totals.named_recovery_count,
{
    let mut ds: Vec<i64> = Vec::new();
    let mut m: usize = 0;
    while m < s.by_variant.len()
        invariant
            m <= s.by_variant@.len(),
            baseline < s.by_variant@.len(),
            forall|q: int| 0 <= q < s.by_variant@.len() ==> (#[trigger] s.by_variant@[q]).totals.named_recovery_count <= i64::MAX,
            ds@.len() == m,
            forall|q: int| 0 <= q < m ==> #[trigger] ds@[q] == s.by_variant@[q].totals.named_recovery_count
                - s.by_variant@[baseline as int].totals.named_recovery_count,
        decreases s.by_variant.len() - m,
    {
        ds.push(named_recovery_delta(&s.by_variant[m].totals, &s.by_variant[baseline].totals));
        m = m + 1;
    }
    ds
}

/// ` | ` and a number.
pub open spec fn cell_text(n: nat) -> Seq<char> {
    " | "@ + decimal(n)
}

/// The table row of a variant; the named delta is the last column when given.
pub open spec fn variant_md_row(v: VariantSummary, delta: Option<i64>) -> Seq<char> {
    let t = v.totals;
    "| "@ + v.variant@ + cell_text(t.scenario_count as nat) + cell_text(t.named_recovery_count as nat)
        + cell_text(t.anonymous_full_recovery_count as nat) + cell_text(t.partial_ordered_recovery_count as nat)
        + cell_text(t.partial_unordered_recovery_count as nat) + cell_text(t.orphan_evidence_count as nat)
        + cell_text(t.no_verified_evidence_count as nat) + cell_text(t.archive_byte_size as nat)
        + cell_text(t.metadata_byte_estimate as nat) + " | "@ + signed_decimal(v.overhead_delta_vs_payload_only as int)
        + match delta {
            Some(d) => " | "@ + signed_decimal(d as int),
            None => seq![],
        } + " |\n"@
}

/// The table rows of the first `m` variants.
pub open spec fn variant_md_rows(vs: Seq<VariantSummary>, deltas: Option<Seq<i64>>, m: int) -> Seq<char>
    decreases m,
{
    if m <= 0 {
        seq![]
    } else {
        variant_md_rows(vs, deltas, m - 1) + variant_md_row(vs[m - 1], match deltas {
            Some(ds) => Some(ds[m - 1]),
            None => None,
        })
    }
}

/// The Markdown report of a variant comparison: a title, the scenario
/// count and the variant table (with the named-delta column when deltas are
/// given).
pub open spec fn variant_markdown(title: Seq<char>, s: VariantComparison, deltas: Option<Seq<i64>>) -> Seq<char> {
    "# "@ + title + "\n\n"@ + "Scenarios: "@ + decimal(s.scenario_count as nat) + "\n\n"@ + "## Variant summary\n\n"@
        + "| variant | scenarios | named | anonymous_full | partial_ordered | partial_unordered | orphan | none | archive_byte_size | metadata_byte_estimate | overhead_vs_payload_only"@
        + match deltas {
            Some(_) => " | named_delta_vs_payload_plus_manifest |\n"@,
            None => " |\n"@,
        } + match deltas {
            Some(_) => "|---|---:|---:|---:|---:|---:|---:|---:|---:|---:|---:|---:|\n"@,
            None => "|---|---:|---:|---:|---:|---:|---:|---:|---:|---:|---:|\n"@,
        } + variant_md_rows(s.by_variant@, deltas, s.by_variant@.len() as int)
}

fn push_cell(md: &mut String, n: u64)
    ensures
        final(md)@ == old(md)@ + cell_text(n as nat),
{
    push_str(md, " | ");
    let d = u64_to_decimal(n);
    push_str(md, d.as_str());
    proof {
        assert(old(md)@ + " | "@ + decimal(n as nat) =~= old(md)@ + cell_text(n as nat));
    }
}

fn push_variant_row(md: &mut String, v: &VariantSummary, delta: Option<i64>)
    ensures
        final(md)@ == old(md)@ + variant_md_row(*v, delta),
{
    let ghost start = md@;
    let t = &v.totals;
    push_str(md, "| ");
    push_str(md, v.variant.as_str());
    push_cell(md, t.scenario_count as u64);
    push_cell(md, t.named_recovery_count as u64);
    push_cell(md, t.anonymous_full_recovery_count as u64);
    push_cell(md, t.partial_ordered_recovery_count as u64);
    push_cell(md, t.partial_unordered_recovery_count as u64);
    push_cell(md, t.orphan_evidence_count as u64);
    push_cell(md, t.no_verified_evidence_count as u64);
    push_cell(md, t.archive_byte_size);
    push_cell(md, t.metadata_byte_estimate);
    push_str(md, " | ");
    let o = i64_to_decimal(v.overhead_delta_vs_payload_only);
    push_str(md, o.as_str());
    let ghost mid = md@;
    match delta {
        Some(d) => {
            push_str(md, " | ");
            let ds = i64_to_decimal(d);
            push_str(md, ds.as_str());
        },
        None => {},
    }
    push_str(md, " |\n");
    proof {
        assert(md@ =~= start + variant_md_row(*v, delta));
    }
}

/// Renders the Markdown report of a variant comparison.
pub fn render_variant_markdown(title: &str, s: &VariantComparison, deltas: Option<&Vec<i64>>) -> (md: String)
    requires
        match deltas {
            Some(ds) => ds@.len() == s.by_variant@.len(),
            None => true,
        },
    ensures
        md@ == variant_markdown(title@, *s, match deltas {
            Some(ds) => Some(ds@),
            None => None,
        }),
{
    let ghost dv: Option<Seq<i64>> = match deltas {
        Some(ds) => Some(ds@),
        None => None,
    };
    let mut md = String::new();
    push_str(&mut md, "# ");
    push_str(&mut md, title);
    push_str(&mut md, "\n\n");
    push_str(&mut md, "Scenarios: ");
    let n = u64_to_decimal(s.scenario_count as u64);
    push_str(&mut md, n.as_str());
    push_str(&mut md, "\n\n");
    push_str(&mut md, "## Variant summary\n\n");
    push_str(&mut md, "| variant | scenarios | named | anonymous_full | partial_ordered | partial_unordered | orphan | none | archive_byte_size | metadata_byte_estimate | overhead_vs_payload_only");
    match deltas {
        Some(_) => {
            push_str(&mut md, " | named_delta_vs_payload_plus_manifest |\n");
            push_str(&mut md, "|---|---:|---:|---:|---:|---:|---:|---:|---:|---:|---:|---:|\n");
        },
        None => {
            push_str(&mut md, " |\n");
            push_str(&mut md, "|---|---:|---:|---:|---:|---:|---:|---:|---:|---:|---:|\n");
        },
    }
    let ghost head = md@;
    let mut m: usize = 0;
    while m < s.by_variant.len()
        invariant
            m <= s.by_variant@.len(),
            dv == (match deltas { Some(ds) => Some(ds@), None => None::<Seq<i64>> }),
            match deltas {
                Some(ds) => ds@.len() == s.by_variant@.len(),
                None => true,
            },
            md@ == head + variant_md_rows(s.by_variant@, dv, m as int),
        decreases s.by_variant.len() - m,
    {
        let d = match deltas {
            Some(ds) => Some(ds[m]),
            None => None,
        };
        push_variant_row(&mut md, &s.by_variant[m], d);
        proof {
            assert(head + variant_md_rows(s.by_variant@, dv, m as int) + variant_md_row(s.by_variant@[m as int], d)
                =~= head + variant_md_rows(s.by_variant@, dv, m + 1));
        }
        m = m + 1;
    }
    proof {
        assert(md@ =~= variant_markdown(title@, *s, dv));
    }
    md
}


/// The archive-size deltas of every variant against the variant at
/// `baseline`.
pub fn overhead_deltas(s: &VariantComparison, baseline: usize) -> (ds: Vec<i64>)
    requires
        baseline < s.by_variant@.len(),
        forall|m: int| 0 <= m < s.by_variant@.len() ==> (#[trigger] s.by_variant@[m]).totals.archive_byte_size <= i64::MAX,
    ensures
        ds@.len() == s.by_variant@.len(),
        forall|m: int| 0 <= m < ds@.len() ==> #[trigger] ds@[m] == s.by_variant@[m].totals.archive_byte_size
            - s.by_variant@[baseline as int].totals.archive_byte_size,
{
    let mut ds: Vec<i64> = Vec::new();
    let mut m: usize = 0;
    while m < s.by_variant.len()
        invariant
            m <= s.by_variant@.len(),
            baseline < s.by_variant@.len(),
            forall|q: int| 0 <= q < s.by_variant@.len() ==> (#[trigger] s.by_variant@[q]).totals.archive_byte_size <= i64::MAX,
            ds@.len() == m,
            forall|q: int| 0 <= q < m ==> #[trigger] ds@[q] == s.by_variant@[q].totals.archive_byte_size
                - s.by_variant@[baseline as int].totals.archive_byte_size,
        decreases s.by_variant.len() - m,
    {
        ds.push(s.by_variant[m].totals.archive_byte_size as i64 - s.by_variant[baseline].totals.archive_byte_size as i64);
        m = m + 1;
    }
    ds
}

} // verus!
