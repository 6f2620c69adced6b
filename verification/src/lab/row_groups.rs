//! Comparison rows grouped by one of their string fields, with the outcome
//! and classification tallies and checkpoint totals of each group.
use vstd::prelude::*;
use crate::json::{JsonValue, json_get, json_as_u64, get_str};
use crate::text::push_str;
use crate::salvage::grouping::{group_by_key, is_grouping, keyed_views, group_views, items_with_key};
use super::classes::{is_count_table, is_sum_table, all_count_members, member_sum, count_outcomes, merge_classification_counts, lemma_member_sum_append};
use super::counts::{label_count, count_for_label};
use super::paths::field_or_zero;

verus! {

/// The rows that have the string field `key`, filed under its value, in order.
pub open spec fn keyed_json_rows(rows: Seq<JsonValue>, key: Seq<char>) -> Seq<(Seq<char>, JsonValue)>
    decreases rows.len(),
{
    if rows.len() == 0 {
        seq![]
    } else {
        let prev = keyed_json_rows(rows.drop_last(), key);
        match get_str(rows.last(), key) {
            Some(k) => prev.push((k, rows.last())),
            None => prev,
        }
    }
}

/// The outcome labels the rows state, in order.
pub open spec fn row_outcomes(rows: Seq<JsonValue>) -> Seq<Seq<char>>
    decreases rows.len(),
{
    if rows.len() == 0 {
        seq![]
    } else {
        let prev = row_outcomes(rows.drop_last());
        match get_str(rows.last(), "outcome"@) {
            Some(o) => prev.push(o),
            None => prev,
        }
    }
}

/// The sum of a numeric field over the rows, missing values counting zero.
pub open spec fn field_sum(rows: Seq<JsonValue>, field: Seq<char>) -> nat
    decreases rows.len(),
{
    if rows.len() == 0 { 0 } else { field_sum(rows.drop_last(), field) + field_or_zero(rows.last(), field) as nat }
}

/// The rows of one group, with its tallies and totals.
pub struct RowGroup {
    pub key: String,
    pub scenario_count: usize,
    pub recovery_outcome_counts: Vec<(String, u64)>,
    pub recovery_classification_counts: Vec<(String, u64)>,
    pub named_recovery_count: u64,
    pub anonymous_recovery_count: u64,
    pub partial_ordered_recovery_count: u64,
    pub partial_unordered_recovery_count: u64,
    pub orphan_evidence_count: u64,
    pub manifest_checkpoint_survival_count: u64,
    pub path_checkpoint_survival_count: u64,
    pub verified_metadata_node_count: u64,
}

/// `g` describes the rows `rs` filed under `key`.
pub open spec fn describes_row_group(g: RowGroup, key: Seq<char>, rs: Seq<JsonValue>) -> bool {
    let classes = g.recovery_classification_counts@;
    &&& g.key@ == key
    &&& g.scenario_count == rs.len()
    &&& is_count_table(g.recovery_outcome_counts@, row_outcomes(rs))
    &&& is_sum_table(classes, all_count_members(rs, "recovery_classification_counts"@))
    &&& g.named_recovery_count == label_count(classes, "FULL_NAMED_VERIFIED"@)
    &&& g.anonymous_recovery_count == label_count(classes, "FULL_ANONYMOUS_VERIFIED"@)
    &&& g.partial_ordered_recovery_count == label_count(classes, "PARTIAL_ORDERED_VERIFIED"@)
    &&& g.partial_unordered_recovery_count == label_count(classes, "PARTIAL_UNORDERED_VERIFIED"@)
    &&& g.orphan_evidence_count == label_count(classes, "ORPHAN_EVIDENCE_ONLY"@)
    &&& g.manifest_checkpoint_survival_count == field_sum(rs, "manifest_checkpoint_survival_count"@)
    &&& g.path_checkpoint_survival_count == field_sum(rs, "path_checkpoint_survival_count"@)
    &&& g.verified_metadata_node_count == field_sum(rs, "verified_metadata_node_count"@)
}

/// Every classification label's sum and every checkpoint total over the
/// rows fits in 64 bits.
pub open spec fn row_totals_fit(rows: Seq<JsonValue>) -> bool {
    &&& forall|k: Seq<char>| #[trigger] member_sum(all_count_members(rows, "recovery_classification_counts"@), k) <= u64::MAX
    &&& field_sum(rows, "manifest_checkpoint_survival_count"@) <= u64::MAX
    &&& field_sum(rows, "path_checkpoint_survival_count"@) <= u64::MAX
    &&& field_sum(rows, "verified_metadata_node_count"@) <= u64::MAX
}

proof fn lemma_group_within(rows: Seq<JsonValue>, key: Seq<char>, g: Seq<char>, label: Seq<char>)
    ensures
        member_sum(all_count_members(items_with_key(keyed_json_rows(rows, key), g), "recovery_classification_counts"@), label)
            <= member_sum(all_count_members(rows, "recovery_classification_counts"@), label),
        field_sum(items_with_key(keyed_json_rows(rows, key), g), "manifest_checkpoint_survival_count"@)
            <= field_sum(rows, "manifest_checkpoint_survival_count"@),
        field_sum(items_with_key(keyed_json_rows(rows, key), g), "path_checkpoint_survival_count"@)
            <= field_sum(rows, "path_checkpoint_survival_count"@),
        field_sum(items_with_key(keyed_json_rows(rows, key), g), "verified_metadata_node_count"@)
            <= field_sum(rows, "verified_metadata_node_count"@),
    decreases rows.len(),
{
    let f = "recovery_classification_counts"@;
    if rows.len() > 0 {
        let pre = rows.drop_last();
        let r = rows.last();
        lemma_group_within(pre, key, g, label);
        let kp = keyed_json_rows(pre, key);
        let gp = items_with_key(kp, g);
        lemma_member_sum_append(all_count_members(pre, f), crate::lab::classes::row_count_members(r, f), label);
        match get_str(r, key) {
            Some(k) => {
                assert(kp.push((k, r)).drop_last() =~= kp);
                if k == g {
                    let gn = gp.push(r);
                    assert(gn.drop_last() =~= gp);
                    lemma_member_sum_append(all_count_members(gp, f), crate::lab::classes::row_count_members(r, f), label);
                }
            },
            None => {},
        }
    }
}


fn field_total(rows: &Vec<JsonValue>, field: &str) -> (t: u64)
    requires
        field_sum(rows@, field@) <= u64::MAX,
    ensures
        t == field_sum(rows@, field@),
{
    let mut t: u64 = 0;
    let mut i: usize = 0;
    while i < rows.len()
        invariant
            i <= rows@.len(),
            field_sum(rows@, field@) <= u64::MAX,
            t == field_sum(rows@.take(i as int), field@),
        decreases rows.len() - i,
    {
        proof {
            assert(rows@.take(i + 1).drop_last() =~= rows@.take(i as int));
            assert(rows@.take(i + 1).last() == rows@[i as int]);
            lemma_field_sum_prefix(rows@, field@, i + 1);
        }
        let v = match rows[i].get(field) {
            Some(x) => match x.as_u64() {
                Some(n) => n,
                None => 0,
            },
            None => 0,
        };
        t = t + v;
        i = i + 1;
    }
    proof {
        assert(rows@.take(rows@.len() as int) =~= rows@);
    }
    t
}

proof fn lemma_field_sum_prefix(rows: Seq<JsonValue>, field: Seq<char>, j: int)
    requires
        0 <= j <= rows.len(),
    ensures
        field_sum(rows.take(j), field) <= field_sum(rows, field),
    decreases rows.len(),
{
    if j < rows.len() {
        assert(rows.drop_last().take(j) =~= rows.take(j));
        lemma_field_sum_prefix(rows.drop_last(), field, j);
    } else {
        assert(rows.take(j) =~= rows);
    }
}

fn outcome_labels(rows: &Vec<JsonValue>) -> (out: Vec<String>)
    ensures
        out@.map_values(|s: String| s@) == row_outcomes(rows@),
{
    let mut out: Vec<String> = Vec::new();
    let mut i: usize = 0;
    while i < rows.len()
        invariant
            i <= rows@.len(),
            out@.map_values(|s: String| s@) == row_outcomes(rows@.take(i as int)),
        decreases rows.len() - i,
    {
        proof {
            assert(rows@.take(i + 1).drop_last() =~= rows@.take(i as int));
            assert(rows@.take(i + 1).last() == rows@[i as int]);
        }
        match rows[i].get_str("outcome") {
            Some(o) => {
                let ghost before = out@;
                let mut c = String::new();
                push_str(&mut c, o);
                out.push(c);
                proof {
                    assert(out@.map_values(|s: String| s@) =~= before.map_values(|s: String| s@).push(o@));
                }
            },
            None => {},
        }
        i = i + 1;
    }
    proof {
        assert(rows@.take(rows@.len() as int) =~= rows@);
    }
    out
}

fn row_group(key: String, members: Vec<JsonValue>) -> (g: RowGroup)
    requires
        row_totals_fit(members@),
    ensures
        describes_row_group(g, key@, members@),
{
    let outcomes = outcome_labels(&members);
    let outcome_counts = count_outcomes(&outcomes);
    let classes = merge_classification_counts(members.as_slice(), "recovery_classification_counts");
    let named = count_for_label(&classes, "FULL_NAMED_VERIFIED");
    let anonymous = count_for_label(&classes, "FULL_ANONYMOUS_VERIFIED");
    let partial_ordered = count_for_label(&classes, "PARTIAL_ORDERED_VERIFIED");
    let partial_unordered = count_for_label(&classes, "PARTIAL_UNORDERED_VERIFIED");
    let orphan = count_for_label(&classes, "ORPHAN_EVIDENCE_ONLY");
    let manifest = field_total(&members, "manifest_checkpoint_survival_count");
    let path = field_total(&members, "path_checkpoint_survival_count");
    let nodes = field_total(&members, "verified_metadata_node_count");
    RowGroup {
        key,
        scenario_count: members.len(),
        recovery_outcome_counts: outcome_counts,
        recovery_classification_counts: classes,
        named_recovery_count: named,
        anonymous_recovery_count: anonymous,
        partial_ordered_recovery_count: partial_ordered,
        partial_unordered_recovery_count: partial_unordered,
        orphan_evidence_count: orphan,
        manifest_checkpoint_survival_count: manifest,
        path_checkpoint_survival_count: path,
        verified_metadata_node_count: nodes,
    }
}

/// Groups comparison rows by the string field `key` (rows without it are
/// left out), groups in ascending key order and rows in their order; each
/// group states its scenario count, outcome tallies, summed
/// classification counts (with the named, anonymous, partial and orphan
/// counts picked out) and summed checkpoint and metadata-node counts.
pub fn group_rows_by_key(rows: Vec<JsonValue>, key: &str) -> (gs: Vec<RowGroup>)
    requires
        row_totals_fit(rows@),
    ensures
        exists|gv: Seq<(Seq<char>, Seq<JsonValue>)>| {
            &&& is_grouping(keyed_json_rows(rows@, key@), gv)
            &&& gv.len() == gs@.len()
            &&& forall|a: int| 0 <= a < gv.len() ==> describes_row_group(#[trigger] gs@[a], gv[a].0, gv[a].1)
        },
{
    let ghost all = rows@;
    let mut rest = rows;
    let mut items: Vec<(String, JsonValue)> = Vec::new();
    let ghost mut i: int = 0;
    while rest.len() > 0
        invariant
            0 <= i <= all.len(),
            rest@ == all.subrange(i, all.len() as int),
            keyed_views(items@) == keyed_json_rows(all.take(i), key@),
        decreases rest.len(),
    {
        let row = rest.remove(0);
        proof {
            assert(row == all[i]);
            assert(all.take(i + 1).drop_last() =~= all.take(i));
            assert(all.take(i + 1).last() == row);
        }
        let k = match row.get_str(key) {
            Some(k) => {
                let mut c = String::new();
                push_str(&mut c, k);
                Some(c)
            },
            None => None,
        };
        match k {
            Some(c) => {
                let ghost before = items@;
                let ghost cv = c@;
                items.push((c, row));
                proof {
                    assert(keyed_views(items@) =~= keyed_views(before).push((cv, all[i])));
                }
            },
            None => {},
        }
        proof {
            i = i + 1;
            assert(rest@ =~= all.subrange(i, all.len() as int));
        }
    }
    proof {
        assert(all.take(i) =~= all);
    }
    let ghost kv = keyed_json_rows(all, key@);
    let groups = group_by_key(items);
    let ghost gv = group_views(groups@);
    let mut grest = groups;
    let mut out: Vec<RowGroup> = Vec::new();
    let ghost mut q: int = 0;
    while grest.len() > 0
        invariant
            0 <= q <= gv.len(),
            is_grouping(kv, gv),
            kv == keyed_json_rows(all, key@),
            row_totals_fit(all),
            group_views(grest@) == gv.subrange(q, gv.len() as int),
            out@.len() == q,
            forall|a: int| 0 <= a < q ==> describes_row_group(#[trigger] out@[a], gv[a].0, gv[a].1),
        decreases grest.len(),
    {
        let ghost old_rest = grest@;
        assert(group_views(grest@).len() == grest@.len());
        let (gk, members) = grest.remove(0);
        proof {
            assert(group_views(old_rest)[0] == gv[q]);
            assert(gk@ == gv[q].0 && members@ == gv[q].1);
            assert(gv[q].1 == items_with_key(kv, gv[q].0));
            assert forall|label: Seq<char>| #[trigger] member_sum(all_count_members(members@, "recovery_classification_counts"@), label) <= u64::MAX by {
                lemma_group_within(all, key@, gk@, label);
            }
            lemma_group_within(all, key@, gk@, seq![]);
        }
        let g = row_group(gk, members);
        out.push(g);
        proof {
            assert(grest@ =~= old_rest.subrange(1, old_rest.len() as int));
            assert(group_views(grest@) =~= group_views(old_rest).subrange(1, old_rest.len() as int));
            q = q + 1;
            assert(group_views(grest@) =~= gv.subrange(q, gv.len() as int));
        }
    }
    out
}

/// How many rows have a zero (or missing) numeric field.
pub open spec fn zero_field_rows(rows: Seq<JsonValue>, field: Seq<char>) -> nat
    decreases rows.len(),
{
    if rows.len() == 0 {
        0
    } else {
        zero_field_rows(rows.drop_last(), field) + if field_or_zero(rows.last(), field) == 0 { 1nat } else { 0nat }
    }
}

proof fn lemma_zero_rows_le(rows: Seq<JsonValue>, field: Seq<char>)
    ensures
        zero_field_rows(rows, field) <= rows.len(),
    decreases rows.len(),
{
    if rows.len() > 0 {
        lemma_zero_rows_le(rows.drop_last(), field);
    }
}

/// Counts the rows whose numeric field is zero or missing (the rows that
/// kept none of some kind of metadata).
pub fn count_zero_field_rows(rows: &[JsonValue], field: &str) -> (n: usize)
    ensures
        n == zero_field_rows(rows@, field@),
{
    let mut n: usize = 0;
    let mut i: usize = 0;
    while i < rows.len()
        invariant
            i <= rows@.len(),
            n == zero_field_rows(rows@.take(i as int), field@),
        decreases rows.len() - i,
    {
        proof {
            assert(rows@.take(i + 1).drop_last() =~= rows@.take(i as int));
            lemma_zero_rows_le(rows@.take(i as int), field@);
        }
        let v = match rows[i].get(field) {
            Some(x) => match x.as_u64() {
                Some(k) => k,
                None => 0,
            },
            None => 0,
        };
        if v == 0 {
            n = n + 1;
        }
        i = i + 1;
    }
    proof {
        assert(rows@.take(rows@.len() as int) =~= rows@);
    }
    n
}

} // verus!
