//! Recovery classification tallies and the terminal outcome they give.
use vstd::prelude::*;
use vstd::string::*;
use crate::json::{JsonValue, json_get, json_as_u64, get_str, get_array};
use crate::text::{str_equals, str_starts_with};
use super::counts::{labels_ascending, has_label, label_count, count_for_label, add_to_label, lemma_label_count_at};
use crate::text::{chars_lt, lemma_chars_lt_irreflexive};
use super::outcome::{count_rows_with, count_plan_rows};

verus! {

/// How many items are `k`.
pub open spec fn occurrences(items: Seq<Seq<char>>, k: Seq<char>) -> nat
    decreases items.len(),
{
    if items.len() == 0 {
        0
    } else {
        occurrences(items.drop_last(), k) + if items.last() == k { 1nat } else { 0nat }
    }
}

/// `es` counts the items: one entry per distinct item, in ascending order,
/// holding how often it occurs.
pub open spec fn is_count_table(es: Seq<(String, u64)>, items: Seq<Seq<char>>) -> bool {
    &&& labels_ascending(es)
    &&& forall|k: Seq<char>| #[trigger] has_label(es, k) <==> items.contains(k)
    &&& forall|k: Seq<char>| #[trigger] label_count(es, k) == occurrences(items, k)
}

proof fn lemma_occurrences_bound(items: Seq<Seq<char>>, k: Seq<char>)
    ensures
        occurrences(items, k) <= items.len(),
    decreases items.len(),
{
    if items.len() > 0 {
        lemma_occurrences_bound(items.drop_last(), k);
    }
}

proof fn lemma_contains_push(items: Seq<Seq<char>>, x: Seq<char>, k: Seq<char>)
    ensures
        items.push(x).contains(k) <==> items.contains(k) || k == x,
{
    if items.push(x).contains(k) {
        let i = choose|i: int| 0 <= i < items.push(x).len() && items.push(x)[i] == k;
        if i < items.len() {
            assert(items[i] == k);
        }
    }
    if items.contains(k) {
        let i = choose|i: int| 0 <= i < items.len() && items[i] == k;
        assert(items.push(x)[i] == k);
    }
    if k == x {
        assert(items.push(x)[items.len() as int] == k);
    }
}

/// The counts of a table's entries, summed.
pub open spec fn count_total(es: Seq<(String, u64)>) -> nat
    decreases es.len(),
{
    if es.len() == 0 {
        0
    } else {
        count_total(es.drop_last()) + es.last().1 as nat
    }
}

/// The labels of a table, in order.
pub open spec fn table_labels(es: Seq<(String, u64)>) -> Seq<Seq<char>> {
    es.map_values(|e: (String, u64)| e.0@)
}

/// How often the labels occur among the items, summed over the labels.
spec fn occurrences_over(labels: Seq<Seq<char>>, items: Seq<Seq<char>>) -> nat
    decreases labels.len(),
{
    if labels.len() == 0 {
        0
    } else {
        occurrences_over(labels.drop_last(), items) + occurrences(items, labels.last())
    }
}

proof fn lemma_occurrences_over_empty(labels: Seq<Seq<char>>)
    ensures
        occurrences_over(labels, seq![]) == 0,
    decreases labels.len(),
{
    if labels.len() > 0 {
        lemma_occurrences_over_empty(labels.drop_last());
    }
}

/// Dropping the last item takes away, over all labels, the number of labels equal to it.
proof fn lemma_occurrences_over_step(labels: Seq<Seq<char>>, items: Seq<Seq<char>>)
    requires
        items.len() > 0,
    ensures
        occurrences_over(labels, items) == occurrences_over(labels, items.drop_last()) + occurrences(labels, items.last()),
    decreases labels.len(),
{
    if labels.len() > 0 {
        lemma_occurrences_over_step(labels.drop_last(), items);
    }
}

proof fn lemma_occurrences_absent(s: Seq<Seq<char>>, k: Seq<char>)
    requires
        !s.contains(k),
    ensures
        occurrences(s, k) == 0,
    decreases s.len(),
{
    if s.len() > 0 {
        assert(s.last() != k) by {
            assert(s[s.len() - 1] == s.last());
        }
        assert(!s.drop_last().contains(k)) by {
            if s.drop_last().contains(k) {
                let i = choose|i: int| 0 <= i < s.drop_last().len() && s.drop_last()[i] == k;
                assert(s[i] == k);
            }
        }
        lemma_occurrences_absent(s.drop_last(), k);
    }
}

/// A label that occurs once among distinct labels is counted once.
proof fn lemma_occurrences_distinct(labels: Seq<Seq<char>>, k: Seq<char>)
    requires
        forall|i: int, j: int| 0 <= i < j < labels.len() ==> labels[i] != labels[j],
        labels.contains(k),
    ensures
        occurrences(labels, k) == 1,
    decreases labels.len(),
{
    let n = labels.len() - 1;
    let front = labels.drop_last();
    if labels.last() == k {
        assert(!front.contains(k)) by {
            if front.contains(k) {
                let i = choose|i: int| 0 <= i < front.len() && front[i] == k;
                assert(labels[i] == labels[n]);
            }
        }
        lemma_occurrences_absent(front, k);
    } else {
        let i = choose|i: int| 0 <= i < labels.len() && labels[i] == k;
        assert(i < n);
        assert(front[i] == k);
        assert forall|a: int, b: int| 0 <= a < b < front.len() implies front[a] != front[b] by {
            assert(front[a] == labels[a] && front[b] == labels[b]);
        }
        lemma_occurrences_distinct(front, k);
    }
}

/// Over distinct labels that hold every item, the occurrences add up to the item count.
proof fn lemma_occurrences_over_covers(labels: Seq<Seq<char>>, items: Seq<Seq<char>>)
    requires
        forall|i: int, j: int| 0 <= i < j < labels.len() ==> labels[i] != labels[j],
        forall|i: int| 0 <= i < items.len() ==> labels.contains(#[trigger] items[i]),
    ensures
        occurrences_over(labels, items) == items.len(),
    decreases items.len(),
{
    if items.len() == 0 {
        assert(items =~= seq![]);
        lemma_occurrences_over_empty(labels);
    } else {
        let front = items.drop_last();
        assert forall|i: int| 0 <= i < front.len() implies labels.contains(#[trigger] front[i]) by {
            assert(front[i] == items[i]);
        }
        lemma_occurrences_over_step(labels, items);
        lemma_occurrences_over_covers(labels, front);
        assert(labels.contains(items[items.len() - 1]));
        lemma_occurrences_distinct(labels, items.last());
    }
}

/// The first `n` entries count what their labels' occurrences add up to.
proof fn lemma_count_total_prefix(es: Seq<(String, u64)>, items: Seq<Seq<char>>, n: int)
    requires
        is_count_table(es, items),
        0 <= n <= es.len(),
    ensures
        count_total(es.take(n)) == occurrences_over(table_labels(es).take(n), items),
    decreases n,
{
    if n > 0 {
        lemma_count_total_prefix(es, items, n - 1);
        assert(es.take(n).drop_last() =~= es.take(n - 1));
        assert(table_labels(es).take(n).drop_last() =~= table_labels(es).take(n - 1));
        lemma_label_count_at(es, n - 1);
        assert(label_count(es, es[n - 1].0@) == occurrences(items, es[n - 1].0@));
    }
}

/// A count table adds up to the number of items it counts: every item is
/// counted, under exactly one label.
pub proof fn law_count_table_adds_up(es: Seq<(String, u64)>, items: Seq<Seq<char>>)
    requires
        is_count_table(es, items),
    ensures
        count_total(es) == items.len(),
{
    let labels = table_labels(es);
    lemma_count_total_prefix(es, items, es.len() as int);
    assert(es.take(es.len() as int) =~= es);
    assert(labels.take(es.len() as int) =~= labels);
    assert forall|i: int, j: int| 0 <= i < j < labels.len() implies labels[i] != labels[j] by {
        assert(chars_lt(es[i].0@, es[j].0@));
        lemma_chars_lt_irreflexive(es[i].0@);
    }
    assert forall|i: int| 0 <= i < items.len() implies labels.contains(#[trigger] items[i]) by {
        assert(items.contains(items[i]));
        assert(has_label(es, items[i]));
        let k = choose|k: int| 0 <= k < es.len() && #[trigger] es[k].0@ == items[i];
        assert(labels[k] == items[i]);
    }
    lemma_occurrences_over_covers(labels, items);
}

/// Counts `items` into a fresh table.
fn tally(items: &Vec<String>) -> (out: Vec<(String, u64)>)
    ensures
        is_count_table(out@, items@.map_values(|s: String| s@)),
{
    let ghost all = items@.map_values(|s: String| s@);
    let mut out: Vec<(String, u64)> = Vec::new();
    let mut i: usize = 0;
    proof {
        assert(all.take(0) =~= Seq::<Seq<char>>::empty());
    }
    while i < items.len()
        invariant
            i <= items@.len(),
            all == items@.map_values(|s: String| s@),
            is_count_table(out@, all.take(i as int)),
        decreases items.len() - i,
    {
        let ghost pre = all.take(i as int);
        proof {
            assert(all.take(i + 1) =~= pre.push(items@[i as int]@));
            lemma_occurrences_bound(pre, items@[i as int]@);
        }
        add_to_label(&mut out, items[i].as_str(), 1);
        proof {
            let post = all.take(i + 1);
            assert forall|k: Seq<char>| #[trigger] has_label(out@, k) <==> post.contains(k) by {
                lemma_contains_push(pre, items@[i as int]@, k);
            }
            assert forall|k: Seq<char>| #[trigger] label_count(out@, k) == occurrences(post, k) by {
                assert(post.drop_last() =~= pre);
            }
        }
        i = i + 1;
    }
    proof {
        assert(all.take(items@.len() as int) =~= all);
    }
    out
}

/// Counts how often each outcome label occurs.
pub fn count_outcomes(items: &Vec<String>) -> (out: Vec<(String, u64)>)
    ensures
        is_count_table(out@, items@.map_values(|s: String| s@)),
{
    tally(items)
}

/// The recovery classifications of a plan's file plans, in order (rows
/// without one are skipped).
pub open spec fn plan_classifications(plan: JsonValue) -> Seq<Seq<char>> {
    match get_array(plan, "file_plans"@) {
        Some(rows) => rows.filter_map(|r: JsonValue| get_str(r, "recovery_classification"@)),
        None => seq![],
    }
}

/// Counts the recovery classifications of a salvage plan's file plans.
pub fn recovery_classification_counts(plan: &JsonValue) -> (out: Vec<(String, u64)>)
    ensures
        is_count_table(out@, plan_classifications(*plan)),
{
    let mut labels: Vec<String> = Vec::new();
    let ghost f = |r: JsonValue| get_str(r, "recovery_classification"@);
    match plan.get_array("file_plans") {
        Some(rows) => {
            let mut i: usize = 0;
            while i < rows.len()
                invariant
                    i <= rows@.len(),
                    f == (|r: JsonValue| get_str(r, "recovery_classification"@)),
                    labels@.map_values(|s: String| s@) == rows@.take(i as int).filter_map(f),
                decreases rows.len() - i,
            {
                proof {
                    rows@.lemma_filter_map_take_succ(f, i as int);
                }
                let ghost old_labels = labels@;
                match rows[i].get_str("recovery_classification") {
                    Some(c) => {
                        labels.push(String::from_str(c));
                        proof {
                            assert(labels@.map_values(|s: String| s@) =~= old_labels.map_values(|s: String| s@).push(c@));
                        }
                    },
                    None => {},
                }
                proof {
                    assert(labels@.map_values(|s: String| s@) =~= rows@.take(i + 1).filter_map(f));
                }
                i = i + 1;
            }
            proof {
                assert(rows@.take(rows@.len() as int) =~= rows@);
            }
        },
        None => {
            proof {
                assert(labels@.map_values(|s: String| s@) =~= Seq::<Seq<char>>::empty());
            }
        },
    }
    tally(&labels)
}

/// The count of `key` in the candidate table minus its count in the base table.
pub fn classification_delta(base: &Vec<(String, u64)>, candidate: &Vec<(String, u64)>, key: &str) -> (r: i64)
    requires
        labels_ascending(base@),
        labels_ascending(candidate@),
        label_count(candidate@, key@) <= i64::MAX,
        label_count(base@, key@) <= i64::MAX,
    ensures
        r == label_count(candidate@, key@) - label_count(base@, key@),
{
    let c = count_for_label(candidate, key);
    let b = count_for_label(base, key);
    c as i64 - b as i64
}

/// The `(label, count)` members of a row's count object under `field`; a
/// count that is not an unsigned integer counts zero.
pub open spec fn row_count_members(row: JsonValue, field: Seq<char>) -> Seq<(Seq<char>, u64)> {
    match json_get(row, field) {
        Some(JsonValue::Object(ms)) => ms@.map_values(
            |m: (String, JsonValue)| (m.0@, match json_as_u64(m.1) { Some(n) => n, None => 0u64 }),
        ),
        _ => seq![],
    }
}

/// The count members of all rows, in order.
pub open spec fn all_count_members(rows: Seq<JsonValue>, field: Seq<char>) -> Seq<(Seq<char>, u64)>
    decreases rows.len(),
{
    if rows.len() == 0 {
        seq![]
    } else {
        all_count_members(rows.drop_last(), field) + row_count_members(rows.last(), field)
    }
}

/// The sum of the counts of label `k` among the members.
pub open spec fn member_sum(ms: Seq<(Seq<char>, u64)>, k: Seq<char>) -> nat
    decreases ms.len(),
{
    if ms.len() == 0 {
        0
    } else {
        member_sum(ms.drop_last(), k) + if ms.last().0 == k { ms.last().1 as nat } else { 0nat }
    }
}

/// Some member has label `k`.
pub open spec fn has_member(ms: Seq<(Seq<char>, u64)>, k: Seq<char>) -> bool {
    exists|i: int| 0 <= i < ms.len() && #[trigger] ms[i].0 == k
}

/// `es` sums the member counts: one entry per label met, in ascending order.
pub open spec fn is_sum_table(es: Seq<(String, u64)>, ms: Seq<(Seq<char>, u64)>) -> bool {
    &&& labels_ascending(es)
    &&& forall|k: Seq<char>| #[trigger] has_label(es, k) <==> has_member(ms, k)
    &&& forall|k: Seq<char>| #[trigger] label_count(es, k) == member_sum(ms, k)
}

pub(crate) proof fn lemma_member_sum_append(a: Seq<(Seq<char>, u64)>, b: Seq<(Seq<char>, u64)>, k: Seq<char>)
    ensures
        member_sum(a + b, k) == member_sum(a, k) + member_sum(b, k),
    decreases b.len(),
{
    if b.len() == 0 {
        assert(a + b =~= a);
    } else {
        lemma_member_sum_append(a, b.drop_last(), k);
        assert((a + b).drop_last() =~= a + b.drop_last());
    }
}

proof fn lemma_member_sum_prefix(rows: Seq<JsonValue>, field: Seq<char>, i: int, k: Seq<char>)
    requires
        0 <= i <= rows.len(),
    ensures
        member_sum(all_count_members(rows.take(i), field), k) <= member_sum(all_count_members(rows, field), k),
    decreases rows.len(),
{
    if i < rows.len() {
        assert(rows.drop_last().take(i) =~= rows.take(i));
        lemma_member_sum_prefix(rows.drop_last(), field, i, k);
        lemma_member_sum_append(all_count_members(rows.drop_last(), field), row_count_members(rows.last(), field), k);
    } else {
        assert(rows.take(i) =~= rows);
    }
}

pub(crate) proof fn lemma_has_member_push(ms: Seq<(Seq<char>, u64)>, x: (Seq<char>, u64), k: Seq<char>)
    ensures
        has_member(ms.push(x), k) <==> has_member(ms, k) || k == x.0,
{
    if has_member(ms.push(x), k) {
        let i = choose|i: int| 0 <= i < ms.push(x).len() && ms.push(x)[i].0 == k;
        if i < ms.len() {
            assert(ms[i].0 == k);
        }
    }
    if has_member(ms, k) {
        let i = choose|i: int| 0 <= i < ms.len() && ms[i].0 == k;
        assert(ms.push(x)[i].0 == k);
    }
    if k == x.0 {
        assert(ms.push(x)[ms.len() as int].0 == k);
    }
}

/// Sums the count objects under `field` of all rows, label by label.
pub fn merge_classification_counts(rows: &[JsonValue], field: &str) -> (out: Vec<(String, u64)>)
    requires
        forall|k: Seq<char>| #[trigger] member_sum(all_count_members(rows@, field@), k) <= u64::MAX,
    ensures
        is_sum_table(out@, all_count_members(rows@, field@)),
{
    let ghost full = all_count_members(rows@, field@);
    let mut out: Vec<(String, u64)> = Vec::new();
    let mut i: usize = 0;
    proof {
        assert(rows@.take(0) =~= Seq::<JsonValue>::empty());
    }
    while i < rows.len()
        invariant
            i <= rows@.len(),
            full == all_count_members(rows@, field@),
            forall|k: Seq<char>| #[trigger] member_sum(full, k) <= u64::MAX,
            is_sum_table(out@, all_count_members(rows@.take(i as int), field@)),
        decreases rows.len() - i,
    {
        let ghost done = all_count_members(rows@.take(i as int), field@);
        let ghost row_ms = row_count_members(rows@[i as int], field@);
        proof {
            assert(rows@.take(i + 1).drop_last() =~= rows@.take(i as int));
            assert(all_count_members(rows@.take(i + 1), field@) == done + row_ms);
            assert forall|k: Seq<char>| #[trigger] member_sum(done + row_ms, k) <= u64::MAX by {
                lemma_member_sum_prefix(rows@, field@, i + 1, k);
            }
        }
        match rows[i].get(field) {
            Some(v) => match v.as_object() {
                Some(ms) => {
                    let mut j: usize = 0;
                    proof {
                        assert(row_ms == ms@.map_values(
                            |m: (String, JsonValue)| (m.0@, match json_as_u64(m.1) { Some(n) => n, None => 0u64 }),
                        ));
                        assert(done + row_ms.take(0) =~= done);
                    }
                    while j < ms.len()
                        invariant
                            j <= ms@.len(),
                            row_ms.len() == ms@.len(),
                            forall|q: int| 0 <= q < ms@.len() ==> #[trigger] row_ms[q] == (ms@[q].0@, match json_as_u64(ms@[q].1) { Some(n) => n, None => 0u64 }),
                            forall|k: Seq<char>| #[trigger] member_sum(done + row_ms, k) <= u64::MAX,
                            is_sum_table(out@, done + row_ms.take(j as int)),
                        decreases ms.len() - j,
                    {
                        let n = match ms[j].1.as_u64() {
                            Some(n) => n,
                            None => 0,
                        };
                        let ghost pre = done + row_ms.take(j as int);
                        proof {
                            assert(row_ms[j as int] == (ms@[j as int].0@, n));
                            assert(done + row_ms.take(j + 1) =~= pre.push((ms@[j as int].0@, n)));
                            assert(done + row_ms =~= (done + row_ms.take(j + 1)) + row_ms.subrange(j + 1, row_ms.len() as int));
                            lemma_member_sum_append(done + row_ms.take(j + 1), row_ms.subrange(j + 1, row_ms.len() as int), ms@[j as int].0@);
                            assert(member_sum(pre.push((ms@[j as int].0@, n)), ms@[j as int].0@) == member_sum(pre, ms@[j as int].0@) + n) by {
                                assert(pre.push((ms@[j as int].0@, n)).drop_last() =~= pre);
                            }
                        }
                        add_to_label(&mut out, ms[j].0.as_str(), n);
                        proof {
                            let post = pre.push((ms@[j as int].0@, n));
                            assert forall|k: Seq<char>| #[trigger] has_label(out@, k) <==> has_member(post, k) by {
                                lemma_has_member_push(pre, (ms@[j as int].0@, n), k);
                            }
                            assert forall|k: Seq<char>| #[trigger] label_count(out@, k) == member_sum(post, k) by {
                                assert(post.drop_last() =~= pre);
                            }
                        }
                        j = j + 1;
                    }
                    proof {
                        assert(row_ms.take(ms@.len() as int) =~= row_ms);
                    }
                },
                None => {
                    proof {
                        assert(row_ms =~= Seq::<(Seq<char>, u64)>::empty());
                        assert(done + row_ms =~= done);
                    }
                },
            },
            None => {
                proof {
                    assert(row_ms =~= Seq::<(Seq<char>, u64)>::empty());
                    assert(done + row_ms =~= done);
                }
            },
        }
        proof {
            assert forall|k: Seq<char>| #[trigger] member_sum(all_count_members(rows@.take(i + 1), field@), k) <= u64::MAX by {
                lemma_member_sum_prefix(rows@, field@, i + 1, k);
            }
        }
        i = i + 1;
    }
    proof {
        assert(rows@.take(rows@.len() as int) =~= rows@);
    }
    out
}

/// The number of metadata records of a plan with the given schema.
pub fn metadata_node_count(plan: &JsonValue, schema: &str) -> (r: u64)
    ensures
        r == count_rows_with(*plan, "experimental_metadata"@, "schema"@, schema@),
{
    count_plan_rows(plan, "experimental_metadata", "schema", schema)
}

} // verus!
