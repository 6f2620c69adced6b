//! How a comparison's scenarios moved between two variants: from orphan
//! or no evidence to a partial or full salvage.
use vstd::prelude::*;
use vstd::string::*;
use crate::text::str_equals;
use super::groups::ScenarioRow;
use super::outcome::{outcome_rank, spec_outcome_rank};

verus! {

/// Transition `k` from outcome `from` to outcome `to`: 0 from at most
/// orphan evidence to at least a partial salvage, 1 orphan to partial, 2
/// orphan to full, 3 no evidence to partial, 4 no evidence to full.
pub open spec fn is_transition(from: Seq<char>, to: Seq<char>, k: int) -> bool {
    if k == 0 {
        spec_outcome_rank(from) <= 1 && spec_outcome_rank(to) >= 2
    } else if k == 1 {
        from == "ORPHAN_EVIDENCE_ONLY"@ && to == "PARTIAL_FILE_SALVAGE"@
    } else if k == 2 {
        from == "ORPHAN_EVIDENCE_ONLY"@ && to == "FULL_FILE_SALVAGE_AVAILABLE"@
    } else if k == 3 {
        from == "NO_VERIFIED_EVIDENCE"@ && to == "PARTIAL_FILE_SALVAGE"@
    } else {
        from == "NO_VERIFIED_EVIDENCE"@ && to == "FULL_FILE_SALVAGE_AVAILABLE"@
    }
}

/// How many rows made transition `k` from variant `a` to variant `b`.
pub open spec fn transition_count(rows: Seq<ScenarioRow>, a: int, b: int, k: int) -> nat
    decreases rows.len(),
{
    if rows.len() == 0 {
        0
    } else {
        transition_count(rows.drop_last(), a, b, k) + if is_transition(
            rows.last().arms@[a].outcome@,
            rows.last().arms@[b].outcome@,
            k,
        ) {
            1nat
        } else {
            0nat
        }
    }
}

/// Every row has variants `a` and `b`.
pub open spec fn rows_have(rows: Seq<ScenarioRow>, a: int, b: int) -> bool {
    forall|i: int| 0 <= i < rows.len() ==> a < (#[trigger] rows[i]).arms@.len() && b < rows[i].arms@.len()
}

fn transition(from: &str, to: &str, k: usize) -> (t: bool)
    ensures
        t == is_transition(from@, to@, k as int),
{
    if k == 0 {
        outcome_rank(from) <= 1 && outcome_rank(to) >= 2
    } else if k == 1 {
        str_equals(from, "ORPHAN_EVIDENCE_ONLY") && str_equals(to, "PARTIAL_FILE_SALVAGE")
    } else if k == 2 {
        str_equals(from, "ORPHAN_EVIDENCE_ONLY") && str_equals(to, "FULL_FILE_SALVAGE_AVAILABLE")
    } else if k == 3 {
        str_equals(from, "NO_VERIFIED_EVIDENCE") && str_equals(to, "PARTIAL_FILE_SALVAGE")
    } else {
        str_equals(from, "NO_VERIFIED_EVIDENCE") && str_equals(to, "FULL_FILE_SALVAGE_AVAILABLE")
    }
}

proof fn lemma_count_le(rows: Seq<ScenarioRow>, a: int, b: int, k: int)
    ensures
        transition_count(rows, a, b, k) <= rows.len(),
    decreases rows.len(),
{
    if rows.len() > 0 {
        lemma_count_le(rows.drop_last(), a, b, k);
    }
}

/// Counts the rows that made transition `k` (see `is_transition`) from
/// variant `a` to variant `b`.
pub fn count_transitions(rows: &Vec<ScenarioRow>, a: usize, b: usize, k: usize) -> (n: u64)
    requires
        rows_have(rows@, a as int, b as int),
        rows@.len() <= u64::MAX,
    ensures
        n == transition_count(rows@, a as int, b as int, k as int),
{
    let mut n: u64 = 0;
    let mut i: usize = 0;
    while i < rows.len()
        invariant
            i <= rows@.len(),
            rows@.len() <= u64::MAX,
            rows_have(rows@, a as int, b as int),
            n == transition_count(rows@.take(i as int), a as int, b as int, k as int),
        decreases rows.len() - i,
    {
        proof {
            assert(rows@.take(i + 1).drop_last() =~= rows@.take(i as int));
            lemma_count_le(rows@.take(i as int), a as int, b as int, k as int);
            assert(a < rows@[i as int].arms@.len() && b < rows@[i as int].arms@.len());
        }
        let r = &rows[i];
        if transition(r.arms[a].outcome.as_str(), r.arms[b].outcome.as_str(), k) {
            n = n + 1;
        }
        i = i + 1;
    }
    proof {
        assert(rows@.take(rows@.len() as int) =~= rows@);
    }
    n
}

/// The improvements of a candidate variant over a baseline.
pub struct ImprovementCounts {
    pub orphan_to_salvage: u64,
    pub orphan_to_partial: u64,
    pub orphan_to_full: u64,
    pub no_evidence_to_partial: u64,
    pub no_evidence_to_full: u64,
}

/// Counts each improvement of variant `b` over variant `a`.
pub fn improvement_counts(rows: &Vec<ScenarioRow>, a: usize, b: usize) -> (c: ImprovementCounts)
    requires
        rows_have(rows@, a as int, b as int),
        rows@.len() <= u64::MAX,
    ensures
        c.orphan_to_salvage == transition_count(rows@, a as int, b as int, 0),
        c.orphan_to_partial == transition_count(rows@, a as int, b as int, 1),
        c.orphan_to_full == transition_count(rows@, a as int, b as int, 2),
        c.no_evidence_to_partial == transition_count(rows@, a as int, b as int, 3),
        c.no_evidence_to_full == transition_count(rows@, a as int, b as int, 4),
{
    ImprovementCounts {
        orphan_to_salvage: count_transitions(rows, a, b, 0),
        orphan_to_partial: count_transitions(rows, a, b, 1),
        orphan_to_full: count_transitions(rows, a, b, 2),
        no_evidence_to_partial: count_transitions(rows, a, b, 3),
        no_evidence_to_full: count_transitions(rows, a, b, 4),
    }
}

} // verus!
