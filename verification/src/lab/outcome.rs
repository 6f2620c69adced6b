//! Outcomes of one salvage run and how two outcomes compare.
use vstd::prelude::*;
use vstd::string::*;
use crate::json::{JsonValue, json_get, get_str, get_u64, get_array};
use crate::text::str_equals;

verus! {

/// What a salvage plan yielded, by the numbers the comparison reports.
pub struct OutcomeMetrics {
    pub outcome: String,
    pub verified_block_count: u64,
    pub salvageable_file_count: u64,
    pub exported_full_file_count: u64,
}

/// The number of rows whose string field `key` is `val`.
pub open spec fn count_with_str(rows: Seq<JsonValue>, key: Seq<char>, val: Seq<char>) -> nat
    decreases rows.len(),
{
    if rows.len() == 0 {
        0
    } else {
        count_with_str(rows.drop_last(), key, val) + if get_str(rows.last(), key) == Some(val) { 1nat } else { 0nat }
    }
}

/// The number of rows of the array under `array_key` whose field `key` is `val`;
/// zero when there is no such array.
pub open spec fn count_rows_with(plan: JsonValue, array_key: Seq<char>, key: Seq<char>, val: Seq<char>) -> nat {
    match get_array(plan, array_key) {
        Some(rows) => count_with_str(rows, key, val),
        None => 0,
    }
}

/// The outcome label of a plan: any fully exported file beats any
/// salvageable file, which beats any verified block.
pub open spec fn outcome_label(exported_full: u64, salvageable: u64, verified: u64) -> Seq<char> {
    if exported_full > 0 {
        "FULL_FILE_SALVAGE_AVAILABLE"@
    } else if salvageable > 0 {
        "PARTIAL_FILE_SALVAGE"@
    } else if verified > 0 {
        "ORPHAN_EVIDENCE_ONLY"@
    } else {
        "NO_VERIFIED_EVIDENCE"@
    }
}

/// `summary.salvageable_files` of a plan, or zero.
pub open spec fn plan_salvageable_files(plan: JsonValue) -> u64 {
    match json_get(plan, "summary"@) {
        Some(s) => match get_u64(s, "salvageable_files"@) {
            Some(n) => n,
            None => 0,
        },
        None => 0,
    }
}

fn count_rows(rows: &Vec<JsonValue>, key: &str, val: &str) -> (r: u64)
    ensures
        r == count_with_str(rows@, key@, val@),
{
    let mut n: u64 = 0;
    let mut i: usize = 0;
    while i < rows.len()
        invariant
            i <= rows@.len(),
            n == count_with_str(rows@.take(i as int), key@, val@),
            n <= i,
        decreases rows.len() - i,
    {
        proof {
            assert(rows@.take(i + 1).drop_last() =~= rows@.take(i as int));
            assert(rows@.take(i + 1).last() == rows@[i as int]);
        }
        let hit = match rows[i].get_str(key) {
            Some(s) => str_equals(s, val),
            None => false,
        };
        if hit {
            n = n + 1;
        }
        i = i + 1;
    }
    proof {
        assert(rows@.take(rows@.len() as int) =~= rows@);
    }
    n
}

pub(crate) fn count_plan_rows(plan: &JsonValue, array_key: &str, key: &str, val: &str) -> (r: u64)
    ensures
        r == count_rows_with(*plan, array_key@, key@, val@),
{
    match plan.get_array(array_key) {
        Some(rows) => count_rows(rows, key, val),
        None => 0,
    }
}

/// Reads the outcome of a salvage plan: content-verified block candidates,
/// salvageable files from the summary, fully salvageable file plans, and
/// the outcome label they give.
pub fn outcome_from_plan(plan: &JsonValue) -> (m: OutcomeMetrics)
    ensures
        m.verified_block_count == count_rows_with(*plan, "block_candidates"@, "content_verification_status"@, "content_verified"@),
        m.salvageable_file_count == plan_salvageable_files(*plan),
        m.exported_full_file_count == count_rows_with(*plan, "file_plans"@, "salvage_status"@, "fully_salvageable"@),
        m.outcome@ == outcome_label(m.exported_full_file_count, m.salvageable_file_count, m.verified_block_count),
{
    let verified_block_count = count_plan_rows(plan, "block_candidates", "content_verification_status", "content_verified");
    let salvageable_file_count = match plan.get("summary") {
        Some(s) => match s.get_u64("salvageable_files") {
            Some(n) => n,
            None => 0,
        },
        None => 0,
    };
    let exported_full_file_count = count_plan_rows(plan, "file_plans", "salvage_status", "fully_salvageable");
    let outcome = if exported_full_file_count > 0 {
        "FULL_FILE_SALVAGE_AVAILABLE"
    } else if salvageable_file_count > 0 {
        "PARTIAL_FILE_SALVAGE"
    } else if verified_block_count > 0 {
        "ORPHAN_EVIDENCE_ONLY"
    } else {
        "NO_VERIFIED_EVIDENCE"
    };
    OutcomeMetrics {
        outcome: String::from_str(outcome),
        verified_block_count,
        salvageable_file_count,
        exported_full_file_count,
    }
}

/// The rank of an outcome label; -1 for an unknown label.
pub open spec fn spec_outcome_rank(v: Seq<char>) -> int {
    if v == "NO_VERIFIED_EVIDENCE"@ {
        0
    } else if v == "ORPHAN_EVIDENCE_ONLY"@ {
        1
    } else if v == "PARTIAL_FILE_SALVAGE"@ {
        2
    } else if v == "FULL_FILE_SALVAGE_AVAILABLE"@ {
        3
    } else {
        -1
    }
}

/// Orders outcome labels from no verified evidence (0) to full file
/// salvage (3); an unknown label ranks -1.
pub fn outcome_rank(value: &str) -> (r: i32)
    ensures
        r == spec_outcome_rank(value@),
{
    if str_equals(value, "NO_VERIFIED_EVIDENCE") {
        0
    } else if str_equals(value, "ORPHAN_EVIDENCE_ONLY") {
        1
    } else if str_equals(value, "PARTIAL_FILE_SALVAGE") {
        2
    } else if str_equals(value, "FULL_FILE_SALVAGE_AVAILABLE") {
        3
    } else {
        -1
    }
}

/// How the outcome moved from `old` to `new`: the named improvements out of
/// orphan evidence or no evidence, any other gain in rank, a loss in rank,
/// or no change.
pub open spec fn spec_classify_improvement(old: Seq<char>, new: Seq<char>) -> Seq<char> {
    if old == "ORPHAN_EVIDENCE_ONLY"@ && new == "PARTIAL_FILE_SALVAGE"@ {
        "IMPROVED_ORPHAN_TO_PARTIAL"@
    } else if old == "ORPHAN_EVIDENCE_ONLY"@ && new == "FULL_FILE_SALVAGE_AVAILABLE"@ {
        "IMPROVED_ORPHAN_TO_FULL"@
    } else if old == "NO_VERIFIED_EVIDENCE"@ && new == "PARTIAL_FILE_SALVAGE"@ {
        "IMPROVED_NONE_TO_PARTIAL"@
    } else if old == "NO_VERIFIED_EVIDENCE"@ && new == "FULL_FILE_SALVAGE_AVAILABLE"@ {
        "IMPROVED_NONE_TO_FULL"@
    } else if spec_outcome_rank(new) > spec_outcome_rank(old) {
        "IMPROVED_OTHER"@
    } else if spec_outcome_rank(new) < spec_outcome_rank(old) {
        "DEGRADED"@
    } else {
        "UNCHANGED"@
    }
}

/// Classifies the change from the old outcome to the new one.
pub fn classify_improvement(old: &str, new: &str) -> (r: String)
    ensures
        r@ == spec_classify_improvement(old@, new@),
{
    let label = if str_equals(old, "ORPHAN_EVIDENCE_ONLY") && str_equals(new, "PARTIAL_FILE_SALVAGE") {
        "IMPROVED_ORPHAN_TO_PARTIAL"
    } else if str_equals(old, "ORPHAN_EVIDENCE_ONLY") && str_equals(new, "FULL_FILE_SALVAGE_AVAILABLE") {
        "IMPROVED_ORPHAN_TO_FULL"
    } else if str_equals(old, "NO_VERIFIED_EVIDENCE") && str_equals(new, "PARTIAL_FILE_SALVAGE") {
        "IMPROVED_NONE_TO_PARTIAL"
    } else if str_equals(old, "NO_VERIFIED_EVIDENCE") && str_equals(new, "FULL_FILE_SALVAGE_AVAILABLE") {
        "IMPROVED_NONE_TO_FULL"
    } else if outcome_rank(new) > outcome_rank(old) {
        "IMPROVED_OTHER"
    } else if outcome_rank(new) < outcome_rank(old) {
        "DEGRADED"
    } else {
        "UNCHANGED"
    };
    String::from_str(label)
}

/// A label is one of the improvement classes.
pub open spec fn is_improvement(c: Seq<char>) -> bool {
    c == "IMPROVED_ORPHAN_TO_PARTIAL"@ || c == "IMPROVED_ORPHAN_TO_FULL"@ || c == "IMPROVED_NONE_TO_PARTIAL"@
        || c == "IMPROVED_NONE_TO_FULL"@ || c == "IMPROVED_OTHER"@
}

/// An outcome compared with itself is unchanged.
pub proof fn law_same_outcome_unchanged(x: Seq<char>)
    ensures
        spec_classify_improvement(x, x) == "UNCHANGED"@,
{
    reveal_strlit("ORPHAN_EVIDENCE_ONLY");
    reveal_strlit("NO_VERIFIED_EVIDENCE");
    reveal_strlit("PARTIAL_FILE_SALVAGE");
    reveal_strlit("FULL_FILE_SALVAGE_AVAILABLE");
    assert("ORPHAN_EVIDENCE_ONLY"@[0] != "PARTIAL_FILE_SALVAGE"@[0]);
    assert("ORPHAN_EVIDENCE_ONLY"@[0] != "FULL_FILE_SALVAGE_AVAILABLE"@[0]);
    assert("NO_VERIFIED_EVIDENCE"@[0] != "PARTIAL_FILE_SALVAGE"@[0]);
    assert("NO_VERIFIED_EVIDENCE"@[0] != "FULL_FILE_SALVAGE_AVAILABLE"@[0]);
}

/// A change is an improvement exactly when the new outcome ranks above the
/// old one, and a degradation exactly when it ranks below; so reversing an
/// improvement degrades.
pub proof fn law_improvement_follows_rank(old: Seq<char>, new: Seq<char>)
    ensures
        is_improvement(spec_classify_improvement(old, new)) <==> spec_outcome_rank(new) > spec_outcome_rank(old),
        spec_classify_improvement(old, new) == "DEGRADED"@ <==> spec_outcome_rank(new) < spec_outcome_rank(old),
        is_improvement(spec_classify_improvement(old, new)) ==> spec_classify_improvement(new, old) == "DEGRADED"@,
{
    reveal_strlit("ORPHAN_EVIDENCE_ONLY");
    reveal_strlit("NO_VERIFIED_EVIDENCE");
    reveal_strlit("PARTIAL_FILE_SALVAGE");
    reveal_strlit("FULL_FILE_SALVAGE_AVAILABLE");
    reveal_strlit("IMPROVED_ORPHAN_TO_PARTIAL");
    reveal_strlit("IMPROVED_ORPHAN_TO_FULL");
    reveal_strlit("IMPROVED_NONE_TO_PARTIAL");
    reveal_strlit("IMPROVED_NONE_TO_FULL");
    reveal_strlit("IMPROVED_OTHER");
    reveal_strlit("DEGRADED");
    reveal_strlit("UNCHANGED");
    assert("ORPHAN_EVIDENCE_ONLY"@[0] != "PARTIAL_FILE_SALVAGE"@[0]);
    assert("ORPHAN_EVIDENCE_ONLY"@[0] != "FULL_FILE_SALVAGE_AVAILABLE"@[0]);
    assert("ORPHAN_EVIDENCE_ONLY"@[0] != "NO_VERIFIED_EVIDENCE"@[0]);
    assert("NO_VERIFIED_EVIDENCE"@[0] != "PARTIAL_FILE_SALVAGE"@[0]);
    assert("NO_VERIFIED_EVIDENCE"@[0] != "FULL_FILE_SALVAGE_AVAILABLE"@[0]);
    assert("PARTIAL_FILE_SALVAGE"@[0] != "FULL_FILE_SALVAGE_AVAILABLE"@[0]);
    assert("DEGRADED"@[0] != "IMPROVED_OTHER"@[0]);
    assert("UNCHANGED"@[0] != "DEGRADED"@[0]);
}


/// A named improvement names the outcomes it moved between: each of the
/// four named classes comes exactly from its old outcome (orphan evidence
/// or no verified evidence) and its new outcome (partial or full salvage),
/// so a class ending in full salvage only ever has full salvage as its new
/// outcome, and one ending in partial salvage only partial salvage.
pub proof fn law_named_improvements_name_their_outcomes(old: Seq<char>, new: Seq<char>)
    ensures
        (spec_classify_improvement(old, new) == "IMPROVED_ORPHAN_TO_PARTIAL"@)
            <==> (old == "ORPHAN_EVIDENCE_ONLY"@ && new == "PARTIAL_FILE_SALVAGE"@),
        (spec_classify_improvement(old, new) == "IMPROVED_ORPHAN_TO_FULL"@)
            <==> (old == "ORPHAN_EVIDENCE_ONLY"@ && new == "FULL_FILE_SALVAGE_AVAILABLE"@),
        (spec_classify_improvement(old, new) == "IMPROVED_NONE_TO_PARTIAL"@)
            <==> (old == "NO_VERIFIED_EVIDENCE"@ && new == "PARTIAL_FILE_SALVAGE"@),
        (spec_classify_improvement(old, new) == "IMPROVED_NONE_TO_FULL"@)
            <==> (old == "NO_VERIFIED_EVIDENCE"@ && new == "FULL_FILE_SALVAGE_AVAILABLE"@),
        (spec_classify_improvement(old, new) == "IMPROVED_ORPHAN_TO_FULL"@
            || spec_classify_improvement(old, new) == "IMPROVED_NONE_TO_FULL"@) ==> new == "FULL_FILE_SALVAGE_AVAILABLE"@,
        (spec_classify_improvement(old, new) == "IMPROVED_ORPHAN_TO_PARTIAL"@
            || spec_classify_improvement(old, new) == "IMPROVED_NONE_TO_PARTIAL"@) ==> new == "PARTIAL_FILE_SALVAGE"@,
{
    reveal_strlit("ORPHAN_EVIDENCE_ONLY");
    reveal_strlit("NO_VERIFIED_EVIDENCE");
    reveal_strlit("PARTIAL_FILE_SALVAGE");
    reveal_strlit("FULL_FILE_SALVAGE_AVAILABLE");
    reveal_strlit("IMPROVED_ORPHAN_TO_PARTIAL");
    reveal_strlit("IMPROVED_ORPHAN_TO_FULL");
    reveal_strlit("IMPROVED_NONE_TO_PARTIAL");
    reveal_strlit("IMPROVED_NONE_TO_FULL");
    reveal_strlit("IMPROVED_OTHER");
    reveal_strlit("DEGRADED");
    reveal_strlit("UNCHANGED");
    assert("ORPHAN_EVIDENCE_ONLY"@[0] != "NO_VERIFIED_EVIDENCE"@[0]);
    assert("PARTIAL_FILE_SALVAGE"@[0] != "FULL_FILE_SALVAGE_AVAILABLE"@[0]);
    assert("IMPROVED_ORPHAN_TO_PARTIAL"@.len() == 26);
    assert("IMPROVED_ORPHAN_TO_FULL"@.len() == 23);
    assert("IMPROVED_NONE_TO_PARTIAL"@.len() == 24);
    assert("IMPROVED_NONE_TO_FULL"@.len() == 21);
    assert("IMPROVED_OTHER"@.len() == 14);
    assert("DEGRADED"@.len() == 8);
    assert("UNCHANGED"@.len() == 9);
}

/// More evidence never gives a lower outcome: a run with at least as many
/// exported complete files, salvageable files and verified blocks as
/// another ranks at least as high.
pub proof fn law_more_evidence_never_ranks_lower(
    full_a: u64,
    salvageable_a: u64,
    verified_a: u64,
    full_b: u64,
    salvageable_b: u64,
    verified_b: u64,
)
    requires
        full_a >= full_b,
        salvageable_a >= salvageable_b,
        verified_a >= verified_b,
    ensures
        spec_outcome_rank(outcome_label(full_a, salvageable_a, verified_a))
            >= spec_outcome_rank(outcome_label(full_b, salvageable_b, verified_b)),
{
    reveal_strlit("ORPHAN_EVIDENCE_ONLY");
    reveal_strlit("NO_VERIFIED_EVIDENCE");
    reveal_strlit("PARTIAL_FILE_SALVAGE");
    reveal_strlit("FULL_FILE_SALVAGE_AVAILABLE");
    assert("ORPHAN_EVIDENCE_ONLY"@[0] != "PARTIAL_FILE_SALVAGE"@[0]);
    assert("ORPHAN_EVIDENCE_ONLY"@[0] != "FULL_FILE_SALVAGE_AVAILABLE"@[0]);
    assert("ORPHAN_EVIDENCE_ONLY"@[0] != "NO_VERIFIED_EVIDENCE"@[0]);
    assert("NO_VERIFIED_EVIDENCE"@[0] != "PARTIAL_FILE_SALVAGE"@[0]);
    assert("NO_VERIFIED_EVIDENCE"@[0] != "FULL_FILE_SALVAGE_AVAILABLE"@[0]);
    assert("PARTIAL_FILE_SALVAGE"@[0] != "FULL_FILE_SALVAGE_AVAILABLE"@[0]);
}

} // verus!
