//! The summary of an experiment over many archives: runs in archive order,
//! how many reached each outcome, and the totals.
use vstd::prelude::*;
use vstd::string::*;
use crate::text::{chars_lt, chars_le, str_lt, str_equals, push_str, u64_to_decimal, decimal, lemma_chars_lt_total, lemma_chars_lt_asymmetric, lemma_chars_lt_irreflexive};
use super::runs::{RunMetadata, run_outcome, classify_outcome};

verus! {

/// `x` placed after the last run whose archive id is at most its id.
pub open spec fn insert_run(s: Seq<RunMetadata>, x: RunMetadata) -> Seq<RunMetadata>
    decreases s.len(),
{
    if s.len() == 0 {
        seq![x]
    } else if chars_le(s.last().archive_id@, x.archive_id@) {
        s.push(x)
    } else {
        insert_run(s.drop_last(), x).push(s.last())
    }
}

/// The runs stably sorted by archive id.
pub open spec fn sorted_runs(s: Seq<RunMetadata>) -> Seq<RunMetadata>
    decreases s.len(),
{
    if s.len() == 0 {
        seq![]
    } else {
        insert_run(sorted_runs(s.drop_last()), s.last())
    }
}

proof fn lemma_insert_run_at(s: Seq<RunMetadata>, x: RunMetadata, j: int)
    requires
        0 <= j <= s.len(),
        forall|k: int| j <= k < s.len() ==> chars_lt(x.archive_id@, (#[trigger] s[k]).archive_id@),
        j == 0 || chars_le(s[j - 1].archive_id@, x.archive_id@),
    ensures
        insert_run(s, x) == s.insert(j, x),
    decreases s.len(),
{
    if j == s.len() {
        assert(s.push(x) =~= s.insert(j, x));
        if s.len() == 0 {
            assert(seq![x] =~= s.insert(j, x));
        }
    } else {
        let last = s[s.len() - 1];
        assert(chars_lt(x.archive_id@, last.archive_id@));
        lemma_chars_lt_asymmetric(x.archive_id@, last.archive_id@);
        lemma_chars_lt_irreflexive(x.archive_id@);
        lemma_insert_run_at(s.drop_last(), x, j);
        assert(s.drop_last().insert(j, x).push(s.last()) =~= s.insert(j, x));
    }
}

/// Sorts runs by archive id, keeping the order of equal ids.
pub fn sort_runs_by_archive_id(runs: Vec<RunMetadata>) -> (out: Vec<RunMetadata>)
    ensures
        out@ == sorted_runs(runs@),
{
    let ghost all = runs@;
    let mut rest = runs;
    let mut out: Vec<RunMetadata> = Vec::new();
    let ghost mut i: int = 0;
    while rest.len() > 0
        invariant
            0 <= i <= all.len(),
            rest@ == all.subrange(i, all.len() as int),
            out@ == sorted_runs(all.take(i)),
        decreases rest.len(),
    {
        let x = rest.remove(0);
        proof {
            assert(x == all[i]);
        }
        let mut j = out.len();
        while j > 0 && str_lt(x.archive_id.as_str(), out[j - 1].archive_id.as_str())
            invariant
                j <= out@.len(),
                forall|k: int| j <= k < out@.len() ==> chars_lt(x.archive_id@, (#[trigger] out@[k]).archive_id@),
            decreases j,
        {
            j = j - 1;
        }
        proof {
            if j > 0 {
                lemma_chars_lt_total(out@[j - 1].archive_id@, x.archive_id@);
            }
            lemma_insert_run_at(out@, x, j as int);
            assert(all.take(i + 1).drop_last() =~= all.take(i));
            assert(all.take(i + 1).last() == x);
        }
        out.insert(j, x);
        proof {
            i = i + 1;
            assert(rest@ =~= all.subrange(i, all.len() as int));
        }
    }
    proof {
        assert(all.take(i) =~= all);
    }
    out
}

pub(crate) proof fn lemma_sorted_runs_len(s: Seq<RunMetadata>)
    ensures
        sorted_runs(s).len() == s.len(),
    decreases s.len(),
{
    if s.len() > 0 {
        lemma_sorted_runs_len(s.drop_last());
        lemma_insert_run_len(sorted_runs(s.drop_last()), s.last());
    }
}

proof fn lemma_insert_run_len(s: Seq<RunMetadata>, x: RunMetadata)
    ensures
        insert_run(s, x).len() == s.len() + 1,
    decreases s.len(),
{
    if s.len() > 0 && !chars_le(s.last().archive_id@, x.archive_id@) {
        lemma_insert_run_len(s.drop_last(), x);
    }
}

/// Metric `m` of a run: 0 verified blocks, 1 salvageable, 2 unsalvageable,
/// 3 unmappable files, 4 exported block, 5 extent, 6 complete-file artifacts.
pub open spec fn run_metric(r: RunMetadata, m: int) -> nat {
    if m == 0 {
        r.verified_block_count as nat
    } else if m == 1 {
        r.salvageable_file_count as nat
    } else if m == 2 {
        r.unsalvageable_file_count as nat
    } else if m == 3 {
        r.unmappable_file_count as nat
    } else if m == 4 {
        r.exported_block_artifact_count as nat
    } else if m == 5 {
        r.exported_extent_artifact_count as nat
    } else {
        r.exported_full_file_artifact_count as nat
    }
}

/// The sum of metric `m` over the runs.
pub open spec fn metric_total(rs: Seq<RunMetadata>, m: int) -> nat
    decreases rs.len(),
{
    if rs.len() == 0 {
        0
    } else {
        metric_total(rs.drop_last(), m) + run_metric(rs.last(), m)
    }
}

/// The largest value a metric's field can hold.
pub open spec fn metric_max(m: int) -> nat {
    if m <= 3 { u64::MAX as nat } else { usize::MAX as nat }
}

fn metric_of(r: &RunMetadata, m: usize) -> (v: u64)
    requires
        m < 7,
    ensures
        v == run_metric(*r, m as int),
{
    if m == 0 {
        r.verified_block_count
    } else if m == 1 {
        r.salvageable_file_count
    } else if m == 2 {
        r.unsalvageable_file_count
    } else if m == 3 {
        r.unmappable_file_count
    } else if m == 4 {
        r.exported_block_artifact_count as u64
    } else if m == 5 {
        r.exported_extent_artifact_count as u64
    } else {
        r.exported_full_file_artifact_count as u64
    }
}

proof fn lemma_total_prefix(rs: Seq<RunMetadata>, j: int, m: int)
    requires
        0 <= j <= rs.len(),
    ensures
        metric_total(rs.take(j), m) <= metric_total(rs, m),
    decreases rs.len(),
{
    if j < rs.len() {
        assert(rs.drop_last().take(j) =~= rs.take(j));
        lemma_total_prefix(rs.drop_last(), j, m);
    } else {
        assert(rs.take(j) =~= rs);
    }
}

/// Sums a metric over the runs.
fn total_of(runs: &Vec<RunMetadata>, m: usize) -> (t: u64)
    requires
        m < 7,
        metric_total(runs@, m as int) <= u64::MAX,
    ensures
        t == metric_total(runs@, m as int),
{
    let mut acc: u64 = 0;
    let mut i: usize = 0;
    while i < runs.len()
        invariant
            i <= runs@.len(),
            m < 7,
            metric_total(runs@, m as int) <= u64::MAX,
            acc == metric_total(runs@.take(i as int), m as int),
        decreases runs.len() - i,
    {
        proof {
            assert(runs@.take(i + 1).drop_last() =~= runs@.take(i as int));
            assert(runs@.take(i + 1).last() == runs@[i as int]);
            lemma_total_prefix(runs@, i + 1, m as int);
        }
        acc = acc + metric_of(&runs[i], m);
        i = i + 1;
    }
    proof {
        assert(runs@.take(runs@.len() as int) =~= runs@);
    }
    acc
}

/// The number of runs satisfying a predicate.
pub open spec fn count_runs(rs: Seq<RunMetadata>, p: spec_fn(RunMetadata) -> bool) -> nat
    decreases rs.len(),
{
    if rs.len() == 0 {
        0
    } else {
        count_runs(rs.drop_last(), p) + if p(rs.last()) { 1nat } else { 0nat }
    }
}

/// Run `r` has a positive metric `m` (`kind` 0 or 1), or its outcome is
/// `outcome` (`kind` 2).
pub open spec fn run_matches(r: RunMetadata, kind: int, m: int, outcome: Seq<char>) -> bool {
    if kind == 0 { run_metric(r, m) > 0 } else { run_outcome(r) == outcome }
}

fn count_matching(runs: &Vec<RunMetadata>, kind: usize, m: usize, outcome: &str) -> (n: usize)
    requires
        m < 7,
    ensures
        n == count_runs(runs@, |r: RunMetadata| run_matches(r, kind as int, m as int, outcome@)),
{
    let ghost p = |r: RunMetadata| run_matches(r, kind as int, m as int, outcome@);
    let mut n: usize = 0;
    let mut i: usize = 0;
    while i < runs.len()
        invariant
            i <= runs@.len(),
            m < 7,
            p == (|r: RunMetadata| run_matches(r, kind as int, m as int, outcome@)),
            n == count_runs(runs@.take(i as int), p),
            n <= i,
        decreases runs.len() - i,
    {
        proof {
            assert(runs@.take(i + 1).drop_last() =~= runs@.take(i as int));
            assert(runs@.take(i + 1).last() == runs@[i as int]);
        }
        let hit = if kind == 0 {
            metric_of(&runs[i], m) > 0
        } else {
            str_equals(classify_outcome(&runs[i]), outcome)
        };
        if hit {
            n = n + 1;
        }
        i = i + 1;
    }
    proof {
        assert(runs@.take(runs@.len() as int) =~= runs@);
    }
    n
}

/// One run of the experiment summary.
pub struct RunSummaryRow {
    pub archive_id: String,
    pub archive_path: String,
    pub archive_fingerprint: String,
    pub verified_block_count: u64,
    pub salvageable_file_count: u64,
    pub unsalvageable_file_count: u64,
    pub unmappable_file_count: u64,
    pub exported_block_artifact_count: usize,
    pub exported_extent_artifact_count: usize,
    pub exported_full_file_artifact_count: usize,
    pub outcome: &'static str,
}

/// `row` is the summary row of `run`.
pub open spec fn is_summary_row(row: RunSummaryRow, run: RunMetadata) -> bool {
    &&& row.archive_id@ == run.archive_id@
    &&& row.archive_path@ == run.archive_path@
    &&& row.archive_fingerprint@ == run.archive_fingerprint@
    &&& row.verified_block_count == run.verified_block_count
    &&& row.salvageable_file_count == run.salvageable_file_count
    &&& row.unsalvageable_file_count == run.unsalvageable_file_count
    &&& row.unmappable_file_count == run.unmappable_file_count
    &&& row.exported_block_artifact_count == run.exported_block_artifact_count
    &&& row.exported_extent_artifact_count == run.exported_extent_artifact_count
    &&& row.exported_full_file_artifact_count == run.exported_full_file_artifact_count
    &&& row.outcome@ == run_outcome(run)
}

/// The summary of an experiment.
pub struct ExperimentSummary {
    pub schema_version: String,
    pub tool: String,
    pub tool_version: String,
    pub experiment_id: String,
    pub verification_label: String,
    pub run_count: usize,
    pub archives_with_verified_blocks: usize,
    pub archives_with_salvageable_files: usize,
    pub archives_with_only_orphan_evidence: usize,
    pub archives_with_no_verified_evidence: usize,
    pub total_verified_blocks: u64,
    pub total_exported_block_artifacts: usize,
    pub total_exported_extent_artifacts: usize,
    pub total_exported_full_file_artifacts: usize,
    pub total_salvageable_files: u64,
    pub total_unsalvageable_files: u64,
    pub total_unmappable_files: u64,
    pub runs: Vec<RunSummaryRow>,
}

/// Every metric's total over the runs fits its field.
pub open spec fn totals_fit(rs: Seq<RunMetadata>) -> bool {
    forall|m: int| 0 <= m < 7 ==> #[trigger] metric_total(rs, m) <= metric_max(m)
}

pub(crate) proof fn lemma_total_permutation(s: Seq<RunMetadata>, m: int)
    ensures
        metric_total(sorted_runs(s), m) == metric_total(s, m),
        count_runs(sorted_runs(s), |r: RunMetadata| true) == s.len(),
    decreases s.len(),
{
    if s.len() > 0 {
        lemma_total_permutation(s.drop_last(), m);
        lemma_insert_total(sorted_runs(s.drop_last()), s.last(), m);
    }
}

proof fn lemma_insert_total(s: Seq<RunMetadata>, x: RunMetadata, m: int)
    ensures
        metric_total(insert_run(s, x), m) == metric_total(s, m) + run_metric(x, m),
        count_runs(insert_run(s, x), |r: RunMetadata| true) == count_runs(s, |r: RunMetadata| true) + 1,
    decreases s.len(),
{
    if s.len() > 0 && !chars_le(s.last().archive_id@, x.archive_id@) {
        lemma_insert_total(s.drop_last(), x, m);
        let r = insert_run(s.drop_last(), x);
        assert(r.push(s.last()).drop_last() =~= r);
    } else if s.len() > 0 {
        assert(s.push(x).drop_last() =~= s);
    } else {
        assert(seq![x].drop_last() =~= s);
    }
}

/// Summarizes an experiment: the runs in archive-id order with their
/// outcomes, how many archives have verified blocks, salvageable files,
/// only orphan evidence or no verified evidence, and the totals.
pub fn summarize_experiment(
    runs: Vec<RunMetadata>,
    schema_version: String,
    tool_version: String,
    experiment_id: String,
    verification_label: String,
) -> (s: ExperimentSummary)
    requires
        totals_fit(runs@),
    ensures
        s.schema_version@ == schema_version@,
        s.tool@ == "crushr-lab-salvage"@,
        s.tool_version@ == tool_version@,
        s.experiment_id@ == experiment_id@,
        s.verification_label@ == verification_label@,
        s.runs@.len() == runs@.len(),
        forall|i: int| 0 <= i < s.runs@.len() ==> is_summary_row(#[trigger] s.runs@[i], sorted_runs(runs@)[i]),
        s.run_count == runs@.len(),
        s.archives_with_verified_blocks == count_runs(sorted_runs(runs@), |r: RunMetadata| run_matches(r, 0, 0, seq![])),
        s.archives_with_salvageable_files == count_runs(sorted_runs(runs@), |r: RunMetadata| run_matches(r, 0, 1, seq![])),
        s.archives_with_only_orphan_evidence == count_runs(sorted_runs(runs@), |r: RunMetadata| run_matches(r, 1, 0, "ORPHAN_EVIDENCE_ONLY"@)),
        s.archives_with_no_verified_evidence == count_runs(sorted_runs(runs@), |r: RunMetadata| run_matches(r, 1, 0, "NO_VERIFIED_EVIDENCE"@)),
        s.total_verified_blocks == metric_total(runs@, 0),
        s.total_salvageable_files == metric_total(runs@, 1),
        s.total_unsalvageable_files == metric_total(runs@, 2),
        s.total_unmappable_files == metric_total(runs@, 3),
        s.total_exported_block_artifacts == metric_total(runs@, 4),
        s.total_exported_extent_artifacts == metric_total(runs@, 5),
        s.total_exported_full_file_artifacts == metric_total(runs@, 6),
{
    let ghost given_runs = runs@;
    proof {
        lemma_sorted_runs_len(given_runs);
        assert forall|m: int| 0 <= m < 7 implies #[trigger] metric_total(sorted_runs(given_runs), m) <= metric_max(m) by {
            lemma_total_permutation(given_runs, m);
        }
        assert(metric_max(0) == u64::MAX && metric_max(4) == usize::MAX);
    }
    let sorted = sort_runs_by_archive_id(runs);
    proof {
        lemma_total_permutation(given_runs, 0);
        lemma_total_permutation(given_runs, 1);
        lemma_total_permutation(given_runs, 2);
        lemma_total_permutation(given_runs, 3);
        lemma_total_permutation(given_runs, 4);
        lemma_total_permutation(given_runs, 5);
        lemma_total_permutation(given_runs, 6);
        assert(metric_total(sorted@, 4) <= usize::MAX);
        assert(metric_total(sorted@, 5) <= usize::MAX);
        assert(metric_total(sorted@, 6) <= usize::MAX);
    }
    let mut rows: Vec<RunSummaryRow> = Vec::new();
    let mut i: usize = 0;
    while i < sorted.len()
        invariant
            i <= sorted@.len(),
            rows@.len() == i,
            forall|j: int| 0 <= j < i ==> is_summary_row(#[trigger] rows@[j], sorted@[j]),
        decreases sorted.len() - i,
    {
        let r = &sorted[i];
        rows.push(RunSummaryRow {
            archive_id: r.archive_id.clone(),
            archive_path: r.archive_path.clone(),
            archive_fingerprint: r.archive_fingerprint.clone(),
            verified_block_count: r.verified_block_count,
            salvageable_file_count: r.salvageable_file_count,
            unsalvageable_file_count: r.unsalvageable_file_count,
            unmappable_file_count: r.unmappable_file_count,
            exported_block_artifact_count: r.exported_block_artifact_count,
            exported_extent_artifact_count: r.exported_extent_artifact_count,
            exported_full_file_artifact_count: r.exported_full_file_artifact_count,
            outcome: classify_outcome(r),
        });
        i = i + 1;
    }
    let with_verified = count_matching(&sorted, 0, 0, "");
    let with_salvageable = count_matching(&sorted, 0, 1, "");
    let orphan_only = count_matching(&sorted, 1, 0, "ORPHAN_EVIDENCE_ONLY");
    let no_evidence = count_matching(&sorted, 1, 0, "NO_VERIFIED_EVIDENCE");
    proof {
        reveal_strlit("");
        assert(""@ =~= Seq::<char>::empty());
    }
    let total_verified_blocks = total_of(&sorted, 0);
    let total_salvageable_files = total_of(&sorted, 1);
    let total_unsalvageable_files = total_of(&sorted, 2);
    let total_unmappable_files = total_of(&sorted, 3);
    let total_exported_block_artifacts = total_of(&sorted, 4) as usize;
    let total_exported_extent_artifacts = total_of(&sorted, 5) as usize;
    let total_exported_full_file_artifacts = total_of(&sorted, 6) as usize;
    ExperimentSummary {
        schema_version,
        tool: String::from_str("crushr-lab-salvage"),
        tool_version,
        experiment_id,
        verification_label,
        run_count: rows.len(),
        archives_with_verified_blocks: with_verified,
        archives_with_salvageable_files: with_salvageable,
        archives_with_only_orphan_evidence: orphan_only,
        archives_with_no_verified_evidence: no_evidence,
        total_verified_blocks,
        total_exported_block_artifacts,
        total_exported_extent_artifacts,
        total_exported_full_file_artifacts,
        total_salvageable_files,
        total_unsalvageable_files,
        total_unmappable_files,
        runs: rows,
    }
}


/// The number of summary rows with the given outcome.
pub open spec fn rows_with_outcome(rows: Seq<RunSummaryRow>, o: Seq<char>) -> nat
    decreases rows.len(),
{
    if rows.len() == 0 {
        0
    } else {
        rows_with_outcome(rows.drop_last(), o) + if rows.last().outcome@ == o { 1nat } else { 0nat }
    }
}

/// The table line of one run.
pub open spec fn run_table_line(r: RunSummaryRow) -> Seq<char> {
    "| `"@ + r.archive_id@ + "` | `"@ + r.archive_path@ + "` | `"@ + r.outcome@ + "` | "@
        + decimal(r.verified_block_count as nat) + " | "@ + decimal(r.salvageable_file_count as nat) + " | "@
        + decimal(r.unsalvageable_file_count as nat) + " | "@ + decimal(r.unmappable_file_count as nat) + " | "@
        + decimal(r.exported_block_artifact_count as nat) + "/"@ + decimal(r.exported_extent_artifact_count as nat)
        + "/"@ + decimal(r.exported_full_file_artifact_count as nat) + " |\n"@
}

/// The table lines of the runs.
pub open spec fn run_table_lines(rows: Seq<RunSummaryRow>) -> Seq<char>
    decreases rows.len(),
{
    if rows.len() == 0 {
        seq![]
    } else {
        run_table_lines(rows.drop_last()) + run_table_line(rows.last())
    }
}

/// `yes` or `no`.
pub open spec fn yes_no(b: bool) -> Seq<char> {
    if b { "yes"@ } else { "no"@ }
}

/// The outcome count line of one outcome.
pub open spec fn outcome_count_line(rows: Seq<RunSummaryRow>, o: Seq<char>) -> Seq<char> {
    "- "@ + o + ": "@ + decimal(rows_with_outcome(rows, o)) + "\n"@
}

/// The Markdown summary of an experiment.
pub open spec fn summary_markdown(s: ExperimentSummary, export_fragments_enabled: bool) -> Seq<char> {
    "# Salvage Experiment Summary\n\n"@
        + "- Experiment ID: `"@ + s.experiment_id@ + "`\n"@
        + "- Verification label: `"@ + s.verification_label@ + "`\n"@
        + "- Run count: `"@ + decimal(s.run_count as nat) + "`\n"@
        + "- Fragment export enabled: `"@ + yes_no(export_fragments_enabled) + "`\n\n"@
        + "All outputs are research-only and non-canonical (`UNVERIFIED_RESEARCH_OUTPUT`).\n\n"@
        + "## Aggregate totals\n\n"@
        + "- verified blocks: "@ + decimal(s.total_verified_blocks as nat) + "\n"@
        + "- salvageable / unsalvageable / unmappable files: "@ + decimal(s.total_salvageable_files as nat) + " / "@
        + decimal(s.total_unsalvageable_files as nat) + " / "@ + decimal(s.total_unmappable_files as nat) + "\n"@
        + "- exported artifacts (block / extent / full-file): "@ + decimal(s.total_exported_block_artifacts as nat) + " / "@
        + decimal(s.total_exported_extent_artifacts as nat) + " / "@ + decimal(s.total_exported_full_file_artifacts as nat)
        + "\n\n"@
        + "## Outcome counts\n\n"@
        + outcome_count_line(s.runs@, "NO_VERIFIED_EVIDENCE"@)
        + outcome_count_line(s.runs@, "ORPHAN_EVIDENCE_ONLY"@)
        + outcome_count_line(s.runs@, "PARTIAL_FILE_SALVAGE"@)
        + outcome_count_line(s.runs@, "FULL_FILE_SALVAGE_AVAILABLE"@)
        + "\n## Runs\n\n"@
        + "| archive_id | archive_path | outcome | verified_blocks | salvageable | unsalvageable | unmappable | exported (b/e/f) |\n"@
        + "|---|---|---|---:|---:|---:|---:|---:|\n"@
        + run_table_lines(s.runs@)
}

fn count_rows_with_outcome(rows: &Vec<RunSummaryRow>, o: &str) -> (n: u64)
    ensures
        n == rows_with_outcome(rows@, o@),
{
    let mut n: u64 = 0;
    let mut i: usize = 0;
    while i < rows.len()
        invariant
            i <= rows@.len(),
            n == rows_with_outcome(rows@.take(i as int), o@),
            n <= i,
        decreases rows.len() - i,
    {
        proof {
            assert(rows@.take(i + 1).drop_last() =~= rows@.take(i as int));
            assert(rows@.take(i + 1).last() == rows@[i as int]);
        }
        if str_equals(rows[i].outcome, o) {
            n = n + 1;
        }
        i = i + 1;
    }
    proof {
        assert(rows@.take(rows@.len() as int) =~= rows@);
    }
    n
}

pub(crate) fn push_decimal(md: &mut String, n: u64)
    ensures
        final(md)@ == old(md)@ + decimal(n as nat),
{
    let d = u64_to_decimal(n);
    push_str(md, d.as_str());
}

fn push_outcome_line(md: &mut String, rows: &Vec<RunSummaryRow>, o: &str)
    ensures
        final(md)@ == old(md)@ + outcome_count_line(rows@, o@),
{
    push_str(md, "- ");
    push_str(md, o);
    push_str(md, ": ");
    push_decimal(md, count_rows_with_outcome(rows, o));
    push_str(md, "\n");
}

fn table_line(r: &RunSummaryRow) -> (line: String)
    ensures
        line@ == run_table_line(*r),
{
    let mut md = String::new();
    push_str(&mut md, "| `");
    push_str(&mut md, r.archive_id.as_str());
    push_str(&mut md, "` | `");
    push_str(&mut md, r.archive_path.as_str());
    push_str(&mut md, "` | `");
    push_str(&mut md, r.outcome);
    push_str(&mut md, "` | ");
    push_decimal(&mut md, r.verified_block_count);
    push_str(&mut md, " | ");
    push_decimal(&mut md, r.salvageable_file_count);
    push_str(&mut md, " | ");
    push_decimal(&mut md, r.unsalvageable_file_count);
    push_str(&mut md, " | ");
    push_decimal(&mut md, r.unmappable_file_count);
    push_str(&mut md, " | ");
    push_decimal(&mut md, r.exported_block_artifact_count as u64);
    push_str(&mut md, "/");
    push_decimal(&mut md, r.exported_extent_artifact_count as u64);
    push_str(&mut md, "/");
    push_decimal(&mut md, r.exported_full_file_artifact_count as u64);
    push_str(&mut md, " |\n");
    proof {
        assert(md@ =~= run_table_line(*r));
    }
    md
}

/// Renders the Markdown summary of an experiment.
pub fn render_summary_markdown(s: &ExperimentSummary, export_fragments_enabled: bool) -> (md: String)
    ensures
        md@ == summary_markdown(*s, export_fragments_enabled),
{
    let mut md = String::new();
    push_str(&mut md, "# Salvage Experiment Summary\n\n");
    push_str(&mut md, "- Experiment ID: `");
    push_str(&mut md, s.experiment_id.as_str());
    push_str(&mut md, "`\n");
    push_str(&mut md, "- Verification label: `");
    push_str(&mut md, s.verification_label.as_str());
    push_str(&mut md, "`\n");
    push_str(&mut md, "- Run count: `");
    push_decimal(&mut md, s.run_count as u64);
    push_str(&mut md, "`\n");
    push_str(&mut md, "- Fragment export enabled: `");
    push_str(&mut md, if export_fragments_enabled { "yes" } else { "no" });
    push_str(&mut md, "`\n\n");
    push_str(&mut md, "All outputs are research-only and non-canonical (`UNVERIFIED_RESEARCH_OUTPUT`).\n\n");
    push_str(&mut md, "## Aggregate totals\n\n");
    push_str(&mut md, "- verified blocks: ");
    push_decimal(&mut md, s.total_verified_blocks);
    push_str(&mut md, "\n");
    push_str(&mut md, "- salvageable / unsalvageable / unmappable files: ");
    push_decimal(&mut md, s.total_salvageable_files);
    push_str(&mut md, " / ");
    push_decimal(&mut md, s.total_unsalvageable_files);
    push_str(&mut md, " / ");
    push_decimal(&mut md, s.total_unmappable_files);
    push_str(&mut md, "\n");
    push_str(&mut md, "- exported artifacts (block / extent / full-file): ");
    push_decimal(&mut md, s.total_exported_block_artifacts as u64);
    push_str(&mut md, " / ");
    push_decimal(&mut md, s.total_exported_extent_artifacts as u64);
    push_str(&mut md, " / ");
    push_decimal(&mut md, s.total_exported_full_file_artifacts as u64);
    push_str(&mut md, "\n\n");
    push_str(&mut md, "## Outcome counts\n\n");
    push_outcome_line(&mut md, &s.runs, "NO_VERIFIED_EVIDENCE");
    push_outcome_line(&mut md, &s.runs, "ORPHAN_EVIDENCE_ONLY");
    push_outcome_line(&mut md, &s.runs, "PARTIAL_FILE_SALVAGE");
    push_outcome_line(&mut md, &s.runs, "FULL_FILE_SALVAGE_AVAILABLE");
    push_str(&mut md, "\n## Runs\n\n");
    push_str(&mut md, "| archive_id | archive_path | outcome | verified_blocks | salvageable | unsalvageable | unmappable | exported (b/e/f) |\n");
    push_str(&mut md, "|---|---|---|---:|---:|---:|---:|---:|\n");
    let ghost head = md@;
    let mut i: usize = 0;
    proof {
        assert(s.runs@.take(0) =~= Seq::<RunSummaryRow>::empty());
        assert(head + run_table_lines(s.runs@.take(0)) =~= head);
    }
    while i < s.runs.len()
        invariant
            i <= s.runs@.len(),
            md@ == head + run_table_lines(s.runs@.take(i as int)),
        decreases s.runs.len() - i,
    {
        let line = table_line(&s.runs[i]);
        push_str(&mut md, line.as_str());
        proof {
            assert(s.runs@.take(i + 1).drop_last() =~= s.runs@.take(i as int));
            assert(s.runs@.take(i + 1).last() == s.runs@[i as int]);
            assert(md@ =~= head + run_table_lines(s.runs@.take(i + 1)));
        }
        i = i + 1;
    }
    proof {
        assert(s.runs@.take(s.runs@.len() as int) =~= s.runs@);
        assert(md@ =~= summary_markdown(*s, export_fragments_enabled));
    }
    md
}


/// The archive ids of the runs do not decrease.
pub open spec fn ids_ascending(s: Seq<RunMetadata>) -> bool {
    forall|i: int, j: int| 0 <= i < j < s.len() ==> chars_le(#[trigger] s[i].archive_id@, #[trigger] s[j].archive_id@)
}

proof fn lemma_chars_le_transitive(a: Seq<char>, b: Seq<char>, c: Seq<char>)
    requires
        chars_le(a, b),
        chars_le(b, c),
    ensures
        chars_le(a, c),
{
    if chars_lt(a, b) && chars_lt(b, c) {
        crate::text::lemma_chars_lt_transitive(a, b, c);
    }
}

proof fn lemma_insert_run_sorted(t: Seq<RunMetadata>, x: RunMetadata)
    requires
        ids_ascending(t),
    ensures
        ids_ascending(insert_run(t, x)),
        insert_run(t, x).to_multiset() == t.to_multiset().insert(x),
        forall|k: int| 0 <= k < insert_run(t, x).len() ==> #[trigger] insert_run(t, x)[k] == x || t.contains(insert_run(t, x)[k]),
    decreases t.len(),
{
    broadcast use vstd::seq_lib::group_to_multiset_ensures;
    if t.len() == 0 {
        assert(seq![x] =~= Seq::<RunMetadata>::empty().push(x));
    } else if chars_le(t.last().archive_id@, x.archive_id@) {
        let r = t.push(x);
        assert forall|i: int, j: int| 0 <= i < j < r.len() implies chars_le(#[trigger] r[i].archive_id@, #[trigger] r[j].archive_id@) by {
            if j == t.len() {
                if i < t.len() - 1 {
                    lemma_chars_le_transitive(t[i].archive_id@, t.last().archive_id@, x.archive_id@);
                }
            }
        }
        assert forall|k: int| 0 <= k < r.len() implies #[trigger] r[k] == x || t.contains(r[k]) by {
            if k < t.len() {
                assert(t[k] == r[k]);
            }
        }
    } else {
        let p = t.drop_last();
        let last = t.last();
        assert(ids_ascending(p)) by {
            assert forall|i: int, j: int| 0 <= i < j < p.len() implies chars_le(#[trigger] p[i].archive_id@, #[trigger] p[j].archive_id@) by {
                assert(p[i] == t[i] && p[j] == t[j]);
            }
        }
        lemma_insert_run_sorted(p, x);
        let q = insert_run(p, x);
        let r = q.push(last);
        lemma_chars_lt_total(last.archive_id@, x.archive_id@);
        assert(chars_le(x.archive_id@, last.archive_id@));
        assert forall|i: int, j: int| 0 <= i < j < r.len() implies chars_le(#[trigger] r[i].archive_id@, #[trigger] r[j].archive_id@) by {
            if j == q.len() {
                assert(r[i] == q[i]);
                if q[i] != x {
                    assert(p.contains(q[i]));
                    let w = choose|w: int| 0 <= w < p.len() && p[w] == q[i];
                    assert(t[w] == p[w]);
                    assert(chars_le(t[w].archive_id@, t[t.len() - 1].archive_id@));
                }
            } else {
                assert(r[i] == q[i] && r[j] == q[j]);
            }
        }
        assert(t =~= p.push(last));
        assert forall|k: int| 0 <= k < r.len() implies #[trigger] r[k] == x || t.contains(r[k]) by {
            if k < q.len() {
                assert(r[k] == q[k]);
                if q[k] != x {
                    let w = choose|w: int| 0 <= w < p.len() && p[w] == q[k];
                    assert(t[w] == p[w]);
                }
            } else {
                assert(t[t.len() - 1] == r[k]);
            }
        }
    }
}

/// Ordering the runs by archive id keeps every run and orders the ids.
pub proof fn law_sorted_runs_orders_by_archive_id(s: Seq<RunMetadata>)
    ensures
        ids_ascending(sorted_runs(s)),
        sorted_runs(s).to_multiset() == s.to_multiset(),
    decreases s.len(),
{
    broadcast use vstd::seq_lib::group_to_multiset_ensures;
    if s.len() == 0 {
        assert(sorted_runs(s) =~= s);
    } else {
        law_sorted_runs_orders_by_archive_id(s.drop_last());
        lemma_insert_run_sorted(sorted_runs(s.drop_last()), s.last());
        assert(s =~= s.drop_last().push(s.last()));
    }
}

/// The totals of a metric do not depend on the order of the runs: ordering
/// them by archive id keeps every total.
pub proof fn law_totals_ignore_run_order(s: Seq<RunMetadata>, m: int)
    ensures
        metric_total(sorted_runs(s), m) == metric_total(s, m),
{
    lemma_total_permutation(s, m);
}

} // verus!
