//! The grouped analysis of an experiment: runs grouped by outcome and by
//! inferred damage profile, and the runs ranked by the evidence they yielded.
use vstd::prelude::*;
use vstd::string::*;
use crate::text::{chars_lt, chars_le, str_lt, str_equals, push_str, u64_to_decimal, decimal, lemma_chars_lt_total, lemma_chars_lt_asymmetric, lemma_chars_lt_irreflexive};
use crate::salvage::grouping::{group_by_key, is_grouping, keyed_views, group_views, items_with_key};
use super::runs::{RunMetadata, RankingEntry, run_outcome, classify_outcome, to_ranking_entry};
use super::paths::{infer_profile_key, spec_profile_key};
use super::experiment::{metric_total, run_metric, metric_max, sorted_runs, sort_runs_by_archive_id, totals_fit, lemma_total_permutation, lemma_sorted_runs_len, yes_no, push_decimal};

verus! {

/// The runs that reached outcome `o`, in order.
pub open spec fn runs_with_outcome(rs: Seq<RunMetadata>, o: Seq<char>) -> Seq<RunMetadata>
    decreases rs.len(),
{
    if rs.len() == 0 {
        seq![]
    } else {
        let prev = runs_with_outcome(rs.drop_last(), o);
        if run_outcome(rs.last()) == o { prev.push(rs.last()) } else { prev }
    }
}

/// The runs without verified blocks, in order.
pub open spec fn runs_without_evidence(rs: Seq<RunMetadata>) -> Seq<RunMetadata>
    decreases rs.len(),
{
    if rs.len() == 0 {
        seq![]
    } else {
        let prev = runs_without_evidence(rs.drop_last());
        if rs.last().verified_block_count == 0 { prev.push(rs.last()) } else { prev }
    }
}

proof fn lemma_outcome_subset_total(rs: Seq<RunMetadata>, o: Seq<char>, m: int)
    ensures
        metric_total(runs_with_outcome(rs, o), m) <= metric_total(rs, m),
    decreases rs.len(),
{
    if rs.len() > 0 {
        lemma_outcome_subset_total(rs.drop_last(), o, m);
        let prev = runs_with_outcome(rs.drop_last(), o);
        if run_outcome(rs.last()) == o {
            assert(prev.push(rs.last()).drop_last() =~= prev);
        }
    }
}

/// The runs of one outcome, with their aggregate counts.
pub struct OutcomeGroup {
    pub outcome: &'static str,
    pub run_count: usize,
    pub archive_ids: Vec<String>,
    pub aggregate_verified_block_count: u64,
    pub aggregate_salvageable_file_count: u64,
    pub aggregate_exported_block_artifact_count: usize,
    pub aggregate_exported_extent_artifact_count: usize,
    pub aggregate_exported_full_file_artifact_count: usize,
}

/// `g` describes the runs `rs`: count, ids and aggregate counts.
pub open spec fn describes_runs(g: OutcomeGroup, rs: Seq<RunMetadata>) -> bool {
    &&& g.run_count == rs.len()
    &&& g.archive_ids@.map_values(|s: String| s@) == rs.map_values(|r: RunMetadata| r.archive_id@)
    &&& g.aggregate_verified_block_count == metric_total(rs, 0)
    &&& g.aggregate_salvageable_file_count == metric_total(rs, 1)
    &&& g.aggregate_exported_block_artifact_count == metric_total(rs, 4)
    &&& g.aggregate_exported_extent_artifact_count == metric_total(rs, 5)
    &&& g.aggregate_exported_full_file_artifact_count == metric_total(rs, 6)
}

fn outcome_group(runs: &Vec<RunMetadata>, outcome: &'static str) -> (g: OutcomeGroup)
    requires
        totals_fit(runs@),
    ensures
        g.outcome == outcome,
        describes_runs(g, runs_with_outcome(runs@, outcome@)),
{
    let ghost sel = runs_with_outcome(runs@, outcome@);
    let mut ids: Vec<String> = Vec::new();
    let mut v: u64 = 0;
    let mut s: u64 = 0;
    let mut b: usize = 0;
    let mut e: usize = 0;
    let mut f: usize = 0;
    let mut i: usize = 0;
    proof {
        lemma_outcome_subset_total(runs@, outcome@, 0);
        lemma_outcome_subset_total(runs@, outcome@, 1);
        lemma_outcome_subset_total(runs@, outcome@, 4);
        lemma_outcome_subset_total(runs@, outcome@, 5);
        lemma_outcome_subset_total(runs@, outcome@, 6);
        assert(metric_total(runs@, 0) <= metric_max(0));
        assert(metric_total(runs@, 1) <= metric_max(1));
        assert(metric_total(runs@, 4) <= metric_max(4));
        assert(metric_total(runs@, 5) <= metric_max(5));
        assert(metric_total(runs@, 6) <= metric_max(6));
        assert(runs@.take(0) =~= Seq::<RunMetadata>::empty());
    }
    while i < runs.len()
        invariant
            i <= runs@.len(),
            sel == runs_with_outcome(runs@, outcome@),
            metric_total(sel, 0) <= u64::MAX,
            metric_total(sel, 1) <= u64::MAX,
            metric_total(sel, 4) <= usize::MAX,
            metric_total(sel, 5) <= usize::MAX,
            metric_total(sel, 6) <= usize::MAX,
            ids@.map_values(|x: String| x@) == runs_with_outcome(runs@.take(i as int), outcome@).map_values(|r: RunMetadata| r.archive_id@),
            v == metric_total(runs_with_outcome(runs@.take(i as int), outcome@), 0),
            s == metric_total(runs_with_outcome(runs@.take(i as int), outcome@), 1),
            b == metric_total(runs_with_outcome(runs@.take(i as int), outcome@), 4),
            e == metric_total(runs_with_outcome(runs@.take(i as int), outcome@), 5),
            f == metric_total(runs_with_outcome(runs@.take(i as int), outcome@), 6),
        decreases runs.len() - i,
    {
        let r = &runs[i];
        let ghost pre = runs_with_outcome(runs@.take(i as int), outcome@);
        proof {
            assert(runs@.take(i + 1).drop_last() =~= runs@.take(i as int));
            assert(runs@.take(i + 1).last() == runs@[i as int]);
            lemma_prefix_selection(runs@, outcome@, i + 1);
        }
        if str_equals(classify_outcome(r), outcome) {
            proof {
                let post = pre.push(*r);
                assert(post.drop_last() =~= pre);
                assert(runs_with_outcome(runs@.take(i + 1), outcome@) == post);
                assert(metric_total(post, 0) <= metric_total(sel, 0));
                assert(metric_total(post, 1) <= metric_total(sel, 1));
                assert(metric_total(post, 4) <= metric_total(sel, 4));
                assert(metric_total(post, 5) <= metric_total(sel, 5));
                assert(metric_total(post, 6) <= metric_total(sel, 6));
            }
            let ghost old_ids = ids@;
            ids.push(r.archive_id.clone());
            proof {
                assert(ids@.map_values(|x: String| x@) =~= old_ids.map_values(|x: String| x@).push(r.archive_id@));
                assert(pre.push(*r).map_values(|q: RunMetadata| q.archive_id@) =~= pre.map_values(|q: RunMetadata| q.archive_id@).push(r.archive_id@));
            }
            v = v + r.verified_block_count;
            s = s + r.salvageable_file_count;
            b = b + r.exported_block_artifact_count;
            e = e + r.exported_extent_artifact_count;
            f = f + r.exported_full_file_artifact_count;
        }
        i = i + 1;
    }
    proof {
        assert(runs@.take(runs@.len() as int) =~= runs@);
    }
    OutcomeGroup {
        outcome,
        run_count: ids.len(),
        archive_ids: ids,
        aggregate_verified_block_count: v,
        aggregate_salvageable_file_count: s,
        aggregate_exported_block_artifact_count: b,
        aggregate_exported_extent_artifact_count: e,
        aggregate_exported_full_file_artifact_count: f,
    }
}

proof fn lemma_prefix_selection(rs: Seq<RunMetadata>, o: Seq<char>, j: int)
    requires
        0 <= j <= rs.len(),
    ensures
        forall|m: int| #[trigger] metric_total(runs_with_outcome(rs.take(j), o), m) <= metric_total(runs_with_outcome(rs, o), m),
    decreases rs.len(),
{
    if j < rs.len() {
        assert(rs.drop_last().take(j) =~= rs.take(j));
        lemma_prefix_selection(rs.drop_last(), o, j);
        let prev = runs_with_outcome(rs.drop_last(), o);
        if run_outcome(rs.last()) == o {
            assert(prev.push(rs.last()).drop_last() =~= prev);
        }
    } else {
        assert(rs.take(j) =~= rs);
    }
}


/// A ranking entry as plain values.
pub struct RankView {
    pub archive_id: Seq<char>,
    pub archive_path: Seq<char>,
    pub verified_block_count: u64,
    pub salvageable_file_count: u64,
    pub exported_full_file_artifact_count: usize,
    pub outcome: Seq<char>,
}

impl View for RankingEntry {
    type V = RankView;

    open spec fn view(&self) -> RankView {
        RankView {
            archive_id: self.archive_id@,
            archive_path: self.archive_path@,
            verified_block_count: self.verified_block_count,
            salvageable_file_count: self.salvageable_file_count,
            exported_full_file_artifact_count: self.exported_full_file_artifact_count,
            outcome: self.outcome@,
        }
    }
}

/// The ranking entry a run gives.
pub open spec fn run_rank_view(r: RunMetadata) -> RankView {
    RankView {
        archive_id: r.archive_id@,
        archive_path: r.archive_path@,
        verified_block_count: r.verified_block_count,
        salvageable_file_count: r.salvageable_file_count,
        exported_full_file_artifact_count: r.exported_full_file_artifact_count,
        outcome: run_outcome(r),
    }
}

/// The ranking entries of runs.
pub open spec fn rank_views(rs: Seq<RunMetadata>) -> Seq<RankView> {
    rs.map_values(|r: RunMetadata| run_rank_view(r))
}

/// The views of ranking entries.
pub open spec fn entry_views(es: Seq<RankingEntry>) -> Seq<RankView> {
    es.map_values(|e: RankingEntry| e@)
}

/// The count an entry is ranked by: 0 verified blocks, 1 salvageable files,
/// otherwise exported complete files.
pub open spec fn rank_metric(e: RankView, m: int) -> nat {
    if m == 0 {
        e.verified_block_count as nat
    } else if m == 1 {
        e.salvageable_file_count as nat
    } else {
        e.exported_full_file_artifact_count as nat
    }
}

/// `a` may stay before `b`: a larger count, or an equal count and an archive
/// id that is not larger.
pub open spec fn ranks_before(a: RankView, b: RankView, m: int) -> bool {
    rank_metric(a, m) > rank_metric(b, m) || (rank_metric(a, m) == rank_metric(b, m) && chars_le(a.archive_id, b.archive_id))
}

/// `x` placed after the last entry that may stay before it.
pub open spec fn insert_ranked(s: Seq<RankView>, x: RankView, m: int) -> Seq<RankView>
    decreases s.len(),
{
    if s.len() == 0 {
        seq![x]
    } else if ranks_before(s.last(), x, m) {
        s.push(x)
    } else {
        insert_ranked(s.drop_last(), x, m).push(s.last())
    }
}

/// The entries ranked by count, largest first, ties by archive id (a stable sort).
pub open spec fn ranked(s: Seq<RankView>, m: int) -> Seq<RankView>
    decreases s.len(),
{
    if s.len() == 0 {
        seq![]
    } else {
        insert_ranked(ranked(s.drop_last(), m), s.last(), m)
    }
}

proof fn lemma_insert_ranked_at(s: Seq<RankView>, x: RankView, m: int, j: int)
    requires
        0 <= j <= s.len(),
        forall|k: int| j <= k < s.len() ==> !ranks_before(#[trigger] s[k], x, m),
        j == 0 || ranks_before(s[j - 1], x, m),
    ensures
        insert_ranked(s, x, m) == s.insert(j, x),
    decreases s.len(),
{
    if j == s.len() {
        assert(s.push(x) =~= s.insert(j, x));
        if s.len() == 0 {
            assert(seq![x] =~= s.insert(j, x));
        }
    } else {
        assert(!ranks_before(s[s.len() - 1], x, m));
        lemma_insert_ranked_at(s.drop_last(), x, m, j);
        assert(s.drop_last().insert(j, x).push(s.last()) =~= s.insert(j, x));
    }
}

fn entry_metric(e: &RankingEntry, m: usize) -> (v: u64)
    ensures
        v == rank_metric(e@, m as int),
{
    if m == 0 {
        e.verified_block_count
    } else if m == 1 {
        e.salvageable_file_count
    } else {
        e.exported_full_file_artifact_count as u64
    }
}

fn may_stay_before(a: &RankingEntry, b: &RankingEntry, m: usize) -> (r: bool)
    ensures
        r == ranks_before(a@, b@, m as int),
{
    let ca = entry_metric(a, m);
    let cb = entry_metric(b, m);
    ca > cb || (ca == cb && (str_lt(a.archive_id.as_str(), b.archive_id.as_str()) || str_equals(a.archive_id.as_str(), b.archive_id.as_str())))
}

/// Ranks entries by a count, largest first, ties by archive id.
fn rank_entries(entries: Vec<RankingEntry>, m: usize) -> (out: Vec<RankingEntry>)
    ensures
        entry_views(out@) == ranked(entry_views(entries@), m as int),
{
    let ghost all = entry_views(entries@);
    let mut rest = entries;
    let mut out: Vec<RankingEntry> = Vec::new();
    let ghost mut i: int = 0;
    while rest.len() > 0
        invariant
            0 <= i <= all.len(),
            entry_views(rest@) == all.subrange(i, all.len() as int),
            entry_views(out@) == ranked(all.take(i), m as int),
        decreases rest.len(),
    {
        let ghost old_rest = rest@;
        assert(entry_views(rest@).len() == rest@.len());
        let x = rest.remove(0);
        proof {
            assert(entry_views(old_rest)[0] == all[i]);
            assert(x@ == all[i]);
            assert(entry_views(rest@) =~= entry_views(old_rest).subrange(1, old_rest.len() as int));
        }
        let mut j = out.len();
        while j > 0 && !may_stay_before(&out[j - 1], &x, m)
            invariant
                j <= out@.len(),
                forall|k: int| j <= k < out@.len() ==> !ranks_before(#[trigger] entry_views(out@)[k], x@, m as int),
            decreases j,
        {
            j = j - 1;
        }
        let ghost ov = entry_views(out@);
        proof {
            lemma_insert_ranked_at(ov, x@, m as int, j as int);
            assert(all.take(i + 1).drop_last() =~= all.take(i));
            assert(all.take(i + 1).last() == x@);
        }
        out.insert(j, x);
        proof {
            assert(entry_views(out@) =~= ov.insert(j as int, x@));
            i = i + 1;
            assert(entry_views(rest@) =~= all.subrange(i, all.len() as int));
        }
    }
    proof {
        assert(all.take(i) =~= all);
    }
    out
}

fn ranking_entries(runs: &Vec<RunMetadata>) -> (out: Vec<RankingEntry>)
    ensures
        entry_views(out@) == rank_views(runs@),
{
    let mut out: Vec<RankingEntry> = Vec::new();
    let mut i: usize = 0;
    while i < runs.len()
        invariant
            i <= runs@.len(),
            entry_views(out@) == rank_views(runs@.take(i as int)),
        decreases runs.len() - i,
    {
        let ghost old_out = out@;
        let e = to_ranking_entry(&runs[i]);
        out.push(e);
        proof {
            assert(entry_views(out@) =~= entry_views(old_out).push(e@));
            assert(rank_views(runs@.take(i + 1)) =~= rank_views(runs@.take(i as int)).push(run_rank_view(runs@[i as int])));
        }
        i = i + 1;
    }
    proof {
        assert(runs@.take(runs@.len() as int) =~= runs@);
    }
    out
}

/// The runs ranked by the evidence they yielded.
pub struct EvidenceRankings {
    pub top_runs_by_verified_blocks: Vec<RankingEntry>,
    pub top_runs_by_salvageable_files: Vec<RankingEntry>,
    pub top_runs_by_exported_full_files: Vec<RankingEntry>,
    pub bottom_runs_with_no_verified_evidence: Vec<RankingEntry>,
}

/// Ranks runs (in archive-id order) by verified blocks, by salvageable
/// files and by exported complete files, and lists those without verified
/// blocks.
pub fn evidence_rankings(ordered: &Vec<RunMetadata>) -> (r: EvidenceRankings)
    ensures
        entry_views(r.top_runs_by_verified_blocks@) == ranked(rank_views(ordered@), 0),
        entry_views(r.top_runs_by_salvageable_files@) == ranked(rank_views(ordered@), 1),
        entry_views(r.top_runs_by_exported_full_files@) == ranked(rank_views(ordered@), 2),
        entry_views(r.bottom_runs_with_no_verified_evidence@) == rank_views(runs_without_evidence(ordered@)),
{
    let top_verified = rank_entries(ranking_entries(ordered), 0);
    let top_salvageable = rank_entries(ranking_entries(ordered), 1);
    let top_full = rank_entries(ranking_entries(ordered), 2);
    let mut bottom: Vec<RankingEntry> = Vec::new();
    let mut i: usize = 0;
    while i < ordered.len()
        invariant
            i <= ordered@.len(),
            entry_views(bottom@) == rank_views(runs_without_evidence(ordered@.take(i as int))),
        decreases ordered.len() - i,
    {
        proof {
            assert(ordered@.take(i + 1).drop_last() =~= ordered@.take(i as int));
            assert(ordered@.take(i + 1).last() == ordered@[i as int]);
        }
        if ordered[i].verified_block_count == 0 {
            let ghost old_b = bottom@;
            let e = to_ranking_entry(&ordered[i]);
            bottom.push(e);
            proof {
                let pre = runs_without_evidence(ordered@.take(i as int));
                assert(entry_views(bottom@) =~= entry_views(old_b).push(e@));
                assert(rank_views(pre.push(ordered@[i as int])) =~= rank_views(pre).push(run_rank_view(ordered@[i as int])));
            }
        }
        i = i + 1;
    }
    proof {
        assert(ordered@.take(ordered@.len() as int) =~= ordered@);
    }
    EvidenceRankings {
        top_runs_by_verified_blocks: top_verified,
        top_runs_by_salvageable_files: top_salvageable,
        top_runs_by_exported_full_files: top_full,
        bottom_runs_with_no_verified_evidence: bottom,
    }
}


/// Each run's inferred profile with its index.
pub open spec fn keyed_profiles(rs: Seq<RunMetadata>) -> Seq<(Seq<char>, usize)> {
    Seq::new(rs.len(), |i: int| (spec_profile_key(rs[i].archive_path@), i as usize))
}

/// The runs of one inferred profile, in order.
pub open spec fn profile_runs(rs: Seq<RunMetadata>, key: Seq<char>) -> Seq<RunMetadata> {
    items_with_key(keyed_profiles(rs), key).map_values(|i: usize| rs[i as int])
}

/// The runs of one inferred profile: how many reached each outcome (in
/// outcome-name order) and their aggregate counts.
pub struct ProfileGroup {
    pub profile_key: String,
    pub run_count: usize,
    pub outcome_counts: Vec<(&'static str, usize)>,
    pub aggregate_verified_block_count: u64,
    pub aggregate_salvageable_file_count: u64,
}

/// The four outcomes in name order, as a profile's counts list them.
pub open spec fn outcome_by_name(k: int) -> Seq<char> {
    if k == 0 {
        "FULL_FILE_SALVAGE_AVAILABLE"@
    } else if k == 1 {
        "NO_VERIFIED_EVIDENCE"@
    } else if k == 2 {
        "ORPHAN_EVIDENCE_ONLY"@
    } else {
        "PARTIAL_FILE_SALVAGE"@
    }
}

/// `g` describes the runs `rs` of its profile.
pub open spec fn describes_profile(g: ProfileGroup, rs: Seq<RunMetadata>) -> bool {
    &&& rs.len() > 0
    &&& g.run_count == rs.len()
    &&& g.outcome_counts@.len() == 4
    &&& forall|k: int| 0 <= k < 4 ==> (#[trigger] g.outcome_counts@[k]).0@ == outcome_by_name(k)
        && g.outcome_counts@[k].1 == runs_with_outcome(rs, outcome_by_name(k)).len()
    &&& g.aggregate_verified_block_count == metric_total(rs, 0)
    &&& g.aggregate_salvageable_file_count == metric_total(rs, 1)
}

proof fn lemma_profile_indices(rs: Seq<RunMetadata>, key: Seq<char>, m: int)
    requires
        0 <= m <= rs.len(),
        rs.len() <= usize::MAX,
    ensures
        forall|a: int| 0 <= a < items_with_key(keyed_profiles(rs).take(m), key).len() ==>
            (#[trigger] items_with_key(keyed_profiles(rs).take(m), key)[a]) < m,
        forall|a: int, b: int| 0 <= a < b < items_with_key(keyed_profiles(rs).take(m), key).len() ==>
            (#[trigger] items_with_key(keyed_profiles(rs).take(m), key)[a]) < (#[trigger] items_with_key(keyed_profiles(rs).take(m), key)[b]),
    decreases m,
{
    if m > 0 {
        lemma_profile_indices(rs, key, m - 1);
        let items = keyed_profiles(rs);
        assert(items.take(m).drop_last() =~= items.take(m - 1));
        let sq = items_with_key(items.take(m), key);
        let r = items_with_key(items.take(m - 1), key);
        assert(items.take(m).last() == items[m - 1]);
        assert(sq == if items[m - 1].0 == key { r.push((m - 1) as usize) } else { r });
        assert forall|a: int| 0 <= a < sq.len() implies (#[trigger] sq[a]) < m by {
            if a < r.len() {
                assert(sq[a] == r[a]);
            }
        }
        assert forall|a: int, b: int| 0 <= a < b < sq.len() implies (#[trigger] sq[a]) < (#[trigger] sq[b]) by {
            if b < r.len() {
                assert(sq[a] == r[a] && sq[b] == r[b]);
            } else {
                assert(sq[a] == r[a]);
            }
        }
    }
}

proof fn lemma_picked_total(rs: Seq<RunMetadata>, idx: Seq<usize>, n: int, m: int)
    requires
        0 <= n <= rs.len(),
        forall|a: int| 0 <= a < idx.len() ==> (#[trigger] idx[a]) < n,
        forall|a: int, b: int| 0 <= a < b < idx.len() ==> (#[trigger] idx[a]) < (#[trigger] idx[b]),
    ensures
        metric_total(idx.map_values(|i: usize| rs[i as int]), m) <= metric_total(rs.take(n), m),
    decreases n,
{
    let picked = idx.map_values(|i: usize| rs[i as int]);
    if n == 0 {
        if idx.len() > 0 {
            assert(idx[0] < 0);
        }
        assert(picked =~= Seq::<RunMetadata>::empty());
    } else if idx.len() > 0 && idx.last() == n - 1 {
        let rest = idx.drop_last();
        assert forall|a: int| 0 <= a < rest.len() implies (#[trigger] rest[a]) < n - 1 by {
            assert(idx[a] < idx[idx.len() - 1]);
        }
        lemma_picked_total(rs, rest, n - 1, m);
        assert(picked.drop_last() =~= rest.map_values(|i: usize| rs[i as int]));
        assert(rs.take(n).drop_last() =~= rs.take(n - 1));
    } else {
        assert forall|a: int| 0 <= a < idx.len() implies (#[trigger] idx[a]) < n - 1 by {
            if a < idx.len() - 1 {
                assert(idx[a] < idx[idx.len() - 1]);
            }
        }
        lemma_picked_total(rs, idx, n - 1, m);
        assert(rs.take(n).drop_last() =~= rs.take(n - 1));
    }
}

fn count_with_outcome(runs: &Vec<RunMetadata>, idx: &Vec<usize>, o: &str, Ghost(sel): Ghost<Seq<RunMetadata>>) -> (n: usize)
    requires
        forall|a: int| 0 <= a < idx@.len() ==> (#[trigger] idx@[a]) < runs@.len(),
        sel == idx@.map_values(|i: usize| runs@[i as int]),
    ensures
        n == runs_with_outcome(sel, o@).len(),
{
    let mut n: usize = 0;
    let mut j: usize = 0;
    while j < idx.len()
        invariant
            j <= idx@.len(),
            forall|a: int| 0 <= a < idx@.len() ==> (#[trigger] idx@[a]) < runs@.len(),
            sel == idx@.map_values(|i: usize| runs@[i as int]),
            n == runs_with_outcome(sel.take(j as int), o@).len(),
            n <= j,
        decreases idx.len() - j,
    {
        proof {
            assert(sel.take(j + 1).drop_last() =~= sel.take(j as int));
            assert(sel.take(j + 1).last() == runs@[idx@[j as int] as int]);
        }
        if str_equals(classify_outcome(&runs[idx[j]]), o) {
            n = n + 1;
        }
        j = j + 1;
    }
    proof {
        assert(sel.take(idx@.len() as int) =~= sel);
    }
    n
}

fn profile_group(runs: &Vec<RunMetadata>, key: String, idx: Vec<usize>) -> (g: ProfileGroup)
    requires
        totals_fit(runs@),
        idx@.len() > 0,
        forall|a: int| 0 <= a < idx@.len() ==> (#[trigger] idx@[a]) < runs@.len(),
        forall|a: int, b: int| 0 <= a < b < idx@.len() ==> (#[trigger] idx@[a]) < (#[trigger] idx@[b]),
    ensures
        g.profile_key@ == key@,
        describes_profile(g, idx@.map_values(|i: usize| runs@[i as int])),
{
    let ghost sel = idx@.map_values(|i: usize| runs@[i as int]);
    proof {
        assert(runs@.take(runs@.len() as int) =~= runs@);
        lemma_picked_total(runs@, idx@, runs@.len() as int, 0);
        lemma_picked_total(runs@, idx@, runs@.len() as int, 1);
        assert(metric_total(runs@, 0) <= metric_max(0));
        assert(metric_total(runs@, 1) <= metric_max(1));
    }
    let mut v: u64 = 0;
    let mut s: u64 = 0;
    let mut j: usize = 0;
    while j < idx.len()
        invariant
            j <= idx@.len(),
            forall|a: int| 0 <= a < idx@.len() ==> (#[trigger] idx@[a]) < runs@.len(),
            sel == idx@.map_values(|i: usize| runs@[i as int]),
            metric_total(sel, 0) <= u64::MAX,
            metric_total(sel, 1) <= u64::MAX,
            v == metric_total(sel.take(j as int), 0),
            s == metric_total(sel.take(j as int), 1),
        decreases idx.len() - j,
    {
        proof {
            assert(sel.take(j + 1).drop_last() =~= sel.take(j as int));
            assert(sel.take(j + 1).last() == runs@[idx@[j as int] as int]);
            lemma_selection_prefix(sel, j + 1, 0);
            lemma_selection_prefix(sel, j + 1, 1);
        }
        let r = &runs[idx[j]];
        v = v + r.verified_block_count;
        s = s + r.salvageable_file_count;
        j = j + 1;
    }
    proof {
        assert(sel.take(idx@.len() as int) =~= sel);
    }
    let mut counts: Vec<(&'static str, usize)> = Vec::new();
    counts.push(("FULL_FILE_SALVAGE_AVAILABLE", count_with_outcome(runs, &idx, "FULL_FILE_SALVAGE_AVAILABLE", Ghost(sel))));
    counts.push(("NO_VERIFIED_EVIDENCE", count_with_outcome(runs, &idx, "NO_VERIFIED_EVIDENCE", Ghost(sel))));
    counts.push(("ORPHAN_EVIDENCE_ONLY", count_with_outcome(runs, &idx, "ORPHAN_EVIDENCE_ONLY", Ghost(sel))));
    counts.push(("PARTIAL_FILE_SALVAGE", count_with_outcome(runs, &idx, "PARTIAL_FILE_SALVAGE", Ghost(sel))));
    ProfileGroup {
        profile_key: key,
        run_count: idx.len(),
        outcome_counts: counts,
        aggregate_verified_block_count: v,
        aggregate_salvageable_file_count: s,
    }
}

proof fn lemma_selection_prefix(rs: Seq<RunMetadata>, j: int, m: int)
    requires
        0 <= j <= rs.len(),
    ensures
        metric_total(rs.take(j), m) <= metric_total(rs, m),
    decreases rs.len(),
{
    if j < rs.len() {
        assert(rs.drop_last().take(j) =~= rs.take(j));
        lemma_selection_prefix(rs.drop_last(), j, m);
    } else {
        assert(rs.take(j) =~= rs);
    }
}

/// One of the groups `gs` is that of profile `key`.
pub open spec fn has_profile(gs: Seq<ProfileGroup>, key: Seq<char>) -> bool {
    exists|a: int| 0 <= a < gs.len() && #[trigger] gs[a].profile_key@ == key
}

/// `gs` groups the runs by inferred profile: profiles in ascending order,
/// one group per profile met, each describing the runs of its profile.
pub open spec fn is_profile_grouping(gs: Seq<ProfileGroup>, rs: Seq<RunMetadata>) -> bool {
    &&& forall|a: int, b: int| 0 <= a < b < gs.len() ==> chars_lt(#[trigger] gs[a].profile_key@, #[trigger] gs[b].profile_key@)
    &&& forall|i: int| 0 <= i < rs.len() ==> has_profile(gs, spec_profile_key((#[trigger] rs[i]).archive_path@))
    &&& forall|a: int| 0 <= a < gs.len() ==> describes_profile(#[trigger] gs[a], profile_runs(rs, gs[a].profile_key@))
}

/// Groups runs by the damage profile their archive paths name.
pub fn profile_groups(runs: &Vec<RunMetadata>) -> (gs: Vec<ProfileGroup>)
    requires
        totals_fit(runs@),
    ensures
        is_profile_grouping(gs@, runs@),
{
    let mut items: Vec<(String, usize)> = Vec::new();
    let mut i: usize = 0;
    while i < runs.len()
        invariant
            i <= runs@.len(),
            keyed_views(items@) == keyed_profiles(runs@).take(i as int),
        decreases runs.len() - i,
    {
        let k = infer_profile_key(runs[i].archive_path.as_str());
        let ghost old_items = items@;
        items.push((k, i));
        proof {
            assert(keyed_views(items@) =~= keyed_views(old_items).push((k@, i)));
            assert(keyed_profiles(runs@)[i as int] == (k@, i));
            assert(keyed_views(items@) =~= keyed_profiles(runs@).take(i + 1));
        }
        i = i + 1;
    }
    proof {
        assert(keyed_profiles(runs@).take(runs@.len() as int) =~= keyed_profiles(runs@));
    }
    let groups = group_by_key(items);
    let ghost kp = keyed_profiles(runs@);
    let ghost gv = group_views(groups@);
    let rlen = runs.len();
    let mut rest = groups;
    let mut out: Vec<ProfileGroup> = Vec::new();
    let ghost mut q: int = 0;
    while rest.len() > 0
        invariant
            rlen == runs@.len(),
            totals_fit(runs@),
            0 <= q <= gv.len(),
            kp == keyed_profiles(runs@),
            is_grouping(kp, gv),
            group_views(rest@) == gv.subrange(q, gv.len() as int),
            out@.len() == q,
            forall|a: int| 0 <= a < q ==> (#[trigger] out@[a]).profile_key@ == gv[a].0,
            forall|a: int| 0 <= a < q ==> describes_profile(#[trigger] out@[a], profile_runs(runs@, out@[a].profile_key@)),
        decreases rest.len(),
    {
        let ghost old_rest = rest@;
        assert(group_views(rest@).len() == rest@.len());
        let (gk, idx) = rest.remove(0);
        proof {
            assert(group_views(old_rest)[0] == gv[q]);
            assert(gk@ == gv[q].0 && idx@ == gv[q].1);
            assert(gv[q].1.len() > 0);
            assert(gv[q].1 == items_with_key(kp, gv[q].0));
            lemma_profile_indices(runs@, gk@, runs@.len() as int);
            assert(kp.take(runs@.len() as int) =~= kp);
        }
        let g = profile_group(runs, gk, idx);
        proof {
            assert(profile_runs(runs@, g.profile_key@) == idx@.map_values(|i: usize| runs@[i as int]));
        }
        out.push(g);
        proof {
            assert(rest@ =~= old_rest.subrange(1, old_rest.len() as int));
            assert(group_views(rest@) =~= group_views(old_rest).subrange(1, old_rest.len() as int));
            q = q + 1;
            assert(group_views(rest@) =~= gv.subrange(q, gv.len() as int));
        }
    }
    proof {
        assert(q == gv.len());
        assert forall|a: int, b: int| 0 <= a < b < out@.len() implies chars_lt(#[trigger] out@[a].profile_key@, #[trigger] out@[b].profile_key@) by {
            assert(out@[a].profile_key@ == gv[a].0);
            assert(out@[b].profile_key@ == gv[b].0);
        }
        assert forall|a: int| 0 <= a < out@.len() implies describes_profile(#[trigger] out@[a], profile_runs(runs@, out@[a].profile_key@)) by {
        }
        assert forall|i: int| 0 <= i < runs@.len() implies has_profile(out@, spec_profile_key((#[trigger] runs@[i]).archive_path@)) by {
            assert(kp[i].0 == spec_profile_key(runs@[i].archive_path@));
            let a = choose|a: int| 0 <= a < gv.len() && #[trigger] gv[a].0 == #[trigger] kp[i].0;
            assert(out@[a].profile_key@ == gv[a].0);
        }
    }
    out
}


/// The four outcomes in the order the analysis lists them.
pub open spec fn outcome_in_order(k: int) -> Seq<char> {
    if k == 0 {
        "NO_VERIFIED_EVIDENCE"@
    } else if k == 1 {
        "ORPHAN_EVIDENCE_ONLY"@
    } else if k == 2 {
        "PARTIAL_FILE_SALVAGE"@
    } else {
        "FULL_FILE_SALVAGE_AVAILABLE"@
    }
}

/// The runs of an experiment under one fragment-export setting.
pub struct ExportModeGroup {
    pub export_fragments_enabled: bool,
    pub run_count: usize,
    pub aggregate_exported_block_artifact_count: usize,
    pub aggregate_exported_extent_artifact_count: usize,
    pub aggregate_exported_full_file_artifact_count: usize,
}

/// How the analysis groups and ranks runs.
pub struct GroupingStrategy {
    pub outcome_order: Vec<&'static str>,
    pub profile_inference_priority: Vec<&'static str>,
    pub ranking_tie_breaker: &'static str,
}

/// The grouped analysis of an experiment.
pub struct ExperimentAnalysis {
    pub schema_version: String,
    pub tool: String,
    pub tool_version: String,
    pub experiment_id: String,
    pub verification_label: String,
    pub run_count: usize,
    pub grouping_strategy: GroupingStrategy,
    pub outcome_groups: Vec<OutcomeGroup>,
    pub export_mode_groups: Vec<ExportModeGroup>,
    pub evidence_rankings: EvidenceRankings,
    pub profile_groups: Vec<ProfileGroup>,
    pub notes: Vec<String>,
}

/// `st` is the strategy the analysis follows.
pub open spec fn is_analysis_strategy(st: GroupingStrategy) -> bool {
    &&& st.outcome_order@.len() == 4
    &&& forall|k: int| 0 <= k < 4 ==> (#[trigger] st.outcome_order@[k])@ == outcome_in_order(k)
    &&& st.profile_inference_priority@.len() == 3
    &&& st.profile_inference_priority@[0]@ == "explicit_profile_metadata"@
    &&& st.profile_inference_priority@[1]@ == "filename_path_derived_profile"@
    &&& st.profile_inference_priority@[2]@ == "UNKNOWN_PROFILE_fallback"@
    &&& st.ranking_tie_breaker@ == "archive_id_ascending"@
}

fn analysis_strategy() -> (st: GroupingStrategy)
    ensures
        is_analysis_strategy(st),
{
    let mut order: Vec<&'static str> = Vec::new();
    order.push("NO_VERIFIED_EVIDENCE");
    order.push("ORPHAN_EVIDENCE_ONLY");
    order.push("PARTIAL_FILE_SALVAGE");
    order.push("FULL_FILE_SALVAGE_AVAILABLE");
    let mut priority: Vec<&'static str> = Vec::new();
    priority.push("explicit_profile_metadata");
    priority.push("filename_path_derived_profile");
    priority.push("UNKNOWN_PROFILE_fallback");
    GroupingStrategy { outcome_order: order, profile_inference_priority: priority, ranking_tie_breaker: "archive_id_ascending" }
}

fn export_mode_group(runs: &Vec<RunMetadata>, export_fragments_enabled: bool) -> (g: ExportModeGroup)
    requires
        totals_fit(runs@),
    ensures
        g.export_fragments_enabled == export_fragments_enabled,
        g.run_count == runs@.len(),
        g.aggregate_exported_block_artifact_count == metric_total(runs@, 4),
        g.aggregate_exported_extent_artifact_count == metric_total(runs@, 5),
        g.aggregate_exported_full_file_artifact_count == metric_total(runs@, 6),
{
    proof {
        assert(metric_total(runs@, 4) <= metric_max(4));
        assert(metric_total(runs@, 5) <= metric_max(5));
        assert(metric_total(runs@, 6) <= metric_max(6));
    }
    let mut b: usize = 0;
    let mut e: usize = 0;
    let mut f: usize = 0;
    let mut i: usize = 0;
    while i < runs.len()
        invariant
            i <= runs@.len(),
            metric_total(runs@, 4) <= usize::MAX,
            metric_total(runs@, 5) <= usize::MAX,
            metric_total(runs@, 6) <= usize::MAX,
            b == metric_total(runs@.take(i as int), 4),
            e == metric_total(runs@.take(i as int), 5),
            f == metric_total(runs@.take(i as int), 6),
        decreases runs.len() - i,
    {
        proof {
            assert(runs@.take(i + 1).drop_last() =~= runs@.take(i as int));
            assert(runs@.take(i + 1).last() == runs@[i as int]);
            lemma_selection_prefix(runs@, i + 1, 4);
            lemma_selection_prefix(runs@, i + 1, 5);
            lemma_selection_prefix(runs@, i + 1, 6);
        }
        b = b + runs[i].exported_block_artifact_count;
        e = e + runs[i].exported_extent_artifact_count;
        f = f + runs[i].exported_full_file_artifact_count;
        i = i + 1;
    }
    proof {
        assert(runs@.take(runs@.len() as int) =~= runs@);
    }
    ExportModeGroup {
        export_fragments_enabled,
        run_count: runs.len(),
        aggregate_exported_block_artifact_count: b,
        aggregate_exported_extent_artifact_count: e,
        aggregate_exported_full_file_artifact_count: f,
    }
}

/// Builds the grouped analysis of an experiment's runs: the runs in
/// archive-id order grouped by outcome, by export setting and by inferred
/// profile, and ranked by the evidence they yielded.
pub fn generate_analysis(
    runs: Vec<RunMetadata>,
    experiment_id: String,
    export_fragments_enabled: bool,
    schema_version: String,
    tool_version: String,
    verification_label: String,
) -> (a: ExperimentAnalysis)
    requires
        totals_fit(runs@),
    ensures
        a.schema_version@ == schema_version@,
        a.tool@ == "crushr-lab-salvage"@,
        a.tool_version@ == tool_version@,
        a.experiment_id@ == experiment_id@,
        a.verification_label@ == verification_label@,
        a.run_count == runs@.len(),
        is_analysis_strategy(a.grouping_strategy),
        a.outcome_groups@.len() == 4,
        forall|k: int| 0 <= k < 4 ==> (#[trigger] a.outcome_groups@[k]).outcome@ == outcome_in_order(k)
            && describes_runs(a.outcome_groups@[k], runs_with_outcome(sorted_runs(runs@), outcome_in_order(k))),
        a.export_mode_groups@.len() == 1,
        a.export_mode_groups@[0].export_fragments_enabled == export_fragments_enabled,
        a.export_mode_groups@[0].run_count == runs@.len(),
        a.export_mode_groups@[0].aggregate_exported_block_artifact_count == metric_total(runs@, 4),
        a.export_mode_groups@[0].aggregate_exported_extent_artifact_count == metric_total(runs@, 5),
        a.export_mode_groups@[0].aggregate_exported_full_file_artifact_count == metric_total(runs@, 6),
        entry_views(a.evidence_rankings.top_runs_by_verified_blocks@) == ranked(rank_views(sorted_runs(runs@)), 0),
        entry_views(a.evidence_rankings.top_runs_by_salvageable_files@) == ranked(rank_views(sorted_runs(runs@)), 1),
        entry_views(a.evidence_rankings.top_runs_by_exported_full_files@) == ranked(rank_views(sorted_runs(runs@)), 2),
        entry_views(a.evidence_rankings.bottom_runs_with_no_verified_evidence@) == rank_views(runs_without_evidence(sorted_runs(runs@))),
        is_profile_grouping(a.profile_groups@, sorted_runs(runs@)),
        a.notes@.len() == 2,
        a.notes@[0]@ == "Compact deterministic grouped analysis over experiment metadata only"@,
        a.notes@[1]@ == "Research-only outputs; not canonical extraction semantics"@,
{
    let ghost given_runs = runs@;
    proof {
        lemma_sorted_runs_len(given_runs);
        assert forall|m: int| 0 <= m < 7 implies #[trigger] metric_total(sorted_runs(given_runs), m) <= metric_max(m) by {
            lemma_total_permutation(given_runs, m);
        }
        lemma_total_permutation(given_runs, 4);
        lemma_total_permutation(given_runs, 5);
        lemma_total_permutation(given_runs, 6);
    }
    let ordered = sort_runs_by_archive_id(runs);
    let mut outcome_groups: Vec<OutcomeGroup> = Vec::new();
    outcome_groups.push(outcome_group(&ordered, "NO_VERIFIED_EVIDENCE"));
    outcome_groups.push(outcome_group(&ordered, "ORPHAN_EVIDENCE_ONLY"));
    outcome_groups.push(outcome_group(&ordered, "PARTIAL_FILE_SALVAGE"));
    outcome_groups.push(outcome_group(&ordered, "FULL_FILE_SALVAGE_AVAILABLE"));
    let mut export_mode_groups: Vec<ExportModeGroup> = Vec::new();
    export_mode_groups.push(export_mode_group(&ordered, export_fragments_enabled));
    let evidence = evidence_rankings(&ordered);
    let profiles = profile_groups(&ordered);
    let mut notes: Vec<String> = Vec::new();
    notes.push(String::from_str("Compact deterministic grouped analysis over experiment metadata only"));
    notes.push(String::from_str("Research-only outputs; not canonical extraction semantics"));
    ExperimentAnalysis {
        schema_version,
        tool: String::from_str("crushr-lab-salvage"),
        tool_version,
        experiment_id,
        verification_label,
        run_count: ordered.len(),
        grouping_strategy: analysis_strategy(),
        outcome_groups,
        export_mode_groups,
        evidence_rankings: evidence,
        profile_groups: profiles,
        notes,
    }
}


/// The lines `f` gives for the items of `s`, in order.
pub open spec fn lines_of<T>(s: Seq<T>, f: spec_fn(T) -> Seq<char>) -> Seq<char>
    decreases s.len(),
{
    if s.len() == 0 {
        seq![]
    } else {
        lines_of(s.drop_last(), f) + f(s.last())
    }
}

proof fn lemma_lines_push<T>(s: Seq<T>, x: T, f: spec_fn(T) -> Seq<char>)
    ensures
        lines_of(s.push(x), f) == lines_of(s, f) + f(x),
{
    assert(s.push(x).drop_last() =~= s);
}

/// The first five items of `s` (all of them if fewer).
pub open spec fn first_five<T>(s: Seq<T>) -> Seq<T> {
    if s.len() < 5 { s } else { s.take(5) }
}

/// The entries whose outcome is orphan evidence only, in order.
pub open spec fn orphan_entries(s: Seq<RankView>) -> Seq<RankView>
    decreases s.len(),
{
    if s.len() == 0 {
        seq![]
    } else {
        let prev = orphan_entries(s.drop_last());
        if s.last().outcome == "ORPHAN_EVIDENCE_ONLY"@ { prev.push(s.last()) } else { prev }
    }
}

/// The line of an outcome group.
pub open spec fn outcome_group_line(g: OutcomeGroup) -> Seq<char> {
    "- "@ + g.outcome@ + ": "@ + decimal(g.run_count as nat) + " runs (verified_blocks="@
        + decimal(g.aggregate_verified_block_count as nat) + ", salvageable_files="@
        + decimal(g.aggregate_salvageable_file_count as nat) + ", exported b/e/f="@
        + decimal(g.aggregate_exported_block_artifact_count as nat) + "/"@
        + decimal(g.aggregate_exported_extent_artifact_count as nat) + "/"@
        + decimal(g.aggregate_exported_full_file_artifact_count as nat) + ")\n"@
}

/// The line of a profile group.
pub open spec fn profile_group_line(g: ProfileGroup) -> Seq<char> {
    "- `"@ + g.profile_key@ + "`: "@ + decimal(g.run_count as nat) + " runs, verified_blocks="@
        + decimal(g.aggregate_verified_block_count as nat) + ", salvageable_files="@
        + decimal(g.aggregate_salvageable_file_count as nat) + "\n"@
}

/// The line of a run among the top evidence.
pub open spec fn top_evidence_line(e: RankView) -> Seq<char> {
    "- `"@ + e.archive_id + "` (`"@ + e.archive_path + "`): verified_blocks="@
        + decimal(e.verified_block_count as nat) + ", salvageable_files="@
        + decimal(e.salvageable_file_count as nat) + ", outcome="@ + e.outcome + "\n"@
}

/// The line of a run without verified evidence.
pub open spec fn no_evidence_line(e: RankView) -> Seq<char> {
    "- `"@ + e.archive_id + "` (`"@ + e.archive_path + "`): outcome="@ + e.outcome + "\n"@
}

/// The line of a run with orphan evidence only.
pub open spec fn orphan_line(e: RankView) -> Seq<char> {
    "- `"@ + e.archive_id + "` (`"@ + e.archive_path + "`): verified_blocks="@
        + decimal(e.verified_block_count as nat) + "\n"@
}

/// The head of the analysis report.
pub open spec fn analysis_head(a: ExperimentAnalysis, export_fragments_enabled: bool) -> Seq<char> {
    "# Salvage Experiment Grouped Analysis\n\n"@
        + "- Experiment ID: `"@ + a.experiment_id@ + "`\n"@
        + "- Run count: `"@ + decimal(a.run_count as nat) + "`\n"@
        + "- Verification label: `"@ + a.verification_label@ + "`\n"@
        + "- Fragment export enabled: `"@ + yes_no(export_fragments_enabled) + "`\n\n"@
        + "All grouped analysis outputs are research-only (`UNVERIFIED_RESEARCH_OUTPUT`).\n\n"@
}

/// The Markdown report of an analysis.
pub open spec fn analysis_markdown(a: ExperimentAnalysis, export_fragments_enabled: bool) -> Seq<char> {
    let top = entry_views(a.evidence_rankings.top_runs_by_verified_blocks@);
    analysis_head(a, export_fragments_enabled)
        + "## Grouped outcome counts\n\n"@
        + lines_of(a.outcome_groups@, |g: OutcomeGroup| outcome_group_line(g))
        + "\n## Grouped profile counts\n\n"@
        + lines_of(a.profile_groups@, |g: ProfileGroup| profile_group_line(g))
        + "\n## Top evidence\n\n"@
        + lines_of(first_five(top), |e: RankView| top_evidence_line(e))
        + "\n## No verified evidence\n\n"@
        + lines_of(entry_views(a.evidence_rankings.bottom_runs_with_no_verified_evidence@), |e: RankView| no_evidence_line(e))
        + "\n## Orphan-only evidence\n\n"@
        + lines_of(first_five(orphan_entries(top)), |e: RankView| orphan_line(e))
}

fn push_head(md: &mut String, a: &ExperimentAnalysis, export_fragments_enabled: bool)
    ensures
        final(md)@ == old(md)@ + analysis_head(*a, export_fragments_enabled),
{
    push_str(md, "# Salvage Experiment Grouped Analysis\n\n");
    push_str(md, "- Experiment ID: `");
    push_str(md, a.experiment_id.as_str());
    push_str(md, "`\n");
    push_str(md, "- Run count: `");
    push_decimal(md, a.run_count as u64);
    push_str(md, "`\n");
    push_str(md, "- Verification label: `");
    push_str(md, a.verification_label.as_str());
    push_str(md, "`\n");
    push_str(md, "- Fragment export enabled: `");
    push_str(md, if export_fragments_enabled { "yes" } else { "no" });
    push_str(md, "`\n\n");
    push_str(md, "All grouped analysis outputs are research-only (`UNVERIFIED_RESEARCH_OUTPUT`).\n\n");
    proof {
        assert(md@ =~= old(md)@ + analysis_head(*a, export_fragments_enabled));
    }
}

fn push_outcome_group_line(md: &mut String, g: &OutcomeGroup)
    ensures
        final(md)@ == old(md)@ + outcome_group_line(*g),
{
    push_str(md, "- ");
    push_str(md, g.outcome);
    push_str(md, ": ");
    push_decimal(md, g.run_count as u64);
    push_str(md, " runs (verified_blocks=");
    push_decimal(md, g.aggregate_verified_block_count);
    push_str(md, ", salvageable_files=");
    push_decimal(md, g.aggregate_salvageable_file_count);
    push_str(md, ", exported b/e/f=");
    push_decimal(md, g.aggregate_exported_block_artifact_count as u64);
    push_str(md, "/");
    push_decimal(md, g.aggregate_exported_extent_artifact_count as u64);
    push_str(md, "/");
    push_decimal(md, g.aggregate_exported_full_file_artifact_count as u64);
    push_str(md, ")\n");
    proof {
        assert(md@ =~= old(md)@ + outcome_group_line(*g));
    }
}

fn push_profile_group_line(md: &mut String, g: &ProfileGroup)
    ensures
        final(md)@ == old(md)@ + profile_group_line(*g),
{
    push_str(md, "- `");
    push_str(md, g.profile_key.as_str());
    push_str(md, "`: ");
    push_decimal(md, g.run_count as u64);
    push_str(md, " runs, verified_blocks=");
    push_decimal(md, g.aggregate_verified_block_count);
    push_str(md, ", salvageable_files=");
    push_decimal(md, g.aggregate_salvageable_file_count);
    push_str(md, "\n");
    proof {
        assert(md@ =~= old(md)@ + profile_group_line(*g));
    }
}

fn push_entry_line(md: &mut String, e: &RankingEntry, kind: usize)
    ensures
        final(md)@ == old(md)@ + (if kind == 0 { top_evidence_line(e@) } else if kind == 1 { no_evidence_line(e@) } else { orphan_line(e@) }),
{
    push_str(md, "- `");
    push_str(md, e.archive_id.as_str());
    push_str(md, "` (`");
    push_str(md, e.archive_path.as_str());
    if kind == 0 {
        push_str(md, "`): verified_blocks=");
        push_decimal(md, e.verified_block_count);
        push_str(md, ", salvageable_files=");
        push_decimal(md, e.salvageable_file_count);
        push_str(md, ", outcome=");
        push_str(md, e.outcome);
        push_str(md, "\n");
        proof {
            assert(md@ =~= old(md)@ + top_evidence_line(e@));
        }
    } else if kind == 1 {
        push_str(md, "`): outcome=");
        push_str(md, e.outcome);
        push_str(md, "\n");
        proof {
            assert(md@ =~= old(md)@ + no_evidence_line(e@));
        }
    } else {
        push_str(md, "`): verified_blocks=");
        push_decimal(md, e.verified_block_count);
        push_str(md, "\n");
        proof {
            assert(md@ =~= old(md)@ + orphan_line(e@));
        }
    }
}


proof fn lemma_orphan_push(s: Seq<RankView>, x: RankView)
    ensures
        orphan_entries(s.push(x)) == (if x.outcome == "ORPHAN_EVIDENCE_ONLY"@ { orphan_entries(s).push(x) } else { orphan_entries(s) }),
{
    assert(s.push(x).drop_last() =~= s);
}

fn push_outcome_group_lines(md: &mut String, gs: &Vec<OutcomeGroup>)
    ensures
        final(md)@ == old(md)@ + lines_of(gs@, |g: OutcomeGroup| outcome_group_line(g)),
{
    let ghost f = |g: OutcomeGroup| outcome_group_line(g);
    let ghost head = md@;
    let mut i: usize = 0;
    proof {
        assert(gs@.take(0) =~= Seq::<OutcomeGroup>::empty());
        assert(head + lines_of(gs@.take(0), f) =~= head);
    }
    while i < gs.len()
        invariant
            i <= gs@.len(),
            f == (|g: OutcomeGroup| outcome_group_line(g)),
            md@ == head + lines_of(gs@.take(i as int), f),
        decreases gs.len() - i,
    {
        push_outcome_group_line(md, &gs[i]);
        proof {
            assert(gs@.take(i + 1) =~= gs@.take(i as int).push(gs@[i as int]));
            lemma_lines_push(gs@.take(i as int), gs@[i as int], f);
            assert(md@ =~= head + lines_of(gs@.take(i + 1), f));
        }
        i = i + 1;
    }
    proof {
        assert(gs@.take(gs@.len() as int) =~= gs@);
    }
}

fn push_profile_group_lines(md: &mut String, gs: &Vec<ProfileGroup>)
    ensures
        final(md)@ == old(md)@ + lines_of(gs@, |g: ProfileGroup| profile_group_line(g)),
{
    let ghost f = |g: ProfileGroup| profile_group_line(g);
    let ghost head = md@;
    let mut i: usize = 0;
    proof {
        assert(gs@.take(0) =~= Seq::<ProfileGroup>::empty());
        assert(head + lines_of(gs@.take(0), f) =~= head);
    }
    while i < gs.len()
        invariant
            i <= gs@.len(),
            f == (|g: ProfileGroup| profile_group_line(g)),
            md@ == head + lines_of(gs@.take(i as int), f),
        decreases gs.len() - i,
    {
        push_profile_group_line(md, &gs[i]);
        proof {
            assert(gs@.take(i + 1) =~= gs@.take(i as int).push(gs@[i as int]));
            lemma_lines_push(gs@.take(i as int), gs@[i as int], f);
            assert(md@ =~= head + lines_of(gs@.take(i + 1), f));
        }
        i = i + 1;
    }
    proof {
        assert(gs@.take(gs@.len() as int) =~= gs@);
    }
}

fn push_entry_lines(md: &mut String, es: &Vec<RankingEntry>, kind: usize, limit: usize)
    requires
        kind == 0 || kind == 1,
    ensures
        final(md)@ == old(md)@ + lines_of(
            entry_views(es@).take(if es@.len() < limit { es@.len() as int } else { limit as int }),
            if kind == 0 { |e: RankView| top_evidence_line(e) } else { |e: RankView| no_evidence_line(e) },
        ),
{
    let ghost f = if kind == 0 { |e: RankView| top_evidence_line(e) } else { |e: RankView| no_evidence_line(e) };
    let ghost vs = entry_views(es@);
    let ghost head = md@;
    let n = if es.len() < limit { es.len() } else { limit };
    let mut i: usize = 0;
    proof {
        assert(vs.take(0) =~= Seq::<RankView>::empty());
        assert(head + lines_of(vs.take(0), f) =~= head);
    }
    while i < n
        invariant
            n <= es@.len(),
            vs == entry_views(es@),
            f == (if kind == 0 { |e: RankView| top_evidence_line(e) } else { |e: RankView| no_evidence_line(e) }),
            kind == 0 || kind == 1,
            i <= n,
            md@ == head + lines_of(vs.take(i as int), f),
        decreases n - i,
    {
        push_entry_line(md, &es[i], kind);
        proof {
            assert(vs[i as int] == es@[i as int]@);
            assert(vs.take(i + 1) =~= vs.take(i as int).push(vs[i as int]));
            lemma_lines_push(vs.take(i as int), vs[i as int], f);
            assert(md@ =~= head + lines_of(vs.take(i + 1), f));
        }
        i = i + 1;
    }
}

fn push_orphan_lines(md: &mut String, es: &Vec<RankingEntry>)
    ensures
        final(md)@ == old(md)@ + lines_of(first_five(orphan_entries(entry_views(es@))), |e: RankView| orphan_line(e)),
{
    let ghost f = |e: RankView| orphan_line(e);
    let ghost vs = entry_views(es@);
    let ghost head = md@;
    let mut taken: usize = 0;
    let mut i: usize = 0;
    proof {
        assert(vs.take(0) =~= Seq::<RankView>::empty());
        assert(first_five(orphan_entries(vs.take(0))) =~= Seq::<RankView>::empty());
        assert(head + lines_of(Seq::<RankView>::empty(), f) =~= head);
    }
    while i < es.len()
        invariant
            i <= es@.len(),
            vs == entry_views(es@),
            f == (|e: RankView| orphan_line(e)),
            taken == first_five(orphan_entries(vs.take(i as int))).len(),
            md@ == head + lines_of(first_five(orphan_entries(vs.take(i as int))), f),
        decreases es.len() - i,
    {
        let ghost pre = orphan_entries(vs.take(i as int));
        proof {
            assert(vs[i as int] == es@[i as int]@);
            assert(vs.take(i + 1) =~= vs.take(i as int).push(vs[i as int]));
            lemma_orphan_push(vs.take(i as int), vs[i as int]);
        }
        if str_equals(es[i].outcome, "ORPHAN_EVIDENCE_ONLY") {
            if taken < 5 {
                push_entry_line(md, &es[i], 2);
                proof {
                    assert(first_five(pre.push(vs[i as int])) =~= first_five(pre).push(vs[i as int]));
                    lemma_lines_push(first_five(pre), vs[i as int], f);
                }
                taken = taken + 1;
            } else {
                proof {
                    assert(first_five(pre.push(vs[i as int])) =~= first_five(pre));
                }
            }
        }
        i = i + 1;
    }
    proof {
        assert(vs.take(es@.len() as int) =~= vs);
    }
}

/// Renders the Markdown report of an analysis.
pub fn render_analysis_markdown(a: &ExperimentAnalysis, export_fragments_enabled: bool) -> (md: String)
    ensures
        md@ == analysis_markdown(*a, export_fragments_enabled),
{
    let mut md = String::new();
    push_head(&mut md, a, export_fragments_enabled);
    push_str(&mut md, "## Grouped outcome counts\n\n");
    push_outcome_group_lines(&mut md, &a.outcome_groups);
    push_str(&mut md, "\n## Grouped profile counts\n\n");
    push_profile_group_lines(&mut md, &a.profile_groups);
    push_str(&mut md, "\n## Top evidence\n\n");
    push_entry_lines(&mut md, &a.evidence_rankings.top_runs_by_verified_blocks, 0, 5);
    push_str(&mut md, "\n## No verified evidence\n\n");
    let nb = a.evidence_rankings.bottom_runs_with_no_verified_evidence.len();
    push_entry_lines(&mut md, &a.evidence_rankings.bottom_runs_with_no_verified_evidence, 1, nb);
    push_str(&mut md, "\n## Orphan-only evidence\n\n");
    push_orphan_lines(&mut md, &a.evidence_rankings.top_runs_by_verified_blocks);
    proof {
        let top = entry_views(a.evidence_rankings.top_runs_by_verified_blocks@);
        let bottom = entry_views(a.evidence_rankings.bottom_runs_with_no_verified_evidence@);
        assert(top.take(if top.len() < 5 { top.len() as int } else { 5 }) =~= first_five(top));
        assert(bottom.take(bottom.len() as int) =~= bottom);
        assert(md@ =~= analysis_markdown(*a, export_fragments_enabled));
    }
    md
}


/// Every run reaches exactly one of the four outcomes, so the outcome
/// groups together hold every run once.
pub proof fn law_outcome_groups_partition_runs(rs: Seq<RunMetadata>)
    ensures
        runs_with_outcome(rs, outcome_in_order(0)).len() + runs_with_outcome(rs, outcome_in_order(1)).len()
            + runs_with_outcome(rs, outcome_in_order(2)).len() + runs_with_outcome(rs, outcome_in_order(3)).len() == rs.len(),
    decreases rs.len(),
{
    reveal_strlit("ORPHAN_EVIDENCE_ONLY");
    reveal_strlit("NO_VERIFIED_EVIDENCE");
    reveal_strlit("PARTIAL_FILE_SALVAGE");
    reveal_strlit("FULL_FILE_SALVAGE_AVAILABLE");
    assert("ORPHAN_EVIDENCE_ONLY"@[0] != "PARTIAL_FILE_SALVAGE"@[0]);
    assert("ORPHAN_EVIDENCE_ONLY"@[0] != "FULL_FILE_SALVAGE_AVAILABLE"@[0]);
    assert("ORPHAN_EVIDENCE_ONLY"@[0] != "NO_VERIFIED_EVIDENCE"@[0]);
    assert("NO_VERIFIED_EVIDENCE"@[0] != "PARTIAL_FILE_SALVAGE"@[0]);
    assert("NO_VERIFIED_EVIDENCE"@[0] != "FULL_FILE_SALVAGE_AVAILABLE"@[0]);
    assert("PARTIAL_FILE_SALVAGE"@[0] != "FULL_FILE_SALVAGE_AVAILABLE"@[0]);
    if rs.len() > 0 {
        law_outcome_groups_partition_runs(rs.drop_last());
    }
}


/// Each entry may stay before every later one.
pub open spec fn ranking_ordered(s: Seq<RankView>, m: int) -> bool {
    forall|i: int, j: int| 0 <= i < j < s.len() ==> ranks_before(#[trigger] s[i], #[trigger] s[j], m)
}

proof fn lemma_ranks_before_transitive(a: RankView, b: RankView, c: RankView, m: int)
    requires
        ranks_before(a, b, m),
        ranks_before(b, c, m),
    ensures
        ranks_before(a, c, m),
{
    if rank_metric(a, m) == rank_metric(b, m) && rank_metric(b, m) == rank_metric(c, m) {
        if chars_lt(a.archive_id, b.archive_id) && chars_lt(b.archive_id, c.archive_id) {
            crate::text::lemma_chars_lt_transitive(a.archive_id, b.archive_id, c.archive_id);
        }
    }
}

proof fn lemma_insert_ranked_sorted(t: Seq<RankView>, x: RankView, m: int)
    requires
        ranking_ordered(t, m),
    ensures
        ranking_ordered(insert_ranked(t, x, m), m),
        insert_ranked(t, x, m).to_multiset() == t.to_multiset().insert(x),
        forall|k: int| 0 <= k < insert_ranked(t, x, m).len() ==> #[trigger] insert_ranked(t, x, m)[k] == x || t.contains(insert_ranked(t, x, m)[k]),
    decreases t.len(),
{
    broadcast use vstd::seq_lib::group_to_multiset_ensures;
    if t.len() == 0 {
        assert(seq![x] =~= Seq::<RankView>::empty().push(x));
    } else if ranks_before(t.last(), x, m) {
        let r = t.push(x);
        assert forall|i: int, j: int| 0 <= i < j < r.len() implies ranks_before(#[trigger] r[i], #[trigger] r[j], m) by {
            if j == t.len() && i < t.len() - 1 {
                lemma_ranks_before_transitive(t[i], t.last(), x, m);
            }
        }
        assert forall|k: int| 0 <= k < r.len() implies #[trigger] r[k] == x || t.contains(r[k]) by {
            if k < t.len() {
                assert(t[k] == r[k]);
            }
        }
    } else {
        let p = t.drop_last();
        let last = t.last();
        assert(ranking_ordered(p, m)) by {
            assert forall|i: int, j: int| 0 <= i < j < p.len() implies ranks_before(#[trigger] p[i], #[trigger] p[j], m) by {
                assert(p[i] == t[i] && p[j] == t[j]);
            }
        }
        lemma_insert_ranked_sorted(p, x, m);
        let q = insert_ranked(p, x, m);
        let r = q.push(last);
        lemma_chars_lt_total(last.archive_id, x.archive_id);
        assert(ranks_before(x, last, m));
        assert forall|i: int, j: int| 0 <= i < j < r.len() implies ranks_before(#[trigger] r[i], #[trigger] r[j], m) by {
            if j == q.len() {
                assert(r[i] == q[i]);
                if q[i] != x {
                    let w = choose|w: int| 0 <= w < p.len() && p[w] == q[i];
                    assert(t[w] == p[w]);
                    assert(ranks_before(t[w], t[t.len() - 1], m));
                }
            } else {
                assert(r[i] == q[i] && r[j] == q[j]);
            }
        }
        assert(t =~= p.push(last));
        assert forall|k: int| 0 <= k < r.len() implies #[trigger] r[k] == x || t.contains(r[k]) by {
            if k < q.len() {
                assert(r[k] == q[k]);
                if q[k] != x {
                    let w = choose|w: int| 0 <= w < p.len() && p[w] == q[k];
                    assert(t[w] == p[w]);
                }
            } else {
                assert(t[t.len() - 1] == r[k]);
            }
        }
    }
}

/// A ranking keeps every entry and orders them: larger counts first, equal
/// counts by ascending archive id.
pub proof fn law_ranking_orders_entries(s: Seq<RankView>, m: int)
    ensures
        ranking_ordered(ranked(s, m), m),
        ranked(s, m).to_multiset() == s.to_multiset(),
    decreases s.len(),
{
    broadcast use vstd::seq_lib::group_to_multiset_ensures;
    if s.len() == 0 {
        assert(ranked(s, m) =~= s);
    } else {
        law_ranking_orders_entries(s.drop_last(), m);
        lemma_insert_ranked_sorted(ranked(s.drop_last(), m), s.last(), m);
        assert(s =~= s.drop_last().push(s.last()));
    }
}

} // verus!
