//! Salvage runs over an experiment's archives: identities, what each run
//! yielded, and its outcome.
use vstd::prelude::*;
use vstd::string::*;
use crate::json::{JsonValue, json_get, get_u64, get_array, json_as_u64};
use crate::text::{push_str, sanitize_component, spec_sanitize_component, str_equals, str_lt, chars_lt, chars_le, lemma_chars_lt_total, lemma_chars_lt_asymmetric, lemma_chars_lt_irreflexive};
use crate::digest::{blake3_hash, blake3_digest, hex_lower, to_hex, fingerprint, fingerprint_hex};
use super::outcome::{count_rows_with, count_plan_rows, outcome_label};
use super::corruption::FooterOffsets;

verus! {

/// The identity of an archive in an experiment: its sanitized path and the
/// first eight bytes, in hexadecimal, of the BLAKE3 digest of its path and
/// fingerprint on two lines.
pub open spec fn spec_archive_id(path: Seq<char>, fingerprint: Seq<char>) -> Seq<char> {
    spec_sanitize_component(path) + "-"@ + hex_lower(
        blake3_digest(vstd::utf8::encode_utf8(path + "\n"@ + fingerprint)).take(8),
    )
}

/// Builds an archive's identity from its path and fingerprint.
pub fn archive_id(archive_path: &str, archive_fingerprint: &str) -> (r: String)
    ensures
        r@ == spec_archive_id(archive_path@, archive_fingerprint@),
{
    let mut text = String::from_str(archive_path);
    push_str(&mut text, "\n");
    push_str(&mut text, archive_fingerprint);
    let bytes = text.as_str().as_bytes();
    let digest = blake3_hash(bytes);
    let head = vstd::slice::slice_subrange(digest.as_slice(), 0, 8);
    let mut out = sanitize_component(archive_path);
    push_str(&mut out, "-");
    let hex = to_hex(head);
    push_str(&mut out, hex.as_str());
    proof {
        assert(digest@.subrange(0, 8) =~= digest@.take(8));
    }
    out
}

/// The identity of an archive found at a path, from its bytes: the path,
/// the fingerprint of the bytes, and the archive id of both.
pub fn archive_entry(archive_path: &str, bytes: &[u8]) -> (e: ArchiveEntry)
    ensures
        e.archive_path@ == archive_path@,
        e.archive_fingerprint@ == fingerprint(bytes@),
        e.archive_id@ == spec_archive_id(archive_path@, fingerprint(bytes@)),
{
    let fp = fingerprint_hex(bytes);
    let id = archive_id(archive_path, fp.as_str());
    ArchiveEntry { archive_path: String::from_str(archive_path), archive_fingerprint: fp, archive_id: id }
}

/// The bytes open with the BLK3 magic.
pub open spec fn starts_with_blk3(b: Seq<u8>) -> bool {
    b.len() >= 4 && b[0] == 0x42u8 && b[1] == 0x4Cu8 && b[2] == 0x4Bu8 && b[3] == 0x33u8
}

/// The archive footer's index location, as plain values.
#[derive(Clone, Copy, Debug, PartialEq, Eq, Structural)]
pub struct IndexLocation {
    pub index_offset: u64,
    pub index_len: u64,
}

/// Whether bytes look like an archive: they open with a block, or the
/// footer (`footer`, as the footer reader gave it) locates an index of at
/// least four bytes before the footer that starts with `IDX3`.
pub open spec fn spec_is_archive(b: Seq<u8>, footer: Option<IndexLocation>, footer_len: int) -> bool {
    if starts_with_blk3(b) {
        true
    } else if b.len() < footer_len {
        false
    } else {
        match footer {
            None => false,
            Some(f) => {
                let io = f.index_offset as int;
                let il = f.index_len as int;
                &&& io <= usize::MAX
                &&& il <= usize::MAX
                &&& il >= 4
                &&& io + il <= usize::MAX
                &&& io + il <= b.len() - footer_len
                &&& b[io] == 0x49u8 && b[io + 1] == 0x44u8 && b[io + 2] == 0x58u8 && b[io + 3] == 0x33u8
            },
        }
    }
}

/// Decides whether bytes look like an archive.
pub fn is_archive_bytes(bytes: &[u8], footer: Option<IndexLocation>, footer_len: usize) -> (r: bool)
    ensures
        r == spec_is_archive(bytes@, footer, footer_len as int),
{
    if bytes.len() >= 4 && bytes[0] == 0x42u8 && bytes[1] == 0x4Cu8 && bytes[2] == 0x4Bu8 && bytes[3] == 0x33u8 {
        return true;
    }
    if bytes.len() < footer_len {
        return false;
    }
    let f = match footer {
        Some(f) => f,
        None => return false,
    };
    if f.index_offset > usize::MAX as u64 || f.index_len > usize::MAX as u64 {
        return false;
    }
    let io = f.index_offset as usize;
    let il = f.index_len as usize;
    if il < 4 {
        return false;
    }
    let end = match io.checked_add(il) {
        Some(e) => e,
        None => return false,
    };
    if end > bytes.len() - footer_len {
        return false;
    }
    bytes[io] == 0x49u8 && bytes[io + 1] == 0x44u8 && bytes[io + 2] == 0x58u8 && bytes[io + 3] == 0x33u8
}

/// The length of the array under `key` of `v`, or zero.
pub open spec fn array_len_or_zero(v: JsonValue, key: Seq<char>) -> int {
    match get_array(v, key) {
        Some(a) => a.len() as int,
        None => 0,
    }
}

/// The numbers of exported block, fragment and complete-file artifacts a
/// plan lists (zero for each list that is missing).
pub open spec fn spec_artifact_counts(plan: JsonValue) -> (int, int, int) {
    match json_get(plan, "exported_artifacts"@) {
        None => (0, 0, 0),
        Some(e) => (
            array_len_or_zero(e, "exported_block_artifacts"@),
            array_len_or_zero(e, "exported_fragment_artifacts"@),
            array_len_or_zero(e, "exported_complete_file_artifacts"@),
        ),
    }
}

fn array_len(v: &JsonValue, key: &str) -> (r: usize)
    ensures
        r == array_len_or_zero(*v, key@),
{
    match v.get_array(key) {
        Some(a) => a.len(),
        None => 0,
    }
}

/// Counts the artifacts a salvage plan says it exported.
pub fn exported_artifact_counts(plan: &JsonValue) -> (r: (usize, usize, usize))
    ensures
        (r.0 as int, r.1 as int, r.2 as int) == spec_artifact_counts(*plan),
{
    match plan.get("exported_artifacts") {
        None => (0, 0, 0),
        Some(e) => (
            array_len(e, "exported_block_artifacts"),
            array_len(e, "exported_fragment_artifacts"),
            array_len(e, "exported_complete_file_artifacts"),
        ),
    }
}

/// The file counts of a plan's summary.
#[derive(Clone, Copy, Debug, PartialEq, Eq, Structural)]
pub struct PlanSummary {
    pub salvageable_files: u64,
    pub unsalvageable_files: u64,
    pub unmappable_files: u64,
}

/// What one salvage run over one archive yielded.
pub struct RunMetadata {
    pub archive_id: String,
    pub archive_path: String,
    pub archive_fingerprint: String,
    pub salvage_plan_summary: PlanSummary,
    pub verified_block_count: u64,
    pub exported_artifact_count: usize,
    pub exported_block_artifact_count: usize,
    pub exported_extent_artifact_count: usize,
    pub exported_full_file_artifact_count: usize,
    pub salvageable_file_count: u64,
    pub unsalvageable_file_count: u64,
    pub unmappable_file_count: u64,
}

/// Why a run's plan could not be read.
#[derive(Clone, Copy, Debug, PartialEq, Eq, Structural)]
pub enum RunError {
    MissingSummary,
    MissingSalvageableFiles,
    MissingUnsalvageableFiles,
    MissingUnmappableFiles,
}

/// The summary counts a plan states, or the first that is missing.
pub open spec fn spec_plan_summary(plan: JsonValue) -> Result<PlanSummary, RunError> {
    match json_get(plan, "summary"@) {
        None => Err(RunError::MissingSummary),
        Some(s) => match get_u64(s, "salvageable_files"@) {
            None => Err(RunError::MissingSalvageableFiles),
            Some(a) => match get_u64(s, "unsalvageable_files"@) {
                None => Err(RunError::MissingUnsalvageableFiles),
                Some(b) => match get_u64(s, "unmappable_files"@) {
                    None => Err(RunError::MissingUnmappableFiles),
                    Some(c) => Ok(PlanSummary { salvageable_files: a, unsalvageable_files: b, unmappable_files: c }),
                },
            },
        },
    }
}

/// The run metadata of an archive from its salvage plan: the summary's
/// file counts, the content-verified block candidates and the exported
/// artifacts.
pub fn run_metadata_from_plan(
    archive_id: String,
    archive_path: String,
    archive_fingerprint: String,
    plan: &JsonValue,
) -> (r: Result<RunMetadata, RunError>)
    requires
        spec_artifact_counts(*plan).0 + spec_artifact_counts(*plan).1 + spec_artifact_counts(*plan).2 <= usize::MAX,
    ensures
        match r {
            Ok(m) => {
                &&& spec_plan_summary(*plan) == Ok::<PlanSummary, RunError>(m.salvage_plan_summary)
                &&& m.archive_id@ == archive_id@
                &&& m.archive_path@ == archive_path@
                &&& m.archive_fingerprint@ == archive_fingerprint@
                &&& m.salvageable_file_count == m.salvage_plan_summary.salvageable_files
                &&& m.unsalvageable_file_count == m.salvage_plan_summary.unsalvageable_files
                &&& m.unmappable_file_count == m.salvage_plan_summary.unmappable_files
                &&& m.verified_block_count == count_rows_with(*plan, "block_candidates"@, "content_verification_status"@, "content_verified"@)
                &&& (m.exported_block_artifact_count as int, m.exported_extent_artifact_count as int, m.exported_full_file_artifact_count as int)
                    == spec_artifact_counts(*plan)
                &&& m.exported_artifact_count == m.exported_block_artifact_count + m.exported_extent_artifact_count + m.exported_full_file_artifact_count
            },
            Err(e) => spec_plan_summary(*plan) == Err::<PlanSummary, RunError>(e),
        },
{
    let s = match plan.get("summary") {
        Some(s) => s,
        None => return Err(RunError::MissingSummary),
    };
    let salvageable = match s.get_u64("salvageable_files") {
        Some(n) => n,
        None => return Err(RunError::MissingSalvageableFiles),
    };
    let unsalvageable = match s.get_u64("unsalvageable_files") {
        Some(n) => n,
        None => return Err(RunError::MissingUnsalvageableFiles),
    };
    let unmappable = match s.get_u64("unmappable_files") {
        Some(n) => n,
        None => return Err(RunError::MissingUnmappableFiles),
    };
    let verified_block_count = count_plan_rows(plan, "block_candidates", "content_verification_status", "content_verified");
    let (b, e, f) = exported_artifact_counts(plan);
    Ok(RunMetadata {
        archive_id,
        archive_path,
        archive_fingerprint,
        salvage_plan_summary: PlanSummary {
            salvageable_files: salvageable,
            unsalvageable_files: unsalvageable,
            unmappable_files: unmappable,
        },
        verified_block_count,
        exported_artifact_count: b + e + f,
        exported_block_artifact_count: b,
        exported_extent_artifact_count: e,
        exported_full_file_artifact_count: f,
        salvageable_file_count: salvageable,
        unsalvageable_file_count: unsalvageable,
        unmappable_file_count: unmappable,
    })
}

/// The outcome label of a run: any exported complete file beats any
/// salvageable file, which beats any verified block.
pub open spec fn run_outcome(run: RunMetadata) -> Seq<char> {
    if run.exported_full_file_artifact_count > 0 {
        "FULL_FILE_SALVAGE_AVAILABLE"@
    } else if run.salvageable_file_count > 0 {
        "PARTIAL_FILE_SALVAGE"@
    } else if run.verified_block_count > 0 {
        "ORPHAN_EVIDENCE_ONLY"@
    } else {
        "NO_VERIFIED_EVIDENCE"@
    }
}

/// Classifies a run's outcome.
pub fn classify_outcome(run: &RunMetadata) -> (r: &'static str)
    ensures
        r@ == run_outcome(*run),
{
    if run.exported_full_file_artifact_count > 0 {
        "FULL_FILE_SALVAGE_AVAILABLE"
    } else if run.salvageable_file_count > 0 {
        "PARTIAL_FILE_SALVAGE"
    } else if run.verified_block_count > 0 {
        "ORPHAN_EVIDENCE_ONLY"
    } else {
        "NO_VERIFIED_EVIDENCE"
    }
}

/// A run as the evidence rankings list it.
pub struct RankingEntry {
    pub archive_id: String,
    pub archive_path: String,
    pub verified_block_count: u64,
    pub salvageable_file_count: u64,
    pub exported_full_file_artifact_count: usize,
    pub outcome: &'static str,
}

/// The ranking entry of a run.
pub fn to_ranking_entry(run: &RunMetadata) -> (e: RankingEntry)
    ensures
        e.archive_id@ == run.archive_id@,
        e.archive_path@ == run.archive_path@,
        e.verified_block_count == run.verified_block_count,
        e.salvageable_file_count == run.salvageable_file_count,
        e.exported_full_file_artifact_count == run.exported_full_file_artifact_count,
        e.outcome@ == run_outcome(*run),
{
    RankingEntry {
        archive_id: run.archive_id.clone(),
        archive_path: run.archive_path.clone(),
        verified_block_count: run.verified_block_count,
        salvageable_file_count: run.salvageable_file_count,
        exported_full_file_artifact_count: run.exported_full_file_artifact_count,
        outcome: classify_outcome(run),
    }
}


/// What a stored run metadata file states; the artifact counts may be
/// missing from files written before they were recorded.
pub struct RunMetadataInput {
    pub archive_path: String,
    pub archive_fingerprint: String,
    pub verified_block_count: u64,
    pub salvageable_file_count: u64,
    pub unsalvageable_file_count: u64,
    pub unmappable_file_count: u64,
    pub exported_block_artifact_count: Option<usize>,
    pub exported_extent_artifact_count: Option<usize>,
    pub exported_full_file_artifact_count: Option<usize>,
}

/// The stored count, or the one the plan gives when none is stored.
pub open spec fn stored_or(stored: Option<usize>, from_plan: usize) -> usize {
    match stored {
        Some(n) => n,
        None => from_plan,
    }
}

/// The plan's artifact counts are needed: some count is not stored.
pub fn needs_plan_counts(input: &RunMetadataInput) -> (r: bool)
    ensures
        r == (input.exported_block_artifact_count is None || input.exported_extent_artifact_count is None
            || input.exported_full_file_artifact_count is None),
{
    input.exported_block_artifact_count.is_none() || input.exported_extent_artifact_count.is_none()
        || input.exported_full_file_artifact_count.is_none()
}

/// The run metadata of a stored run: the stored counts, each artifact
/// count taken from the plan's counts (`plan_counts`, read only when some
/// count is not stored; zeros otherwise) where it is not stored.
pub fn run_metadata_from_input(archive_id: String, input: RunMetadataInput, plan_counts: (usize, usize, usize)) -> (m: RunMetadata)
    requires
        stored_or(input.exported_block_artifact_count, plan_counts.0) + stored_or(input.exported_extent_artifact_count, plan_counts.1)
            + stored_or(input.exported_full_file_artifact_count, plan_counts.2) <= usize::MAX,
    ensures
        m.archive_id@ == archive_id@,
        m.archive_path@ == input.archive_path@,
        m.archive_fingerprint@ == input.archive_fingerprint@,
        m.salvage_plan_summary == (PlanSummary {
            salvageable_files: input.salvageable_file_count,
            unsalvageable_files: input.unsalvageable_file_count,
            unmappable_files: input.unmappable_file_count,
        }),
        m.verified_block_count == input.verified_block_count,
        m.salvageable_file_count == input.salvageable_file_count,
        m.unsalvageable_file_count == input.unsalvageable_file_count,
        m.unmappable_file_count == input.unmappable_file_count,
        m.exported_block_artifact_count == stored_or(input.exported_block_artifact_count, plan_counts.0),
        m.exported_extent_artifact_count == stored_or(input.exported_extent_artifact_count, plan_counts.1),
        m.exported_full_file_artifact_count == stored_or(input.exported_full_file_artifact_count, plan_counts.2),
        m.exported_artifact_count == m.exported_block_artifact_count + m.exported_extent_artifact_count + m.exported_full_file_artifact_count,
{
    let b = match input.exported_block_artifact_count {
        Some(n) => n,
        None => plan_counts.0,
    };
    let e = match input.exported_extent_artifact_count {
        Some(n) => n,
        None => plan_counts.1,
    };
    let f = match input.exported_full_file_artifact_count {
        Some(n) => n,
        None => plan_counts.2,
    };
    RunMetadata {
        archive_id,
        archive_path: input.archive_path,
        archive_fingerprint: input.archive_fingerprint,
        salvage_plan_summary: PlanSummary {
            salvageable_files: input.salvageable_file_count,
            unsalvageable_files: input.unsalvageable_file_count,
            unmappable_files: input.unmappable_file_count,
        },
        verified_block_count: input.verified_block_count,
        exported_artifact_count: b + e + f,
        exported_block_artifact_count: b,
        exported_extent_artifact_count: e,
        exported_full_file_artifact_count: f,
        salvageable_file_count: input.salvageable_file_count,
        unsalvageable_file_count: input.unsalvageable_file_count,
        unmappable_file_count: input.unmappable_file_count,
    }
}

/// An archive found for an experiment run.
pub struct ArchiveEntry {
    pub archive_path: String,
    pub archive_fingerprint: String,
    pub archive_id: String,
}


/// `x` placed after the last entry whose path is at most its path.
pub open spec fn insert_entry(s: Seq<ArchiveEntry>, x: ArchiveEntry) -> Seq<ArchiveEntry>
    decreases s.len(),
{
    if s.len() == 0 {
        seq![x]
    } else if chars_le(s.last().archive_path@, x.archive_path@) {
        s.push(x)
    } else {
        insert_entry(s.drop_last(), x).push(s.last())
    }
}

/// The entries stably sorted by archive path.
pub open spec fn sorted_entries(s: Seq<ArchiveEntry>) -> Seq<ArchiveEntry>
    decreases s.len(),
{
    if s.len() == 0 {
        seq![]
    } else {
        insert_entry(sorted_entries(s.drop_last()), s.last())
    }
}

proof fn lemma_insert_entry_at(s: Seq<ArchiveEntry>, x: ArchiveEntry, j: int)
    requires
        0 <= j <= s.len(),
        forall|k: int| j <= k < s.len() ==> chars_lt(x.archive_path@, (#[trigger] s[k]).archive_path@),
        j == 0 || chars_le(s[j - 1].archive_path@, x.archive_path@),
    ensures
        insert_entry(s, x) == s.insert(j, x),
    decreases s.len(),
{
    if j == s.len() {
        assert(s.push(x) =~= s.insert(j, x));
        if s.len() == 0 {
            assert(seq![x] =~= s.insert(j, x));
        }
    } else {
        let last = s[s.len() - 1];
        assert(chars_lt(x.archive_path@, last.archive_path@));
        lemma_chars_lt_asymmetric(x.archive_path@, last.archive_path@);
        lemma_chars_lt_irreflexive(x.archive_path@);
        lemma_insert_entry_at(s.drop_last(), x, j);
        assert(s.drop_last().insert(j, x).push(s.last()) =~= s.insert(j, x));
    }
}

/// The archives a run covers: the entries sorted by path (equal paths in
/// their order), the first `limit` of them when a limit is given.
pub open spec fn selected_archives(s: Seq<ArchiveEntry>, limit: Option<usize>) -> Seq<ArchiveEntry> {
    let sorted = sorted_entries(s);
    match limit {
        Some(n) => if n < sorted.len() { sorted.take(n as int) } else { sorted },
        None => sorted,
    }
}

/// Orders the archives found by path and keeps the first `limit`.
pub fn select_archives(entries: Vec<ArchiveEntry>, limit: Option<usize>) -> (out: Vec<ArchiveEntry>)
    ensures
        out@ == selected_archives(entries@, limit),
{
    let ghost all = entries@;
    let mut rest = entries;
    let mut out: Vec<ArchiveEntry> = Vec::new();
    let ghost mut i: int = 0;
    while rest.len() > 0
        invariant
            0 <= i <= all.len(),
            rest@ == all.subrange(i, all.len() as int),
            out@ == sorted_entries(all.take(i)),
        decreases rest.len(),
    {
        let x = rest.remove(0);
        proof {
            assert(x == all[i]);
        }
        let mut j = out.len();
        while j > 0 && str_lt(x.archive_path.as_str(), out[j - 1].archive_path.as_str())
            invariant
                j <= out@.len(),
                forall|k: int| j <= k < out@.len() ==> chars_lt(x.archive_path@, (#[trigger] out@[k]).archive_path@),
            decreases j,
        {
            j = j - 1;
        }
        proof {
            if j > 0 {
                lemma_chars_lt_total(out@[j - 1].archive_path@, x.archive_path@);
            }
            lemma_insert_entry_at(out@, x, j as int);
            assert(all.take(i + 1).drop_last() =~= all.take(i));
            assert(all.take(i + 1).last() == x);
        }
        out.insert(j, x);
        proof {
            i = i + 1;
            assert(rest@ =~= all.subrange(i, all.len() as int));
        }
    }
    proof {
        assert(all.take(i) =~= all);
    }
    match limit {
        Some(n) => {
            if n < out.len() {
                out.truncate(n);
            }
        },
        None => {},
    }
    out
}

} // verus!
