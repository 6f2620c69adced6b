//! File manifests held against planned files, and plans built from the
//! manifests when no other metadata source mapped any file.
use vstd::prelude::*;
use vstd::string::*;
use std::collections::BTreeMap;
use crate::json::{JsonValue, get_str, get_u64};
use crate::text::{str_equals, parse_u32_range, parse_u32_spec};
use super::types::{BlockVerification, Extent, FilePlan, FilePlanView, MappingProvenance, PlanReason, PlanStatus, ReasonCode, RecoveryClassification};
use super::records::{FileManifestRecord, FileManifestView, manifest_views, get_nested_str, nested_str, PayloadBlockIdentityRecord, PayloadIdentityView, payload_identity_views, payload_identity_record, parse_payload_block_identity_records, parse_payload_block_path_checkpoints, string_map_matches};
use super::identity::{is_anonymous_path, is_anonymous, resolved_path, resolve_path, payload_path_map};
use super::discovery::{classify_file, spec_classify_file};
use super::metadata::{block_ids, plan_views, extent_block_ids};

verus! {

/// A manifest counts only with a non-zero block count, a non-zero extent
/// count and a non-empty digest.
pub open spec fn manifest_usable(m: FileManifestView) -> bool {
    m.expected_block_count != 0 && m.extent_count != 0 && m.file_digest.len() > 0
}

/// The last usable manifest of a file id (a later manifest of the same id
/// replaces an earlier one).
pub open spec fn last_usable_with_id(ms: Seq<FileManifestView>, id: u32) -> Option<FileManifestView>
    decreases ms.len(),
{
    if ms.len() == 0 {
        None
    } else if manifest_usable(ms.last()) && ms.last().file_id == id {
        Some(ms.last())
    } else {
        last_usable_with_id(ms.drop_last(), id)
    }
}

/// The file id of the last usable manifest that names path `p`.
pub open spec fn last_usable_id_with_path(ms: Seq<FileManifestView>, p: Seq<char>) -> Option<u32>
    decreases ms.len(),
{
    if ms.len() == 0 {
        None
    } else if manifest_usable(ms.last()) && ms.last().path == Some(p) {
        Some(ms.last().file_id)
    } else {
        last_usable_id_with_path(ms.drop_last(), p)
    }
}

/// The file id named by an anonymous recovery path
/// `anonymous_verified/file_<id>.bin`, the id read as `str::parse::<u32>` reads it.
pub open spec fn anonymous_file_id(p: Seq<char>) -> Option<u32> {
    let pre = "anonymous_verified/file_"@;
    if pre.len() + 4 <= p.len() && p.subrange(0, pre.len() as int) == pre
        && p.subrange(p.len() - 4, p.len() as int) == ".bin"@ {
        parse_u32_spec(p.subrange(pre.len() as int, p.len() - 4))
    } else {
        None
    }
}

/// The manifest a planned path is held to: the one of the id that the last
/// usable manifest naming the path has, else the one of the id that an
/// anonymous path names.
pub open spec fn manifest_for_path(ms: Seq<FileManifestView>, p: Seq<char>) -> Option<FileManifestView> {
    match last_usable_id_with_path(ms, p) {
        Some(id) => last_usable_with_id(ms, id),
        None => match anonymous_file_id(p) {
            Some(id) => last_usable_with_id(ms, id),
            None => None,
        },
    }
}

/// A metadata value states the raw content hash of block `block_id`.
pub open spec fn states_raw_hash(v: JsonValue, block_id: u32) -> bool {
    get_str(v, "schema"@) == Some("crushr-payload-block-identity.v1"@)
        && get_u64(v, "block_id"@) == Some(block_id as u64)
        && get_nested_str(v, "content_identity"@, "raw_hash_blake3"@) is Some
}

/// The raw content hash of a block as the last payload identity value that
/// states one gives it.
pub open spec fn last_block_raw_hash(values: Seq<JsonValue>, block_id: u32) -> Option<Seq<char>>
    decreases values.len(),
{
    if values.len() == 0 {
        None
    } else if states_raw_hash(values.last(), block_id) {
        get_nested_str(values.last(), "content_identity"@, "raw_hash_blake3"@)
    } else {
        last_block_raw_hash(values.drop_last(), block_id)
    }
}

/// Extent offsets never decrease along the file.
pub open spec fn offsets_nondecreasing(es: Seq<Extent>) -> bool {
    forall|i: int, j: int| 0 <= i < j < es.len() ==> (#[trigger] es[i]).offset <= (#[trigger] es[j]).offset
}

/// The plan has exactly one block, and its raw hash is the manifest digest.
pub open spec fn manifest_digest_matches(p: FilePlanView, m: FileManifestView, values: Seq<JsonValue>) -> bool {
    p.required_block_ids.len() == 1 && last_block_raw_hash(values, p.required_block_ids[0]) == Some(m.file_digest)
}

/// A plan after its manifest, if any, has been held to it: size, block
/// count and digest all matching make it fully recovered; otherwise it is
/// partial, ordered or not by its extent offsets. A plan without manifest
/// keeps its classification unless it is unmappable or unsalvageable.
pub open spec fn apply_manifest(
    p: FilePlanView,
    ms: Seq<FileManifestView>,
    values: Seq<JsonValue>,
    prov: MappingProvenance,
) -> FilePlanView {
    match manifest_for_path(ms, p.file_path) {
        Some(m) => {
            let dm = manifest_digest_matches(p, m, values);
            if p.file_size == m.file_size && p.required_block_ids.len() == m.expected_block_count && dm {
                FilePlanView {
                    mapping_provenance: prov,
                    recovery_classification: if is_anonymous_path(p.file_path) {
                        RecoveryClassification::FullAnonymous
                    } else {
                        RecoveryClassification::FullVerified
                    },
                    ..p
                }
            } else if offsets_nondecreasing(p.extents) {
                FilePlanView {
                    mapping_provenance: prov,
                    recovery_classification: RecoveryClassification::PartialOrdered,
                    failure_reasons: if dm {
                        p.failure_reasons
                    } else {
                        p.failure_reasons.push(ReasonCode::ManifestDigestNotVerified)
                    },
                    ..p
                }
            } else {
                FilePlanView {
                    mapping_provenance: prov,
                    recovery_classification: RecoveryClassification::PartialUnordered,
                    ..p
                }
            }
        },
        None => if p.status == PlanStatus::Unmappable {
            FilePlanView { recovery_classification: RecoveryClassification::OrphanBlocks, ..p }
        } else if p.status == PlanStatus::Unsalvageable {
            FilePlanView { recovery_classification: RecoveryClassification::PartialOrdered, ..p }
        } else {
            p
        },
    }
}

fn manifest_is_usable(m: &FileManifestRecord) -> (r: bool)
    ensures
        r == manifest_usable(m@),
{
    m.expected_block_count != 0 && m.extent_count != 0 && m.file_digest.as_str().unicode_len() > 0
}

fn find_usable_with_id(ms: &Vec<FileManifestRecord>, id: u32) -> (r: Option<usize>)
    ensures
        match r {
            Some(k) => k < ms@.len() && last_usable_with_id(manifest_views(ms@), id) == Some(ms@[k as int]@),
            None => last_usable_with_id(manifest_views(ms@), id) is None,
        },
{
    let ghost mv = manifest_views(ms@);
    let mut i = ms.len();
    proof {
        assert(mv.take(i as int) =~= mv);
    }
    while i > 0
        invariant
            i <= ms@.len(),
            mv == manifest_views(ms@),
            last_usable_with_id(mv, id) == last_usable_with_id(mv.take(i as int), id),
        decreases i,
    {
        proof {
            assert(mv.take(i as int).drop_last() =~= mv.take(i - 1));
            assert(mv.take(i as int).last() == ms@[i - 1]@);
        }
        if ms[i - 1].file_id == id && manifest_is_usable(&ms[i - 1]) {
            return Some(i - 1);
        }
        i = i - 1;
    }
    None
}

fn find_usable_id_with_path(ms: &Vec<FileManifestRecord>, p: &str) -> (r: Option<u32>)
    ensures
        r == last_usable_id_with_path(manifest_views(ms@), p@),
{
    let ghost mv = manifest_views(ms@);
    let mut i = ms.len();
    proof {
        assert(mv.take(i as int) =~= mv);
    }
    while i > 0
        invariant
            i <= ms@.len(),
            mv == manifest_views(ms@),
            last_usable_id_with_path(mv, p@) == last_usable_id_with_path(mv.take(i as int), p@),
        decreases i,
    {
        proof {
            assert(mv.take(i as int).drop_last() =~= mv.take(i - 1));
            assert(mv.take(i as int).last() == ms@[i - 1]@);
        }
        let named = match &ms[i - 1].path {
            Some(q) => str_equals(q.as_str(), p),
            None => false,
        };
        if named && manifest_is_usable(&ms[i - 1]) {
            return Some(ms[i - 1].file_id);
        }
        i = i - 1;
    }
    None
}

fn anonymous_id_of(p: &str) -> (r: Option<u32>)
    ensures
        r == anonymous_file_id(p@),
{
    proof {
        reveal_strlit("anonymous_verified/file_");
        reveal_strlit(".bin");
    }
    let n = p.unicode_len();
    if n < 28 {
        return None;
    }
    if !crate::text::str_starts_with(p, "anonymous_verified/file_") {
        return None;
    }
    let ghost tail = p@.subrange(n - 4, n as int);
    if !(p.get_char(n - 4) == '.' && p.get_char(n - 3) == 'b' && p.get_char(n - 2) == 'i' && p.get_char(n - 1) == 'n') {
        proof {
            if tail == ".bin"@ {
                assert(tail[0] == '.' && tail[1] == 'b' && tail[2] == 'i' && tail[3] == 'n');
            }
        }
        return None;
    }
    proof {
        assert(tail =~= ".bin"@);
    }
    parse_u32_range(p, 24, n - 4)
}

fn block_raw_hash(values: &[JsonValue], block_id: u32) -> (r: Option<String>)
    ensures
        match r {
            Some(h) => last_block_raw_hash(values@, block_id) == Some(h@),
            None => last_block_raw_hash(values@, block_id) is None,
        },
{
    let mut i = values.len();
    proof {
        assert(values@.take(i as int) =~= values@);
    }
    while i > 0
        invariant
            i <= values@.len(),
            last_block_raw_hash(values@, block_id) == last_block_raw_hash(values@.take(i as int), block_id),
        decreases i,
    {
        proof {
            assert(values@.take(i as int).drop_last() =~= values@.take(i - 1));
            assert(values@.take(i as int).last() == values@[i - 1]);
        }
        let v = &values[i - 1];
        let schema_ok = match v.get_str("schema") {
            Some(s) => str_equals(s, "crushr-payload-block-identity.v1"),
            None => false,
        };
        let id_ok = match v.get_u64("block_id") {
            Some(b) => b == block_id as u64,
            None => false,
        };
        if schema_ok && id_ok {
            match nested_str(v, "content_identity", "raw_hash_blake3") {
                Some(h) => return Some(String::from_str(h)),
                None => {},
            }
        }
        i = i - 1;
    }
    None
}

fn offsets_in_order(es: &Vec<Extent>) -> (r: bool)
    ensures
        r == offsets_nondecreasing(es@),
{
    let mut i: usize = 1;
    while i < es.len()
        invariant
            1 <= i,
            forall|a: int, b: int| 0 <= a < b < i && b < es@.len() ==> (#[trigger] es@[a]).offset <= (#[trigger] es@[b]).offset,
        decreases es.len() - i,
    {
        if es[i - 1].offset > es[i].offset {
            proof {
                assert(es@[i - 1].offset > es@[i as int].offset);
            }
            return false;
        }
        i = i + 1;
    }
    true
}

/// Holds one plan to its manifest, as `apply_manifest` states.
fn apply_manifest_to_plan(
    plan: FilePlan,
    manifests: &Vec<FileManifestRecord>,
    values: &[JsonValue],
    mapping_provenance: MappingProvenance,
) -> (out: FilePlan)
    ensures
        out@ == apply_manifest(plan@, manifest_views(manifests@), values@, mapping_provenance),
{
    let ghost mv = manifest_views(manifests@);
    let mut plan = plan;
    let found = match find_usable_id_with_path(manifests, plan.file_path.as_str()) {
        Some(id) => find_usable_with_id(manifests, id),
        None => match anonymous_id_of(plan.file_path.as_str()) {
            Some(id) => find_usable_with_id(manifests, id),
            None => None,
        },
    };
    match found {
        Some(k) => {
            let ghost p0 = plan@;
            let m = &manifests[k];
            plan.mapping_provenance = mapping_provenance;
            let digest_match = if plan.required_block_ids.len() == 1 {
                match block_raw_hash(values, plan.required_block_ids[0]) {
                    Some(h) => str_equals(h.as_str(), m.file_digest.as_str()),
                    None => false,
                }
            } else {
                false
            };
            assert(digest_match == manifest_digest_matches(p0, m@, values@));
            if plan.file_size == m.file_size && plan.required_block_ids.len() as u64 == m.expected_block_count
                && digest_match {
                plan.recovery_classification = if is_anonymous(plan.file_path.as_str()) {
                    RecoveryClassification::FullAnonymous
                } else {
                    RecoveryClassification::FullVerified
                };
            } else if offsets_in_order(&plan.extents) {
                if !digest_match {
                    plan.failure_reasons.push(ReasonCode::ManifestDigestNotVerified);
                }
                plan.recovery_classification = RecoveryClassification::PartialOrdered;
            } else {
                plan.recovery_classification = RecoveryClassification::PartialUnordered;
            }
        },
        None => {
            if plan.status == PlanStatus::Unmappable {
                plan.recovery_classification = RecoveryClassification::OrphanBlocks;
            } else if plan.status == PlanStatus::Unsalvageable {
                plan.recovery_classification = RecoveryClassification::PartialOrdered;
            }
        },
    }
    plan
}


/// `x` placed after the last item of `s` whose key is at most its key.
pub open spec fn insert_by_key<T>(s: Seq<(u64, T)>, x: (u64, T)) -> Seq<(u64, T)>
    decreases s.len(),
{
    if s.len() == 0 {
        seq![x]
    } else if s.last().0 <= x.0 {
        s.push(x)
    } else {
        insert_by_key(s.drop_last(), x).push(s.last())
    }
}

/// The stable sort of `s` by key, by insertion (what `sort_by_key` yields).
pub open spec fn insertion_sort_by_key<T>(s: Seq<(u64, T)>) -> Seq<(u64, T)>
    decreases s.len(),
{
    if s.len() == 0 {
        seq![]
    } else {
        insert_by_key(insertion_sort_by_key(s.drop_last()), s.last())
    }
}

proof fn lemma_insert_by_key_at<T>(s: Seq<(u64, T)>, x: (u64, T), j: int)
    requires
        0 <= j <= s.len(),
        forall|k: int| j <= k < s.len() ==> (#[trigger] s[k]).0 > x.0,
        j == 0 || s[j - 1].0 <= x.0,
    ensures
        insert_by_key(s, x) == s.insert(j, x),
    decreases s.len(),
{
    if j == s.len() {
        assert(s.push(x) =~= s.insert(j, x));
        if s.len() == 0 {
            assert(seq![x] =~= s.insert(j, x));
        }
    } else {
        assert(s[s.len() - 1].0 > x.0);
        lemma_insert_by_key_at(s.drop_last(), x, j);
        assert(s.drop_last().insert(j, x).push(s.last()) =~= s.insert(j, x));
    }
}

/// Sorts items by their key, keeping the order of items with equal keys
/// (what a stable `sort_by_key` yields).
pub fn sort_by_u64_key<T>(items: Vec<(u64, T)>) -> (out: Vec<(u64, T)>)
    ensures
        out@ == insertion_sort_by_key(items@),
{
    let ghost all = items@;
    let mut rest = items;
    let mut out: Vec<(u64, T)> = Vec::new();
    let ghost mut i: int = 0;
    while rest.len() > 0
        invariant
            0 <= i <= all.len(),
            rest@ == all.subrange(i, all.len() as int),
            out@ == insertion_sort_by_key(all.take(i)),
        decreases rest.len(),
    {
        let x = rest.remove(0);
        let mut j = out.len();
        while j > 0 && out[j - 1].0 > x.0
            invariant
                j <= out@.len(),
                forall|k: int| j <= k < out@.len() ==> (#[trigger] out@[k]).0 > x.0,
            decreases j,
        {
            j = j - 1;
        }
        proof {
            lemma_insert_by_key_at(out@, x, j as int);
            assert(all.take(i + 1).drop_last() =~= all.take(i));
            assert(all.take(i + 1).last() == x);
        }
        out.insert(j, x);
        proof {
            i = i + 1;
            assert(rest@ =~= all.subrange(i, all.len() as int));
        }
    }
    proof {
        assert(all.take(i) =~= all);
    }
    out
}

/// `x` placed into the ascending list `s`, unless it is there already.
pub open spec fn insert_id_sorted(s: Seq<u32>, x: u32) -> Seq<u32>
    decreases s.len(),
{
    if s.len() == 0 {
        seq![x]
    } else if s.last() == x {
        s
    } else if s.last() < x {
        s.push(x)
    } else {
        insert_id_sorted(s.drop_last(), x).push(s.last())
    }
}

proof fn lemma_insert_id_at(s: Seq<u32>, x: u32, j: int)
    requires
        0 <= j <= s.len(),
        forall|k: int| j <= k < s.len() ==> #[trigger] s[k] > x,
        j == 0 || s[j - 1] <= x,
    ensures
        insert_id_sorted(s, x) == if j > 0 && s[j - 1] == x { s } else { s.insert(j, x) },
    decreases s.len(),
{
    if j == s.len() {
        assert(s.push(x) =~= s.insert(j, x));
        if s.len() == 0 {
            assert(seq![x] =~= s.insert(j, x));
        }
    } else {
        assert(s[s.len() - 1] > x);
        lemma_insert_id_at(s.drop_last(), x, j);
        assert(s.drop_last().insert(j, x).push(s.last()) =~= s.insert(j, x));
        assert(s.drop_last().push(s.last()) =~= s);
    }
}

/// The distinct file ids of the usable manifests, in ascending order.
pub open spec fn usable_id_order(ms: Seq<FileManifestView>) -> Seq<u32>
    decreases ms.len(),
{
    if ms.len() == 0 {
        seq![]
    } else if manifest_usable(ms.last()) {
        insert_id_sorted(usable_id_order(ms.drop_last()), ms.last().file_id)
    } else {
        usable_id_order(ms.drop_last())
    }
}

/// The extent a payload identity record states.
pub open spec fn record_extent(r: PayloadIdentityView) -> Extent {
    Extent { block_id: r.block_id, offset: r.logical_offset, len: r.logical_length }
}

/// A record of file `fid`, keyed by its block index.
pub open spec fn keyed_record_extent(fid: u32, r: PayloadIdentityView) -> Option<(u64, Extent)> {
    if r.file_id == fid { Some((r.block_index, record_extent(r))) } else { None }
}

/// The extents of file `fid` from its payload identity records, in block
/// index order (records of one index keep their order).
pub open spec fn file_extents(rs: Seq<PayloadIdentityView>, fid: u32) -> Seq<Extent> {
    insertion_sort_by_key(rs.filter_map(|r: PayloadIdentityView| keyed_record_extent(fid, r))).map_values(
        |p: (u64, Extent)| p.1,
    )
}

/// The plan built from manifest `m` and the extents its payload identity
/// records give: no extents make it unmappable; otherwise it is classified
/// against the verified blocks, and fewer blocks than the manifest expects
/// make it unsalvageable.
pub open spec fn manifest_built_plan(
    m: FileManifestView,
    extents: Seq<Extent>,
    pm: Map<u32, Seq<char>>,
    bv: Map<u32, BlockVerification>,
    prov: MappingProvenance,
) -> FilePlanView {
    let required = block_ids(extents);
    let c = if extents.len() == 0 {
        (PlanStatus::Unmappable, PlanReason::ManifestHasNoRecoverableExtents, seq![ReasonCode::ManifestWithoutRecoverableExtents])
    } else {
        spec_classify_file(extents, required, bv)
    };
    let missing = m.expected_block_count > required.len();
    FilePlanView {
        mapping_provenance: prov,
        recovery_classification: if extents.len() == 0 {
            RecoveryClassification::OrphanBlocks
        } else if offsets_nondecreasing(extents) {
            RecoveryClassification::PartialOrdered
        } else {
            RecoveryClassification::PartialUnordered
        },
        file_path: match m.path {
            Some(p) => p,
            None => resolved_path(pm, m.file_id),
        },
        status: if missing { PlanStatus::Unsalvageable } else { c.0 },
        reason: if missing { PlanReason::ManifestExpectedBlocksMissing } else { c.1 },
        failure_reasons: if missing { c.2.push(ReasonCode::ManifestExpectedBlocksMissing) } else { c.2 },
        required_block_ids: required,
        extents,
        file_size: m.file_size,
    }
}

/// The plans built from the manifests, one per usable file id in ascending
/// id order, each from the last usable manifest of its id.
pub open spec fn manifest_built_plans(
    ms: Seq<FileManifestView>,
    values: Seq<JsonValue>,
    bv: Map<u32, BlockVerification>,
    prov: MappingProvenance,
) -> Seq<FilePlanView> {
    let rs = values.filter_map(|v: JsonValue| payload_identity_record(v));
    usable_id_order(ms).map_values(
        |id: u32| manifest_built_plan(last_usable_with_id(ms, id).unwrap(), file_extents(rs, id), payload_path_map(values), bv, prov),
    )
}

/// What `verify_and_apply_manifest_expectations` returns: the given plans,
/// or the plans built from the manifests when none were given, each held to
/// its manifest.
pub open spec fn manifest_applied_plans(
    ps: Seq<FilePlanView>,
    ms: Seq<FileManifestView>,
    values: Seq<JsonValue>,
    bv: Map<u32, BlockVerification>,
    prov: MappingProvenance,
) -> Seq<FilePlanView> {
    let base = if ps.len() == 0 { manifest_built_plans(ms, values, bv, prov) } else { ps };
    base.map_values(|p: FilePlanView| apply_manifest(p, ms, values, prov))
}

/// A plan that fully matches its manifest (size, block count and digest)
/// is fully recovered: anonymous exactly when its path lies under
/// `anonymous_verified/`, verified (named) exactly when it does not.
pub proof fn law_full_match_classified_by_path(
    p: FilePlanView,
    ms: Seq<FileManifestView>,
    values: Seq<JsonValue>,
    prov: MappingProvenance,
    m: FileManifestView,
)
    requires
        manifest_for_path(ms, p.file_path) == Some(m),
        p.file_size == m.file_size,
        p.required_block_ids.len() == m.expected_block_count,
        p.required_block_ids.len() == 1,
        last_block_raw_hash(values, p.required_block_ids[0]) == Some(m.file_digest),
    ensures
        ({
            let q = apply_manifest(p, ms, values, prov);
            let anonymous = 19 <= p.file_path.len() && p.file_path.subrange(0, 19) == "anonymous_verified/"@;
            &&& q.recovery_classification == RecoveryClassification::FullAnonymous <==> anonymous
            &&& q.recovery_classification == RecoveryClassification::FullVerified <==> !anonymous
            &&& q.mapping_provenance == prov
        }),
{
    reveal_strlit("anonymous_verified/");
    assert("anonymous_verified/"@.len() == 19);
}

/// Holding plans to their manifests never changes what is recovered: each
/// given plan keeps its path, status, reason, required blocks, extents and
/// size; only its provenance, classification and failure reasons may change,
/// and a reason is only ever added.
pub proof fn law_manifests_keep_recovery(
    ps: Seq<FilePlanView>,
    ms: Seq<FileManifestView>,
    values: Seq<JsonValue>,
    bv: Map<u32, BlockVerification>,
    prov: MappingProvenance,
)
    requires
        ps.len() > 0,
    ensures
        manifest_applied_plans(ps, ms, values, bv, prov).len() == ps.len(),
        forall|i: int| 0 <= i < ps.len() ==> {
            let q = #[trigger] manifest_applied_plans(ps, ms, values, bv, prov)[i];
            &&& q.file_path == ps[i].file_path
            &&& q.status == ps[i].status
            &&& q.reason == ps[i].reason
            &&& q.required_block_ids == ps[i].required_block_ids
            &&& q.extents == ps[i].extents
            &&& q.file_size == ps[i].file_size
            &&& (q.failure_reasons == ps[i].failure_reasons
                || q.failure_reasons == ps[i].failure_reasons.push(ReasonCode::ManifestDigestNotVerified))
        },
{
}

proof fn lemma_insert_id_sorted_contains(s: Seq<u32>, x: u32, y: u32)
    requires
        insert_id_sorted(s, x).contains(y),
    ensures
        s.contains(y) || y == x,
    decreases s.len(),
{
    let t = insert_id_sorted(s, x);
    let k = choose|k: int| 0 <= k < t.len() && t[k] == y;
    if s.len() == 0 {
    } else if s.last() == x {
    } else if s.last() < x {
        if k < s.len() {
            assert(s[k] == y);
        }
    } else {
        let r = insert_id_sorted(s.drop_last(), x);
        if k < r.len() {
            assert(r[k] == y);
            lemma_insert_id_sorted_contains(s.drop_last(), x, y);
            if s.drop_last().contains(y) {
                let m = choose|m: int| 0 <= m < s.drop_last().len() && s.drop_last()[m] == y;
                assert(s[m] == y);
            }
        } else {
            assert(s[s.len() - 1] == y);
        }
    }
}

/// Every id of `usable_id_order` has a usable manifest.
proof fn lemma_usable_ids_have_manifest(ms: Seq<FileManifestView>, y: u32)
    requires
        usable_id_order(ms).contains(y),
    ensures
        last_usable_with_id(ms, y) is Some,
    decreases ms.len(),
{
    if ms.len() > 0 {
        let r = usable_id_order(ms.drop_last());
        if manifest_usable(ms.last()) {
            if ms.last().file_id != y {
                lemma_insert_id_sorted_contains(r, ms.last().file_id, y);
                lemma_usable_ids_have_manifest(ms.drop_last(), y);
            }
        } else {
            lemma_usable_ids_have_manifest(ms.drop_last(), y);
        }
    }
}

fn usable_ids_in_order(ms: &Vec<FileManifestRecord>) -> (ids: Vec<u32>)
    ensures
        ids@ == usable_id_order(manifest_views(ms@)),
{
    let ghost mv = manifest_views(ms@);
    let mut ids: Vec<u32> = Vec::new();
    let mut i: usize = 0;
    while i < ms.len()
        invariant
            i <= ms@.len(),
            mv == manifest_views(ms@),
            ids@ == usable_id_order(mv.take(i as int)),
        decreases ms.len() - i,
    {
        proof {
            assert(mv.take(i + 1).drop_last() =~= mv.take(i as int));
            assert(mv.take(i + 1).last() == ms@[i as int]@);
        }
        if manifest_is_usable(&ms[i]) {
            let x = ms[i].file_id;
            let mut j = ids.len();
            while j > 0 && ids[j - 1] > x
                invariant
                    j <= ids@.len(),
                    forall|k: int| j <= k < ids@.len() ==> #[trigger] ids@[k] > x,
                decreases j,
            {
                j = j - 1;
            }
            proof {
                lemma_insert_id_at(ids@, x, j as int);
            }
            if !(j > 0 && ids[j - 1] == x) {
                ids.insert(j, x);
            }
        }
        i = i + 1;
    }
    proof {
        assert(mv.take(ms@.len() as int) =~= mv);
    }
    ids
}

fn manifest_file_extents(records: &Vec<PayloadBlockIdentityRecord>, fid: u32) -> (es: Vec<Extent>)
    ensures
        es@ == file_extents(payload_identity_views(records@), fid),
{
    let ghost rv = payload_identity_views(records@);
    let ghost f = |r: PayloadIdentityView| keyed_record_extent(fid, r);
    let mut keyed: Vec<(u64, Extent)> = Vec::new();
    let mut i: usize = 0;
    while i < records.len()
        invariant
            i <= records@.len(),
            rv == payload_identity_views(records@),
            f == (|r: PayloadIdentityView| keyed_record_extent(fid, r)),
            keyed@ == insertion_sort_by_key(rv.take(i as int).filter_map(f)),
        decreases records.len() - i,
    {
        proof {
            rv.lemma_filter_map_take_succ(f, i as int);
        }
        let r = &records[i];
        if r.file_id == fid {
            let x = (r.block_index, Extent { block_id: r.block_id, offset: r.logical_offset, len: r.logical_length });
            let mut j = keyed.len();
            while j > 0 && keyed[j - 1].0 > x.0
                invariant
                    j <= keyed@.len(),
                    forall|k: int| j <= k < keyed@.len() ==> (#[trigger] keyed@[k]).0 > x.0,
                decreases j,
            {
                j = j - 1;
            }
            proof {
                lemma_insert_by_key_at(keyed@, x, j as int);
                let a = rv.take(i as int).filter_map(f);
                assert(f(rv[i as int]) == Some(x));
                assert((a + seq![x]).drop_last() =~= a);
                assert((a + seq![x]).last() == x);
            }
            keyed.insert(j, x);
        } else {
            proof {
                let a = rv.take(i as int).filter_map(f);
                assert(f(rv[i as int]) is None);
                assert(a + Seq::<(u64, Extent)>::empty() =~= a);
            }
        }
        i = i + 1;
    }
    proof {
        assert(rv.take(records@.len() as int) =~= rv);
    }
    let mut es: Vec<Extent> = Vec::new();
    let mut k: usize = 0;
    while k < keyed.len()
        invariant
            k <= keyed@.len(),
            es@ == keyed@.take(k as int).map_values(|p: (u64, Extent)| p.1),
        decreases keyed.len() - k,
    {
        es.push(keyed[k].1);
        proof {
            assert(keyed@.take(k + 1).map_values(|p: (u64, Extent)| p.1) =~= keyed@.take(k as int).map_values(
                |p: (u64, Extent)| p.1,
            ).push(keyed@[k as int].1));
        }
        k = k + 1;
    }
    proof {
        assert(keyed@.take(keyed@.len() as int) =~= keyed@);
    }
    es
}

fn build_manifest_plan(
    m: &FileManifestRecord,
    extents: Vec<Extent>,
    path_map: &BTreeMap<u32, String>,
    Ghost(pm): Ghost<Map<u32, Seq<char>>>,
    block_verification: &BTreeMap<u32, BlockVerification>,
    mapping_provenance: MappingProvenance,
) -> (out: FilePlan)
    requires
        string_map_matches(path_map@, pm),
    ensures
        out@ == manifest_built_plan(m@, extents@, pm, block_verification@, mapping_provenance),
{
    let required_block_ids = extent_block_ids(&extents);
    let (mut status, mut reason, mut failure_reasons) = if extents.len() == 0 {
        let mut f = Vec::new();
        f.push(ReasonCode::ManifestWithoutRecoverableExtents);
        proof {
            assert(f@ =~= seq![ReasonCode::ManifestWithoutRecoverableExtents]);
        }
        (PlanStatus::Unmappable, PlanReason::ManifestHasNoRecoverableExtents, f)
    } else {
        classify_file(extents.as_slice(), required_block_ids.as_slice(), block_verification)
    };
    if m.expected_block_count > required_block_ids.len() as u64 {
        status = PlanStatus::Unsalvageable;
        reason = PlanReason::ManifestExpectedBlocksMissing;
        failure_reasons.push(ReasonCode::ManifestExpectedBlocksMissing);
    }
    let recovery_classification = if extents.len() == 0 {
        RecoveryClassification::OrphanBlocks
    } else if offsets_in_order(&extents) {
        RecoveryClassification::PartialOrdered
    } else {
        RecoveryClassification::PartialUnordered
    };
    let file_path = match &m.path {
        Some(p) => p.clone(),
        None => resolve_path(path_map, m.file_id, Ghost(pm)),
    };
    FilePlan {
        mapping_provenance,
        recovery_classification,
        file_path,
        status,
        reason,
        failure_reasons,
        required_block_ids,
        extents,
        file_size: m.file_size,
    }
}

/// Holds every plan to the file manifest of its path (or of the id its
/// anonymous path names). When no plan is given, first builds one plan per
/// usable manifest from the payload block identity records.
pub fn verify_and_apply_manifest_expectations(
    plans: Vec<FilePlan>,
    manifests: Vec<FileManifestRecord>,
    values: &[JsonValue],
    block_verification: &BTreeMap<u32, BlockVerification>,
    mapping_provenance: MappingProvenance,
) -> (out: Vec<FilePlan>)
    ensures
        plan_views(out@) == manifest_applied_plans(
            plan_views(plans@),
            manifest_views(manifests@),
            values@,
            block_verification@,
            mapping_provenance,
        ),
{
    let ghost mv = manifest_views(manifests@);
    let ghost g = |p: FilePlanView| apply_manifest(p, mv, values@, mapping_provenance);
    let ghost input = plan_views(plans@);
    let mut base = plans;
    if base.len() == 0 {
        let path_map = parse_payload_block_path_checkpoints(values);
        let records = parse_payload_block_identity_records(values);
        let ids = usable_ids_in_order(&manifests);
        let ghost pm = payload_path_map(values@);
        let ghost rv = payload_identity_views(records@);
        let ghost built = manifest_built_plans(mv, values@, block_verification@, mapping_provenance);
        proof {
            assert(rv == values@.filter_map(|v: JsonValue| payload_identity_record(v)));
        }
        let mut q: usize = 0;
        while q < ids.len()
            invariant
                q <= ids@.len(),
                ids@ == usable_id_order(mv),
                mv == manifest_views(manifests@),
                string_map_matches(path_map@, pm),
                rv == payload_identity_views(records@),
                rv == values@.filter_map(|v: JsonValue| payload_identity_record(v)),
                pm == payload_path_map(values@),
                built == manifest_built_plans(mv, values@, block_verification@, mapping_provenance),
                built.len() == ids@.len(),
                plan_views(base@) == built.take(q as int),
            decreases ids.len() - q,
        {
            let id = ids[q];
            proof {
                assert(ids@[q as int] == id);
                lemma_usable_ids_have_manifest(mv, id);
            }
            let k = match find_usable_with_id(&manifests, id) {
                Some(k) => k,
                None => {
                    proof {
                        assert(false);
                    }
                    0
                },
            };
            let extents = manifest_file_extents(&records, id);
            let plan = build_manifest_plan(&manifests[k], extents, &path_map, Ghost(pm), block_verification, mapping_provenance);
            let ghost old_base = base@;
            proof {
                assert(manifests@[k as int]@ == last_usable_with_id(mv, id).unwrap());
                assert(built[q as int] == manifest_built_plan(
                    last_usable_with_id(mv, id).unwrap(),
                    file_extents(rv, id),
                    pm,
                    block_verification@,
                    mapping_provenance,
                ));
                assert(plan@ == built[q as int]);
            }
            base.push(plan);
            proof {
                assert(plan_views(base@) =~= plan_views(old_base).push(plan@));
                assert(built.take(q + 1) =~= built.take(q as int).push(built[q as int]));
            }
            q = q + 1;
        }
        proof {
            assert(built.take(ids@.len() as int) =~= built);
        }
    }
    let ghost based = plan_views(base@);
    assert(based == if input.len() == 0 { manifest_built_plans(mv, values@, block_verification@, mapping_provenance) } else { input });
    let mut out: Vec<FilePlan> = Vec::new();
    let ghost mut i: int = 0;
    while base.len() > 0
        invariant
            0 <= i <= based.len(),
            plan_views(base@) == based.subrange(i, based.len() as int),
            base@.len() + i == based.len(),
            plan_views(out@) == based.take(i).map_values(g),
            mv == manifest_views(manifests@),
            g == (|p: FilePlanView| apply_manifest(p, mv, values@, mapping_provenance)),
        decreases base.len(),
    {
        let ghost old_base = base@;
        let ghost old_out = out@;
        let plan = base.remove(0);
        proof {
            assert(plan_views(old_base)[0] == based[i]);
            assert(plan@ == based[i]);
        }
        let applied = apply_manifest_to_plan(plan, &manifests, values, mapping_provenance);
        out.push(applied);
        proof {
            assert(based.take(i + 1).map_values(g) =~= based.take(i).map_values(g).push(g(based[i])));
            assert(plan_views(out@) =~= plan_views(old_out).push(applied@));
            assert(base@ =~= old_base.subrange(1, old_base.len() as int));
            assert(plan_views(base@) =~= plan_views(old_base).subrange(1, old_base.len() as int));
            i = i + 1;
            assert(plan_views(base@) =~= based.subrange(i, based.len() as int));
        }
    }
    proof {
        assert(based.take(i) =~= based);
    }
    out
}

} // verus!
