//! Salvage plans from payload block identity and file identity records.
use vstd::prelude::*;
use vstd::string::*;
use std::collections::{BTreeMap, BTreeSet};
use crate::json::{JsonValue, get_str, get_u64};
use crate::digest::{digest_hex_of_str, path_digest_hex};
use crate::text::{str_equals, str_starts_with, push_str, u64_to_decimal, pad_with_zeros, decimal, zero_pad};
use crate::seqs::lemma_map_preserves_multiset_eq;
use super::types::{BlockVerification, Extent, FilePlan, FilePlanView, MappingProvenance, PlanError, RecoveryClassification, RedundantMapFile};
use super::records::{FileIdentityExtentRecord, FileIdentityView, file_identity_views, file_identity_path_entries, parse_file_identity_path_map, PayloadBlockIdentityRecord, PayloadIdentityView, payload_identity_views, get_nested_str, string_map_matches, map_of_entries, payload_path_checkpoint_entries, parse_payload_block_path_checkpoints};
use super::grouping::{lemma_items_with_key_origin, items_with_key, group_by_key, is_grouping, keyed_views, group_views, stable_sort_by_u64_key, is_stable_sort_by_u64_key};
use super::metadata::{verify_and_plan_redundant_map, first_file_fault, redundant_plan_view, plan_views, sorted_by_path};

verus! {

broadcast use vstd::laws_cmp::group_laws_cmp;

/// The path under which a file without a named path is recovered.
pub open spec fn anonymous_path(file_id: u32) -> Seq<char> {
    "anonymous_verified/file_"@ + zero_pad(decimal(file_id as nat), 8) + ".bin"@
}

/// Whether a path is one of the anonymous recovery paths.
pub open spec fn is_anonymous_path(p: Seq<char>) -> bool {
    "anonymous_verified/"@.len() <= p.len() && p.subrange(0, "anonymous_verified/"@.len() as int) == "anonymous_verified/"@
}

/// Builds `anonymous_verified/file_{:08}.bin` for a file id.
pub fn anonymous_file_path(file_id: u32) -> (r: String)
    ensures
        r@ == anonymous_path(file_id),
{
    let mut out = String::from_str("anonymous_verified/file_");
    let digits = pad_with_zeros(u64_to_decimal(file_id as u64), 8);
    push_str(&mut out, digits.as_str());
    push_str(&mut out, ".bin");
    out
}

/// The path a file id resolves to: the mapped path, or the anonymous one.
pub open spec fn resolved_path(pm: Map<u32, Seq<char>>, file_id: u32) -> Seq<char> {
    if pm.contains_key(file_id) { pm[file_id] } else { anonymous_path(file_id) }
}

pub(crate) fn resolve_path(path_map: &BTreeMap<u32, String>, file_id: u32, Ghost(pm): Ghost<Map<u32, Seq<char>>>) -> (r: String)
    requires
        string_map_matches(path_map@, pm),
    ensures
        r@ == resolved_path(pm, file_id),
{
    match path_map.get(&file_id) {
        Some(p) => p.clone(),
        None => anonymous_file_path(file_id),
    }
}

/// The first index from `j` on whose path is `p`.
pub open spec fn first_with_path(paths: Seq<Seq<char>>, p: Seq<char>, j: int) -> int
    decreases paths.len() - j,
{
    if j < 0 || j >= paths.len() {
        j
    } else if paths[j] == p {
        j
    } else {
        first_with_path(paths, p, j + 1)
    }
}

/// The block is indexed and its content verified, or the record points at a
/// scan offset whose candidate verified.
pub open spec fn content_backed(
    bv: Map<u32, BlockVerification>,
    offsets: Set<u64>,
    block_id: u32,
    scan: Option<u64>,
) -> bool {
    (bv.contains_key(block_id) && bv[block_id].content_verified) || match scan {
        Some(o) => offsets.contains(o),
        None => false,
    }
}

/// A metadata value is the identity record of `block_id` under `schema`.
pub open spec fn is_identity_value(v: JsonValue, schema: Seq<char>, block_id: u32) -> bool {
    get_str(v, "schema"@) == Some(schema) && get_u64(v, "block_id"@) == Some(block_id as u64)
}

/// The first metadata value from `i` on that is the identity record of `block_id`.
pub open spec fn first_identity_value(values: Seq<JsonValue>, schema: Seq<char>, block_id: u32, i: int) -> Option<JsonValue>
    decreases values.len() - i,
{
    if i < 0 || i >= values.len() {
        None
    } else if is_identity_value(values[i], schema, block_id) {
        Some(values[i])
    } else {
        first_identity_value(values, schema, block_id, i + 1)
    }
}

/// `unwrap_or_default` on an optional string.
pub open spec fn or_empty(s: Option<Seq<char>>) -> Seq<char> {
    match s {
        Some(x) => x,
        None => seq![],
    }
}

/// The first identity value of the block disagrees with a record's hashes.
pub open spec fn content_hash_mismatch(
    values: Seq<JsonValue>,
    schema: Seq<char>,
    block_id: u32,
    payload_hash: Seq<char>,
    raw_hash: Seq<char>,
) -> bool {
    match first_identity_value(values, schema, block_id, 0) {
        Some(v) => or_empty(get_nested_str(v, "content_identity"@, "payload_hash_blake3"@)) != payload_hash
            || or_empty(get_nested_str(v, "content_identity"@, "raw_hash_blake3"@)) != raw_hash,
        None => false,
    }
}

fn find_identity_value<'a>(values: &'a [JsonValue], schema: &str, block_id: u32) -> (r: Option<&'a JsonValue>)
    ensures
        match r {
            Some(v) => first_identity_value(values@, schema@, block_id, 0) == Some(*v),
            None => first_identity_value(values@, schema@, block_id, 0) is None,
        },
{
    let mut i: usize = 0;
    while i < values.len()
        invariant
            i <= values@.len(),
            first_identity_value(values@, schema@, block_id, 0) == first_identity_value(values@, schema@, block_id, i as int),
        decreases values.len() - i,
    {
        let v = &values[i];
        let mut hit = false;
        match v.get_str("schema") {
            Some(s) => {
                if str_equals(s, schema) {
                    match v.get_u64("block_id") {
                        Some(b) => {
                            hit = b == block_id as u64;
                        },
                        None => {},
                    }
                }
            },
            None => {},
        }
        if hit {
            return Some(v);
        }
        i = i + 1;
    }
    None
}

fn hashes_mismatch(values: &[JsonValue], schema: &str, block_id: u32, payload_hash: &str, raw_hash: &str) -> (r: bool)
    ensures
        r == content_hash_mismatch(values@, schema@, block_id, payload_hash@, raw_hash@),
{
    match find_identity_value(values, schema, block_id) {
        Some(v) => {
            let payload = match v.get("content_identity") {
                Some(c) => match c.get_str("payload_hash_blake3") {
                    Some(x) => x,
                    None => "",
                },
                None => "",
            };
            let raw = match v.get("content_identity") {
                Some(c) => match c.get_str("raw_hash_blake3") {
                    Some(x) => x,
                    None => "",
                },
                None => "",
            };
            proof {
                reveal_strlit("");
                assert(""@ =~= Seq::<char>::empty());
                assert(payload@ == or_empty(get_nested_str(*v, "content_identity"@, "payload_hash_blake3"@)));
                assert(raw@ == or_empty(get_nested_str(*v, "content_identity"@, "raw_hash_blake3"@)));
            }
            !str_equals(payload, payload_hash) || !str_equals(raw, raw_hash)
        },
        None => false,
    }
}

fn is_content_backed(
    block_verification: &BTreeMap<u32, BlockVerification>,
    offsets: &BTreeSet<u64>,
    block_id: u32,
    scan: Option<u64>,
) -> (r: bool)
    ensures
        r == content_backed(block_verification@, offsets@, block_id, scan),
{
    let verified = match block_verification.get(&block_id) {
        Some(v) => v.content_verified,
        None => false,
    };
    if verified {
        return true;
    }
    match scan {
        Some(o) => offsets.contains(&o),
        None => false,
    }
}

/// The path map of the payload block identity metadata.
pub open spec fn payload_path_map(values: Seq<JsonValue>) -> Map<u32, Seq<char>> {
    map_of_entries(values.map_values(|v: JsonValue| payload_path_checkpoint_entries(v)).flatten())
}

/// The path each payload identity record resolves to.
pub open spec fn payload_record_paths(rs: Seq<PayloadIdentityView>, pm: Map<u32, Seq<char>>) -> Seq<Seq<char>> {
    rs.map_values(|r: PayloadIdentityView| resolved_path(pm, r.file_id))
}

/// The fault of payload identity record `i`, given that the records before
/// it passed. Records of one path are held to the first record of that path.
pub open spec fn payload_record_fault(
    rs: Seq<PayloadIdentityView>,
    paths: Seq<Seq<char>>,
    values: Seq<JsonValue>,
    bv: Map<u32, BlockVerification>,
    offsets: Set<u64>,
    i: int,
) -> Option<PlanError> {
    let r = rs[i];
    let x = i as usize;
    let end = r.logical_offset + r.logical_length;
    if r.total_block_count == 0 {
        Some(PlanError::PayloadTotalBlockCountZero { record_index: x })
    } else if r.payload_codec != 1 {
        Some(PlanError::PayloadCodecMismatch { record_index: x })
    } else if !content_backed(bv, offsets, r.block_id, r.block_scan_offset) {
        Some(PlanError::UnverifiedContentBlock { record_index: x })
    } else if content_hash_mismatch(values, "crushr-payload-block-identity.v1"@, r.block_id, r.payload_hash_blake3, r.raw_hash_blake3) {
        Some(PlanError::ContentHashMismatch { record_index: x })
    } else {
        let h = rs[first_with_path(paths, paths[i], 0)];
        if h.archive_identity != r.archive_identity {
            Some(PlanError::ArchiveIdentityMismatch { record_index: x })
        } else if h.full_file_size != r.full_file_size {
            Some(PlanError::FileSizeMismatch { record_index: x })
        } else if h.total_block_count != r.total_block_count {
            Some(PlanError::TotalBlockCountMismatch { record_index: x })
        } else if end > u64::MAX {
            Some(PlanError::LogicalBoundsOverflow { record_index: x })
        } else if end > r.full_file_size {
            Some(PlanError::LogicalBoundsExceedFileSize { record_index: x })
        } else if r.payload_length == 0 {
            Some(PlanError::PayloadLengthZero { record_index: x })
        } else {
            None
        }
    }
}

/// The first fault among payload identity records from `i` on.
pub open spec fn first_payload_record_fault(
    rs: Seq<PayloadIdentityView>,
    paths: Seq<Seq<char>>,
    values: Seq<JsonValue>,
    bv: Map<u32, BlockVerification>,
    offsets: Set<u64>,
    i: int,
) -> Option<PlanError>
    decreases rs.len() - i,
{
    if i < 0 || i >= rs.len() {
        None
    } else {
        match payload_record_fault(rs, paths, values, bv, offsets, i) {
            Some(e) => Some(e),
            None => first_payload_record_fault(rs, paths, values, bv, offsets, i + 1),
        }
    }
}

proof fn lemma_first_payload_record_fault_skip(
    rs: Seq<PayloadIdentityView>,
    paths: Seq<Seq<char>>,
    values: Seq<JsonValue>,
    bv: Map<u32, BlockVerification>,
    offsets: Set<u64>,
    i: int,
)
    requires
        0 <= i <= rs.len(),
        forall|q: int| 0 <= q < i ==> payload_record_fault(rs, paths, values, bv, offsets, q) is None,
    ensures
        first_payload_record_fault(rs, paths, values, bv, offsets, 0) == first_payload_record_fault(rs, paths, values, bv, offsets, i),
    decreases i,
{
    if i > 0 {
        lemma_first_payload_record_fault_skip(rs, paths, values, bv, offsets, i - 1);
    }
}

fn first_index_with_path(paths: &Vec<String>, i: usize) -> (r: usize)
    requires
        i < paths@.len(),
    ensures
        r as int == first_with_path(paths@.map_values(|s: String| s@), paths@[i as int]@, 0),
        r <= i,
{
    let ghost ps = paths@.map_values(|s: String| s@);
    let mut j: usize = 0;
    while j < i
        invariant
            j <= i < paths@.len(),
            ps == paths@.map_values(|s: String| s@),
            first_with_path(ps, ps[i as int], 0) == first_with_path(ps, ps[i as int], j as int),
        decreases i - j,
    {
        if str_equals(paths[j].as_str(), paths[i].as_str()) {
            return j;
        }
        j = j + 1;
    }
    j
}

fn check_payload_records(
    records: &Vec<PayloadBlockIdentityRecord>,
    paths: &Vec<String>,
    values: &[JsonValue],
    block_verification: &BTreeMap<u32, BlockVerification>,
    offsets: &BTreeSet<u64>,
) -> (r: Option<PlanError>)
    requires
        paths@.len() == records@.len(),
    ensures
        r == first_payload_record_fault(payload_identity_views(records@), paths@.map_values(|s: String| s@), values@,
            block_verification@, offsets@, 0),
{
    let ghost rs = payload_identity_views(records@);
    let ghost ps = paths@.map_values(|s: String| s@);
    let mut i: usize = 0;
    while i < records.len()
        invariant
            rs == payload_identity_views(records@),
            ps == paths@.map_values(|s: String| s@),
            paths@.len() == records@.len(),
            i <= records@.len(),
            forall|q: int| 0 <= q < i ==> payload_record_fault(rs, ps, values@, block_verification@, offsets@, q) is None,
        decreases records.len() - i,
    {
        proof {
            lemma_first_payload_record_fault_skip(rs, ps, values@, block_verification@, offsets@, i as int);
        }
        let r = &records[i];
        let x = i;
        let fault = if r.total_block_count == 0 {
            Some(PlanError::PayloadTotalBlockCountZero { record_index: x })
        } else if r.payload_codec != 1 {
            Some(PlanError::PayloadCodecMismatch { record_index: x })
        } else if !is_content_backed(block_verification, offsets, r.block_id, r.block_scan_offset) {
            Some(PlanError::UnverifiedContentBlock { record_index: x })
        } else if hashes_mismatch(values, "crushr-payload-block-identity.v1", r.block_id, r.payload_hash_blake3.as_str(), r.raw_hash_blake3.as_str()) {
            Some(PlanError::ContentHashMismatch { record_index: x })
        } else {
            let hi = first_index_with_path(paths, i);
            let h = &records[hi];
            if !str_equals(h.archive_identity.as_str(), r.archive_identity.as_str()) {
                Some(PlanError::ArchiveIdentityMismatch { record_index: x })
            } else if h.full_file_size != r.full_file_size {
                Some(PlanError::FileSizeMismatch { record_index: x })
            } else if h.total_block_count != r.total_block_count {
                Some(PlanError::TotalBlockCountMismatch { record_index: x })
            } else {
                match r.logical_offset.checked_add(r.logical_length) {
                    None => Some(PlanError::LogicalBoundsOverflow { record_index: x }),
                    Some(end) => {
                        if end > r.full_file_size {
                            Some(PlanError::LogicalBoundsExceedFileSize { record_index: x })
                        } else if r.payload_length == 0 {
                            Some(PlanError::PayloadLengthZero { record_index: x })
                        } else {
                            None
                        }
                    },
                }
            }
        };
        assert(fault == payload_record_fault(rs, ps, values@, block_verification@, offsets@, i as int));
        if fault.is_some() {
            return fault;
        }
        i = i + 1;
    }
    proof {
        lemma_first_payload_record_fault_skip(rs, ps, values@, block_verification@, offsets@, i as int);
    }
    None
}

/// Every plan's path is a named (not anonymous) path.
pub open spec fn views_all_named(ps: Seq<FilePlanView>) -> bool {
    forall|i: int| 0 <= i < ps.len() ==> !is_anonymous_path(#[trigger] ps[i].file_path)
}

/// An identity-derived plan: the provenance says whether every file of the
/// source got a named path; the classification whether this one did.
pub open spec fn identity_label(p: FilePlanView, named: bool, named_provenance: MappingProvenance, anonymous_provenance: MappingProvenance) -> FilePlanView {
    FilePlanView {
        mapping_provenance: if named { named_provenance } else { anonymous_provenance },
        recovery_classification: if is_anonymous_path(p.file_path) {
            RecoveryClassification::FullAnonymous
        } else {
            RecoveryClassification::FullVerified
        },
        ..p
    }
}

/// Two plan lists with equal multisets agree on whether all paths are named.
pub proof fn lemma_all_named_multiset(a: Seq<FilePlanView>, b: Seq<FilePlanView>)
    requires
        a.to_multiset() == b.to_multiset(),
    ensures
        views_all_named(a) == views_all_named(b),
{
    broadcast use vstd::seq_lib::group_to_multiset_ensures;
    if !views_all_named(a) {
        let i = choose|i: int| 0 <= i < a.len() && is_anonymous_path(#[trigger] a[i].file_path);
        vstd::seq_lib::to_multiset_contains(a, a[i]);
        vstd::seq_lib::to_multiset_contains(b, a[i]);
        assert(a.contains(a[i]));
        let j = choose|j: int| 0 <= j < b.len() && b[j] == a[i];
        assert(is_anonymous_path(b[j].file_path));
    }
    if !views_all_named(b) {
        let j = choose|j: int| 0 <= j < b.len() && is_anonymous_path(#[trigger] b[j].file_path);
        vstd::seq_lib::to_multiset_contains(b, b[j]);
        vstd::seq_lib::to_multiset_contains(a, b[j]);
        assert(b.contains(b[j]));
        let i = choose|i: int| 0 <= i < a.len() && a[i] == b[j];
        assert(is_anonymous_path(a[i].file_path));
    }
}

pub(crate) fn is_anonymous(p: &str) -> (r: bool)
    ensures
        r == is_anonymous_path(p@),
{
    str_starts_with(p, "anonymous_verified/")
}

/// Labels identity-derived plans with their provenance and classification,
/// keeping order.
fn label_identity_plans(plans: Vec<FilePlan>, named_provenance: MappingProvenance, anonymous_provenance: MappingProvenance) -> (out: Vec<FilePlan>)
    ensures
        plan_views(out@) == plan_views(plans@).map_values(
            |p: FilePlanView| identity_label(p, views_all_named(plan_views(plans@)), named_provenance, anonymous_provenance),
        ),
        sorted_by_path(plan_views(plans@)) ==> sorted_by_path(plan_views(out@)),
{
    let ghost pv = plan_views(plans@);
    let mut named = true;
    let mut q: usize = 0;
    while q < plans.len()
        invariant
            pv == plan_views(plans@),
            q <= plans@.len(),
            named == forall|i: int| 0 <= i < q ==> !is_anonymous_path(#[trigger] pv[i].file_path),
        decreases plans.len() - q,
    {
        assert(pv[q as int].file_path == plans@[q as int].file_path@);
        if is_anonymous(plans[q].file_path.as_str()) {
            named = false;
        }
        q = q + 1;
    }
    assert(named == views_all_named(pv));
    let ghost f = |p: FilePlanView| identity_label(p, views_all_named(pv), named_provenance, anonymous_provenance);
    let mut rest = plans;
    let mut out: Vec<FilePlan> = Vec::new();
    let ghost mut i: int = 0;
    while rest.len() > 0
        invariant
            0 <= i <= pv.len(),
            named == views_all_named(pv),
            f == (|p: FilePlanView| identity_label(p, views_all_named(pv), named_provenance, anonymous_provenance)),
            plan_views(rest@) == pv.subrange(i, pv.len() as int),
            plan_views(out@) == pv.take(i).map_values(f),
        decreases rest.len(),
    {
        let ghost old_rest = rest@;
        assert(plan_views(rest@).len() == rest@.len());
        assert(plan_views(rest@)[0] == pv.subrange(i, pv.len() as int)[0]);
        let mut p = rest.remove(0);
        p.mapping_provenance = if named { named_provenance } else { anonymous_provenance };
        p.recovery_classification = if is_anonymous(p.file_path.as_str()) {
            RecoveryClassification::FullAnonymous
        } else {
            RecoveryClassification::FullVerified
        };
        out.push(p);
        proof {
            assert(rest@ =~= old_rest.subrange(1, old_rest.len() as int));
            assert(plan_views(rest@) =~= plan_views(old_rest).subrange(1, old_rest.len() as int));
            assert(plan_views(old_rest).subrange(1, old_rest.len() as int) =~= pv.subrange(i + 1, pv.len() as int));
            assert(pv.take(i + 1).map_values(f) =~= pv.take(i).map_values(f).push(f(pv[i])));
            assert(plan_views(out@) =~= pv.take(i + 1).map_values(f));
            i = i + 1;
        }
    }
    proof {
        assert(pv.take(i) =~= pv);
    }
    out
}

/// A payload block as grouped: block index, extent, file size, block count.
pub type PayloadItem = (u64, (Extent, (u64, u64)));

/// The items payload identity records are grouped from, keyed by resolved path.
pub open spec fn payload_items(rs: Seq<PayloadIdentityView>, paths: Seq<Seq<char>>) -> Seq<(Seq<char>, PayloadItem)> {
    Seq::new(rs.len(), |i: int| (paths[i], (rs[i].block_index, (
        Extent { block_id: rs[i].block_id, offset: rs[i].logical_offset, len: rs[i].logical_length },
        (rs[i].full_file_size, rs[i].total_block_count),
    ))))
}

/// The fault of file `k` (path order) once its blocks are sorted by index:
/// the count must equal the file's block count and the indices must be 0, 1, 2, ...
pub open spec fn coverage_fault(k: int, sp: Seq<PayloadItem>) -> Option<PlanError> {
    if sp.len() > 0 && sp.len() != sp[0].1.1.1 {
        Some(PlanError::MissingBlockCoverage { group_index: k as usize })
    } else if exists|e: int| 0 <= e < sp.len() && (#[trigger] sp[e]).0 != e {
        Some(PlanError::BlockIndexGap { group_index: k as usize })
    } else {
        None
    }
}

/// `g` groups the items by path and `sps` holds the first groups, each sorted by block index.
pub open spec fn sorted_group_prefix<T>(
    items: Seq<(Seq<char>, (u64, T))>,
    g: Seq<(Seq<char>, Seq<(u64, T)>)>,
    sps: Seq<Seq<(u64, T)>>,
) -> bool {
    &&& is_grouping(items, g)
    &&& sps.len() <= g.len()
    &&& forall|k: int| 0 <= k < sps.len() ==> is_stable_sort_by_u64_key(g[k].1, #[trigger] sps[k])
}

/// None of the sorted groups has a coverage fault.
pub open spec fn coverage_ok(sps: Seq<Seq<PayloadItem>>) -> bool {
    forall|k: int| 0 <= k < sps.len() ==> coverage_fault(k, #[trigger] sps[k]) is None
}

/// The extents of sorted payload items.
pub open spec fn payload_extents(sp: Seq<PayloadItem>) -> Seq<Extent> {
    sp.map_values(|it: PayloadItem| it.1.0)
}

/// The files the groups describe: path, the file size of the group, extents in block order.
pub open spec fn payload_files(
    g: Seq<(Seq<char>, Seq<PayloadItem>)>,
    sps: Seq<Seq<PayloadItem>>,
    files: Seq<RedundantMapFile>,
) -> bool {
    &&& files.len() == g.len()
    &&& forall|k: int| 0 <= k < files.len() ==> {
        &&& (#[trigger] files[k]).path@ == g[k].0
        &&& files[k].size == sps[k][0].1.1.0
        &&& files[k].extents@ == payload_extents(sps[k])
    }
}

/// The plans of identity-derived files, as views.
pub open spec fn identity_plan_views(
    files: Seq<RedundantMapFile>,
    bv: Map<u32, BlockVerification>,
    named_provenance: MappingProvenance,
    anonymous_provenance: MappingProvenance,
) -> Seq<FilePlanView> {
    let base = files.map_values(|f: RedundantMapFile| redundant_plan_view(f, bv));
    base.map_values(|p: FilePlanView| identity_label(p, views_all_named(base), named_provenance, anonymous_provenance))
}

fn resolve_payload_paths(
    records: &Vec<PayloadBlockIdentityRecord>,
    path_map: &BTreeMap<u32, String>,
    Ghost(pm): Ghost<Map<u32, Seq<char>>>,
) -> (r: Vec<String>)
    requires
        string_map_matches(path_map@, pm),
    ensures
        r@.len() == records@.len(),
        r@.map_values(|s: String| s@) == payload_record_paths(payload_identity_views(records@), pm),
{
    let mut r: Vec<String> = Vec::new();
    let mut i: usize = 0;
    while i < records.len()
        invariant
            string_map_matches(path_map@, pm),
            i <= records@.len(),
            r@.len() == i,
            forall|q: int| 0 <= q < i ==> (#[trigger] r@[q])@ == resolved_path(pm, records@[q].file_id),
        decreases records.len() - i,
    {
        r.push(resolve_path(path_map, records[i].file_id, Ghost(pm)));
        i = i + 1;
    }
    proof {
        assert(r@.map_values(|s: String| s@) =~= payload_record_paths(payload_identity_views(records@), pm));
    }
    r
}

/// What planning from payload block identity records may return: `Ok`
/// with plans for the files the records group into exactly when no record
/// and no file is at fault, else the first fault.
pub open spec fn payload_identity_outcome(
    records: Seq<PayloadBlockIdentityRecord>,
    values: Seq<JsonValue>,
    bv: Map<u32, BlockVerification>,
    offs: Set<u64>,
    r: Result<Vec<FilePlan>, PlanError>,
) -> bool {
    let rs = payload_identity_views(records);
    let ps = payload_record_paths(rs, payload_path_map(values));
    let rf = first_payload_record_fault(rs, ps, values, bv, offs, 0);
    match r {
        Ok(plans) => rf is None && exists|g: Seq<(Seq<char>, Seq<PayloadItem>)>, sps: Seq<Seq<PayloadItem>>, files: Seq<RedundantMapFile>| {
            &&& sorted_group_prefix(payload_items(rs, ps), g, sps)
            &&& sps.len() == g.len()
            &&& coverage_ok(sps)
            &&& payload_files(g, sps, files)
            &&& first_file_fault(files, bv, 0) is None
            &&& plan_views(plans@).to_multiset() == identity_plan_views(files, bv,
                MappingProvenance::PayloadBlockIdentity, MappingProvenance::PayloadBlockIdentityAnonymous).to_multiset()
            &&& sorted_by_path(plan_views(plans@))
        },
        Err(e) => match rf {
            Some(e0) => e == e0,
            None => exists|g: Seq<(Seq<char>, Seq<PayloadItem>)>, sps: Seq<Seq<PayloadItem>>| {
                &&& sorted_group_prefix(payload_items(rs, ps), g, sps)
                &&& {
                    ||| {
                        &&& sps.len() > 0
                        &&& coverage_ok(sps.drop_last())
                        &&& coverage_fault(sps.len() - 1, sps.last()) == Some(e)
                    }
                    ||| {
                        &&& sps.len() == g.len()
                        &&& coverage_ok(sps)
                        &&& exists|files: Seq<RedundantMapFile>| payload_files(g, sps, files)
                            && first_file_fault(files, bv, 0) == Some(e)
                    }
                }
            },
        },
    }
    }

/// Plans files from payload block identity records. Every record must have
/// a non-zero block count, the zstd codec, content that verified (by block
/// id or scan offset), hashes that match the first identity value of its
/// block, the archive, file size and block count of the first record of its
/// file, a logical range within the file and a non-zero payload length;
/// the first record that fails is reported. Records are filed under the path
/// that the path checkpoints give their file id (or an anonymous path),
/// each file's blocks must then be exactly the indices 0..block count, and
/// the files are verified by `verify_and_plan_redundant_map`. Plans are
/// classified `FULL_ANONYMOUS` on an anonymous path and `FULL_VERIFIED`
/// otherwise; their provenance is the named one when no path is anonymous.
#[verifier::loop_isolation(false)]
pub fn verify_and_plan_payload_block_identity_records(
    records: Vec<PayloadBlockIdentityRecord>,
    values: &[JsonValue],
    block_verification: &BTreeMap<u32, BlockVerification>,
    verified_candidate_offsets: &BTreeSet<u64>,
) -> (r: Result<Vec<FilePlan>, PlanError>)
    ensures
    payload_identity_outcome(records@, values@, block_verification@, verified_candidate_offsets@, r),
{
    let ghost rs = payload_identity_views(records@);
    let ghost pm = payload_path_map(values@);
    let ghost bv = block_verification@;
    let path_map = parse_payload_block_path_checkpoints(values);
    let paths = resolve_payload_paths(&records, &path_map, Ghost(pm));
    let ghost ps = payload_record_paths(rs, pm);
    match check_payload_records(&records, &paths, values, block_verification, verified_candidate_offsets) {
    Some(e) => {
        return Err(e);
    },
    None => {},
    }
    let ghost all_items = payload_items(rs, ps);
    let mut items: Vec<(String, PayloadItem)> = Vec::new();
    let mut rest = records;
    let mut prest = paths;
    let ghost mut n: int = 0;
    while rest.len() > 0
    invariant
        0 <= n <= rs.len(),
        all_items == payload_items(rs, ps),
        ps.len() == rs.len(),
        payload_identity_views(rest@) == rs.subrange(n, rs.len() as int),
        prest@.map_values(|s: String| s@) == ps.subrange(n, ps.len() as int),
        keyed_views(items@) == all_items.take(n),
    decreases rest.len(),
    {
    let ghost old_rest = rest@;
    let ghost old_prest = prest@;
    assert(payload_identity_views(rest@).len() == rest@.len());
    assert(prest@.map_values(|s: String| s@).len() == prest@.len());
    assert(payload_identity_views(rest@)[0] == rs.subrange(n, rs.len() as int)[0]);
    assert(prest@.map_values(|s: String| s@)[0] == ps.subrange(n, ps.len() as int)[0]);
    let rec = rest.remove(0);
    let path = prest.remove(0);
    let extent = Extent { block_id: rec.block_id, offset: rec.logical_offset, len: rec.logical_length };
    items.push((path, (rec.block_index, (extent, (rec.full_file_size, rec.total_block_count)))));
    proof {
        assert(rest@ =~= old_rest.subrange(1, old_rest.len() as int));
        assert(prest@ =~= old_prest.subrange(1, old_prest.len() as int));
        assert(payload_identity_views(rest@) =~= payload_identity_views(old_rest).subrange(1, old_rest.len() as int));
        assert(prest@.map_values(|s: String| s@) =~= old_prest.map_values(|s: String| s@).subrange(1, old_prest.len() as int));
        assert(all_items.take(n + 1) =~= all_items.take(n).push(all_items[n]));
        assert(keyed_views(items@) =~= all_items.take(n + 1));
        n = n + 1;
    }
    }
    proof {
    assert(all_items.take(n) =~= all_items);
    }
    let groups = group_by_key(items);
    let ghost g = group_views(groups@);
    let mut files: Vec<RedundantMapFile> = Vec::new();
    let mut grest = groups;
    let ghost mut sps: Seq<Seq<PayloadItem>> = seq![];
    let ghost mut k: int = 0;
    while grest.len() > 0
    invariant
        0 <= k <= g.len(),
        is_grouping(all_items, g),
        group_views(grest@) == g.subrange(k, g.len() as int),
        files@.len() == k,
        sps.len() == k,
        forall|q: int| 0 <= q < k ==> is_stable_sort_by_u64_key(g[q].1, #[trigger] sps[q]),
        coverage_ok(sps),
        forall|q: int| 0 <= q < k ==> {
            &&& (#[trigger] files@[q]).path@ == g[q].0
            &&& files@[q].size == sps[q][0].1.1.0
            &&& files@[q].extents@ == payload_extents(sps[q])
        },
    decreases grest.len(),
    {
    let ghost old_grest = grest@;
    assert(group_views(grest@).len() == grest@.len());
    assert(group_views(grest@)[0] == g.subrange(k, g.len() as int)[0]);
    assert(g.subrange(k, g.len() as int)[0] == g[k]);
    assert(group_views(old_grest)[0] == g[k]);
    let ghost first = old_grest[0];
    let (path, blocks) = grest.remove(0);
    assert(path == first.0 && blocks == first.1);
    assert(g[k].1.len() > 0);
    let sorted = stable_sort_by_u64_key(blocks);
    let ghost sp = sorted@;
    let gi: usize = files.len();
    let total = (sorted[0].1).1.1;
    if sorted.len() as u64 != total {
        proof {
            assert(coverage_fault(k, sp) == Some(PlanError::MissingBlockCoverage { group_index: gi }));
            let sps2 = sps.push(sp);
            assert(sps2.drop_last() =~= sps);
            assert(sorted_group_prefix(all_items, g, sps2));
        }
        return Err(PlanError::MissingBlockCoverage { group_index: gi });
    }
    let mut e: usize = 0;
    while e < sorted.len()
        invariant
            sp == sorted@,
            e <= sp.len(),
            forall|q: int| 0 <= q < e ==> (#[trigger] sp[q]).0 == q,
        decreases sorted.len() - e,
    {
        if sorted[e].0 != e as u64 {
            proof {
                assert(coverage_fault(k, sp) == Some(PlanError::BlockIndexGap { group_index: gi }));
                let sps2 = sps.push(sp);
                assert(sps2.drop_last() =~= sps);
                assert(sorted_group_prefix(all_items, g, sps2));
            }
            return Err(PlanError::BlockIndexGap { group_index: gi });
        }
        e = e + 1;
    }
    let size = (sorted[0].1).1.0;
    let mut extents: Vec<Extent> = Vec::new();
    let mut m: usize = 0;
    while m < sorted.len()
        invariant
            m <= sorted@.len(),
            extents@ == payload_extents(sorted@.take(m as int)),
        decreases sorted.len() - m,
    {
        extents.push((sorted[m].1).0);
        proof {
            assert(payload_extents(sorted@.take(m + 1)) =~= payload_extents(sorted@.take(m as int)).push(sorted@[m as int].1.0));
        }
        m = m + 1;
    }
    proof {
        assert(sorted@.take(m as int) =~= sorted@);
    }
    files.push(RedundantMapFile { path, size, extents });
    proof {
        assert(grest@ =~= old_grest.subrange(1, old_grest.len() as int));
        assert(group_views(grest@) =~= group_views(old_grest).subrange(1, old_grest.len() as int));
        assert(coverage_fault(k, sp) is None);
        sps = sps.push(sp);
        k = k + 1;
    }
    }
    let ghost fs = files@;
    proof {
    assert(sorted_group_prefix(all_items, g, sps));
    assert(payload_files(g, sps, fs));
    }
    match verify_and_plan_redundant_map(files, block_verification) {
    Err(e) => Err(e),
    Ok(plans) => {
        let ghost pv = plan_views(plans@);
        let ghost base = fs.map_values(|f: RedundantMapFile| redundant_plan_view(f, bv));
        let out = label_identity_plans(plans, MappingProvenance::PayloadBlockIdentity, MappingProvenance::PayloadBlockIdentityAnonymous);
        proof {
            lemma_all_named_multiset(pv, base);
            let f = |p: FilePlanView| identity_label(p, views_all_named(base), MappingProvenance::PayloadBlockIdentity, MappingProvenance::PayloadBlockIdentityAnonymous);
            lemma_map_preserves_multiset_eq(pv, base, f);
            assert(plan_views(out@) =~= pv.map_values(f));
            assert(identity_plan_views(fs, bv, MappingProvenance::PayloadBlockIdentity, MappingProvenance::PayloadBlockIdentityAnonymous) =~= base.map_values(f));
        }
        Ok(out)
    },
    }
}

/// An extent as grouped from a file identity record: ordinal, extent, file size.
pub type IdentityItem = (u64, (Extent, u64));

/// The path map of the file identity metadata.
pub open spec fn file_identity_path_map(values: Seq<JsonValue>) -> Map<u32, Seq<char>> {
    map_of_entries(values.map_values(|v: JsonValue| file_identity_path_entries(v)).flatten())
}

/// The path each file identity record resolves to.
pub open spec fn identity_record_paths(rs: Seq<FileIdentityView>, pm: Map<u32, Seq<char>>) -> Seq<Seq<char>> {
    rs.map_values(|r: FileIdentityView| resolved_path(pm, r.file_id))
}

/// The fault of file identity record `i`, given that the records before it passed.
pub open spec fn identity_record_fault(
    rs: Seq<FileIdentityView>,
    paths: Seq<Seq<char>>,
    pm: Map<u32, Seq<char>>,
    values: Seq<JsonValue>,
    bv: Map<u32, BlockVerification>,
    offsets: Set<u64>,
    i: int,
) -> Option<PlanError> {
    let r = rs[i];
    let x = i as usize;
    if !content_backed(bv, offsets, r.extent.block_id, r.block_scan_offset) {
        Some(PlanError::UnverifiedContentBlock { record_index: x })
    } else if pm.contains_key(r.file_id) && path_digest_hex(pm[r.file_id]) != r.path_digest_blake3 {
        Some(PlanError::PathDigestMismatch { record_index: x })
    } else if content_hash_mismatch(values, "crushr-file-identity-extent.v1"@, r.extent.block_id, r.payload_hash_blake3, r.raw_hash_blake3) {
        Some(PlanError::ContentHashMismatch { record_index: x })
    } else if rs[first_with_path(paths, paths[i], 0)].size != r.size {
        Some(PlanError::InconsistentFileSize { record_index: x })
    } else {
        None
    }
}

/// The first fault among file identity records from `i` on.
pub open spec fn first_identity_record_fault(
    rs: Seq<FileIdentityView>,
    paths: Seq<Seq<char>>,
    pm: Map<u32, Seq<char>>,
    values: Seq<JsonValue>,
    bv: Map<u32, BlockVerification>,
    offsets: Set<u64>,
    i: int,
) -> Option<PlanError>
    decreases rs.len() - i,
{
    if i < 0 || i >= rs.len() {
        None
    } else {
        match identity_record_fault(rs, paths, pm, values, bv, offsets, i) {
            Some(e) => Some(e),
            None => first_identity_record_fault(rs, paths, pm, values, bv, offsets, i + 1),
        }
    }
}

proof fn lemma_first_identity_record_fault_skip(
    rs: Seq<FileIdentityView>,
    paths: Seq<Seq<char>>,
    pm: Map<u32, Seq<char>>,
    values: Seq<JsonValue>,
    bv: Map<u32, BlockVerification>,
    offsets: Set<u64>,
    i: int,
)
    requires
        0 <= i <= rs.len(),
        forall|q: int| 0 <= q < i ==> identity_record_fault(rs, paths, pm, values, bv, offsets, q) is None,
    ensures
        first_identity_record_fault(rs, paths, pm, values, bv, offsets, 0) == first_identity_record_fault(rs, paths, pm, values, bv, offsets, i),
    decreases i,
{
    if i > 0 {
        lemma_first_identity_record_fault_skip(rs, paths, pm, values, bv, offsets, i - 1);
    }
}

/// The items file identity records are grouped from, keyed by resolved path.
pub open spec fn identity_items(rs: Seq<FileIdentityView>, paths: Seq<Seq<char>>) -> Seq<(Seq<char>, IdentityItem)> {
    Seq::new(rs.len(), |i: int| (paths[i], (rs[i].extent_ordinal, (rs[i].extent, rs[i].size))))
}

/// The ordinals of a file's sorted extents are not 0, 1, 2, ...
pub open spec fn ordinal_fault(k: int, sp: Seq<IdentityItem>) -> Option<PlanError> {
    if exists|e: int| 0 <= e < sp.len() && (#[trigger] sp[e]).0 != e {
        Some(PlanError::ExtentOrdinalGap { group_index: k as usize })
    } else {
        None
    }
}

/// None of the sorted groups has an ordinal gap.
pub open spec fn ordinals_ok(sps: Seq<Seq<IdentityItem>>) -> bool {
    forall|k: int| 0 <= k < sps.len() ==> ordinal_fault(k, #[trigger] sps[k]) is None
}

/// The files the groups describe: path, the size of the group's first
/// record, extents in ordinal order.
pub open spec fn identity_files(
    g: Seq<(Seq<char>, Seq<IdentityItem>)>,
    sps: Seq<Seq<IdentityItem>>,
    files: Seq<RedundantMapFile>,
) -> bool {
    &&& files.len() == g.len()
    &&& forall|k: int| 0 <= k < files.len() ==> {
        &&& (#[trigger] files[k]).path@ == g[k].0
        &&& files[k].size == g[k].1[0].1.1
        &&& files[k].extents@ == sps[k].map_values(|it: IdentityItem| it.1.0)
    }
}

fn check_identity_records(
    records: &Vec<FileIdentityExtentRecord>,
    paths: &Vec<String>,
    path_map: &BTreeMap<u32, String>,
    Ghost(pm): Ghost<Map<u32, Seq<char>>>,
    values: &[JsonValue],
    block_verification: &BTreeMap<u32, BlockVerification>,
    offsets: &BTreeSet<u64>,
) -> (r: Option<PlanError>)
    requires
        paths@.len() == records@.len(),
        string_map_matches(path_map@, pm),
    ensures
        r == first_identity_record_fault(file_identity_views(records@), paths@.map_values(|s: String| s@), pm, values@,
            block_verification@, offsets@, 0),
{
    let ghost rs = file_identity_views(records@);
    let ghost ps = paths@.map_values(|s: String| s@);
    let mut i: usize = 0;
    while i < records.len()
        invariant
            rs == file_identity_views(records@),
            ps == paths@.map_values(|s: String| s@),
            paths@.len() == records@.len(),
            string_map_matches(path_map@, pm),
            i <= records@.len(),
            forall|q: int| 0 <= q < i ==> identity_record_fault(rs, ps, pm, values@, block_verification@, offsets@, q) is None,
        decreases records.len() - i,
    {
        proof {
            lemma_first_identity_record_fault_skip(rs, ps, pm, values@, block_verification@, offsets@, i as int);
        }
        let r = &records[i];
        let x = i;
        let digest_bad = match path_map.get(&r.file_id) {
            Some(p) => {
                let d = digest_hex_of_str(p.as_str());
                !str_equals(d.as_str(), r.path_digest_blake3.as_str())
            },
            None => false,
        };
        let fault = if !is_content_backed(block_verification, offsets, r.extent.block_id, r.block_scan_offset) {
            Some(PlanError::UnverifiedContentBlock { record_index: x })
        } else if digest_bad {
            Some(PlanError::PathDigestMismatch { record_index: x })
        } else if hashes_mismatch(values, "crushr-file-identity-extent.v1", r.extent.block_id, r.payload_hash_blake3.as_str(), r.raw_hash_blake3.as_str()) {
            Some(PlanError::ContentHashMismatch { record_index: x })
        } else {
            let hi = first_index_with_path(paths, i);
            if records[hi].size != r.size {
                Some(PlanError::InconsistentFileSize { record_index: x })
            } else {
                None
            }
        };
        assert(fault == identity_record_fault(rs, ps, pm, values@, block_verification@, offsets@, i as int));
        if fault.is_some() {
            return fault;
        }
        i = i + 1;
    }
    proof {
        lemma_first_identity_record_fault_skip(rs, ps, pm, values@, block_verification@, offsets@, i as int);
    }
    None
}

fn resolve_identity_paths(
    records: &Vec<FileIdentityExtentRecord>,
    path_map: &BTreeMap<u32, String>,
    Ghost(pm): Ghost<Map<u32, Seq<char>>>,
) -> (r: Vec<String>)
    requires
        string_map_matches(path_map@, pm),
    ensures
        r@.len() == records@.len(),
        r@.map_values(|s: String| s@) == identity_record_paths(file_identity_views(records@), pm),
{
    let mut r: Vec<String> = Vec::new();
    let mut i: usize = 0;
    while i < records.len()
        invariant
            string_map_matches(path_map@, pm),
            i <= records@.len(),
            r@.len() == i,
            forall|q: int| 0 <= q < i ==> (#[trigger] r@[q])@ == resolved_path(pm, records@[q].file_id),
        decreases records.len() - i,
    {
        r.push(resolve_path(path_map, records[i].file_id, Ghost(pm)));
        i = i + 1;
    }
    proof {
        assert(r@.map_values(|s: String| s@) =~= identity_record_paths(file_identity_views(records@), pm));
    }
    r
}

/// What planning from file identity extent records may return: `Ok` with
/// plans for the files the records group into exactly when no record and
/// no file is at fault, else the first fault.
pub open spec fn file_identity_outcome(
    records: Seq<FileIdentityExtentRecord>,
    values: Seq<JsonValue>,
    bv: Map<u32, BlockVerification>,
    offs: Set<u64>,
    r: Result<Vec<FilePlan>, PlanError>,
) -> bool {
    let rs = file_identity_views(records);
    let pm = file_identity_path_map(values);
    let ps = identity_record_paths(rs, pm);
    let rf = first_identity_record_fault(rs, ps, pm, values, bv, offs, 0);
    match r {
        Ok(plans) => rf is None && exists|g: Seq<(Seq<char>, Seq<IdentityItem>)>, sps: Seq<Seq<IdentityItem>>, files: Seq<RedundantMapFile>| {
            &&& sorted_group_prefix(identity_items(rs, ps), g, sps)
            &&& sps.len() == g.len()
            &&& ordinals_ok(sps)
            &&& identity_files(g, sps, files)
            &&& first_file_fault(files, bv, 0) is None
            &&& plan_views(plans@).to_multiset() == identity_plan_views(files, bv,
                MappingProvenance::FileIdentityExtent, MappingProvenance::FileIdentityExtentAnonymous).to_multiset()
            &&& sorted_by_path(plan_views(plans@))
        },
        Err(e) => match rf {
            Some(e0) => e == e0,
            None => exists|g: Seq<(Seq<char>, Seq<IdentityItem>)>, sps: Seq<Seq<IdentityItem>>| {
                &&& sorted_group_prefix(identity_items(rs, ps), g, sps)
                &&& {
                    ||| {
                        &&& sps.len() > 0
                        &&& ordinals_ok(sps.drop_last())
                        &&& ordinal_fault(sps.len() - 1, sps.last()) == Some(e)
                    }
                    ||| {
                        &&& sps.len() == g.len()
                        &&& ordinals_ok(sps)
                        &&& exists|files: Seq<RedundantMapFile>| identity_files(g, sps, files)
                            && first_file_fault(files, bv, 0) == Some(e)
                    }
                }
            },
        },
    }
    }

/// Plans files from file identity extent records. Every record must point
/// at content that verified (by block id or scan offset), carry the digest
/// of the path its file id maps to (when mapped), hashes that match the first
/// identity value of its block, and the file size of the first record of its
/// file; the first record that fails is reported. Records are filed under
/// their mapped path (or an anonymous path), each file's extent ordinals
/// must then be exactly 0, 1, 2, ..., and the files are verified by
/// `verify_and_plan_redundant_map`. Plans are classified `FULL_ANONYMOUS` on
/// an anonymous path and `FULL_VERIFIED` otherwise; their provenance is the
/// named one when no path is anonymous.
#[verifier::loop_isolation(false)]
pub fn verify_and_plan_file_identity_extent_records(
    records: Vec<FileIdentityExtentRecord>,
    values: &[JsonValue],
    block_verification: &BTreeMap<u32, BlockVerification>,
    verified_candidate_offsets: &BTreeSet<u64>,
) -> (r: Result<Vec<FilePlan>, PlanError>)
    ensures
    file_identity_outcome(records@, values@, block_verification@, verified_candidate_offsets@, r),
{
    let ghost rs = file_identity_views(records@);
    let ghost pm = file_identity_path_map(values@);
    let ghost bv = block_verification@;
    let path_map = parse_file_identity_path_map(values);
    let paths = resolve_identity_paths(&records, &path_map, Ghost(pm));
    let ghost ps = identity_record_paths(rs, pm);
    match check_identity_records(&records, &paths, &path_map, Ghost(pm), values, block_verification, verified_candidate_offsets) {
    Some(e) => {
        return Err(e);
    },
    None => {},
    }
    let ghost all_items = identity_items(rs, ps);
    let mut items: Vec<(String, IdentityItem)> = Vec::new();
    let mut rest = records;
    let mut prest = paths;
    let ghost mut n: int = 0;
    while rest.len() > 0
    invariant
        0 <= n <= rs.len(),
        all_items == identity_items(rs, ps),
        ps.len() == rs.len(),
        file_identity_views(rest@) == rs.subrange(n, rs.len() as int),
        prest@.map_values(|s: String| s@) == ps.subrange(n, ps.len() as int),
        keyed_views(items@) == all_items.take(n),
    decreases rest.len(),
    {
    let ghost old_rest = rest@;
    let ghost old_prest = prest@;
    assert(file_identity_views(rest@).len() == rest@.len());
    assert(prest@.map_values(|s: String| s@).len() == prest@.len());
    assert(file_identity_views(rest@)[0] == rs.subrange(n, rs.len() as int)[0]);
    assert(prest@.map_values(|s: String| s@)[0] == ps.subrange(n, ps.len() as int)[0]);
    let rec = rest.remove(0);
    let path = prest.remove(0);
    items.push((path, (rec.extent_ordinal, (rec.extent, rec.size))));
    proof {
        assert(rest@ =~= old_rest.subrange(1, old_rest.len() as int));
        assert(prest@ =~= old_prest.subrange(1, old_prest.len() as int));
        assert(file_identity_views(rest@) =~= file_identity_views(old_rest).subrange(1, old_rest.len() as int));
        assert(prest@.map_values(|s: String| s@) =~= old_prest.map_values(|s: String| s@).subrange(1, old_prest.len() as int));
        assert(all_items.take(n + 1) =~= all_items.take(n).push(all_items[n]));
        assert(keyed_views(items@) =~= all_items.take(n + 1));
        n = n + 1;
    }
    }
    proof {
    assert(all_items.take(n) =~= all_items);
    }
    let groups = group_by_key(items);
    let ghost g = group_views(groups@);
    let mut files: Vec<RedundantMapFile> = Vec::new();
    let mut grest = groups;
    let ghost mut sps: Seq<Seq<IdentityItem>> = seq![];
    let ghost mut k: int = 0;
    while grest.len() > 0
    invariant
        0 <= k <= g.len(),
        is_grouping(all_items, g),
        group_views(grest@) == g.subrange(k, g.len() as int),
        files@.len() == k,
        sps.len() == k,
        forall|q: int| 0 <= q < k ==> is_stable_sort_by_u64_key(g[q].1, #[trigger] sps[q]),
        ordinals_ok(sps),
        forall|q: int| 0 <= q < k ==> {
            &&& (#[trigger] files@[q]).path@ == g[q].0
            &&& files@[q].size == g[q].1[0].1.1
            &&& files@[q].extents@ == sps[q].map_values(|it: IdentityItem| it.1.0)
        },
    decreases grest.len(),
    {
    let ghost old_grest = grest@;
    assert(group_views(grest@).len() == grest@.len());
    assert(group_views(grest@)[0] == g.subrange(k, g.len() as int)[0]);
    assert(g.subrange(k, g.len() as int)[0] == g[k]);
    assert(group_views(old_grest)[0] == g[k]);
    let ghost first = old_grest[0];
    let (path, blocks) = grest.remove(0);
    assert(path == first.0 && blocks == first.1);
    assert(g[k].1.len() > 0);
    let size = (blocks[0].1).1;
    let sorted = stable_sort_by_u64_key(blocks);
    let ghost sp = sorted@;
    let gi: usize = files.len();
    let mut e: usize = 0;
    while e < sorted.len()
        invariant
            sp == sorted@,
            e <= sp.len(),
            forall|q: int| 0 <= q < e ==> (#[trigger] sp[q]).0 == q,
        decreases sorted.len() - e,
    {
        if sorted[e].0 != e as u64 {
            proof {
                assert(ordinal_fault(k, sp) == Some(PlanError::ExtentOrdinalGap { group_index: gi }));
                let sps2 = sps.push(sp);
                assert(sps2.drop_last() =~= sps);
                assert(sorted_group_prefix(all_items, g, sps2));
            }
            return Err(PlanError::ExtentOrdinalGap { group_index: gi });
        }
        e = e + 1;
    }
    let mut extents: Vec<Extent> = Vec::new();
    let mut m: usize = 0;
    while m < sorted.len()
        invariant
            m <= sorted@.len(),
            extents@ == sorted@.take(m as int).map_values(|it: IdentityItem| it.1.0),
        decreases sorted.len() - m,
    {
        extents.push((sorted[m].1).0);
        proof {
            assert(sorted@.take(m + 1).map_values(|it: IdentityItem| it.1.0) =~= sorted@.take(m as int).map_values(|it: IdentityItem| it.1.0).push(sorted@[m as int].1.0));
        }
        m = m + 1;
    }
    proof {
        assert(sorted@.take(m as int) =~= sorted@);
    }
    files.push(RedundantMapFile { path, size, extents });
    proof {
        assert(grest@ =~= old_grest.subrange(1, old_grest.len() as int));
        assert(group_views(grest@) =~= group_views(old_grest).subrange(1, old_grest.len() as int));
        assert(ordinal_fault(k, sp) is None);
        sps = sps.push(sp);
        k = k + 1;
    }
    }
    let ghost fs = files@;
    proof {
    assert(sorted_group_prefix(all_items, g, sps));
    assert(identity_files(g, sps, fs));
    }
    match verify_and_plan_redundant_map(files, block_verification) {
    Err(e) => Err(e),
    Ok(plans) => {
        let ghost pv = plan_views(plans@);
        let ghost base = fs.map_values(|f: RedundantMapFile| redundant_plan_view(f, bv));
        let out = label_identity_plans(plans, MappingProvenance::FileIdentityExtent, MappingProvenance::FileIdentityExtentAnonymous);
        proof {
            lemma_all_named_multiset(pv, base);
            let f = |p: FilePlanView| identity_label(p, views_all_named(base), MappingProvenance::FileIdentityExtent, MappingProvenance::FileIdentityExtentAnonymous);
            lemma_map_preserves_multiset_eq(pv, base, f);
            assert(plan_views(out@) =~= pv.map_values(f));
            assert(identity_plan_views(fs, bv, MappingProvenance::FileIdentityExtent, MappingProvenance::FileIdentityExtentAnonymous) =~= base.map_values(f));
        }
        Ok(out)
    },
    }
}

} // verus!
