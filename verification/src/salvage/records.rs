//! Metadata records carried in verified metadata blocks, parsed from JSON.
use vstd::prelude::*;
use vstd::string::*;
use crate::json::{JsonValue, get_str, get_u64, get_array, json_get};
use crate::text::str_equals;
use crate::digest::{digest_hex_of_str, path_digest_hex};
use std::collections::BTreeMap;
use super::types::Extent;

verus! {

broadcast use vstd::laws_cmp::group_laws_cmp;

/// One extent of a file, as a self-describing or checkpoint record gives it.
pub struct ExperimentalExtentRecord {
    pub path: String,
    pub size: u64,
    pub extent: Extent,
}

/// What an extent record states, as plain values.
pub struct ExtentRecordView {
    pub path: Seq<char>,
    pub size: u64,
    pub extent: Extent,
}

impl View for ExperimentalExtentRecord {
    type V = ExtentRecordView;

    open spec fn view(&self) -> ExtentRecordView {
        ExtentRecordView { path: self.path@, size: self.size, extent: self.extent }
    }
}

/// The views of a list of extent records.
pub open spec fn extent_record_views(rs: Seq<ExperimentalExtentRecord>) -> Seq<ExtentRecordView> {
    rs.map_values(|r: ExperimentalExtentRecord| r@)
}

/// `u32::try_from` on a `u64`.
pub open spec fn u32_of(v: Option<u64>) -> Option<u32> {
    match v {
        Some(x) => if x <= u32::MAX { Some(x as u32) } else { None },
        None => None,
    }
}

/// The extent described by the fields `path`, `full_file_size`, `block_id`,
/// `logical_offset` and `logical_length` of a JSON object; `None` when one is
/// missing or of the wrong kind, or the block id does not fit in 32 bits.
pub open spec fn extent_fields(rec: JsonValue) -> Option<ExtentRecordView> {
    match (get_str(rec, "path"@), get_u64(rec, "full_file_size"@), u32_of(get_u64(rec, "block_id"@)),
        get_u64(rec, "logical_offset"@), get_u64(rec, "logical_length"@)) {
        (Some(p), Some(size), Some(b), Some(o), Some(l)) => Some(
            ExtentRecordView { path: p, size, extent: Extent { block_id: b, offset: o, len: l } },
        ),
        _ => None,
    }
}

/// The record of a `crushr-self-describing-extent.v1` metadata value.
pub open spec fn self_describing_record(v: JsonValue) -> Option<ExtentRecordView> {
    if get_str(v, "schema"@) == Some("crushr-self-describing-extent.v1"@) {
        match json_get(v, "record"@) {
            Some(r) => extent_fields(r),
            None => None,
        }
    } else {
        None
    }
}

/// The records of a `crushr-checkpoint-map-snapshot.v1` metadata value.
pub open spec fn checkpoint_records(v: JsonValue) -> Seq<ExtentRecordView> {
    if get_str(v, "schema"@) == Some("crushr-checkpoint-map-snapshot.v1"@) {
        match get_array(v, "records"@) {
            Some(items) => items.filter_map(|r: JsonValue| extent_fields(r)),
            None => seq![],
        }
    } else {
        seq![]
    }
}

fn extent_record_from(rec: &JsonValue) -> (r: Option<ExperimentalExtentRecord>)
    ensures
        match r {
            Some(x) => extent_fields(*rec) == Some(x@),
            None => extent_fields(*rec) is None,
        },
{
    let path = match rec.get_str("path") {
        Some(p) => p,
        None => return None,
    };
    let size = match rec.get_u64("full_file_size") {
        Some(v) => v,
        None => return None,
    };
    let block_id_u64 = match rec.get_u64("block_id") {
        Some(v) => v,
        None => return None,
    };
    let offset = match rec.get_u64("logical_offset") {
        Some(v) => v,
        None => return None,
    };
    let len = match rec.get_u64("logical_length") {
        Some(v) => v,
        None => return None,
    };
    if block_id_u64 > 4294967295u64 {
        return None;
    }
    let block_id = block_id_u64 as u32;
    Some(ExperimentalExtentRecord {
        path: String::from_str(path),
        size,
        extent: Extent { block_id, offset, len },
    })
}

/// Collects the extent records of all `crushr-self-describing-extent.v1`
/// values; a value missing a field is skipped.
pub fn parse_self_describing_extent_records(values: &[JsonValue]) -> (out: Vec<ExperimentalExtentRecord>)
    ensures
        extent_record_views(out@) == values@.filter_map(|v: JsonValue| self_describing_record(v)),
{
    let ghost f = |v: JsonValue| self_describing_record(v);
    let mut out: Vec<ExperimentalExtentRecord> = Vec::new();
    let mut i: usize = 0;
    while i < values.len()
        invariant
            i <= values@.len(),
            f == (|v: JsonValue| self_describing_record(v)),
            extent_record_views(out@) == values@.take(i as int).filter_map(f),
        decreases values.len() - i,
    {
        let value = &values[i];
        proof {
            values@.lemma_filter_map_take_succ(f, i as int);
        }
        let ghost before = out@;
        let mut is_schema = false;
        match value.get_str("schema") {
            Some(s) => {
                is_schema = str_equals(s, "crushr-self-describing-extent.v1");
            },
            None => {},
        }
        if is_schema {
            match value.get("record") {
                Some(record) => {
                    match extent_record_from(record) {
                        Some(r) => {
                            out.push(r);
                        },
                        None => {},
                    }
                },
                None => {},
            }
        }
        proof {
            assert(extent_record_views(out@) =~= values@.take(i + 1).filter_map(f));
        }
        i = i + 1;
    }
    proof {
        assert(values@.take(values@.len() as int) =~= values@);
    }
    out
}

/// Collects the records of all `crushr-checkpoint-map-snapshot.v1` values,
/// in order; a record missing a field is skipped.
pub fn parse_checkpoint_extent_records(values: &[JsonValue]) -> (out: Vec<ExperimentalExtentRecord>)
    ensures
        extent_record_views(out@) == values@.map_values(|v: JsonValue| checkpoint_records(v)).flatten(),
{
    let ghost g = |v: JsonValue| checkpoint_records(v);
    let ghost h = |r: JsonValue| extent_fields(r);
    let mut out: Vec<ExperimentalExtentRecord> = Vec::new();
    let mut i: usize = 0;
    while i < values.len()
        invariant
            i <= values@.len(),
            g == (|v: JsonValue| checkpoint_records(v)),
            h == (|r: JsonValue| extent_fields(r)),
            extent_record_views(out@) == values@.take(i as int).map_values(g).flatten(),
        decreases values.len() - i,
    {
        let value = &values[i];
        let ghost before = extent_record_views(out@);
        let mut is_schema = false;
        match value.get_str("schema") {
            Some(s) => {
                is_schema = str_equals(s, "crushr-checkpoint-map-snapshot.v1");
            },
            None => {},
        }
        if is_schema {
            match value.get_array("records") {
                Some(records) => {
                    let mut k: usize = 0;
                    while k < records.len()
                        invariant
                            k <= records@.len(),
                            h == (|r: JsonValue| extent_fields(r)),
                            extent_record_views(out@) == before + records@.take(k as int).filter_map(h),
                        decreases records.len() - k,
                    {
                        proof {
                            records@.lemma_filter_map_take_succ(h, k as int);
                        }
                        let ghost old_out = out@;
                        match extent_record_from(&records[k]) {
                            Some(r) => {
                                out.push(r);
                                proof {
                                    assert(extent_record_views(out@) =~= extent_record_views(old_out).push(r@));
                                    assert(h(records@[k as int]) == Some(r@));
                                }
                            },
                            None => {
                                assert(h(records@[k as int]) is None);
                            },
                        }
                        proof {
                            assert(extent_record_views(out@) =~= before + records@.take(k + 1).filter_map(h));
                        }
                        k = k + 1;
                    }
                    proof {
                        assert(records@.take(k as int) =~= records@);
                        assert(g(*value) == records@.filter_map(h));
                    }
                },
                None => {
                    assert(extent_record_views(out@) =~= before + g(*value));
                },
            }
        } else {
            assert(extent_record_views(out@) =~= before + g(*value));
        }
        proof {
            assert(values@.take(i + 1).map_values(g) =~= values@.take(i as int).map_values(g).push(g(values@[i as int])));
            values@.take(i as int).map_values(g).lemma_flatten_push(g(values@[i as int]));
        }
        i = i + 1;
    }
    proof {
        assert(values@.take(values@.len() as int) =~= values@);
    }
    out
}

/// The map that inserting `entries` in order into an empty map yields (a
/// later entry for an id replaces an earlier one).
pub open spec fn map_of_entries(entries: Seq<(u32, Seq<char>)>) -> Map<u32, Seq<char>>
    decreases entries.len(),
{
    if entries.len() == 0 {
        Map::empty()
    } else {
        map_of_entries(entries.drop_last()).insert(entries.last().0, entries.last().1)
    }
}

/// A map of strings holds exactly the given texts.
pub open spec fn string_map_matches(m: Map<u32, String>, s: Map<u32, Seq<char>>) -> bool {
    &&& m.dom() == s.dom()
    &&& forall|k: u32| #[trigger] m.contains_key(k) ==> m[k]@ == s[k]
}

/// A `(file_id, path)` entry whose `path_digest_blake3` is the hexadecimal
/// BLAKE3 digest of its path; `None` when a field is missing, the id does
/// not fit in 32 bits, or the digest does not match.
pub open spec fn linked_path_entry(rec: JsonValue) -> Option<(u32, Seq<char>)> {
    match (u32_of(get_u64(rec, "file_id"@)), get_str(rec, "path"@), get_str(rec, "path_digest_blake3"@)) {
        (Some(id), Some(p), Some(d)) => if path_digest_hex(p) == d { Some((id, p)) } else { None },
        _ => None,
    }
}

/// The path entries that a metadata value contributes to the file identity
/// path map: those of a `crushr-file-path-map.v1` value's `records`, or the
/// value itself for `crushr-file-path-map-entry.v1`.
pub open spec fn file_identity_path_entries(v: JsonValue) -> Seq<(u32, Seq<char>)> {
    if get_str(v, "schema"@) == Some("crushr-file-path-map.v1"@) {
        match get_array(v, "records"@) {
            Some(items) => items.filter_map(|r: JsonValue| linked_path_entry(r)),
            None => seq![],
        }
    } else if get_str(v, "schema"@) == Some("crushr-file-path-map-entry.v1"@) {
        match linked_path_entry(v) {
            Some(e) => seq![e],
            None => seq![],
        }
    } else {
        seq![]
    }
}

fn linked_path_entry_from(rec: &JsonValue) -> (r: Option<(u32, &str)>)
    ensures
        match r {
            Some((id, p)) => linked_path_entry(*rec) == Some((id, p@)),
            None => linked_path_entry(*rec) is None,
        },
{
    let id_u64 = match rec.get_u64("file_id") {
        Some(v) => v,
        None => return None,
    };
    if id_u64 > 4294967295u64 {
        return None;
    }
    let path = match rec.get_str("path") {
        Some(p) => p,
        None => return None,
    };
    let digest = match rec.get_str("path_digest_blake3") {
        Some(d) => d,
        None => return None,
    };
    let computed = digest_hex_of_str(path);
    if !str_equals(computed.as_str(), digest) {
        return None;
    }
    Some((id_u64 as u32, path))
}

fn insert_entry(
    map: &mut BTreeMap<u32, String>,
    id: u32,
    path: &str,
    Ghost(entries): Ghost<Seq<(u32, Seq<char>)>>,
)
    requires
        string_map_matches(old(map)@, map_of_entries(entries)),
    ensures
        string_map_matches(final(map)@, map_of_entries(entries.push((id, path@)))),
{
    map.insert(id, String::from_str(path));
    proof {
        let e2 = entries.push((id, path@));
        assert(e2.drop_last() =~= entries);
        assert(map@.dom() =~= map_of_entries(e2).dom());
    }
}

/// Builds the file id to path map of the file identity metadata: from
/// `crushr-file-path-map.v1` record lists and `crushr-file-path-map-entry.v1`
/// values, keeping only entries whose path digest verifies; a later entry for
/// an id replaces an earlier one.
pub fn parse_file_identity_path_map(values: &[JsonValue]) -> (out: BTreeMap<u32, String>)
    ensures
        string_map_matches(out@, map_of_entries(values@.map_values(|v: JsonValue| file_identity_path_entries(v)).flatten())),
{
    let ghost g = |v: JsonValue| file_identity_path_entries(v);
    let ghost h = |r: JsonValue| linked_path_entry(r);
    let mut out: BTreeMap<u32, String> = BTreeMap::new();
    proof {
        assert(values@.take(0).map_values(g).flatten() =~= Seq::<(u32, Seq<char>)>::empty());
        assert(out@.dom() =~= Set::<u32>::empty());
    }
    let mut i: usize = 0;
    while i < values.len()
        invariant
            i <= values@.len(),
            g == (|v: JsonValue| file_identity_path_entries(v)),
            h == (|r: JsonValue| linked_path_entry(r)),
            string_map_matches(out@, map_of_entries(values@.take(i as int).map_values(g).flatten())),
        decreases values.len() - i,
    {
        let value = &values[i];
        let ghost before = values@.take(i as int).map_values(g).flatten();
        let mut is_list = false;
        let mut is_entry = false;
        match value.get_str("schema") {
            Some(s) => {
                is_list = str_equals(s, "crushr-file-path-map.v1");
                is_entry = str_equals(s, "crushr-file-path-map-entry.v1");
            },
            None => {},
        }
        if is_list {
            match value.get_array("records") {
                Some(records) => {
                    let mut k: usize = 0;
                    while k < records.len()
                        invariant
                            k <= records@.len(),
                            h == (|r: JsonValue| linked_path_entry(r)),
                            string_map_matches(out@, map_of_entries(before + records@.take(k as int).filter_map(h))),
                        decreases records.len() - k,
                    {
                        proof {
                            records@.lemma_filter_map_take_succ(h, k as int);
                        }
                        let ghost cur = before + records@.take(k as int).filter_map(h);
                        match linked_path_entry_from(&records[k]) {
                            Some((id, path)) => {
                                insert_entry(&mut out, id, path, Ghost(cur));
                                proof {
                                    assert(cur.push((id, path@)) =~= before + records@.take(k + 1).filter_map(h));
                                }
                            },
                            None => {
                                assert(cur =~= before + records@.take(k + 1).filter_map(h));
                            },
                        }
                        k = k + 1;
                    }
                    proof {
                        assert(records@.take(k as int) =~= records@);
                        assert(g(*value) == records@.filter_map(h));
                    }
                },
                None => {
                    assert(before + g(*value) =~= before);
                },
            }
        } else if is_entry {
            match linked_path_entry_from(value) {
                Some((id, path)) => {
                    insert_entry(&mut out, id, path, Ghost(before));
                    assert(before.push((id, path@)) =~= before + g(*value));
                },
                None => {
                    assert(before + g(*value) =~= before);
                },
            }
        } else {
            assert(before + g(*value) =~= before);
        }
        proof {
            assert(values@.take(i + 1).map_values(g) =~= values@.take(i as int).map_values(g).push(g(values@[i as int])));
            values@.take(i as int).map_values(g).lemma_flatten_push(g(values@[i as int]));
        }
        i = i + 1;
    }
    proof {
        assert(values@.take(values@.len() as int) =~= values@);
    }
    out
}

/// A path checkpoint entry that names a file: id, path with a matching
/// digest, a non-zero `total_block_count` and a positive `full_file_size`.
pub open spec fn checkpoint_path_entry(e: JsonValue) -> Option<(u32, Seq<char>)> {
    match (linked_path_entry(e), get_u64(e, "full_file_size"@), get_u64(e, "total_block_count"@)) {
        (Some(entry), Some(size), Some(total)) => if total != 0 && size > 0 { Some(entry) } else { None },
        _ => None,
    }
}

/// The path entries of a `crushr-path-checkpoint.v1` metadata value.
pub open spec fn payload_path_checkpoint_entries(v: JsonValue) -> Seq<(u32, Seq<char>)> {
    if get_str(v, "schema"@) == Some("crushr-path-checkpoint.v1"@) {
        match get_array(v, "entries"@) {
            Some(items) => items.filter_map(|e: JsonValue| checkpoint_path_entry(e)),
            None => seq![],
        }
    } else {
        seq![]
    }
}

fn checkpoint_path_entry_from(e: &JsonValue) -> (r: Option<(u32, &str)>)
    ensures
        match r {
            Some((id, p)) => checkpoint_path_entry(*e) == Some((id, p@)),
            None => checkpoint_path_entry(*e) is None,
        },
{
    let size = match e.get_u64("full_file_size") {
        Some(v) => v,
        None => return None,
    };
    let total = match e.get_u64("total_block_count") {
        Some(v) => v,
        None => return None,
    };
    if total == 0 || size == 0 {
        return None;
    }
    linked_path_entry_from(e)
}

/// Builds the file id to path map of the payload block identity metadata
/// from the entries of `crushr-path-checkpoint.v1` values: an entry counts
/// when its path digest verifies, it has a non-zero block count and a
/// positive file size; a later entry for an id replaces an earlier one.
pub fn parse_payload_block_path_checkpoints(values: &[JsonValue]) -> (out: BTreeMap<u32, String>)
    ensures
        string_map_matches(out@, map_of_entries(values@.map_values(|v: JsonValue| payload_path_checkpoint_entries(v)).flatten())),
{
    let ghost g = |v: JsonValue| payload_path_checkpoint_entries(v);
    let ghost h = |r: JsonValue| checkpoint_path_entry(r);
    let mut out: BTreeMap<u32, String> = BTreeMap::new();
    proof {
        assert(values@.take(0).map_values(g).flatten() =~= Seq::<(u32, Seq<char>)>::empty());
        assert(out@.dom() =~= Set::<u32>::empty());
    }
    let mut i: usize = 0;
    while i < values.len()
        invariant
            i <= values@.len(),
            g == (|v: JsonValue| payload_path_checkpoint_entries(v)),
            h == (|r: JsonValue| checkpoint_path_entry(r)),
            string_map_matches(out@, map_of_entries(values@.take(i as int).map_values(g).flatten())),
        decreases values.len() - i,
    {
        let value = &values[i];
        let ghost before = values@.take(i as int).map_values(g).flatten();
        let mut is_schema = false;
        match value.get_str("schema") {
            Some(s) => {
                is_schema = str_equals(s, "crushr-path-checkpoint.v1");
            },
            None => {},
        }
        if is_schema {
            match value.get_array("entries") {
                Some(entries) => {
                    let mut k: usize = 0;
                    while k < entries.len()
                        invariant
                            k <= entries@.len(),
                            h == (|r: JsonValue| checkpoint_path_entry(r)),
                            string_map_matches(out@, map_of_entries(before + entries@.take(k as int).filter_map(h))),
                        decreases entries.len() - k,
                    {
                        proof {
                            entries@.lemma_filter_map_take_succ(h, k as int);
                        }
                        let ghost cur = before + entries@.take(k as int).filter_map(h);
                        match checkpoint_path_entry_from(&entries[k]) {
                            Some((id, path)) => {
                                insert_entry(&mut out, id, path, Ghost(cur));
                                proof {
                                    assert(cur.push((id, path@)) =~= before + entries@.take(k + 1).filter_map(h));
                                }
                            },
                            None => {
                                assert(cur =~= before + entries@.take(k + 1).filter_map(h));
                            },
                        }
                        k = k + 1;
                    }
                    proof {
                        assert(entries@.take(k as int) =~= entries@);
                        assert(g(*value) == entries@.filter_map(h));
                    }
                },
                None => {
                    assert(before + g(*value) =~= before);
                },
            }
        } else {
            assert(before + g(*value) =~= before);
        }
        proof {
            assert(values@.take(i + 1).map_values(g) =~= values@.take(i as int).map_values(g).push(g(values@[i as int])));
            values@.take(i as int).map_values(g).lemma_flatten_push(g(values@[i as int]));
        }
        i = i + 1;
    }
    proof {
        assert(values@.take(values@.len() as int) =~= values@);
    }
    out
}

/// `v.get(outer).and_then(|x| x.get(inner)).and_then(as_str)`.
pub open spec fn get_nested_str(v: JsonValue, outer: Seq<char>, inner: Seq<char>) -> Option<Seq<char>> {
    match json_get(v, outer) {
        Some(x) => get_str(x, inner),
        None => None,
    }
}

pub(crate) fn nested_str<'a>(v: &'a JsonValue, outer: &str, inner: &str) -> (r: Option<&'a str>)
    ensures
        match r {
            Some(s) => get_nested_str(*v, outer@, inner@) == Some(s@),
            None => get_nested_str(*v, outer@, inner@) is None,
        },
{
    match v.get(outer) {
        Some(x) => x.get_str(inner),
        None => None,
    }
}

/// One block of a file as a payload block identity record states it.
pub struct PayloadBlockIdentityRecord {
    pub archive_identity: String,
    pub file_id: u32,
    pub block_index: u64,
    pub total_block_count: u64,
    pub full_file_size: u64,
    pub logical_offset: u64,
    pub logical_length: u64,
    pub payload_codec: u32,
    pub payload_length: u64,
    pub block_id: u32,
    pub block_scan_offset: Option<u64>,
    pub payload_hash_blake3: String,
    pub raw_hash_blake3: String,
}

/// What a payload block identity record states, as plain values.
pub struct PayloadIdentityView {
    pub archive_identity: Seq<char>,
    pub file_id: u32,
    pub block_index: u64,
    pub total_block_count: u64,
    pub full_file_size: u64,
    pub logical_offset: u64,
    pub logical_length: u64,
    pub payload_codec: u32,
    pub payload_length: u64,
    pub block_id: u32,
    pub block_scan_offset: Option<u64>,
    pub payload_hash_blake3: Seq<char>,
    pub raw_hash_blake3: Seq<char>,
}

impl View for PayloadBlockIdentityRecord {
    type V = PayloadIdentityView;

    open spec fn view(&self) -> PayloadIdentityView {
        PayloadIdentityView {
            archive_identity: self.archive_identity@,
            file_id: self.file_id,
            block_index: self.block_index,
            total_block_count: self.total_block_count,
            full_file_size: self.full_file_size,
            logical_offset: self.logical_offset,
            logical_length: self.logical_length,
            payload_codec: self.payload_codec,
            payload_length: self.payload_length,
            block_id: self.block_id,
            block_scan_offset: self.block_scan_offset,
            payload_hash_blake3: self.payload_hash_blake3@,
            raw_hash_blake3: self.raw_hash_blake3@,
        }
    }
}

/// The views of a list of payload block identity records.
pub open spec fn payload_identity_views(rs: Seq<PayloadBlockIdentityRecord>) -> Seq<PayloadIdentityView> {
    rs.map_values(|r: PayloadBlockIdentityRecord| r@)
}

/// The record of a `crushr-payload-block-identity.v1` metadata value; `None`
/// when a required field is missing or an id does not fit in 32 bits.
/// `block_scan_offset` is optional.
pub open spec fn payload_identity_record(v: JsonValue) -> Option<PayloadIdentityView> {
    if get_str(v, "schema"@) != Some("crushr-payload-block-identity.v1"@) {
        None
    } else {
        match (get_str(v, "archive_identity"@), u32_of(get_u64(v, "file_id"@)), get_u64(v, "block_index"@),
            get_u64(v, "total_block_count"@), get_u64(v, "full_file_size"@), get_u64(v, "logical_offset"@),
            get_u64(v, "logical_length"@), u32_of(get_u64(v, "payload_codec"@))) {
            (Some(a), Some(fid), Some(bi), Some(tbc), Some(ffs), Some(lo), Some(ll), Some(pc)) => {
                match (get_u64(v, "payload_length"@), u32_of(get_u64(v, "block_id"@)),
                    get_nested_str(v, "content_identity"@, "payload_hash_blake3"@),
                    get_nested_str(v, "content_identity"@, "raw_hash_blake3"@)) {
                    (Some(pl), Some(bid), Some(ph), Some(rh)) => Some(PayloadIdentityView {
                        archive_identity: a,
                        file_id: fid,
                        block_index: bi,
                        total_block_count: tbc,
                        full_file_size: ffs,
                        logical_offset: lo,
                        logical_length: ll,
                        payload_codec: pc,
                        payload_length: pl,
                        block_id: bid,
                        block_scan_offset: get_u64(v, "block_scan_offset"@),
                        payload_hash_blake3: ph,
                        raw_hash_blake3: rh,
                    }),
                    _ => None,
                }
            },
            _ => None,
        }
    }
}

fn payload_identity_record_from(v: &JsonValue) -> (r: Option<PayloadBlockIdentityRecord>)
    ensures
        match r {
            Some(x) => payload_identity_record(*v) == Some(x@),
            None => payload_identity_record(*v) is None,
        },
{
    match v.get_str("schema") {
        Some(s) => {
            if !str_equals(s, "crushr-payload-block-identity.v1") {
                return None;
            }
        },
        None => return None,
    }
    let archive_identity = match v.get_str("archive_identity") { Some(x) => x, None => return None };
    let file_id = match v.get_u64("file_id") { Some(x) => x, None => return None };
    if file_id > 4294967295u64 { return None; }
    let block_index = match v.get_u64("block_index") { Some(x) => x, None => return None };
    let total_block_count = match v.get_u64("total_block_count") { Some(x) => x, None => return None };
    let full_file_size = match v.get_u64("full_file_size") { Some(x) => x, None => return None };
    let logical_offset = match v.get_u64("logical_offset") { Some(x) => x, None => return None };
    let logical_length = match v.get_u64("logical_length") { Some(x) => x, None => return None };
    let payload_codec = match v.get_u64("payload_codec") { Some(x) => x, None => return None };
    if payload_codec > 4294967295u64 { return None; }
    let payload_length = match v.get_u64("payload_length") { Some(x) => x, None => return None };
    let block_id = match v.get_u64("block_id") { Some(x) => x, None => return None };
    if block_id > 4294967295u64 { return None; }
    let block_scan_offset = v.get_u64("block_scan_offset");
    let payload_hash = match nested_str(v, "content_identity", "payload_hash_blake3") { Some(x) => x, None => return None };
    let raw_hash = match nested_str(v, "content_identity", "raw_hash_blake3") { Some(x) => x, None => return None };
    Some(PayloadBlockIdentityRecord {
        archive_identity: String::from_str(archive_identity),
        file_id: file_id as u32,
        block_index,
        total_block_count,
        full_file_size,
        logical_offset,
        logical_length,
        payload_codec: payload_codec as u32,
        payload_length,
        block_id: block_id as u32,
        block_scan_offset,
        payload_hash_blake3: String::from_str(payload_hash),
        raw_hash_blake3: String::from_str(raw_hash),
    })
}

/// Collects the records of all `crushr-payload-block-identity.v1` values;
/// a value missing a required field is skipped.
pub fn parse_payload_block_identity_records(values: &[JsonValue]) -> (out: Vec<PayloadBlockIdentityRecord>)
    ensures
        payload_identity_views(out@) == values@.filter_map(|v: JsonValue| payload_identity_record(v)),
{
    let ghost f = |v: JsonValue| payload_identity_record(v);
    let mut out: Vec<PayloadBlockIdentityRecord> = Vec::new();
    let mut i: usize = 0;
    while i < values.len()
        invariant
            i <= values@.len(),
            f == (|v: JsonValue| payload_identity_record(v)),
            payload_identity_views(out@) == values@.take(i as int).filter_map(f),
        decreases values.len() - i,
    {
        proof {
            values@.lemma_filter_map_take_succ(f, i as int);
        }
        let ghost old_out = out@;
        match payload_identity_record_from(&values[i]) {
            Some(r) => {
                out.push(r);
                proof {
                    assert(payload_identity_views(out@) =~= payload_identity_views(old_out).push(r@));
                }
            },
            None => {},
        }
        proof {
            assert(payload_identity_views(out@) =~= values@.take(i + 1).filter_map(f));
        }
        i = i + 1;
    }
    proof {
        assert(values@.take(values@.len() as int) =~= values@);
    }
    out
}

/// One extent of a file as a file identity extent record states it.
pub struct FileIdentityExtentRecord {
    pub file_id: u32,
    pub size: u64,
    pub extent_ordinal: u64,
    pub extent: Extent,
    pub block_scan_offset: Option<u64>,
    pub path_digest_blake3: String,
    pub payload_hash_blake3: String,
    pub raw_hash_blake3: String,
}

/// What a file identity extent record states, as plain values.
pub struct FileIdentityView {
    pub file_id: u32,
    pub size: u64,
    pub extent_ordinal: u64,
    pub extent: Extent,
    pub block_scan_offset: Option<u64>,
    pub path_digest_blake3: Seq<char>,
    pub payload_hash_blake3: Seq<char>,
    pub raw_hash_blake3: Seq<char>,
}

impl View for FileIdentityExtentRecord {
    type V = FileIdentityView;

    open spec fn view(&self) -> FileIdentityView {
        FileIdentityView {
            file_id: self.file_id,
            size: self.size,
            extent_ordinal: self.extent_ordinal,
            extent: self.extent,
            block_scan_offset: self.block_scan_offset,
            path_digest_blake3: self.path_digest_blake3@,
            payload_hash_blake3: self.payload_hash_blake3@,
            raw_hash_blake3: self.raw_hash_blake3@,
        }
    }
}

/// The views of a list of file identity extent records.
pub open spec fn file_identity_views(rs: Seq<FileIdentityExtentRecord>) -> Seq<FileIdentityView> {
    rs.map_values(|r: FileIdentityExtentRecord| r@)
}

/// The record of a `crushr-file-identity-extent.v1` metadata value; `None`
/// when a required field is missing or an id does not fit in 32 bits.
pub open spec fn file_identity_record(v: JsonValue) -> Option<FileIdentityView> {
    if get_str(v, "schema"@) != Some("crushr-file-identity-extent.v1"@) {
        None
    } else {
        match (u32_of(get_u64(v, "file_id"@)), get_u64(v, "full_file_size"@), get_u64(v, "extent_ordinal"@),
            u32_of(get_u64(v, "block_id"@)), get_u64(v, "logical_offset"@), get_u64(v, "logical_length"@)) {
            (Some(fid), Some(size), Some(ord), Some(bid), Some(o), Some(l)) => {
                match (get_nested_str(v, "path_linkage"@, "path_digest_blake3"@),
                    get_nested_str(v, "content_identity"@, "payload_hash_blake3"@),
                    get_nested_str(v, "content_identity"@, "raw_hash_blake3"@)) {
                    (Some(pd), Some(ph), Some(rh)) => Some(FileIdentityView {
                        file_id: fid,
                        size,
                        extent_ordinal: ord,
                        extent: Extent { block_id: bid, offset: o, len: l },
                        block_scan_offset: get_u64(v, "block_scan_offset"@),
                        path_digest_blake3: pd,
                        payload_hash_blake3: ph,
                        raw_hash_blake3: rh,
                    }),
                    _ => None,
                }
            },
            _ => None,
        }
    }
}

fn file_identity_record_from(v: &JsonValue) -> (r: Option<FileIdentityExtentRecord>)
    ensures
        match r {
            Some(x) => file_identity_record(*v) == Some(x@),
            None => file_identity_record(*v) is None,
        },
{
    match v.get_str("schema") {
        Some(s) => {
            if !str_equals(s, "crushr-file-identity-extent.v1") {
                return None;
            }
        },
        None => return None,
    }
    let file_id = match v.get_u64("file_id") { Some(x) => x, None => return None };
    if file_id > 4294967295u64 { return None; }
    let size = match v.get_u64("full_file_size") { Some(x) => x, None => return None };
    let extent_ordinal = match v.get_u64("extent_ordinal") { Some(x) => x, None => return None };
    let block_id = match v.get_u64("block_id") { Some(x) => x, None => return None };
    if block_id > 4294967295u64 { return None; }
    let offset = match v.get_u64("logical_offset") { Some(x) => x, None => return None };
    let len = match v.get_u64("logical_length") { Some(x) => x, None => return None };
    let block_scan_offset = v.get_u64("block_scan_offset");
    let path_digest = match nested_str(v, "path_linkage", "path_digest_blake3") { Some(x) => x, None => return None };
    let payload_hash = match nested_str(v, "content_identity", "payload_hash_blake3") { Some(x) => x, None => return None };
    let raw_hash = match nested_str(v, "content_identity", "raw_hash_blake3") { Some(x) => x, None => return None };
    Some(FileIdentityExtentRecord {
        file_id: file_id as u32,
        size,
        extent_ordinal,
        extent: Extent { block_id: block_id as u32, offset, len },
        block_scan_offset,
        path_digest_blake3: String::from_str(path_digest),
        payload_hash_blake3: String::from_str(payload_hash),
        raw_hash_blake3: String::from_str(raw_hash),
    })
}

/// Collects the records of all `crushr-file-identity-extent.v1` values; a
/// value missing a required field is skipped.
pub fn parse_file_identity_extent_records(values: &[JsonValue]) -> (out: Vec<FileIdentityExtentRecord>)
    ensures
        file_identity_views(out@) == values@.filter_map(|v: JsonValue| file_identity_record(v)),
{
    let ghost f = |v: JsonValue| file_identity_record(v);
    let mut out: Vec<FileIdentityExtentRecord> = Vec::new();
    let mut i: usize = 0;
    while i < values.len()
        invariant
            i <= values@.len(),
            f == (|v: JsonValue| file_identity_record(v)),
            file_identity_views(out@) == values@.take(i as int).filter_map(f),
        decreases values.len() - i,
    {
        proof {
            values@.lemma_filter_map_take_succ(f, i as int);
        }
        let ghost old_out = out@;
        match file_identity_record_from(&values[i]) {
            Some(r) => {
                out.push(r);
                proof {
                    assert(file_identity_views(out@) =~= file_identity_views(old_out).push(r@));
                }
            },
            None => {},
        }
        proof {
            assert(file_identity_views(out@) =~= values@.take(i + 1).filter_map(f));
        }
        i = i + 1;
    }
    proof {
        assert(values@.take(values@.len() as int) =~= values@);
    }
    out
}

/// What a file manifest record states about one file.
pub struct FileManifestRecord {
    pub file_id: u32,
    pub path: Option<String>,
    pub file_size: u64,
    pub expected_block_count: u64,
    pub extent_count: u64,
    pub file_digest: String,
}

/// A file manifest record as plain values.
pub struct FileManifestView {
    pub file_id: u32,
    pub path: Option<Seq<char>>,
    pub file_size: u64,
    pub expected_block_count: u64,
    pub extent_count: u64,
    pub file_digest: Seq<char>,
}

impl View for FileManifestRecord {
    type V = FileManifestView;

    open spec fn view(&self) -> FileManifestView {
        FileManifestView {
            file_id: self.file_id,
            path: match self.path {
                Some(p) => Some(p@),
                None => None,
            },
            file_size: self.file_size,
            expected_block_count: self.expected_block_count,
            extent_count: self.extent_count,
            file_digest: self.file_digest@,
        }
    }
}

/// The views of a list of manifest records.
pub open spec fn manifest_views(rs: Seq<FileManifestRecord>) -> Seq<FileManifestView> {
    rs.map_values(|r: FileManifestRecord| r@)
}

/// `unwrap_or(0)` on an optional count.
pub open spec fn or_zero(v: Option<u64>) -> u64 {
    match v {
        Some(x) => x,
        None => 0,
    }
}

/// The record of a `crushr-file-manifest.v1` metadata value: it needs a
/// 32-bit `file_id`; missing counts are 0, a missing digest is empty and the
/// path is optional.
pub open spec fn manifest_record(v: JsonValue) -> Option<FileManifestView> {
    if get_str(v, "schema"@) != Some("crushr-file-manifest.v1"@) {
        None
    } else {
        match u32_of(get_u64(v, "file_id"@)) {
            Some(fid) => Some(FileManifestView {
                file_id: fid,
                path: get_str(v, "path"@),
                file_size: or_zero(get_u64(v, "file_size"@)),
                expected_block_count: or_zero(get_u64(v, "expected_block_count"@)),
                extent_count: or_zero(get_u64(v, "extent_count"@)),
                file_digest: match get_str(v, "file_digest"@) {
                    Some(d) => d,
                    None => seq![],
                },
            }),
            None => None,
        }
    }
}

fn manifest_record_from(v: &JsonValue) -> (r: Option<FileManifestRecord>)
    ensures
        match r {
            Some(x) => manifest_record(*v) == Some(x@),
            None => manifest_record(*v) is None,
        },
{
    match v.get_str("schema") {
        Some(s) => {
            if !str_equals(s, "crushr-file-manifest.v1") {
                return None;
            }
        },
        None => return None,
    }
    let file_id = match v.get_u64("file_id") { Some(x) => x, None => return None };
    if file_id > 4294967295u64 { return None; }
    let file_size = match v.get_u64("file_size") { Some(x) => x, None => 0 };
    let expected_block_count = match v.get_u64("expected_block_count") { Some(x) => x, None => 0 };
    let extent_count = match v.get_u64("extent_count") { Some(x) => x, None => 0 };
    let file_digest = match v.get_str("file_digest") {
        Some(d) => String::from_str(d),
        None => String::new(),
    };
    let path = match v.get_str("path") {
        Some(p) => Some(String::from_str(p)),
        None => None,
    };
    Some(FileManifestRecord { file_id: file_id as u32, path, file_size, expected_block_count, extent_count, file_digest })
}

/// Collects the records of all `crushr-file-manifest.v1` values that carry
/// a 32-bit file id.
pub fn parse_file_manifest_records(values: &[JsonValue]) -> (out: Vec<FileManifestRecord>)
    ensures
        manifest_views(out@) == values@.filter_map(|v: JsonValue| manifest_record(v)),
{
    let ghost f = |v: JsonValue| manifest_record(v);
    let mut out: Vec<FileManifestRecord> = Vec::new();
    let mut i: usize = 0;
    while i < values.len()
        invariant
            i <= values@.len(),
            f == (|v: JsonValue| manifest_record(v)),
            manifest_views(out@) == values@.take(i as int).filter_map(f),
        decreases values.len() - i,
    {
        proof {
            values@.lemma_filter_map_take_succ(f, i as int);
        }
        let ghost old_out = out@;
        match manifest_record_from(&values[i]) {
            Some(r) => {
                out.push(r);
                proof {
                    assert(manifest_views(out@) =~= manifest_views(old_out).push(r@));
                }
            },
            None => {},
        }
        proof {
            assert(manifest_views(out@) =~= values@.take(i + 1).filter_map(f));
        }
        i = i + 1;
    }
    proof {
        assert(values@.take(values@.len() as int) =~= values@);
    }
    out
}

} // verus!
