//! What the salvage tool exports: the raw content of verified blocks, the
//! verified extents of each planned file and the files recovered in full.
use vstd::prelude::*;
use crate::digest::{blake3_digest, zstd_decoded, blake3_hash, zstd_decode_all, hex_lower, to_hex};
use crate::text::{str_equals, push_str, decimal, u64_to_decimal};
use crate::lab::paths::{sanitize_rel_path, spec_sanitize_rel_path};
use super::types::{Extent, FilePlan, FilePlanView, PlanStatus};
use super::manifest::{insertion_sort_by_key, insert_by_key, sort_by_u64_key};
use super::metadata::{plan_views, sort_by_path, sort_plans_by_path};
use super::candidates::{BlockCandidate, CandidateView, Blk3Header, Blk3HeaderView, header_view};

verus! {

/// The decoded content of one verified block, with what its sidecar records.
pub struct BlockExportData {
    pub archive_offset: u64,
    pub block_id: u32,
    pub codec: u32,
    pub dictionary_dependency_status: &'static str,
    pub raw_hash: Option<String>,
    pub payload: Vec<u8>,
}

/// A decoded block as plain values.
pub struct BlockExportView {
    pub archive_offset: u64,
    pub block_id: u32,
    pub codec: u32,
    pub dictionary_dependency_status: Seq<char>,
    pub raw_hash: Option<Seq<char>>,
    pub payload: Seq<u8>,
}

impl View for BlockExportData {
    type V = BlockExportView;

    open spec fn view(&self) -> BlockExportView {
        BlockExportView {
            archive_offset: self.archive_offset,
            block_id: self.block_id,
            codec: self.codec,
            dictionary_dependency_status: self.dictionary_dependency_status@,
            raw_hash: match self.raw_hash {
                Some(h) => Some(h@),
                None => None,
            },
            payload: self.payload@,
        }
    }
}

/// The little-endian 16-bit value at `i`.
pub open spec fn le_u16_at(b: Seq<u8>, i: int) -> int {
    b[i] as int + 256 * (b[i + 1] as int)
}

/// The hexadecimal rendering of an optional digest.
pub open spec fn hex_option(h: Option<Seq<u8>>) -> Option<Seq<char>> {
    match h {
        Some(d) => Some(hex_lower(d)),
        None => None,
    }
}

/// What candidate `c` contributes to the export, given the header `h` the
/// parser read from its header window: nothing unless it maps to a block,
/// its content verified, the header window lies in the archive, the header
/// parsed, its payload lies in the archive, the codec is zstd (1), the
/// payload decodes and the decoded bytes have the raw hash the header states.
pub open spec fn decoded_block(b: Seq<u8>, c: CandidateView, h: Option<Blk3HeaderView>) -> Option<BlockExportView> {
    let off = c.scan_offset as int;
    match c.mapped_block_id {
        None => None,
        Some(id) => {
            if c.content_verification_status != "content_verified"@ || off + 6 > b.len()
                || off + le_u16_at(b, off + 4) > b.len() {
                None
            } else {
                match h {
                    None => None,
                    Some(hd) => {
                        let ps = off + hd.header_len;
                        let pe = ps + hd.comp_len;
                        if pe > b.len() || hd.codec != 1 {
                            None
                        } else {
                            match zstd_decoded(b.subrange(ps, pe)) {
                                None => None,
                                Some(raw) => {
                                    if hd.raw_hash is Some && blake3_digest(raw) != hd.raw_hash->0 {
                                        None
                                    } else {
                                        Some(BlockExportView {
                                            archive_offset: c.scan_offset,
                                            block_id: id,
                                            codec: hd.codec,
                                            dictionary_dependency_status: c.dictionary_dependency_status,
                                            raw_hash: hex_option(hd.raw_hash),
                                            payload: raw,
                                        })
                                    }
                                },
                            }
                        }
                    },
                }
            }
        },
    }
}

/// The decoded blocks of the first `n` candidates by block id; a later
/// candidate of the same block replaces an earlier one.
pub open spec fn decoded_blocks(b: Seq<u8>, cs: Seq<CandidateView>, hs: Seq<Option<Blk3HeaderView>>, n: int) -> Map<u32, BlockExportView>
    decreases n,
{
    if n <= 0 {
        Map::empty()
    } else {
        let m = decoded_blocks(b, cs, hs, n - 1);
        match decoded_block(b, cs[n - 1], hs[n - 1]) {
            Some(v) => m.insert(v.block_id, v),
            None => m,
        }
    }
}

/// `s` lists the map `m` by ascending block id.
pub open spec fn lists_block_map(s: Seq<BlockExportView>, m: Map<u32, BlockExportView>) -> bool {
    &&& forall|a: int, c: int| 0 <= a < c < s.len() ==> (#[trigger] s[a]).block_id < (#[trigger] s[c]).block_id
    &&& forall|a: int| 0 <= a < s.len() ==> m.contains_key((#[trigger] s[a]).block_id) && m[s[a].block_id] == s[a]
    &&& forall|id: u32| #[trigger] m.contains_key(id) ==> exists|a: int| 0 <= a < s.len() && (#[trigger] s[a]).block_id == id
}

/// The views of decoded blocks.
pub open spec fn block_views(s: Seq<BlockExportData>) -> Seq<BlockExportView> {
    s.map_values(|x: BlockExportData| x@)
}

/// The views of optional headers.
pub open spec fn header_views(hs: Seq<Option<Blk3Header>>) -> Seq<Option<Blk3HeaderView>> {
    hs.map_values(|h: Option<Blk3Header>| header_view(h))
}

fn read_le_u16(b: &[u8], i: usize) -> (v: usize)
    requires
        i + 1 < b@.len(),
    ensures
        v == le_u16_at(b@, i as int),
{
    b[i] as usize + 256 * (b[i + 1] as usize)
}

pub(crate) fn copy_range(b: &[u8], start: usize, end: usize) -> (r: Vec<u8>)
    requires
        start <= end <= b@.len(),
    ensures
        r@ == b@.subrange(start as int, end as int),
{
    let mut r: Vec<u8> = Vec::new();
    let mut i = start;
    while i < end
        invariant
            start <= i <= end <= b@.len(),
            r@ == b@.subrange(start as int, i as int),
        decreases end - i,
    {
        r.push(b[i]);
        proof {
            assert(r@ =~= b@.subrange(start as int, i + 1));
        }
        i = i + 1;
    }
    r
}

pub(crate) fn bytes_equal(a: &Vec<u8>, b: &Vec<u8>) -> (r: bool)
    ensures
        r == (a@ == b@),
{
    if a.len() != b.len() {
        return false;
    }
    let mut i: usize = 0;
    while i < a.len()
        invariant
            a@.len() == b@.len(),
            i <= a@.len(),
            forall|k: int| 0 <= k < i ==> a@[k] == b@[k],
        decreases a.len() - i,
    {
        if a[i] != b[i] {
            return false;
        }
        i = i + 1;
    }
    proof {
        assert(a@ =~= b@);
    }
    true
}

fn decode_candidate(b: &[u8], c: &BlockCandidate, h: &Option<Blk3Header>) -> (r: Option<BlockExportData>)
    ensures
        match r {
            Some(x) => decoded_block(b@, c@, header_view(*h)) == Some(x@),
            None => decoded_block(b@, c@, header_view(*h)) is None,
        },
{
    let id = match c.mapped_block_id {
        None => return None,
        Some(id) => id,
    };
    if !str_equals(c.content_verification_status, "content_verified") {
        return None;
    }
    let blen = b.len();
    if blen < 6 || c.scan_offset > (blen - 6) as u64 {
        return None;
    }
    let off = c.scan_offset as usize;
    let hl = read_le_u16(b, off + 4);
    if hl > blen - off {
        return None;
    }
    let hd = match h {
        None => return None,
        Some(hd) => hd,
    };
    if hd.header_len > (blen - off) as u64 {
        return None;
    }
    let ps = off + hd.header_len as usize;
    if hd.comp_len > (blen - ps) as u64 || hd.codec != 1 {
        return None;
    }
    let pe = ps + hd.comp_len as usize;
    let payload = copy_range(b, ps, pe);
    let raw = match zstd_decode_all(payload.as_slice()) {
        None => return None,
        Some(raw) => raw,
    };
    let raw_hash = match &hd.raw_hash {
        Some(expected) => {
            let digest = blake3_hash(raw.as_slice());
            if !bytes_equal(&digest, expected) {
                return None;
            }
            Some(to_hex(expected.as_slice()))
        },
        None => None,
    };
    Some(BlockExportData {
        archive_offset: c.scan_offset,
        block_id: id,
        codec: hd.codec,
        dictionary_dependency_status: c.dictionary_dependency_status,
        raw_hash,
        payload: raw,
    })
}


fn insert_decoded(out: &mut Vec<BlockExportData>, x: BlockExportData, Ghost(m): Ghost<Map<u32, BlockExportView>>)
    requires
        lists_block_map(block_views(old(out)@), m),
    ensures
        lists_block_map(block_views(final(out)@), m.insert(x@.block_id, x@)),
{
    let ghost xv = x@;
    let ghost m2 = m.insert(xv.block_id, xv);
    let ghost before = block_views(out@);
    let mut j: usize = 0;
    while j < out.len() && out[j].block_id < x.block_id
        invariant
            j <= out@.len(),
            before == block_views(out@),
            xv == x@,
            forall|k: int| 0 <= k < j ==> (#[trigger] before[k]).block_id < xv.block_id,
        decreases out.len() - j,
    {
        proof {
            assert(before[j as int] == out@[j as int]@);
        }
        j = j + 1;
    }
    proof {
        if j < out@.len() {
            assert(before[j as int] == out@[j as int]@);
        }
    }
    if j < out.len() && out[j].block_id == x.block_id {
        out.set(j, x);
        proof {
            let s = block_views(out@);
            assert(s =~= before.update(j as int, xv));
            assert forall|id: u32| #[trigger] m2.contains_key(id) implies exists|a: int| 0 <= a < s.len() && (#[trigger] s[a]).block_id == id by {
                if id != xv.block_id {
                    let a = choose|a: int| 0 <= a < before.len() && (#[trigger] before[a]).block_id == id;
                    assert(s[a] == before[a]);
                } else {
                    assert(s[j as int].block_id == id);
                }
            }
            assert forall|a: int| 0 <= a < s.len() implies m2.contains_key((#[trigger] s[a]).block_id) && m2[s[a].block_id] == s[a] by {
                if a != j {
                    assert(s[a] == before[a]);
                    assert(before[a].block_id != xv.block_id);
                }
            }
        }
    } else {
        out.insert(j, x);
        proof {
            let s = block_views(out@);
            assert(s =~= before.insert(j as int, xv));
            assert forall|a: int| 0 <= a < before.len() implies (#[trigger] before[a]).block_id != xv.block_id by {
                if a >= j {
                    assert(before[j as int].block_id > xv.block_id);
                    if a > j {
                        assert(before[j as int].block_id < before[a].block_id);
                    }
                }
            }
            assert forall|id: u32| #[trigger] m2.contains_key(id) implies exists|a: int| 0 <= a < s.len() && (#[trigger] s[a]).block_id == id by {
                if id != xv.block_id {
                    let a = choose|a: int| 0 <= a < before.len() && (#[trigger] before[a]).block_id == id;
                    if a < j {
                        assert(s[a] == before[a]);
                    } else {
                        assert(s[a + 1] == before[a]);
                    }
                } else {
                    assert(s[j as int].block_id == id);
                }
            }
            assert forall|a: int| 0 <= a < s.len() implies m2.contains_key((#[trigger] s[a]).block_id) && m2[s[a].block_id] == s[a] by {
                if a < j {
                    assert(s[a] == before[a]);
                } else if a > j {
                    assert(s[a] == before[a - 1]);
                }
            }
            assert forall|a: int, c: int| 0 <= a < c < s.len() implies (#[trigger] s[a]).block_id < (#[trigger] s[c]).block_id by {
                if c < j {
                    assert(s[a] == before[a] && s[c] == before[c]);
                } else if c == j {
                    assert(s[a] == before[a]);
                } else if a < j {
                    assert(s[a] == before[a] && s[c] == before[c - 1]);
                    assert(before[j as int].block_id > xv.block_id);
                    if c - 1 > j {
                        assert(before[j as int].block_id < before[c - 1].block_id);
                    }
                } else if a == j {
                    assert(s[c] == before[c - 1]);
                    assert(before[j as int].block_id > xv.block_id);
                    if c - 1 > j {
                        assert(before[j as int].block_id < before[c - 1].block_id);
                    }
                } else {
                    assert(s[a] == before[a - 1] && s[c] == before[c - 1]);
                }
            }
        }
    }
}

/// Decodes the payload of every content-verified block candidate whose
/// header `headers[i]` (read from the header window of candidate `i`)
/// confirms a zstd payload with the stated raw hash; one block per block id,
/// a later candidate replacing an earlier one, in ascending block id.
pub fn decode_verified_blocks(
    archive_bytes: &[u8],
    candidates: &Vec<BlockCandidate>,
    headers: &Vec<Option<Blk3Header>>,
) -> (out: Vec<BlockExportData>)
    requires
        headers@.len() == candidates@.len(),
    ensures
        lists_block_map(
            block_views(out@),
            decoded_blocks(archive_bytes@, candidates@.map_values(|c: BlockCandidate| c@), header_views(headers@), candidates@.len() as int),
        ),
{
    let ghost cs = candidates@.map_values(|c: BlockCandidate| c@);
    let ghost hs = header_views(headers@);
    let mut out: Vec<BlockExportData> = Vec::new();
    let mut i: usize = 0;
    while i < candidates.len()
        invariant
            i <= candidates@.len(),
            headers@.len() == candidates@.len(),
            cs == candidates@.map_values(|c: BlockCandidate| c@),
            hs == header_views(headers@),
            lists_block_map(block_views(out@), decoded_blocks(archive_bytes@, cs, hs, i as int)),
        decreases candidates.len() - i,
    {
        let ghost m = decoded_blocks(archive_bytes@, cs, hs, i as int);
        proof {
            assert(cs[i as int] == candidates@[i as int]@);
            assert(hs[i as int] == header_view(headers@[i as int]));
        }
        match decode_candidate(archive_bytes, &candidates[i], &headers[i]) {
            None => {},
            Some(x) => {
                insert_decoded(&mut out, x, Ghost(m));
            },
        }
        i = i + 1;
    }
    out
}


/// The first of the blocks `s[k..]` with block id `id`.
pub open spec fn find_block(s: Seq<BlockExportView>, id: u32, k: int) -> Option<BlockExportView>
    decreases s.len() - k,
{
    if k < 0 || k >= s.len() {
        None
    } else if s[k].block_id == id {
        Some(s[k])
    } else {
        find_block(s, id, k + 1)
    }
}

/// The bytes extent `e` names: the range at its offset of the decoded
/// content of its block, if that block was decoded and holds the range.
pub open spec fn extent_payload(blocks: Seq<BlockExportView>, e: Extent) -> Option<Seq<u8>> {
    match find_block(blocks, e.block_id, 0) {
        None => None,
        Some(b) => {
            if e.offset + e.len > b.payload.len() {
                None
            } else {
                Some(b.payload.subrange(e.offset as int, e.offset + e.len))
            }
        },
    }
}

/// The extents among the first `n` of `es` whose bytes were recovered, with
/// their index and bytes.
pub open spec fn verified_extents(blocks: Seq<BlockExportView>, es: Seq<Extent>, n: int) -> Seq<(int, Extent, Seq<u8>)>
    decreases n,
{
    if n <= 0 {
        seq![]
    } else {
        let prev = verified_extents(blocks, es, n - 1);
        match extent_payload(blocks, es[n - 1]) {
            Some(p) => prev.push((n - 1, es[n - 1], p)),
            None => prev,
        }
    }
}

/// The extents ordered by offset, those with equal offsets in their order.
pub open spec fn offset_sorted_extents(es: Seq<Extent>) -> Seq<Extent> {
    insertion_sort_by_key(es.map_values(|e: Extent| (e.offset, e))).map_values(|q: (u64, Extent)| q.1)
}

/// 64-bit addition that stops at the largest value.
pub open spec fn sat_add(a: u64, b: u64) -> u64 {
    if a + b > u64::MAX { u64::MAX } else { (a + b) as u64 }
}

/// The saturating sum of the lengths of the first `n` extents.
pub open spec fn sat_len_sum(es: Seq<Extent>, n: int) -> u64
    decreases n,
{
    if n <= 0 { 0 } else { sat_add(sat_len_sum(es, n - 1), es[n - 1].len) }
}

/// Each extent starts where the previous one ends (by saturating addition).
pub open spec fn contiguous_extents(es: Seq<Extent>) -> bool {
    forall|k: int, l: int| #![trigger es[k], es[l]] 0 <= k && l == k + 1 && l < es.len() ==> sat_add(es[k].offset, es[k].len) == es[l].offset
}

/// A file is recovered in full: it is salvageable, and its extents (by
/// offset) are all recovered, start at 0, are contiguous and add up to its size.
pub open spec fn is_full_recovery(p: FilePlanView, es: Seq<Extent>, recovered: int) -> bool {
    &&& p.status == PlanStatus::Salvageable
    &&& es.len() > 0
    &&& recovered == es.len()
    &&& es[0].offset == 0
    &&& contiguous_extents(es)
    &&& sat_len_sum(es, es.len() as int) == p.file_size
}

/// The bytes of the first `n` recovered extents, one after the other.
pub open spec fn concat_payloads(ve: Seq<(int, Extent, Seq<u8>)>, n: int) -> Seq<u8>
    decreases n,
{
    if n <= 0 { seq![] } else { concat_payloads(ve, n - 1) + ve[n - 1].2 }
}

/// The export directory of a file.
pub open spec fn file_dir(path: Seq<char>) -> Seq<char> {
    "files/"@ + spec_sanitize_rel_path(path)
}

/// One recovered extent of a file, with its artifact names.
pub struct ExtentExport {
    pub extent_index: usize,
    pub extent: Extent,
    pub payload: Vec<u8>,
    pub bin_rel: String,
    pub json_rel: String,
}

/// What is exported of one planned file.
pub struct FileExport {
    pub file_path: String,
    pub extents: Vec<ExtentExport>,
    pub complete_file: Option<String>,
    pub complete_payload: Vec<u8>,
}

/// `x` exports the recovered extent `v` of the file exported under `dir`.
pub open spec fn is_extent_export(x: ExtentExport, dir: Seq<char>, v: (int, Extent, Seq<u8>)) -> bool {
    &&& x.extent_index == v.0
    &&& x.extent == v.1
    &&& x.payload@ == v.2
    &&& x.bin_rel@ == dir + "/extent_"@ + decimal(v.0 as nat) + ".bin"@
    &&& x.json_rel@ == dir + "/extent_"@ + decimal(v.0 as nat) + ".json"@
}

/// `f` is what is exported of the plan `p` given the decoded blocks.
pub open spec fn is_file_export(f: FileExport, blocks: Seq<BlockExportView>, p: FilePlanView) -> bool {
    let es = offset_sorted_extents(p.extents);
    let ve = verified_extents(blocks, es, es.len() as int);
    let dir = file_dir(p.file_path);
    &&& f.file_path@ == p.file_path
    &&& f.extents@.len() == ve.len()
    &&& forall|k: int| 0 <= k < ve.len() ==> is_extent_export(#[trigger] f.extents@[k], dir, ve[k])
    &&& if is_full_recovery(p, es, ve.len() as int) {
        &&& f.complete_file is Some
        &&& f.complete_file->0@ == dir + "/file_verified.bin"@
        &&& f.complete_payload@ == concat_payloads(ve, ve.len() as int)
    } else {
        &&& f.complete_file is None
        &&& f.complete_payload@.len() == 0
    }
}

fn find_block_index(blocks: &Vec<BlockExportData>, id: u32) -> (r: Option<usize>)
    ensures
        match r {
            Some(k) => k < blocks@.len() && find_block(block_views(blocks@), id, 0) == Some(blocks@[k as int]@),
            None => find_block(block_views(blocks@), id, 0) is None,
        },
{
    let ghost vs = block_views(blocks@);
    let mut j: usize = 0;
    while j < blocks.len()
        invariant
            j <= blocks@.len(),
            vs == block_views(blocks@),
            find_block(vs, id, 0) == find_block(vs, id, j as int),
        decreases blocks.len() - j,
    {
        proof {
            assert(vs[j as int] == blocks@[j as int]@);
        }
        if blocks[j].block_id == id {
            return Some(j);
        }
        j = j + 1;
    }
    None
}

fn offset_sort_extents(es: &Vec<Extent>) -> (r: Vec<Extent>)
    ensures
        r@ == offset_sorted_extents(es@),
{
    let mut keyed: Vec<(u64, Extent)> = Vec::new();
    let mut i: usize = 0;
    while i < es.len()
        invariant
            i <= es@.len(),
            keyed@ == es@.take(i as int).map_values(|e: Extent| (e.offset, e)),
        decreases es.len() - i,
    {
        keyed.push((es[i].offset, es[i]));
        proof {
            assert(keyed@ =~= es@.take(i + 1).map_values(|e: Extent| (e.offset, e)));
        }
        i = i + 1;
    }
    proof {
        assert(es@.take(es@.len() as int) =~= es@);
    }
    let sorted = sort_by_u64_key(keyed);
    let mut r: Vec<Extent> = Vec::new();
    let mut k: usize = 0;
    while k < sorted.len()
        invariant
            k <= sorted@.len(),
            r@ == sorted@.take(k as int).map_values(|q: (u64, Extent)| q.1),
        decreases sorted.len() - k,
    {
        r.push(sorted[k].1);
        proof {
            assert(r@ =~= sorted@.take(k + 1).map_values(|q: (u64, Extent)| q.1));
        }
        k = k + 1;
    }
    proof {
        assert(sorted@.take(sorted@.len() as int) =~= sorted@);
    }
    r
}


fn extent_name(dir: &String, index: usize, suffix: &str) -> (r: String)
    ensures
        r@ == dir@ + "/extent_"@ + decimal(index as nat) + suffix@,
{
    let mut r = String::new();
    push_str(&mut r, dir.as_str());
    push_str(&mut r, "/extent_");
    let d = u64_to_decimal(index as u64);
    push_str(&mut r, d.as_str());
    push_str(&mut r, suffix);
    r
}

fn recovered_extents(blocks: &Vec<BlockExportData>, es: &Vec<Extent>, dir: &String) -> (xs: Vec<ExtentExport>)
    ensures
        xs@.len() == verified_extents(block_views(blocks@), es@, es@.len() as int).len(),
        forall|k: int| 0 <= k < xs@.len() ==> is_extent_export(
            #[trigger] xs@[k],
            dir@,
            verified_extents(block_views(blocks@), es@, es@.len() as int)[k],
        ),
{
    let ghost bv = block_views(blocks@);
    let mut xs: Vec<ExtentExport> = Vec::new();
    let mut i: usize = 0;
    while i < es.len()
        invariant
            i <= es@.len(),
            bv == block_views(blocks@),
            xs@.len() == verified_extents(bv, es@, i as int).len(),
            forall|k: int| 0 <= k < xs@.len() ==> is_extent_export(#[trigger] xs@[k], dir@, verified_extents(bv, es@, i as int)[k]),
        decreases es.len() - i,
    {
        let e = es[i];
        let ghost prev = verified_extents(bv, es@, i as int);
        match find_block_index(blocks, e.block_id) {
            None => {},
            Some(k) => {
                let payload = &blocks[k].payload;
                if e.offset <= payload.len() as u64 && e.len <= payload.len() as u64 - e.offset {
                    let start = e.offset as usize;
                    let end = start + e.len as usize;
                    let bytes = copy_range(payload.as_slice(), start, end);
                    let x = ExtentExport {
                        extent_index: i,
                        extent: e,
                        payload: bytes,
                        bin_rel: extent_name(dir, i, ".bin"),
                        json_rel: extent_name(dir, i, ".json"),
                    };
                    xs.push(x);
                    proof {
                        assert(extent_payload(bv, e) == Some(blocks@[k as int].payload@.subrange(start as int, end as int)));
                        let now = verified_extents(bv, es@, i + 1);
                        assert(now == prev.push((i as int, e, blocks@[k as int].payload@.subrange(start as int, end as int))));
                        assert forall|a: int| 0 <= a < xs@.len() implies is_extent_export(#[trigger] xs@[a], dir@, now[a]) by {
                            if a < prev.len() {
                                assert(now[a] == prev[a]);
                            }
                        }
                    }
                }
            },
        }
        i = i + 1;
    }
    xs
}

fn full_recovery(p: &FilePlan, es: &Vec<Extent>, recovered: usize) -> (r: bool)
    ensures
        r == is_full_recovery(p@, es@, recovered as int),
{
    let salvageable = match p.status {
        PlanStatus::Salvageable => true,
        _ => false,
    };
    if !salvageable || es.len() == 0 || recovered != es.len() || es[0].offset != 0 {
        return false;
    }
    let mut k: usize = 0;
    while k + 1 < es.len()
        invariant
            k < es@.len(),
            forall|a: int, b: int| #![trigger es@[a], es@[b]] 0 <= a && b == a + 1 && b <= k ==> sat_add(es@[a].offset, es@[a].len) == es@[b].offset,
        decreases es.len() - k,
    {
        if es[k].offset.saturating_add(es[k].len) != es[k + 1].offset {
            return false;
        }
        k = k + 1;
    }
    proof {
        assert(contiguous_extents(es@));
    }
    let mut total: u64 = 0;
    let mut j: usize = 0;
    while j < es.len()
        invariant
            j <= es@.len(),
            total == sat_len_sum(es@, j as int),
        decreases es.len() - j,
    {
        total = total.saturating_add(es[j].len);
        j = j + 1;
    }
    total == p.file_size
}

/// Plans what is exported of one file: its recovered extents (by offset)
/// and, when it is recovered in full, the file itself.
pub fn plan_file_export(blocks: &Vec<BlockExportData>, p: &FilePlan) -> (f: FileExport)
    ensures
        is_file_export(f, block_views(blocks@), p@),
{
    let es = offset_sort_extents(&p.extents);
    let dir_tail = sanitize_rel_path(p.file_path.as_str());
    let mut dir = String::new();
    push_str(&mut dir, "files/");
    push_str(&mut dir, dir_tail.as_str());
    let xs = recovered_extents(blocks, &es, &dir);
    let ghost ve = verified_extents(block_views(blocks@), es@, es@.len() as int);
    let full = full_recovery(p, &es, xs.len());
    let mut buf: Vec<u8> = Vec::new();
    let mut complete: Option<String> = None;
    if full {
        let mut k: usize = 0;
        while k < xs.len()
            invariant
                k <= xs@.len(),
                xs@.len() == ve.len(),
                forall|a: int| 0 <= a < xs@.len() ==> is_extent_export(#[trigger] xs@[a], dir@, ve[a]),
                buf@ == concat_payloads(ve, k as int),
            decreases xs.len() - k,
        {
            let mut part = copy_range(xs[k].payload.as_slice(), 0, xs[k].payload.len());
            proof {
                assert(xs@[k as int].payload@.subrange(0, xs@[k as int].payload@.len() as int) =~= xs@[k as int].payload@);
                assert(is_extent_export(xs@[k as int], dir@, ve[k as int]));
            }
            buf.append(&mut part);
            k = k + 1;
        }
        let mut name = String::new();
        push_str(&mut name, dir.as_str());
        push_str(&mut name, "/file_verified.bin");
        complete = Some(name);
    }
    let mut path = String::new();
    push_str(&mut path, p.file_path.as_str());
    FileExport { file_path: path, extents: xs, complete_file: complete, complete_payload: buf }
}


/// A decoded block with the names of its artifacts.
pub struct BlockArtifact {
    pub block: BlockExportData,
    pub bin_rel: String,
    pub json_rel: String,
}

/// Everything the salvage tool exports: the verified blocks by archive
/// offset and the files by path.
pub struct ExportPlan {
    pub blocks: Vec<BlockArtifact>,
    pub files: Vec<FileExport>,
}

/// The artifact name stem of a block.
pub open spec fn block_stem(b: BlockExportView) -> Seq<char> {
    "blocks/block_"@ + decimal(b.archive_offset as nat) + "_"@ + decimal(b.block_id as nat)
}

/// The blocks keyed by archive offset, in their order.
pub open spec fn offset_keyed(s: Seq<BlockExportData>) -> Seq<(u64, BlockExportData)> {
    s.map_values(|b: BlockExportData| (b.archive_offset, b))
}

/// `a` exports block `b`.
pub open spec fn is_block_artifact(a: BlockArtifact, b: BlockExportData) -> bool {
    &&& a.block == b
    &&& a.bin_rel@ == block_stem(b@) + ".bin"@
    &&& a.json_rel@ == block_stem(b@) + ".json"@
}

fn block_artifact(b: BlockExportData) -> (a: BlockArtifact)
    ensures
        is_block_artifact(a, b),
{
    let mut stem = String::new();
    push_str(&mut stem, "blocks/block_");
    let off = u64_to_decimal(b.archive_offset);
    push_str(&mut stem, off.as_str());
    push_str(&mut stem, "_");
    let id = u64_to_decimal(b.block_id as u64);
    push_str(&mut stem, id.as_str());
    let mut bin = String::new();
    push_str(&mut bin, stem.as_str());
    push_str(&mut bin, ".bin");
    let mut json = String::new();
    push_str(&mut json, stem.as_str());
    push_str(&mut json, ".json");
    BlockArtifact { block: b, bin_rel: bin, json_rel: json }
}

/// Plans the export: the decoded blocks ordered by archive offset (equal
/// offsets in block-id order) and, for each planned file in path order, its
/// recovered extents and whether the whole file is recovered.
pub fn export_plan(verified: Vec<BlockExportData>, file_plans: Vec<FilePlan>) -> (p: ExportPlan)
    ensures
        p.blocks@.len() == verified@.len(),
        forall|i: int| 0 <= i < p.blocks@.len() ==> is_block_artifact(
            #[trigger] p.blocks@[i],
            insertion_sort_by_key(offset_keyed(verified@))[i].1,
        ),
        p.files@.len() == file_plans@.len(),
        forall|i: int| 0 <= i < p.files@.len() ==> is_file_export(
            #[trigger] p.files@[i],
            block_views(verified@),
            sort_by_path(plan_views(file_plans@))[i],
        ),
{
    let sorted_plans = sort_plans_by_path(file_plans);
    let ghost bv = block_views(verified@);
    let mut files: Vec<FileExport> = Vec::new();
    let mut i: usize = 0;
    while i < sorted_plans.len()
        invariant
            i <= sorted_plans@.len(),
            bv == block_views(verified@),
            files@.len() == i,
            forall|a: int| 0 <= a < i ==> is_file_export(#[trigger] files@[a], bv, sorted_plans@[a]@),
        decreases sorted_plans.len() - i,
    {
        files.push(plan_file_export(&verified, &sorted_plans[i]));
        i = i + 1;
    }
    proof {
        let ps = plan_views(sorted_plans@);
        vstd::seq_lib::to_multiset_len(ps);
        vstd::seq_lib::to_multiset_len(plan_views(file_plans@));
        assert forall|a: int| 0 <= a < ps.len() implies is_file_export(#[trigger] files@[a], bv, ps[a]) by {
            assert(ps[a] == sorted_plans@[a]@);
        }
    }
    let mut keyed: Vec<(u64, BlockExportData)> = Vec::new();
    let mut rest = verified;
    let ghost all = rest@;
    let ghost mut n: int = 0;
    while rest.len() > 0
        invariant
            0 <= n <= all.len(),
            rest@ == all.subrange(n, all.len() as int),
            keyed@ == offset_keyed(all.take(n)),
        decreases rest.len(),
    {
        let b = rest.remove(0);
        proof {
            assert(b == all[n]);
        }
        keyed.push((b.archive_offset, b));
        proof {
            assert(keyed@ =~= offset_keyed(all.take(n + 1)));
            n = n + 1;
            assert(rest@ =~= all.subrange(n, all.len() as int));
        }
    }
    proof {
        assert(all.take(n) =~= all);
    }
    let sorted = sort_by_u64_key(keyed);
    proof {
        lemma_insertion_sort_len(offset_keyed(all));
    }
    let mut blocks: Vec<BlockArtifact> = Vec::new();
    let mut srest = sorted;
    let ghost sall = srest@;
    let ghost mut m: int = 0;
    while srest.len() > 0
        invariant
            0 <= m <= sall.len(),
            srest@ == sall.subrange(m, sall.len() as int),
            blocks@.len() == m,
            forall|a: int| 0 <= a < m ==> is_block_artifact(#[trigger] blocks@[a], sall[a].1),
        decreases srest.len(),
    {
        let (_, b) = srest.remove(0);
        proof {
            assert(b == sall[m].1);
        }
        blocks.push(block_artifact(b));
        proof {
            m = m + 1;
            assert(srest@ =~= sall.subrange(m, sall.len() as int));
        }
    }
    ExportPlan { blocks, files }
}

proof fn lemma_insertion_sort_len<T>(s: Seq<(u64, T)>)
    ensures
        insertion_sort_by_key(s).len() == s.len(),
    decreases s.len(),
{
    if s.len() > 0 {
        lemma_insertion_sort_len(s.drop_last());
        lemma_insert_by_key_len(insertion_sort_by_key(s.drop_last()), s.last());
    }
}

proof fn lemma_insert_by_key_len<T>(s: Seq<(u64, T)>, x: (u64, T))
    ensures
        insert_by_key(s, x).len() == s.len() + 1,
    decreases s.len(),
{
    if s.len() > 0 && s.last().0 > x.0 {
        lemma_insert_by_key_len(s.drop_last(), x);
    }
}


/// The relative paths of everything exported, by kind.
pub struct ExportedArtifacts {
    pub exported_block_artifacts: Vec<String>,
    pub exported_fragment_artifacts: Vec<String>,
    pub exported_complete_file_artifacts: Vec<String>,
}

/// The views of strings.
pub open spec fn string_views(v: Seq<String>) -> Seq<Seq<char>> {
    v.map_values(|x: String| x@)
}

/// The block artifact names: each block's `.bin` then its `.json`.
pub open spec fn block_artifact_names(bs: Seq<BlockArtifact>) -> Seq<Seq<char>>
    decreases bs.len(),
{
    if bs.len() == 0 {
        seq![]
    } else {
        block_artifact_names(bs.drop_last()) + seq![bs.last().bin_rel@, bs.last().json_rel@]
    }
}

/// The extent artifact names of one file: each extent's `.bin` then its `.json`.
pub open spec fn extent_artifact_names(xs: Seq<ExtentExport>) -> Seq<Seq<char>>
    decreases xs.len(),
{
    if xs.len() == 0 {
        seq![]
    } else {
        extent_artifact_names(xs.drop_last()) + seq![xs.last().bin_rel@, xs.last().json_rel@]
    }
}

/// The extent artifact names of all files, file by file.
pub open spec fn fragment_artifact_names(fs: Seq<FileExport>) -> Seq<Seq<char>>
    decreases fs.len(),
{
    if fs.len() == 0 {
        seq![]
    } else {
        fragment_artifact_names(fs.drop_last()) + extent_artifact_names(fs.last().extents@)
    }
}

/// The names of the files recovered in full, in file order.
pub open spec fn complete_file_names(fs: Seq<FileExport>) -> Seq<Seq<char>>
    decreases fs.len(),
{
    if fs.len() == 0 {
        seq![]
    } else {
        complete_file_names(fs.drop_last()) + match fs.last().complete_file {
            Some(n) => seq![n@],
            None => seq![],
        }
    }
}

fn push_copy(v: &mut Vec<String>, s: &String)
    ensures
        string_views(final(v)@) == string_views(old(v)@).push(s@),
{
    let mut c = String::new();
    push_str(&mut c, s.as_str());
    v.push(c);
    proof {
        assert(string_views(v@) =~= string_views(old(v)@).push(s@));
    }
}

/// Lists the relative paths of the planned artifacts: block artifacts,
/// extent artifacts and complete files.
pub fn exported_artifacts(plan: &ExportPlan) -> (r: ExportedArtifacts)
    ensures
        string_views(r.exported_block_artifacts@) == block_artifact_names(plan.blocks@),
        string_views(r.exported_fragment_artifacts@) == fragment_artifact_names(plan.files@),
        string_views(r.exported_complete_file_artifacts@) == complete_file_names(plan.files@),
{
    let mut blocks: Vec<String> = Vec::new();
    let mut i: usize = 0;
    while i < plan.blocks.len()
        invariant
            i <= plan.blocks@.len(),
            string_views(blocks@) == block_artifact_names(plan.blocks@.take(i as int)),
        decreases plan.blocks.len() - i,
    {
        push_copy(&mut blocks, &plan.blocks[i].bin_rel);
        push_copy(&mut blocks, &plan.blocks[i].json_rel);
        proof {
            assert(plan.blocks@.take(i + 1).drop_last() =~= plan.blocks@.take(i as int));
            assert(string_views(blocks@) =~= block_artifact_names(plan.blocks@.take(i + 1)));
        }
        i = i + 1;
    }
    let mut fragments: Vec<String> = Vec::new();
    let mut complete: Vec<String> = Vec::new();
    let mut f: usize = 0;
    while f < plan.files.len()
        invariant
            f <= plan.files@.len(),
            string_views(fragments@) == fragment_artifact_names(plan.files@.take(f as int)),
            string_views(complete@) == complete_file_names(plan.files@.take(f as int)),
        decreases plan.files.len() - f,
    {
        let file = &plan.files[f];
        let ghost head = string_views(fragments@);
        let mut k: usize = 0;
        while k < file.extents.len()
            invariant
                k <= file.extents@.len(),
                string_views(fragments@) == head + extent_artifact_names(file.extents@.take(k as int)),
            decreases file.extents.len() - k,
        {
            push_copy(&mut fragments, &file.extents[k].bin_rel);
            push_copy(&mut fragments, &file.extents[k].json_rel);
            proof {
                assert(file.extents@.take(k + 1).drop_last() =~= file.extents@.take(k as int));
                assert(string_views(fragments@) =~= head + extent_artifact_names(file.extents@.take(k + 1)));
            }
            k = k + 1;
        }
        let ghost chead = string_views(complete@);
        match &file.complete_file {
            Some(n) => {
                push_copy(&mut complete, n);
            },
            None => {},
        }
        proof {
            assert(file.extents@.take(file.extents@.len() as int) =~= file.extents@);
            assert(plan.files@.take(f + 1).drop_last() =~= plan.files@.take(f as int));
            assert(plan.files@.take(f + 1).last() == *file);
            assert(string_views(fragments@) =~= fragment_artifact_names(plan.files@.take(f + 1)));
            assert(string_views(complete@) =~= complete_file_names(plan.files@.take(f + 1)));
        }
        f = f + 1;
    }
    proof {
        assert(plan.blocks@.take(plan.blocks@.len() as int) =~= plan.blocks@);
        assert(plan.files@.take(plan.files@.len() as int) =~= plan.files@);
    }
    ExportedArtifacts {
        exported_block_artifacts: blocks,
        exported_fragment_artifacts: fragments,
        exported_complete_file_artifacts: complete,
    }
}


/// The exact sum of the lengths of the first `n` extents.
pub open spec fn exact_len_sum(es: Seq<Extent>, n: int) -> int
    decreases n,
{
    if n <= 0 { 0 } else { exact_len_sum(es, n - 1) + es[n - 1].len }
}

proof fn lemma_verified_extents_len(blocks: Seq<BlockExportView>, es: Seq<Extent>, n: int)
    requires
        0 <= n <= es.len(),
    ensures
        verified_extents(blocks, es, n).len() <= n,
        verified_extents(blocks, es, n).len() == n ==> forall|k: int| 0 <= k < n ==> {
            &&& (#[trigger] verified_extents(blocks, es, n)[k]).1 == es[k]
            &&& verified_extents(blocks, es, n)[k].2.len() == es[k].len
        },
    decreases n,
{
    if n > 0 {
        lemma_verified_extents_len(blocks, es, n - 1);
        let prev = verified_extents(blocks, es, n - 1);
        let cur = verified_extents(blocks, es, n);
        if cur.len() == n {
            assert(extent_payload(blocks, es[n - 1]) is Some);
            assert forall|k: int| 0 <= k < n implies (#[trigger] cur[k]).1 == es[k] && cur[k].2.len() == es[k].len by {
                if k < n - 1 {
                    assert(cur[k] == prev[k]);
                }
            }
        }
    }
}

proof fn lemma_concat_len(blocks: Seq<BlockExportView>, es: Seq<Extent>, ve: Seq<(int, Extent, Seq<u8>)>, n: int)
    requires
        0 <= n <= ve.len(),
        ve.len() <= es.len(),
        forall|k: int| 0 <= k < ve.len() ==> (#[trigger] ve[k]).1 == es[k] && ve[k].2.len() == es[k].len,
    ensures
        concat_payloads(ve, n).len() == exact_len_sum(es, n),
    decreases n,
{
    if n > 0 {
        lemma_concat_len(blocks, es, ve, n - 1);
    }
}

proof fn lemma_sat_sum_exact(es: Seq<Extent>, n: int)
    requires
        0 <= n <= es.len(),
        exact_len_sum(es, n) <= u64::MAX,
    ensures
        sat_len_sum(es, n) == exact_len_sum(es, n),
    decreases n,
{
    if n > 0 {
        lemma_sat_sum_exact(es, n - 1);
    }
}

/// A file exported in full holds exactly its stated size: the bytes of its
/// recovered extents, one after the other, are as many as the file size
/// (when the extent lengths add up within 64 bits).
pub proof fn law_complete_file_has_file_size(blocks: Seq<BlockExportView>, p: FilePlanView)
    requires
        is_full_recovery(
            p,
            offset_sorted_extents(p.extents),
            verified_extents(blocks, offset_sorted_extents(p.extents), offset_sorted_extents(p.extents).len() as int).len() as int,
        ),
        exact_len_sum(offset_sorted_extents(p.extents), offset_sorted_extents(p.extents).len() as int) <= u64::MAX,
    ensures
        ({
            let es = offset_sorted_extents(p.extents);
            let ve = verified_extents(blocks, es, es.len() as int);
            concat_payloads(ve, ve.len() as int).len() == p.file_size
        }),
{
    let es = offset_sorted_extents(p.extents);
    let n = es.len() as int;
    let ve = verified_extents(blocks, es, n);
    lemma_verified_extents_len(blocks, es, n);
    lemma_concat_len(blocks, es, ve, n);
    lemma_sat_sum_exact(es, n);
}

} // verus!
