//! The metadata records carried in an archive's blocks: which block
//! payloads hold verified metadata, and which parsed records the planner
//! may use.
use vstd::prelude::*;
use std::collections::BTreeMap;
use crate::digest::{blake3_digest, zstd_decoded, blake3_hash, zstd_decode_all};
use crate::json::{JsonValue, json_get, get_u64};
use super::types::BlockVerification;
use super::candidates::{Blk3Header, Blk3HeaderView, magic_offsets, blk3_magic_offsets, header_view};
use super::export::{le_u16_at, header_views, copy_range, bytes_equal};

verus! {

/// The decoded payload of the block at magic offset `off`, when it is a
/// metadata payload that verifies: the header window lies in the bytes, the
/// header `h` parsed, the payload lies in the bytes, the codec is zstd (1),
/// the header states a raw hash, the payload decodes, and the decoded bytes
/// have the stated raw length and raw hash.
pub open spec fn verified_payload_at(b: Seq<u8>, off: int, h: Option<Blk3HeaderView>) -> Option<Seq<u8>> {
    if off + 6 > b.len() || off + le_u16_at(b, off + 4) > b.len() {
        None
    } else {
        match h {
            None => None,
            Some(hd) => {
                let ps = off + hd.header_len;
                let pe = ps + hd.comp_len;
                if pe > b.len() || hd.codec != 1 || hd.raw_hash is None {
                    None
                } else {
                    match zstd_decoded(b.subrange(ps, pe)) {
                        None => None,
                        Some(raw) => {
                            if raw.len() != hd.raw_len || blake3_digest(raw) != hd.raw_hash->0 {
                                None
                            } else {
                                Some(raw)
                            }
                        },
                    }
                }
            },
        }
    }
}

/// The verified metadata payloads at the first `n` magic offsets, in order.
pub open spec fn verified_payloads(b: Seq<u8>, offs: Seq<usize>, hs: Seq<Option<Blk3HeaderView>>, n: int) -> Seq<Seq<u8>>
    decreases n,
{
    if n <= 0 {
        seq![]
    } else {
        let prev = verified_payloads(b, offs, hs, n - 1);
        match verified_payload_at(b, offs[n - 1] as int, hs[n - 1]) {
            Some(raw) => prev.push(raw),
            None => prev,
        }
    }
}

/// The views of byte vectors.
pub open spec fn byte_views(v: Seq<Vec<u8>>) -> Seq<Seq<u8>> {
    v.map_values(|x: Vec<u8>| x@)
}

fn verified_payload(b: &[u8], off: usize, h: &Option<Blk3Header>) -> (r: Option<Vec<u8>>)
    requires
        off <= b@.len(),
    ensures
        match r {
            Some(v) => verified_payload_at(b@, off as int, header_view(*h)) == Some(v@),
            None => verified_payload_at(b@, off as int, header_view(*h)) is None,
        },
{
    let blen = b.len();
    if blen - off < 6 {
        return None;
    }
    let hl = b[off + 4] as usize + 256 * (b[off + 5] as usize);
    if hl > blen - off {
        return None;
    }
    let hd = match h {
        None => return None,
        Some(hd) => hd,
    };
    if hd.header_len > (blen - off) as u64 {
        return None;
    }
    let ps = off + hd.header_len as usize;
    if hd.comp_len > (blen - ps) as u64 || hd.codec != 1 {
        return None;
    }
    let expected = match &hd.raw_hash {
        None => return None,
        Some(e) => e,
    };
    let pe = ps + hd.comp_len as usize;
    let payload = copy_range(b, ps, pe);
    let raw = match zstd_decode_all(payload.as_slice()) {
        None => return None,
        Some(raw) => raw,
    };
    if raw.len() as u64 != hd.raw_len {
        return None;
    }
    let digest = blake3_hash(raw.as_slice());
    if !bytes_equal(&digest, expected) {
        return None;
    }
    Some(raw)
}

/// The decoded payloads of the blocks whose metadata verifies, in archive
/// order; `headers[i]` is what the header parser made of the header window
/// at the `i`-th occurrence of the block magic.
pub fn verified_metadata_payloads(bytes: &[u8], headers: &Vec<Option<Blk3Header>>) -> (r: Vec<Vec<u8>>)
    requires
        headers@.len() == magic_offsets(bytes@, bytes@.len() as int).len(),
    ensures
        byte_views(r@) == verified_payloads(
            bytes@,
            magic_offsets(bytes@, bytes@.len() as int),
            header_views(headers@),
            headers@.len() as int,
        ),
{
    let offsets = blk3_magic_offsets(bytes);
    let ghost hs = header_views(headers@);
    let blen = bytes.len();
    proof {
        assert(bytes@.len() == blen);
        crate::salvage::candidates::lemma_magic_offsets_valid(bytes@, bytes@.len() as int);
    }
    let mut out: Vec<Vec<u8>> = Vec::new();
    let mut i: usize = 0;
    while i < offsets.len()
        invariant
            i <= offsets@.len(),
            offsets@ == magic_offsets(bytes@, bytes@.len() as int),
            headers@.len() == offsets@.len(),
            hs == header_views(headers@),
            forall|k: int| 0 <= k < offsets@.len() ==> (#[trigger] offsets@[k]) + 4 <= bytes@.len(),
            byte_views(out@) == verified_payloads(bytes@, offsets@, hs, i as int),
        decreases offsets.len() - i,
    {
        proof {
            assert(hs[i as int] == header_view(headers@[i as int]));
            assert(offsets@[i as int] + 4 <= bytes@.len());
        }
        match verified_payload(bytes, offsets[i], &headers[i]) {
            Some(raw) => {
                let ghost before = out@;
                out.push(raw);
                proof {
                    assert(byte_views(out@) =~= byte_views(before).push(raw@));
                }
            },
            None => {},
        }
        i = i + 1;
    }
    out
}

/// The block a parsed record names (`record.block_id`), when it fits in 32 bits.
pub open spec fn record_block_id(v: JsonValue) -> Option<u32> {
    match json_get(v, "record"@) {
        Some(r) => match get_u64(r, "block_id"@) {
            Some(id) => if id <= u32::MAX { Some(id as u32) } else { None },
            None => None,
        },
        None => None,
    }
}

/// A record may be used unless it names an indexed block whose content did
/// not verify.
pub open spec fn record_usable(v: JsonValue, bv: Map<u32, BlockVerification>) -> bool {
    match record_block_id(v) {
        Some(id) => !(bv.contains_key(id) && !bv[id].content_verified),
        None => true,
    }
}

/// The usable records among the first `n` parsed payloads (`None` where a
/// payload is not JSON), in order.
pub open spec fn usable_records(vs: Seq<Option<JsonValue>>, bv: Map<u32, BlockVerification>, n: int) -> Seq<JsonValue>
    decreases n,
{
    if n <= 0 {
        seq![]
    } else {
        let prev = usable_records(vs, bv, n - 1);
        match vs[n - 1] {
            Some(v) => if record_usable(v, bv) { prev.push(v) } else { prev },
            None => prev,
        }
    }
}

fn record_is_usable(v: &JsonValue, bv: &BTreeMap<u32, BlockVerification>) -> (r: bool)
    ensures
        r == record_usable(*v, bv@),
{
    let rec = match v.get("record") {
        None => return true,
        Some(rec) => rec,
    };
    let id = match rec.get_u64("block_id") {
        None => return true,
        Some(id) => id,
    };
    if id > u32::MAX as u64 {
        return true;
    }
    match bv.get(&(id as u32)) {
        Some(ver) => ver.content_verified,
        None => true,
    }
}

/// Keeps the parsed metadata records the planner may use: each payload
/// that parsed as JSON (`Some`), unless its `record.block_id` names an
/// indexed block whose content did not verify.
pub fn parse_experimental_metadata_records(
    parsed: Vec<Option<JsonValue>>,
    block_verification: &BTreeMap<u32, BlockVerification>,
) -> (r: Vec<JsonValue>)
    ensures
        r@ == usable_records(parsed@, block_verification@, parsed@.len() as int),
{
    let ghost all = parsed@;
    let mut rest = parsed;
    let mut out: Vec<JsonValue> = Vec::new();
    let ghost mut i: int = 0;
    while rest.len() > 0
        invariant
            0 <= i <= all.len(),
            rest@ == all.subrange(i, all.len() as int),
            out@ == usable_records(all, block_verification@, i),
        decreases rest.len(),
    {
        let x = rest.remove(0);
        proof {
            assert(x == all[i]);
        }
        match x {
            Some(v) => {
                if record_is_usable(&v, block_verification) {
                    out.push(v);
                }
            },
            None => {},
        }
        proof {
            i = i + 1;
            assert(rest@ =~= all.subrange(i, all.len() as int));
        }
    }
    out
}

} // verus!
