//! The metadata frames of an archive, and the corruptions that target the
//! path dictionaries stored in them.
use vstd::prelude::*;
use vstd::string::*;
use crate::digest::{zstd_decoded, zstd_decode_all, digest_hex_of_str, path_digest_hex, fingerprint, fingerprint_hex};
use crate::json::{JsonValue, get_str, get_u64, get_array, json_get, set_member, split_member, rejoin_member, lemma_rejoin, SplitMember};
use crate::text::{str_equals, push_str};
use crate::salvage::candidates::{Blk3Header, Blk3HeaderView, magic_at, magic_offsets, blk3_magic_offsets, is_magic_at};
use crate::salvage::export::{header_views, copy_range};

verus! {

/// A metadata frame: where its block and payload lie, and its decoded payload.
pub struct MetaFrame {
    pub block_start: usize,
    pub payload_start: usize,
    pub payload_end: usize,
    pub decoded: Vec<u8>,
}

/// The header parsed at `off`: that of the first of `offs[k..]` equal to `off`.
pub open spec fn header_at(offs: Seq<usize>, hs: Seq<Option<Blk3HeaderView>>, off: int, k: int) -> Option<Blk3HeaderView>
    decreases offs.len() - k,
{
    if k < 0 || k >= offs.len() {
        None
    } else if offs[k] == off {
        hs[k]
    } else {
        header_at(offs, hs, off, k + 1)
    }
}

/// The metadata frames met walking the bytes from `off`: at a magic whose
/// header parsed and whose block (header and payload) is non-empty and lies
/// in the bytes, the walk steps over the block, recording it when it is a
/// metadata frame; anywhere else it moves one byte on. Each frame is given
/// as (block start, payload start, payload end).
pub open spec fn frame_walk(b: Seq<u8>, offs: Seq<usize>, hs: Seq<Option<Blk3HeaderView>>, off: int) -> Seq<(int, int, int)>
    decreases b.len() - off,
{
    if off < 0 || off + 4 > b.len() {
        seq![]
    } else if !magic_at(b, off) {
        frame_walk(b, offs, hs, off + 1)
    } else {
        match header_at(offs, hs, off, 0) {
            None => frame_walk(b, offs, hs, off + 1),
            Some(h) => {
                let bl = h.header_len + h.comp_len;
                if bl == 0 || off + bl > b.len() {
                    frame_walk(b, offs, hs, off + 1)
                } else if h.meta_frame {
                    seq![(off, off + h.header_len, off + bl)] + frame_walk(b, offs, hs, off + bl)
                } else {
                    frame_walk(b, offs, hs, off + bl)
                }
            },
        }
    }
}

/// The payload of a frame decodes.
pub open spec fn frame_decodes(b: Seq<u8>, f: (int, int, int)) -> bool {
    zstd_decoded(b.subrange(f.1, f.2)) is Some
}

/// One of the frames `fw` starts at `start` and its payload does not decode.
pub open spec fn undecodable_frame_at(b: Seq<u8>, fw: Seq<(int, int, int)>, start: int) -> bool {
    exists|k: int| 0 <= k < fw.len() && fw[k].0 == start && !frame_decodes(b, #[trigger] fw[k])
}

/// `m` is the frame `f` with its decoded payload.
pub open spec fn is_meta_frame(m: MetaFrame, b: Seq<u8>, f: (int, int, int)) -> bool {
    &&& m.block_start == f.0
    &&& m.payload_start == f.1
    &&& m.payload_end == f.2
    &&& zstd_decoded(b.subrange(f.1, f.2)) == Some(m.decoded@)
}

/// The payload of a metadata frame did not decode.
pub struct FrameDecodeError {
    pub block_start: usize,
}

/// The frame positions of decoded frames.
pub open spec fn frame_positions(ms: Seq<MetaFrame>) -> Seq<(int, int, int)> {
    ms.map_values(|m: MetaFrame| (m.block_start as int, m.payload_start as int, m.payload_end as int))
}

fn first_offset_index(offs: &Vec<usize>, off: usize) -> (r: Option<usize>)
    ensures
        match r {
            Some(k) => k < offs@.len() && offs@[k as int] == off && forall|j: int| 0 <= j < k ==> offs@[j] != off,
            None => forall|j: int| 0 <= j < offs@.len() ==> offs@[j] != off,
        },
{
    let mut k: usize = 0;
    while k < offs.len()
        invariant
            k <= offs@.len(),
            forall|j: int| 0 <= j < k ==> offs@[j] != off,
        decreases offs.len() - k,
    {
        if offs[k] == off {
            return Some(k);
        }
        k = k + 1;
    }
    None
}

proof fn lemma_header_at_first(offs: Seq<usize>, hs: Seq<Option<Blk3HeaderView>>, off: int, k: int, j: int)
    requires
        0 <= j <= k <= offs.len(),
        forall|a: int| j <= a < k ==> offs[a] != off,
    ensures
        header_at(offs, hs, off, j) == header_at(offs, hs, off, k),
    decreases k - j,
{
    if j < k {
        lemma_header_at_first(offs, hs, off, k, j + 1);
    }
}

/// Walks the archive bytes and decodes the payload of every metadata frame
/// met; `headers[i]` is what the header parser made of the bytes at the
/// `i`-th occurrence of the block magic. Fails when a metadata frame's
/// payload does not decode.
pub fn parse_metadata_json_blocks_with_offsets(bytes: &[u8], headers: &Vec<Option<Blk3Header>>) -> (r: Result<Vec<MetaFrame>, FrameDecodeError>)
    requires
        headers@.len() == magic_offsets(bytes@, bytes@.len() as int).len(),
    ensures
        ({
            let fw = frame_walk(bytes@, magic_offsets(bytes@, bytes@.len() as int), header_views(headers@), 0);
            match r {
                Ok(ms) => {
                    &&& frame_positions(ms@) == fw
                    &&& forall|k: int| 0 <= k < ms@.len() ==> is_meta_frame(#[trigger] ms@[k], bytes@, fw[k])
                },
                Err(e) => undecodable_frame_at(bytes@, fw, e.block_start as int),
            }
        }),
{
    let offsets = blk3_magic_offsets(bytes);
    let ghost hs = header_views(headers@);
    let ghost fw = frame_walk(bytes@, offsets@, hs, 0);
    let blen = bytes.len();
    let mut frames: Vec<MetaFrame> = Vec::new();
    let mut offset: usize = 0;
    while offset < blen && blen - offset >= 4
        invariant
            blen == bytes@.len(),
            offset <= blen,
            headers@.len() == offsets@.len(),
            offsets@ == magic_offsets(bytes@, bytes@.len() as int),
            hs == header_views(headers@),
            fw == frame_walk(bytes@, offsets@, hs, 0),
            fw == frame_positions(frames@) + frame_walk(bytes@, offsets@, hs, offset as int),
            forall|k: int| 0 <= k < frames@.len() ==> is_meta_frame(#[trigger] frames@[k], bytes@, fw[k]),
        decreases blen - offset,
    {
        let ghost rest = frame_walk(bytes@, offsets@, hs, offset as int);
        let mut step: usize = 1;
        if is_magic_at(bytes, offset) {
            match first_offset_index(&offsets, offset) {
                None => {
                    proof {
                        lemma_header_at_first(offsets@, hs, offset as int, offsets@.len() as int, 0);
                    }
                },
                Some(i) => {
                    proof {
                        lemma_header_at_first(offsets@, hs, offset as int, i as int, 0);
                        assert(hs[i as int] == crate::salvage::candidates::header_view(headers@[i as int]));
                    }
                    match &headers[i] {
                        None => {},
                        Some(h) => {
                            let room = (blen - offset) as u64;
                            if h.header_len <= room && h.comp_len <= room - h.header_len && h.header_len + h.comp_len > 0 {
                                let bl = (h.header_len + h.comp_len) as usize;
                                if h.meta_frame {
                                    let ps = offset + h.header_len as usize;
                                    let pe = offset + bl;
                                    let payload = copy_range(bytes, ps, pe);
                                    match zstd_decode_all(payload.as_slice()) {
                                        None => {
                                            proof {
                                                let k = frame_positions(frames@).len() as int;
                                                assert(rest[0] == (offset as int, ps as int, pe as int));
                                                assert(fw[k] == rest[0]);
                                                assert(!frame_decodes(bytes@, fw[k]));
                                                assert(fw[k].0 == offset);
                                                assert(undecodable_frame_at(bytes@, fw, offset as int));
                                            }
                                            return Err(FrameDecodeError { block_start: offset });
                                        },
                                        Some(decoded) => {
                                            let ghost before = frames@;
                                            frames.push(MetaFrame { block_start: offset, payload_start: ps, payload_end: pe, decoded });
                                            proof {
                                                assert(rest == seq![(offset as int, ps as int, pe as int)] + frame_walk(bytes@, offsets@, hs, offset + bl));
                                                assert(frame_positions(frames@) =~= frame_positions(before).push((offset as int, ps as int, pe as int)));
                                                assert(fw =~= frame_positions(frames@) + frame_walk(bytes@, offsets@, hs, offset + bl));
                                                assert(fw[before.len() as int] == (offset as int, ps as int, pe as int));
                                            }
                                        },
                                    }
                                }
                                step = bl;
                            }
                        },
                    }
                },
            }
        }
        offset = offset + step;
    }
    proof {
        assert(frame_walk(bytes@, offsets@, hs, offset as int) =~= Seq::<(int, int, int)>::empty());
        assert(fw =~= frame_positions(frames@));
    }
    Ok(frames)
}


/// A metadata frame whose payload parsed as JSON, with the parsed value.
pub struct MetadataJsonBlock {
    pub frame: MetaFrame,
    pub value: JsonValue,
}

/// The value is a copy of the path dictionary.
pub open spec fn is_dictionary_copy(v: JsonValue) -> bool {
    get_str(v, "schema"@) == Some("crushr-path-dictionary-copy.v1"@)
        || get_str(v, "schema"@) == Some("crushr-path-dictionary-copy.v2"@)
}

/// The indices of the dictionary copies among the first `n` blocks.
pub open spec fn dictionary_indices(bs: Seq<MetadataJsonBlock>, n: int) -> Seq<usize>
    decreases n,
{
    if n <= 0 {
        seq![]
    } else {
        let prev = dictionary_indices(bs, n - 1);
        if is_dictionary_copy(bs[n - 1].value) { prev.push((n - 1) as usize) } else { prev }
    }
}

/// The dictionary copies whose payloads a target corrupts, given the
/// indices `d` of the copies in archive order.
pub open spec fn corrupted_copies(target: Seq<char>, d: Seq<usize>) -> Seq<usize> {
    if target == "primary_dictionary"@ {
        if d.len() > 0 { seq![d[0]] } else { seq![] }
    } else if target == "mirrored_dictionary"@ {
        if d.len() > 0 { seq![d.last()] } else { seq![] }
    } else if target == "both_dictionaries"@ {
        d
    } else if d.len() >= 2 {
        seq![]
    } else if d.len() > 0 {
        seq![d[0]]
    } else {
        seq![]
    }
}

/// The targets the corruption knows.
pub open spec fn known_dictionary_target(target: Seq<char>) -> bool {
    target == "primary_dictionary"@ || target == "mirrored_dictionary"@ || target == "both_dictionaries"@
        || target == "inconsistent_dictionaries"@
}

/// The bytes with those of `[s, e)` flipped by XOR with `0xA7`.
pub open spec fn xor_range(b: Seq<u8>, s: int, e: int) -> Seq<u8> {
    Seq::new(b.len(), |i: int| if s <= i < e { b[i] ^ 0xA7u8 } else { b[i] })
}

/// The bytes with the payloads of the first `n` listed blocks flipped in turn.
pub open spec fn xor_payloads(b: Seq<u8>, bs: Seq<MetadataJsonBlock>, ks: Seq<usize>, n: int) -> Seq<u8>
    decreases n,
{
    if n <= 0 {
        b
    } else {
        let f = bs[ks[n - 1] as int].frame;
        xor_range(xor_payloads(b, bs, ks, n - 1), f.payload_start as int, f.payload_end as int)
    }
}

/// Every block's payload lies within `len` bytes.
pub open spec fn payloads_within(bs: Seq<MetadataJsonBlock>, len: int) -> bool {
    forall|k: int| 0 <= k < bs.len() ==> (#[trigger] bs[k]).frame.payload_start <= bs[k].frame.payload_end <= len
}

/// The archive after a dictionary-targeted corruption, and the dictionary
/// copy (by block index) still to be rewritten as inconsistent, if any.
pub struct DictionaryCorruption {
    pub bytes: Vec<u8>,
    pub rewrite_as_inconsistent: Option<usize>,
}

/// The corruption target is none of the dictionary targets.
pub struct UnsupportedDictionaryTarget;

/// Flips the bytes of `[start, end)` by XOR with `0xA7`, as a payload
/// corruption does.
pub fn corrupt_dictionary_block_payload(bytes: &mut Vec<u8>, start: usize, end: usize)
    requires
        start <= end <= old(bytes)@.len(),
    ensures
        final(bytes)@ == xor_range(old(bytes)@, start as int, end as int),
{
    let mut i = start;
    while i < end
        invariant
            start <= i <= end <= bytes@.len(),
            bytes@.len() == old(bytes)@.len(),
            forall|k: int| 0 <= k < bytes@.len() ==> #[trigger] bytes@[k] == if start <= k < i { old(bytes)@[k] ^ 0xA7u8 } else { old(bytes)@[k] },
        decreases end - i,
    {
        let v = bytes[i] ^ 0xA7u8;
        bytes.set(i, v);
        i = i + 1;
    }
    proof {
        assert(bytes@ =~= xor_range(old(bytes)@, start as int, end as int));
    }
}

fn dictionary_copy_indices(blocks: &Vec<MetadataJsonBlock>) -> (d: Vec<usize>)
    ensures
        d@ == dictionary_indices(blocks@, blocks@.len() as int),
        forall|k: int| 0 <= k < d@.len() ==> (#[trigger] d@[k]) < blocks@.len(),
{
    let mut d: Vec<usize> = Vec::new();
    let mut i: usize = 0;
    while i < blocks.len()
        invariant
            i <= blocks@.len(),
            d@ == dictionary_indices(blocks@, i as int),
            forall|k: int| 0 <= k < d@.len() ==> (#[trigger] d@[k]) < i,
        decreases blocks.len() - i,
    {
        let schema = blocks[i].value.get_str("schema");
        let is_copy = match schema {
            Some(s) => str_equals(s, "crushr-path-dictionary-copy.v1") || str_equals(s, "crushr-path-dictionary-copy.v2"),
            None => false,
        };
        if is_copy {
            d.push(i);
        }
        i = i + 1;
    }
    d
}

/// Applies a dictionary-targeted corruption to the archive bytes: the first
/// copy (`primary_dictionary`), the last (`mirrored_dictionary`), every copy
/// (`both_dictionaries`) has its payload flipped; `inconsistent_dictionaries`
/// leaves the last of two or more copies to be rewritten, or flips the only
/// one. The copies are the blocks whose schema names a path dictionary copy.
pub fn apply_dictionary_target_corruption(
    bytes: Vec<u8>,
    blocks: &Vec<MetadataJsonBlock>,
    target: &str,
) -> (r: Result<DictionaryCorruption, UnsupportedDictionaryTarget>)
    requires
        payloads_within(blocks@, bytes@.len() as int),
    ensures
        ({
            let d = dictionary_indices(blocks@, blocks@.len() as int);
            let ks = corrupted_copies(target@, d);
            match r {
                Ok(c) => {
                    &&& known_dictionary_target(target@)
                    &&& c.bytes@ == xor_payloads(bytes@, blocks@, ks, ks.len() as int)
                    &&& c.rewrite_as_inconsistent == if target@ == "inconsistent_dictionaries"@ && d.len() >= 2 { Some(d.last()) } else { None::<usize> }
                },
                Err(_) => !known_dictionary_target(target@),
            }
        }),
{
    let primary = str_equals(target, "primary_dictionary");
    let mirrored = str_equals(target, "mirrored_dictionary");
    let both = str_equals(target, "both_dictionaries");
    let inconsistent = str_equals(target, "inconsistent_dictionaries");
    if !(primary || mirrored || both || inconsistent) {
        return Err(UnsupportedDictionaryTarget);
    }
    proof {
        reveal_strlit("primary_dictionary");
        reveal_strlit("mirrored_dictionary");
        reveal_strlit("both_dictionaries");
        reveal_strlit("inconsistent_dictionaries");
        assert("primary_dictionary"@.len() != "inconsistent_dictionaries"@.len());
        assert("mirrored_dictionary"@.len() != "inconsistent_dictionaries"@.len());
        assert("both_dictionaries"@.len() != "inconsistent_dictionaries"@.len());
    }
    let d = dictionary_copy_indices(blocks);
    let mut ks: Vec<usize> = Vec::new();
    let mut rewrite: Option<usize> = None;
    if primary {
        if d.len() > 0 {
            ks.push(d[0]);
        }
    } else if mirrored {
        if d.len() > 0 {
            ks.push(d[d.len() - 1]);
        }
    } else if both {
        let mut i: usize = 0;
        while i < d.len()
            invariant
                i <= d@.len(),
                ks@ == d@.take(i as int),
            decreases d.len() - i,
        {
            ks.push(d[i]);
            proof {
                assert(ks@ =~= d@.take(i + 1));
            }
            i = i + 1;
        }
        proof {
            assert(d@.take(d@.len() as int) =~= d@);
        }
    } else if d.len() >= 2 {
        rewrite = Some(d[d.len() - 1]);
    } else if d.len() > 0 {
        ks.push(d[0]);
    }
    proof {
        assert(ks@ == corrupted_copies(target@, d@));
    }
    let mut out = bytes;
    let ghost orig = out@;
    let mut j: usize = 0;
    while j < ks.len()
        invariant
            j <= ks@.len(),
            forall|k: int| 0 <= k < ks@.len() ==> (#[trigger] ks@[k]) < blocks@.len(),
            payloads_within(blocks@, orig.len() as int),
            out@ == xor_payloads(orig, blocks@, ks@, j as int),
            out@.len() == orig.len(),
        decreases ks.len() - j,
    {
        let f = &blocks[ks[j]].frame;
        proof {
            assert(blocks@[ks@[j as int] as int].frame.payload_start <= blocks@[ks@[j as int] as int].frame.payload_end <= orig.len());
        }
        corrupt_dictionary_block_payload(&mut out, f.payload_start, f.payload_end);
        j = j + 1;
    }
    proof {
        assert(out@ == xor_payloads(bytes@, blocks@, ks@, ks@.len() as int));
        assert(known_dictionary_target(target@));
        assert(rewrite == if target@ == "inconsistent_dictionaries"@ && d@.len() >= 2 { Some(d@.last()) } else { None::<usize> });
    }
    Ok(DictionaryCorruption { bytes: out, rewrite_as_inconsistent: rewrite })
}


/// Flipping a payload twice restores the bytes: the payload corruption is
/// its own inverse, and it leaves the length and every byte outside the
/// range unchanged.
pub proof fn law_payload_flip_is_involution(b: Seq<u8>, s: int, e: int)
    ensures
        xor_range(xor_range(b, s, e), s, e) == b,
        xor_range(b, s, e).len() == b.len(),
        forall|i: int| 0 <= i < b.len() && !(s <= i < e) ==> #[trigger] xor_range(b, s, e)[i] == b[i],
{
    let once = xor_range(b, s, e);
    let twice = xor_range(once, s, e);
    assert forall|i: int| 0 <= i < b.len() implies twice[i] == b[i] by {
        if s <= i < e {
            let x = b[i];
            assert((x ^ 0xA7u8) ^ 0xA7u8 == x) by (bit_vector);
        }
    }
    assert(twice =~= b);
}


/// The saturating sum of the block lengths of the first `n` frames.
pub open spec fn frames_byte_size(fw: Seq<(int, int, int)>, n: int) -> u64
    decreases n,
{
    if n <= 0 {
        0
    } else {
        let prev = frames_byte_size(fw, n - 1);
        let bl = fw[n - 1].2 - fw[n - 1].0;
        if prev + bl > u64::MAX { u64::MAX } else { (prev + bl) as u64 }
    }
}

/// Estimates the bytes taken by metadata: the sum of the block lengths
/// (header and payload) of the metadata frames a walk of the archive meets,
/// stopping at the largest 64-bit value.
pub fn estimate_metadata_byte_size(bytes: &[u8], headers: &Vec<Option<Blk3Header>>) -> (total: u64)
    requires
        headers@.len() == magic_offsets(bytes@, bytes@.len() as int).len(),
    ensures
        ({
            let fw = frame_walk(bytes@, magic_offsets(bytes@, bytes@.len() as int), header_views(headers@), 0);
            total == frames_byte_size(fw, fw.len() as int)
        }),
{
    let offsets = blk3_magic_offsets(bytes);
    let ghost hs = header_views(headers@);
    let ghost fw = frame_walk(bytes@, offsets@, hs, 0);
    let blen = bytes.len();
    let mut total: u64 = 0;
    let ghost mut done: int = 0;
    let mut offset: usize = 0;
    while offset < blen && blen - offset >= 4
        invariant
            blen == bytes@.len(),
            offset <= blen,
            headers@.len() == offsets@.len(),
            hs == header_views(headers@),
            fw == frame_walk(bytes@, offsets@, hs, 0),
            0 <= done <= fw.len(),
            fw == fw.take(done) + frame_walk(bytes@, offsets@, hs, offset as int),
            total == frames_byte_size(fw, done),
        decreases blen - offset,
    {
        let ghost rest = frame_walk(bytes@, offsets@, hs, offset as int);
        let mut step: usize = 1;
        if is_magic_at(bytes, offset) {
            match first_offset_index(&offsets, offset) {
                None => {
                    proof {
                        lemma_header_at_first(offsets@, hs, offset as int, offsets@.len() as int, 0);
                    }
                },
                Some(i) => {
                    proof {
                        lemma_header_at_first(offsets@, hs, offset as int, i as int, 0);
                        assert(hs[i as int] == crate::salvage::candidates::header_view(headers@[i as int]));
                    }
                    match &headers[i] {
                        None => {},
                        Some(h) => {
                            let room = (blen - offset) as u64;
                            if h.header_len <= room && h.comp_len <= room - h.header_len && h.header_len + h.comp_len > 0 {
                                let bl = h.header_len + h.comp_len;
                                if h.meta_frame {
                                    total = total.saturating_add(bl);
                                    proof {
                                        let f = (offset as int, offset + h.header_len, offset + bl);
                                        assert(rest == seq![f] + frame_walk(bytes@, offsets@, hs, offset + bl));
                                        assert(fw[done] == f);
                                        assert(fw.take(done + 1).drop_last() =~= fw.take(done));
                                        assert(fw =~= fw.take(done + 1) + frame_walk(bytes@, offsets@, hs, offset + bl));
                                        done = done + 1;
                                    }
                                }
                                step = bl as usize;
                            }
                        },
                    }
                },
            }
        }
        offset = offset + step;
    }
    proof {
        assert(frame_walk(bytes@, offsets@, hs, offset as int) =~= Seq::<(int, int, int)>::empty());
        assert(fw.take(done) =~= fw);
    }
    total
}

/// The path the first dictionary entry takes when a copy is made to
/// disagree: its path (`dict_entry` when it has none) with `.conflict`
/// appended.
pub open spec fn conflict_path(e: JsonValue) -> Seq<char> {
    (match get_str(e, "path"@) {
        Some(p) => p,
        None => "dict_entry"@,
    }) + ".conflict"@
}

/// The all-zero digest in hexadecimal.
pub open spec fn zero_digest() -> Seq<char> {
    Seq::new(64, |i: int| '0')
}

/// `e2` is entry `e` with path `path` and that path's digest.
pub open spec fn entry_renamed(e2: JsonValue, e: JsonValue, path: Seq<char>) -> bool {
    &&& e2 is Object
    &&& get_str(e2, "path"@) == Some(path)
    &&& get_str(e2, "path_digest_blake3"@) == Some(path_digest_hex(path))
    &&& forall|k: Seq<char>| k != "path"@ && k != "path_digest_blake3"@ ==> #[trigger] json_get(e2, k) == json_get(e, k)
}

/// `e2` is file binding `e` with the all-zero path digest.
pub open spec fn binding_zeroed(e2: JsonValue, e: JsonValue) -> bool {
    &&& e2 is Object
    &&& get_str(e2, "path_digest_blake3"@) == Some(zero_digest())
    &&& forall|k: Seq<char>| k != "path_digest_blake3"@ ==> #[trigger] json_get(e2, k) == json_get(e, k)
}

/// `a2` is the non-empty array `a` with its first item changed as `p` says.
pub open spec fn first_item_changed(a2: JsonValue, a: JsonValue, p: spec_fn(JsonValue, JsonValue) -> bool) -> bool {
    &&& a2 is Array
    &&& a is Array
    &&& a->Array_0@.len() > 0
    &&& a2->Array_0@.len() == a->Array_0@.len()
    &&& p(a2->Array_0@[0], a->Array_0@[0])
    &&& forall|j: int| 1 <= j < a->Array_0@.len() ==> #[trigger] a2->Array_0@[j] == a->Array_0@[j]
}

/// `r` is object `v` with its member `key` changed as `p` says and its
/// other members kept.
pub open spec fn member_changed(r: JsonValue, v: JsonValue, key: Seq<char>, p: spec_fn(JsonValue, JsonValue) -> bool) -> bool {
    &&& r is Object
    &&& match (json_get(r, key), json_get(v, key)) {
        (Some(a), Some(b)) => p(a, b),
        _ => false,
    }
    &&& forall|k: Seq<char>| k != key ==> #[trigger] json_get(r, k) == json_get(v, k)
}

/// The copy lists entries, at least one.
pub open spec fn has_first_entry(v: JsonValue) -> bool {
    match get_array(v, "entries"@) {
        Some(es) => es.len() > 0,
        None => false,
    }
}

/// The copy's body lists file bindings, at least one.
pub open spec fn has_first_binding(v: JsonValue) -> bool {
    match json_get(v, "body"@) {
        Some(b) => match get_array(b, "file_bindings"@) {
            Some(fs) => fs.len() > 0,
            None => false,
        },
        None => false,
    }
}

/// An object, or null (which setting a member makes an object).
pub open spec fn object_or_null(v: JsonValue) -> bool {
    v is Object || v is Null
}

/// The item the mark would change is an object or null.
pub open spec fn markable(v: JsonValue) -> bool {
    if has_first_entry(v) {
        object_or_null(get_array(v, "entries"@).unwrap()[0])
    } else if has_first_binding(v) {
        object_or_null(get_array(json_get(v, "body"@).unwrap(), "file_bindings"@).unwrap()[0])
    } else {
        true
    }
}

/// What marking a dictionary copy as inconsistent does: its first entry
/// takes the conflict path and that path's digest; without entries, the
/// first file binding of its body gets the all-zero digest; without either
/// it stays as it is.
pub open spec fn spec_marked(r: JsonValue, v: JsonValue) -> bool {
    if has_first_entry(v) {
        member_changed(r, v, "entries"@, |a2: JsonValue, a: JsonValue| first_item_changed(a2, a, |e2: JsonValue, e: JsonValue| entry_renamed(e2, e, conflict_path(e))))
    } else if has_first_binding(v) {
        member_changed(r, v, "body"@, |b2: JsonValue, b: JsonValue| member_changed(b2, b, "file_bindings"@, |a2: JsonValue, a: JsonValue| first_item_changed(a2, a, |e2: JsonValue, e: JsonValue| binding_zeroed(e2, e))))
    } else {
        r == v
    }
}

fn rename_entry(e: JsonValue) -> (r: JsonValue)
    requires
        object_or_null(e),
    ensures
        entry_renamed(r, e, conflict_path(e)),
{
    let mut p = match e.get_str("path") {
        Some(s) => String::from_str(s),
        None => String::from_str("dict_entry"),
    };
    push_str(&mut p, ".conflict");
    let d = digest_hex_of_str(p.as_str());
    let ghost pv = p@;
    let e1 = set_member(e, "path", JsonValue::Str(p));
    let e2 = set_member(e1, "path_digest_blake3", JsonValue::Str(d));
    proof {
        reveal_strlit("path");
        reveal_strlit("path_digest_blake3");
        assert("path"@.len() != "path_digest_blake3"@.len());
        assert(json_get(e2, "path"@) == json_get(e1, "path"@));
    }
    e2
}

fn zero_binding(e: JsonValue) -> (r: JsonValue)
    requires
        object_or_null(e),
    ensures
        binding_zeroed(r, e),
{
    let z = String::from_str("0000000000000000000000000000000000000000000000000000000000000000");
    proof {
        reveal_strlit("0000000000000000000000000000000000000000000000000000000000000000");
        assert(z@ =~= zero_digest());
    }
    set_member(e, "path_digest_blake3", JsonValue::Str(z))
}

fn rename_first_entry(a: JsonValue) -> (r: JsonValue)
    requires
        a is Array,
        a->Array_0@.len() > 0,
        object_or_null(a->Array_0@[0]),
    ensures
        first_item_changed(r, a, |e2: JsonValue, e: JsonValue| entry_renamed(e2, e, conflict_path(e))),
{
    match a {
        JsonValue::Array(items) => {
            let mut items = items;
            let ghost orig = items@;
            let first = items.remove(0);
            let e = rename_entry(first);
            items.insert(0, e);
            proof {
                assert(items@ =~= orig.update(0, e));
            }
            JsonValue::Array(items)
        },
        _ => a,
    }
}

fn zero_first_binding(a: JsonValue) -> (r: JsonValue)
    requires
        a is Array,
        a->Array_0@.len() > 0,
        object_or_null(a->Array_0@[0]),
    ensures
        first_item_changed(r, a, |e2: JsonValue, e: JsonValue| binding_zeroed(e2, e)),
{
    match a {
        JsonValue::Array(items) => {
            let mut items = items;
            let ghost orig = items@;
            let first = items.remove(0);
            let e = zero_binding(first);
            items.insert(0, e);
            proof {
                assert(items@ =~= orig.update(0, e));
            }
            JsonValue::Array(items)
        },
        _ => a,
    }
}

/// Marks a dictionary copy as disagreeing with the other copy: its first
/// entry gets its path with `.conflict` appended (`dict_entry.conflict`
/// when it has none) and that path's digest; a copy without entries gets
/// the all-zero digest on the first file binding of its body; any other
/// copy stays as it is.
pub fn mark_dictionary_inconsistent(v: JsonValue) -> (r: JsonValue)
    requires
        markable(v),
    ensures
        spec_marked(r, v),
{
    let ghost v0 = v;
    let entries = match v.get_array("entries") {
        Some(es) => es.len() > 0,
        None => false,
    };
    if entries {
        let sp = split_member(v, "entries");
        let ghost s0 = sp;
        let SplitMember { rest, at, key, value } = sp;
        let a2 = rename_first_entry(value);
        let r = rejoin_member(rest, at, key, a2);
        proof {
            lemma_rejoin(s0, v0, "entries"@, a2, r);
        }
        return r;
    }
    let bindings = match v.get("body") {
        Some(b) => match b.get_array("file_bindings") {
            Some(fs) => fs.len() > 0,
            None => false,
        },
        None => false,
    };
    if bindings {
        let sp = split_member(v, "body");
        let ghost s0 = sp;
        let SplitMember { rest, at, key, value } = sp;
        let ghost b0 = value;
        let sb = split_member(value, "file_bindings");
        let ghost t0 = sb;
        let SplitMember { rest: brest, at: bat, key: bkey, value: fs } = sb;
        let a2 = zero_first_binding(fs);
        let body = rejoin_member(brest, bat, bkey, a2);
        proof {
            lemma_rejoin(t0, b0, "file_bindings"@, a2, body);
        }
        let r = rejoin_member(rest, at, key, body);
        proof {
            lemma_rejoin(s0, v0, "body"@, body, r);
        }
        return r;
    }
    v
}

/// Restates a dictionary copy's content hash and length for its body's
/// serialised bytes: the hexadecimal BLAKE3 digest and the byte count.
pub fn restate_dictionary_digest(v: JsonValue, body_bytes: &[u8]) -> (r: JsonValue)
    requires
        v is Object,
        body_bytes@.len() <= u64::MAX,
    ensures
        r is Object,
        get_str(r, "dictionary_content_hash"@) == Some(fingerprint(body_bytes@)),
        get_u64(r, "dictionary_length"@) == Some(body_bytes@.len() as u64),
        forall|k: Seq<char>| k != "dictionary_content_hash"@ && k != "dictionary_length"@ ==> #[trigger] json_get(r, k) == json_get(v, k),
{
    let h = fingerprint_hex(body_bytes);
    let v1 = set_member(v, "dictionary_content_hash", JsonValue::Str(h));
    let v2 = set_member(v1, "dictionary_length", JsonValue::Number(Some(body_bytes.len() as u64)));
    proof {
        reveal_strlit("dictionary_content_hash");
        reveal_strlit("dictionary_length");
        assert("dictionary_content_hash"@.len() != "dictionary_length"@.len());
        assert(json_get(v2, "dictionary_content_hash"@) == json_get(v1, "dictionary_content_hash"@));
    }
    v2
}

/// The archive with the block spanning `start..end` replaced by a new
/// header and payload: the bytes before the block, the header, the
/// payload, and the bytes after the block.
pub fn splice_block(bytes: &[u8], start: usize, end: usize, header: &[u8], payload: &[u8]) -> (r: Vec<u8>)
    requires
        start <= end <= bytes@.len(),
    ensures
        r@ == bytes@.subrange(0, start as int) + header@ + payload@ + bytes@.subrange(end as int, bytes@.len() as int),
{
    let mut r = copy_range(bytes, 0, start);
    let mut h = copy_range(header, 0, header.len());
    let mut p = copy_range(payload, 0, payload.len());
    let mut t = copy_range(bytes, end, bytes.len());
    r.append(&mut h);
    r.append(&mut p);
    r.append(&mut t);
    proof {
        assert(header@.subrange(0, header@.len() as int) =~= header@);
        assert(payload@.subrange(0, payload@.len() as int) =~= payload@);
    }
    r
}

} // verus!
