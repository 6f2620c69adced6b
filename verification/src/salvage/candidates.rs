//! Structural and content verification of BLK3 block candidates found by
//! scanning archive bytes for the block magic.
use vstd::prelude::*;
use vstd::string::*;
use crate::digest::{blake3_hash, blake3_digest, zstd_decode_all, zstd_decoded};
use std::collections::BTreeMap;
use super::types::{BlockVerification, ReasonCode};

verus! {

/// The four bytes that open every BLK3 block header.
pub open spec fn blk3_magic() -> Seq<u8> {
    seq![0x42u8, 0x4Cu8, 0x4Bu8, 0x33u8]
}

/// The fields of a BLK3 block header that verification reads.
pub struct Blk3Header {
    pub header_len: u64,
    pub uses_dict: bool,
    pub dict_id: u32,
    pub codec: u32,
    pub comp_len: u64,
    pub raw_len: u64,
    pub payload_hash: Option<Vec<u8>>,
    pub raw_hash: Option<Vec<u8>>,
    pub meta_frame: bool,
}

/// What verification established about one magic occurrence.
pub struct BlockCandidate {
    pub scan_offset: u64,
    pub mapped_block_id: Option<u32>,
    pub structural_status: &'static str,
    pub header_status: &'static str,
    pub header_reason: &'static str,
    pub payload_bounds_status: &'static str,
    pub payload_hash_status: &'static str,
    pub dictionary_required: bool,
    pub dictionary_id: Option<u32>,
    pub dictionary_dependency_status: &'static str,
    pub decompression_status: &'static str,
    pub raw_hash_status: &'static str,
    pub content_verification_status: &'static str,
    pub content_verification_reasons: Vec<ReasonCode>,
    pub usable_for_indexed_planning: bool,
    pub verified_raw_len: Option<u64>,
}

/// Where the header at a magic occurrence lies, read from its 16-bit
/// little-endian length after the magic.
pub enum HeaderWindow {
    /// Fewer than six bytes remain at the offset.
    PrefixOutOfBounds,
    /// The stated header length runs past the end of the bytes.
    OutOfBounds,
    /// The header occupies `[offset, end)`.
    Within { end: usize },
}

/// The magic occurs at `offset`.
pub open spec fn magic_at(bytes: Seq<u8>, offset: int) -> bool {
    0 <= offset && offset + 4 <= bytes.len() && bytes.subrange(offset, offset + 4) == blk3_magic()
}

/// The offsets at which the magic occurs, in ascending order.
pub open spec fn magic_offsets(bytes: Seq<u8>, n: int) -> Seq<usize>
    decreases n,
{
    if n <= 0 {
        seq![]
    } else if magic_at(bytes, n - 1) {
        magic_offsets(bytes, n - 1).push((n - 1) as usize)
    } else {
        magic_offsets(bytes, n - 1)
    }
}

/// The header window at `offset`.
pub open spec fn spec_header_window(bytes: Seq<u8>, offset: int) -> HeaderWindow {
    if offset + 6 > bytes.len() {
        HeaderWindow::PrefixOutOfBounds
    } else {
        let header_len = bytes[offset + 4] as int + 256 * (bytes[offset + 5] as int);
        if offset + header_len > bytes.len() {
            HeaderWindow::OutOfBounds
        } else {
            HeaderWindow::Within { end: (offset + header_len) as usize }
        }
    }
}

pub(crate) fn is_magic_at(bytes: &[u8], offset: usize) -> (r: bool)
    requires
        offset + 4 <= bytes@.len(),
    ensures
        r == magic_at(bytes@, offset as int),
{
    let r = bytes[offset] == 0x42u8 && bytes[offset + 1] == 0x4Cu8 && bytes[offset + 2] == 0x4Bu8 && bytes[offset + 3] == 0x33u8;
    proof {
        if r {
            assert(bytes@.subrange(offset as int, offset + 4) =~= blk3_magic());
        } else if bytes@.subrange(offset as int, offset + 4) == blk3_magic() {
            assert(bytes@.subrange(offset as int, offset + 4)[0] == 0x42u8);
            assert(bytes@.subrange(offset as int, offset + 4)[1] == 0x4Cu8);
            assert(bytes@.subrange(offset as int, offset + 4)[2] == 0x4Bu8);
            assert(bytes@.subrange(offset as int, offset + 4)[3] == 0x33u8);
        }
    }
    r
}

/// The offsets of every occurrence of the BLK3 magic, ascending.
pub fn blk3_magic_offsets(bytes: &[u8]) -> (r: Vec<usize>)
    ensures
        r@ == magic_offsets(bytes@, bytes@.len() as int),
{
    let mut r: Vec<usize> = Vec::new();
    let mut offset: usize = 0;
    while offset < bytes.len()
        invariant
            offset <= bytes@.len(),
            r@ == magic_offsets(bytes@, offset as int),
        decreases bytes.len() - offset,
    {
        if bytes.len() - offset >= 4 && is_magic_at(bytes, offset) {
            r.push(offset);
        }
        offset = offset + 1;
    }
    r
}

/// Where the header at a magic occurrence lies.
pub fn header_window(bytes: &[u8], offset: usize) -> (w: HeaderWindow)
    requires
        offset <= bytes@.len(),
    ensures
        w == spec_header_window(bytes@, offset as int),
{
    if bytes.len() - offset < 6 {
        return HeaderWindow::PrefixOutOfBounds;
    }
    let header_len = bytes[offset + 4] as usize + 256 * (bytes[offset + 5] as usize);
    if bytes.len() - offset < header_len {
        HeaderWindow::OutOfBounds
    } else {
        HeaderWindow::Within { end: offset + header_len }
    }
}


/// A header's fields as plain values.
pub struct Blk3HeaderView {
    pub header_len: u64,
    pub uses_dict: bool,
    pub dict_id: u32,
    pub codec: u32,
    pub comp_len: u64,
    pub raw_len: u64,
    pub payload_hash: Option<Seq<u8>>,
    pub raw_hash: Option<Seq<u8>>,
    pub meta_frame: bool,
}

impl View for Blk3Header {
    type V = Blk3HeaderView;

    open spec fn view(&self) -> Blk3HeaderView {
        Blk3HeaderView {
            header_len: self.header_len,
            uses_dict: self.uses_dict,
            dict_id: self.dict_id,
            codec: self.codec,
            comp_len: self.comp_len,
            raw_len: self.raw_len,
            payload_hash: match self.payload_hash {
                Some(h) => Some(h@),
                None => None,
            },
            raw_hash: match self.raw_hash {
                Some(h) => Some(h@),
                None => None,
            },
            meta_frame: self.meta_frame,
        }
    }
}

/// A candidate's fields as plain values.
pub struct CandidateView {
    pub scan_offset: u64,
    pub mapped_block_id: Option<u32>,
    pub structural_status: Seq<char>,
    pub header_status: Seq<char>,
    pub header_reason: Seq<char>,
    pub payload_bounds_status: Seq<char>,
    pub payload_hash_status: Seq<char>,
    pub dictionary_required: bool,
    pub dictionary_id: Option<u32>,
    pub dictionary_dependency_status: Seq<char>,
    pub decompression_status: Seq<char>,
    pub raw_hash_status: Seq<char>,
    pub content_verification_status: Seq<char>,
    pub content_verification_reasons: Seq<ReasonCode>,
    pub usable_for_indexed_planning: bool,
    pub verified_raw_len: Option<u64>,
}

impl View for BlockCandidate {
    type V = CandidateView;

    open spec fn view(&self) -> CandidateView {
        CandidateView {
            scan_offset: self.scan_offset,
            mapped_block_id: self.mapped_block_id,
            structural_status: self.structural_status@,
            header_status: self.header_status@,
            header_reason: self.header_reason@,
            payload_bounds_status: self.payload_bounds_status@,
            payload_hash_status: self.payload_hash_status@,
            dictionary_required: self.dictionary_required,
            dictionary_id: self.dictionary_id,
            dictionary_dependency_status: self.dictionary_dependency_status@,
            decompression_status: self.decompression_status@,
            raw_hash_status: self.raw_hash_status@,
            content_verification_status: self.content_verification_status@,
            content_verification_reasons: self.content_verification_reasons@,
            usable_for_indexed_planning: self.usable_for_indexed_planning,
            verified_raw_len: self.verified_raw_len,
        }
    }
}

/// Whether the dictionary a block needs is there: not needed, verified,
/// missing from a present dictionary set, or unresolved when no dictionary
/// is available.
pub open spec fn dependency_status(h: Blk3HeaderView, ids: Seq<u32>, available: bool) -> Seq<char> {
    if !h.uses_dict {
        "not_required"@
    } else if ids.contains(h.dict_id) {
        "satisfied"@
    } else if available {
        "missing"@
    } else {
        "unresolved"@
    }
}

/// `Some` hash matching `digest` verifies, a different one mismatches, none is unavailable.
pub open spec fn hash_status(expected: Option<Seq<u8>>, digest: Seq<u8>) -> Seq<char> {
    match expected {
        Some(e) => if digest == e { "verified"@ } else { "mismatch"@ },
        None => "unavailable"@,
    }
}

/// The status of a raw hash that was not checked.
pub open spec fn unchecked_raw_status(h: Blk3HeaderView) -> Seq<char> {
    if h.raw_hash is Some { "not_attempted"@ } else { "unavailable"@ }
}

/// The reasons a candidate with a parsed header fails content
/// verification, in reporting order.
pub open spec fn failure_reasons(
    in_bounds: bool,
    payload_hash_status: Seq<char>,
    dependency: Seq<char>,
    decompression: Seq<char>,
    raw_hash_status: Seq<char>,
) -> Seq<ReasonCode> {
    (if !in_bounds { seq![ReasonCode::PayloadOutOfBounds] } else { seq![] })
        + (if payload_hash_status == "mismatch"@ { seq![ReasonCode::PayloadHashMismatch] } else { seq![] })
        + (if dependency == "missing"@ || dependency == "unresolved"@ { seq![ReasonCode::DictionaryDependencyUnsatisfied] } else { seq![] })
        + (if decompression != "success"@ { seq![ReasonCode::DecompressionNotSuccessful] } else { seq![] })
        + (if raw_hash_status == "mismatch"@ { seq![ReasonCode::RawHashMismatch] } else { seq![] })
}

/// A candidate before any check: detected, header invalid.
pub open spec fn detected_candidate(offset: int) -> CandidateView {
    CandidateView {
        scan_offset: offset as u64,
        mapped_block_id: None,
        structural_status: "detected"@,
        header_status: "invalid"@,
        header_reason: "header_parse_failed"@,
        payload_bounds_status: "unknown"@,
        payload_hash_status: "unavailable"@,
        dictionary_required: false,
        dictionary_id: None,
        dictionary_dependency_status: "not_required"@,
        decompression_status: "not_attempted"@,
        raw_hash_status: "not_attempted"@,
        content_verification_status: "not_content_verified"@,
        content_verification_reasons: seq![ReasonCode::HeaderInvalid],
        usable_for_indexed_planning: false,
        verified_raw_len: None,
    }
}

/// The payload of a parsed header lies within the bytes.
pub open spec fn payload_range(offset: int, h: Blk3HeaderView, len: int) -> Option<(int, int)> {
    let po = offset + (h.header_len as usize) as int;
    let pe = po + (h.comp_len as usize) as int;
    if pe <= usize::MAX && pe <= len { Some((po, pe)) } else { None }
}

/// The verdict on a candidate whose header parsed: bounds, payload hash,
/// dictionary dependency, decompression and raw hash, and the reasons
/// content verification fails (none: content verified).
pub open spec fn checked_candidate(b: Seq<u8>, offset: int, h: Blk3HeaderView, ids: Seq<u32>, available: bool) -> CandidateView {
    let dep = dependency_status(h, ids, available);
    let range = payload_range(offset, h, b.len() as int);
    let in_bounds = range is Some;
    let payload = match range { Some(r) => b.subrange(r.0, r.1), None => seq![] };
    let phs = if in_bounds { hash_status(h.payload_hash, blake3_digest(payload)) } else { "unavailable"@ };
    let can_decode = dep == "satisfied"@ || dep == "not_required"@;
    let decoded = zstd_decoded(payload);
    let dec = if !in_bounds || !can_decode {
        "not_attempted"@
    } else if h.codec != 1 {
        "unsupported_codec"@
    } else {
        match decoded { Some(_) => "success"@, None => "failed"@ }
    };
    let rhs = if !in_bounds {
        "not_attempted"@
    } else if !can_decode {
        unchecked_raw_status(h)
    } else if h.codec != 1 {
        "not_attempted"@
    } else {
        match decoded {
            Some(raw) => hash_status(h.raw_hash, blake3_digest(raw)),
            None => unchecked_raw_status(h),
        }
    };
    let vlen = if in_bounds && can_decode && h.codec == 1 {
        match decoded {
            Some(raw) => if raw.len() == h.raw_len { Some(h.raw_len) } else { None },
            None => None,
        }
    } else {
        None
    };
    let reasons = failure_reasons(in_bounds, phs, dep, dec, rhs);
    CandidateView {
        header_status: "valid"@,
        header_reason: "ok"@,
        dictionary_required: h.uses_dict,
        dictionary_id: if h.uses_dict { Some(h.dict_id) } else { None },
        dictionary_dependency_status: dep,
        payload_bounds_status: if in_bounds { "in_bounds"@ } else { "out_of_bounds"@ },
        payload_hash_status: phs,
        decompression_status: dec,
        raw_hash_status: rhs,
        verified_raw_len: vlen,
        content_verification_status: if reasons.len() == 0 { "content_verified"@ } else { "not_content_verified"@ },
        content_verification_reasons: if reasons.len() == 0 { seq![ReasonCode::AllRequiredChecksPassed] } else { reasons },
        usable_for_indexed_planning: reasons.len() == 0,
        ..detected_candidate(offset)
    }
}

/// The verdict on the magic occurrence at `offset`, given what the header
/// parser made of the header window (`None`: it refused the header).
pub open spec fn spec_candidate(b: Seq<u8>, offset: int, header: Option<Blk3HeaderView>, ids: Seq<u32>, available: bool) -> CandidateView {
    match spec_header_window(b, offset) {
        HeaderWindow::PrefixOutOfBounds => CandidateView {
            header_reason: "header_prefix_out_of_bounds"@,
            content_verification_reasons: seq![ReasonCode::HeaderPrefixOutOfBounds],
            ..detected_candidate(offset)
        },
        HeaderWindow::OutOfBounds => CandidateView {
            header_reason: "header_out_of_bounds"@,
            content_verification_reasons: seq![ReasonCode::HeaderOutOfBounds],
            ..detected_candidate(offset)
        },
        HeaderWindow::Within { .. } => match header {
            Some(h) => checked_candidate(b, offset, h, ids, available),
            None => detected_candidate(offset),
        },
    }
}

fn bytes_equal(a: &[u8], b: &[u8]) -> (r: bool)
    ensures
        r == (a@ == b@),
{
    if a.len() != b.len() {
        return false;
    }
    let mut i: usize = 0;
    while i < a.len()
        invariant
            i <= a@.len(),
            a@.len() == b@.len(),
            a@.take(i as int) == b@.take(i as int),
        decreases a.len() - i,
    {
        if a[i] != b[i] {
            return false;
        }
        proof {
            assert(a@.take(i + 1) =~= a@.take(i as int).push(a@[i as int]));
            assert(b@.take(i + 1) =~= b@.take(i as int).push(b@[i as int]));
        }
        i = i + 1;
    }
    proof {
        assert(a@.take(a@.len() as int) =~= a@);
        assert(b@.take(b@.len() as int) =~= b@);
    }
    true
}

fn check_hash(expected: &Option<Vec<u8>>, data: &[u8]) -> (r: &'static str)
    ensures
        r@ == hash_status(
            match *expected { Some(h) => Some(h@), None => None },
            blake3_digest(data@),
        ),
{
    match expected {
        Some(e) => {
            let digest = blake3_hash(data);
            if bytes_equal(digest.as_slice(), e.as_slice()) { "verified" } else { "mismatch" }
        },
        None => "unavailable",
    }
}

fn contains_id(ids: &[u32], id: u32) -> (r: bool)
    ensures
        r == ids@.contains(id),
{
    let mut i: usize = 0;
    while i < ids.len()
        invariant
            i <= ids@.len(),
            forall|j: int| 0 <= j < i ==> ids@[j] != id,
        decreases ids.len() - i,
    {
        if ids[i] == id {
            proof {
                assert(ids@[i as int] == id);
            }
            return true;
        }
        i = i + 1;
    }
    false
}

fn checked_header_candidate(
    bytes: &[u8],
    offset: usize,
    header: &Blk3Header,
    verified_dict_ids: &[u32],
    dictionary_available: bool,
) -> (c: BlockCandidate)
    requires
        offset <= bytes@.len(),
        offset + header.header_len as usize <= usize::MAX,
    ensures
        c@ == checked_candidate(bytes@, offset as int, header@, verified_dict_ids@, dictionary_available),
{
    proof {
        reveal_strlit("satisfied");
        reveal_strlit("not_required");
        reveal_strlit("missing");
        reveal_strlit("unresolved");
        reveal_strlit("success");
        reveal_strlit("failed");
        reveal_strlit("not_attempted");
        reveal_strlit("unsupported_codec");
        reveal_strlit("mismatch");
        reveal_strlit("verified");
        reveal_strlit("unavailable");
    }
    let ghost h = header@;
    let dep: &'static str = if !header.uses_dict {
        "not_required"
    } else if contains_id(verified_dict_ids, header.dict_id) {
        "satisfied"
    } else if dictionary_available {
        "missing"
    } else {
        "unresolved"
    };
    let po = offset + header.header_len as usize;
    let range: Option<usize> = match po.checked_add(header.comp_len as usize) {
        Some(pe) => if pe <= bytes.len() { Some(pe) } else { None },
        None => None,
    };
    proof {
        assert(range is Some <==> payload_range(offset as int, h, bytes@.len() as int) is Some);
    }
    let can_decode = crate::text::str_equals(dep, "satisfied") || crate::text::str_equals(dep, "not_required");
    let mut phs: &'static str = "unavailable";
    let mut dec: &'static str = "not_attempted";
    let mut rhs: &'static str = "not_attempted";
    let mut vlen: Option<u64> = None;
    let in_bounds = range.is_some();
    match range {
        Some(pe) => {
            let payload = vstd::slice::slice_subrange(bytes, po, pe);
            phs = check_hash(&header.payload_hash, payload);
            if !can_decode {
                rhs = if header.raw_hash.is_some() { "not_attempted" } else { "unavailable" };
            } else if header.codec != 1 {
                dec = "unsupported_codec";
            } else {
                match zstd_decode_all(payload) {
                    Some(raw) => {
                        dec = "success";
                        if raw.len() as u64 == header.raw_len {
                            vlen = Some(raw.len() as u64);
                        }
                        rhs = check_hash(&header.raw_hash, raw.as_slice());
                    },
                    None => {
                        dec = "failed";
                        rhs = if header.raw_hash.is_some() { "not_attempted" } else { "unavailable" };
                    },
                }
            }
        },
        None => {},
    }
    let mut reasons: Vec<ReasonCode> = Vec::new();
    if !in_bounds {
        reasons.push(ReasonCode::PayloadOutOfBounds);
    }
    if crate::text::str_equals(phs, "mismatch") {
        reasons.push(ReasonCode::PayloadHashMismatch);
    }
    if crate::text::str_equals(dep, "missing") || crate::text::str_equals(dep, "unresolved") {
        reasons.push(ReasonCode::DictionaryDependencyUnsatisfied);
    }
    if !crate::text::str_equals(dec, "success") {
        reasons.push(ReasonCode::DecompressionNotSuccessful);
    }
    if crate::text::str_equals(rhs, "mismatch") {
        reasons.push(ReasonCode::RawHashMismatch);
    }
    proof {
        assert(reasons@ =~= failure_reasons(in_bounds, phs@, dep@, dec@, rhs@));
    }
    let verified = reasons.len() == 0;
    if verified {
        reasons.push(ReasonCode::AllRequiredChecksPassed);
    }
    BlockCandidate {
        scan_offset: offset as u64,
        mapped_block_id: None,
        structural_status: "detected",
        header_status: "valid",
        header_reason: "ok",
        payload_bounds_status: if in_bounds { "in_bounds" } else { "out_of_bounds" },
        payload_hash_status: phs,
        dictionary_required: header.uses_dict,
        dictionary_id: if header.uses_dict { Some(header.dict_id) } else { None },
        dictionary_dependency_status: dep,
        decompression_status: dec,
        raw_hash_status: rhs,
        content_verification_status: if verified { "content_verified" } else { "not_content_verified" },
        content_verification_reasons: reasons,
        usable_for_indexed_planning: verified,
        verified_raw_len: vlen,
    }
}

fn detected(offset: usize, header_reason: &'static str, reason: ReasonCode) -> (c: BlockCandidate)
    ensures
        c@ == (CandidateView {
            header_reason: header_reason@,
            content_verification_reasons: seq![reason],
            ..detected_candidate(offset as int)
        }),
{
    let mut reasons: Vec<ReasonCode> = Vec::new();
    reasons.push(reason);
    proof {
        assert(reasons@ =~= seq![reason]);
    }
    BlockCandidate {
        scan_offset: offset as u64,
        mapped_block_id: None,
        structural_status: "detected",
        header_status: "invalid",
        header_reason,
        payload_bounds_status: "unknown",
        payload_hash_status: "unavailable",
        dictionary_required: false,
        dictionary_id: None,
        dictionary_dependency_status: "not_required",
        decompression_status: "not_attempted",
        raw_hash_status: "not_attempted",
        content_verification_status: "not_content_verified",
        content_verification_reasons: reasons,
        usable_for_indexed_planning: false,
        verified_raw_len: None,
    }
}

/// Verifies the block candidate at a magic occurrence: the header window
/// must lie within the bytes and the header must parse (`header` is what
/// the header parser made of the window); then the payload must lie within
/// the bytes, its hash (if stated) must match, the dictionary it needs must
/// be verified, it must decompress, and the raw hash (if stated) must match.
pub fn evaluate_blk3_candidate(
    bytes: &[u8],
    offset: usize,
    header: Option<Blk3Header>,
    verified_dict_ids: &[u32],
    dictionary_available: bool,
) -> (c: BlockCandidate)
    requires
        magic_at(bytes@, offset as int),
        match header {
            Some(h) => offset + h.header_len as usize <= usize::MAX,
            None => true,
        },
    ensures
        c@ == spec_candidate(
            bytes@,
            offset as int,
            match header { Some(h) => Some(h@), None => None },
            verified_dict_ids@,
            dictionary_available,
        ),
{
    match header_window(bytes, offset) {
        HeaderWindow::PrefixOutOfBounds => detected(offset, "header_prefix_out_of_bounds", ReasonCode::HeaderPrefixOutOfBounds),
        HeaderWindow::OutOfBounds => detected(offset, "header_out_of_bounds", ReasonCode::HeaderOutOfBounds),
        HeaderWindow::Within { .. } => match header {
            Some(h) => checked_header_candidate(bytes, offset, &h, verified_dict_ids, dictionary_available),
            None => {
                let c = detected(offset, "header_parse_failed", ReasonCode::HeaderInvalid);
                proof {
                    assert(c@ == detected_candidate(offset as int));
                }
                c
            },
        },
    }
}


/// A parsed header's view, if any.
pub open spec fn header_view(h: Option<Blk3Header>) -> Option<Blk3HeaderView> {
    match h {
        Some(x) => Some(x@),
        None => None,
    }
}

/// Every parsed header's length keeps its payload offset within `usize`.
pub open spec fn headers_fit(offsets: Seq<usize>, headers: Seq<Option<Blk3Header>>) -> bool {
    forall|i: int| 0 <= i < offsets.len() ==> match #[trigger] headers[i] {
        Some(h) => offsets[i] + h.header_len as usize <= usize::MAX,
        None => true,
    }
}

/// Scans the bytes for the BLK3 magic and verifies the candidate at every
/// occurrence; `headers[i]` is what the header parser made of the header
/// window of the `i`-th occurrence.
pub fn scan_blk3_candidates(
    bytes: &[u8],
    headers: Vec<Option<Blk3Header>>,
    verified_dict_ids: &[u32],
    dictionary_available: bool,
) -> (out: Vec<BlockCandidate>)
    requires
        headers@.len() == magic_offsets(bytes@, bytes@.len() as int).len(),
        headers_fit(magic_offsets(bytes@, bytes@.len() as int), headers@),
    ensures
        out@.len() == headers@.len(),
        forall|i: int| 0 <= i < out@.len() ==> (#[trigger] out@[i])@ == spec_candidate(
            bytes@,
            magic_offsets(bytes@, bytes@.len() as int)[i] as int,
            header_view(headers@[i]),
            verified_dict_ids@,
            dictionary_available,
        ),
{
    let offsets = blk3_magic_offsets(bytes);
    let ghost hs = headers@;
    let blen = bytes.len();
    proof {
        assert(bytes@.len() == blen);
        lemma_magic_offsets_valid(bytes@, bytes@.len() as int);
    }
    let mut rest = headers;
    let mut out: Vec<BlockCandidate> = Vec::new();
    let mut i: usize = 0;
    while i < offsets.len()
        invariant
            i <= offsets@.len(),
            offsets@ == magic_offsets(bytes@, bytes@.len() as int),
            hs.len() == offsets@.len(),
            headers_fit(offsets@, hs),
            rest@ == hs.subrange(i as int, hs.len() as int),
            forall|j: int| 0 <= j < offsets@.len() ==> magic_at(bytes@, #[trigger] offsets@[j] as int),
            out@.len() == i,
            forall|j: int| 0 <= j < i ==> (#[trigger] out@[j])@ == spec_candidate(
                bytes@,
                offsets@[j] as int,
                header_view(hs[j]),
                verified_dict_ids@,
                dictionary_available,
            ),
        decreases offsets.len() - i,
    {
        let ghost old_rest = rest@;
        let h = rest.remove(0);
        proof {
            assert(h == hs[i as int]);
            assert(rest@ =~= hs.subrange(i + 1, hs.len() as int));
        }
        let c = evaluate_blk3_candidate(bytes, offsets[i], h, verified_dict_ids, dictionary_available);
        out.push(c);
        i = i + 1;
    }
    out
}

pub(crate) proof fn lemma_magic_offsets_valid(bytes: Seq<u8>, n: int)
    requires
        bytes.len() <= usize::MAX,
    ensures
        forall|j: int| 0 <= j < magic_offsets(bytes, n).len() ==> magic_at(bytes, #[trigger] magic_offsets(bytes, n)[j] as int),
    decreases n,
{
    if n > 0 {
        lemma_magic_offsets_valid(bytes, n - 1);
        if magic_at(bytes, n - 1) {
            let prev = magic_offsets(bytes, n - 1);
            assert(magic_offsets(bytes, n) == prev.push((n - 1) as usize));
            assert forall|j: int| 0 <= j < prev.push((n - 1) as usize).len() implies magic_at(bytes, #[trigger] prev.push((n - 1) as usize)[j] as int) by {
                if j < prev.len() {
                    assert(prev.push((n - 1) as usize)[j] == prev[j]);
                }
            }
        } else {
            assert(magic_offsets(bytes, n) == magic_offsets(bytes, n - 1));
        }
    }
}

/// Where an indexed block's header starts, as the block index gives it.
#[derive(Clone, Copy, Debug, PartialEq, Eq, Structural)]
pub struct BlockSpan {
    pub block_id: u32,
    pub header_offset: u64,
}

/// The last candidate found at a scan offset.
pub open spec fn last_candidate_at(cands: Seq<CandidateView>, offset: u64) -> Option<CandidateView>
    decreases cands.len(),
{
    if cands.len() == 0 {
        None
    } else if cands.last().scan_offset == offset {
        Some(cands.last())
    } else {
        last_candidate_at(cands.drop_last(), offset)
    }
}

/// What a candidate establishes about its block.
pub open spec fn candidate_verification(c: CandidateView) -> BlockVerification {
    BlockVerification {
        content_verified: c.content_verification_status == "content_verified"@,
        verified_raw_len: c.verified_raw_len,
    }
}

/// The verification of each indexed block whose header offset has a
/// candidate, by block id (a later span of the same id replaces an earlier one).
pub open spec fn verification_map(spans: Seq<BlockSpan>, cands: Seq<CandidateView>) -> Map<u32, BlockVerification>
    decreases spans.len(),
{
    if spans.len() == 0 {
        Map::empty()
    } else {
        let m = verification_map(spans.drop_last(), cands);
        match last_candidate_at(cands, spans.last().header_offset) {
            Some(c) => m.insert(spans.last().block_id, candidate_verification(c)),
            None => m,
        }
    }
}

/// The views of a list of candidates.
pub open spec fn candidate_views(cs: Seq<BlockCandidate>) -> Seq<CandidateView> {
    cs.map_values(|c: BlockCandidate| c@)
}

fn find_candidate(cands: &Vec<BlockCandidate>, offset: u64) -> (r: Option<usize>)
    ensures
        match r {
            Some(k) => k < cands@.len() && last_candidate_at(candidate_views(cands@), offset) == Some(cands@[k as int]@),
            None => last_candidate_at(candidate_views(cands@), offset) is None,
        },
{
    let ghost cv = candidate_views(cands@);
    let mut i = cands.len();
    proof {
        assert(cv.take(i as int) =~= cv);
    }
    while i > 0
        invariant
            i <= cands@.len(),
            cv == candidate_views(cands@),
            last_candidate_at(cv, offset) == last_candidate_at(cv.take(i as int), offset),
        decreases i,
    {
        proof {
            assert(cv.take(i as int).drop_last() =~= cv.take(i - 1));
            assert(cv.take(i as int).last() == cands@[i - 1]@);
        }
        if cands[i - 1].scan_offset == offset {
            return Some(i - 1);
        }
        i = i - 1;
    }
    None
}

/// Builds the verification of every indexed block: each span of the block
/// index (`spans`, `None` when the index could not be read) is matched to
/// the candidate the scan found at its header offset, if any. Dictionaries
/// count as available.
pub fn build_block_verification(
    spans: Option<Vec<BlockSpan>>,
    archive_bytes: &[u8],
    headers: Vec<Option<Blk3Header>>,
    verified_dict_ids: &[u32],
) -> (out: BTreeMap<u32, BlockVerification>)
    requires
        headers@.len() == magic_offsets(archive_bytes@, archive_bytes@.len() as int).len(),
        headers_fit(magic_offsets(archive_bytes@, archive_bytes@.len() as int), headers@),
    ensures
        match spans {
            Some(ss) => exists|cands: Seq<BlockCandidate>| {
                &&& cands.len() == headers@.len()
                &&& forall|i: int| 0 <= i < cands.len() ==> (#[trigger] cands[i])@ == spec_candidate(
                    archive_bytes@,
                    magic_offsets(archive_bytes@, archive_bytes@.len() as int)[i] as int,
                    header_view(headers@[i]),
                    verified_dict_ids@,
                    true,
                )
                &&& out@ == verification_map(ss@, candidate_views(cands))
            },
            None => out@ == Map::<u32, BlockVerification>::empty(),
        },
{
    let mut out: BTreeMap<u32, BlockVerification> = BTreeMap::new();
    let ss = match spans {
        Some(ss) => ss,
        None => return out,
    };
    let cands = scan_blk3_candidates(archive_bytes, headers, verified_dict_ids, true);
    let ghost cv = candidate_views(cands@);
    let mut i: usize = 0;
    proof {
        assert(ss@.take(0) =~= Seq::<BlockSpan>::empty());
    }
    while i < ss.len()
        invariant
            i <= ss@.len(),
            cv == candidate_views(cands@),
            out@ == verification_map(ss@.take(i as int), cv),
        decreases ss.len() - i,
    {
        let span = ss[i];
        proof {
            assert(ss@.take(i + 1).drop_last() =~= ss@.take(i as int));
            assert(ss@.take(i + 1).last() == span);
        }
        match find_candidate(&cands, span.header_offset) {
            Some(k) => {
                let c = &cands[k];
                let content_verified = crate::text::str_equals(c.content_verification_status, "content_verified");
                out.insert(span.block_id, BlockVerification { content_verified, verified_raw_len: c.verified_raw_len });
            },
            None => {},
        }
        i = i + 1;
    }
    proof {
        assert(ss@.take(ss@.len() as int) =~= ss@);
    }
    out
}

} // verus!
