use std::collections::BTreeMap;

use crushr::salvage::candidates::{
    blk3_magic_offsets, build_block_verification, header_window, scan_blk3_candidates, Blk3Header, BlockSpan, HeaderWindow,
};
use crushr::salvage::discovery::{classify_file, status_counts};
use crushr::salvage::export::{decode_verified_blocks, export_plan, exported_artifacts, BlockExportData};
use crushr::salvage::types::{
    BlockVerification, Extent, FilePlan, MappingProvenance, PlanReason, PlanStatus, ReasonCode, RecoveryClassification,
};

const HEADER_LEN: usize = 16;

fn header(payload: &[u8], raw: &[u8], raw_hash: Option<Vec<u8>>, meta: bool) -> Blk3Header {
    Blk3Header {
        header_len: HEADER_LEN as u64,
        uses_dict: false,
        dict_id: 0,
        codec: 1,
        comp_len: payload.len() as u64,
        raw_len: raw.len() as u64,
        payload_hash: Some(blake3::hash(payload).as_bytes().to_vec()),
        raw_hash,
        meta_frame: meta,
    }
}

/// A block: magic, little-endian header length, padding, then the payload.
fn block_bytes(payload: &[u8]) -> Vec<u8> {
    let mut b = b"BLK3".to_vec();
    b.extend_from_slice(&(HEADER_LEN as u16).to_le_bytes());
    b.resize(HEADER_LEN, 0);
    b.extend_from_slice(payload);
    b
}

struct Block {
    raw: Vec<u8>,
    payload: Vec<u8>,
    offset: usize,
}

fn archive(raws: &[&[u8]]) -> (Vec<u8>, Vec<Block>) {
    let mut bytes = Vec::new();
    let mut blocks = Vec::new();
    for raw in raws {
        let payload = zstd::encode_all(std::io::Cursor::new(raw.to_vec()), 3).unwrap();
        let offset = bytes.len();
        bytes.extend_from_slice(&block_bytes(&payload));
        blocks.push(Block { raw: raw.to_vec(), payload, offset });
    }
    (bytes, blocks)
}

fn good_header(b: &Block) -> Blk3Header {
    header(&b.payload, &b.raw, Some(blake3::hash(&b.raw).as_bytes().to_vec()), false)
}

fn plan(path: &str, extents: Vec<Extent>, size: u64, status: PlanStatus) -> FilePlan {
    FilePlan {
        mapping_provenance: MappingProvenance::RedundantVerifiedMap,
        recovery_classification: RecoveryClassification::FullVerified,
        file_path: path.to_string(),
        status,
        reason: PlanReason::AllRequiredDependenciesVerified,
        failure_reasons: Vec::new(),
        required_block_ids: extents.iter().map(|e| e.block_id).collect(),
        extents,
        file_size: size,
    }
}

#[test]
fn magic_offsets_and_header_windows() {
    let (bytes, blocks) = archive(&[b"hello", b"world!"]);
    assert_eq!(blk3_magic_offsets(&bytes), vec![0, blocks[1].offset]);
    assert!(matches!(header_window(&bytes, 0), HeaderWindow::Within { end: 16 }));
    assert!(matches!(header_window(b"BLK3\x10", 0), HeaderWindow::PrefixOutOfBounds));
    assert!(matches!(header_window(b"BLK3\x40\x00", 0), HeaderWindow::OutOfBounds));
}

#[test]
fn scanned_candidates_verify_content() {
    let (bytes, blocks) = archive(&[b"alpha", b"beta"]);
    let bad_raw = header(&blocks[1].payload, &blocks[1].raw, Some(vec![0u8; 32]), false);
    let cands = scan_blk3_candidates(&bytes, vec![Some(good_header(&blocks[0])), Some(bad_raw)], &[], true);
    assert_eq!(cands.len(), 2);
    assert_eq!(cands[0].content_verification_status, "content_verified");
    assert_eq!(cands[0].verified_raw_len, Some(5));
    assert_eq!(cands[1].content_verification_status, "not_content_verified");
    assert_eq!(cands[1].raw_hash_status, "mismatch");
    assert!(cands[1].content_verification_reasons.contains(&ReasonCode::RawHashMismatch));
    let unparsed = scan_blk3_candidates(&bytes, vec![None, None], &[], true);
    assert_eq!(unparsed[0].header_status, "invalid");
    assert!(unparsed[0].content_verification_reasons.contains(&ReasonCode::HeaderInvalid));
}

#[test]
fn dictionary_blocks_need_their_dictionary() {
    let (bytes, blocks) = archive(&[b"dict-user"]);
    let mut h = good_header(&blocks[0]);
    h.uses_dict = true;
    h.dict_id = 9;
    let missing = scan_blk3_candidates(&bytes, vec![Some(h)], &[], true);
    assert_eq!(missing[0].dictionary_dependency_status, "missing");
    assert!(missing[0].content_verification_reasons.contains(&ReasonCode::DictionaryDependencyUnsatisfied));
}

#[test]
fn block_verification_maps_index_spans_to_candidates() {
    let (bytes, blocks) = archive(&[b"one", b"two"]);
    let spans = vec![BlockSpan { block_id: 1, header_offset: 0 }, BlockSpan { block_id: 2, header_offset: blocks[1].offset as u64 }];
    let headers = vec![Some(good_header(&blocks[0])), None];
    let bv = build_block_verification(Some(spans), &bytes, headers, &[]);
    assert!(bv.get(&1).unwrap().content_verified);
    assert_eq!(bv.get(&1).unwrap().verified_raw_len, Some(3));
    assert!(!bv.get(&2).unwrap().content_verified);
    let none = build_block_verification(None, &bytes, vec![None, None], &[]);
    assert!(none.is_empty());
}

#[test]
fn file_classification_needs_every_block_verified() {
    let mut bv = BTreeMap::new();
    bv.insert(1u32, BlockVerification { content_verified: true, verified_raw_len: Some(10) });
    bv.insert(2u32, BlockVerification { content_verified: false, verified_raw_len: None });
    let ok = classify_file(&[Extent { block_id: 1, offset: 0, len: 10 }], &[1], &bv);
    assert_eq!(ok.0, PlanStatus::Salvageable);
    let bad = classify_file(&[Extent { block_id: 2, offset: 0, len: 4 }], &[2, 3], &bv);
    assert_eq!(bad.0, PlanStatus::Unsalvageable);
    assert_eq!(bad.2, vec![ReasonCode::RequiredBlockUnmapped, ReasonCode::RequiredBlockNotContentVerified]);
    let long = classify_file(&[Extent { block_id: 1, offset: 5, len: 10 }], &[1], &bv);
    assert_eq!(long.2, vec![ReasonCode::RequiredExtentOutOfBounds]);
    let empty = classify_file(&[], &[], &bv);
    assert_eq!(empty.1, PlanReason::Code(ReasonCode::NoRequiredBlocks));
}

fn decoded(raws: &[&[u8]], ids: &[u32]) -> Vec<BlockExportData> {
    let (bytes, blocks) = archive(raws);
    let headers: Vec<Option<Blk3Header>> = blocks.iter().map(|b| Some(good_header(b))).collect();
    let mut cands = scan_blk3_candidates(&bytes, blocks.iter().map(|b| Some(good_header(b))).collect(), &[], true);
    for (c, id) in cands.iter_mut().zip(ids) {
        c.mapped_block_id = Some(*id);
    }
    decode_verified_blocks(&bytes, &cands, &headers)
}

#[test]
fn verified_blocks_decode_in_block_id_order() {
    let out = decoded(&[b"first-raw", b"second-raw"], &[7, 3]);
    assert_eq!(out.len(), 2);
    assert_eq!(out[0].block_id, 3);
    assert_eq!(out[0].payload, b"second-raw".to_vec());
    assert_eq!(out[1].block_id, 7);
    assert_eq!(out[1].archive_offset, 0);
    assert_eq!(out[1].raw_hash.as_deref(), Some(blake3::hash(b"first-raw").to_hex().as_str()));
}

#[test]
fn a_later_candidate_of_a_block_replaces_the_earlier_one() {
    let out = decoded(&[b"old", b"new"], &[4, 4]);
    assert_eq!(out.len(), 1);
    assert_eq!(out[0].payload, b"new".to_vec());
}

#[test]
fn unmapped_or_unverified_candidates_are_not_decoded() {
    let (bytes, blocks) = archive(&[b"data"]);
    let headers = vec![Some(good_header(&blocks[0]))];
    let cands = scan_blk3_candidates(&bytes, vec![Some(good_header(&blocks[0]))], &[], true);
    assert!(decode_verified_blocks(&bytes, &cands, &headers).is_empty());
    let mut wrong = scan_blk3_candidates(&bytes, vec![Some(good_header(&blocks[0]))], &[], true);
    wrong[0].mapped_block_id = Some(1);
    let mut bad = good_header(&blocks[0]);
    bad.raw_hash = Some(vec![1u8; 32]);
    assert!(decode_verified_blocks(&bytes, &wrong, &vec![Some(bad)]).is_empty());
}

#[test]
fn export_plan_recovers_whole_files_and_names_artifacts() {
    let blocks = decoded(&[b"HELLO _____", b"______WORLD"], &[1, 2]);
    let whole = plan(
        "dir/greeting.txt",
        vec![Extent { block_id: 2, offset: 6, len: 5 }, Extent { block_id: 1, offset: 0, len: 6 }],
        11,
        PlanStatus::Salvageable,
    );
    let partial = plan("a/../b c.txt", vec![Extent { block_id: 9, offset: 0, len: 3 }, Extent { block_id: 1, offset: 3, len: 2 }], 5, PlanStatus::Unsalvageable);
    let p = export_plan(blocks, vec![whole, partial]);
    assert_eq!(p.blocks.len(), 2);
    assert_eq!(p.blocks[0].bin_rel, "blocks/block_0_1.bin");
    assert_eq!(p.blocks[1].json_rel, format!("blocks/block_{}_2.json", p.blocks[1].block.archive_offset));
    assert_eq!(p.files.len(), 2);
    assert_eq!(p.files[0].file_path, "a/../b c.txt");
    assert_eq!(p.files[0].extents.len(), 1);
    assert_eq!(p.files[0].extents[0].extent_index, 1);
    assert_eq!(p.files[0].extents[0].payload, b"LO".to_vec());
    assert_eq!(p.files[0].extents[0].bin_rel, "files/a/b_c.txt/extent_1.bin");
    assert!(p.files[0].complete_file.is_none());
    let g = &p.files[1];
    assert_eq!(g.extents.len(), 2);
    assert_eq!(g.extents[0].extent.offset, 0);
    assert_eq!(g.complete_file.as_deref(), Some("files/dir/greeting.txt/file_verified.bin"));
    assert_eq!(g.complete_payload, b"HELLO WORLD".to_vec());
    assert_eq!(g.complete_payload.len() as u64, 11);
    let names = exported_artifacts(&p);
    assert_eq!(names.exported_block_artifacts.len(), 4);
    assert_eq!(names.exported_fragment_artifacts.len(), 6);
    assert_eq!(names.exported_complete_file_artifacts, vec!["files/dir/greeting.txt/file_verified.bin".to_string()]);
}

#[test]
fn extents_past_the_block_or_with_gaps_are_not_full() {
    let blocks = decoded(&[b"abcdef"], &[1]);
    let gap = plan("g", vec![Extent { block_id: 1, offset: 0, len: 2 }, Extent { block_id: 1, offset: 3, len: 2 }], 4, PlanStatus::Salvageable);
    let past = plan("h", vec![Extent { block_id: 1, offset: 4, len: 5 }], 5, PlanStatus::Salvageable);
    let p = export_plan(blocks, vec![past, gap]);
    assert_eq!(p.files[0].file_path, "g");
    assert_eq!(p.files[0].extents.len(), 2);
    assert!(p.files[0].complete_file.is_none());
    assert!(p.files[0].complete_payload.is_empty());
    assert!(p.files[1].extents.is_empty());
}

#[test]
fn plans_with_equal_paths_keep_their_order() {
    let blocks = decoded(&[b"abcdef"], &[1]);
    let first = plan("same", vec![Extent { block_id: 1, offset: 0, len: 2 }], 2, PlanStatus::Salvageable);
    let second = plan("same", vec![Extent { block_id: 1, offset: 0, len: 3 }], 3, PlanStatus::Unsalvageable);
    let earlier = plan("aardvark", vec![], 0, PlanStatus::Unmappable);
    let p = export_plan(blocks, vec![first, second, earlier]);
    assert_eq!(p.files.len(), 3);
    assert_eq!(p.files[0].file_path, "aardvark");
    assert_eq!(p.files[1].extents[0].payload, b"ab".to_vec());
    assert_eq!(p.files[2].extents[0].payload, b"abc".to_vec());
}

#[test]
fn plans_are_counted_by_status() {
    let plans = vec![
        plan("a", vec![], 0, PlanStatus::Unmappable),
        plan("b", vec![], 0, PlanStatus::Salvageable),
        plan("c", vec![], 0, PlanStatus::Unsalvageable),
        plan("d", vec![], 0, PlanStatus::Salvageable),
    ];
    let c = status_counts(&plans);
    assert_eq!((c.salvageable_files, c.unsalvageable_files, c.unmappable_files), (2, 1, 1));
    let none = status_counts(&Vec::new());
    assert_eq!((none.salvageable_files, none.unsalvageable_files, none.unmappable_files), (0, 0, 0));
}
