use std::collections::BTreeMap;

use crushr::json::JsonValue;
use crushr::lab::dictionary::{
    apply_dictionary_target_corruption, corrupt_dictionary_block_payload, estimate_metadata_byte_size,
    parse_metadata_json_blocks_with_offsets, MetaFrame, MetadataJsonBlock,
};
use crushr::salvage::candidates::Blk3Header;
use crushr::salvage::scan::{parse_experimental_metadata_records, verified_metadata_payloads};
use crushr::salvage::types::BlockVerification;

const HEADER_LEN: usize = 16;

fn frame(raw: &[u8], meta: bool, with_raw_hash: bool) -> (Vec<u8>, Blk3Header) {
    let payload = zstd::encode_all(std::io::Cursor::new(raw.to_vec()), 3).unwrap();
    let mut b = b"BLK3".to_vec();
    b.extend_from_slice(&(HEADER_LEN as u16).to_le_bytes());
    b.resize(HEADER_LEN, 0);
    b.extend_from_slice(&payload);
    let h = Blk3Header {
        header_len: HEADER_LEN as u64,
        uses_dict: false,
        dict_id: 0,
        codec: 1,
        comp_len: payload.len() as u64,
        raw_len: raw.len() as u64,
        payload_hash: None,
        raw_hash: if with_raw_hash { Some(blake3::hash(raw).as_bytes().to_vec()) } else { None },
        meta_frame: meta,
    };
    (b, h)
}

fn obj(members: Vec<(&str, JsonValue)>) -> JsonValue {
    JsonValue::Object(members.into_iter().map(|(k, v)| (k.to_string(), v)).collect())
}

#[test]
fn metadata_frames_are_walked_and_decoded() {
    let (a, ha) = frame(b"{\"schema\":\"x\"}", true, true);
    let (b, hb) = frame(b"payload", false, true);
    let (c, hc) = frame(b"[1,2]", true, true);
    let mut bytes = a.clone();
    bytes.extend_from_slice(b"junk");
    let b_start = bytes.len();
    bytes.extend_from_slice(&b);
    let c_start = bytes.len();
    bytes.extend_from_slice(&c);
    let frames = parse_metadata_json_blocks_with_offsets(&bytes, &vec![Some(ha), Some(hb), Some(hc)]).ok().unwrap();
    assert_eq!(frames.len(), 2);
    assert_eq!(frames[0].block_start, 0);
    assert_eq!(frames[0].payload_start, HEADER_LEN);
    assert_eq!(frames[0].decoded, b"{\"schema\":\"x\"}".to_vec());
    assert_eq!(frames[1].block_start, c_start);
    assert_eq!(frames[1].decoded, b"[1,2]".to_vec());
    assert!(b_start > 0);
}

#[test]
fn metadata_size_estimate_sums_metadata_blocks() {
    let (a, ha) = frame(b"meta-one", true, true);
    let (b, hb) = frame(b"data", false, true);
    let mut bytes = a.clone();
    bytes.extend_from_slice(&b);
    let est = estimate_metadata_byte_size(&bytes, &vec![Some(ha), Some(hb)]);
    assert_eq!(est, a.len() as u64);
    let none = estimate_metadata_byte_size(&bytes, &vec![None, None]);
    assert_eq!(none, 0);
}

#[test]
fn an_undecodable_metadata_frame_fails_the_walk() {
    let mut bytes = b"BLK3".to_vec();
    bytes.extend_from_slice(&(HEADER_LEN as u16).to_le_bytes());
    bytes.resize(HEADER_LEN, 0);
    bytes.extend_from_slice(b"not zstd at all");
    let h = Blk3Header {
        header_len: HEADER_LEN as u64,
        uses_dict: false,
        dict_id: 0,
        codec: 1,
        comp_len: 15,
        raw_len: 0,
        payload_hash: None,
        raw_hash: None,
        meta_frame: true,
    };
    match parse_metadata_json_blocks_with_offsets(&bytes, &vec![Some(h)]) {
        Err(e) => assert_eq!(e.block_start, 0),
        Ok(_) => panic!("expected a decode failure"),
    }
}

#[test]
fn verified_payloads_need_a_matching_raw_hash() {
    let (a, ha) = frame(b"{\"record\":{\"block_id\":3}}", false, true);
    let (b, hb) = frame(b"no-hash", false, false);
    let mut bytes = a.clone();
    bytes.extend_from_slice(&b);
    let out = verified_metadata_payloads(&bytes, &vec![Some(ha), Some(hb)]);
    assert_eq!(out, vec![b"{\"record\":{\"block_id\":3}}".to_vec()]);
}

#[test]
fn records_naming_unverified_blocks_are_dropped() {
    let rec = |id: u64| obj(vec![("record", obj(vec![("block_id", JsonValue::Number(Some(id)))]))]);
    let mut bv = BTreeMap::new();
    bv.insert(1u32, BlockVerification { content_verified: true, verified_raw_len: Some(1) });
    bv.insert(2u32, BlockVerification { content_verified: false, verified_raw_len: None });
    let parsed = vec![Some(rec(1)), Some(rec(2)), None, Some(rec(5)), Some(obj(vec![]))];
    let kept = parse_experimental_metadata_records(parsed, &bv);
    assert_eq!(kept.len(), 3);
    match &kept[1] {
        JsonValue::Object(ms) => assert_eq!(ms[0].0, "record"),
        _ => panic!("expected an object"),
    }
}

fn dict_block(start: usize, end: usize, schema: &str) -> MetadataJsonBlock {
    MetadataJsonBlock {
        frame: MetaFrame { block_start: start, payload_start: start, payload_end: end, decoded: Vec::new() },
        value: obj(vec![("schema", JsonValue::Str(schema.to_string()))]),
    }
}

#[test]
fn dictionary_targets_pick_their_copies() {
    let blocks = vec![
        dict_block(0, 2, "crushr-path-dictionary-copy.v1"),
        dict_block(2, 4, "other"),
        dict_block(4, 6, "crushr-path-dictionary-copy.v2"),
    ];
    let bytes = vec![0u8; 8];
    let primary = apply_dictionary_target_corruption(bytes.clone(), &blocks, "primary_dictionary").ok().unwrap();
    assert_eq!(primary.bytes, vec![0xA7, 0xA7, 0, 0, 0, 0, 0, 0]);
    assert_eq!(primary.rewrite_as_inconsistent, None);
    let mirrored = apply_dictionary_target_corruption(bytes.clone(), &blocks, "mirrored_dictionary").ok().unwrap();
    assert_eq!(mirrored.bytes, vec![0, 0, 0, 0, 0xA7, 0xA7, 0, 0]);
    let both = apply_dictionary_target_corruption(bytes.clone(), &blocks, "both_dictionaries").ok().unwrap();
    assert_eq!(both.bytes, vec![0xA7, 0xA7, 0, 0, 0xA7, 0xA7, 0, 0]);
    let inconsistent = apply_dictionary_target_corruption(bytes.clone(), &blocks, "inconsistent_dictionaries").ok().unwrap();
    assert_eq!(inconsistent.bytes, bytes);
    assert_eq!(inconsistent.rewrite_as_inconsistent, Some(2));
    let single = vec![dict_block(0, 1, "crushr-path-dictionary-copy.v1")];
    let one = apply_dictionary_target_corruption(vec![1u8, 2], &single, "inconsistent_dictionaries").ok().unwrap();
    assert_eq!(one.bytes, vec![1 ^ 0xA7, 2]);
    assert_eq!(one.rewrite_as_inconsistent, None);
    assert!(apply_dictionary_target_corruption(bytes, &blocks, "header").is_err());
}

#[test]
fn flipping_a_payload_twice_restores_it() {
    let original = vec![1u8, 2, 3, 4, 5];
    let mut b = original.clone();
    corrupt_dictionary_block_payload(&mut b, 1, 4);
    assert_eq!(b, vec![1, 2 ^ 0xA7, 3 ^ 0xA7, 4 ^ 0xA7, 5]);
    corrupt_dictionary_block_payload(&mut b, 1, 4);
    assert_eq!(b, original);
}
