use crushr::digest::{digest_hex_of_str, fingerprint_hex};
use crushr::json::JsonValue;
use crushr::lab::dictionary::{mark_dictionary_inconsistent, restate_dictionary_digest};

fn s(x: &str) -> JsonValue {
    JsonValue::Str(x.to_string())
}

fn obj(ms: Vec<(&str, JsonValue)>) -> JsonValue {
    JsonValue::Object(ms.into_iter().map(|(k, v)| (k.to_string(), v)).collect())
}

#[test]
fn first_entry_takes_the_conflict_path() {
    let v = obj(vec![
        ("schema", s("crushr-path-dictionary-copy.v1")),
        ("entries", JsonValue::Array(vec![obj(vec![("path", s("a/b.txt")), ("path_digest_blake3", s("old"))]), obj(vec![("path", s("c"))])])),
    ]);
    let r = mark_dictionary_inconsistent(v);
    let entries = r.get_array("entries").unwrap();
    assert_eq!(entries.len(), 2);
    assert_eq!(entries[0].get_str("path"), Some("a/b.txt.conflict"));
    let digest = digest_hex_of_str("a/b.txt.conflict");
    assert_eq!(entries[0].get_str("path_digest_blake3"), Some(digest.as_str()));
    assert_ne!(digest, digest_hex_of_str("a/b.txt"));
    assert_eq!(entries[1].get_str("path"), Some("c"));
    assert_eq!(r.get_str("schema"), Some("crushr-path-dictionary-copy.v1"));
}

#[test]
fn entry_without_path_is_named_dict_entry() {
    let v = obj(vec![("entries", JsonValue::Array(vec![obj(vec![])]))]);
    let r = mark_dictionary_inconsistent(v);
    assert_eq!(r.get_array("entries").unwrap()[0].get_str("path"), Some("dict_entry.conflict"));
}

#[test]
fn first_binding_gets_the_zero_digest() {
    let body = obj(vec![("file_bindings", JsonValue::Array(vec![obj(vec![("path_digest_blake3", s("abc")), ("id", JsonValue::Number(Some(7)))])]))]);
    let v = obj(vec![("body", body), ("entries", JsonValue::Array(vec![]))]);
    let r = mark_dictionary_inconsistent(v);
    let b = r.get("body").unwrap().get_array("file_bindings").unwrap();
    assert_eq!(b[0].get_str("path_digest_blake3"), Some("0".repeat(64).as_str()));
    assert_eq!(b[0].get_u64("id"), Some(7));
}

#[test]
fn copy_without_entries_or_bindings_is_unchanged() {
    let r = mark_dictionary_inconsistent(obj(vec![("schema", s("x"))]));
    assert_eq!(r.get_str("schema"), Some("x"));
    assert!(r.get("entries").is_none());
}

#[test]
fn digest_and_length_are_restated() {
    let v = obj(vec![("dictionary_content_hash", s("stale")), ("dictionary_length", JsonValue::Number(Some(1))), ("generation", JsonValue::Number(Some(3)))]);
    let body = b"{\"file_bindings\":[]}";
    let r = restate_dictionary_digest(v, body);
    assert_eq!(r.get_str("dictionary_content_hash"), Some(fingerprint_hex(body).as_str()));
    assert_eq!(r.get_u64("dictionary_length"), Some(body.len() as u64));
    assert_eq!(r.get_u64("generation"), Some(3));
}

#[test]
fn a_block_is_spliced_in_place() {
    let bytes = [1u8, 2, 3, 4, 5, 6, 7];
    let r = crushr::lab::dictionary::splice_block(&bytes, 2, 5, &[9, 9], &[8]);
    assert_eq!(r, vec![1, 2, 9, 9, 8, 6, 7]);
    let whole = crushr::lab::dictionary::splice_block(&bytes, 0, 7, &[], &[0]);
    assert_eq!(whole, vec![0]);
}
