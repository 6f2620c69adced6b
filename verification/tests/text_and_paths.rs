use crushr::digest::{digest_hex_of_str, to_hex};
use crushr::lab::paths::{
    infer_profile_key, logical_key_for_path, make_segment, max_u64, sanitize_rel_path, split_components, to_hex_lower,
};
use crushr::json::JsonValue;
use crushr::text::{
    i64_to_decimal, pad_with_zeros, parse_u32_range, parse_usize, sanitize_component, str_equals, str_lt,
    str_starts_with, u64_to_decimal,
};

#[test]
fn sanitize_component_replaces_unsafe_characters() {
    assert_eq!(sanitize_component("a b/c:d"), "a_b_c_d");
    assert_eq!(sanitize_component("keep-me_1.txt"), "keep-me_1.txt");
    assert_eq!(sanitize_component("ünï"), "_n_");
}

#[test]
fn sanitize_component_of_empty_is_underscore() {
    assert_eq!(sanitize_component(""), "_");
}

#[test]
fn string_comparisons_follow_byte_order() {
    assert!(str_lt("abc", "abd"));
    assert!(str_lt("ab", "abc"));
    assert!(!str_lt("abc", "abc"));
    assert!(!str_lt("b", "abc"));
    assert!(str_equals("same", "same"));
    assert!(!str_equals("same", "Same"));
    assert!(str_starts_with("prefix-rest", "prefix"));
    assert!(!str_starts_with("pre", "prefix"));
}

#[test]
fn decimal_rendering_matches_display() {
    assert_eq!(u64_to_decimal(0), "0");
    assert_eq!(u64_to_decimal(1234567890), "1234567890");
    assert_eq!(u64_to_decimal(u64::MAX), u64::MAX.to_string());
    assert_eq!(i64_to_decimal(-42), "-42");
    assert_eq!(i64_to_decimal(i64::MIN), i64::MIN.to_string());
    assert_eq!(i64_to_decimal(7), "7");
}

#[test]
fn zero_padding_matches_width_format() {
    assert_eq!(pad_with_zeros("7".to_string(), 3), "007");
    assert_eq!(pad_with_zeros("1234".to_string(), 2), "1234");
    assert_eq!(pad_with_zeros("".to_string(), 2), "00");
}

#[test]
fn unsigned_parsing_accepts_only_digits() {
    assert_eq!(parse_u32_range("id_00042", 3, 8), Some(42));
    assert_eq!(parse_u32_range("x4294967295", 1, 11), Some(u32::MAX));
    assert_eq!(parse_u32_range("4294967296", 0, 10), None);
    assert_eq!(parse_u32_range("12a", 0, 3), None);
    assert_eq!(parse_u32_range("12", 1, 1), None);
    assert_eq!(parse_usize("17"), Some(17));
    assert_eq!(parse_usize("-1"), None);
    assert_eq!(parse_usize(""), None);
}

#[test]
fn hex_rendering_is_lower_case_two_digits_per_byte() {
    assert_eq!(to_hex(&[0x00, 0x0f, 0xa7, 0xff]), "000fa7ff");
    assert_eq!(to_hex(&[]), "");
    assert_eq!(to_hex_lower(&[0xde, 0xad]), "dead");
}

#[test]
fn path_digest_is_blake3_of_utf8_bytes() {
    let expected = blake3::hash("abc".as_bytes()).to_hex().to_string();
    assert_eq!(digest_hex_of_str("abc"), expected);
    assert_eq!(
        digest_hex_of_str("abc"),
        "6437b3ac38465133ffb63b75273a8db548c558465d79db03fd359c6cd5bd9d85"
    );
    assert_ne!(digest_hex_of_str("abc"), digest_hex_of_str("abd"));
}

#[test]
fn path_components_split_on_slashes() {
    assert_eq!(split_components("a//b/./c"), vec!["a", "b", "c"]);
    assert_eq!(split_components("/x/"), vec!["x"]);
    assert!(split_components("").is_empty());
}

#[test]
fn relative_paths_drop_root_dots_and_parents() {
    assert_eq!(sanitize_rel_path("/etc/../pass wd"), "etc/pass_wd");
    assert_eq!(sanitize_rel_path("./a/b.txt"), "a/b.txt");
    assert_eq!(sanitize_rel_path("../.."), "_");
    assert_eq!(sanitize_rel_path(""), "_");
}

#[test]
fn logical_keys_strip_fragment_suffixes() {
    assert_eq!(logical_key_for_path("dir/logical_01__frag_003.bin"), "logical_01");
    assert_eq!(logical_key_for_path("x/logical_02_fragment_007_abc.bin"), "logical_02");
    assert_eq!(logical_key_for_path("plain/name.bin"), "plain/name.bin");
}

#[test]
fn segments_cycle_through_letters_and_digits() {
    assert_eq!(make_segment(0, 5), "abcde");
    assert_eq!(make_segment(24, 4), "yz01");
    assert_eq!(make_segment(35, 3), "9ab");
    assert_eq!(make_segment(3, 0), "");
}

#[test]
fn profile_keys_come_from_file_names() {
    assert_eq!(infer_profile_key("runs/archive_profile_tailcut.crs"), "TAILCUT");
    assert_eq!(infer_profile_key("C:\\data\\x-damage-Header_2.bin"), "HEADER");
    assert_eq!(infer_profile_key("nothing/here.bin"), "UNKNOWN_PROFILE");
    assert_eq!(infer_profile_key("a_profile_.bin"), "UNKNOWN_PROFILE");
}

#[test]
fn largest_numeric_field_treats_missing_as_zero() {
    let row = |n: Option<u64>| {
        let mut members = Vec::new();
        if let Some(n) = n {
            members.push(("v".to_string(), JsonValue::Number(Some(n))));
        }
        JsonValue::Object(members)
    };
    let rows = vec![row(Some(3)), row(None), row(Some(11)), row(Some(5))];
    assert_eq!(max_u64(&rows, "v"), 11);
    assert_eq!(max_u64(&Vec::new(), "v"), 0);
}

#[test]
fn export_paths_never_climb_out_of_the_export_directory() {
    for input in ["../../etc/passwd", "a/../../b", "/..//./x", "..\\..", "a/.../b", "a/./b/"] {
        let out = sanitize_rel_path(input);
        assert!(!out.starts_with('/'));
        for component in out.split('/') {
            assert!(!component.is_empty());
            assert_ne!(component, ".");
            assert_ne!(component, "..");
        }
    }
    assert_eq!(sanitize_rel_path("../../etc/passwd"), "etc/passwd");
    assert_eq!(sanitize_rel_path("/..//./x"), "x");
    assert_eq!(sanitize_rel_path("..\\.."), ".._..");
    assert_eq!(sanitize_rel_path("a/.../b"), "a/.../b");
}
