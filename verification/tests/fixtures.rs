use crushr::lab::fixtures::{
    write_dataset_fixture, write_dataset_fixture_format12, write_dataset_fixture_format12_stress, FixtureFile,
};

fn tree_listing(files: &[FixtureFile]) -> Vec<String> {
    let mut out: Vec<String> = Vec::new();
    for f in files {
        let parts: Vec<&str> = f.rel_path.split('/').collect();
        for k in 1..=parts.len() {
            let entry = parts[..k].join("/");
            if !out.contains(&entry) {
                out.push(entry);
            }
        }
    }
    out.sort();
    out
}

#[test]
fn comparison_format12_stress_fixture_generation_is_deterministic() {
    let a = write_dataset_fixture_format12_stress("mixed_worst_case").ok().unwrap();
    let b = write_dataset_fixture_format12_stress("mixed_worst_case").ok().unwrap();
    assert_eq!(tree_listing(&a), tree_listing(&b));
}

#[test]
fn format13_to15_format12_stress_fixture_generation_is_deterministic() {
    let a = write_dataset_fixture_format12_stress("mixed_worst_case").ok().unwrap();
    let b = write_dataset_fixture_format12_stress("mixed_worst_case").ok().unwrap();
    assert_eq!(tree_listing(&a), tree_listing(&b));
}

#[test]
fn stress_fixture_contents_are_identical_between_runs() {
    for ds in ["deep_paths", "long_names", "fragmentation_heavy", "mixed_worst_case"] {
        let a = write_dataset_fixture_format12_stress(ds).ok().unwrap();
        let b = write_dataset_fixture_format12_stress(ds).ok().unwrap();
        assert_eq!(a.len(), b.len());
        for (x, y) in a.iter().zip(b.iter()) {
            assert_eq!(x.rel_path, y.rel_path);
            assert_eq!(x.contents, y.contents);
        }
    }
}

#[test]
fn basic_fixtures_hold_the_expected_files() {
    let small = write_dataset_fixture("smallfiles").ok().unwrap();
    assert_eq!(small.len(), 1);
    assert_eq!(small[0].rel_path, "tiny.txt");
    assert_eq!(small[0].contents, b"small-dataset-payload".to_vec());

    let mixed = write_dataset_fixture("mixed").ok().unwrap();
    assert_eq!(mixed[0].rel_path, "mixed.bin");
    let expected: Vec<u8> = (0..4096u32).map(|i| (i % 251) as u8).collect();
    assert_eq!(mixed[0].contents, expected);

    let large = write_dataset_fixture("largefiles").ok().unwrap();
    assert_eq!(large[0].rel_path, "large.dat");
    assert_eq!(large[0].contents, vec![13u8; 8192]);
}

#[test]
fn unknown_datasets_are_refused() {
    assert!(write_dataset_fixture("nope").is_err());
    assert!(write_dataset_fixture_format12("nope").is_err());
    assert!(write_dataset_fixture_format12_stress("smallfiles").is_err());
}

#[test]
fn inline_path_fixtures_add_short_and_long_path_files() {
    let small = write_dataset_fixture_format12("smallfiles").ok().unwrap();
    assert_eq!(small.len(), 2);
    assert_eq!(small[1].rel_path, "a.txt");
    assert_eq!(small[1].contents, b"short".to_vec());
    let mixed = write_dataset_fixture_format12("mixed").ok().unwrap();
    assert_eq!(
        mixed[1].rel_path,
        "nested/deeply/named/path/for/inline/duplication/cost/visibility/sample-long-name.txt"
    );
    assert_eq!(mixed[1].contents, b"long-path-payload".to_vec());
}

#[test]
fn stress_fixture_shapes_match_their_formulas() {
    let deep = write_dataset_fixture_format12_stress("deep_paths").ok().unwrap();
    assert_eq!(deep.len(), 320);
    assert!(deep[0].rel_path.starts_with("l00_abcde/l01_hijkl/"));
    assert!(deep[0].rel_path.ends_with("/file_0000_abcdefghijklmnop.bin"));
    assert_eq!(deep[0].rel_path.split('/').count(), 21);
    assert_eq!(deep[3].contents, vec![3u8; 1536 + 3 * 64]);

    let long = write_dataset_fixture_format12_stress("long_names").ok().unwrap();
    assert_eq!(long.len(), 200);
    assert!(long[7].rel_path.starts_with("very_long_filename_"));
    assert!(long[7].rel_path.ends_with("_7.bin"));
    assert_eq!(long[7].contents, vec![7u8; 2048 + 2 * 128]);

    let frag = write_dataset_fixture_format12_stress("fragmentation_heavy").ok().unwrap();
    assert_eq!(frag.len(), 960);
    assert_eq!(frag[49].rel_path, "logical_01/logical_01__frag_001.bin");
    assert_eq!(frag[49].contents, vec![2u8; 768 + (13 + 29) % 512]);

    let worst = write_dataset_fixture_format12_stress("mixed_worst_case").ok().unwrap();
    assert_eq!(worst.len(), 960);
    assert_eq!(worst[0].rel_path.split('/').count(), 21);
    assert!(worst[0].rel_path.starts_with("mx00_abcd/mx01_fghi/"));
    assert_eq!(worst[0].contents.len(), 640);
}
