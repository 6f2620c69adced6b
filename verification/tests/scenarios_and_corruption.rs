use crushr::lab::corruption::{apply_format09_corruption, corrupt_payload_for_format09, clobber_range, corrupt_archive, corrupt_index_frame, CorruptionError, FooterOffsets};
use crushr::lab::scenarios::{
    comparison_scenarios, format09_scenarios, format12_stress_scenarios, format13_variants, format14a_dictionary_scenarios,
    format14a_variants, format15_variants, ComparisonScenario,
};
use crushr::lab::terminal::{
    enforce_dictionary_fail_closed, expected_dictionary_state_for_scenario, recovery_class_rank, terminal_recovery_outcome,
    TerminalRecoveryOutcome,
};

fn scenario(target: &'static str, magnitude: &'static str, seed: u64, dataset: &'static str) -> ComparisonScenario {
    ComparisonScenario {
        scenario_id: format!("{dataset}_{target}"),
        dataset,
        corruption_model: "byte_flip",
        corruption_target: target,
        magnitude,
        seed,
        break_redundant_map: false,
    }
}

#[test]
fn standard_grid_has_24_scenarios_seeded_from_100() {
    let s = comparison_scenarios();
    assert_eq!(s.len(), 24);
    assert_eq!(s[0].scenario_id, "smallfiles_header_byte_flip_small");
    assert_eq!(s[0].seed, 100);
    assert_eq!(s[23].scenario_id, "largefiles_tail_truncate_medium");
    assert_eq!(s[23].seed, 123);
    let breaking: Vec<&str> = s.iter().filter(|x| x.break_redundant_map).map(|x| x.scenario_id.as_str()).collect();
    assert_eq!(breaking, vec!["mixed_index_byte_flip_medium"]);
    for w in s.windows(2) {
        assert!(w[0].seed < w[1].seed);
    }
}

#[test]
fn stress_grid_uses_stress_datasets() {
    let s = format12_stress_scenarios();
    assert_eq!(s.len(), 32);
    assert_eq!(s[0].dataset, "deep_paths");
    assert_eq!(s[0].seed, 9100);
    assert_eq!(s[31].dataset, "mixed_worst_case");
}

#[test]
fn metadata_regime_grid_rotates_datasets() {
    let s = format09_scenarios();
    assert_eq!(s.len(), 24);
    assert_eq!(s[0].scenario_id, "metadata_intact_index_none_900");
    assert_eq!(s[0].dataset, "smallfiles");
    assert_eq!(s[1].dataset, "mixed");
    assert_eq!(s[5].metadata_regime, "metadata_destroyed");
    assert_eq!(s[5].metadata_operation, "delete");
    assert_eq!(s[5].payload_damage, "single_block_delete");
}

#[test]
fn dictionary_grid_targets_every_dictionary_case() {
    let s = format14a_dictionary_scenarios(false);
    assert_eq!(s.len(), 12);
    assert_eq!(s[0].scenario_id, "smallfiles_primary_dictionary_byte_flip");
    assert_eq!(s[3].corruption_model, "rewrite");
    assert_eq!(s[0].seed, 14000);
    assert_eq!(s[0].magnitude, "dictionary");
    let stress = format14a_dictionary_scenarios(true);
    assert_eq!(stress[0].dataset, "deep_paths");
}

#[test]
fn variant_lists() {
    assert_eq!(format13_variants().len(), 6);
    assert_eq!(format14a_variants(), vec!["extent_identity_inline_path", "extent_identity_path_dict_single", "extent_identity_path_dict_header_tail", "payload_plus_manifest"]);
    assert_eq!(format15_variants()[2], "extent_identity_path_dict_factored_header_tail");
}

#[test]
fn clobber_modes_overwrite_within_the_bytes() {
    let mut d = vec![9u8; 6];
    clobber_range(&mut d, 2, 10, "delete");
    assert_eq!(d, vec![9, 9, 0, 0, 0, 0]);
    let mut t = vec![9u8; 4];
    clobber_range(&mut t, 0, 4, "truncate");
    assert_eq!(t, vec![0, 9, 0, 9]);
    let mut f = vec![0u8; 3];
    clobber_range(&mut f, 0, 2, "bitflip");
    assert_eq!(f, vec![0xA5, 0xA4, 0]);
    let mut o = vec![0u8; 3];
    clobber_range(&mut o, 1, 2, "overwrite");
    assert_eq!(o, vec![0, 0x55, 0x56]);
    let mut n = vec![1u8; 2];
    clobber_range(&mut n, 5, 2, "delete");
    assert_eq!(n, vec![1, 1]);
}

#[test]
fn header_and_payload_corruption_flip_bytes() {
    let mut h = vec![0u8; 10];
    corrupt_archive(&mut h, &scenario("header", "small", 3, "mixed"), None, 8).unwrap();
    assert_eq!(h[0], 0x11 + 3);
    assert_eq!(&h[1..], &[0u8; 9]);
    let mut p = vec![0u8; 9];
    corrupt_archive(&mut p, &scenario("payload", "small", 0, "mixed"), None, 8).unwrap();
    assert_eq!(p[3], 0x33);
    assert_eq!(p.iter().filter(|b| **b != 0).count(), 1);
}

#[test]
fn tail_corruption_truncates_but_keeps_sixteen_bytes() {
    let mut t = vec![1u8; 100];
    corrupt_archive(&mut t, &scenario("tail", "small", 0, "mixed"), None, 8).unwrap();
    assert_eq!(t.len(), 68);
    let mut short = vec![1u8; 20];
    corrupt_archive(&mut short, &scenario("tail", "medium", 0, "mixed"), None, 8).unwrap();
    assert_eq!(short.len(), 16);
}

#[test]
fn index_corruption_needs_the_footer() {
    let mut b = vec![0u8; 64];
    let r = corrupt_archive(&mut b, &scenario("index", "small", 0, "mixed"), None, 8);
    assert_eq!(r, Err(CorruptionError::FooterUnreadable));
    assert_eq!(b, vec![0u8; 64]);
    let footer = FooterOffsets { blocks_end_offset: 0, index_offset: 10 };
    corrupt_archive(&mut b, &scenario("index", "small", 0, "mixed"), Some(footer), 8).unwrap();
    assert_eq!(b[10], 0x7F);
    assert_eq!(b[14], 0x5A);
    let mut u = vec![0u8; 8];
    assert_eq!(corrupt_archive(&mut u, &scenario("footer", "small", 0, "mixed"), None, 8), Err(CorruptionError::UnsupportedTarget));
}

#[test]
fn small_file_index_frames_are_damaged_in_place() {
    let mut idx = vec![0u8; 24];
    corrupt_index_frame(&mut idx, &scenario("index", "small", 1, "smallfiles"));
    assert_eq!(idx[4], 0x7F);
    assert_eq!(idx[6], 0x5A);
}

#[test]
fn terminal_outcome_picks_the_best_class() {
    let classes = vec![("FULL_ANONYMOUS".to_string(), 1u64), ("ORPHAN_BLOCKS".to_string(), 2u64)];
    assert_eq!(terminal_recovery_outcome(&classes), TerminalRecoveryOutcome::AnonymousFull);
    assert_eq!(recovery_class_rank(&classes), "anonymous");
    let none: Vec<(String, u64)> = Vec::new();
    assert_eq!(terminal_recovery_outcome(&none), TerminalRecoveryOutcome::NoVerifiedEvidence);
    let named = vec![("FULL_VERIFIED".to_string(), 1u64)];
    assert_eq!(recovery_class_rank(&named), "named");
}

#[test]
fn dictionary_variants_fail_closed_without_a_usable_dictionary() {
    let v = "extent_identity_path_dict_header_tail";
    assert_eq!(enforce_dictionary_fail_closed(v, TerminalRecoveryOutcome::Named, 0, false), TerminalRecoveryOutcome::AnonymousFull);
    assert_eq!(enforce_dictionary_fail_closed(v, TerminalRecoveryOutcome::Named, 2, true), TerminalRecoveryOutcome::AnonymousFull);
    assert_eq!(enforce_dictionary_fail_closed(v, TerminalRecoveryOutcome::Named, 1, false), TerminalRecoveryOutcome::Named);
    assert_eq!(enforce_dictionary_fail_closed("payload_only", TerminalRecoveryOutcome::Named, 0, true), TerminalRecoveryOutcome::Named);
    let once = enforce_dictionary_fail_closed(v, TerminalRecoveryOutcome::Named, 0, false);
    assert_eq!(enforce_dictionary_fail_closed(v, once, 0, false), once);
    assert_eq!(
        enforce_dictionary_fail_closed(v, TerminalRecoveryOutcome::PartialOrdered, 0, false),
        TerminalRecoveryOutcome::PartialOrdered
    );
}

#[test]
fn expected_dictionary_states() {
    assert_eq!(expected_dictionary_state_for_scenario("extent_identity_path_dict_header_tail", "primary_dictionary"), (1, false));
    assert_eq!(
        expected_dictionary_state_for_scenario("extent_identity_path_dict_factored_header_tail", "inconsistent_dictionaries"),
        (2, true)
    );
    assert_eq!(expected_dictionary_state_for_scenario("extent_identity_path_dict_single", "primary_dictionary"), (0, false));
    assert_eq!(expected_dictionary_state_for_scenario("payload_only", "primary_dictionary"), (0, false));
}

#[test]
fn damage_stays_in_its_region() {
    let pristine: Vec<u8> = (0..300u32).map(|i| (i % 256) as u8).collect();
    for magnitude in ["small", "medium"] {
        for seed in [0u64, 5, 10] {
            let mut h = pristine.clone();
            corrupt_archive(&mut h, &scenario("header", magnitude, seed, "mixed"), None, 40).unwrap();
            assert_eq!(h.len(), pristine.len());
            assert_eq!(&h[8..], &pristine[8..]);

            let mut p = pristine.clone();
            corrupt_archive(&mut p, &scenario("payload", magnitude, seed, "mixed"), None, 40).unwrap();
            assert_eq!(p.len(), pristine.len());
            assert_eq!(&p[..pristine.len() / 3], &pristine[..pristine.len() / 3]);

            let mut x = pristine.clone();
            let footer = FooterOffsets { blocks_end_offset: 200, index_offset: 250 };
            corrupt_archive(&mut x, &scenario("index", magnitude, seed, "mixed"), Some(footer), 40).unwrap();
            assert_eq!(x.len(), pristine.len());
            assert_eq!(&x[260..], &pristine[260..]);
            assert_ne!(x, pristine);

            let mut t = pristine.clone();
            corrupt_archive(&mut t, &scenario("tail", magnitude, seed, "mixed"), None, 40).unwrap();
            assert!(t.len() >= 16 && t.len() < pristine.len());
            assert_eq!(&t[..], &pristine[..t.len()]);
        }
    }
}

fn f09(damage: &'static str, regime: &'static str) -> crushr::lab::scenarios::Format09Scenario {
    crushr::lab::scenarios::Format09Scenario {
        scenario_id: "s".to_string(),
        dataset: "mixed",
        metadata_regime: regime,
        metadata_target: "ledger",
        metadata_operation: "delete",
        payload_damage: damage,
        seed: 0,
    }
}

#[test]
fn format09_payload_damage_follows_its_model() {
    let pristine: Vec<u8> = (0..2000usize).map(|i| (i % 251 + 1) as u8).collect();
    let run = |damage: &'static str| {
        let mut b = pristine.clone();
        corrupt_payload_for_format09(&mut b, &f09(damage, "metadata_intact"), 40);
        b
    };
    assert_eq!(run("none"), pristine);

    let single = run("single_block_delete");
    assert!(single[64..174].iter().all(|b| *b == 0));
    assert_eq!(&single[..64], &pristine[..64]);
    assert_eq!(&single[174..], &pristine[174..]);

    let cluster = run("cluster_delete");
    assert!(cluster[64..229].iter().all(|b| *b == 0));
    assert_eq!(&cluster[229..], &pristine[229..]);

    let sparse = run("sparse_delete");
    for (s, e) in [(64, 100), (119, 155), (174, 210), (229, 265)] {
        assert!(sparse[s..e].iter().all(|b| *b == 0));
    }
    assert_eq!(&sparse[100..119], &pristine[100..119]);

    let reorder = run("block_reorder");
    assert_eq!(&reorder[64..174], &pristine[174..284]);
    assert_eq!(&reorder[174..284], &pristine[64..174]);
    assert_eq!(reorder.len(), pristine.len());

    let dup = run("duplicate_block_insert");
    assert_eq!(dup.len(), pristine.len() + 110);
    assert_eq!(&dup[..229], &pristine[..229]);
    assert_eq!(&dup[229..339], &pristine[64..174]);
    assert_eq!(&dup[339..], &pristine[229..]);

    let mut b = pristine.clone();
    apply_format09_corruption(&mut b, &f09("single_block_delete", "metadata_intact"), None, 40).unwrap();
    assert_eq!(b, single);
    let mut b = pristine.clone();
    assert_eq!(
        apply_format09_corruption(&mut b, &f09("none", "metadata_destroyed"), None, 40),
        Err(CorruptionError::FooterUnreadable)
    );
    assert_eq!(b, pristine);
}
