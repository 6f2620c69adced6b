use crushr::json::JsonValue;
use crushr::lab::analysis::{evidence_rankings, generate_analysis, profile_groups, render_analysis_markdown};
use crushr::lab::experiment::{render_summary_markdown, sort_runs_by_archive_id, summarize_experiment};
use crushr::lab::outcome::{classify_improvement, outcome_from_plan, outcome_rank};
use crushr::lab::runs::{to_ranking_entry, 
    archive_id, classify_outcome, exported_artifact_counts, is_archive_bytes, needs_plan_counts, run_metadata_from_input,
    run_metadata_from_plan, select_archives, ArchiveEntry, IndexLocation, PlanSummary, RunError, RunMetadata,
    RunMetadataInput,
};

fn obj(members: Vec<(&str, JsonValue)>) -> JsonValue {
    JsonValue::Object(members.into_iter().map(|(k, v)| (k.to_string(), v)).collect())
}

fn num(n: u64) -> JsonValue {
    JsonValue::Number(Some(n))
}

fn text(s: &str) -> JsonValue {
    JsonValue::Str(s.to_string())
}

fn run(id: &str, path: &str, verified: u64, salvageable: u64, full: usize) -> RunMetadata {
    RunMetadata {
        archive_id: id.to_string(),
        archive_path: path.to_string(),
        archive_fingerprint: format!("fp-{id}"),
        salvage_plan_summary: PlanSummary { salvageable_files: salvageable, unsalvageable_files: 1, unmappable_files: 0 },
        verified_block_count: verified,
        exported_artifact_count: full * 3,
        exported_block_artifact_count: full,
        exported_extent_artifact_count: full,
        exported_full_file_artifact_count: full,
        salvageable_file_count: salvageable,
        unsalvageable_file_count: 1,
        unmappable_file_count: 0,
    }
}

#[test]
fn outcomes_follow_the_evidence_ladder() {
    assert_eq!(classify_outcome(&run("a", "p", 0, 0, 0)), "NO_VERIFIED_EVIDENCE");
    assert_eq!(classify_outcome(&run("a", "p", 3, 0, 0)), "ORPHAN_EVIDENCE_ONLY");
    assert_eq!(classify_outcome(&run("a", "p", 3, 2, 0)), "PARTIAL_FILE_SALVAGE");
    assert_eq!(classify_outcome(&run("a", "p", 0, 0, 1)), "FULL_FILE_SALVAGE_AVAILABLE");
}

#[test]
fn outcome_ranks_and_improvement_classes() {
    assert_eq!(outcome_rank("NO_VERIFIED_EVIDENCE"), 0);
    assert_eq!(outcome_rank("FULL_FILE_SALVAGE_AVAILABLE"), 3);
    assert_eq!(outcome_rank("bogus"), -1);
    assert_eq!(classify_improvement("ORPHAN_EVIDENCE_ONLY", "PARTIAL_FILE_SALVAGE"), "IMPROVED_ORPHAN_TO_PARTIAL");
    assert_eq!(classify_improvement("NO_VERIFIED_EVIDENCE", "FULL_FILE_SALVAGE_AVAILABLE"), "IMPROVED_NONE_TO_FULL");
    assert_eq!(classify_improvement("PARTIAL_FILE_SALVAGE", "FULL_FILE_SALVAGE_AVAILABLE"), "IMPROVED_OTHER");
    assert_eq!(classify_improvement("FULL_FILE_SALVAGE_AVAILABLE", "ORPHAN_EVIDENCE_ONLY"), "DEGRADED");
    assert_eq!(classify_improvement("PARTIAL_FILE_SALVAGE", "PARTIAL_FILE_SALVAGE"), "UNCHANGED");
}

#[test]
fn reversing_an_improvement_degrades() {
    let pairs = [
        ("NO_VERIFIED_EVIDENCE", "ORPHAN_EVIDENCE_ONLY"),
        ("ORPHAN_EVIDENCE_ONLY", "FULL_FILE_SALVAGE_AVAILABLE"),
        ("NO_VERIFIED_EVIDENCE", "PARTIAL_FILE_SALVAGE"),
    ];
    for (old, new) in pairs {
        assert!(classify_improvement(old, new).starts_with("IMPROVED"));
        assert_eq!(classify_improvement(new, old), "DEGRADED");
    }
}

#[test]
fn plan_outcome_counts_verified_blocks_and_full_files() {
    let plan = obj(vec![
        (
            "block_candidates",
            JsonValue::Array(vec![
                obj(vec![("content_verification_status", text("content_verified"))]),
                obj(vec![("content_verification_status", text("not_content_verified"))]),
                obj(vec![("content_verification_status", text("content_verified"))]),
            ]),
        ),
        ("summary", obj(vec![("salvageable_files", num(4))])),
        ("file_plans", JsonValue::Array(vec![obj(vec![("salvage_status", text("fully_salvageable"))])])),
    ]);
    let m = outcome_from_plan(&plan);
    assert_eq!(m.verified_block_count, 2);
    assert_eq!(m.salvageable_file_count, 4);
    assert_eq!(m.exported_full_file_count, 1);
    assert_eq!(m.outcome, "FULL_FILE_SALVAGE_AVAILABLE");
    let empty = outcome_from_plan(&obj(vec![]));
    assert_eq!(empty.outcome, "NO_VERIFIED_EVIDENCE");
}

#[test]
fn run_metadata_from_plan_reads_summary_and_artifacts() {
    let plan = obj(vec![
        (
            "summary",
            obj(vec![("salvageable_files", num(2)), ("unsalvageable_files", num(1)), ("unmappable_files", num(3))]),
        ),
        ("block_candidates", JsonValue::Array(vec![obj(vec![("content_verification_status", text("content_verified"))])])),
        (
            "exported_artifacts",
            obj(vec![
                ("exported_block_artifacts", JsonValue::Array(vec![text("a"), text("b")])),
                ("exported_fragment_artifacts", JsonValue::Array(vec![])),
                ("exported_complete_file_artifacts", JsonValue::Array(vec![text("c")])),
            ]),
        ),
    ]);
    assert_eq!(exported_artifact_counts(&plan), (2, 0, 1));
    let m = run_metadata_from_plan("id".to_string(), "p".to_string(), "f".to_string(), &plan).ok().unwrap();
    assert_eq!(m.salvageable_file_count, 2);
    assert_eq!(m.unmappable_file_count, 3);
    assert_eq!(m.verified_block_count, 1);
    assert_eq!(m.exported_artifact_count, 3);
    assert_eq!(classify_outcome(&m), "FULL_FILE_SALVAGE_AVAILABLE");
}

#[test]
fn run_metadata_from_plan_names_the_missing_count() {
    let missing = |summary: JsonValue| {
        match run_metadata_from_plan(String::new(), String::new(), String::new(), &obj(vec![("summary", summary)])) {
            Err(e) => e,
            Ok(_) => panic!("expected an error"),
        }
    };
    assert!(matches!(
        run_metadata_from_plan(String::new(), String::new(), String::new(), &obj(vec![])),
        Err(RunError::MissingSummary)
    ));
    assert!(matches!(missing(obj(vec![])), RunError::MissingSalvageableFiles));
    assert!(matches!(missing(obj(vec![("salvageable_files", num(1))])), RunError::MissingUnsalvageableFiles));
    assert!(matches!(
        missing(obj(vec![("salvageable_files", num(1)), ("unsalvageable_files", num(1))])),
        RunError::MissingUnmappableFiles
    ));
}

#[test]
fn stored_counts_win_over_plan_counts() {
    let input = RunMetadataInput {
        archive_path: "a.crs".to_string(),
        archive_fingerprint: "ff".to_string(),
        verified_block_count: 5,
        salvageable_file_count: 1,
        unsalvageable_file_count: 2,
        unmappable_file_count: 3,
        exported_block_artifact_count: Some(4),
        exported_extent_artifact_count: None,
        exported_full_file_artifact_count: Some(0),
    };
    assert!(needs_plan_counts(&input));
    let m = run_metadata_from_input("id".to_string(), input, (9, 7, 8));
    assert_eq!(m.exported_block_artifact_count, 4);
    assert_eq!(m.exported_extent_artifact_count, 7);
    assert_eq!(m.exported_full_file_artifact_count, 0);
    assert_eq!(m.exported_artifact_count, 11);
    assert_eq!(m.salvage_plan_summary.unmappable_files, 3);
}

#[test]
fn archive_ids_join_sanitized_path_and_digest_prefix() {
    let id = archive_id("dir/a b.crs", "abcd");
    let digest = blake3::hash("dir/a b.crs\nabcd".as_bytes());
    let prefix: String = digest.as_bytes()[..8].iter().map(|b| format!("{b:02x}")).collect();
    assert_eq!(id, format!("dir_a_b.crs-{prefix}"));
}

#[test]
fn archive_detection_by_magic_or_index() {
    assert!(is_archive_bytes(b"BLK3rest", None, 8));
    let mut bytes = vec![0u8; 40];
    bytes[4..8].copy_from_slice(b"IDX3");
    let footer = IndexLocation { index_offset: 4, index_len: 8 };
    assert!(is_archive_bytes(&bytes, Some(footer), 16));
    let wrong = IndexLocation { index_offset: 5, index_len: 8 };
    assert!(!is_archive_bytes(&bytes, Some(wrong), 16));
    let short = IndexLocation { index_offset: 4, index_len: 3 };
    assert!(!is_archive_bytes(&bytes, Some(short), 16));
    assert!(!is_archive_bytes(&bytes, None, 16));
    assert!(!is_archive_bytes(b"xy", None, 16));
}

#[test]
fn archives_are_ordered_by_path_and_limited() {
    let e = |p: &str| ArchiveEntry { archive_path: p.to_string(), archive_fingerprint: String::new(), archive_id: p.to_string() };
    let out = select_archives(vec![e("c"), e("a"), e("b")], Some(2));
    let paths: Vec<&str> = out.iter().map(|x| x.archive_path.as_str()).collect();
    assert_eq!(paths, vec!["a", "b"]);
    let all = select_archives(vec![e("b"), e("a")], None);
    assert_eq!(all.len(), 2);
    assert_eq!(all[0].archive_path, "a");
}

#[test]
fn runs_sort_by_archive_id() {
    let sorted = sort_runs_by_archive_id(vec![run("b", "p", 0, 0, 0), run("a", "p", 0, 0, 0), run("c", "p", 0, 0, 0)]);
    let ids: Vec<&str> = sorted.iter().map(|r| r.archive_id.as_str()).collect();
    assert_eq!(ids, vec!["a", "b", "c"]);
}

#[test]
fn experiment_summary_counts_and_totals() {
    let runs = vec![run("b", "x_profile_tail.crs", 3, 0, 0), run("a", "y_profile_head.crs", 5, 2, 1), run("c", "z.crs", 0, 0, 0)];
    let s = summarize_experiment(runs, "v1".to_string(), "0.1.0".to_string(), "exp".to_string(), "LABEL".to_string());
    assert_eq!(s.run_count, 3);
    assert_eq!(s.runs[0].archive_id, "a");
    assert_eq!(s.archives_with_verified_blocks, 2);
    assert_eq!(s.archives_with_salvageable_files, 1);
    assert_eq!(s.archives_with_only_orphan_evidence, 1);
    assert_eq!(s.archives_with_no_verified_evidence, 1);
    assert_eq!(s.total_verified_blocks, 8);
    assert_eq!(s.total_exported_full_file_artifacts, 1);
    assert_eq!(s.tool, "crushr-lab-salvage");
    let md = render_summary_markdown(&s, true);
    assert!(md.starts_with("# Salvage Experiment Summary\n\n- Experiment ID: `exp`\n"));
    assert!(md.contains("- Fragment export enabled: `yes`\n"));
    assert!(md.contains("- verified blocks: 8\n"));
    assert!(md.contains("- ORPHAN_EVIDENCE_ONLY: 1\n"));
    assert!(md.contains("| `a` | `y_profile_head.crs` | `FULL_FILE_SALVAGE_AVAILABLE` | 5 | 2 | 1 | 0 | 1/1/1 |\n"));
}

#[test]
fn analysis_groups_ranks_and_renders() {
    let runs = vec![
        run("b", "x_profile_tail.crs", 3, 0, 0),
        run("a", "y_profile_head.crs", 5, 2, 1),
        run("c", "z_profile_tail.crs", 0, 0, 0),
        run("d", "w.crs", 3, 0, 0),
    ];
    let a = generate_analysis(runs, "exp".to_string(), false, "1".to_string(), "0.1.0".to_string(), "L".to_string());
    assert_eq!(a.run_count, 4);
    let counts: Vec<(&str, usize)> = a.outcome_groups.iter().map(|g| (g.outcome, g.run_count)).collect();
    assert_eq!(
        counts,
        vec![
            ("NO_VERIFIED_EVIDENCE", 1),
            ("ORPHAN_EVIDENCE_ONLY", 2),
            ("PARTIAL_FILE_SALVAGE", 0),
            ("FULL_FILE_SALVAGE_AVAILABLE", 1)
        ]
    );
    let total: usize = a.outcome_groups.iter().map(|g| g.run_count).sum();
    assert_eq!(total, a.run_count);
    assert_eq!(a.outcome_groups[1].archive_ids, vec!["b".to_string(), "d".to_string()]);
    assert_eq!(a.outcome_groups[1].aggregate_verified_block_count, 6);
    let top: Vec<&str> = a.evidence_rankings.top_runs_by_verified_blocks.iter().map(|e| e.archive_id.as_str()).collect();
    assert_eq!(top, vec!["a", "b", "d", "c"]);
    let bottom: Vec<&str> =
        a.evidence_rankings.bottom_runs_with_no_verified_evidence.iter().map(|e| e.archive_id.as_str()).collect();
    assert_eq!(bottom, vec!["c"]);
    let keys: Vec<&str> = a.profile_groups.iter().map(|g| g.profile_key.as_str()).collect();
    assert_eq!(keys, vec!["HEAD", "TAIL", "UNKNOWN_PROFILE"]);
    assert_eq!(a.profile_groups[1].run_count, 2);
    assert_eq!(a.export_mode_groups[0].run_count, 4);
    let md = render_analysis_markdown(&a, false);
    assert!(md.starts_with("# Salvage Experiment Grouped Analysis\n\n"));
    assert!(md.contains("- Fragment export enabled: `no`\n"));
    assert!(md.contains("- ORPHAN_EVIDENCE_ONLY: 2 runs (verified_blocks=6, salvageable_files=0, exported b/e/f=0/0/0)\n"));
    assert!(md.contains("- `TAIL`: 2 runs, verified_blocks=3, salvageable_files=0\n"));
    assert!(md.contains("## No verified evidence\n\n- `c` (`z_profile_tail.crs`): outcome=NO_VERIFIED_EVIDENCE\n"));
    assert!(md.ends_with("- `b` (`x_profile_tail.crs`): verified_blocks=3\n- `d` (`w.crs`): verified_blocks=3\n"));
}

#[test]
fn rankings_break_ties_by_archive_id() {
    let ordered = vec![run("a", "p", 1, 1, 0), run("b", "p", 1, 3, 0), run("c", "p", 2, 1, 0)];
    let r = evidence_rankings(&ordered);
    let by_blocks: Vec<&str> = r.top_runs_by_verified_blocks.iter().map(|e| e.archive_id.as_str()).collect();
    assert_eq!(by_blocks, vec!["c", "a", "b"]);
    let by_files: Vec<&str> = r.top_runs_by_salvageable_files.iter().map(|e| e.archive_id.as_str()).collect();
    assert_eq!(by_files, vec!["b", "a", "c"]);
    assert!(r.bottom_runs_with_no_verified_evidence.is_empty());
}

#[test]
fn profile_groups_count_outcomes_by_name() {
    let runs = vec![run("a", "q_damage_bits.crs", 1, 0, 0), run("b", "r_damage_bits.crs", 0, 0, 0)];
    let gs = profile_groups(&runs);
    assert_eq!(gs.len(), 1);
    assert_eq!(gs[0].profile_key, "BITS");
    let counts: Vec<(&str, usize)> = gs[0].outcome_counts.clone();
    assert_eq!(
        counts,
        vec![
            ("FULL_FILE_SALVAGE_AVAILABLE", 0),
            ("NO_VERIFIED_EVIDENCE", 1),
            ("ORPHAN_EVIDENCE_ONLY", 1),
            ("PARTIAL_FILE_SALVAGE", 0)
        ]
    );
    assert_eq!(gs[0].aggregate_verified_block_count, 1);
}

#[test]
fn ranking_entries_carry_the_run_and_its_outcome() {
    let e = to_ranking_entry(&run("id1", "dir/a.crushr", 3, 0, 0));
    assert_eq!(e.archive_id, "id1");
    assert_eq!(e.archive_path, "dir/a.crushr");
    assert_eq!(e.verified_block_count, 3);
    assert_eq!(e.outcome, "ORPHAN_EVIDENCE_ONLY");
    assert_eq!(to_ranking_entry(&run("x", "x", 3, 2, 1)).outcome, "FULL_FILE_SALVAGE_AVAILABLE");
}
