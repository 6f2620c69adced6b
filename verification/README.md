# crushr

Salvage planning and salvage research tooling for crushr archives, written
in Verus: the library in `src/` is verified, the programs in `app/` are plain
Rust around it.

- `src/salvage/` — the salvage planner: scanning an archive for BLK3 block
  candidates and verifying them (bounds, BLAKE3 hashes, zstd decoding,
  dictionary dependencies), reading redundant maps and experimental metadata
  records, planning every file fail-closed against the verified blocks
  (from extent records, whatever their order), holding plans to file manifests, choosing the plan source (ledger first,
  then each metadata record family in turn), and planning the export of
  research artifacts.
- `src/lab/` — the research harness: command-line parsing, comparison
  scenarios and the damage they do to archives, outcome classification,
  comparison groups and summaries, experiment summaries and analyses,
  dictionary and identity metrics, the per-variant totals, breakdowns and
  deltas of the metadata, stress and dictionary comparisons, the format-09
  metadata gains, the dictionary-copy rewrite, and the Markdown reports.
- `src/text.rs`, `src/json.rs`, `src/digest.rs`, `src/seqs.rs` — strings,
  JSON values, digests (BLAKE3 and zstd are called through two trusted
  wrappers) and sequence lemmas.
- `src/command.rs` — the `crushr` front end's command decision.
- `app/` — `main`, file and process I/O, the archive format readers, and
  JSON serialisation.
- `tests/` — tests on concrete values.

The public proof functions named `law_*` state the properties the library
keeps across inputs and calls.
