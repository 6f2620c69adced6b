//! The deterministic scenario grids of the comparison runs, and the archive
//! variants they compare.
use vstd::prelude::*;
use vstd::string::*;
use crate::text::{push_str, u64_to_decimal, decimal};

verus! {

/// One corruption scenario of a comparison run.
pub struct ComparisonScenario {
    pub scenario_id: String,
    pub dataset: &'static str,
    pub corruption_model: &'static str,
    pub corruption_target: &'static str,
    pub magnitude: &'static str,
    pub seed: u64,
    pub break_redundant_map: bool,
}

/// `a_b_c_d`.
pub open spec fn join4(a: Seq<char>, b: Seq<char>, c: Seq<char>, d: Seq<char>) -> Seq<char> {
    a + "_"@ + b + "_"@ + c + "_"@ + d
}

/// `a_b_c`.
pub open spec fn join3(a: Seq<char>, b: Seq<char>, c: Seq<char>) -> Seq<char> {
    a + "_"@ + b + "_"@ + c
}

fn join_parts(parts: &[&str]) -> (r: String)
    requires
        parts@.len() > 0,
    ensures
        r@ == joined(parts@),
{
    let mut out = String::from_str(parts[0]);
    let mut i: usize = 1;
    while i < parts.len()
        invariant
            1 <= i <= parts@.len(),
            out@ == joined(parts@.take(i as int)),
        decreases parts.len() - i,
    {
        proof {
            assert(parts@.take(i + 1).drop_last() =~= parts@.take(i as int));
        }
        push_str(&mut out, "_");
        push_str(&mut out, parts[i]);
        i = i + 1;
    }
    proof {
        assert(parts@.take(parts@.len() as int) =~= parts@);
    }
    out
}

/// The parts joined with `_` between them.
pub open spec fn joined(parts: Seq<&str>) -> Seq<char>
    decreases parts.len(),
{
    if parts.len() <= 1 {
        if parts.len() == 1 { parts[0]@ } else { seq![] }
    } else {
        joined(parts.drop_last()) + "_"@ + parts.last()@
    }
}

/// The datasets of the standard grid.
pub open spec fn standard_dataset(d: int) -> Seq<char> {
    if d == 0 { "smallfiles"@ } else if d == 1 { "mixed"@ } else { "largefiles"@ }
}

/// The datasets of the stress grid.
pub open spec fn stress_dataset(d: int) -> Seq<char> {
    if d == 0 {
        "deep_paths"@
    } else if d == 1 {
        "long_names"@
    } else if d == 2 {
        "fragmentation_heavy"@
    } else {
        "mixed_worst_case"@
    }
}

/// The corruption targets of the grid.
pub open spec fn grid_target(t: int) -> Seq<char> {
    if t == 0 { "header"@ } else if t == 1 { "index"@ } else if t == 2 { "payload"@ } else { "tail"@ }
}

/// The corruption model of each target: the tail is truncated, the rest byte-flipped.
pub open spec fn grid_model(t: int) -> Seq<char> {
    if t == 3 { "truncate"@ } else { "byte_flip"@ }
}

/// The magnitudes of the grid.
pub open spec fn grid_magnitude(m: int) -> Seq<char> {
    if m == 0 { "small"@ } else { "medium"@ }
}

/// Scenario `k` of a grid over `datasets`: datasets outermost, then the
/// four targets, then the two magnitudes; seeds count up from `first_seed`;
/// only the mixed dataset's medium index corruption also breaks the
/// redundant map.
pub open spec fn grid_scenario_ok(s: ComparisonScenario, datasets: Seq<Seq<char>>, first_seed: u64, k: int) -> bool {
    let d = datasets[k / 8];
    let t = (k % 8) / 2;
    let m = k % 2;
    &&& s.dataset@ == d
    &&& s.corruption_target@ == grid_target(t)
    &&& s.corruption_model@ == grid_model(t)
    &&& s.magnitude@ == grid_magnitude(m)
    &&& s.seed == first_seed + k
    &&& s.scenario_id@ == join4(d, grid_target(t), grid_model(t), grid_magnitude(m))
    &&& s.break_redundant_map == (d == "mixed"@ && t == 1 && m == 1)
}

fn target_at(t: usize) -> (r: (&'static str, &'static str))
    requires
        t < 4,
    ensures
        r.0@ == grid_target(t as int),
        r.1@ == grid_model(t as int),
{
    if t == 0 {
        ("header", "byte_flip")
    } else if t == 1 {
        ("index", "byte_flip")
    } else if t == 2 {
        ("payload", "byte_flip")
    } else {
        ("tail", "truncate")
    }
}

fn grid_scenarios(datasets: &[&'static str], first_seed: u64) -> (out: Vec<ComparisonScenario>)
    requires
        datasets@.len() <= 4,
        first_seed + 32 <= u64::MAX,
    ensures
        out@.len() == 8 * datasets@.len(),
        forall|k: int|
            0 <= k < out@.len() ==> grid_scenario_ok(
                #[trigger] out@[k],
                datasets@.map_values(|s: &str| s@),
                first_seed,
                k,
            ),
{
    let ghost dv = datasets@.map_values(|s: &str| s@);
    let n = 8 * datasets.len();
    let mut out: Vec<ComparisonScenario> = Vec::new();
    let mut k: usize = 0;
    while k < n
        invariant
            n == 8 * datasets@.len(),
            datasets@.len() <= 4,
            first_seed + 32 <= u64::MAX,
            dv == datasets@.map_values(|s: &str| s@),
            k <= n,
            out@.len() == k,
            forall|j: int| 0 <= j < k ==> grid_scenario_ok(#[trigger] out@[j], dv, first_seed, j),
        decreases n - k,
    {
        let dataset = datasets[k / 8];
        let (target, model) = target_at((k % 8) / 2);
        let magnitude = if k % 2 == 0 { "small" } else { "medium" };
        let break_redundant_map = crate::text::str_equals(dataset, "mixed") && (k % 8) / 2 == 1 && k % 2 == 1;
        let parts = [dataset, target, model, magnitude];
        let scenario_id = join_parts(&parts);
        proof {
            assert(parts@.take(1) =~= seq![dataset]);
            assert(parts@.take(2).drop_last() =~= parts@.take(1));
            assert(parts@.take(3).drop_last() =~= parts@.take(2));
            assert(parts@.drop_last() =~= parts@.take(3));
            assert(dv[(k / 8) as int] == dataset@);
            assert(joined(parts@.take(1)) == dataset@);
            assert(joined(parts@.take(2)) == dataset@ + "_"@ + target@);
            assert(joined(parts@.take(3)) == dataset@ + "_"@ + target@ + "_"@ + model@);
            assert(joined(parts@) == dataset@ + "_"@ + target@ + "_"@ + model@ + "_"@ + magnitude@);
            assert(scenario_id@ == join4(dataset@, target@, model@, magnitude@));
        }
        out.push(ComparisonScenario {
            scenario_id,
            dataset,
            corruption_model: model,
            corruption_target: target,
            magnitude,
            seed: first_seed + k as u64,
            break_redundant_map,
        });
        proof {
            assert(grid_scenario_ok(out@[k as int], dv, first_seed, k as int));
        }
        k = k + 1;
    }
    out
}

/// The 24 scenarios of the standard comparison grid (three datasets, four
/// targets, two magnitudes), seeded from 100.
pub fn comparison_scenarios() -> (out: Vec<ComparisonScenario>)
    ensures
        out@.len() == 24,
        forall|k: int|
            0 <= k < 24 ==> grid_scenario_ok(
                #[trigger] out@[k],
                seq![standard_dataset(0), standard_dataset(1), standard_dataset(2)],
                100,
                k,
            ),
{
    let datasets = ["smallfiles", "mixed", "largefiles"];
    proof {
        assert(datasets@.map_values(|s: &str| s@) =~= seq![standard_dataset(0), standard_dataset(1), standard_dataset(2)]);
    }
    grid_scenarios(&datasets, 100)
}

/// The 32 scenarios of the stress grid (four stress datasets), seeded from 9100.
pub fn format12_stress_scenarios() -> (out: Vec<ComparisonScenario>)
    ensures
        out@.len() == 32,
        forall|k: int|
            0 <= k < 32 ==> grid_scenario_ok(
                #[trigger] out@[k],
                seq![stress_dataset(0), stress_dataset(1), stress_dataset(2), stress_dataset(3)],
                9100,
                k,
            ),
{
    let datasets = ["deep_paths", "long_names", "fragmentation_heavy", "mixed_worst_case"];
    proof {
        assert(datasets@.map_values(|s: &str| s@) =~= seq![
            stress_dataset(0),
            stress_dataset(1),
            stress_dataset(2),
            stress_dataset(3),
        ]);
    }
    grid_scenarios(&datasets, 9100)
}


/// One scenario of the metadata-regime comparison: metadata damage of
/// some kind at some target, combined with payload damage.
pub struct Format09Scenario {
    pub scenario_id: String,
    pub dataset: &'static str,
    pub metadata_regime: &'static str,
    pub metadata_target: &'static str,
    pub metadata_operation: &'static str,
    pub payload_damage: &'static str,
    pub seed: u64,
}

/// The metadata regimes.
pub open spec fn f09_regime(r: int) -> Seq<char> {
    if r == 0 {
        "metadata_intact"@
    } else if r == 1 {
        "metadata_destroyed"@
    } else if r == 2 {
        "metadata_partial"@
    } else {
        "metadata_conflicting"@
    }
}

/// The operation that damages metadata under a regime.
pub open spec fn f09_operation(r: int) -> Seq<char> {
    if r == 0 {
        "none"@
    } else if r == 1 {
        "delete"@
    } else if r == 2 {
        "truncate"@
    } else {
        "overwrite"@
    }
}

/// The metadata targets, one per payload damage kind.
pub open spec fn f09_target(i: int) -> Seq<char> {
    if i == 0 {
        "index"@
    } else if i == 1 {
        "manifest"@
    } else if i == 2 {
        "path_checkpoint"@
    } else if i == 3 {
        "tail_metadata"@
    } else if i == 4 {
        "multiple_metadata_layers"@
    } else {
        "index_manifest"@
    }
}

/// The payload damage kinds.
pub open spec fn f09_payload(i: int) -> Seq<char> {
    if i == 0 {
        "none"@
    } else if i == 1 {
        "single_block_delete"@
    } else if i == 2 {
        "sparse_delete"@
    } else if i == 3 {
        "cluster_delete"@
    } else if i == 4 {
        "block_reorder"@
    } else {
        "duplicate_block_insert"@
    }
}

/// Scenario `k` of the metadata-regime grid: payload damage kinds
/// outermost (each with its own metadata target), then the four regimes;
/// seeds count up from 900 and pick the dataset in rotation.
pub open spec fn f09_scenario_ok(s: Format09Scenario, k: int) -> bool {
    let i = k / 4;
    let r = k % 4;
    let seed = 900 + k;
    &&& s.seed == seed
    &&& s.metadata_regime@ == f09_regime(r)
    &&& s.metadata_operation@ == f09_operation(r)
    &&& s.metadata_target@ == f09_target(i)
    &&& s.payload_damage@ == f09_payload(i)
    &&& s.dataset@ == standard_dataset((i + seed % 3) % 3)
    &&& s.scenario_id@ == join4(f09_regime(r), f09_target(i), f09_payload(i), decimal(seed as nat))
}

fn f09_parts(i: usize, r: usize) -> (out: (&'static str, &'static str, &'static str, &'static str))
    requires
        i < 6,
        r < 4,
    ensures
        out.0@ == f09_regime(r as int),
        out.1@ == f09_operation(r as int),
        out.2@ == f09_target(i as int),
        out.3@ == f09_payload(i as int),
{
    let (regime, op) = if r == 0 {
        ("metadata_intact", "none")
    } else if r == 1 {
        ("metadata_destroyed", "delete")
    } else if r == 2 {
        ("metadata_partial", "truncate")
    } else {
        ("metadata_conflicting", "overwrite")
    };
    let (target, payload) = if i == 0 {
        ("index", "none")
    } else if i == 1 {
        ("manifest", "single_block_delete")
    } else if i == 2 {
        ("path_checkpoint", "sparse_delete")
    } else if i == 3 {
        ("tail_metadata", "cluster_delete")
    } else if i == 4 {
        ("multiple_metadata_layers", "block_reorder")
    } else {
        ("index_manifest", "duplicate_block_insert")
    };
    (regime, op, target, payload)
}

fn standard_dataset_at(d: usize) -> (r: &'static str)
    requires
        d < 3,
    ensures
        r@ == standard_dataset(d as int),
{
    if d == 0 { "smallfiles" } else if d == 1 { "mixed" } else { "largefiles" }
}

/// The 24 scenarios of the metadata-regime comparison.
pub fn format09_scenarios() -> (out: Vec<Format09Scenario>)
    ensures
        out@.len() == 24,
        forall|k: int| 0 <= k < 24 ==> f09_scenario_ok(#[trigger] out@[k], k),
{
    let mut out: Vec<Format09Scenario> = Vec::new();
    let mut k: usize = 0;
    while k < 24
        invariant
            k <= 24,
            out@.len() == k,
            forall|j: int| 0 <= j < k ==> f09_scenario_ok(#[trigger] out@[j], j),
        decreases 24 - k,
    {
        let i = k / 4;
        let seed: u64 = 900 + k as u64;
        let (regime, op, target, payload) = f09_parts(i, k % 4);
        let dataset = standard_dataset_at((i + (seed as usize) % 3) % 3);
        let seed_text = u64_to_decimal(seed);
        let parts = [regime, target, payload, seed_text.as_str()];
        let scenario_id = join_parts(&parts);
        proof {
            assert(parts@.take(1) =~= seq![regime]);
            assert(parts@.take(2).drop_last() =~= parts@.take(1));
            assert(parts@.take(3).drop_last() =~= parts@.take(2));
            assert(parts@.drop_last() =~= parts@.take(3));
            assert(joined(parts@.take(1)) == regime@);
            assert(joined(parts@.take(2)) == regime@ + "_"@ + target@);
            assert(joined(parts@.take(3)) == regime@ + "_"@ + target@ + "_"@ + payload@);
            assert(joined(parts@) == regime@ + "_"@ + target@ + "_"@ + payload@ + "_"@ + seed_text@);
        }
        out.push(Format09Scenario {
            scenario_id,
            dataset,
            metadata_regime: regime,
            metadata_target: target,
            metadata_operation: op,
            payload_damage: payload,
            seed,
        });
        proof {
            assert(f09_scenario_ok(out@[k as int], k as int));
        }
        k = k + 1;
    }
    out
}

/// The dictionary corruption targets.
pub open spec fn dictionary_target(t: int) -> Seq<char> {
    if t == 0 {
        "primary_dictionary"@
    } else if t == 1 {
        "mirrored_dictionary"@
    } else if t == 2 {
        "both_dictionaries"@
    } else {
        "inconsistent_dictionaries"@
    }
}

/// The model of a dictionary target: the inconsistent pair is rewritten,
/// the others byte-flipped.
pub open spec fn dictionary_model(t: int) -> Seq<char> {
    if t == 3 { "rewrite"@ } else { "byte_flip"@ }
}

/// Scenario `k` of the dictionary grid: datasets outermost, then the four
/// dictionary targets; seeds count up from `first_seed`.
pub open spec fn dictionary_scenario_ok(s: ComparisonScenario, datasets: Seq<Seq<char>>, first_seed: u64, k: int) -> bool {
    let d = datasets[k / 4];
    let t = k % 4;
    &&& s.dataset@ == d
    &&& s.corruption_target@ == dictionary_target(t)
    &&& s.corruption_model@ == dictionary_model(t)
    &&& s.magnitude@ == "dictionary"@
    &&& s.seed == first_seed + k
    &&& s.scenario_id@ == join3(d, dictionary_target(t), dictionary_model(t))
    &&& !s.break_redundant_map
}

/// The scenarios of the dictionary resilience comparison: four dictionary
/// targets over the standard datasets (seeds from 14000) or the stress
/// datasets (seeds from 14100).
pub fn format14a_dictionary_scenarios(stress: bool) -> (out: Vec<ComparisonScenario>)
    ensures
        out@.len() == if stress { 16int } else { 12int },
        forall|k: int|
            0 <= k < out@.len() ==> dictionary_scenario_ok(
                #[trigger] out@[k],
                if stress {
                    seq![stress_dataset(0), stress_dataset(1), stress_dataset(2), stress_dataset(3)]
                } else {
                    seq![standard_dataset(0), standard_dataset(1), standard_dataset(2)]
                },
                if stress { 14100u64 } else { 14000u64 },
                k,
            ),
{
    let datasets: Vec<&'static str> = if stress {
        vec!["deep_paths", "long_names", "fragmentation_heavy", "mixed_worst_case"]
    } else {
        vec!["smallfiles", "mixed", "largefiles"]
    };
    let ghost dv = datasets@.map_values(|s: &str| s@);
    proof {
        if stress {
            assert(dv =~= seq![stress_dataset(0), stress_dataset(1), stress_dataset(2), stress_dataset(3)]);
        } else {
            assert(dv =~= seq![standard_dataset(0), standard_dataset(1), standard_dataset(2)]);
        }
    }
    let first_seed: u64 = if stress { 14100 } else { 14000 };
    let n = 4 * datasets.len();
    let mut out: Vec<ComparisonScenario> = Vec::new();
    let mut k: usize = 0;
    while k < n
        invariant
            n == 4 * datasets@.len(),
            datasets@.len() <= 4,
            first_seed <= 14100,
            dv == datasets@.map_values(|s: &str| s@),
            k <= n,
            out@.len() == k,
            forall|j: int| 0 <= j < k ==> dictionary_scenario_ok(#[trigger] out@[j], dv, first_seed, j),
        decreases n - k,
    {
        let dataset = datasets[k / 4];
        let t = k % 4;
        let (target, model) = if t == 0 {
            ("primary_dictionary", "byte_flip")
        } else if t == 1 {
            ("mirrored_dictionary", "byte_flip")
        } else if t == 2 {
            ("both_dictionaries", "byte_flip")
        } else {
            ("inconsistent_dictionaries", "rewrite")
        };
        let parts = [dataset, target, model];
        let scenario_id = join_parts(&parts);
        proof {
            assert(parts@.take(1) =~= seq![dataset]);
            assert(parts@.take(2).drop_last() =~= parts@.take(1));
            assert(parts@.drop_last() =~= parts@.take(2));
            assert(joined(parts@.take(1)) == dataset@);
            assert(joined(parts@.take(2)) == dataset@ + "_"@ + target@);
            assert(joined(parts@) == dataset@ + "_"@ + target@ + "_"@ + model@);
            assert(dv[(k / 4) as int] == dataset@);
        }
        out.push(ComparisonScenario {
            scenario_id,
            dataset,
            corruption_model: model,
            corruption_target: target,
            magnitude: "dictionary",
            seed: first_seed + k as u64,
            break_redundant_map: false,
        });
        proof {
            assert(dictionary_scenario_ok(out@[k as int], dv, first_seed, k as int));
        }
        k = k + 1;
    }
    out
}

/// The archive variants of the stress comparison.
pub fn format12_stress_variants() -> (r: Vec<&'static str>)
    ensures
        r@.map_values(|s: &str| s@) == seq![
            "payload_only"@,
            "extent_identity_only"@,
            "extent_identity_inline_path"@,
            "payload_plus_manifest"@,
        ],
{
    let r = vec!["payload_only", "extent_identity_only", "extent_identity_inline_path", "payload_plus_manifest"];
    proof {
        assert(r@.map_values(|s: &str| s@) =~= seq![
            "payload_only"@,
            "extent_identity_only"@,
            "extent_identity_inline_path"@,
            "payload_plus_manifest"@,
        ]);
    }
    r
}

/// The archive variants of the dictionary comparison.
pub fn format13_variants() -> (r: Vec<&'static str>)
    ensures
        r@.map_values(|s: &str| s@) == seq![
            "payload_only"@,
            "extent_identity_inline_path"@,
            "extent_identity_path_dict_single"@,
            "extent_identity_path_dict_header_tail"@,
            "extent_identity_path_dict_quasi_uniform"@,
            "payload_plus_manifest"@,
        ],
{
    let r = vec![
        "payload_only",
        "extent_identity_inline_path",
        "extent_identity_path_dict_single",
        "extent_identity_path_dict_header_tail",
        "extent_identity_path_dict_quasi_uniform",
        "payload_plus_manifest",
    ];
    proof {
        assert(r@.map_values(|s: &str| s@) =~= seq![
            "payload_only"@,
            "extent_identity_inline_path"@,
            "extent_identity_path_dict_single"@,
            "extent_identity_path_dict_header_tail"@,
            "extent_identity_path_dict_quasi_uniform"@,
            "payload_plus_manifest"@,
        ]);
    }
    r
}

/// The archive variants of the dictionary resilience comparison.
pub fn format14a_variants() -> (r: Vec<&'static str>)
    ensures
        r@.map_values(|s: &str| s@) == seq![
            "extent_identity_inline_path"@,
            "extent_identity_path_dict_single"@,
            "extent_identity_path_dict_header_tail"@,
            "payload_plus_manifest"@,
        ],
{
    let r = vec![
        "extent_identity_inline_path",
        "extent_identity_path_dict_single",
        "extent_identity_path_dict_header_tail",
        "payload_plus_manifest",
    ];
    proof {
        assert(r@.map_values(|s: &str| s@) =~= seq![
            "extent_identity_inline_path"@,
            "extent_identity_path_dict_single"@,
            "extent_identity_path_dict_header_tail"@,
            "payload_plus_manifest"@,
        ]);
    }
    r
}

/// The archive variants of the factored dictionary comparison.
pub fn format15_variants() -> (r: Vec<&'static str>)
    ensures
        r@.map_values(|s: &str| s@) == seq![
            "extent_identity_inline_path"@,
            "extent_identity_path_dict_header_tail"@,
            "extent_identity_path_dict_factored_header_tail"@,
            "payload_plus_manifest"@,
        ],
{
    let r = vec![
        "extent_identity_inline_path",
        "extent_identity_path_dict_header_tail",
        "extent_identity_path_dict_factored_header_tail",
        "payload_plus_manifest",
    ];
    proof {
        assert(r@.map_values(|s: &str| s@) =~= seq![
            "extent_identity_inline_path"@,
            "extent_identity_path_dict_header_tail"@,
            "extent_identity_path_dict_factored_header_tail"@,
            "payload_plus_manifest"@,
        ]);
    }
    r
}

/// The metadata profiles of the pruning comparison.
#[derive(Clone, Copy, Debug, PartialEq, Eq, Structural)]
pub enum Format10Variant {
    PayloadOnly,
    PayloadPlusManifest,
    PayloadPlusPath,
    FullCurrentExperimental,
}

impl Format10Variant {
    /// The label of the variant.
    pub fn as_str(self) -> (r: &'static str)
        ensures
            r@ == match self {
                Format10Variant::PayloadOnly => "payload_only"@,
                Format10Variant::PayloadPlusManifest => "payload_plus_manifest"@,
                Format10Variant::PayloadPlusPath => "payload_plus_path"@,
                Format10Variant::FullCurrentExperimental => "full_current_experimental"@,
            },
    {
        match self {
            Format10Variant::PayloadOnly => "payload_only",
            Format10Variant::PayloadPlusManifest => "payload_plus_manifest",
            Format10Variant::PayloadPlusPath => "payload_plus_path",
            Format10Variant::FullCurrentExperimental => "full_current_experimental",
        }
    }

    /// The metadata profile the packer is given: the variant's label.
    pub fn metadata_profile(self) -> (r: &'static str)
        ensures
            r@ == match self {
                Format10Variant::PayloadOnly => "payload_only"@,
                Format10Variant::PayloadPlusManifest => "payload_plus_manifest"@,
                Format10Variant::PayloadPlusPath => "payload_plus_path"@,
                Format10Variant::FullCurrentExperimental => "full_current_experimental"@,
            },
    {
        self.as_str()
    }
}

/// The metadata profiles of the extent identity comparison.
#[derive(Clone, Copy, Debug, PartialEq, Eq, Structural)]
pub enum Format11Variant {
    PayloadOnly,
    PayloadPlusManifest,
    FullCurrentExperimental,
    ExtentIdentityOnly,
}

impl Format11Variant {
    /// The label of the variant.
    pub fn as_str(self) -> (r: &'static str)
        ensures
            r@ == match self {
                Format11Variant::PayloadOnly => "payload_only"@,
                Format11Variant::PayloadPlusManifest => "payload_plus_manifest"@,
                Format11Variant::FullCurrentExperimental => "full_current_experimental"@,
                Format11Variant::ExtentIdentityOnly => "extent_identity_only"@,
            },
    {
        match self {
            Format11Variant::PayloadOnly => "payload_only",
            Format11Variant::PayloadPlusManifest => "payload_plus_manifest",
            Format11Variant::FullCurrentExperimental => "full_current_experimental",
            Format11Variant::ExtentIdentityOnly => "extent_identity_only",
        }
    }

    /// The metadata profile the packer is given: the variant's label.
    pub fn metadata_profile(self) -> (r: &'static str)
        ensures
            r@ == match self {
                Format11Variant::PayloadOnly => "payload_only"@,
                Format11Variant::PayloadPlusManifest => "payload_plus_manifest"@,
                Format11Variant::FullCurrentExperimental => "full_current_experimental"@,
                Format11Variant::ExtentIdentityOnly => "extent_identity_only"@,
            },
    {
        self.as_str()
    }
}

/// The metadata profiles of the inline path comparison.
#[derive(Clone, Copy, Debug, PartialEq, Eq, Structural)]
pub enum Format12Variant {
    PayloadOnly,
    ExtentIdentityOnly,
    ExtentIdentityDistributedNames,
    PayloadPlusManifest,
    FullCurrentExperimental,
    ExtentIdentityInlinePath,
}

impl Format12Variant {
    /// The label of the variant.
    pub fn as_str(self) -> (r: &'static str)
        ensures
            r@ == match self {
                Format12Variant::PayloadOnly => "payload_only"@,
                Format12Variant::ExtentIdentityOnly => "extent_identity_only"@,
                Format12Variant::ExtentIdentityDistributedNames => "extent_identity_distributed_names"@,
                Format12Variant::PayloadPlusManifest => "payload_plus_manifest"@,
                Format12Variant::FullCurrentExperimental => "full_current_experimental"@,
                Format12Variant::ExtentIdentityInlinePath => "extent_identity_inline_path"@,
            },
    {
        match self {
            Format12Variant::PayloadOnly => "payload_only",
            Format12Variant::ExtentIdentityOnly => "extent_identity_only",
            Format12Variant::ExtentIdentityDistributedNames => "extent_identity_distributed_names",
            Format12Variant::PayloadPlusManifest => "payload_plus_manifest",
            Format12Variant::FullCurrentExperimental => "full_current_experimental",
            Format12Variant::ExtentIdentityInlinePath => "extent_identity_inline_path",
        }
    }
}


/// Every scenario of a grid has a seed of its own, and seeds rise with the
/// scenario's position.
pub proof fn law_grid_seeds_distinct(ss: Seq<ComparisonScenario>, datasets: Seq<Seq<char>>, first_seed: u64)
    requires
        forall|k: int| 0 <= k < ss.len() ==> grid_scenario_ok(#[trigger] ss[k], datasets, first_seed, k),
    ensures
        forall|a: int, b: int| 0 <= a < b < ss.len() ==> (#[trigger] ss[a]).seed < (#[trigger] ss[b]).seed,
{
    assert forall|a: int, b: int| 0 <= a < b < ss.len() implies (#[trigger] ss[a]).seed < (#[trigger] ss[b]).seed by {
        assert(grid_scenario_ok(ss[a], datasets, first_seed, a));
        assert(grid_scenario_ok(ss[b], datasets, first_seed, b));
    }
}

} // verus!
