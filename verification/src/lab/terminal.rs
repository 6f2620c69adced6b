//! The terminal recovery outcome of a run, from its classification tally,
//! and the fail-closed rule for dictionary-backed archive variants.
use vstd::prelude::*;
use vstd::string::*;
use crate::text::{str_equals, str_starts_with};
use super::counts::{labels_ascending, label_count, count_for_label};

verus! {

/// The sum of the counts under the given labels.
pub open spec fn names_total(es: Seq<(String, u64)>, names: Seq<&str>) -> nat
    decreases names.len(),
{
    if names.len() == 0 {
        0
    } else {
        names_total(es, names.drop_last()) + label_count(es, names.last()@) as nat
    }
}

/// Sums the counts under the given labels.
pub fn class_count(classes: &Vec<(String, u64)>, names: &[&str]) -> (r: u64)
    requires
        labels_ascending(classes@),
        names_total(classes@, names@) <= u64::MAX,
    ensures
        r == names_total(classes@, names@),
{
    let mut total: u64 = 0;
    let mut i: usize = 0;
    while i < names.len()
        invariant
            i <= names@.len(),
            labels_ascending(classes@),
            names_total(classes@, names@) <= u64::MAX,
            total == names_total(classes@, names@.take(i as int)),
        decreases names.len() - i,
    {
        proof {
            assert(names@.take(i + 1).drop_last() =~= names@.take(i as int));
            lemma_names_total_prefix(classes@, names@, i + 1);
        }
        total = total + count_for_label(classes, names[i]);
        i = i + 1;
    }
    proof {
        assert(names@.take(names@.len() as int) =~= names@);
    }
    total
}

proof fn lemma_names_total_prefix(es: Seq<(String, u64)>, names: Seq<&str>, i: int)
    requires
        0 <= i <= names.len(),
    ensures
        names_total(es, names.take(i)) <= names_total(es, names),
    decreases names.len(),
{
    if i < names.len() {
        assert(names.drop_last().take(i) =~= names.take(i));
        lemma_names_total_prefix(es, names.drop_last(), i);
    } else {
        assert(names.take(i) =~= names);
    }
}

/// The best recovery a run reached.
#[derive(Clone, Copy, Debug, PartialEq, Eq, Structural)]
pub enum TerminalRecoveryOutcome {
    Named,
    AnonymousFull,
    PartialOrdered,
    PartialUnordered,
    OrphanEvidence,
    NoVerifiedEvidence,
}

/// How good an outcome is: named full recovery highest, no evidence lowest.
pub open spec fn terminal_rank(t: TerminalRecoveryOutcome) -> int {
    match t {
        TerminalRecoveryOutcome::Named => 5,
        TerminalRecoveryOutcome::AnonymousFull => 4,
        TerminalRecoveryOutcome::PartialOrdered => 3,
        TerminalRecoveryOutcome::PartialUnordered => 2,
        TerminalRecoveryOutcome::OrphanEvidence => 1,
        TerminalRecoveryOutcome::NoVerifiedEvidence => 0,
    }
}

/// The count under either of two labels (the current and the older name of a class).
pub open spec fn pair_total(es: Seq<(String, u64)>, a: Seq<char>, b: Seq<char>) -> int {
    label_count(es, a) + label_count(es, b)
}

/// Every class's pair of labels sums within 64 bits.
pub open spec fn class_pairs_fit(es: Seq<(String, u64)>) -> bool {
    &&& pair_total(es, "FULL_NAMED_VERIFIED"@, "FULL_VERIFIED"@) <= u64::MAX
    &&& pair_total(es, "FULL_ANONYMOUS_VERIFIED"@, "FULL_ANONYMOUS"@) <= u64::MAX
    &&& pair_total(es, "PARTIAL_ORDERED_VERIFIED"@, "PARTIAL_ORDERED"@) <= u64::MAX
    &&& pair_total(es, "PARTIAL_UNORDERED_VERIFIED"@, "PARTIAL_UNORDERED"@) <= u64::MAX
    &&& pair_total(es, "ORPHAN_EVIDENCE_ONLY"@, "ORPHAN_BLOCKS"@) <= u64::MAX
}

/// The best class with a non-zero count, each class counted under its
/// current and its older label.
pub open spec fn spec_terminal_outcome(es: Seq<(String, u64)>) -> TerminalRecoveryOutcome {
    if pair_total(es, "FULL_NAMED_VERIFIED"@, "FULL_VERIFIED"@) > 0 {
        TerminalRecoveryOutcome::Named
    } else if pair_total(es, "FULL_ANONYMOUS_VERIFIED"@, "FULL_ANONYMOUS"@) > 0 {
        TerminalRecoveryOutcome::AnonymousFull
    } else if pair_total(es, "PARTIAL_ORDERED_VERIFIED"@, "PARTIAL_ORDERED"@) > 0 {
        TerminalRecoveryOutcome::PartialOrdered
    } else if pair_total(es, "PARTIAL_UNORDERED_VERIFIED"@, "PARTIAL_UNORDERED"@) > 0 {
        TerminalRecoveryOutcome::PartialUnordered
    } else if pair_total(es, "ORPHAN_EVIDENCE_ONLY"@, "ORPHAN_BLOCKS"@) > 0 {
        TerminalRecoveryOutcome::OrphanEvidence
    } else {
        TerminalRecoveryOutcome::NoVerifiedEvidence
    }
}

fn pair_count(classes: &Vec<(String, u64)>, a: &str, b: &str) -> (r: u64)
    requires
        labels_ascending(classes@),
        pair_total(classes@, a@, b@) <= u64::MAX,
    ensures
        r == pair_total(classes@, a@, b@),
{
    count_for_label(classes, a) + count_for_label(classes, b)
}

/// The best recovery class present in a classification tally.
pub fn terminal_recovery_outcome(classes: &Vec<(String, u64)>) -> (r: TerminalRecoveryOutcome)
    requires
        labels_ascending(classes@),
        class_pairs_fit(classes@),
    ensures
        r == spec_terminal_outcome(classes@),
{
    if pair_count(classes, "FULL_NAMED_VERIFIED", "FULL_VERIFIED") > 0 {
        TerminalRecoveryOutcome::Named
    } else if pair_count(classes, "FULL_ANONYMOUS_VERIFIED", "FULL_ANONYMOUS") > 0 {
        TerminalRecoveryOutcome::AnonymousFull
    } else if pair_count(classes, "PARTIAL_ORDERED_VERIFIED", "PARTIAL_ORDERED") > 0 {
        TerminalRecoveryOutcome::PartialOrdered
    } else if pair_count(classes, "PARTIAL_UNORDERED_VERIFIED", "PARTIAL_UNORDERED") > 0 {
        TerminalRecoveryOutcome::PartialUnordered
    } else if pair_count(classes, "ORPHAN_EVIDENCE_ONLY", "ORPHAN_BLOCKS") > 0 {
        TerminalRecoveryOutcome::OrphanEvidence
    } else {
        TerminalRecoveryOutcome::NoVerifiedEvidence
    }
}

/// The report label of a terminal outcome.
pub open spec fn rank_label(t: TerminalRecoveryOutcome) -> Seq<char> {
    match t {
        TerminalRecoveryOutcome::Named => "named"@,
        TerminalRecoveryOutcome::AnonymousFull => "anonymous"@,
        TerminalRecoveryOutcome::PartialOrdered => "partial_ordered"@,
        TerminalRecoveryOutcome::PartialUnordered => "partial_unordered"@,
        TerminalRecoveryOutcome::OrphanEvidence => "orphan"@,
        TerminalRecoveryOutcome::NoVerifiedEvidence => "none"@,
    }
}

/// The label of the best recovery class present in a classification tally.
pub fn recovery_class_rank(classes: &Vec<(String, u64)>) -> (r: &'static str)
    requires
        labels_ascending(classes@),
        class_pairs_fit(classes@),
    ensures
        r@ == rank_label(spec_terminal_outcome(classes@)),
{
    match terminal_recovery_outcome(classes) {
        TerminalRecoveryOutcome::Named => "named",
        TerminalRecoveryOutcome::AnonymousFull => "anonymous",
        TerminalRecoveryOutcome::PartialOrdered => "partial_ordered",
        TerminalRecoveryOutcome::PartialUnordered => "partial_unordered",
        TerminalRecoveryOutcome::OrphanEvidence => "orphan",
        TerminalRecoveryOutcome::NoVerifiedEvidence => "none",
    }
}

/// A variant that stores its paths in a dictionary.
pub open spec fn is_dictionary_variant(variant: Seq<char>) -> bool {
    "extent_identity_path_dict_"@.len() <= variant.len()
        && variant.subrange(0, "extent_identity_path_dict_"@.len() as int) == "extent_identity_path_dict_"@
}

/// Fail-closed rule: a dictionary variant without a usable dictionary (no
/// copy left, or conflicting copies) cannot name files, so a named full
/// recovery counts as anonymous; every other outcome stands.
pub open spec fn spec_fail_closed(
    variant: Seq<char>,
    terminal: TerminalRecoveryOutcome,
    dictionary_copy_count: usize,
    dictionary_conflict: bool,
) -> TerminalRecoveryOutcome {
    if is_dictionary_variant(variant) && (dictionary_conflict || dictionary_copy_count == 0)
        && terminal == TerminalRecoveryOutcome::Named {
        TerminalRecoveryOutcome::AnonymousFull
    } else {
        terminal
    }
}

/// Applies the fail-closed rule for dictionary variants.
pub fn enforce_dictionary_fail_closed(
    variant: &str,
    terminal: TerminalRecoveryOutcome,
    dictionary_copy_count: usize,
    dictionary_conflict: bool,
) -> (r: TerminalRecoveryOutcome)
    ensures
        r == spec_fail_closed(variant@, terminal, dictionary_copy_count, dictionary_conflict),
{
    if !str_starts_with(variant, "extent_identity_path_dict_") {
        return terminal;
    }
    if !dictionary_conflict && dictionary_copy_count > 0 {
        return terminal;
    }
    match terminal {
        TerminalRecoveryOutcome::NoVerifiedEvidence => TerminalRecoveryOutcome::NoVerifiedEvidence,
        TerminalRecoveryOutcome::OrphanEvidence => TerminalRecoveryOutcome::OrphanEvidence,
        TerminalRecoveryOutcome::PartialOrdered => TerminalRecoveryOutcome::PartialOrdered,
        TerminalRecoveryOutcome::PartialUnordered => TerminalRecoveryOutcome::PartialUnordered,
        TerminalRecoveryOutcome::Named | TerminalRecoveryOutcome::AnonymousFull => {
            TerminalRecoveryOutcome::AnonymousFull
        },
    }
}

/// The fail-closed rule never raises an outcome, and applying it twice is
/// applying it once.
pub proof fn law_fail_closed_never_upgrades(
    variant: Seq<char>,
    terminal: TerminalRecoveryOutcome,
    dictionary_copy_count: usize,
    dictionary_conflict: bool,
)
    ensures
        terminal_rank(spec_fail_closed(variant, terminal, dictionary_copy_count, dictionary_conflict))
            <= terminal_rank(terminal),
        spec_fail_closed(
            variant,
            spec_fail_closed(variant, terminal, dictionary_copy_count, dictionary_conflict),
            dictionary_copy_count,
            dictionary_conflict,
        ) == spec_fail_closed(variant, terminal, dictionary_copy_count, dictionary_conflict),
{
}

/// The dictionary copies a variant keeps, and whether they conflict, after
/// the given corruption target hit it: header-and-tail variants keep one
/// copy when one dictionary is hit, none when both are, and two
/// conflicting copies when they were made inconsistent; single-dictionary
/// and other variants keep none.
pub open spec fn spec_expected_dictionary_state(variant: Seq<char>, target: Seq<char>) -> (usize, bool) {
    let header_tail = variant == "extent_identity_path_dict_header_tail"@
        || variant == "extent_identity_path_dict_factored_header_tail"@;
    if header_tail && (target == "primary_dictionary"@ || target == "mirrored_dictionary"@) {
        (1, false)
    } else if header_tail && target == "inconsistent_dictionaries"@ {
        (2, true)
    } else {
        (0, false)
    }
}

/// The dictionary state a scenario is expected to leave.
pub fn expected_dictionary_state_for_scenario(variant: &str, corruption_target: &str) -> (r: (usize, bool))
    ensures
        r == spec_expected_dictionary_state(variant@, corruption_target@),
{
    proof {
        reveal_strlit("extent_identity_path_dict_");
        reveal_strlit("extent_identity_path_dict_header_tail");
        reveal_strlit("extent_identity_path_dict_factored_header_tail");
    }
    if !str_starts_with(variant, "extent_identity_path_dict_") {
        proof {
            assert("extent_identity_path_dict_header_tail"@.subrange(0, 26) =~= "extent_identity_path_dict_"@);
            assert("extent_identity_path_dict_factored_header_tail"@.subrange(0, 26) =~= "extent_identity_path_dict_"@);
        }
        return (0, false);
    }
    let header_tail = str_equals(variant, "extent_identity_path_dict_header_tail")
        || str_equals(variant, "extent_identity_path_dict_factored_header_tail");
    if header_tail && (str_equals(corruption_target, "primary_dictionary") || str_equals(corruption_target, "mirrored_dictionary")) {
        (1, false)
    } else if header_tail && str_equals(corruption_target, "inconsistent_dictionaries") {
        (2, true)
    } else {
        (0, false)
    }
}

/// The count a tally gives a recovery class, under its current and its
/// older label (no verified evidence has no class of its own).
pub open spec fn class_total(es: Seq<(String, u64)>, t: TerminalRecoveryOutcome) -> int {
    match t {
        TerminalRecoveryOutcome::Named => label_count(es, "FULL_NAMED_VERIFIED"@) + label_count(es, "FULL_VERIFIED"@),
        TerminalRecoveryOutcome::AnonymousFull => label_count(es, "FULL_ANONYMOUS_VERIFIED"@) + label_count(es, "FULL_ANONYMOUS"@),
        TerminalRecoveryOutcome::PartialOrdered => label_count(es, "PARTIAL_ORDERED_VERIFIED"@) + label_count(es, "PARTIAL_ORDERED"@),
        TerminalRecoveryOutcome::PartialUnordered => label_count(es, "PARTIAL_UNORDERED_VERIFIED"@) + label_count(es, "PARTIAL_UNORDERED"@),
        TerminalRecoveryOutcome::OrphanEvidence => label_count(es, "ORPHAN_EVIDENCE_ONLY"@) + label_count(es, "ORPHAN_BLOCKS"@),
        TerminalRecoveryOutcome::NoVerifiedEvidence => 0,
    }
}

/// The terminal outcome is the highest-ranked class the tally counts: its
/// class has a non-zero count (unless it is no verified evidence), no
/// higher-ranked class has any, and no verified evidence comes out exactly
/// when no class has a count.
pub proof fn law_terminal_outcome_is_best_counted_class(es: Seq<(String, u64)>, u: TerminalRecoveryOutcome)
    ensures
        spec_terminal_outcome(es) != TerminalRecoveryOutcome::NoVerifiedEvidence ==> class_total(es, spec_terminal_outcome(es)) > 0,
        terminal_rank(u) > terminal_rank(spec_terminal_outcome(es)) ==> class_total(es, u) == 0,
        class_total(es, u) > 0 ==> terminal_rank(spec_terminal_outcome(es)) >= terminal_rank(u),
        spec_terminal_outcome(es) == TerminalRecoveryOutcome::NoVerifiedEvidence ==> class_total(es, u) == 0,
{
}

/// Damage to either one of the two dictionary copies of a header-and-tail
/// variant leaves the same state, whichever copy was hit: exactly one
/// intact copy and no conflict; losing both leaves none.
pub proof fn law_single_copy_loss_is_symmetric(variant: Seq<char>)
    ensures
        spec_expected_dictionary_state(variant, "primary_dictionary"@)
            == spec_expected_dictionary_state(variant, "mirrored_dictionary"@),
        (variant == "extent_identity_path_dict_header_tail"@ || variant == "extent_identity_path_dict_factored_header_tail"@) ==> {
            &&& spec_expected_dictionary_state(variant, "primary_dictionary"@) == (1usize, false)
            &&& spec_expected_dictionary_state(variant, "mirrored_dictionary"@) == (1usize, false)
            &&& spec_expected_dictionary_state(variant, "both_dictionaries"@) == (0usize, false)
        },
{
    reveal_strlit("primary_dictionary");
    reveal_strlit("mirrored_dictionary");
    reveal_strlit("both_dictionaries");
    reveal_strlit("inconsistent_dictionaries");
    assert("primary_dictionary"@.len() != "inconsistent_dictionaries"@.len());
    assert("mirrored_dictionary"@.len() != "inconsistent_dictionaries"@.len());
    assert("both_dictionaries"@.len() != "inconsistent_dictionaries"@.len());
    assert("both_dictionaries"@.len() != "primary_dictionary"@.len());
    assert("both_dictionaries"@.len() != "mirrored_dictionary"@.len());
}

} // verus!
