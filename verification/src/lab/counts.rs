//! Occurrence counts by label, held as `(label, count)` entries in
//! ascending label order: the shape of a `BTreeMap<String, u64>`.
use vstd::prelude::*;
use vstd::string::*;
use crate::text::{chars_lt, str_equals, str_lt, lemma_chars_lt_irreflexive, lemma_chars_lt_total, lemma_chars_lt_transitive, lemma_chars_lt_asymmetric};

verus! {

/// Labels strictly ascend along the entries (so no label occurs twice).
pub open spec fn labels_ascending(es: Seq<(String, u64)>) -> bool {
    forall|i: int, j: int| 0 <= i < j < es.len() ==> chars_lt(#[trigger] es[i].0@, #[trigger] es[j].0@)
}

/// Some entry has label `k`.
pub open spec fn has_label(es: Seq<(String, u64)>, k: Seq<char>) -> bool {
    exists|i: int| 0 <= i < es.len() && #[trigger] es[i].0@ == k
}

/// The count under label `k`, zero when there is none.
pub open spec fn label_count(es: Seq<(String, u64)>, k: Seq<char>) -> u64
    decreases es.len(),
{
    if es.len() == 0 {
        0
    } else if es.last().0@ == k {
        es.last().1
    } else {
        label_count(es.drop_last(), k)
    }
}

/// With ascending labels, the count under an entry's label is that entry's count.
pub proof fn lemma_label_count_at(es: Seq<(String, u64)>, i: int)
    requires
        labels_ascending(es),
        0 <= i < es.len(),
    ensures
        label_count(es, es[i].0@) == es[i].1,
    decreases es.len(),
{
    if i < es.len() - 1 {
        assert(chars_lt(es[i].0@, es[es.len() - 1].0@));
        lemma_chars_lt_irreflexive(es[i].0@);
        assert(es.drop_last()[i] == es[i]);
        lemma_label_count_at(es.drop_last(), i);
    }
}

/// A label without entry counts zero.
pub proof fn lemma_label_count_absent(es: Seq<(String, u64)>, k: Seq<char>)
    requires
        !has_label(es, k),
    ensures
        label_count(es, k) == 0,
    decreases es.len(),
{
    if es.len() > 0 {
        assert(es[es.len() - 1].0@ != k);
        assert forall|i: int| 0 <= i < es.drop_last().len() implies #[trigger] es.drop_last()[i].0@ != k by {
            assert(es.drop_last()[i] == es[i]);
        }
        lemma_label_count_absent(es.drop_last(), k);
    }
}

/// The count under `key`, or zero (`map.get(key).copied().unwrap_or(0)`).
pub fn count_for_label(es: &Vec<(String, u64)>, key: &str) -> (r: u64)
    requires
        labels_ascending(es@),
    ensures
        r == label_count(es@, key@),
{
    let mut i: usize = 0;
    while i < es.len()
        invariant
            i <= es@.len(),
            labels_ascending(es@),
            forall|j: int| 0 <= j < i ==> #[trigger] es@[j].0@ != key@,
        decreases es.len() - i,
    {
        if str_equals(es[i].0.as_str(), key) {
            proof {
                lemma_label_count_at(es@, i as int);
            }
            return es[i].1;
        }
        i = i + 1;
    }
    proof {
        lemma_label_count_absent(es@, key@);
    }
    0
}

/// Adds `n` to the count under `key`, creating the entry when it is absent
/// (`*map.entry(key).or_insert(0) += n`).
pub fn add_to_label(es: &mut Vec<(String, u64)>, key: &str, n: u64)
    requires
        labels_ascending(old(es)@),
        label_count(old(es)@, key@) + n <= u64::MAX,
    ensures
        labels_ascending(final(es)@),
        forall|k: Seq<char>| #[trigger] has_label(final(es)@, k) <==> has_label(old(es)@, k) || k == key@,
        forall|k: Seq<char>|
            #[trigger] label_count(final(es)@, k) == label_count(old(es)@, k) + if k == key@ { n } else { 0 },
{
    let ghost old_es = es@;
    let mut i: usize = 0;
    while i < es.len() && str_lt(es[i].0.as_str(), key)
        invariant
            i <= es@.len(),
            es@ == old_es,
            labels_ascending(es@),
            forall|j: int| 0 <= j < i ==> chars_lt(#[trigger] es@[j].0@, key@),
        decreases es.len() - i,
    {
        i = i + 1;
    }
    if i < es.len() && str_equals(es[i].0.as_str(), key) {
        proof {
            lemma_label_count_at(old_es, i as int);
        }
        let label = es[i].0.clone();
        let v = es[i].1;
        es.set(i, (label, v + n));
        proof {
            let new_es = es@;
            assert forall|a: int, b: int| 0 <= a < b < new_es.len() implies chars_lt(#[trigger] new_es[a].0@, #[trigger] new_es[b].0@) by {
                assert(chars_lt(old_es[a].0@, old_es[b].0@));
            }
            assert forall|k: Seq<char>| #[trigger] has_label(new_es, k) <==> has_label(old_es, k) || k == key@ by {
                if has_label(new_es, k) {
                    let j = choose|j: int| 0 <= j < new_es.len() && new_es[j].0@ == k;
                    assert(old_es[j].0@ == k);
                }
                if has_label(old_es, k) {
                    let j = choose|j: int| 0 <= j < old_es.len() && old_es[j].0@ == k;
                    assert(new_es[j].0@ == k);
                }
                if k == key@ {
                    assert(new_es[i as int].0@ == k);
                }
            }
            assert forall|k: Seq<char>|
                #[trigger] label_count(new_es, k) == label_count(old_es, k) + if k == key@ { n } else { 0 } by {
                if has_label(old_es, k) {
                    let j = choose|j: int| 0 <= j < old_es.len() && old_es[j].0@ == k;
                    lemma_label_count_at(old_es, j);
                    lemma_label_count_at(new_es, j);
                    if j != i {
                        assert(new_es[j] == old_es[j]);
                        lemma_chars_lt_irreflexive(k);
                        if j < i {
                            assert(chars_lt(old_es[j].0@, key@));
                        } else {
                            assert(chars_lt(old_es[i as int].0@, old_es[j].0@));
                        }
                    }
                } else {
                    lemma_label_count_absent(old_es, k);
                    assert(k != key@);
                    assert(!has_label(new_es, k));
                    lemma_label_count_absent(new_es, k);
                }
            }
        }
    } else {
        proof {
            if i < es.len() {
                lemma_chars_lt_total(es@[i as int].0@, key@);
            }
            assert forall|j: int| i <= j < old_es.len() implies chars_lt(key@, #[trigger] old_es[j].0@) by {
                lemma_chars_lt_total(old_es[i as int].0@, key@);
                if j > i {
                    assert(chars_lt(old_es[i as int].0@, old_es[j].0@));
                    lemma_chars_lt_transitive(key@, old_es[i as int].0@, old_es[j].0@);
                }
            }
            assert(!has_label(old_es, key@)) by {
                if has_label(old_es, key@) {
                    let j = choose|j: int| 0 <= j < old_es.len() && old_es[j].0@ == key@;
                    lemma_chars_lt_irreflexive(key@);
                    if j < i {
                        assert(chars_lt(old_es[j].0@, key@));
                    } else {
                        assert(chars_lt(key@, old_es[j].0@));
                    }
                }
            }
            lemma_label_count_absent(old_es, key@);
        }
        es.insert(i, (String::from_str(key), n));
        proof {
            let new_es = es@;
            assert(new_es == old_es.insert(i as int, new_es[i as int]));
            assert forall|a: int, b: int| 0 <= a < b < new_es.len() implies chars_lt(#[trigger] new_es[a].0@, #[trigger] new_es[b].0@) by {
                if b < i {
                    assert(chars_lt(old_es[a].0@, old_es[b].0@));
                } else if b == i {
                    assert(chars_lt(old_es[a].0@, key@));
                } else if a == i {
                    assert(chars_lt(key@, old_es[b - 1].0@));
                } else if a < i {
                    assert(chars_lt(old_es[a].0@, old_es[b - 1].0@));
                } else {
                    assert(chars_lt(old_es[a - 1].0@, old_es[b - 1].0@));
                }
            }
            assert forall|k: Seq<char>| #[trigger] has_label(new_es, k) <==> has_label(old_es, k) || k == key@ by {
                if has_label(new_es, k) {
                    let j = choose|j: int| 0 <= j < new_es.len() && new_es[j].0@ == k;
                    if j < i {
                        assert(old_es[j].0@ == k);
                    } else if j > i {
                        assert(old_es[j - 1].0@ == k);
                    }
                }
                if has_label(old_es, k) {
                    let j = choose|j: int| 0 <= j < old_es.len() && old_es[j].0@ == k;
                    if j < i {
                        assert(new_es[j].0@ == k);
                    } else {
                        assert(new_es[j + 1].0@ == k);
                    }
                }
                if k == key@ {
                    assert(new_es[i as int].0@ == k);
                }
            }
            assert forall|k: Seq<char>|
                #[trigger] label_count(new_es, k) == label_count(old_es, k) + if k == key@ { n } else { 0 } by {
                if k == key@ {
                    lemma_label_count_at(new_es, i as int);
                } else if has_label(old_es, k) {
                    let j = choose|j: int| 0 <= j < old_es.len() && old_es[j].0@ == k;
                    lemma_label_count_at(old_es, j);
                    if j < i {
                        assert(new_es[j] == old_es[j]);
                        lemma_label_count_at(new_es, j);
                    } else {
                        assert(new_es[j + 1] == old_es[j]);
                        lemma_label_count_at(new_es, j + 1);
                    }
                } else {
                    lemma_label_count_absent(old_es, k);
                    assert(!has_label(new_es, k));
                    lemma_label_count_absent(new_es, k);
                }
            }
        }
    }
}

} // verus!
