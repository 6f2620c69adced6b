//! Grouping of keyed items by path, in path order (what a `BTreeMap` keyed
//! by path yields).
use vstd::prelude::*;
use crate::text::{chars_lt, str_equals, str_lt, lemma_chars_lt_total, lemma_chars_lt_transitive, lemma_chars_lt_irreflexive};

verus! {

/// The items filed under `key`, in input order.
pub open spec fn items_with_key<T>(items: Seq<(Seq<char>, T)>, key: Seq<char>) -> Seq<T>
    decreases items.len(),
{
    if items.len() == 0 {
        seq![]
    } else {
        let rest = items_with_key(items.drop_last(), key);
        if items.last().0 == key { rest.push(items.last().1) } else { rest }
    }
}

/// `groups` is the grouping of `items` by key: keys in strictly increasing
/// order, one group per key that occurs, each holding the items of its key
/// in input order.
pub open spec fn is_grouping<T>(items: Seq<(Seq<char>, T)>, groups: Seq<(Seq<char>, Seq<T>)>) -> bool {
    &&& forall|k: int, l: int| 0 <= k < l < groups.len() ==> chars_lt(#[trigger] groups[k].0, #[trigger] groups[l].0)
    &&& forall|j: int| 0 <= j < items.len() ==> exists|k: int| 0 <= k < groups.len() && #[trigger] groups[k].0 == #[trigger] items[j].0
    &&& forall|k: int| 0 <= k < groups.len() ==> #[trigger] groups[k].1 == items_with_key(items, groups[k].0)
    &&& forall|k: int| 0 <= k < groups.len() ==> (#[trigger] groups[k].1).len() > 0
}

/// Every item filed under `key` comes from an item of `items` with that key.
pub proof fn lemma_items_with_key_origin<T>(items: Seq<(Seq<char>, T)>, key: Seq<char>, m: int)
    requires
        0 <= m < items_with_key(items, key).len(),
    ensures
        exists|j: int| 0 <= j < items.len() && (#[trigger] items[j]).0 == key && items[j].1 == items_with_key(items, key)[m],
    decreases items.len(),
{
    let rest = items_with_key(items.drop_last(), key);
    if items.last().0 == key && m == rest.len() {
        assert(items[items.len() - 1].0 == key);
    } else {
        lemma_items_with_key_origin(items.drop_last(), key, m);
        let j = choose|j: int| 0 <= j < items.drop_last().len() && (#[trigger] items.drop_last()[j]).0 == key && items.drop_last()[j].1 == rest[m];
        assert(items[j] == items.drop_last()[j]);
    }
}

/// Keyed items as plain values.
pub open spec fn keyed_views<T>(items: Seq<(String, T)>) -> Seq<(Seq<char>, T)> {
    items.map_values(|it: (String, T)| (it.0@, it.1))
}

/// Groups as plain values.
pub open spec fn group_views<T>(groups: Seq<(String, Vec<T>)>) -> Seq<(Seq<char>, Seq<T>)> {
    groups.map_values(|g: (String, Vec<T>)| (g.0@, g.1@))
}

proof fn lemma_items_with_key_push<T>(items: Seq<(Seq<char>, T)>, it: (Seq<char>, T), key: Seq<char>)
    ensures
        items_with_key(items.push(it), key) == if it.0 == key {
            items_with_key(items, key).push(it.1)
        } else {
            items_with_key(items, key)
        },
{
    assert(items.push(it).drop_last() =~= items);
}

proof fn lemma_items_with_absent_key<T>(items: Seq<(Seq<char>, T)>, key: Seq<char>)
    requires
        forall|j: int| 0 <= j < items.len() ==> items[j].0 != key,
    ensures
        items_with_key(items, key) == Seq::<T>::empty(),
    decreases items.len(),
{
    if items.len() > 0 {
        lemma_items_with_absent_key(items.drop_last(), key);
    }
}

/// Groups keyed items by key, like collecting them into a `BTreeMap` keyed
/// by the string and pushing each item onto its key's list.
pub fn group_by_key<T>(items: Vec<(String, T)>) -> (groups: Vec<(String, Vec<T>)>)
    ensures
        is_grouping(keyed_views(items@), group_views(groups@)),
{
    let ghost all = keyed_views(items@);
    let mut rest = items;
    let mut groups: Vec<(String, Vec<T>)> = Vec::new();
    let ghost mut i: int = 0;
    while rest.len() > 0
        invariant
            0 <= i <= all.len(),
            keyed_views(rest@) == all.subrange(i as int, all.len() as int),
            is_grouping(all.take(i as int), group_views(groups@)),
        decreases rest.len(),
    {
        let ghost taken = all.take(i as int);
        let ghost gv = group_views(groups@);
        assert(keyed_views(rest@).len() == rest@.len());
        assert(keyed_views(rest@)[0] == all.subrange(i as int, all.len() as int)[0]);
        assert(keyed_views(rest@)[0] == all[i as int]);
        let ghost old_rest = rest@;
        let (key, val) = rest.remove(0);
        assert(rest@ =~= old_rest.subrange(1, old_rest.len() as int));
        let ghost it = (key@, val);
        assert(it == all[i as int]);
        assert(all.take(i + 1) =~= taken.push(it));
        let mut pos: usize = 0;
        while pos < groups.len() && str_lt(groups[pos].0.as_str(), key.as_str())
            invariant
                pos <= groups@.len(),
                gv == group_views(groups@),
                forall|k: int| 0 <= k < pos ==> chars_lt(#[trigger] gv[k].0, key@),
            decreases groups.len() - pos,
        {
            pos = pos + 1;
        }
        if pos < groups.len() && str_equals(groups[pos].0.as_str(), key.as_str()) {
            let (k0, mut vs) = groups.remove(pos);
            vs.push(val);
            groups.insert(pos, (k0, vs));
            proof {
                let ngv = group_views(groups@);
                assert(ngv =~= gv.update(pos as int, (key@, gv[pos as int].1.push(val))));
                let t2 = taken.push(it);
                assert forall|k: int| 0 <= k < ngv.len() implies #[trigger] ngv[k].1 == items_with_key(t2, ngv[k].0) by {
                    lemma_items_with_key_push(taken, it, ngv[k].0);
                    if k != pos {
                        if k < pos {
                            assert(chars_lt(gv[k].0, gv[pos as int].0));
                        } else {
                            assert(chars_lt(gv[pos as int].0, gv[k].0));
                        }
                        lemma_chars_lt_irreflexive(key@);
                    }
                }
                assert forall|j: int| 0 <= j < t2.len() implies exists|k: int| 0 <= k < ngv.len() && #[trigger] ngv[k].0 == #[trigger] t2[j].0 by {
                    if j < taken.len() {
                        let k = choose|k: int| 0 <= k < gv.len() && #[trigger] gv[k].0 == #[trigger] taken[j].0;
                        assert(ngv[k].0 == t2[j].0);
                    } else {
                        assert(ngv[pos as int].0 == t2[j].0);
                    }
                }
            }
        } else {
            let mut vs: Vec<T> = Vec::new();
            vs.push(val);
            let ghost kv = key@;
            groups.insert(pos, (key, vs));
            proof {
                let ngv = group_views(groups@);
                assert(ngv =~= gv.insert(pos as int, (kv, seq![val])));
                let t2 = taken.push(it);
                if pos < gv.len() {
                    lemma_chars_lt_total(gv[pos as int].0, kv);
                }
                assert forall|k: int| 0 <= k < gv.len() implies #[trigger] gv[k].0 != kv by {
                    if k < pos {
                        lemma_chars_lt_irreflexive(kv);
                    } else {
                        assert(chars_lt(kv, gv[pos as int].0));
                        if k > pos {
                            lemma_chars_lt_transitive(kv, gv[pos as int].0, gv[k].0);
                        }
                        lemma_chars_lt_irreflexive(kv);
                    }
                }
                assert forall|j: int| 0 <= j < taken.len() implies taken[j].0 != kv by {
                    let k = choose|k: int| 0 <= k < gv.len() && #[trigger] gv[k].0 == #[trigger] taken[j].0;
                }
                lemma_items_with_absent_key(taken, kv);
                assert forall|k: int, l: int| 0 <= k < l < ngv.len() implies chars_lt(#[trigger] ngv[k].0, #[trigger] ngv[l].0) by {
                    if l < pos {
                    } else if l == pos {
                    } else if k == pos {
                        assert(chars_lt(kv, gv[pos as int].0));
                        if l - 1 > pos {
                            lemma_chars_lt_transitive(kv, gv[pos as int].0, gv[l - 1].0);
                        }
                    } else if k < pos {
                        assert(chars_lt(gv[k].0, gv[l - 1].0));
                    } else {
                        assert(chars_lt(gv[k - 1].0, gv[l - 1].0));
                    }
                }
                assert forall|k: int| 0 <= k < ngv.len() implies #[trigger] ngv[k].1 == items_with_key(t2, ngv[k].0) by {
                    lemma_items_with_key_push(taken, it, ngv[k].0);
                    if k == pos {
                        assert(seq![val] =~= Seq::<T>::empty().push(val));
                    }
                }
                assert forall|j: int| 0 <= j < t2.len() implies exists|k: int| 0 <= k < ngv.len() && #[trigger] ngv[k].0 == #[trigger] t2[j].0 by {
                    if j < taken.len() {
                        let k = choose|k: int| 0 <= k < gv.len() && #[trigger] gv[k].0 == #[trigger] taken[j].0;
                        if k < pos {
                            assert(ngv[k].0 == t2[j].0);
                        } else {
                            assert(ngv[k + 1].0 == t2[j].0);
                        }
                    } else {
                        assert(ngv[pos as int].0 == t2[j].0);
                    }
                }
                assert forall|k: int| 0 <= k < ngv.len() implies (#[trigger] ngv[k].1).len() > 0 by {
                    if k < pos {
                    } else if k > pos {
                        assert(ngv[k] == gv[k - 1]);
                    }
                }
            }
        }
        proof {
            i = i + 1;
            assert(keyed_views(rest@) =~= keyed_views(old_rest).subrange(1, old_rest.len() as int));
            assert(keyed_views(rest@) =~= all.subrange(i as int, all.len() as int));
        }
    }
    proof {
        assert(all.take(i as int) =~= all);
    }
    groups
}

/// The items of `s` whose key is `v`, in order.
pub open spec fn with_u64_key<T>(s: Seq<(u64, T)>, v: u64) -> Seq<(u64, T)>
    decreases s.len(),
{
    if s.len() == 0 {
        seq![]
    } else {
        let rest = with_u64_key(s.drop_last(), v);
        if s.last().0 == v { rest.push(s.last()) } else { rest }
    }
}

/// Keys never decrease along the sequence.
pub open spec fn sorted_by_u64_key<T>(s: Seq<(u64, T)>) -> bool {
    forall|i: int, j: int| 0 <= i < j < s.len() ==> (#[trigger] s[i]).0 <= (#[trigger] s[j]).0
}

/// `out` is the stable sort of `input` by key: keys in order, and the items
/// of each key in their input order.
pub open spec fn is_stable_sort_by_u64_key<T>(input: Seq<(u64, T)>, out: Seq<(u64, T)>) -> bool {
    &&& sorted_by_u64_key(out)
    &&& forall|v: u64| #[trigger] with_u64_key(out, v) == with_u64_key(input, v)
}

proof fn lemma_with_u64_key_concat<T>(a: Seq<(u64, T)>, b: Seq<(u64, T)>, v: u64)
    ensures
        with_u64_key(a + b, v) == with_u64_key(a, v) + with_u64_key(b, v),
    decreases b.len(),
{
    if b.len() == 0 {
        assert(a + b =~= a);
        assert(with_u64_key(a, v) + Seq::<(u64, T)>::empty() =~= with_u64_key(a, v));
    } else {
        lemma_with_u64_key_concat(a, b.drop_last(), v);
        assert((a + b).drop_last() =~= a + b.drop_last());
        assert((a + b).last() == b.last());
        if b.last().0 == v {
            assert(with_u64_key(a, v) + with_u64_key(b.drop_last(), v).push(b.last()) =~= (with_u64_key(a, v)
                + with_u64_key(b.drop_last(), v)).push(b.last()));
        }
    }
}

proof fn lemma_with_u64_key_above<T>(b: Seq<(u64, T)>, v: u64)
    requires
        forall|j: int| 0 <= j < b.len() ==> b[j].0 > v,
    ensures
        with_u64_key(b, v) == Seq::<(u64, T)>::empty(),
    decreases b.len(),
{
    if b.len() > 0 {
        lemma_with_u64_key_above(b.drop_last(), v);
    }
}

/// Sorts items by their `u64` key, keeping the input order of items with
/// equal keys (what `sort_by_key` does).
pub fn stable_sort_by_u64_key<T>(items: Vec<(u64, T)>) -> (out: Vec<(u64, T)>)
    ensures
        is_stable_sort_by_u64_key(items@, out@),
        out@.len() == items@.len(),
{
    let ghost all = items@;
    let mut rest = items;
    let mut out: Vec<(u64, T)> = Vec::new();
    let ghost mut i: int = 0;
    while rest.len() > 0
        invariant
            0 <= i <= all.len(),
            rest@ == all.subrange(i, all.len() as int),
            is_stable_sort_by_u64_key(all.take(i), out@),
            out@.len() == i,
        decreases rest.len(),
    {
        let ghost old_rest = rest@;
        let ghost taken = all.take(i);
        let ghost o = out@;
        assert(rest@[0] == all[i]);
        let x = rest.remove(0);
        assert(rest@ =~= old_rest.subrange(1, old_rest.len() as int));
        assert(all.take(i + 1) =~= taken.push(x));
        let mut pos: usize = 0;
        while pos < out.len() && out[pos].0 <= x.0
            invariant
                pos <= o.len(),
                o == out@,
                forall|j: int| 0 <= j < pos ==> (#[trigger] o[j]).0 <= x.0,
            decreases out.len() - pos,
        {
            pos = pos + 1;
        }
        out.insert(pos, x);
        proof {
            let a = o.subrange(0, pos as int);
            let b = o.subrange(pos as int, o.len() as int);
            assert(o =~= a + b);
            assert(out@ =~= a + seq![x] + b);
            if pos < o.len() {
                assert(o[pos as int].0 > x.0);
            }
            assert forall|j: int| 0 <= j < b.len() implies b[j].0 > x.0 by {
                if j > 0 {
                    assert(o[pos as int].0 <= o[pos + j].0);
                }
            }
            assert forall|v: u64| #[trigger] with_u64_key(out@, v) == with_u64_key(taken.push(x), v) by {
                lemma_with_u64_key_concat(a + seq![x], b, v);
                lemma_with_u64_key_concat(a, seq![x], v);
                lemma_with_u64_key_concat(a, b, v);
                assert(seq![x].drop_last() =~= Seq::<(u64, T)>::empty());
                assert(seq![x].last() == x);
                assert(with_u64_key(Seq::<(u64, T)>::empty(), v) == Seq::<(u64, T)>::empty());
                assert(taken.push(x).drop_last() =~= taken);
                if v == x.0 {
                    lemma_with_u64_key_above(b, v);
                    assert(Seq::<(u64, T)>::empty().push(x) =~= seq![x]);
                    assert(with_u64_key(seq![x], v) =~= seq![x]);
                    assert(with_u64_key(a, v) + seq![x] + Seq::<(u64, T)>::empty() =~= (with_u64_key(a, v)
                        + Seq::<(u64, T)>::empty()).push(x));
                } else {
                    assert(with_u64_key(seq![x], v) =~= Seq::<(u64, T)>::empty());
                    assert(with_u64_key(a, v) + Seq::<(u64, T)>::empty() =~= with_u64_key(a, v));
                }
            }
            assert forall|p: int, q: int| 0 <= p < q < out@.len() implies (#[trigger] out@[p]).0 <= (#[trigger] out@[q]).0 by {
                if q < pos {
                } else if q == pos {
                } else if p == pos {
                    assert(out@[q] == o[q - 1]);
                } else if p < pos {
                    assert(out@[q] == o[q - 1]);
                    assert(o[p].0 <= x.0);
                } else {
                    assert(out@[q] == o[q - 1]);
                    assert(out@[p] == o[p - 1]);
                }
            }
            i = i + 1;
        }
    }
    proof {
        assert(all.take(i) =~= all);
    }
    out
}


/// The total size of the first `n` groups.
pub open spec fn group_sizes<T>(groups: Seq<(Seq<char>, Seq<T>)>, n: int) -> nat
    decreases n,
{
    if n <= 0 { 0 } else { group_sizes(groups, n - 1) + groups[n - 1].1.len() }
}

/// The number of items filed under the first `m` keys.
spec fn filed_under<T>(items: Seq<(Seq<char>, T)>, keys: Seq<Seq<char>>, m: int) -> nat
    decreases m,
{
    if m <= 0 { 0 } else { filed_under(items, keys, m - 1) + items_with_key(items, keys[m - 1]).len() }
}

/// How many of the first `m` keys are `key`.
spec fn key_hits(keys: Seq<Seq<char>>, key: Seq<char>, m: int) -> nat
    decreases m,
{
    if m <= 0 { 0 } else { key_hits(keys, key, m - 1) + if keys[m - 1] == key { 1nat } else { 0nat } }
}

proof fn lemma_filed_under_push<T>(items: Seq<(Seq<char>, T)>, x: (Seq<char>, T), keys: Seq<Seq<char>>, m: int)
    ensures
        filed_under(items.push(x), keys, m) == filed_under(items, keys, m) + key_hits(keys, x.0, m),
    decreases m,
{
    if m > 0 {
        lemma_filed_under_push(items, x, keys, m - 1);
        lemma_items_with_key_push(items, x, keys[m - 1]);
    }
}

proof fn lemma_filed_under_empty<T>(keys: Seq<Seq<char>>, m: int)
    ensures
        filed_under(Seq::<(Seq<char>, T)>::empty(), keys, m) == 0,
    decreases m,
{
    if m > 0 {
        lemma_filed_under_empty::<T>(keys, m - 1);
    }
}

proof fn lemma_key_hits_none(keys: Seq<Seq<char>>, key: Seq<char>, m: int)
    requires
        forall|k: int| 0 <= k < m ==> keys[k] != key,
    ensures
        key_hits(keys, key, m) == 0,
    decreases m,
{
    if m > 0 {
        lemma_key_hits_none(keys, key, m - 1);
    }
}

proof fn lemma_key_hits_one(keys: Seq<Seq<char>>, key: Seq<char>, a: int, m: int)
    requires
        0 <= a < m <= keys.len(),
        keys[a] == key,
        forall|k: int, l: int| 0 <= k < l < keys.len() ==> keys[k] != keys[l],
    ensures
        key_hits(keys, key, m) == 1,
    decreases m,
{
    if m - 1 == a {
        lemma_key_hits_none(keys, key, m - 1);
    } else {
        lemma_key_hits_one(keys, key, a, m - 1);
    }
}

/// Grouping loses and repeats nothing: the groups together hold as many
/// items as there are.
pub proof fn law_grouping_accounts_for_every_item<T>(items: Seq<(Seq<char>, T)>, groups: Seq<(Seq<char>, Seq<T>)>)
    requires
        is_grouping(items, groups),
    ensures
        group_sizes(groups, groups.len() as int) == items.len(),
{
    let keys = groups.map_values(|g: (Seq<char>, Seq<T>)| g.0);
    assert forall|k: int, l: int| 0 <= k < l < keys.len() implies keys[k] != keys[l] by {
        assert(chars_lt(groups[k].0, groups[l].0));
        lemma_chars_lt_irreflexive(groups[k].0);
    }
    let n = keys.len() as int;
    lemma_filed_prefix(items, groups, keys, items.len() as int);
    assert(items.take(items.len() as int) =~= items);
    lemma_group_sizes_filed(items, groups, keys, n);
}

proof fn lemma_filed_prefix<T>(items: Seq<(Seq<char>, T)>, groups: Seq<(Seq<char>, Seq<T>)>, keys: Seq<Seq<char>>, j: int)
    requires
        is_grouping(items, groups),
        keys == groups.map_values(|g: (Seq<char>, Seq<T>)| g.0),
        forall|k: int, l: int| 0 <= k < l < keys.len() ==> keys[k] != keys[l],
        0 <= j <= items.len(),
    ensures
        filed_under(items.take(j), keys, keys.len() as int) == j,
    decreases j,
{
    let n = keys.len() as int;
    if j == 0 {
        lemma_filed_under_empty::<T>(keys, n);
        assert(items.take(0) =~= Seq::<(Seq<char>, T)>::empty());
    } else {
        lemma_filed_prefix(items, groups, keys, j - 1);
        let x = items[j - 1];
        let a = choose|a: int| 0 <= a < groups.len() && #[trigger] groups[a].0 == #[trigger] items[j - 1].0;
        assert(keys[a] == x.0);
        lemma_key_hits_one(keys, x.0, a, n);
        lemma_filed_under_push(items.take(j - 1), x, keys, n);
        assert(items.take(j) =~= items.take(j - 1).push(x));
    }
}

proof fn lemma_group_sizes_filed<T>(items: Seq<(Seq<char>, T)>, groups: Seq<(Seq<char>, Seq<T>)>, keys: Seq<Seq<char>>, m: int)
    requires
        is_grouping(items, groups),
        keys == groups.map_values(|g: (Seq<char>, Seq<T>)| g.0),
        0 <= m <= groups.len(),
    ensures
        group_sizes(groups, m) == filed_under(items, keys, m),
    decreases m,
{
    if m > 0 {
        lemma_group_sizes_filed(items, groups, keys, m - 1);
        assert(groups[m - 1].1 == items_with_key(items, groups[m - 1].0));
    }
}

} // verus!
