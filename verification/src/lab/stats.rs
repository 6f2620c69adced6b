//! Path statistics of the identity metadata an archive carries.
use vstd::prelude::*;
use crate::json::{JsonValue, get_str};
use crate::text::{str_equals, chars_lt, u64_to_decimal, decimal};
use crate::salvage::grouping::{group_by_key, is_grouping, keyed_views, group_views, items_with_key};
use super::paths::{logical_key_for_path, spec_logical_key};

verus! {

/// The length in bytes of a string's UTF-8 encoding.
pub open spec fn utf8_len(s: Seq<char>) -> nat {
    vstd::utf8::encode_utf8(s).len()
}

/// The row is a payload block identity record.
pub open spec fn is_identity_row(v: JsonValue) -> bool {
    get_str(v, "schema"@) == Some("crushr-payload-block-identity.v1"@)
}

/// The number of identity rows.
pub open spec fn identity_row_count(rows: Seq<JsonValue>) -> nat
    decreases rows.len(),
{
    if rows.len() == 0 {
        0
    } else {
        identity_row_count(rows.drop_last()) + if is_identity_row(rows.last()) { 1nat } else { 0nat }
    }
}

/// The paths the identity rows name, in order.
pub open spec fn identity_paths(rows: Seq<JsonValue>) -> Seq<Seq<char>>
    decreases rows.len(),
{
    if rows.len() == 0 {
        seq![]
    } else {
        let prev = identity_paths(rows.drop_last());
        let r = rows.last();
        if is_identity_row(r) && get_str(r, "path"@) is Some { prev.push(get_str(r, "path"@)->0) } else { prev }
    }
}

/// The views of strings.
pub open spec fn str_views(v: Seq<String>) -> Seq<Seq<char>> {
    v.map_values(|x: String| x@)
}

/// The total UTF-8 length of the paths.
pub open spec fn total_utf8_len(ps: Seq<Seq<char>>) -> nat
    decreases ps.len(),
{
    if ps.len() == 0 { 0 } else { total_utf8_len(ps.drop_last()) + utf8_len(ps.last()) }
}

/// The largest UTF-8 length among the paths (0 for none).
pub open spec fn max_utf8_len(ps: Seq<Seq<char>>) -> nat
    decreases ps.len(),
{
    if ps.len() == 0 {
        0
    } else {
        let m = max_utf8_len(ps.drop_last());
        if utf8_len(ps.last()) > m { utf8_len(ps.last()) } else { m }
    }
}

/// Each path filed under its logical file.
pub open spec fn logical_items(ps: Seq<Seq<char>>) -> Seq<(Seq<char>, ())> {
    ps.map_values(|p: Seq<char>| (spec_logical_key(p), ()))
}

/// One of the counts is that of `key`.
pub open spec fn has_key(counts: Seq<(Seq<char>, u64)>, key: Seq<char>) -> bool {
    exists|a: int| 0 <= a < counts.len() && #[trigger] counts[a].0 == key
}

/// `counts` lists, by ascending key, each key of `items` with the number of
/// items filed under it.
pub open spec fn is_key_count(items: Seq<(Seq<char>, ())>, counts: Seq<(Seq<char>, u64)>) -> bool {
    &&& forall|a: int, b: int| 0 <= a < b < counts.len() ==> chars_lt(#[trigger] counts[a].0, #[trigger] counts[b].0)
    &&& forall|j: int| 0 <= j < items.len() ==> has_key(counts, (#[trigger] items[j]).0)
    &&& forall|a: int| 0 <= a < counts.len() ==> (#[trigger] counts[a]).1 == items_with_key(items, counts[a].0).len() && counts[a].1 > 0
}

/// Each logical file's count filed under the count's decimal rendering.
pub open spec fn count_items(counts: Seq<(Seq<char>, u64)>) -> Seq<(Seq<char>, ())> {
    counts.map_values(|c: (Seq<char>, u64)| (decimal(c.1 as nat), ()))
}

/// The largest count (0 for none).
pub open spec fn max_count(counts: Seq<(Seq<char>, u64)>) -> u64
    decreases counts.len(),
{
    if counts.len() == 0 {
        0
    } else {
        let m = max_count(counts.drop_last());
        if counts.last().1 > m { counts.last().1 } else { m }
    }
}

/// Path statistics of an archive's identity metadata.
pub struct StressIdentityStats {
    pub path_count: u64,
    pub path_char_count: u64,
    pub max_path_length: u64,
    pub total_extent_count: u64,
    pub max_extents_per_file: u64,
    pub extents_per_logical_file: Vec<(String, u64)>,
    pub extents_per_file_distribution: Vec<(String, u64)>,
}

/// Counted keys as plain values.
pub open spec fn count_views(v: Seq<(String, u64)>) -> Seq<(Seq<char>, u64)> {
    v.map_values(|c: (String, u64)| (c.0@, c.1))
}

/// Counts the identity rows and lists the paths they name.
pub fn identity_row_paths(rows: &Vec<JsonValue>) -> (r: (u64, Vec<String>))
    ensures
        r.0 == identity_row_count(rows@),
        str_views(r.1@) == identity_paths(rows@),
{
    let mut n: u64 = 0;
    let mut paths: Vec<String> = Vec::new();
    let mut i: usize = 0;
    while i < rows.len()
        invariant
            i <= rows@.len(),
            n == identity_row_count(rows@.take(i as int)),
            n <= i,
            str_views(paths@) == identity_paths(rows@.take(i as int)),
        decreases rows.len() - i,
    {
        proof {
            assert(rows@.take(i + 1).drop_last() =~= rows@.take(i as int));
            assert(rows@.take(i + 1).last() == rows@[i as int]);
        }
        let is_identity = match rows[i].get_str("schema") {
            Some(s) => str_equals(s, "crushr-payload-block-identity.v1"),
            None => false,
        };
        if is_identity {
            n = n + 1;
            match rows[i].get_str("path") {
                Some(p) => {
                    let ghost before = paths@;
                    let mut c = String::new();
                    crate::text::push_str(&mut c, p);
                    paths.push(c);
                    proof {
                        assert(str_views(paths@) =~= str_views(before).push(p@));
                    }
                },
                None => {},
            }
        }
        i = i + 1;
    }
    proof {
        assert(rows@.take(rows@.len() as int) =~= rows@);
    }
    (n, paths)
}

fn count_groups(items: Vec<(String, ())>) -> (counts: Vec<(String, u64)>)
    ensures
        is_key_count(keyed_views(items@), count_views(counts@)),
{
    let ghost kv = keyed_views(items@);
    let n_items = items.len();
    assert(kv.len() == n_items);
    let groups = group_by_key(items);
    let ghost gv = group_views(groups@);
    let mut rest = groups;
    let mut counts: Vec<(String, u64)> = Vec::new();
    let ghost mut q: int = 0;
    while rest.len() > 0
        invariant
            0 <= q <= gv.len(),
            kv.len() == n_items,
            is_grouping(kv, gv),
            group_views(rest@) == gv.subrange(q, gv.len() as int),
            counts@.len() == q,
            forall|a: int| 0 <= a < q ==> (#[trigger] count_views(counts@)[a]) == (gv[a].0, gv[a].1.len() as u64),
        decreases rest.len(),
    {
        let ghost old_rest = rest@;
        assert(group_views(rest@).len() == rest@.len());
        let (k, members) = rest.remove(0);
        proof {
            assert(group_views(old_rest)[0] == gv[q]);
        }
        let ghost before = counts@;
        counts.push((k, members.len() as u64));
        proof {
            assert forall|a: int| 0 <= a < q + 1 implies (#[trigger] count_views(counts@)[a]) == (gv[a].0, gv[a].1.len() as u64) by {
                if a < q {
                    assert(count_views(counts@)[a] == count_views(before)[a]);
                }
            }
            assert(rest@ =~= old_rest.subrange(1, old_rest.len() as int));
            assert(group_views(rest@) =~= group_views(old_rest).subrange(1, old_rest.len() as int));
            q = q + 1;
            assert(group_views(rest@) =~= gv.subrange(q, gv.len() as int));
        }
    }
    proof {
        let cv = count_views(counts@);
        assert forall|j: int| 0 <= j < kv.len() implies has_key(cv, (#[trigger] kv[j]).0) by {
            let a = choose|a: int| 0 <= a < gv.len() && #[trigger] gv[a].0 == #[trigger] kv[j].0;
            assert(cv[a].0 == gv[a].0);
        }
        assert forall|a: int, b: int| 0 <= a < b < cv.len() implies chars_lt(#[trigger] cv[a].0, #[trigger] cv[b].0) by {
            assert(cv[a].0 == gv[a].0 && cv[b].0 == gv[b].0);
        }
        assert forall|a: int| 0 <= a < cv.len() implies (#[trigger] cv[a]).1 == items_with_key(kv, cv[a].0).len() && cv[a].1 > 0 by {
            assert(gv[a].1 == items_with_key(kv, gv[a].0));
            lemma_items_with_key_len(kv, gv[a].0);
            assert(gv[a].1.len() <= n_items);
            assert(cv[a] == (gv[a].0, gv[a].1.len() as u64));
            assert(gv[a].1.len() > 0);
        }
    }
    counts
}

proof fn lemma_items_with_key_len<T>(items: Seq<(Seq<char>, T)>, key: Seq<char>)
    ensures
        items_with_key(items, key).len() <= items.len(),
    decreases items.len(),
{
    if items.len() > 0 {
        lemma_items_with_key_len(items.drop_last(), key);
    }
}


/// The paths the statistics cover: those the identity rows name, or, when
/// they name none, the fallback paths (the input files).
pub open spec fn stats_paths(rows: Seq<JsonValue>, fallback: Seq<Seq<char>>) -> Seq<Seq<char>> {
    if identity_paths(rows).len() > 0 { identity_paths(rows) } else { fallback }
}

fn path_totals(paths: &Vec<String>) -> (r: (u64, u64))
    requires
        total_utf8_len(str_views(paths@)) <= u64::MAX,
    ensures
        r.0 == total_utf8_len(str_views(paths@)),
        r.1 == max_utf8_len(str_views(paths@)),
{
    let ghost ps = str_views(paths@);
    let mut total: u64 = 0;
    let mut max: u64 = 0;
    let mut i: usize = 0;
    while i < paths.len()
        invariant
            i <= paths@.len(),
            ps == str_views(paths@),
            total_utf8_len(ps) <= u64::MAX,
            total == total_utf8_len(ps.take(i as int)),
            max == max_utf8_len(ps.take(i as int)),
        decreases paths.len() - i,
    {
        proof {
            assert(ps.take(i + 1).drop_last() =~= ps.take(i as int));
            assert(ps.take(i + 1).last() == paths@[i as int]@);
            lemma_total_prefix(ps, i + 1);
        }
        let st = paths[i].as_str();
        let l = st.as_bytes().len();
        proof {
            assert(st@ == ps[i as int]);
            assert(l == utf8_len(ps[i as int]));
        }
        let len = l as u64;
        total = total + len;
        if len > max {
            max = len;
        }
        i = i + 1;
    }
    proof {
        assert(ps.take(paths@.len() as int) =~= ps);
    }
    (total, max)
}

proof fn lemma_total_prefix(ps: Seq<Seq<char>>, j: int)
    requires
        0 <= j <= ps.len(),
    ensures
        total_utf8_len(ps.take(j)) <= total_utf8_len(ps),
    decreases ps.len(),
{
    if j < ps.len() {
        assert(ps.drop_last().take(j) =~= ps.take(j));
        lemma_total_prefix(ps.drop_last(), j);
    } else {
        assert(ps.take(j) =~= ps);
    }
}

fn max_of_counts(counts: &Vec<(String, u64)>) -> (m: u64)
    ensures
        m == max_count(count_views(counts@)),
{
    let ghost cv = count_views(counts@);
    let mut m: u64 = 0;
    let mut i: usize = 0;
    while i < counts.len()
        invariant
            i <= counts@.len(),
            cv == count_views(counts@),
            m == max_count(cv.take(i as int)),
        decreases counts.len() - i,
    {
        proof {
            assert(cv.take(i + 1).drop_last() =~= cv.take(i as int));
            assert(cv.take(i + 1).last() == cv[i as int]);
        }
        if counts[i].1 > m {
            m = counts[i].1;
        }
        i = i + 1;
    }
    proof {
        assert(cv.take(counts@.len() as int) =~= cv);
    }
    m
}

/// Path statistics over the identity metadata rows: the paths they name
/// (or, when none, `fallback_paths`, the input files' relative paths),
/// their count, total and largest UTF-8 length, how many extents each
/// logical file has, and how many logical files have each extent count.
pub fn stress_identity_stats(rows: &Vec<JsonValue>, fallback_paths: &Vec<String>) -> (s: StressIdentityStats)
    requires
        total_utf8_len(stats_paths(rows@, str_views(fallback_paths@))) <= u64::MAX,
    ensures
        ({
            let ps = stats_paths(rows@, str_views(fallback_paths@));
            let per_file = count_views(s.extents_per_logical_file@);
            &&& s.path_count == ps.len()
            &&& s.path_char_count == total_utf8_len(ps)
            &&& s.max_path_length == max_utf8_len(ps)
            &&& s.total_extent_count == if identity_paths(rows@).len() > 0 { identity_row_count(rows@) } else { fallback_paths@.len() as nat }
            &&& is_key_count(logical_items(ps), per_file)
            &&& s.max_extents_per_file == max_count(per_file)
            &&& is_key_count(count_items(per_file), count_views(s.extents_per_file_distribution@))
        }),
{
    let (n, own) = identity_row_paths(rows);
    let use_own = own.len() > 0;
    let paths: &Vec<String> = if use_own { &own } else { fallback_paths };
    let ghost ps = str_views(paths@);
    let total_extent_count = if use_own { n } else { fallback_paths.len() as u64 };
    let (path_char_count, max_path_length) = path_totals(paths);
    let mut items: Vec<(String, ())> = Vec::new();
    let mut i: usize = 0;
    while i < paths.len()
        invariant
            i <= paths@.len(),
            ps == str_views(paths@),
            keyed_views(items@) == logical_items(ps.take(i as int)),
        decreases paths.len() - i,
    {
        let k = logical_key_for_path(paths[i].as_str());
        let ghost before = items@;
        items.push((k, ()));
        proof {
            assert(ps[i as int] == paths@[i as int]@);
            assert(keyed_views(items@) =~= keyed_views(before).push((k@, ())));
            assert(logical_items(ps.take(i + 1)) =~= logical_items(ps.take(i as int)).push((spec_logical_key(ps[i as int]), ())));
            assert(keyed_views(items@) =~= logical_items(ps.take(i + 1)));
        }
        i = i + 1;
    }
    proof {
        assert(ps.take(paths@.len() as int) =~= ps);
    }
    let per_file = count_groups(items);
    let max_extents_per_file = max_of_counts(&per_file);
    let ghost pv = count_views(per_file@);
    let mut dist_items: Vec<(String, ())> = Vec::new();
    let mut j: usize = 0;
    while j < per_file.len()
        invariant
            j <= per_file@.len(),
            pv == count_views(per_file@),
            keyed_views(dist_items@) == count_items(pv.take(j as int)),
        decreases per_file.len() - j,
    {
        let d = u64_to_decimal(per_file[j].1);
        let ghost before = dist_items@;
        dist_items.push((d, ()));
        proof {
            assert(pv[j as int] == (per_file@[j as int].0@, per_file@[j as int].1));
            assert(keyed_views(dist_items@) =~= keyed_views(before).push((d@, ())));
            assert(count_items(pv.take(j + 1)) =~= count_items(pv.take(j as int)).push((decimal(pv[j as int].1 as nat), ())));
            assert(keyed_views(dist_items@) =~= count_items(pv.take(j + 1)));
        }
        j = j + 1;
    }
    proof {
        assert(pv.take(per_file@.len() as int) =~= pv);
    }
    let dist = count_groups(dist_items);
    StressIdentityStats {
        path_count: paths.len() as u64,
        path_char_count,
        max_path_length,
        total_extent_count,
        max_extents_per_file,
        extents_per_logical_file: per_file,
        extents_per_file_distribution: dist,
    }
}

} // verus!
