//! Path handling of the lab and the salvage export: components, sanitized
//! relative paths, logical file keys and profile keys, and generated names.
use vstd::prelude::*;
use vstd::string::*;
use crate::json::{JsonValue, json_get, json_as_u64};
use crate::text::{push_char, push_str, sanitize_component, spec_sanitize_component, str_equals, sanitize_chars, is_safe_component_char};
use crate::digest::{to_hex, hex_lower};

verus! {

/// A component kept by `Path::components`: not empty and not `.`.
pub open spec fn is_component(c: Seq<char>) -> bool {
    c.len() > 0 && c != "."@
}

/// The components of a `/`-separated path from position `i`, `cur` being
/// the component read so far.
pub open spec fn components_from(s: Seq<char>, i: int, cur: Seq<char>) -> Seq<Seq<char>>
    decreases s.len() - i,
{
    if i < 0 || i >= s.len() {
        if is_component(cur) { seq![cur] } else { seq![] }
    } else if s[i] == '/' {
        (if is_component(cur) { seq![cur] } else { seq![] }) + components_from(s, i + 1, seq![])
    } else {
        components_from(s, i + 1, cur.push(s[i]))
    }
}

/// The components of a path, as `Path::components` yields their text
/// (the root and `.` components left out).
pub open spec fn path_components(s: Seq<char>) -> Seq<Seq<char>> {
    components_from(s, 0, seq![])
}

proof fn lemma_components_step(s: Seq<char>, i: int, cur: Seq<char>)
    requires
        0 <= i < s.len(),
    ensures
        components_from(s, i, cur) == if s[i] == '/' {
            (if is_component(cur) { seq![cur] } else { seq![] }) + components_from(s, i + 1, seq![])
        } else {
            components_from(s, i + 1, cur.push(s[i]))
        },
{
}

/// Splits a path into its components.
pub fn split_components(path: &str) -> (r: Vec<String>)
    ensures
        r@.map_values(|c: String| c@) == path_components(path@),
{
    let n = path.unicode_len();
    let mut out: Vec<String> = Vec::new();
    let mut cur = String::new();
    let mut i: usize = 0;
    proof {
        assert(out@.map_values(|c: String| c@) + components_from(path@, 0, cur@) =~= path_components(path@));
    }
    while i < n
        invariant
            i <= n,
            n == path@.len(),
            out@.map_values(|c: String| c@) + components_from(path@, i as int, cur@) == path_components(path@),
        decreases n - i,
    {
        let c = path.get_char(i);
        proof {
            lemma_components_step(path@, i as int, cur@);
        }
        if c == '/' {
            let keep = cur.as_str().unicode_len() > 0 && !str_equals(cur.as_str(), ".");
            let ghost old_out = out@;
            let ghost old_cur = cur@;
            if keep {
                out.push(cur);
                proof {
                    assert(out@.map_values(|c: String| c@) =~= old_out.map_values(|c: String| c@) + seq![old_cur]);
                }
            } else {
                proof {
                    assert(out@.map_values(|c: String| c@) =~= old_out.map_values(|c: String| c@) + Seq::<Seq<char>>::empty());
                }
            }
            cur = String::new();
            proof {
                assert(cur@ =~= Seq::<char>::empty());
            }
        } else {
            push_char(&mut cur, c);
        }
        i = i + 1;
    }
    let keep = cur.as_str().unicode_len() > 0 && !str_equals(cur.as_str(), ".");
    let ghost old_out = out@;
    let ghost old_cur = cur@;
    if keep {
        out.push(cur);
        proof {
            assert(out@.map_values(|c: String| c@) =~= old_out.map_values(|c: String| c@) + seq![old_cur]);
        }
    } else {
        proof {
            assert(out@.map_values(|c: String| c@) =~= old_out.map_values(|c: String| c@) + Seq::<Seq<char>>::empty());
        }
    }
    out
}

/// The components worth keeping for an export path: not `..`.
pub open spec fn kept_components(cs: Seq<Seq<char>>) -> Seq<Seq<char>> {
    cs.filter(|c: Seq<char>| c != ".."@)
}

/// Components joined with `/`, each sanitized.
pub open spec fn join_sanitized(cs: Seq<Seq<char>>) -> Seq<char>
    decreases cs.len(),
{
    if cs.len() == 0 {
        seq![]
    } else if cs.len() == 1 {
        spec_sanitize_component(cs[0])
    } else {
        join_sanitized(cs.drop_last()) + "/"@ + spec_sanitize_component(cs.last())
    }
}

/// The relative export path of a file: its components other than the root,
/// `.` and `..`, each sanitized, joined with `/`; `_` when none is left.
pub open spec fn spec_sanitize_rel_path(path: Seq<char>) -> Seq<char> {
    let cs = kept_components(path_components(path));
    if cs.len() == 0 { "_"@ } else { join_sanitized(cs) }
}

/// Builds a safe relative path for exporting a file.
pub fn sanitize_rel_path(path: &str) -> (r: String)
    ensures
        r@ == spec_sanitize_rel_path(path@),
{
    let comps = split_components(path);
    let ghost cv = comps@.map_values(|c: String| c@);
    let ghost p = |c: Seq<char>| c != ".."@;
    let mut out = String::new();
    let mut any = false;
    let mut i: usize = 0;
    proof {
        assert(cv.take(0) =~= Seq::<Seq<char>>::empty());
        assert(cv.take(0).filter(p) =~= Seq::<Seq<char>>::empty());
    }
    while i < comps.len()
        invariant
            i <= comps@.len(),
            cv == comps@.map_values(|c: String| c@),
            p == (|c: Seq<char>| c != ".."@),
            out@ == join_sanitized(cv.take(i as int).filter(p)),
            any == (cv.take(i as int).filter(p).len() > 0),
        decreases comps.len() - i,
    {
        let c = comps[i].as_str();
        proof {
            assert(cv.take(i + 1).drop_last() =~= cv.take(i as int));
            assert(cv[i as int] == c@);
            assert(cv.take(i + 1).filter(p) == if p(c@) { cv.take(i as int).filter(p).push(c@) } else { cv.take(i as int).filter(p) }) by {
                reveal(Seq::filter);
                assert(cv.take(i + 1).last() == c@);
            }
        }
        if !str_equals(c, "..") {
            let s = sanitize_component(c);
            if any {
                push_str(&mut out, "/");
            }
            push_str(&mut out, s.as_str());
            proof {
                let f = cv.take(i as int).filter(p);
                assert(f.push(c@).drop_last() =~= f);
                if !any {
                    assert(f.len() == 0);
                    assert(out@ =~= spec_sanitize_component(c@));
                }
            }
            any = true;
        }
        i = i + 1;
    }
    proof {
        assert(cv.take(comps@.len() as int) =~= cv);
    }
    if !any {
        return String::from_str("_");
    }
    out
}

/// A component an export path may hold: not empty, neither `.` nor `..`,
/// and made of safe characters only (so without `/`).
pub open spec fn is_safe_export_component(c: Seq<char>) -> bool {
    &&& c.len() > 0
    &&& c != "."@
    &&& c != ".."@
    &&& forall|j: int| 0 <= j < c.len() ==> is_safe_component_char(#[trigger] c[j])
}

/// Reading up to a `/` at `k` yields the components before it, then those after it.
proof fn lemma_components_split(s: Seq<char>, k: int, i: int, cur: Seq<char>)
    requires
        0 <= i <= k < s.len(),
        s[k] == '/',
    ensures
        components_from(s, i, cur) == components_from(s.take(k), i, cur) + components_from(s, k + 1, seq![]),
    decreases k - i,
{
    if i < k {
        assert(s.take(k)[i] == s[i]);
        if s[i] == '/' {
            lemma_components_split(s, k, i + 1, seq![]);
            let head: Seq<Seq<char>> = if is_component(cur) { seq![cur] } else { seq![] };
            assert(head + (components_from(s.take(k), i + 1, seq![]) + components_from(s, k + 1, seq![]))
                =~= (head + components_from(s.take(k), i + 1, seq![])) + components_from(s, k + 1, seq![]));
        } else {
            lemma_components_split(s, k, i + 1, cur.push(s[i]));
        }
    }
}

/// Components read from position `i` are those of the text from `j <= i` on, read from `i - j`.
proof fn lemma_components_shift(s: Seq<char>, j: int, i: int, cur: Seq<char>)
    requires
        0 <= j <= i <= s.len(),
    ensures
        components_from(s, i, cur) == components_from(s.skip(j), i - j, cur),
    decreases s.len() - i,
{
    if i < s.len() {
        assert(s.skip(j)[i - j] == s[i]);
        if s[i] == '/' {
            lemma_components_shift(s, j, i + 1, seq![]);
        } else {
            lemma_components_shift(s, j, i + 1, cur.push(s[i]));
        }
    }
}

/// A text without `/`, read from `i`, is one component (when it is one).
proof fn lemma_components_no_slash(s: Seq<char>, i: int, cur: Seq<char>)
    requires
        0 <= i <= s.len(),
        forall|j: int| 0 <= j < s.len() ==> s[j] != '/',
    ensures
        components_from(s, i, cur) == (if is_component(cur + s.skip(i)) { seq![cur + s.skip(i)] } else { seq![] }),
    decreases s.len() - i,
{
    if i < s.len() {
        lemma_components_no_slash(s, i + 1, cur.push(s[i]));
        assert(cur.push(s[i]) + s.skip(i + 1) =~= cur + s.skip(i));
    } else {
        assert(cur + s.skip(i) =~= cur);
    }
}

/// A sanitized kept component is a safe export component.
proof fn lemma_sanitized_component_safe(c: Seq<char>)
    requires
        is_component(c),
        c != ".."@,
    ensures
        is_safe_export_component(spec_sanitize_component(c)),
{
    let t = spec_sanitize_component(c);
    reveal_strlit(".");
    reveal_strlit("..");
    assert(t == sanitize_chars(c));
    if t == "."@ {
        assert(c.len() == 1);
        assert(t[0] == '.');
        assert(c[0] == '.');
        assert(c =~= "."@);
    }
    if t == ".."@ {
        assert(c.len() == 2);
        assert(t[0] == '.' && t[1] == '.');
        assert(c[0] == '.' && c[1] == '.');
        assert(c =~= ".."@);
    }
}

/// A component that holds no `/`.
spec fn slash_free_component(c: Seq<char>) -> bool {
    is_component(c) && forall|j: int| 0 <= j < c.len() ==> c[j] != '/'
}

/// Every component of a path is a component and holds no `/`.
proof fn lemma_components_are_components(s: Seq<char>, i: int, cur: Seq<char>)
    requires
        forall|j: int| 0 <= j < cur.len() ==> cur[j] != '/',
    ensures
        forall|k: int| 0 <= k < components_from(s, i, cur).len() ==> slash_free_component(#[trigger] components_from(s, i, cur)[k]),
    decreases s.len() - i,
{
    let out = components_from(s, i, cur);
    if 0 <= i < s.len() {
        if s[i] == '/' {
            lemma_components_are_components(s, i + 1, seq![]);
            let head: Seq<Seq<char>> = if is_component(cur) { seq![cur] } else { seq![] };
            let rest = components_from(s, i + 1, seq![]);
            assert(out == head + rest);
            assert forall|k: int| 0 <= k < out.len() implies slash_free_component(#[trigger] out[k]) by {
                if k >= head.len() {
                    assert(out[k] == rest[k - head.len()]);
                } else {
                    assert(out[k] == cur);
                }
            }
            assert(forall|k: int| 0 <= k < out.len() ==> slash_free_component(#[trigger] out[k]));
        } else {
            let next = cur.push(s[i]);
            assert forall|j: int| 0 <= j < next.len() implies next[j] != '/' by {
                if j < cur.len() {
                    assert(next[j] == cur[j]);
                }
            }
            lemma_components_are_components(s, i + 1, next);
            assert(out == components_from(s, i + 1, next));
            assert(forall|k: int| 0 <= k < out.len() ==> slash_free_component(#[trigger] out[k]));
        }
    } else if is_component(cur) {
        assert(out =~= seq![cur]);
        assert(slash_free_component(out[0]));
    } else {
        assert(out =~= Seq::<Seq<char>>::empty());
    }
}

/// The components of the `/`-join of safe export components are those components.
proof fn lemma_join_components(cs: Seq<Seq<char>>)
    requires
        cs.len() > 0,
        forall|i: int| 0 <= i < cs.len() ==> is_safe_export_component(#[trigger] spec_sanitize_component(cs[i])),
    ensures
        path_components(join_sanitized(cs)) == cs.map_values(|c: Seq<char>| spec_sanitize_component(c)),
    decreases cs.len(),
{
    let last = spec_sanitize_component(cs.last());
    assert(is_safe_export_component(spec_sanitize_component(cs[cs.len() - 1])));
    assert forall|j: int| 0 <= j < last.len() implies last[j] != '/' by {
        assert(is_safe_component_char(last[j]));
    }
    if cs.len() == 1 {
        lemma_components_no_slash(last, 0, seq![]);
        assert(seq![] + last.skip(0) =~= last);
        assert(cs.map_values(|c: Seq<char>| spec_sanitize_component(c)) =~= seq![last]);
    } else {
        let front = cs.drop_last();
        assert forall|i: int| 0 <= i < front.len() implies is_safe_export_component(#[trigger] spec_sanitize_component(front[i])) by {
            assert(front[i] == cs[i]);
        }
        lemma_join_components(front);
        let a = join_sanitized(front);
        reveal_strlit("/");
        let s = a + "/"@ + last;
        let k = a.len() as int;
        assert(s[k] == '/');
        lemma_components_split(s, k, 0, seq![]);
        assert(s.take(k) =~= a);
        lemma_components_shift(s, k + 1, k + 1, seq![]);
        assert(s.skip(k + 1) =~= last);
        lemma_components_no_slash(last, 0, seq![]);
        assert(seq![] + last.skip(0) =~= last);
        assert(cs.map_values(|c: Seq<char>| spec_sanitize_component(c))
            =~= front.map_values(|c: Seq<char>| spec_sanitize_component(c)).push(last));
    }
}

/// An export path never leaves the export directory: every one of its
/// components is non-empty, neither `.` nor `..`, and made of safe
/// characters only; there is at least one, and the path does not start
/// with `/`.
pub proof fn law_export_path_stays_inside(path: Seq<char>)
    ensures
        path_components(spec_sanitize_rel_path(path)).len() > 0,
        forall|i: int| 0 <= i < path_components(spec_sanitize_rel_path(path)).len()
            ==> is_safe_export_component(#[trigger] path_components(spec_sanitize_rel_path(path))[i]),
        spec_sanitize_rel_path(path)[0] != '/',
{
    let r = spec_sanitize_rel_path(path);
    let all = path_components(path);
    let ks = kept_components(all);
    lemma_components_are_components(path, 0, seq![]);
    assert forall|i: int| 0 <= i < ks.len() implies is_safe_export_component(#[trigger] spec_sanitize_component(ks[i])) by {
        assert(all.filter(|c: Seq<char>| c != ".."@).contains(ks[i]));
        all.lemma_filter_contains_rev(|c: Seq<char>| c != ".."@, ks[i]);
        let k = choose|k: int| 0 <= k < all.len() && all[k] == ks[i];
        assert(slash_free_component(all[k]));
        lemma_sanitized_component_safe(ks[i]);
    }
    if ks.len() == 0 {
        let u = "_"@;
        reveal_strlit("_");
        reveal_strlit(".");
        reveal_strlit("..");
        assert(u =~= seq!['_']);
        lemma_components_no_slash(u, 0, seq![]);
        assert(seq![] + u.skip(0) =~= u);
        assert(path_components(u) =~= seq![u]);
    } else {
        lemma_join_components(ks);
        let comps = ks.map_values(|c: Seq<char>| spec_sanitize_component(c));
        assert(comps.len() > 0);
        assert forall|i: int| 0 <= i < comps.len() implies is_safe_export_component(#[trigger] comps[i]) by {
            assert(comps[i] == spec_sanitize_component(ks[i]));
        }
        lemma_join_first(ks);
        assert(is_safe_export_component(spec_sanitize_component(ks[0])));
        assert(is_safe_component_char(spec_sanitize_component(ks[0])[0]));
    }
}

/// The `/`-join starts with the first sanitized component.
proof fn lemma_join_first(cs: Seq<Seq<char>>)
    requires
        cs.len() > 0,
        spec_sanitize_component(cs[0]).len() > 0,
    ensures
        join_sanitized(cs)[0] == spec_sanitize_component(cs[0])[0],
    decreases cs.len(),
{
    if cs.len() > 1 {
        let front = cs.drop_last();
        assert(front[0] == cs[0]);
        lemma_join_first(front);
        lemma_join_len(front);
    }
}

proof fn lemma_join_len(cs: Seq<Seq<char>>)
    requires
        cs.len() > 0,
        spec_sanitize_component(cs[0]).len() > 0,
    ensures
        join_sanitized(cs).len() > 0,
    decreases cs.len(),
{
    if cs.len() > 1 {
        let front = cs.drop_last();
        assert(front[0] == cs[0]);
        lemma_join_len(front);
    }
}

/// The final component of a path that `Path::file_name` gives (none when
/// the path ends in `..` or has no component).
pub open spec fn file_name(path: Seq<char>) -> Option<Seq<char>> {
    let cs = path_components(path);
    if cs.len() > 0 && cs.last() != ".."@ { Some(cs.last()) } else { None }
}

/// The first position of `pat` in `s` from `i` on.
pub open spec fn find_from(s: Seq<char>, pat: Seq<char>, i: int) -> Option<int>
    decreases s.len() + 1 - i,
{
    if i < 0 || i + pat.len() > s.len() {
        None
    } else if s.subrange(i, i + pat.len()) == pat {
        Some(i)
    } else {
        find_from(s, pat, i + 1)
    }
}

fn find_in(s: &str, pat: &str) -> (r: Option<usize>)
    ensures
        match r {
            Some(i) => find_from(s@, pat@, 0) == Some(i as int) && i + pat@.len() <= s@.len(),
            None => find_from(s@, pat@, 0) is None,
        },
{
    let n = s.unicode_len();
    let m = pat.unicode_len();
    if m > n {
        return None;
    }
    let mut i: usize = 0;
    loop
        invariant
            n == s@.len(),
            m == pat@.len(),
            m <= n,
            i <= n - m,
            find_from(s@, pat@, 0) == find_from(s@, pat@, i as int),
        decreases n - m - i,
    {
        let mut j: usize = 0;
        let mut same = true;
        proof {
            assert(s@.subrange(i as int, i as int) =~= pat@.take(0));
        }
        while j < m
            invariant
                j <= m,
                i + m <= n,
                n == s@.len(),
                m == pat@.len(),
                same == (s@.subrange(i as int, i + j) == pat@.take(j as int)),
            decreases m - j,
        {
            let a = s.get_char(i + j);
            let b = pat.get_char(j);
            proof {
                assert(s@.subrange(i as int, i + j + 1) =~= s@.subrange(i as int, i + j).push(s@[i + j]));
                assert(pat@.take(j + 1) =~= pat@.take(j as int).push(pat@[j as int]));
                if s@.subrange(i as int, i + j + 1) == pat@.take(j + 1) {
                    assert(s@.subrange(i as int, i + j) =~= s@.subrange(i as int, i + j + 1).take(j as int));
                    assert(pat@.take(j as int) =~= pat@.take(j + 1).take(j as int));
                    assert(s@.subrange(i as int, i + j + 1)[j as int] == pat@.take(j + 1)[j as int]);
                }
            }
            same = same && a == b;
            j = j + 1;
        }
        proof {
            assert(pat@.take(m as int) =~= pat@);
        }
        if same {
            return Some(i);
        }
        if i == n - m {
            proof {
                assert(find_from(s@, pat@, i + 1) is None);
                assert(s@.subrange(i as int, i + m) != pat@);
            }
            return None;
        }
        i = i + 1;
    }
}

/// The logical file a fragment path belongs to: the file name before
/// `__frag_`, else before `_fragment_`; otherwise the path itself.
pub open spec fn spec_logical_key(path: Seq<char>) -> Seq<char> {
    let name = match file_name(path) {
        Some(n) => n,
        None => path,
    };
    match find_from(name, "__frag_"@, 0) {
        Some(i) => name.take(i),
        None => match find_from(name, "_fragment_"@, 0) {
            Some(i) => name.take(i),
            None => path,
        },
    }
}

/// The logical file a fragment path belongs to.
pub fn logical_key_for_path(path: &str) -> (r: String)
    ensures
        r@ == spec_logical_key(path@),
{
    let comps = split_components(path);
    let ghost cv = comps@.map_values(|c: String| c@);
    let name: String = if comps.len() > 0 && !str_equals(comps[comps.len() - 1].as_str(), "..") {
        proof {
            assert(cv.last() == comps@[comps@.len() - 1]@);
        }
        comps[comps.len() - 1].clone()
    } else {
        String::from_str(path)
    };
    match find_in(name.as_str(), "__frag_") {
        Some(i) => return prefix_of(name.as_str(), i),
        None => {},
    }
    match find_in(name.as_str(), "_fragment_") {
        Some(i) => prefix_of(name.as_str(), i),
        None => String::from_str(path),
    }
}

fn prefix_of(s: &str, k: usize) -> (r: String)
    requires
        k <= s@.len(),
    ensures
        r@ == s@.take(k as int),
{
    let mut out = String::new();
    let mut i: usize = 0;
    while i < k
        invariant
            i <= k <= s@.len(),
            out@ == s@.take(i as int),
        decreases k - i,
    {
        push_char(&mut out, s.get_char(i));
        proof {
            assert(s@.take(i + 1) =~= s@.take(i as int).push(s@[i as int]));
        }
        i = i + 1;
    }
    out
}

/// A segment of `len` characters cycling through `a`–`z`, `0`–`9` from position `seed`.
pub open spec fn spec_segment(seed: int, len: int) -> Seq<char> {
    Seq::new(len as nat, |i: int| "abcdefghijklmnopqrstuvwxyz0123456789"@[(seed + i) % 36])
}

/// Generates a name segment for the stress fixtures.
pub fn make_segment(seed: usize, len: usize) -> (r: String)
    requires
        seed + len <= usize::MAX,
    ensures
        r@ == spec_segment(seed as int, len as int),
{
    let alphabet = "abcdefghijklmnopqrstuvwxyz0123456789";
    proof {
        reveal_strlit("abcdefghijklmnopqrstuvwxyz0123456789");
    }
    let mut out = String::new();
    let mut i: usize = 0;
    while i < len
        invariant
            i <= len,
            seed + len <= usize::MAX,
            alphabet@ == "abcdefghijklmnopqrstuvwxyz0123456789"@,
            alphabet@.len() == 36,
            out@ == spec_segment(seed as int, i as int),
        decreases len - i,
    {
        push_char(&mut out, alphabet.get_char((seed + i) % 36));
        proof {
            assert(out@ =~= spec_segment(seed as int, i + 1));
        }
        i = i + 1;
    }
    out
}

/// Renders bytes as lower-case hexadecimal.
pub fn to_hex_lower(bytes: &[u8]) -> (r: String)
    ensures
        r@ == hex_lower(bytes@),
{
    to_hex(bytes)
}

/// `row[field]` as an unsigned integer, or zero.
pub open spec fn field_or_zero(row: JsonValue, field: Seq<char>) -> u64 {
    match json_get(row, field) {
        Some(v) => match json_as_u64(v) {
            Some(n) => n,
            None => 0,
        },
        None => 0,
    }
}

/// The largest `field` over the rows (zero for none).
pub open spec fn spec_max_field(rows: Seq<JsonValue>, field: Seq<char>) -> u64
    decreases rows.len(),
{
    if rows.len() == 0 {
        0
    } else {
        let m = spec_max_field(rows.drop_last(), field);
        let x = field_or_zero(rows.last(), field);
        if x > m { x } else { m }
    }
}

/// The largest value of a numeric field over rows, missing values counting zero.
pub fn max_u64(rows: &Vec<JsonValue>, field: &str) -> (r: u64)
    ensures
        r == spec_max_field(rows@, field@),
{
    let mut m: u64 = 0;
    let mut i: usize = 0;
    while i < rows.len()
        invariant
            i <= rows@.len(),
            m == spec_max_field(rows@.take(i as int), field@),
        decreases rows.len() - i,
    {
        proof {
            assert(rows@.take(i + 1).drop_last() =~= rows@.take(i as int));
            assert(rows@.take(i + 1).last() == rows@[i as int]);
        }
        let x = match rows[i].get(field) {
            Some(v) => match v.as_u64() {
                Some(n) => n,
                None => 0,
            },
            None => 0,
        };
        if x > m {
            m = x;
        }
        i = i + 1;
    }
    proof {
        assert(rows@.take(rows@.len() as int) =~= rows@);
    }
    m
}


/// ASCII upper case to lower case; other characters unchanged.
pub open spec fn ascii_lower(c: char) -> char {
    if 'A' <= c <= 'Z' { ((c as u32) + 32) as char } else { c }
}

/// ASCII lower case to upper case; other characters unchanged.
pub open spec fn ascii_upper(c: char) -> char {
    if 'a' <= c <= 'z' { ((c as u32) - 32) as char } else { c }
}

/// Unicode white space, as `char::is_whitespace` decides it.
pub open spec fn is_ws(c: char) -> bool {
    ('\u{9}' <= c <= '\u{d}') || c == ' ' || c == '\u{85}' || c == '\u{a0}' || c == '\u{1680}'
        || ('\u{2000}' <= c <= '\u{200a}') || c == '\u{2028}' || c == '\u{2029}' || c == '\u{202f}'
        || c == '\u{205f}' || c == '\u{3000}'
}

/// A path with `\` read as `/`, in ASCII lower case.
pub open spec fn normalized_path(p: Seq<char>) -> Seq<char> {
    Seq::new(p.len(), |i: int| if p[i] == '\\' { '/' } else { ascii_lower(p[i]) })
}

/// What follows the last `/` (all of `s` without one).
pub open spec fn after_last_slash(s: Seq<char>) -> Seq<char>
    decreases s.len(),
{
    if s.len() == 0 {
        s
    } else if s.last() == '/' {
        seq![]
    } else {
        after_last_slash(s.drop_last()).push(s.last())
    }
}

/// `s` up to its first `.`, `_` or `-`.
pub open spec fn until_separator(s: Seq<char>) -> Seq<char>
    decreases s.len(),
{
    if s.len() == 0 || s[0] == '.' || s[0] == '_' || s[0] == '-' {
        seq![]
    } else {
        seq![s[0]] + until_separator(s.drop_first())
    }
}

/// `s` without leading white space.
pub open spec fn trim_start(s: Seq<char>) -> Seq<char>
    decreases s.len(),
{
    if s.len() > 0 && is_ws(s[0]) { trim_start(s.drop_first()) } else { s }
}

/// `s` without trailing white space.
pub open spec fn trim_end(s: Seq<char>) -> Seq<char>
    decreases s.len(),
{
    if s.len() > 0 && is_ws(s.last()) { trim_end(s.drop_last()) } else { s }
}

/// The profile marked by `marker` in a file name: the text after the
/// first occurrence up to a separator, trimmed; `None` when the marker is
/// absent or the text is empty.
pub open spec fn profile_after(name: Seq<char>, marker: Seq<char>) -> Option<Seq<char>> {
    match find_from(name, marker, 0) {
        Some(i) => {
            let key = trim_end(trim_start(until_separator(name.skip(i + marker.len()))));
            if key.len() > 0 { Some(key.map_values(|c: char| ascii_upper(c))) } else { None }
        },
        None => None,
    }
}

/// The profile an archive path names: from the file name, by the first of
/// the markers `_profile_`, `-profile-`, `_damage_`, `-damage-` that yields
/// one, in upper case; `UNKNOWN_PROFILE` otherwise.
pub open spec fn spec_profile_key(path: Seq<char>) -> Seq<char> {
    let name = after_last_slash(normalized_path(path));
    match profile_after(name, "_profile_"@) {
        Some(k) => k,
        None => match profile_after(name, "-profile-"@) {
            Some(k) => k,
            None => match profile_after(name, "_damage_"@) {
                Some(k) => k,
                None => match profile_after(name, "-damage-"@) {
                    Some(k) => k,
                    None => "UNKNOWN_PROFILE"@,
                },
            },
        },
    }
}

fn is_ws_exec(c: char) -> (r: bool)
    ensures
        r == is_ws(c),
{
    ('\u{9}' <= c && c <= '\u{d}') || c == ' ' || c == '\u{85}' || c == '\u{a0}' || c == '\u{1680}'
        || ('\u{2000}' <= c && c <= '\u{200a}') || c == '\u{2028}' || c == '\u{2029}' || c == '\u{202f}'
        || c == '\u{205f}' || c == '\u{3000}'
}

proof fn lemma_trim_start_skip(s: Seq<char>, k: int)
    requires
        0 <= k <= s.len(),
        forall|j: int| 0 <= j < k ==> is_ws(#[trigger] s[j]),
    ensures
        trim_start(s) == trim_start(s.skip(k)),
    decreases k,
{
    if k > 0 {
        assert forall|j: int| 0 <= j < k - 1 implies is_ws(#[trigger] s.drop_first()[j]) by {
            assert(s.drop_first()[j] == s[j + 1]);
        }
        lemma_trim_start_skip(s.drop_first(), k - 1);
        assert(s.drop_first().skip(k - 1) =~= s.skip(k));
    } else {
        assert(s.skip(0) =~= s);
    }
}

proof fn lemma_trim_end_take(s: Seq<char>, k: int)
    requires
        0 <= k <= s.len(),
        forall|j: int| k <= j < s.len() ==> is_ws(#[trigger] s[j]),
    ensures
        trim_end(s) == trim_end(s.take(k)),
    decreases s.len() - k,
{
    if k < s.len() {
        assert forall|j: int| k <= j < s.drop_last().len() implies is_ws(#[trigger] s.drop_last()[j]) by {
            assert(s.drop_last()[j] == s[j]);
        }
        assert(is_ws(s[s.len() - 1]));
        lemma_trim_end_take(s.drop_last(), k);
        assert(s.drop_last().take(k) =~= s.take(k));
    } else {
        assert(s.take(k) =~= s);
    }
}

proof fn lemma_until_separator_take(s: Seq<char>, k: int)
    requires
        0 <= k <= s.len(),
        forall|j: int| 0 <= j < k ==> s[j] != '.' && s[j] != '_' && s[j] != '-',
        k == s.len() || s[k] == '.' || s[k] == '_' || s[k] == '-',
    ensures
        until_separator(s) == s.take(k),
    decreases k,
{
    if k > 0 {
        lemma_until_separator_take(s.drop_first(), k - 1);
        assert(seq![s[0]] + s.drop_first().take(k - 1) =~= s.take(k));
    } else {
        assert(s.take(0) =~= Seq::<char>::empty());
    }
}

fn is_separator(c: char) -> (r: bool)
    ensures
        r == (c == '.' || c == '_' || c == '-'),
{
    c == '.' || c == '_' || c == '-'
}

fn profile_after_exec(name: &str, marker: &str) -> (r: Option<String>)
    ensures
        match r {
            Some(k) => profile_after(name@, marker@) == Some(k@),
            None => profile_after(name@, marker@) is None,
        },
{
    let i = match find_in(name, marker) {
        Some(i) => i,
        None => return None,
    };
    let n = name.unicode_len();
    let start = i + marker.unicode_len();
    let ghost suffix = name@.skip(start as int);
    let mut end = start;
    while end < n && !is_separator(name.get_char(end))
        invariant
            start <= end <= n,
            n == name@.len(),
            forall|j: int| start <= j < end ==> name@[j] != '.' && name@[j] != '_' && name@[j] != '-',
        decreases n - end,
    {
        end = end + 1;
    }
    proof {
        assert forall|j: int| 0 <= j < end - start implies suffix[j] != '.' && suffix[j] != '_' && suffix[j] != '-' by {
            assert(suffix[j] == name@[start + j]);
        }
        if end < n {
            assert(suffix[end - start] == name@[end as int]);
        }
        lemma_until_separator_take(suffix, end - start);
    }
    let ghost key = suffix.take(end - start);
    let mut lo = start;
    while lo < end && is_ws_exec(name.get_char(lo))
        invariant
            start <= lo <= end <= n,
            n == name@.len(),
            forall|j: int| start <= j < lo ==> is_ws(#[trigger] name@[j]),
        decreases end - lo,
    {
        lo = lo + 1;
    }
    let mut hi = end;
    while hi > lo && is_ws_exec(name.get_char(hi - 1))
        invariant
            start <= lo <= hi <= end <= n,
            n == name@.len(),
            forall|j: int| hi <= j < end ==> is_ws(#[trigger] name@[j]),
        decreases hi - lo,
    {
        hi = hi - 1;
    }
    proof {
        assert forall|j: int| 0 <= j < lo - start implies is_ws(#[trigger] key[j]) by {
            assert(key[j] == name@[start + j]);
        }
        lemma_trim_start_skip(key, lo - start);
        let ks = key.skip(lo - start);
        assert(ks =~= name@.subrange(lo as int, end as int));
        if hi > lo {
            assert(!is_ws(name@[lo as int]));
            assert(ks[0] == name@[lo as int]);
            assert(trim_start(ks) == ks);
        } else {
            if lo < end {
                assert(!is_ws(name@[lo as int]));
                assert(trim_start(ks) == ks);
            } else {
                assert(ks.len() == 0);
            }
        }
        assert forall|j: int| hi - lo <= j < ks.len() implies is_ws(#[trigger] ks[j]) by {
            assert(ks[j] == name@[lo + j]);
        }
        lemma_trim_end_take(ks, hi - lo);
        let kt = ks.take(hi - lo);
        assert(kt =~= name@.subrange(lo as int, hi as int));
        if hi > lo {
            assert(kt.last() == name@[hi - 1]);
            assert(!is_ws(name@[hi - 1]));
        }
    }
    if hi == lo {
        return None;
    }
    let mut out = String::new();
    let mut q = lo;
    while q < hi
        invariant
            lo <= q <= hi <= n,
            n == name@.len(),
            out@ == name@.subrange(lo as int, q as int).map_values(|c: char| ascii_upper(c)),
        decreases hi - q,
    {
        let c = name.get_char(q);
        let u = if 'a' <= c && c <= 'z' { ((c as u32) - 32) as u8 as char } else { c };
        push_char(&mut out, u);
        proof {
            assert(u == ascii_upper(c));
            assert(name@.subrange(lo as int, q + 1).map_values(|c: char| ascii_upper(c)) =~= name@.subrange(
                lo as int,
                q as int,
            ).map_values(|c: char| ascii_upper(c)).push(ascii_upper(c)));
        }
        q = q + 1;
    }
    Some(out)
}

/// Infers the damage profile an archive path names.
pub fn infer_profile_key(path: &str) -> (r: String)
    ensures
        r@ == spec_profile_key(path@),
{
    let n = path.unicode_len();
    let mut normalized = String::new();
    let mut i: usize = 0;
    while i < n
        invariant
            i <= n,
            n == path@.len(),
            normalized@ == normalized_path(path@.take(i as int)),
        decreases n - i,
    {
        let c = path.get_char(i);
        let d = if c == '\\' {
            '/'
        } else if 'A' <= c && c <= 'Z' {
            ((c as u32) + 32) as u8 as char
        } else {
            c
        };
        push_char(&mut normalized, d);
        proof {
            assert(normalized@ =~= normalized_path(path@.take(i + 1)));
        }
        i = i + 1;
    }
    proof {
        assert(path@.take(n as int) =~= path@);
    }
    let m = normalized.as_str().unicode_len();
    let mut cut = m;
    proof {
        assert(normalized@.take(m as int) =~= normalized@);
        assert(normalized@.subrange(m as int, m as int) =~= Seq::<char>::empty());
        assert(normalized@ + Seq::<char>::empty() =~= normalized@);
    }
    while cut > 0 && normalized.as_str().get_char(cut - 1) != '/'
        invariant
            cut <= m,
            m == normalized@.len(),
            after_last_slash(normalized@) == after_last_slash(normalized@.take(cut as int)) + normalized@.subrange(cut as int, m as int),
        decreases cut,
    {
        proof {
            let t = normalized@.take(cut as int);
            assert(t.drop_last() =~= normalized@.take(cut - 1));
            assert(t.last() == normalized@[cut - 1]);
            assert(normalized@.subrange(cut - 1, m as int) =~= seq![normalized@[cut - 1]] + normalized@.subrange(cut as int, m as int));
        }
        cut = cut - 1;
    }
    proof {
        if cut > 0 {
            let t = normalized@.take(cut as int);
            assert(t.last() == '/');
        } else {
            assert(normalized@.take(0) =~= Seq::<char>::empty());
        }
    }
    let name = suffix_from(normalized.as_str(), cut);
    proof {
        assert(after_last_slash(normalized@) =~= name@);
    }
    match profile_after_exec(name.as_str(), "_profile_") {
        Some(k) => return k,
        None => {},
    }
    match profile_after_exec(name.as_str(), "-profile-") {
        Some(k) => return k,
        None => {},
    }
    match profile_after_exec(name.as_str(), "_damage_") {
        Some(k) => return k,
        None => {},
    }
    match profile_after_exec(name.as_str(), "-damage-") {
        Some(k) => k,
        None => String::from_str("UNKNOWN_PROFILE"),
    }
}

fn suffix_from(s: &str, k: usize) -> (r: String)
    requires
        k <= s@.len(),
    ensures
        r@ == s@.subrange(k as int, s@.len() as int),
{
    let n = s.unicode_len();
    let mut out = String::new();
    let mut i = k;
    while i < n
        invariant
            k <= i <= n,
            n == s@.len(),
            out@ == s@.subrange(k as int, i as int),
        decreases n - i,
    {
        push_char(&mut out, s.get_char(i));
        proof {
            assert(s@.subrange(k as int, i + 1) =~= s@.subrange(k as int, i as int).push(s@[i as int]));
        }
        i = i + 1;
    }
    out
}

} // verus!
