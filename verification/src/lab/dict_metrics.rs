//! Size and validity metrics of the path dictionaries an archive carries.
//! What a row takes once serialised is measured by the caller and handed in.
use vstd::prelude::*;
use crate::json::{JsonValue, json_get, get_str, get_u64, get_array, json_as_array};
use crate::text::str_equals;
use crate::digest::{blake3_digest, blake3_hash, hex_lower, to_hex};
use super::stats::{utf8_len, str_views, total_utf8_len};

verus! {

/// The row's schema is `schema`.
pub open spec fn has_schema(v: JsonValue, schema: Seq<char>) -> bool {
    get_str(v, "schema"@) == Some(schema)
}

/// Running totals of the dictionary statistics.
pub struct DictTotals {
    pub entry_count: nat,
    pub total_bytes: nat,
    pub copies: nat,
    pub extents: nat,
    pub path_chars: nat,
}

/// The dictionary entry count after a first-generation copy: the largest
/// stated entry count so far, or, while that is 0, the copy's entry list length.
pub open spec fn next_entry_count(prev: nat, row: JsonValue) -> nat {
    let stated: nat = match get_u64(row, "entry_count"@) {
        Some(n) => n as nat,
        None => 0,
    };
    let m = if stated > prev { stated } else { prev };
    if m == 0 {
        match get_array(row, "entries"@) {
            Some(a) => a.len(),
            None => 0,
        }
    } else {
        m
    }
}

/// The totals over the first `n` rows (`lens[i]` being what row `i` takes serialised).
pub open spec fn dict_totals(rows: Seq<JsonValue>, lens: Seq<u64>, n: int) -> DictTotals
    decreases n,
{
    if n <= 0 {
        DictTotals { entry_count: 0, total_bytes: 0, copies: 0, extents: 0, path_chars: 0 }
    } else {
        let t = dict_totals(rows, lens, n - 1);
        let r = rows[n - 1];
        if has_schema(r, "crushr-payload-block-identity.v1"@) {
            DictTotals {
                extents: t.extents + 1,
                path_chars: t.path_chars + match get_str(r, "path"@) {
                    Some(p) => utf8_len(p),
                    None => 0,
                },
                ..t
            }
        } else if has_schema(r, "crushr-path-dictionary-copy.v1"@) {
            DictTotals {
                total_bytes: t.total_bytes + lens[n - 1] as nat,
                copies: t.copies + 1,
                entry_count: next_entry_count(t.entry_count, r),
                ..t
            }
        } else {
            t
        }
    }
}

/// The dictionary statistics of a first-generation dictionary archive.
pub struct Format13DictStats {
    pub dictionary_entry_count: u64,
    pub dictionary_total_bytes: u64,
    pub number_of_dictionary_copies: u64,
    pub total_extent_count: u64,
    pub total_path_characters: u64,
}

proof fn lemma_dict_totals_grow(rows: Seq<JsonValue>, lens: Seq<u64>, j: int, n: int)
    requires
        0 <= j <= n,
    ensures
        dict_totals(rows, lens, j).total_bytes <= dict_totals(rows, lens, n).total_bytes,
        dict_totals(rows, lens, j).path_chars <= dict_totals(rows, lens, n).path_chars,
        dict_totals(rows, lens, j).extents <= dict_totals(rows, lens, n).extents,
        dict_totals(rows, lens, j).copies <= dict_totals(rows, lens, n).copies,
    decreases n - j,
{
    if j < n {
        lemma_dict_totals_grow(rows, lens, j, n - 1);
    }
}

proof fn lemma_dict_counts_bounded(rows: Seq<JsonValue>, lens: Seq<u64>, n: int)
    requires
        0 <= n,
    ensures
        dict_totals(rows, lens, n).extents <= n,
        dict_totals(rows, lens, n).copies <= n,
    decreases n,
{
    if n > 0 {
        lemma_dict_counts_bounded(rows, lens, n - 1);
    }
}


/// The statistics of the dictionary copies and identity rows: the entry
/// count, the serialised size and number of the first-generation copies,
/// and the extent count and path length of the identity rows; when the rows
/// name no path characters, the input files (`fallback_paths`) are counted
/// as extents with their path lengths.
pub fn format13_dict_stats(rows: &Vec<JsonValue>, serialized_lens: &Vec<u64>, fallback_paths: &Vec<String>) -> (s: Format13DictStats)
    requires
        serialized_lens@.len() == rows@.len(),
        dict_totals(rows@, serialized_lens@, rows@.len() as int).total_bytes <= u64::MAX,
        dict_totals(rows@, serialized_lens@, rows@.len() as int).path_chars + total_utf8_len(str_views(fallback_paths@)) <= u64::MAX,
        rows@.len() + fallback_paths@.len() <= u64::MAX,
    ensures
        ({
            let t = dict_totals(rows@, serialized_lens@, rows@.len() as int);
            let fallback = t.path_chars == 0;
            &&& s.dictionary_entry_count == t.entry_count
            &&& s.dictionary_total_bytes == t.total_bytes
            &&& s.number_of_dictionary_copies == t.copies
            &&& s.total_extent_count == t.extents + if fallback { fallback_paths@.len() } else { 0 }
            &&& s.total_path_characters == t.path_chars + if fallback { total_utf8_len(str_views(fallback_paths@)) } else { 0 }
        }),
{
    let ghost n = rows@.len() as int;
    let mut entry: u64 = 0;
    let mut total: u64 = 0;
    let mut copies: u64 = 0;
    let mut extents: u64 = 0;
    let mut chars: u64 = 0;
    let mut i: usize = 0;
    while i < rows.len()
        invariant
            i <= rows@.len(),
            n == rows@.len(),
            serialized_lens@.len() == rows@.len(),
            dict_totals(rows@, serialized_lens@, n).total_bytes <= u64::MAX,
            dict_totals(rows@, serialized_lens@, n).path_chars <= u64::MAX,
            rows@.len() <= u64::MAX,
            entry == dict_totals(rows@, serialized_lens@, i as int).entry_count,
            total == dict_totals(rows@, serialized_lens@, i as int).total_bytes,
            copies == dict_totals(rows@, serialized_lens@, i as int).copies,
            extents == dict_totals(rows@, serialized_lens@, i as int).extents,
            chars == dict_totals(rows@, serialized_lens@, i as int).path_chars,
        decreases rows.len() - i,
    {
        proof {
            lemma_dict_totals_grow(rows@, serialized_lens@, i + 1, n);
            lemma_dict_counts_bounded(rows@, serialized_lens@, i + 1);
        }
        let row = &rows[i];
        let (is_identity, is_copy) = match row.get_str("schema") {
            Some(sc) => (str_equals(sc, "crushr-payload-block-identity.v1"), str_equals(sc, "crushr-path-dictionary-copy.v1")),
            None => (false, false),
        };
        if is_identity {
            extents = extents + 1;
            match row.get_str("path") {
                Some(p) => {
                    let l = p.as_bytes().len();
                    chars = chars + l as u64;
                },
                None => {},
            }
        } else if is_copy {
            total = total + serialized_lens[i];
            copies = copies + 1;
            let stated = match row.get_u64("entry_count") {
                Some(k) => k,
                None => 0,
            };
            if stated > entry {
                entry = stated;
            }
            if entry == 0 {
                entry = match row.get_array("entries") {
                    Some(a) => a.len() as u64,
                    None => 0,
                };
            }
        }
        i = i + 1;
    }
    proof {
        lemma_dict_counts_bounded(rows@, serialized_lens@, n);
    }
    if chars == 0 {
        let mut k: usize = 0;
        let ghost ps = str_views(fallback_paths@);
        let ghost base_extents = extents as int;
        while k < fallback_paths.len()
            invariant
                k <= fallback_paths@.len(),
                ps == str_views(fallback_paths@),
                total_utf8_len(ps) <= u64::MAX,
                base_extents + fallback_paths@.len() <= u64::MAX,
                chars == total_utf8_len(ps.take(k as int)),
                extents == base_extents + k,
            decreases fallback_paths.len() - k,
        {
            proof {
                assert(ps.take(k + 1).drop_last() =~= ps.take(k as int));
                assert(ps.take(k + 1).last() == fallback_paths@[k as int]@);
                lemma_total_prefix_le(ps, k + 1);
            }
            let l = fallback_paths[k].as_str().as_bytes().len();
            chars = chars + l as u64;
            extents = extents + 1;
            k = k + 1;
        }
        proof {
            assert(ps.take(fallback_paths@.len() as int) =~= ps);
        }
    }
    Format13DictStats {
        dictionary_entry_count: entry,
        dictionary_total_bytes: total,
        number_of_dictionary_copies: copies,
        total_extent_count: extents,
        total_path_characters: chars,
    }
}

proof fn lemma_total_prefix_le(ps: Seq<Seq<char>>, j: int)
    requires
        0 <= j <= ps.len(),
    ensures
        total_utf8_len(ps.take(j)) <= total_utf8_len(ps),
    decreases ps.len(),
{
    if j < ps.len() {
        assert(ps.drop_last().take(j) =~= ps.take(j));
        lemma_total_prefix_le(ps.drop_last(), j);
    } else {
        assert(ps.take(j) =~= ps);
    }
}


/// What a metadata row takes serialised as JSON: the whole row, its
/// `body` (the bytes), and the body's `directories`, `basenames` and
/// `file_bindings` lists, each where the row has it.
pub struct RowEncoding {
    pub row_len: u64,
    pub body: Option<Vec<u8>>,
    pub directories_len: Option<u64>,
    pub basenames_len: Option<u64>,
    pub file_bindings_len: Option<u64>,
}

/// A row encoding as plain values.
pub struct RowEncodingView {
    pub row_len: u64,
    pub body: Option<Seq<u8>>,
    pub directories_len: Option<u64>,
    pub basenames_len: Option<u64>,
    pub file_bindings_len: Option<u64>,
}

impl View for RowEncoding {
    type V = RowEncodingView;

    open spec fn view(&self) -> RowEncodingView {
        RowEncodingView {
            row_len: self.row_len,
            body: match self.body {
                Some(b) => Some(b@),
                None => None,
            },
            directories_len: self.directories_len,
            basenames_len: self.basenames_len,
            file_bindings_len: self.file_bindings_len,
        }
    }
}

/// Running state of the factored dictionary metrics.
pub struct F15Totals {
    pub total_bytes: nat,
    pub directory_bytes: nat,
    pub basename_bytes: nat,
    pub file_binding_bytes: nat,
    pub entry_count: nat,
    pub valid: nat,
    pub wrong_archive: nat,
    pub hash_mismatch: nat,
    pub generation_mismatch: nat,
    pub expected_archive: Option<Seq<char>>,
    pub seen_generation: Option<u64>,
}

/// The length a list member of the body takes, when the body has that list.
pub open spec fn list_bytes(body: JsonValue, key: Seq<char>, len: Option<u64>) -> nat {
    match (get_array(body, key), len) {
        (Some(_), Some(l)) => l as nat,
        _ => 0,
    }
}

/// The state after a valid second-generation copy with body `body`.
pub open spec fn count_valid_copy(t: F15Totals, body: JsonValue, e: RowEncodingView) -> F15Totals {
    let files: nat = match get_array(body, "file_bindings"@) {
        Some(a) => a.len(),
        None => 0,
    };
    F15Totals {
        valid: t.valid + 1,
        directory_bytes: t.directory_bytes + list_bytes(body, "directories"@, e.directories_len),
        basename_bytes: t.basename_bytes + list_bytes(body, "basenames"@, e.basenames_len),
        file_binding_bytes: t.file_binding_bytes + list_bytes(body, "file_bindings"@, e.file_bindings_len),
        entry_count: if files > t.entry_count { files } else { t.entry_count },
        ..t
    }
}

/// The state after one row.
pub open spec fn f15_step(t: F15Totals, r: JsonValue, e: RowEncodingView) -> F15Totals {
    let t1 = if has_schema(r, "crushr-payload-block-identity.v1"@) && t.expected_archive is None {
        F15Totals { expected_archive: get_str(r, "archive_identity"@), ..t }
    } else {
        t
    };
    let v2 = has_schema(r, "crushr-path-dictionary-copy.v2"@);
    if !(has_schema(r, "crushr-path-dictionary-copy.v1"@) || v2) {
        t1
    } else {
        let t2 = F15Totals { total_bytes: t1.total_bytes + e.row_len as nat, ..t1 };
        let t3 = match get_u64(r, "generation"@) {
            Some(g) => match t2.seen_generation {
                Some(x) => if x != g { F15Totals { generation_mismatch: t2.generation_mismatch + 1, ..t2 } } else { t2 },
                None => F15Totals { seen_generation: Some(g), ..t2 },
            },
            None => t2,
        };
        if !v2 {
            t3
        } else if t3.expected_archive is Some && get_str(r, "archive_instance_id"@) is Some
            && t3.expected_archive->0 != get_str(r, "archive_instance_id"@)->0 {
            F15Totals { wrong_archive: t3.wrong_archive + 1, ..t3 }
        } else {
            match (json_get(r, "body"@), e.body) {
                (Some(body), Some(bb)) => {
                    if get_str(r, "dictionary_content_hash"@) != Some(hex_lower(blake3_digest(bb)))
                        || get_u64(r, "dictionary_length"@) != Some(bb.len() as u64) {
                        F15Totals { hash_mismatch: t3.hash_mismatch + 1, ..t3 }
                    } else {
                        count_valid_copy(t3, body, e)
                    }
                },
                _ => t3,
            }
        }
    }
}

/// The state after the first `n` rows.
pub open spec fn f15_totals(rows: Seq<JsonValue>, encs: Seq<RowEncodingView>, n: int) -> F15Totals
    decreases n,
{
    if n <= 0 {
        F15Totals {
            total_bytes: 0,
            directory_bytes: 0,
            basename_bytes: 0,
            file_binding_bytes: 0,
            entry_count: 0,
            valid: 0,
            wrong_archive: 0,
            hash_mismatch: 0,
            generation_mismatch: 0,
            expected_archive: None,
            seen_generation: None,
        }
    } else {
        f15_step(f15_totals(rows, encs, n - 1), rows[n - 1], encs[n - 1])
    }
}

/// The byte totals of a state fit in 64 bits.
pub open spec fn f15_fits(t: F15Totals) -> bool {
    &&& t.total_bytes <= u64::MAX
    &&& t.directory_bytes <= u64::MAX
    &&& t.basename_bytes <= u64::MAX
    &&& t.file_binding_bytes <= u64::MAX
}

proof fn lemma_f15_grow(rows: Seq<JsonValue>, encs: Seq<RowEncodingView>, j: int, n: int)
    requires
        0 <= j <= n,
    ensures
        f15_totals(rows, encs, j).total_bytes <= f15_totals(rows, encs, n).total_bytes,
        f15_totals(rows, encs, j).directory_bytes <= f15_totals(rows, encs, n).directory_bytes,
        f15_totals(rows, encs, j).basename_bytes <= f15_totals(rows, encs, n).basename_bytes,
        f15_totals(rows, encs, j).file_binding_bytes <= f15_totals(rows, encs, n).file_binding_bytes,
    decreases n - j,
{
    if j < n {
        lemma_f15_grow(rows, encs, j, n - 1);
    }
}

proof fn lemma_f15_counts(rows: Seq<JsonValue>, encs: Seq<RowEncodingView>, n: int)
    requires
        0 <= n,
    ensures
        f15_totals(rows, encs, n).valid <= n,
        f15_totals(rows, encs, n).wrong_archive <= n,
        f15_totals(rows, encs, n).hash_mismatch <= n,
        f15_totals(rows, encs, n).generation_mismatch <= n,
    decreases n,
{
    if n > 0 {
        lemma_f15_counts(rows, encs, n - 1);
    }
}

/// The views of row encodings.
pub open spec fn encoding_views(es: Seq<RowEncoding>) -> Seq<RowEncodingView> {
    es.map_values(|e: RowEncoding| e@)
}

/// The factored dictionary metrics of an archive.
pub struct Format15DictionaryMetrics {
    pub dictionary_total_bytes: u64,
    pub directory_dictionary_bytes: u64,
    pub basename_dictionary_bytes: u64,
    pub file_binding_table_bytes: u64,
    pub entry_count: u64,
    pub valid_dictionary_copy_count: u64,
    pub rejected_wrong_archive_count: u64,
    pub rejected_hash_mismatch_count: u64,
    pub detected_generation_mismatch_count: u64,
}


struct F15State {
    total: u64,
    dir: u64,
    base: u64,
    files: u64,
    entry: u64,
    valid: u64,
    wrong: u64,
    mismatch: u64,
    genmis: u64,
    expected: Option<String>,
    seen: Option<u64>,
}

spec fn state_view(st: F15State) -> F15Totals {
    F15Totals {
        total_bytes: st.total as nat,
        directory_bytes: st.dir as nat,
        basename_bytes: st.base as nat,
        file_binding_bytes: st.files as nat,
        entry_count: st.entry as nat,
        valid: st.valid as nat,
        wrong_archive: st.wrong as nat,
        hash_mismatch: st.mismatch as nat,
        generation_mismatch: st.genmis as nat,
        expected_archive: match st.expected {
            Some(x) => Some(x@),
            None => None,
        },
        seen_generation: st.seen,
    }
}

fn list_len_of(body: &JsonValue, key: &str, len: Option<u64>) -> (r: u64)
    ensures
        r == list_bytes(*body, key@, len),
{
    match (body.get_array(key), len) {
        (Some(_), Some(l)) => l,
        _ => 0,
    }
}

fn f15_apply(st: &mut F15State, r: &JsonValue, e: &RowEncoding)
    requires
        f15_fits(f15_step(state_view(*old(st)), *r, e@)),
        old(st).valid < u64::MAX,
        old(st).wrong < u64::MAX,
        old(st).mismatch < u64::MAX,
        old(st).genmis < u64::MAX,
    ensures
        state_view(*final(st)) == f15_step(state_view(*old(st)), *r, e@),
{
    let schema = r.get_str("schema");
    let (is_identity, is_v1, is_v2) = match schema {
        Some(sc) => (
            str_equals(sc, "crushr-payload-block-identity.v1"),
            str_equals(sc, "crushr-path-dictionary-copy.v1"),
            str_equals(sc, "crushr-path-dictionary-copy.v2"),
        ),
        None => (false, false, false),
    };
    if is_identity && st.expected.is_none() {
        st.expected = match r.get_str("archive_identity") {
            Some(a) => {
                let mut c = String::new();
                crate::text::push_str(&mut c, a);
                Some(c)
            },
            None => None,
        };
    }
    if !(is_v1 || is_v2) {
        return;
    }
    st.total = st.total + e.row_len;
    match r.get_u64("generation") {
        Some(g) => match st.seen {
            Some(x) => {
                if x != g {
                    st.genmis = st.genmis + 1;
                }
            },
            None => {
                st.seen = Some(g);
            },
        },
        None => {},
    }
    if !is_v2 {
        return;
    }
    let wrong = match (&st.expected, r.get_str("archive_instance_id")) {
        (Some(x), Some(y)) => !str_equals(x.as_str(), y),
        _ => false,
    };
    if wrong {
        st.wrong = st.wrong + 1;
        return;
    }
    match (r.get("body"), &e.body) {
        (Some(body), Some(bb)) => {
            let digest = blake3_hash(bb.as_slice());
            let hash = to_hex(digest.as_slice());
            let hash_ok = match r.get_str("dictionary_content_hash") {
                Some(h) => str_equals(h, hash.as_str()),
                None => false,
            };
            let len_ok = match r.get_u64("dictionary_length") {
                Some(l) => l == bb.len() as u64,
                None => false,
            };
            if !hash_ok || !len_ok {
                st.mismatch = st.mismatch + 1;
                return;
            }
            st.valid = st.valid + 1;
            st.dir = st.dir + list_len_of(body, "directories", e.directories_len);
            st.base = st.base + list_len_of(body, "basenames", e.basenames_len);
            st.files = st.files + list_len_of(body, "file_bindings", e.file_bindings_len);
            let n = match body.get_array("file_bindings") {
                Some(a) => a.len() as u64,
                None => 0,
            };
            if n > st.entry {
                st.entry = n;
            }
        },
        _ => {},
    }
}

/// The factored dictionary metrics over the metadata rows (`encodings[i]`
/// being what row `i` takes serialised): total serialised size of the
/// dictionary copies; for second-generation copies, those naming another
/// archive than the first identity row and those whose body hash or length
/// differs from what they state are rejected and counted, the others are
/// valid and their directory, basename and file-binding lists measured;
/// and the number of copies whose generation differs from the first seen.
pub fn format15_dictionary_metrics(rows: &Vec<JsonValue>, encodings: &Vec<RowEncoding>) -> (m: Format15DictionaryMetrics)
    requires
        encodings@.len() == rows@.len(),
        f15_fits(f15_totals(rows@, encoding_views(encodings@), rows@.len() as int)),
    ensures
        ({
            let t = f15_totals(rows@, encoding_views(encodings@), rows@.len() as int);
            &&& m.dictionary_total_bytes == t.total_bytes
            &&& m.directory_dictionary_bytes == t.directory_bytes
            &&& m.basename_dictionary_bytes == t.basename_bytes
            &&& m.file_binding_table_bytes == t.file_binding_bytes
            &&& m.entry_count == t.entry_count
            &&& m.valid_dictionary_copy_count == t.valid
            &&& m.rejected_wrong_archive_count == t.wrong_archive
            &&& m.rejected_hash_mismatch_count == t.hash_mismatch
            &&& m.detected_generation_mismatch_count == t.generation_mismatch
        }),
{
    let ghost ev = encoding_views(encodings@);
    let ghost n = rows@.len() as int;
    let mut st = F15State {
        total: 0,
        dir: 0,
        base: 0,
        files: 0,
        entry: 0,
        valid: 0,
        wrong: 0,
        mismatch: 0,
        genmis: 0,
        expected: None,
        seen: None,
    };
    let mut i: usize = 0;
    while i < rows.len()
        invariant
            i <= rows@.len(),
            n == rows@.len(),
            encodings@.len() == rows@.len(),
            ev == encoding_views(encodings@),
            f15_fits(f15_totals(rows@, ev, n)),
            state_view(st) == f15_totals(rows@, ev, i as int),
        decreases rows.len() - i,
    {
        proof {
            lemma_f15_grow(rows@, ev, i + 1, n);
            lemma_f15_counts(rows@, ev, i as int);
            assert(ev[i as int] == encodings@[i as int]@);
        }
        f15_apply(&mut st, &rows[i], &encodings[i]);
        i = i + 1;
    }
    Format15DictionaryMetrics {
        dictionary_total_bytes: st.total,
        directory_dictionary_bytes: st.dir,
        basename_dictionary_bytes: st.base,
        file_binding_table_bytes: st.files,
        entry_count: st.entry,
        valid_dictionary_copy_count: st.valid,
        rejected_wrong_archive_count: st.wrong,
        rejected_hash_mismatch_count: st.mismatch,
        detected_generation_mismatch_count: st.genmis,
    }
}

} // verus!
