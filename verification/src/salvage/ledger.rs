//! The redundant file map ledger: its JSON document read into files with
//! extents.
use vstd::prelude::*;
use vstd::string::*;
use crate::json::{JsonValue, get_str, get_u64, get_array};
use crate::text::str_equals;
use super::types::{Extent, RedundantMapFile};

verus! {

/// Why a redundant map ledger was refused.
#[derive(Clone, Copy, Debug, PartialEq, Eq, Structural)]
pub enum LedgerError {
    NotAnObject,
    MissingSchema,
    UnsupportedSchema,
    MissingFiles,
    FileNotAnObject { file_index: usize },
    MissingPath { file_index: usize },
    EmptyPath { file_index: usize },
    MissingSize { file_index: usize },
    MissingExtents { file_index: usize },
    ExtentNotAnObject { file_index: usize, extent_index: usize },
    MissingBlockId { file_index: usize, extent_index: usize },
    MissingFileOffset { file_index: usize, extent_index: usize },
    MissingLen { file_index: usize, extent_index: usize },
    BlockIdOutOfRange { file_index: usize, extent_index: usize },
}

/// A ledger file as plain values.
pub struct LedgerFileView {
    pub path: Seq<char>,
    pub size: u64,
    pub extents: Seq<Extent>,
}

/// The plain values of a redundant map file.
pub open spec fn ledger_file_view(f: RedundantMapFile) -> LedgerFileView {
    LedgerFileView { path: f.path@, size: f.size, extents: f.extents@ }
}

/// Extent `ei` of file `fi`: an object with `block_id` (32 bits),
/// `file_offset` and `len`.
pub open spec fn ledger_extent(e: JsonValue, fi: usize, ei: usize) -> Result<Extent, LedgerError> {
    if !(e is Object) {
        Err(LedgerError::ExtentNotAnObject { file_index: fi, extent_index: ei })
    } else {
        match get_u64(e, "block_id"@) {
            None => Err(LedgerError::MissingBlockId { file_index: fi, extent_index: ei }),
            Some(b) => match get_u64(e, "file_offset"@) {
                None => Err(LedgerError::MissingFileOffset { file_index: fi, extent_index: ei }),
                Some(o) => match get_u64(e, "len"@) {
                    None => Err(LedgerError::MissingLen { file_index: fi, extent_index: ei }),
                    Some(l) => if b > u32::MAX {
                        Err(LedgerError::BlockIdOutOfRange { file_index: fi, extent_index: ei })
                    } else {
                        Ok(Extent { block_id: b as u32, offset: o, len: l })
                    },
                },
            },
        }
    }
}

/// The extents of file `fi`, or the first extent's error.
pub open spec fn ledger_extents(es: Seq<JsonValue>, fi: usize) -> Result<Seq<Extent>, LedgerError>
    decreases es.len(),
{
    if es.len() == 0 {
        Ok(seq![])
    } else {
        match ledger_extents(es.drop_last(), fi) {
            Err(e) => Err(e),
            Ok(prev) => match ledger_extent(es.last(), fi, (es.len() - 1) as usize) {
                Ok(x) => Ok(prev.push(x)),
                Err(e) => Err(e),
            },
        }
    }
}

/// File `fi`: an object with a non-empty `path`, a `size` and an
/// `extents` array.
pub open spec fn ledger_file(f: JsonValue, fi: usize) -> Result<LedgerFileView, LedgerError> {
    if !(f is Object) {
        Err(LedgerError::FileNotAnObject { file_index: fi })
    } else {
        match get_str(f, "path"@) {
            None => Err(LedgerError::MissingPath { file_index: fi }),
            Some(p) => if p.len() == 0 {
                Err(LedgerError::EmptyPath { file_index: fi })
            } else {
                match get_u64(f, "size"@) {
                    None => Err(LedgerError::MissingSize { file_index: fi }),
                    Some(size) => match get_array(f, "extents"@) {
                        None => Err(LedgerError::MissingExtents { file_index: fi }),
                        Some(es) => match ledger_extents(es, fi) {
                            Ok(xs) => Ok(LedgerFileView { path: p, size, extents: xs }),
                            Err(e) => Err(e),
                        },
                    },
                }
            },
        }
    }
}

/// The files of the ledger, or the first file's error.
pub open spec fn ledger_files(fs: Seq<JsonValue>) -> Result<Seq<LedgerFileView>, LedgerError>
    decreases fs.len(),
{
    if fs.len() == 0 {
        Ok(seq![])
    } else {
        match ledger_files(fs.drop_last()) {
            Err(e) => Err(e),
            Ok(prev) => match ledger_file(fs.last(), (fs.len() - 1) as usize) {
                Ok(x) => Ok(prev.push(x)),
                Err(e) => Err(e),
            },
        }
    }
}

/// What a ledger document yields: it must be an object whose `schema` is
/// one of the two redundant file map schemas and whose `files` is an array.
pub open spec fn spec_ledger(v: JsonValue) -> Result<Seq<LedgerFileView>, LedgerError> {
    if !(v is Object) {
        Err(LedgerError::NotAnObject)
    } else {
        match get_str(v, "schema"@) {
            None => Err(LedgerError::MissingSchema),
            Some(s) => if s != "crushr-redundant-file-map.v1"@ && s != "crushr-redundant-file-map.experimental.v2"@ {
                Err(LedgerError::UnsupportedSchema)
            } else {
                match get_array(v, "files"@) {
                    None => Err(LedgerError::MissingFiles),
                    Some(fs) => ledger_files(fs),
                }
            },
        }
    }
}

fn parse_ledger_extent(e: &JsonValue, fi: usize, ei: usize) -> (r: Result<Extent, LedgerError>)
    ensures
        r == ledger_extent(*e, fi, ei),
{
    if e.as_object().is_none() {
        return Err(LedgerError::ExtentNotAnObject { file_index: fi, extent_index: ei });
    }
    let b = match e.get_u64("block_id") {
        Some(b) => b,
        None => return Err(LedgerError::MissingBlockId { file_index: fi, extent_index: ei }),
    };
    let o = match e.get_u64("file_offset") {
        Some(o) => o,
        None => return Err(LedgerError::MissingFileOffset { file_index: fi, extent_index: ei }),
    };
    let l = match e.get_u64("len") {
        Some(l) => l,
        None => return Err(LedgerError::MissingLen { file_index: fi, extent_index: ei }),
    };
    if b > 4294967295u64 {
        return Err(LedgerError::BlockIdOutOfRange { file_index: fi, extent_index: ei });
    }
    Ok(Extent { block_id: b as u32, offset: o, len: l })
}

#[verifier::loop_isolation(false)]
fn parse_ledger_file(f: &JsonValue, fi: usize) -> (r: Result<RedundantMapFile, LedgerError>)
    ensures
        match r {
            Ok(x) => ledger_file(*f, fi) == Ok::<LedgerFileView, LedgerError>(ledger_file_view(x)),
            Err(e) => ledger_file(*f, fi) == Err::<LedgerFileView, LedgerError>(e),
        },
{
    if f.as_object().is_none() {
        return Err(LedgerError::FileNotAnObject { file_index: fi });
    }
    let path = match f.get_str("path") {
        Some(p) => p,
        None => return Err(LedgerError::MissingPath { file_index: fi }),
    };
    if path.unicode_len() == 0 {
        return Err(LedgerError::EmptyPath { file_index: fi });
    }
    let size = match f.get_u64("size") {
        Some(s) => s,
        None => return Err(LedgerError::MissingSize { file_index: fi }),
    };
    let es = match f.get_array("extents") {
        Some(es) => es,
        None => return Err(LedgerError::MissingExtents { file_index: fi }),
    };
    let mut extents: Vec<Extent> = Vec::new();
    let mut i: usize = 0;
    proof {
        assert(es@.take(0) =~= Seq::<JsonValue>::empty());
    }
    while i < es.len()
        invariant
            i <= es@.len(),
            ledger_extents(es@.take(i as int), fi) == Ok::<Seq<Extent>, LedgerError>(extents@),
        decreases es.len() - i,
    {
        proof {
            assert(es@.take(i + 1).drop_last() =~= es@.take(i as int));
            assert(es@.take(i + 1).last() == es@[i as int]);
        }
        match parse_ledger_extent(&es[i], fi, i) {
            Ok(x) => extents.push(x),
            Err(e) => {
                proof {
                    assert(ledger_extents(es@.take(i + 1), fi) == Err::<Seq<Extent>, LedgerError>(e));
                    lemma_ledger_extents_error_persists(es@, fi, i as int + 1);
                    assert(ledger_extents(es@, fi) == Err::<Seq<Extent>, LedgerError>(e));
                }
                return Err(e);
            },
        }
        i = i + 1;
    }
    proof {
        assert(es@.take(es@.len() as int) =~= es@);
    }
    Ok(RedundantMapFile { path: String::from_str(path), size, extents })
}

proof fn lemma_ledger_extents_error_persists(es: Seq<JsonValue>, fi: usize, k: int)
    requires
        0 <= k <= es.len(),
        ledger_extents(es.take(k), fi) is Err,
    ensures
        ledger_extents(es, fi) == ledger_extents(es.take(k), fi),
    decreases es.len() - k,
{
    if k < es.len() {
        assert(es.take(k + 1).drop_last() =~= es.take(k));
        lemma_ledger_extents_error_persists(es, fi, k + 1);
    } else {
        assert(es.take(k) =~= es);
    }
}

proof fn lemma_ledger_files_error_persists(fs: Seq<JsonValue>, k: int)
    requires
        0 <= k <= fs.len(),
        ledger_files(fs.take(k)) is Err,
    ensures
        ledger_files(fs) == ledger_files(fs.take(k)),
    decreases fs.len() - k,
{
    if k < fs.len() {
        assert(fs.take(k + 1).drop_last() =~= fs.take(k));
        lemma_ledger_files_error_persists(fs, k + 1);
    } else {
        assert(fs.take(k) =~= fs);
    }
}

/// Reads the files of a redundant file map ledger document, or the first
/// problem found, in document order.
#[verifier::loop_isolation(false)]
pub fn parse_redundant_map_files(ledger: &JsonValue) -> (r: Result<Vec<RedundantMapFile>, LedgerError>)
    ensures
        match r {
            Ok(files) => spec_ledger(*ledger) == Ok::<Seq<LedgerFileView>, LedgerError>(
                files@.map_values(|f: RedundantMapFile| ledger_file_view(f)),
            ),
            Err(e) => spec_ledger(*ledger) == Err::<Seq<LedgerFileView>, LedgerError>(e),
        },
{
    if ledger.as_object().is_none() {
        return Err(LedgerError::NotAnObject);
    }
    let schema = match ledger.get_str("schema") {
        Some(s) => s,
        None => return Err(LedgerError::MissingSchema),
    };
    if !str_equals(schema, "crushr-redundant-file-map.v1") && !str_equals(schema, "crushr-redundant-file-map.experimental.v2") {
        return Err(LedgerError::UnsupportedSchema);
    }
    let fs = match ledger.get_array("files") {
        Some(fs) => fs,
        None => return Err(LedgerError::MissingFiles),
    };
    let mut out: Vec<RedundantMapFile> = Vec::new();
    let mut i: usize = 0;
    proof {
        assert(fs@.take(0) =~= Seq::<JsonValue>::empty());
        assert(out@.map_values(|f: RedundantMapFile| ledger_file_view(f)) =~= Seq::<LedgerFileView>::empty());
    }
    while i < fs.len()
        invariant
            i <= fs@.len(),
            ledger_files(fs@.take(i as int)) == Ok::<Seq<LedgerFileView>, LedgerError>(
                out@.map_values(|f: RedundantMapFile| ledger_file_view(f)),
            ),
        decreases fs.len() - i,
    {
        proof {
            assert(fs@.take(i + 1).drop_last() =~= fs@.take(i as int));
            assert(fs@.take(i + 1).last() == fs@[i as int]);
        }
        match parse_ledger_file(&fs[i], i) {
            Ok(f) => {
                let ghost old_out = out@;
                out.push(f);
                proof {
                    assert(out@.map_values(|f: RedundantMapFile| ledger_file_view(f)) =~= old_out.map_values(
                        |f: RedundantMapFile| ledger_file_view(f),
                    ).push(ledger_file_view(f)));
                }
            },
            Err(e) => {
                proof {
                    assert(ledger_files(fs@.take(i + 1)) == Err::<Seq<LedgerFileView>, LedgerError>(e));
                    lemma_ledger_files_error_persists(fs@, i as int + 1);
                }
                return Err(e);
            },
        }
        i = i + 1;
    }
    proof {
        assert(fs@.take(fs@.len() as int) =~= fs@);
    }
    Ok(out)
}

} // verus!
