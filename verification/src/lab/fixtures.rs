//! The input datasets the comparisons pack: each a fixed set of files,
//! given by relative path and contents.
use vstd::prelude::*;
use crate::text::{str_equals, push_str, u64_to_decimal, decimal, pad_with_zeros, zero_pad};
use super::paths::{make_segment, spec_segment};

verus! {

/// A file of an input dataset: its path relative to the dataset directory
/// (components joined with `/`) and its bytes.
pub struct FixtureFile {
    pub rel_path: String,
    pub contents: Vec<u8>,
}

/// The dataset name is none the fixtures know.
pub struct UnsupportedDataset;

/// Fixture files as plain values.
pub open spec fn fixture_views(fs: Seq<FixtureFile>) -> Seq<(Seq<char>, Seq<u8>)> {
    fs.map_values(|f: FixtureFile| (f.rel_path@, f.contents@))
}

/// `n` copies of the byte `b`.
pub open spec fn filled(n: nat, b: u8) -> Seq<u8> {
    Seq::new(n, |i: int| b)
}

/// The bytes of a text.
pub open spec fn text_bytes(s: Seq<char>) -> Seq<u8> {
    vstd::utf8::encode_utf8(s)
}

/// The mixed binary file: 4096 bytes counting up modulo 251.
pub open spec fn mixed_bytes() -> Seq<u8> {
    Seq::new(4096, |i: int| (i % 251) as u8)
}

/// The files of a basic dataset.
pub open spec fn basic_fixture(dataset: Seq<char>) -> Option<Seq<(Seq<char>, Seq<u8>)>> {
    if dataset == "smallfiles"@ {
        Some(seq![("tiny.txt"@, text_bytes("small-dataset-payload"@))])
    } else if dataset == "mixed"@ {
        Some(seq![("mixed.bin"@, mixed_bytes())])
    } else if dataset == "largefiles"@ {
        Some(seq![("large.dat"@, filled(8192, 13))])
    } else {
        None
    }
}

/// The path of the long-path file of the inline-path mixed dataset.
pub open spec fn long_path() -> Seq<char> {
    "nested/deeply/named/path/for/inline/duplication/cost/visibility/sample-long-name.txt"@
}

/// The files of a dataset of the inline-path comparison.
pub open spec fn format12_fixture(dataset: Seq<char>) -> Option<Seq<(Seq<char>, Seq<u8>)>> {
    if dataset == "smallfiles"@ {
        Some(seq![("tiny.txt"@, text_bytes("small-dataset-payload"@)), ("a.txt"@, text_bytes("short"@))])
    } else if dataset == "mixed"@ {
        Some(seq![("mixed.bin"@, mixed_bytes()), (long_path(), text_bytes("long-path-payload"@))])
    } else if dataset == "largefiles"@ {
        Some(seq![("large.dat"@, filled(8192, 13))])
    } else {
        None
    }
}

fn fill(n: usize, b: u8) -> (v: Vec<u8>)
    ensures
        v@ == filled(n as nat, b),
{
    let mut v: Vec<u8> = Vec::new();
    let mut i: usize = 0;
    while i < n
        invariant
            i <= n,
            v@ == filled(i as nat, b),
        decreases n - i,
    {
        v.push(b);
        proof {
            assert(v@ =~= filled((i + 1) as nat, b));
        }
        i = i + 1;
    }
    v
}

fn text_file(path: &str, text: &str) -> (f: FixtureFile)
    ensures
        f.rel_path@ == path@,
        f.contents@ == text_bytes(text@),
{
    let bytes = text.as_bytes();
    let mut contents: Vec<u8> = Vec::new();
    let mut i: usize = 0;
    while i < bytes.len()
        invariant
            i <= bytes@.len(),
            contents@ == bytes@.take(i as int),
        decreases bytes.len() - i,
    {
        contents.push(bytes[i]);
        proof {
            assert(contents@ =~= bytes@.take(i + 1));
        }
        i = i + 1;
    }
    proof {
        assert(bytes@.take(bytes@.len() as int) =~= bytes@);
    }
    let mut p = String::new();
    push_str(&mut p, path);
    FixtureFile { rel_path: p, contents }
}

fn mixed_file() -> (f: FixtureFile)
    ensures
        f.rel_path@ == "mixed.bin"@,
        f.contents@ == mixed_bytes(),
{
    let mut v: Vec<u8> = Vec::new();
    let mut i: usize = 0;
    while i < 4096
        invariant
            i <= 4096,
            v@ == Seq::new(i as nat, |k: int| (k % 251) as u8),
        decreases 4096 - i,
    {
        v.push((i % 251) as u8);
        proof {
            assert(v@ =~= Seq::new((i + 1) as nat, |k: int| (k % 251) as u8));
        }
        i = i + 1;
    }
    let mut p = String::new();
    push_str(&mut p, "mixed.bin");
    FixtureFile { rel_path: p, contents: v }
}

fn filled_file(path: &str, n: usize, b: u8) -> (f: FixtureFile)
    ensures
        f.rel_path@ == path@,
        f.contents@ == filled(n as nat, b),
{
    let mut p = String::new();
    push_str(&mut p, path);
    FixtureFile { rel_path: p, contents: fill(n, b) }
}

/// The files of a basic input dataset (`smallfiles`, `mixed` or `largefiles`).
pub fn write_dataset_fixture(dataset: &str) -> (r: Result<Vec<FixtureFile>, UnsupportedDataset>)
    ensures
        match r {
            Ok(fs) => basic_fixture(dataset@) == Some(fixture_views(fs@)),
            Err(_) => basic_fixture(dataset@) is None,
        },
{
    let mut fs: Vec<FixtureFile> = Vec::new();
    if str_equals(dataset, "smallfiles") {
        fs.push(text_file("tiny.txt", "small-dataset-payload"));
    } else if str_equals(dataset, "mixed") {
        fs.push(mixed_file());
    } else if str_equals(dataset, "largefiles") {
        fs.push(filled_file("large.dat", 8192, 13));
    } else {
        return Err(UnsupportedDataset);
    }
    proof {
        assert(fixture_views(fs@) =~= basic_fixture(dataset@)->0);
    }
    Ok(fs)
}

/// The files of an input dataset of the inline-path comparison: the basic
/// datasets, with a second short file among the small files and a file at
/// a long nested path in the mixed set.
pub fn write_dataset_fixture_format12(dataset: &str) -> (r: Result<Vec<FixtureFile>, UnsupportedDataset>)
    ensures
        match r {
            Ok(fs) => format12_fixture(dataset@) == Some(fixture_views(fs@)),
            Err(_) => format12_fixture(dataset@) is None,
        },
{
    let mut fs: Vec<FixtureFile> = Vec::new();
    if str_equals(dataset, "smallfiles") {
        fs.push(text_file("tiny.txt", "small-dataset-payload"));
        fs.push(text_file("a.txt", "short"));
    } else if str_equals(dataset, "mixed") {
        fs.push(mixed_file());
        fs.push(text_file("nested/deeply/named/path/for/inline/duplication/cost/visibility/sample-long-name.txt", "long-path-payload"));
    } else if str_equals(dataset, "largefiles") {
        fs.push(filled_file("large.dat", 8192, 13));
    } else {
        return Err(UnsupportedDataset);
    }
    proof {
        assert(fixture_views(fs@) =~= format12_fixture(dataset@)->0);
    }
    Ok(fs)
}


/// `n` in decimal, padded with zeros to `w` digits.
pub open spec fn padded(n: int, w: nat) -> Seq<char> {
    zero_pad(decimal(n as nat), w)
}

/// The first `n` directory components of deep file `i`, each followed by `/`.
pub open spec fn deep_dirs(i: int, n: int) -> Seq<char>
    decreases n,
{
    if n <= 0 {
        seq![]
    } else {
        let d = n - 1;
        deep_dirs(i, d) + "l"@ + padded(d, 2) + "_"@ + spec_segment(i + d * 7, 5) + "/"@
    }
}

/// File `i` of the deep-paths dataset.
pub open spec fn deep_file(i: int) -> (Seq<char>, Seq<u8>) {
    (
        deep_dirs(i, 20) + "file_"@ + padded(i, 4) + "_"@ + spec_segment(i * 11, 16) + ".bin"@,
        filled((1536 + (i % 7) * 64) as nat, (i % 251) as u8),
    )
}

/// File `i` of the long-names dataset.
pub open spec fn long_name_file(i: int) -> (Seq<char>, Seq<u8>) {
    (
        "very_long_filename_"@ + spec_segment(i * 3, 90) + "_"@ + spec_segment(i * 7 + 13, 42) + "_"@ + decimal(i as nat) + ".bin"@,
        filled((2048 + (i % 5) * 128) as nat, (i % 241) as u8),
    )
}

/// Fragment `f` of logical file `l` of the fragmentation-heavy dataset.
pub open spec fn fragment_file(l: int, f: int) -> (Seq<char>, Seq<u8>) {
    (
        "logical_"@ + padded(l, 2) + "/"@ + "logical_"@ + padded(l, 2) + "__frag_"@ + padded(f, 3) + ".bin"@,
        filled((768 + ((l * 13 + f * 29) % 512)) as nat, ((l + f) % 251) as u8),
    )
}

/// The first `n` directory components of worst-case logical file `l`.
pub open spec fn worst_dirs(l: int, n: int) -> Seq<char>
    decreases n,
{
    if n <= 0 {
        seq![]
    } else {
        let d = n - 1;
        worst_dirs(l, d) + "mx"@ + padded(d, 2) + "_"@ + spec_segment(l + d * 5, 4) + "/"@
    }
}

/// Fragment `f` of logical file `l` of the mixed worst-case dataset.
pub open spec fn worst_case_file(l: int, f: int) -> (Seq<char>, Seq<u8>) {
    (
        worst_dirs(l, 20) + "logical_"@ + padded(l, 2) + "_fragment_"@ + padded(f, 3) + "_"@
            + spec_segment(l * 17 + f * 19, 120) + ".bin"@,
        filled((640 + ((l * 31 + f * 7) % 256)) as nat, ((l * 3 + f) % 253) as u8),
    )
}

/// The files of a stress dataset.
pub open spec fn stress_fixture(dataset: Seq<char>) -> Option<Seq<(Seq<char>, Seq<u8>)>> {
    if dataset == "deep_paths"@ {
        Some(Seq::new(320, |i: int| deep_file(i)))
    } else if dataset == "long_names"@ {
        Some(Seq::new(200, |i: int| long_name_file(i)))
    } else if dataset == "fragmentation_heavy"@ {
        Some(Seq::new(960, |k: int| fragment_file(k / 48, k % 48)))
    } else if dataset == "mixed_worst_case"@ {
        Some(Seq::new(960, |k: int| worst_case_file(k / 48, k % 48)))
    } else {
        None
    }
}

fn push_padded(s: &mut String, n: usize, w: usize)
    ensures
        final(s)@ == old(s)@ + padded(n as int, w as nat),
{
    let d = pad_with_zeros(u64_to_decimal(n as u64), w);
    push_str(s, d.as_str());
}

fn push_segment(s: &mut String, seed: usize, len: usize)
    requires
        seed + len <= usize::MAX,
    ensures
        final(s)@ == old(s)@ + spec_segment(seed as int, len as int),
{
    let g = make_segment(seed, len);
    push_str(s, g.as_str());
}

fn deep_paths_file(i: usize) -> (f: FixtureFile)
    requires
        i < 320,
    ensures
        (f.rel_path@, f.contents@) == deep_file(i as int),
{
    let mut p = String::new();
    let mut d: usize = 0;
    while d < 20
        invariant
            i < 320,
            d <= 20,
            p@ == deep_dirs(i as int, d as int),
        decreases 20 - d,
    {
        push_str(&mut p, "l");
        push_padded(&mut p, d, 2);
        push_str(&mut p, "_");
        push_segment(&mut p, i + d * 7, 5);
        push_str(&mut p, "/");
        proof {
            assert(p@ =~= deep_dirs(i as int, d + 1));
        }
        d = d + 1;
    }
    push_str(&mut p, "file_");
    push_padded(&mut p, i, 4);
    push_str(&mut p, "_");
    push_segment(&mut p, i * 11, 16);
    push_str(&mut p, ".bin");
    let contents = fill(1536 + (i % 7) * 64, (i % 251) as u8);
    proof {
        assert(p@ =~= deep_file(i as int).0);
    }
    FixtureFile { rel_path: p, contents }
}

fn long_names_file(i: usize) -> (f: FixtureFile)
    requires
        i < 200,
    ensures
        (f.rel_path@, f.contents@) == long_name_file(i as int),
{
    let mut p = String::new();
    push_str(&mut p, "very_long_filename_");
    push_segment(&mut p, i * 3, 90);
    push_str(&mut p, "_");
    push_segment(&mut p, i * 7 + 13, 42);
    push_str(&mut p, "_");
    let n = u64_to_decimal(i as u64);
    push_str(&mut p, n.as_str());
    push_str(&mut p, ".bin");
    let contents = fill(2048 + (i % 5) * 128, (i % 241) as u8);
    proof {
        assert(p@ =~= long_name_file(i as int).0);
    }
    FixtureFile { rel_path: p, contents }
}

fn fragmentation_file(l: usize, f: usize) -> (x: FixtureFile)
    requires
        l < 20,
        f < 48,
    ensures
        (x.rel_path@, x.contents@) == fragment_file(l as int, f as int),
{
    let mut p = String::new();
    push_str(&mut p, "logical_");
    push_padded(&mut p, l, 2);
    push_str(&mut p, "/");
    push_str(&mut p, "logical_");
    push_padded(&mut p, l, 2);
    push_str(&mut p, "__frag_");
    push_padded(&mut p, f, 3);
    push_str(&mut p, ".bin");
    let contents = fill(768 + ((l * 13 + f * 29) % 512), ((l + f) % 251) as u8);
    proof {
        assert(p@ =~= fragment_file(l as int, f as int).0);
    }
    FixtureFile { rel_path: p, contents }
}

fn worst_file(l: usize, f: usize) -> (x: FixtureFile)
    requires
        l < 20,
        f < 48,
    ensures
        (x.rel_path@, x.contents@) == worst_case_file(l as int, f as int),
{
    let mut p = String::new();
    let mut d: usize = 0;
    while d < 20
        invariant
            l < 20,
            d <= 20,
            p@ == worst_dirs(l as int, d as int),
        decreases 20 - d,
    {
        push_str(&mut p, "mx");
        push_padded(&mut p, d, 2);
        push_str(&mut p, "_");
        push_segment(&mut p, l + d * 5, 4);
        push_str(&mut p, "/");
        proof {
            assert(p@ =~= worst_dirs(l as int, d + 1));
        }
        d = d + 1;
    }
    push_str(&mut p, "logical_");
    push_padded(&mut p, l, 2);
    push_str(&mut p, "_fragment_");
    push_padded(&mut p, f, 3);
    push_str(&mut p, "_");
    push_segment(&mut p, l * 17 + f * 19, 120);
    push_str(&mut p, ".bin");
    let contents = fill(640 + ((l * 31 + f * 7) % 256), ((l * 3 + f) % 253) as u8);
    proof {
        assert(p@ =~= worst_case_file(l as int, f as int).0);
    }
    FixtureFile { rel_path: p, contents }
}

fn logical_fragments(worst: bool) -> (fs: Vec<FixtureFile>)
    ensures
        fixture_views(fs@) == Seq::new(960, |k: int| if worst { worst_case_file(k / 48, k % 48) } else { fragment_file(k / 48, k % 48) }),
{
    let ghost target = Seq::new(960, |k: int| if worst { worst_case_file(k / 48, k % 48) } else { fragment_file(k / 48, k % 48) });
    let mut fs: Vec<FixtureFile> = Vec::new();
    let mut l: usize = 0;
    while l < 20
        invariant
            l <= 20,
            target == Seq::new(960, |k: int| if worst { worst_case_file(k / 48, k % 48) } else { fragment_file(k / 48, k % 48) }),
            fixture_views(fs@) == target.take(l * 48),
        decreases 20 - l,
    {
        let mut f: usize = 0;
        while f < 48
            invariant
                l < 20,
                f <= 48,
                target == Seq::new(960, |k: int| if worst { worst_case_file(k / 48, k % 48) } else { fragment_file(k / 48, k % 48) }),
                fixture_views(fs@) == target.take(l * 48 + f),
            decreases 48 - f,
        {
            let x = if worst { worst_file(l, f) } else { fragmentation_file(l, f) };
            let ghost before = fs@;
            fs.push(x);
            proof {
                let k = l * 48 + f;
                assert(k / 48 == l && k % 48 == f) by (nonlinear_arith)
                    requires k == l * 48 + f, f < 48;
                assert(fixture_views(fs@) =~= fixture_views(before).push((x.rel_path@, x.contents@)));
                assert(target.take(k + 1) =~= target.take(k).push(target[k]));
            }
            f = f + 1;
        }
        l = l + 1;
    }
    proof {
        assert(target.take(960) =~= target);
    }
    fs
}

/// The files of a stress dataset of the inline-path comparison: deep
/// directory trees, long file names, heavily fragmented logical files, or
/// all of these at once.
pub fn write_dataset_fixture_format12_stress(dataset: &str) -> (r: Result<Vec<FixtureFile>, UnsupportedDataset>)
    ensures
        match r {
            Ok(fs) => stress_fixture(dataset@) == Some(fixture_views(fs@)),
            Err(_) => stress_fixture(dataset@) is None,
        },
{
    if str_equals(dataset, "deep_paths") {
        let mut fs: Vec<FixtureFile> = Vec::new();
        let mut i: usize = 0;
        while i < 320
            invariant
                i <= 320,
                fixture_views(fs@) == Seq::new(i as nat, |k: int| deep_file(k)),
            decreases 320 - i,
        {
            let x = deep_paths_file(i);
            let ghost before = fs@;
            fs.push(x);
            proof {
                assert(fixture_views(fs@) =~= fixture_views(before).push((x.rel_path@, x.contents@)));
                assert(fixture_views(fs@) =~= Seq::new((i + 1) as nat, |k: int| deep_file(k)));
            }
            i = i + 1;
        }
        Ok(fs)
    } else if str_equals(dataset, "long_names") {
        let mut fs: Vec<FixtureFile> = Vec::new();
        let mut i: usize = 0;
        while i < 200
            invariant
                i <= 200,
                fixture_views(fs@) == Seq::new(i as nat, |k: int| long_name_file(k)),
            decreases 200 - i,
        {
            let x = long_names_file(i);
            let ghost before = fs@;
            fs.push(x);
            proof {
                assert(fixture_views(fs@) =~= fixture_views(before).push((x.rel_path@, x.contents@)));
                assert(fixture_views(fs@) =~= Seq::new((i + 1) as nat, |k: int| long_name_file(k)));
            }
            i = i + 1;
        }
        Ok(fs)
    } else if str_equals(dataset, "fragmentation_heavy") {
        let fs = logical_fragments(false);
        proof {
            assert(fixture_views(fs@) =~= Seq::new(960, |k: int| fragment_file(k / 48, k % 48)));
        }
        Ok(fs)
    } else if str_equals(dataset, "mixed_worst_case") {
        let fs = logical_fragments(true);
        proof {
            assert(fixture_views(fs@) =~= Seq::new(960, |k: int| worst_case_file(k / 48, k % 48)));
        }
        Ok(fs)
    } else {
        Err(UnsupportedDataset)
    }
}

} // verus!
