//! The byte-level corruption models of the comparison runs.
use vstd::prelude::*;
use vstd::string::*;
use crate::text::str_equals;
use super::scenarios::{ComparisonScenario, Format09Scenario};

verus! {

/// The byte at offset `i` of a clobbered range, by mode: `delete` zeroes,
/// `truncate` zeroes every other byte, `bitflip` flips bits by a rolling
/// mask, any other mode writes a rolling pattern.
pub open spec fn clobbered_byte(b: u8, i: int, mode: Seq<char>) -> u8 {
    if mode == "delete"@ {
        0
    } else if mode == "truncate"@ {
        if i % 2 == 0 { 0 } else { b }
    } else if mode == "bitflip"@ {
        b ^ (0xA5u8 ^ ((i % 17) as u8))
    } else {
        (0x55 + i % 101) as u8
    }
}

/// `n` bytes from `start` (as far as the bytes go) clobbered by `mode`.
pub open spec fn clobbered(b: Seq<u8>, start: int, n: int, mode: Seq<char>) -> Seq<u8> {
    let end = if start + n < b.len() { start + n } else { b.len() as int };
    Seq::new(b.len(), |q: int| if start <= q < end { clobbered_byte(b[q], q - start, mode) } else { b[q] })
}

/// Overwrites up to `len` bytes from `start` by the given mode; bytes past
/// the end are left alone.
pub fn clobber_range(bytes: &mut Vec<u8>, start: usize, len: usize, mode: &str)
    ensures
        final(bytes)@ == clobbered(old(bytes)@, start as int, len as int, mode@),
{
    let ghost old_bytes = bytes@;
    let sum = start.saturating_add(len);
    let end = if sum < bytes.len() { sum } else { bytes.len() };
    if start >= end {
        proof {
            assert(bytes@ =~= clobbered(old_bytes, start as int, len as int, mode@));
        }
        return;
    }
    let delete = str_equals(mode, "delete");
    let truncate = str_equals(mode, "truncate");
    let bitflip = str_equals(mode, "bitflip");
    let mut j = start;
    while j < end
        invariant
            start <= j <= end,
            end <= old_bytes.len(),
            end as int == if start + len < old_bytes.len() { start + len } else { old_bytes.len() as int },
            delete == (mode@ == "delete"@),
            truncate == (mode@ == "truncate"@),
            bitflip == (mode@ == "bitflip"@),
            bytes@.len() == old_bytes.len(),
            forall|q: int| 0 <= q < old_bytes.len() ==> #[trigger] bytes@[q] == if start <= q < j {
                clobbered_byte(old_bytes[q], q - start, mode@)
            } else {
                old_bytes[q]
            },
        decreases end - j,
    {
        let i = j - start;
        let b = bytes[j];
        let nb: u8 = if delete {
            0
        } else if truncate {
            if i % 2 == 0 { 0 } else { b }
        } else if bitflip {
            b ^ (0xA5u8 ^ ((i % 17) as u8))
        } else {
            0x55u8 + ((i % 101) as u8)
        };
        bytes.set(j, nb);
        j = j + 1;
    }
    proof {
        assert(bytes@ =~= clobbered(old_bytes, start as int, len as int, mode@));
    }
}


/// The bytes of two equally long ranges exchanged, as two successive
/// copies do it: first `[s, s+n)` receives the bytes of `[m, m+n)`, then
/// `[m, m+n)` receives the original bytes of `[s, s+n)`.
pub open spec fn swapped(b: Seq<u8>, s: int, m: int, n: int) -> Seq<u8> {
    Seq::new(b.len(), |q: int| if m <= q < m + n { b[s + q - m] } else if s <= q < s + n { b[m + q - s] } else { b[q] })
}

/// `b` with a copy of `[start, end)` inserted at `at`.
pub open spec fn with_copy_inserted(b: Seq<u8>, start: int, end: int, at: int) -> Seq<u8> {
    b.take(at) + b.subrange(start, end) + b.skip(at)
}

/// Where the payload damage of a metadata-regime scenario lands: the data
/// region skips the first 64 bytes and the footer plus 128 bytes; the
/// damage block is a sixteenth of it (at least 64 bytes), placed by the seed.
pub open spec fn f09_damage_window(len: int, seed: u64, footer_len: int) -> (int, int, int) {
    let data_start = if 64 < len { 64 } else { len };
    let data_end = if len >= footer_len + 128 { len - footer_len - 128 } else { 0 };
    let span = data_end - data_start;
    let block = if span / 16 > 64 { span / 16 } else { 64 };
    let off = (seed % 7) * block / 2;
    let start = data_start + if off < span - 1 { off } else { span - 1 };
    (data_end, block, start)
}

/// The payload damage of a metadata-regime scenario.
pub open spec fn f09_payload_corrupted(b: Seq<u8>, damage: Seq<char>, seed: u64, footer_len: int) -> Seq<u8> {
    let len = b.len() as int;
    let data_start = if 64 < len { 64 } else { len };
    let w = f09_damage_window(len, seed, footer_len);
    let data_end = w.0;
    let block = w.1;
    let start = w.2;
    if data_start >= data_end {
        b
    } else if damage == "single_block_delete"@ {
        clobbered(b, start, block, "delete"@)
    } else if damage == "sparse_delete"@ {
        clobbered(
            clobbered(clobbered(clobbered(b, start, block / 3, "delete"@), start + block / 2, block / 3, "delete"@),
                start + 2 * (block / 2), block / 3, "delete"@),
            start + 3 * (block / 2), block / 3, "delete"@,
        )
    } else if damage == "cluster_delete"@ {
        clobbered(b, start, block * 3 / 2, "delete"@)
    } else if damage == "block_reorder"@ {
        let mid = if start + block < data_end - block { start + block } else if data_end >= block { data_end - block } else { 0 };
        if mid > start && mid + block <= data_end { swapped(b, start, mid, block) } else { b }
    } else if damage == "duplicate_block_insert"@ {
        let end = if start + block < data_end { start + block } else { data_end };
        let at = if end + block / 2 < data_end { end + block / 2 } else { data_end };
        with_copy_inserted(b, start, end, at)
    } else {
        b
    }
}

fn copy_range(bytes: &Vec<u8>, s: usize, n: usize) -> (r: Vec<u8>)
    requires
        s + n <= bytes@.len(),
    ensures
        r@ == bytes@.subrange(s as int, s + n),
{
    let mut r: Vec<u8> = Vec::new();
    let blen = bytes.len();
    let mut q: usize = 0;
    while q < n
        invariant
            q <= n,
            blen == bytes@.len(),
            s + n <= bytes@.len(),
            r@ == bytes@.subrange(s as int, s + q),
        decreases n - q,
    {
        r.push(bytes[s + q]);
        proof {
            assert(r@ =~= bytes@.subrange(s as int, s + q + 1));
        }
        q = q + 1;
    }
    r
}

fn swap_ranges(bytes: &mut Vec<u8>, s: usize, m: usize, n: usize)
    requires
        s + n <= old(bytes)@.len(),
        m + n <= old(bytes)@.len(),
    ensures
        final(bytes)@ == swapped(old(bytes)@, s as int, m as int, n as int),
{
    let ghost old_bytes = bytes@;
    let a = copy_range(bytes, s, n);
    let b = copy_range(bytes, m, n);
    let blen = bytes.len();
    let mut q: usize = 0;
    while q < n
        invariant
            q <= n,
            blen == old_bytes.len(),
            s + n <= old_bytes.len(),
            m + n <= old_bytes.len(),
            b@ == old_bytes.subrange(m as int, m + n),
            bytes@.len() == old_bytes.len(),
            forall|x: int| 0 <= x < old_bytes.len() ==> #[trigger] bytes@[x] == if s <= x < s + q { old_bytes[m + x - s] } else { old_bytes[x] },
        decreases n - q,
    {
        bytes.set(s + q, b[q]);
        q = q + 1;
    }
    q = 0;
    while q < n
        invariant
            q <= n,
            blen == old_bytes.len(),
            s + n <= old_bytes.len(),
            m + n <= old_bytes.len(),
            a@ == old_bytes.subrange(s as int, s + n),
            bytes@.len() == old_bytes.len(),
            forall|x: int| 0 <= x < old_bytes.len() ==> #[trigger] bytes@[x] == if m <= x < m + q {
                old_bytes[s + x - m]
            } else if s <= x < s + n {
                old_bytes[m + x - s]
            } else {
                old_bytes[x]
            },
        decreases n - q,
    {
        bytes.set(m + q, a[q]);
        q = q + 1;
    }
    proof {
        assert(bytes@ =~= swapped(old_bytes, s as int, m as int, n as int));
    }
}

fn insert_copy(bytes: &mut Vec<u8>, start: usize, end: usize, at: usize)
    requires
        start <= end <= old(bytes)@.len(),
        at <= old(bytes)@.len(),
    ensures
        final(bytes)@ == with_copy_inserted(old(bytes)@, start as int, end as int, at as int),
{
    let ghost old_bytes = bytes@;
    let mut out: Vec<u8> = Vec::new();
    let mut q: usize = 0;
    while q < at
        invariant
            q <= at <= old_bytes.len(),
            bytes@ == old_bytes,
            out@ == old_bytes.take(q as int),
        decreases at - q,
    {
        out.push(bytes[q]);
        proof {
            assert(out@ =~= old_bytes.take(q + 1));
        }
        q = q + 1;
    }
    q = start;
    while q < end
        invariant
            start <= q <= end <= old_bytes.len(),
            at <= old_bytes.len(),
            bytes@ == old_bytes,
            out@ == old_bytes.take(at as int) + old_bytes.subrange(start as int, q as int),
        decreases end - q,
    {
        out.push(bytes[q]);
        proof {
            assert(out@ =~= old_bytes.take(at as int) + old_bytes.subrange(start as int, q + 1));
        }
        q = q + 1;
    }
    q = at;
    while q < bytes.len()
        invariant
            at <= q <= old_bytes.len(),
            start <= end <= old_bytes.len(),
            bytes@ == old_bytes,
            out@ == old_bytes.take(at as int) + old_bytes.subrange(start as int, end as int) + old_bytes.subrange(
                at as int,
                q as int,
            ),
        decreases bytes.len() - q,
    {
        out.push(bytes[q]);
        proof {
            assert(out@ =~= old_bytes.take(at as int) + old_bytes.subrange(start as int, end as int)
                + old_bytes.subrange(at as int, q + 1));
        }
        q = q + 1;
    }
    proof {
        assert(old_bytes.subrange(at as int, old_bytes.len() as int) =~= old_bytes.skip(at as int));
    }
    *bytes = out;
}

/// Damages the payload region of an archive as a metadata-regime
/// scenario's payload damage says (`footer_len` is the archive footer's length).
pub fn corrupt_payload_for_format09(bytes: &mut Vec<u8>, scenario: &Format09Scenario, footer_len: usize)
    requires
        old(bytes)@.len() <= isize::MAX,
        footer_len + 128 <= usize::MAX,
    ensures
        final(bytes)@ == f09_payload_corrupted(old(bytes)@, scenario.payload_damage@, scenario.seed, footer_len as int),
{
    let ghost old_bytes = bytes@;
    let len = bytes.len();
    let data_start: usize = if 64 < len { 64 } else { len };
    let data_end: usize = if len >= footer_len + 128 { len - footer_len - 128 } else { 0 };
    if data_start >= data_end {
        return;
    }
    let span = data_end - data_start;
    let block: usize = if span / 16 > 64 { span / 16 } else { 64 };
    let k = (scenario.seed % 7) as usize;
    assert(k * block <= 6 * block) by (nonlinear_arith)
        requires
            k <= 6,
    ;
    let off = k * block / 2;
    let start = data_start + if off < span - 1 { off } else { span - 1 };
    proof {
        assert(f09_damage_window(len as int, scenario.seed, footer_len as int) == (data_end as int, block as int, start as int));
    }
    let damage = scenario.payload_damage;
    if str_equals(damage, "single_block_delete") {
        clobber_range(bytes, start, block, "delete");
    } else if str_equals(damage, "sparse_delete") {
        clobber_range(bytes, start, block / 3, "delete");
        clobber_range(bytes, start + block / 2, block / 3, "delete");
        clobber_range(bytes, start + 2 * (block / 2), block / 3, "delete");
        clobber_range(bytes, start + 3 * (block / 2), block / 3, "delete");
    } else if str_equals(damage, "cluster_delete") {
        clobber_range(bytes, start, block * 3 / 2, "delete");
    } else if str_equals(damage, "block_reorder") {
        let mid = if start + block < data_end - block {
            start + block
        } else if data_end >= block {
            data_end - block
        } else {
            0
        };
        if mid > start && mid + block <= data_end {
            swap_ranges(bytes, start, mid, block);
        }
    } else if str_equals(damage, "duplicate_block_insert") {
        let end = if start + block < data_end { start + block } else { data_end };
        let at = if end + block / 2 < data_end { end + block / 2 } else { data_end };
        insert_copy(bytes, start, end, at);
    }
}


/// The offsets an archive footer gives: where the blocks end and where the
/// index starts.
#[derive(Clone, Copy, Debug, PartialEq, Eq, Structural)]
pub struct FooterOffsets {
    pub blocks_end_offset: u64,
    pub index_offset: u64,
}

/// Why an archive could not be corrupted as a scenario asks.
#[derive(Clone, Copy, Debug, PartialEq, Eq, Structural)]
pub enum CorruptionError {
    /// The archive footer could not be read.
    FooterUnreadable,
    /// The scenario names a corruption target that no model covers.
    UnsupportedTarget,
}

/// `needle` occurs in `b` at `h`.
pub open spec fn matches_at(b: Seq<u8>, needle: Seq<u8>, h: int) -> bool {
    0 <= h && h + needle.len() <= b.len() && b.subrange(h, h + needle.len()) == needle
}

/// Every occurrence of `needle` from `pos` on, found left to right in the
/// bytes as they are being damaged, has the 64 bytes from 8 before it
/// clobbered; the search resumes after the occurrence.
pub open spec fn clobber_hits_from(b: Seq<u8>, needle: Seq<u8>, pos: int, op: Seq<char>) -> Seq<u8>
    decreases b.len() - pos,
{
    if pos < 0 || needle.len() == 0 || pos + needle.len() > b.len() {
        b
    } else if matches_at(b, needle, pos) {
        clobber_hits_from(
            clobbered(b, if pos >= 8 { pos - 8 } else { 0 }, 64, op),
            needle,
            pos + needle.len(),
            op,
        )
    } else {
        clobber_hits_from(b, needle, pos + 1, op)
    }
}

/// The tail metadata region (from the end of the blocks, but no later than
/// 16 bytes before the end, up to the footer) clobbered.
pub open spec fn tail_clobbered(b: Seq<u8>, blocks_end: int, footer_len: int, op: Seq<char>) -> Seq<u8> {
    let len = b.len() as int;
    let last16 = if len >= 16 { len - 16 } else { 0 };
    let start = if blocks_end < last16 { blocks_end } else { last16 };
    let n = if len >= start + footer_len { len - (start + footer_len) } else { 0 };
    clobbered(b, start, n, op)
}

/// The metadata damage of a metadata-regime scenario on an archive whose
/// footer reads `f`; a conflicting regime also inserts a copy of up to 128
/// bytes of the tail 64 bytes after the end of the blocks.
pub open spec fn f09_metadata_corrupted(
    b: Seq<u8>,
    regime: Seq<char>,
    target: Seq<char>,
    op: Seq<char>,
    f: FooterOffsets,
    footer_len: int,
) -> Seq<u8> {
    let blocks_end = (f.blocks_end_offset as usize) as int;
    let index_offset = (f.index_offset as usize) as int;
    let hit = if target == "index"@ {
        clobbered(b, index_offset, 96, op)
    } else if target == "manifest"@ {
        clobber_hits_from(
            clobber_hits_from(b, "crushr-file-manifest-checkpoint.v1".spec_bytes(), 0, op),
            "file-manifest-checkpoint".spec_bytes(),
            0,
            op,
        )
    } else if target == "path_checkpoint"@ {
        clobber_hits_from(
            clobber_hits_from(b, "crushr-path-checkpoint.v1".spec_bytes(), 0, op),
            "path-checkpoint".spec_bytes(),
            0,
            op,
        )
    } else if target == "tail_metadata"@ {
        tail_clobbered(b, blocks_end, footer_len, op)
    } else if target == "multiple_metadata_layers"@ || target == "index_manifest"@ {
        tail_clobbered(clobbered(b, index_offset, 96, op), blocks_end, footer_len, op)
    } else {
        b
    };
    if regime == "metadata_conflicting"@ {
        let len = hit.len() as int;
        let fo = if len >= footer_len { len - footer_len } else { 0 };
        let at = if blocks_end + 64 < fo { blocks_end + 64 } else { fo };
        let end = if blocks_end + 128 < fo { blocks_end + 128 } else { fo };
        with_copy_inserted(hit, blocks_end, end, at)
    } else {
        hit
    }
}

fn matches_needle_at(bytes: &Vec<u8>, needle: &Vec<u8>, pos: usize) -> (r: bool)
    requires
        pos + needle@.len() <= bytes@.len(),
    ensures
        r == matches_at(bytes@, needle@, pos as int),
{
    let blen = bytes.len();
    let mut q: usize = 0;
    while q < needle.len()
        invariant
            blen == bytes@.len(),
            q <= needle@.len(),
            pos + needle@.len() <= bytes@.len(),
            bytes@.subrange(pos as int, pos + q) == needle@.take(q as int),
        decreases needle.len() - q,
    {
        if bytes[pos + q] != needle[q] {
            proof {
                if matches_at(bytes@, needle@, pos as int) {
                    assert(bytes@.subrange(pos as int, pos + needle@.len())[q as int] == needle@[q as int]);
                }
            }
            return false;
        }
        proof {
            assert(bytes@.subrange(pos as int, pos + q + 1) =~= needle@.take(q + 1));
        }
        q = q + 1;
    }
    proof {
        assert(needle@.take(needle@.len() as int) =~= needle@);
    }
    true
}

fn clobber_needle_hits(bytes: &mut Vec<u8>, needle: &Vec<u8>, op: &str)
    requires
        old(bytes)@.len() <= isize::MAX,
    ensures
        final(bytes)@ == clobber_hits_from(old(bytes)@, needle@, 0, op@),
        final(bytes)@.len() == old(bytes)@.len(),
{
    let ghost target = clobber_hits_from(bytes@, needle@, 0, op@);
    let ghost len0 = bytes@.len();
    let n = needle.len();
    if n == 0 {
        return;
    }
    let mut pos: usize = 0;
    while n <= bytes.len() - pos
        invariant
            n == needle@.len(),
            n > 0,
            bytes@.len() <= isize::MAX,
            pos <= bytes@.len(),
            bytes@.len() == len0,
            clobber_hits_from(bytes@, needle@, pos as int, op@) == target,
        decreases bytes@.len() - pos,
    {
        if matches_needle_at(bytes, needle, pos) {
            let from = if pos >= 8 { pos - 8 } else { 0 };
            clobber_range(bytes, from, 64, op);
            pos = pos + n;
        } else {
            pos = pos + 1;
        }
    }
    proof {
        assert(clobber_hits_from(bytes@, needle@, pos as int, op@) == bytes@);
    }
}

fn clobber_tail(bytes: &mut Vec<u8>, blocks_end: usize, footer_len: usize, op: &str)
    requires
        old(bytes)@.len() <= isize::MAX,
        footer_len <= isize::MAX,
    ensures
        final(bytes)@ == tail_clobbered(old(bytes)@, blocks_end as int, footer_len as int, op@),
{
    let len = bytes.len();
    let last16 = if len >= 16 { len - 16 } else { 0 };
    let start = if blocks_end < last16 { blocks_end } else { last16 };
    let n = if len >= start + footer_len { len - (start + footer_len) } else { 0 };
    clobber_range(bytes, start, n, op);
}

/// Damages the metadata of an archive as a metadata-regime scenario says:
/// nothing for intact metadata; otherwise the footer must have been read
/// (`footer`), and the scenario's target is clobbered by its operation.
pub fn corrupt_metadata_for_format09(
    bytes: &mut Vec<u8>,
    scenario: &Format09Scenario,
    footer: Option<FooterOffsets>,
    footer_len: usize,
) -> (r: Result<(), CorruptionError>)
    requires
        old(bytes)@.len() <= isize::MAX,
        footer_len <= isize::MAX,
        scenario.metadata_regime@ == "metadata_conflicting"@ ==> match footer {
            Some(f) => (f.blocks_end_offset as usize) + footer_len <= old(bytes)@.len(),
            None => true,
        },
    ensures
        final(bytes)@.len() <= old(bytes)@.len() + 128,
        scenario.metadata_regime@ == "metadata_intact"@ ==> r is Ok && final(bytes)@ == old(bytes)@,
        scenario.metadata_regime@ != "metadata_intact"@ ==> match footer {
            Some(f) => r is Ok && final(bytes)@ == f09_metadata_corrupted(
                old(bytes)@,
                scenario.metadata_regime@,
                scenario.metadata_target@,
                scenario.metadata_operation@,
                f,
                footer_len as int,
            ),
            None => r == Err::<(), CorruptionError>(CorruptionError::FooterUnreadable) && final(bytes)@ == old(bytes)@,
        },
{
    if str_equals(scenario.metadata_regime, "metadata_intact") {
        return Ok(());
    }
    let f = match footer {
        Some(f) => f,
        None => return Err(CorruptionError::FooterUnreadable),
    };
    let ghost old_bytes = bytes@;
    let blocks_end = f.blocks_end_offset as usize;
    let index_offset = f.index_offset as usize;
    let target = scenario.metadata_target;
    let op = scenario.metadata_operation;
    if str_equals(target, "index") {
        clobber_range(bytes, index_offset, 96, op);
    } else if str_equals(target, "manifest") {
        let first = "crushr-file-manifest-checkpoint.v1".as_bytes_vec();
        let second = "file-manifest-checkpoint".as_bytes_vec();
        clobber_needle_hits(bytes, &first, op);
        clobber_needle_hits(bytes, &second, op);
    } else if str_equals(target, "path_checkpoint") {
        let first = "crushr-path-checkpoint.v1".as_bytes_vec();
        let second = "path-checkpoint".as_bytes_vec();
        clobber_needle_hits(bytes, &first, op);
        clobber_needle_hits(bytes, &second, op);
    } else if str_equals(target, "tail_metadata") {
        clobber_tail(bytes, blocks_end, footer_len, op);
    } else if str_equals(target, "multiple_metadata_layers") || str_equals(target, "index_manifest") {
        clobber_range(bytes, index_offset, 96, op);
        clobber_tail(bytes, blocks_end, footer_len, op);
    }
    if str_equals(scenario.metadata_regime, "metadata_conflicting") {
        let len = bytes.len();
        let fo = if len >= footer_len { len - footer_len } else { 0 };
        let at = if blocks_end + 64 < fo { blocks_end + 64 } else { fo };
        let end = if blocks_end + 128 < fo { blocks_end + 128 } else { fo };
        insert_copy(bytes, blocks_end, end, at);
    }
    Ok(())
}

/// Applies both halves of a metadata-regime scenario to an archive's bytes:
/// first the metadata damage, then the payload damage.
pub fn apply_format09_corruption(
    bytes: &mut Vec<u8>,
    scenario: &Format09Scenario,
    footer: Option<FooterOffsets>,
    footer_len: usize,
) -> (r: Result<(), CorruptionError>)
    requires
        old(bytes)@.len() + 128 <= isize::MAX,
        footer_len <= isize::MAX,
        scenario.metadata_regime@ == "metadata_conflicting"@ ==> match footer {
            Some(f) => (f.blocks_end_offset as usize) + footer_len <= old(bytes)@.len(),
            None => true,
        },
    ensures
        scenario.metadata_regime@ == "metadata_intact"@ ==> r is Ok && final(bytes)@ == f09_payload_corrupted(
            old(bytes)@,
            scenario.payload_damage@,
            scenario.seed,
            footer_len as int,
        ),
        scenario.metadata_regime@ != "metadata_intact"@ ==> match footer {
            Some(f) => r is Ok && final(bytes)@ == f09_payload_corrupted(
                f09_metadata_corrupted(
                    old(bytes)@,
                    scenario.metadata_regime@,
                    scenario.metadata_target@,
                    scenario.metadata_operation@,
                    f,
                    footer_len as int,
                ),
                scenario.payload_damage@,
                scenario.seed,
                footer_len as int,
            ),
            None => r == Err::<(), CorruptionError>(CorruptionError::FooterUnreadable) && final(bytes)@ == old(bytes)@,
        },
{
    let r = corrupt_metadata_for_format09(bytes, scenario, footer, footer_len);
    match r {
        Ok(()) => {
            corrupt_payload_for_format09(bytes, scenario, footer_len);
            Ok(())
        },
        Err(e) => Err(e),
    }
}


/// The first `min(mag, len)` bytes flipped by a rolling mask.
pub open spec fn header_flipped(b: Seq<u8>, mag: int, shift: int) -> Seq<u8> {
    Seq::new(b.len(), |q: int| if q < mag { b[q] ^ ((0x11 + (q + shift) % 7) as u8) } else { b[q] })
}

/// `k` byte flips from `start` on, each clamped to the last byte.
pub open spec fn payload_flipped(b: Seq<u8>, start: int, k: int) -> Seq<u8>
    decreases k,
{
    if k <= 0 {
        b
    } else {
        let prev = payload_flipped(b, start, k - 1);
        let i = k - 1;
        let idx = if start + i < b.len() - 1 { start + i } else { b.len() - 1 };
        prev.update(idx, prev[idx] ^ ((0x33 + i % 5) as u8))
    }
}

/// An index region damaged: the byte at `first` inverted in its low seven
/// bits, then `k` bytes at `base + (i + shift) % 16` flipped; bytes at or
/// past `limit` are left alone.
pub open spec fn index_flipped(b: Seq<u8>, first: int, base: int, limit: int, shift: int, k: int) -> Seq<u8>
    decreases k,
{
    if k <= 0 {
        if 0 <= first < limit { b.update(first, b[first] ^ 0x7Fu8) } else { b }
    } else {
        let prev = index_flipped(b, first, base, limit, shift, k - 1);
        let i = k - 1;
        let idx = base + (i + shift) % 16;
        if idx < limit { prev.update(idx, prev[idx] ^ ((0x5A + i % 3) as u8)) } else { prev }
    }
}

/// The number of bytes a scenario's magnitude touches.
pub open spec fn magnitude_bytes(magnitude: Seq<char>) -> int {
    if magnitude == "small"@ { 1 } else { 8 }
}

fn flip_index(bytes: &mut Vec<u8>, first: usize, base: usize, limit: usize, shift: usize, mag: usize)
    requires
        limit <= old(bytes)@.len(),
        base + 16 <= usize::MAX,
    ensures
        final(bytes)@ == index_flipped(old(bytes)@, first as int, base as int, limit as int, shift as int, mag as int),
{
    let ghost old_bytes = bytes@;
    if first < limit {
        let v = bytes[first] ^ 0x7Fu8;
        bytes.set(first, v);
    }
    proof {
        assert(index_flipped(old_bytes, first as int, base as int, limit as int, shift as int, 0).len() == old_bytes.len());
    }
    let mut i: usize = 0;
    while i < mag
        invariant
            i <= mag,
            limit <= old_bytes.len(),
            base + 16 <= usize::MAX,
            bytes@.len() == old_bytes.len(),
            bytes@ == index_flipped(old_bytes, first as int, base as int, limit as int, shift as int, i as int),
        decreases mag - i,
    {
        let idx = base + (i % 16 + shift % 16) % 16;
        proof {
            assert((i % 16 + shift % 16) % 16 == (i + shift) % 16) by (nonlinear_arith);
        }
        if idx < limit {
            let v = bytes[idx] ^ ((0x5Au8 + (i % 3) as u8));
            bytes.set(idx, v);
        }
        i = i + 1;
    }
}

/// Damages the index bytes of a tail frame as an index scenario on the
/// small-files dataset does.
pub fn corrupt_index_frame(idx3: &mut Vec<u8>, scenario: &ComparisonScenario)
    ensures
        final(idx3)@ == index_flipped(
            old(idx3)@,
            4,
            5,
            old(idx3)@.len() as int,
            (scenario.seed % 11) as int,
            magnitude_bytes(scenario.magnitude@),
        ),
{
    let shift = (scenario.seed % 11) as usize;
    let mag: usize = if str_equals(scenario.magnitude, "small") { 1 } else { 8 };
    let limit = idx3.len();
    flip_index(idx3, 4, 5, limit, shift, mag);
}

/// What a comparison scenario does to an archive's bytes (the index
/// scenario on the small-files dataset rewrites the tail frame instead,
/// see `corrupt_index_frame`, and leaves the bytes here alone).
pub open spec fn archive_corrupted(b: Seq<u8>, s: ComparisonScenario, f: FooterOffsets, footer_len: int) -> Seq<u8> {
    let len = b.len() as int;
    let shift = (s.seed % 11) as int;
    let mag = magnitude_bytes(s.magnitude@);
    if s.corruption_target@ == "header"@ {
        header_flipped(b, mag, shift)
    } else if s.corruption_target@ == "payload"@ {
        payload_flipped(b, len / 3 + shift, mag)
    } else if s.corruption_target@ == "tail"@ {
        let cut = if s.magnitude@ == "small"@ { 32int } else { 128int };
        let new_len = if len - cut > 16 { len - cut } else { 16 };
        if new_len < len { b.take(new_len) } else { b }
    } else if s.dataset@ == "smallfiles"@ {
        b
    } else {
        let fo = if len >= footer_len { len - footer_len } else { 0 };
        let io = (f.index_offset as usize) as int;
        index_flipped(b, io, io + 4, fo, shift, mag)
    }
}

/// Corrupts an archive's bytes as a comparison scenario says: flips header
/// bytes, flips payload bytes from a third of the way in, truncates the
/// tail, or damages the index the footer (`footer`) locates.
pub fn corrupt_archive(
    bytes: &mut Vec<u8>,
    scenario: &ComparisonScenario,
    footer: Option<FooterOffsets>,
    footer_len: usize,
) -> (r: Result<(), CorruptionError>)
    requires
        scenario.corruption_target@ == "payload"@ ==> old(bytes)@.len() > 0,
        scenario.corruption_target@ == "index"@ ==> match footer {
            Some(f) => (f.index_offset as usize) + 20 <= usize::MAX,
            None => true,
        },
    ensures
        match r {
            Ok(()) => {
                &&& (scenario.corruption_target@ == "index"@ ==> footer is Some)
                &&& final(bytes)@ == archive_corrupted(old(bytes)@, *scenario, footer.unwrap_or(FooterOffsets { blocks_end_offset: 0, index_offset: 0 }), footer_len as int)
            },
            Err(e) => final(bytes)@ == old(bytes)@ && (e == CorruptionError::FooterUnreadable <==> scenario.corruption_target@ == "index"@),
        },
        r is Err <==> !(scenario.corruption_target@ == "header"@ || scenario.corruption_target@ == "payload"@
            || scenario.corruption_target@ == "tail"@ || (scenario.corruption_target@ == "index"@ && footer is Some)),
{
    proof {
        reveal_strlit("header");
        reveal_strlit("payload");
        reveal_strlit("tail");
        reveal_strlit("index");
        assert("header"@[0] != "payload"@[0] && "header"@[0] != "tail"@[0] && "header"@[0] != "index"@[0]);
        assert("payload"@[0] != "tail"@[0] && "payload"@[0] != "index"@[0] && "tail"@[0] != "index"@[0]);
    }
    let ghost old_bytes = bytes@;
    let len = bytes.len();
    let shift = (scenario.seed % 11) as usize;
    let small = str_equals(scenario.magnitude, "small");
    let mag: usize = if small { 1 } else { 8 };
    let target = scenario.corruption_target;
    if str_equals(target, "header") {
        let n = if mag < len { mag } else { len };
        let mut i: usize = 0;
        while i < n
            invariant
                i <= n <= len,
                len == old_bytes.len(),
                n == if mag < len { mag } else { len },
                shift < 11,
                bytes@.len() == len,
                forall|q: int| 0 <= q < len ==> #[trigger] bytes@[q] == if q < i {
                    old_bytes[q] ^ ((0x11 + (q + shift) % 7) as u8)
                } else {
                    old_bytes[q]
                },
            decreases n - i,
        {
            let v = bytes[i] ^ (0x11u8 + ((i % 7 + shift % 7) % 7) as u8);
            proof {
                assert((i % 7 + shift % 7) % 7 == (i + shift) % 7) by (nonlinear_arith);
            }
            bytes.set(i, v);
            i = i + 1;
        }
        proof {
            assert(bytes@ =~= header_flipped(old_bytes, mag as int, shift as int));
        }
        Ok(())
    } else if str_equals(target, "payload") {
        let start = (len / 3).saturating_add(shift);
        let mut i: usize = 0;
        while i < mag
            invariant
                i <= mag <= 8,
                len == old_bytes.len(),
                len > 0,
                shift < 11,
                start == len / 3 + shift,
                bytes@ == payload_flipped(old_bytes, start as int, i as int),
                bytes@.len() == len,
            decreases mag - i,
        {
            let idx = if start + i < len - 1 { start + i } else { len - 1 };
            let v = bytes[idx] ^ (0x33u8 + (i % 5) as u8);
            bytes.set(idx, v);
            i = i + 1;
        }
        Ok(())
    } else if str_equals(target, "tail") {
        let cut: usize = if small { 32 } else { 128 };
        let new_len = if len > cut && len - cut > 16 { len - cut } else { 16 };
        if new_len < len {
            bytes.truncate(new_len);
        }
        Ok(())
    } else if str_equals(target, "index") {
        let f = match footer {
            Some(f) => f,
            None => return Err(CorruptionError::FooterUnreadable),
        };
        if str_equals(scenario.dataset, "smallfiles") {
            return Ok(());
        }
        let fo = if len >= footer_len { len - footer_len } else { 0 };
        let io = f.index_offset as usize;
        flip_index(bytes, io, io + 4, fo, shift, mag);
        Ok(())
    } else {
        Err(CorruptionError::UnsupportedTarget)
    }
}


/// Payload flips keep the length of non-empty bytes and leave alone every
/// byte before `start` other than the last one.
proof fn lemma_payload_flipped_local(b: Seq<u8>, start: int, k: int)
    requires
        b.len() > 0,
        start >= 0,
    ensures
        payload_flipped(b, start, k).len() == b.len(),
        forall|q: int| 0 <= q < start && q < b.len() - 1 ==> #[trigger] payload_flipped(b, start, k)[q] == b[q],
    decreases k,
{
    if k > 0 {
        lemma_payload_flipped_local(b, start, k - 1);
    }
}

/// Index flips keep the length and leave alone every byte at or past `limit`.
proof fn lemma_index_flipped_local(b: Seq<u8>, first: int, base: int, limit: int, shift: int, k: int)
    requires
        0 <= limit <= b.len(),
        base >= 0,
        shift >= 0,
    ensures
        index_flipped(b, first, base, limit, shift, k).len() == b.len(),
        forall|q: int| limit <= q < b.len() ==> #[trigger] index_flipped(b, first, base, limit, shift, k)[q] == b[q],
    decreases k,
{
    if k > 0 {
        lemma_index_flipped_local(b, first, base, limit, shift, k - 1);
    }
}

/// Scenario damage stays in its region: byte flips keep an archive's
/// length, header flips touch only the first eight bytes, payload flips
/// nothing before a third of the way in (but the last byte), index flips
/// nothing from the footer on; truncation keeps a prefix, no longer than
/// the archive and at least 16 bytes unless the archive was shorter.
pub proof fn law_damage_stays_in_its_region(b: Seq<u8>, s: ComparisonScenario, f: FooterOffsets, footer_len: int)
    requires
        s.corruption_target@ == "payload"@ ==> b.len() > 0,
        0 <= footer_len,
    ensures
        ({
            let r = archive_corrupted(b, s, f, footer_len);
            &&& s.corruption_target@ == "tail"@ ==> r.len() <= b.len() && r =~= b.take(r.len() as int) && (r.len() >= 16 || r =~= b)
            &&& s.corruption_target@ != "tail"@ ==> r.len() == b.len()
            &&& s.corruption_target@ == "header"@ ==> forall|q: int| 8 <= q < b.len() ==> #[trigger] r[q] == b[q]
            &&& s.corruption_target@ == "payload"@ ==> forall|q: int| 0 <= q < b.len() / 3 && q < b.len() - 1 ==> #[trigger] r[q] == b[q]
            &&& s.corruption_target@ == "index"@ ==> forall|q: int| 0 <= q < b.len() && b.len() - footer_len <= q ==> #[trigger] r[q] == b[q]
        }),
{
    reveal_strlit("header");
    reveal_strlit("payload");
    reveal_strlit("tail");
    reveal_strlit("index");
    assert("header"@[0] != "payload"@[0] && "header"@[0] != "tail"@[0] && "header"@[0] != "index"@[0]);
    assert("payload"@[0] != "tail"@[0] && "payload"@[0] != "index"@[0] && "tail"@[0] != "index"@[0]);
    let len = b.len() as int;
    let shift = (s.seed % 11) as int;
    let mag = magnitude_bytes(s.magnitude@);
    assert(mag <= 8);
    if s.corruption_target@ == "payload"@ {
        lemma_payload_flipped_local(b, len / 3 + shift, mag);
    } else if s.corruption_target@ == "tail"@ {
        let cut = if s.magnitude@ == "small"@ { 32int } else { 128int };
        let new_len = if len - cut > 16 { len - cut } else { 16 };
        if new_len < len {
            assert(b.take(new_len).take(new_len) =~= b.take(new_len));
        } else {
            assert(b.take(len) =~= b);
        }
    } else if s.corruption_target@ != "header"@ && s.dataset@ != "smallfiles"@ {
        let fo = if len >= footer_len { len - footer_len } else { 0 };
        let io = (f.index_offset as usize) as int;
        lemma_index_flipped_local(b, io, io + 4, fo, shift, mag);
    }
}

} // verus!
