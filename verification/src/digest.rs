//! Content digests and payload decompression, and their hexadecimal rendering.
use vstd::prelude::*;
use crate::text::push_char;

verus! {

/// The BLAKE3 digest (32 bytes) of a byte string.
pub uninterp spec fn blake3_digest(data: Seq<u8>) -> Seq<u8>;

/// What zstd's `decode_all` yields for a byte string read as zstd frames:
/// the decoded bytes, or `None` when decoding fails.
pub uninterp spec fn zstd_decoded(data: Seq<u8>) -> Option<Seq<u8>>;

/// Calls `blake3::hash`. Trusted: the result is the 32 bytes of the default
/// BLAKE3 hash of `data`, named `blake3_digest(data)`; that it is 32 bytes long
/// is `blake3::OUT_LEN`. Nothing more about the digest is stated.
#[verifier::external_body]
pub(crate) fn blake3_hash(data: &[u8]) -> (r: Vec<u8>)
    ensures
        r@ == blake3_digest(data@),
        r@.len() == 32,
{
    blake3::hash(data).as_bytes().to_vec()
}

/// Calls `zstd::decode_all` on the bytes. Trusted: the result is named
/// `zstd_decoded(data)`: `Some` with the decompressed bytes when decoding
/// succeeds, `None` when it reports an error. What the bytes decode to is not
/// stated.
#[verifier::external_body]
pub(crate) fn zstd_decode_all(data: &[u8]) -> (r: Option<Vec<u8>>)
    ensures
        match r {
            Some(v) => zstd_decoded(data@) == Some(v@),
            None => zstd_decoded(data@) is None,
        },
{
    zstd::decode_all(std::io::Cursor::new(data)).ok()
}

/// The lower-case hexadecimal digit of a nibble.
pub open spec fn hex_digit(n: u8) -> char {
    if n < 10 { ((n + 48) as u8) as char } else { ((n - 10 + 97) as u8) as char }
}

/// Lower-case hexadecimal rendering: two digits per byte, high nibble first.
pub open spec fn hex_lower(bytes: Seq<u8>) -> Seq<char>
    decreases bytes.len(),
{
    if bytes.len() == 0 {
        seq![]
    } else {
        hex_lower(bytes.drop_last()) + seq![hex_digit(bytes.last() / 16), hex_digit(bytes.last() % 16)]
    }
}

fn hex_digit_exec(n: u8) -> (c: char)
    requires
        n < 16,
    ensures
        c == hex_digit(n),
{
    let table: [char; 16] = ['0', '1', '2', '3', '4', '5', '6', '7', '8', '9', 'a', 'b', 'c', 'd', 'e', 'f'];
    let c = table[n as usize];
    assert(c == hex_digit(n)) by {
        assert(table@[n as int] == c);
    }
    c
}

/// Renders bytes as lower-case hexadecimal, two digits per byte.
pub fn to_hex(bytes: &[u8]) -> (r: String)
    ensures
        r@ == hex_lower(bytes@),
        r@.len() == 2 * bytes@.len(),
{
    let mut out = String::new();
    let mut i: usize = 0;
    while i < bytes.len()
        invariant
            i <= bytes@.len(),
            out@ == hex_lower(bytes@.subrange(0, i as int)),
            out@.len() == 2 * i,
        decreases bytes.len() - i,
    {
        let b = bytes[i];
        push_char(&mut out, hex_digit_exec(b / 16));
        push_char(&mut out, hex_digit_exec(b % 16));
        proof {
            let s = bytes@.subrange(0, i + 1);
            assert(s.drop_last() =~= bytes@.subrange(0, i as int));
            assert(s.last() == b);
        }
        i = i + 1;
    }
    proof {
        assert(bytes@.subrange(0, i as int) =~= bytes@);
    }
    out
}

/// The hexadecimal BLAKE3 digest of a string's UTF-8 bytes, as the planner
/// compares path digests.
pub open spec fn path_digest_hex(path: Seq<char>) -> Seq<char> {
    hex_lower(blake3_digest(vstd::utf8::encode_utf8(path)))
}

/// Renders the BLAKE3 digest of a string's UTF-8 bytes in hexadecimal.
pub fn digest_hex_of_str(s: &str) -> (r: String)
    ensures
        r@ == path_digest_hex(s@),
{
    let bytes = s.as_bytes();
    let d = blake3_hash(bytes);
    to_hex(d.as_slice())
}


/// The fingerprint of a byte string: its BLAKE3 digest in hexadecimal.
pub open spec fn fingerprint(bytes: Seq<u8>) -> Seq<char> {
    hex_lower(blake3_digest(bytes))
}

/// Renders the BLAKE3 digest of bytes (an archive's content) in hexadecimal.
pub fn fingerprint_hex(bytes: &[u8]) -> (r: String)
    ensures
        r@ == fingerprint(bytes@),
        r@.len() == 64,
{
    let d = blake3_hash(bytes);
    to_hex(d.as_slice())
}

} // verus!
