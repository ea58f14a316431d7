use sha2::Digest;
use vstd::prelude::*;
use crate::text::{chars_of, chars_eq, string_from};

verus! {

/// The SHA-256 digest of `data` (a name for what `sha2::Sha256` computes).
pub uninterp spec fn sha256_digest(data: Seq<u8>) -> Seq<u8>;

/// The SHA-512 digest of `data` (a name for what `sha2::Sha512` computes).
pub uninterp spec fn sha512_digest(data: Seq<u8>) -> Seq<u8>;

/// The BLAKE3 digest of `data` (a name for what `blake3::hash` computes).
pub uninterp spec fn blake3_digest(data: Seq<u8>) -> Seq<u8>;

/// What `str::to_lowercase` returns for `s`.
pub uninterp spec fn lowercase(s: Seq<char>) -> Seq<char>;

/// Hashes `data` with `sha2::Sha256` (new, update, finalize). The result is
/// named `sha256_digest(data)`; its length is the algorithm's 32 bytes.
#[verifier::external_body]
fn sha256_bytes(data: &[u8]) -> (r: Vec<u8>)
    ensures
        r@ == sha256_digest(data@),
        r@.len() == 32,
{
    let mut hasher = sha2::Sha256::new();
    hasher.update(data);
    hasher.finalize().to_vec()
}

/// Hashes `data` with `sha2::Sha512` (new, update, finalize). The result is
/// named `sha512_digest(data)`; its length is the algorithm's 64 bytes.
#[verifier::external_body]
fn sha512_bytes(data: &[u8]) -> (r: Vec<u8>)
    ensures
        r@ == sha512_digest(data@),
        r@.len() == 64,
{
    let mut hasher = sha2::Sha512::new();
    hasher.update(data);
    hasher.finalize().to_vec()
}

/// Hashes `data` with `blake3::hash`. The result is named
/// `blake3_digest(data)`; its length is BLAKE3's 32 output bytes.
#[verifier::external_body]
fn blake3_bytes(data: &[u8]) -> (r: Vec<u8>)
    ensures
        r@ == blake3_digest(data@),
        r@.len() == 32,
{
    blake3::hash(data).as_bytes().to_vec()
}

/// Lower-cases a string with `str::to_lowercase`. The result is named
/// `lowercase(s)`; on ASCII text it maps `A-Z` to `a-z` and keeps every other
/// character, as std documents. What it does to other characters (Unicode's
/// case tables) is not restated.
#[verifier::external_body]
fn to_lowercase(s: &str) -> (r: String)
    ensures
        r@ == lowercase(s@),
        (forall|i: int| 0 <= i < s@.len() ==> (#[trigger] s@[i] as u32) < 128) ==> r@ == s@.map_values(|c: char| ascii_lower(c)),
{
    s.to_lowercase()
}

pub open spec fn ascii_lower(c: char) -> char {
    if 'A' <= c && c <= 'Z' {
        ((c as u32) + 32) as char
    } else {
        c
    }
}

/// Every character of `s` is ASCII.
pub open spec fn is_ascii_text(s: Seq<char>) -> bool {
    forall|i: int| 0 <= i < s.len() ==> (#[trigger] s[i] as u32) < 128
}

/// `s` with `A-Z` mapped to `a-z`.
pub open spec fn ascii_lowered(s: Seq<char>) -> Seq<char> {
    s.map_values(|c: char| ascii_lower(c))
}

pub open spec fn hex_digits() -> Seq<char> {
    seq!['0', '1', '2', '3', '4', '5', '6', '7', '8', '9', 'a', 'b', 'c', 'd', 'e', 'f']
}

pub open spec fn hex_digit(d: u8) -> char {
    hex_digits()[d as int]
}

/// Lower-case hexadecimal, two digits per byte (as `{:x}` formats a digest).
pub open spec fn hex_lower(b: Seq<u8>) -> Seq<char>
    decreases b.len(),
{
    if b.len() == 0 {
        seq![]
    } else {
        hex_lower(b.drop_last()) + seq![hex_digit(b.last() / 16), hex_digit(b.last() % 16)]
    }
}

pub proof fn lemma_hex_len(b: Seq<u8>)
    ensures
        hex_lower(b).len() == 2 * b.len(),
    decreases b.len(),
{
    if b.len() > 0 {
        lemma_hex_len(b.drop_last());
    }
}

fn hex_char(d: u8) -> (c: char)
    requires
        d < 16,
    ensures
        c == hex_digit(d),
{
    let digits = ['0', '1', '2', '3', '4', '5', '6', '7', '8', '9', 'a', 'b', 'c', 'd', 'e', 'f'];
    assert(digits@ =~= hex_digits());
    digits[d as usize]
}

/// Lower-case hexadecimal of bytes.
pub fn to_hex(b: &[u8]) -> (r: String)
    ensures
        r@ == hex_lower(b@),
{
    let mut out: Vec<char> = Vec::new();
    let mut i: usize = 0;
    while i < b.len()
        invariant
            i <= b.len(),
            out@ == hex_lower(b@.take(i as int)),
        decreases b.len() - i,
    {
        out.push(hex_char(b[i] / 16));
        out.push(hex_char(b[i] % 16));
        assert(b@.take(i + 1).drop_last() =~= b@.take(i as int));
        assert(out@ =~= hex_lower(b@.take(i + 1)));
        i = i + 1;
    }
    assert(b@.take(b.len() as int) =~= b@);
    string_from(&out)
}

/// SHA-512 of `data` in lower-case hex.
pub fn sha512(data: &[u8]) -> (r: String)
    ensures
        r@ == hex_lower(sha512_digest(data@)),
        r@.len() == 128,
{
    let d = sha512_bytes(data);
    proof {
        lemma_hex_len(d@);
    }
    to_hex(&d)
}

/// SHA-256 of `data` in lower-case hex.
pub fn sha256(data: &[u8]) -> (r: String)
    ensures
        r@ == hex_lower(sha256_digest(data@)),
        r@.len() == 64,
{
    let d = sha256_bytes(data);
    proof {
        lemma_hex_len(d@);
    }
    to_hex(&d)
}

/// BLAKE3 of `data` in lower-case hex.
pub fn blake3(data: &[u8]) -> (r: String)
    ensures
        r@ == hex_lower(blake3_digest(data@)),
        r@.len() == 64,
{
    let d = blake3_bytes(data);
    proof {
        lemma_hex_len(d@);
    }
    to_hex(&d)
}

pub open spec fn name_sha256() -> Seq<char> {
    seq!['s', 'h', 'a', '2', '5', '6']
}

pub open spec fn name_sha512() -> Seq<char> {
    seq!['s', 'h', 'a', '5', '1', '2']
}

pub open spec fn name_blake3() -> Seq<char> {
    seq!['b', 'l', 'a', 'k', 'e', '3']
}

/// The hex digest of `data` under the algorithm named `algo` (in lower case),
/// if it is one of sha256, sha512, blake3.
pub open spec fn digest_hex(data: Seq<u8>, algo: Seq<char>) -> Option<Seq<char>> {
    if algo == name_sha256() {
        Some(hex_lower(sha256_digest(data)))
    } else if algo == name_sha512() {
        Some(hex_lower(sha512_digest(data)))
    } else if algo == name_blake3() {
        Some(hex_lower(blake3_digest(data)))
    } else {
        None
    }
}

/// Whether `data` hashes to `expected` under `algo` (sha256, sha512 or blake3,
/// in any case); an unknown algorithm never verifies.
pub fn verify_checksum(data: &[u8], expected: &str, algo: &str) -> (r: bool)
    ensures
        r == (digest_hex(data@, lowercase(algo@)) == Some(expected@)),
        is_ascii_text(algo@) ==> r == (digest_hex(data@, ascii_lowered(algo@)) == Some(expected@)),
{
    let low = to_lowercase(algo);
    let lower = chars_of(low.as_str());
    let s256 = vec!['s', 'h', 'a', '2', '5', '6'];
    let s512 = vec!['s', 'h', 'a', '5', '1', '2'];
    let b3 = vec!['b', 'l', 'a', 'k', 'e', '3'];
    assert(s256@ =~= name_sha256());
    assert(s512@ =~= name_sha512());
    assert(b3@ =~= name_blake3());
    let actual = if chars_eq(&lower, &s256) {
        sha256(data)
    } else if chars_eq(&lower, &s512) {
        sha512(data)
    } else if chars_eq(&lower, &b3) {
        blake3(data)
    } else {
        return false;
    };
    chars_eq(&chars_of(actual.as_str()), &chars_of(expected))
}

} // verus!
