//! The identity of an item: a fixed function of the name of its source and of
//! its URL.
//!
//! The identifier is the SHA-256 digest, in lower-case hexadecimal, of the
//! byte length of the source name as eight little-endian bytes, followed by
//! the UTF-8 bytes of the source name and those of the URL. The length in
//! front keeps `("ab", "c")` and `("a", "bc")` apart: different pairs are
//! hashed from different bytes.

use crate::text::lemma_bytes_determine_text;
use vstd::bytes::{
    lemma_auto_spec_u64_to_from_le_bytes, spec_u64_from_le_bytes, spec_u64_to_le_bytes,
    u64_to_le_bytes,
};
use vstd::prelude::*;
use vstd::string::StringSliceAdditionalSpecFns;
use vstd::utf8::encode_utf8;

verus! {

/// The SHA-256 digest of a byte sequence.
pub uninterp spec fn sha256_digest(data: Seq<u8>) -> Seq<u8>;

/// `sha2::Sha256::digest`, copied into a vector: the SHA-256 digest of
/// `data`. Nothing is proved of the digest; the contract gives it its name.
#[verifier::external_body]
fn sha256(data: &[u8]) -> (digest: Vec<u8>)
    ensures
        digest@ == sha256_digest(data@),
{
    <sha2::Sha256 as sha2::Digest>::digest(data).to_vec()
}

/// The bytes that are hashed for the pair `(source, url)`.
pub open spec fn identity_preimage(source: Seq<char>, url: Seq<char>) -> Seq<u8> {
    spec_u64_to_le_bytes(encode_utf8(source).len() as u64) + encode_utf8(source) + encode_utf8(url)
}

/// The lower-case hexadecimal digit for `n`, `0 <= n <= 15`.
pub open spec fn hex_digit(n: int) -> char {
    if n == 0 {
        '0'
    } else if n == 1 {
        '1'
    } else if n == 2 {
        '2'
    } else if n == 3 {
        '3'
    } else if n == 4 {
        '4'
    } else if n == 5 {
        '5'
    } else if n == 6 {
        '6'
    } else if n == 7 {
        '7'
    } else if n == 8 {
        '8'
    } else if n == 9 {
        '9'
    } else if n == 10 {
        'a'
    } else if n == 11 {
        'b'
    } else if n == 12 {
        'c'
    } else if n == 13 {
        'd'
    } else if n == 14 {
        'e'
    } else {
        'f'
    }
}

/// The lower-case hexadecimal notation of a byte sequence, two digits a byte.
pub open spec fn hex(bytes: Seq<u8>) -> Seq<char> {
    Seq::new(
        2 * bytes.len(),
        |i: int|
            if i % 2 == 0 {
                hex_digit(bytes[i / 2] as int / 16)
            } else {
                hex_digit(bytes[i / 2] as int % 16)
            },
    )
}

/// The identifier of the item of `source` at `url`.
pub open spec fn identity(source: Seq<char>, url: Seq<char>) -> Seq<char> {
    hex(sha256_digest(identity_preimage(source, url)))
}

/// The same pair always has the same identifier.
pub proof fn lemma_identity_deterministic(
    source: Seq<char>,
    url: Seq<char>,
    source2: Seq<char>,
    url2: Seq<char>,
)
    requires
        source == source2,
        url == url2,
    ensures
        identity(source, url) == identity(source2, url2),
{
}

/// Different pairs are hashed from different bytes: the bytes determine the
/// pair.
pub proof fn lemma_preimage_injective(
    source: Seq<char>,
    url: Seq<char>,
    source2: Seq<char>,
    url2: Seq<char>,
)
    requires
        encode_utf8(source).len() <= u64::MAX,
        encode_utf8(source2).len() <= u64::MAX,
        identity_preimage(source, url) == identity_preimage(source2, url2),
    ensures
        source == source2,
        url == url2,
{
    let s = encode_utf8(source);
    let s2 = encode_utf8(source2);
    let u = encode_utf8(url);
    let u2 = encode_utf8(url2);
    let p = identity_preimage(source, url);
    let p2 = identity_preimage(source2, url2);
    let n = spec_u64_to_le_bytes(s.len() as u64);
    let n2 = spec_u64_to_le_bytes(s2.len() as u64);
    lemma_auto_spec_u64_to_from_le_bytes();
    assert(n.len() == 8 && n2.len() == 8);
    assert(p.subrange(0, 8) =~= n);
    assert(p2.subrange(0, 8) =~= n2);
    assert(spec_u64_from_le_bytes(n) == s.len() as u64);
    assert(spec_u64_from_le_bytes(n2) == s2.len() as u64);
    assert(s.len() == s2.len());
    assert(p.subrange(8, 8 + s.len() as int) =~= s);
    assert(p2.subrange(8, 8 + s2.len() as int) =~= s2);
    assert(p.subrange(8 + s.len() as int, p.len() as int) =~= u);
    assert(p2.subrange(8 + s2.len() as int, p2.len() as int) =~= u2);
    lemma_bytes_determine_text(source, source2);
    lemma_bytes_determine_text(url, url2);
}

/// The hexadecimal notation determines the bytes.
pub proof fn lemma_hex_injective(a: Seq<u8>, b: Seq<u8>)
    requires
        hex(a) == hex(b),
    ensures
        a == b,
{
    assert(hex(a).len() == 2 * a.len());
    assert(hex(b).len() == 2 * b.len());
    assert forall|i: int| 0 <= i < a.len() implies a[i] == b[i] by {
        assert((2 * i) % 2 == 0 && (2 * i) / 2 == i);
        assert((2 * i + 1) % 2 == 1 && (2 * i + 1) / 2 == i);
        assert(hex(a)[2 * i] == hex_digit(a[i] as int / 16));
        assert(hex(b)[2 * i] == hex_digit(b[i] as int / 16));
        assert(hex(a)[2 * i + 1] == hex_digit(a[i] as int % 16));
        assert(hex(b)[2 * i + 1] == hex_digit(b[i] as int % 16));
        assert(hex_digit(a[i] as int / 16) == hex_digit(b[i] as int / 16));
        assert(hex_digit(a[i] as int % 16) == hex_digit(b[i] as int % 16));
    }
    assert(a =~= b);
}

/// Two different pairs have the same identifier only where SHA-256 maps two
/// different byte sequences to one digest.
pub proof fn lemma_identity_collision(
    source: Seq<char>,
    url: Seq<char>,
    source2: Seq<char>,
    url2: Seq<char>,
)
    requires
        encode_utf8(source).len() <= u64::MAX,
        encode_utf8(source2).len() <= u64::MAX,
        source != source2 || url != url2,
        identity(source, url) == identity(source2, url2),
    ensures
        identity_preimage(source, url) != identity_preimage(source2, url2),
        sha256_digest(identity_preimage(source, url)) == sha256_digest(
            identity_preimage(source2, url2),
        ),
{
    if identity_preimage(source, url) == identity_preimage(source2, url2) {
        lemma_preimage_injective(source, url, source2, url2);
    }
    lemma_hex_injective(
        sha256_digest(identity_preimage(source, url)),
        sha256_digest(identity_preimage(source2, url2)),
    );
}

/// The hexadecimal digit for `n`.
fn hex_char(n: u8) -> (c: char)
    requires
        n < 16,
    ensures
        c == hex_digit(n as int),
{
    if n == 0 {
        '0'
    } else if n == 1 {
        '1'
    } else if n == 2 {
        '2'
    } else if n == 3 {
        '3'
    } else if n == 4 {
        '4'
    } else if n == 5 {
        '5'
    } else if n == 6 {
        '6'
    } else if n == 7 {
        '7'
    } else if n == 8 {
        '8'
    } else if n == 9 {
        '9'
    } else if n == 10 {
        'a'
    } else if n == 11 {
        'b'
    } else if n == 12 {
        'c'
    } else if n == 13 {
        'd'
    } else if n == 14 {
        'e'
    } else {
        'f'
    }
}

/// The lower-case hexadecimal notation of `bytes`.
pub fn to_hex(bytes: &[u8]) -> (s: String)
    ensures
        s@ == hex(bytes@),
{
    let mut s = String::new();
    let mut i: usize = 0;
    while i < bytes.len()
        invariant
            0 <= i <= bytes@.len(),
            s@ == hex(bytes@.take(i as int)),
        decreases bytes@.len() - i,
    {
        let b: u8 = bytes[i];
        s.push(hex_char(b / 16));
        s.push(hex_char(b % 16));
        assert(s@ =~= hex(bytes@.take(i + 1)));
        i = i + 1;
    }
    assert(bytes@.take(bytes@.len() as int) =~= bytes@);
    s
}

/// The identifier of the item of the source `source_name` at `url`.
///
/// The identifier depends on nothing but the two strings: the same pair has
/// the same identifier in every run and on every machine.
pub fn generate_id(source_name: &str, url: &str) -> (id: String)
    ensures
        id@ == identity(source_name@, url@),
{
    let source_bytes = source_name.as_bytes();
    let url_bytes = url.as_bytes();
    let mut data: Vec<u8> = u64_to_le_bytes(source_bytes.len() as u64);
    let ghost prefix = data@;
    let mut i: usize = 0;
    while i < source_bytes.len()
        invariant
            0 <= i <= source_bytes@.len(),
            data@ == prefix + source_bytes@.take(i as int),
        decreases source_bytes@.len() - i,
    {
        data.push(source_bytes[i]);
        assert(data@ =~= prefix + source_bytes@.take(i + 1));
        i = i + 1;
    }
    assert(source_bytes@.take(source_bytes@.len() as int) =~= source_bytes@);
    let ghost front = data@;
    let mut j: usize = 0;
    while j < url_bytes.len()
        invariant
            0 <= j <= url_bytes@.len(),
            data@ == front + url_bytes@.take(j as int),
        decreases url_bytes@.len() - j,
    {
        data.push(url_bytes[j]);
        assert(data@ =~= front + url_bytes@.take(j + 1));
        j = j + 1;
    }
    assert(url_bytes@.take(url_bytes@.len() as int) =~= url_bytes@);
    let digest = sha256(data.as_slice());
    to_hex(digest.as_slice())
}

} // verus!
