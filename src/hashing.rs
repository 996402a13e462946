//! Hex digests of byte strings, for the host's hashing service.
use vstd::prelude::*;

verus! {

/// The SHA-256 digest of a byte string.
pub uninterp spec fn sha256_of(data: Seq<u8>) -> Seq<u8>;

/// The MD5 digest of a byte string.
pub uninterp spec fn md5_of(data: Seq<u8>) -> Seq<u8>;

/// SHA-256 takes messages shorter than 2^64 bits.
pub const SHA256_MAX_INPUT: u64 = 0x2000_0000_0000_0000;

/// The lowercase hex digit of a value below sixteen.
pub open spec fn hex_digit(n: u8) -> char {
    if n < 10 {
        (48 + n) as char
    } else {
        (87 + n) as char
    }
}

/// Two lowercase hex digits per byte, high nibble first.
pub open spec fn hex_of(b: Seq<u8>) -> Seq<char>
    decreases b.len(),
{
    if b.len() == 0 {
        Seq::empty()
    } else {
        hex_of(b.drop_last()) + seq![hex_digit(b.last() / 16), hex_digit(b.last() % 16)]
    }
}

/// Relies on ring::digest::digest with SHA256: the digest is 32 bytes and
/// depends on the input alone. ring panics on input of 2^64 bits or more.
#[verifier::external_body]
fn sha256_digest(data: &[u8]) -> (r: Vec<u8>)
    requires
        data@.len() < SHA256_MAX_INPUT,
    ensures
        r@ == sha256_of(data@),
        r@.len() == 32,
{
    ring::digest::digest(&ring::digest::SHA256, data).as_ref().to_vec()
}

/// Relies on md5::compute: the digest is 16 bytes and depends on the input alone.
#[verifier::external_body]
fn md5_digest(data: &[u8]) -> (r: Vec<u8>)
    ensures
        r@ == md5_of(data@),
        r@.len() == 16,
{
    md5::compute(data).0.to_vec()
}

/// Relies on hex::encode: two lowercase hex digits per byte, high nibble first.
#[verifier::external_body]
fn hex_encode(b: &[u8]) -> (r: String)
    ensures
        r@ == hex_of(b@),
{
    hex::encode(b)
}

/// The SHA-256 digest of `data` as 64 lowercase hex digits.
pub fn sha256_hex(data: &[u8]) -> (r: String)
    requires
        data@.len() < SHA256_MAX_INPUT,
    ensures
        r@ == hex_of(sha256_of(data@)),
{
    let d = sha256_digest(data);
    hex_encode(d.as_slice())
}

/// The MD5 digest of `data` as 32 lowercase hex digits.
pub fn md5_hex(data: &[u8]) -> (r: String)
    ensures
        r@ == hex_of(md5_of(data@)),
{
    let d = md5_digest(data);
    hex_encode(d.as_slice())
}

} // verus!
