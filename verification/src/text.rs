//! Text forms of hashes and numbers, and the identifiers derived from them.
use crate::primitives::H256;
use md5::{Digest, Md5};
use vstd::prelude::*;
use vstd::utf8::encode_utf8;

verus! {

/// The lowercase hexadecimal digit of `n`, for `n` below 16.
pub open spec fn hex_digit(n: int) -> char {
    if n < 10 {
        (48 + n) as char
    } else {
        (87 + n) as char
    }
}

/// Two lowercase hexadecimal digits for each byte, the high one first.
pub open spec fn hex_chars(bytes: Seq<u8>) -> Seq<char> {
    Seq::new(
        2 * bytes.len(),
        |i: int|
            hex_digit(
                if i % 2 == 0 {
                    bytes[i / 2] as int / 16
                } else {
                    bytes[i / 2] as int % 16
                },
            ),
    )
}

/// The text of a hash: `0x`, then its bytes in hexadecimal.
pub open spec fn hash_text(h: H256) -> Seq<char> {
    seq!['0', 'x'] + hex_chars(h.0@)
}

/// The decimal digits of `n`, without leading zeros.
pub open spec fn decimal(n: nat) -> Seq<char>
    decreases n,
{
    if n < 10 {
        seq![hex_digit(n as int)]
    } else {
        decimal(n / 10).push(hex_digit((n % 10) as int))
    }
}

/// `hex::encode`: two lowercase hexadecimal digits for each byte.
#[verifier::external_body]
fn hex_encode(bytes: &[u8]) -> (r: String)
    ensures
        r@ == hex_chars(bytes@),
{
    hex::encode(bytes)
}

/// The `Debug` form of `ethereum_types::H256`: `0x`, then two lowercase hexadecimal digits for
/// each of the 32 bytes.
#[verifier::external_body]
fn h256_debug(h: &H256) -> (r: String)
    ensures
        r@ == hash_text(*h),
{
    format!("{:?}", ethereum_types::H256(h.0))
}

/// `u64::to_string` of the standard library: the decimal digits of the number.
#[verifier::external_body]
fn u64_to_string(n: u64) -> (r: String)
    ensures
        r@ == decimal(n as nat),
{
    n.to_string()
}

/// The MD5 digest of `data`.
pub uninterp spec fn md5_of(data: Seq<u8>) -> Seq<u8>;

/// `Md5::digest` of the crate `md-5`: the digest, a function of the data alone, has 16 bytes.
#[verifier::external_body]
fn md5_digest(data: &[u8]) -> (r: Vec<u8>)
    ensures
        r@ == md5_of(data@),
        r@.len() == 16,
{
    Md5::digest(data).to_vec()
}

/// The text of a hash.
pub fn hash_to_text(h: &H256) -> (r: String)
    ensures
        r@ == hash_text(*h),
{
    h256_debug(h)
}

/// The decimal text of a number.
pub fn number_text(n: usize) -> (r: String)
    ensures
        r@ == decimal(n as nat),
{
    u64_to_string(n as u64)
}

/// The UTF-8 bytes of the parts, one after the other.
pub open spec fn joined_bytes(parts: Seq<Seq<char>>) -> Seq<u8>
    decreases parts.len(),
{
    if parts.len() == 0 {
        seq![]
    } else {
        joined_bytes(parts.drop_last()) + encode_utf8(parts.last())
    }
}

/// The identifier made of `parts`: the MD5 digest of their bytes, in hexadecimal.
pub open spec fn debank_id(parts: Seq<Seq<char>>) -> Seq<char> {
    hex_chars(md5_of(joined_bytes(parts)))
}

/// The characters of each string.
pub open spec fn chars_of(args: Seq<&str>) -> Seq<Seq<char>> {
    args.map_values(|a: &str| a@)
}

/// The bytes that an identifier made of `args` is the digest of.
pub fn join_parts(args: &[&str]) -> (r: Vec<u8>)
    ensures
        r@ == joined_bytes(chars_of(args@)),
{
    let mut data: Vec<u8> = Vec::new();
    let mut i: usize = 0;
    let ghost parts = chars_of(args@);
    assert(parts.take(0) =~= Seq::empty());
    while i < args.len()
        invariant
            i <= args@.len(),
            parts == chars_of(args@),
            data@ == joined_bytes(parts.take(i as int)),
        decreases args@.len() - i,
    {
        assert(parts.take(i + 1).drop_last() =~= parts.take(i as int));
        data.extend_from_slice(args[i].as_bytes());
        i += 1;
        assert(data@ =~= joined_bytes(parts.take(i as int)));
    }
    assert(parts.take(i as int) =~= parts);
    data
}

/// The identifier whose digest is `digest`.
pub fn id_of_digest(digest: &[u8]) -> (r: String)
    ensures
        r@ == hex_chars(digest@),
{
    hex_encode(digest)
}

/// The identifier made of `args`.
pub fn calculate_debank_id(args: &[&str]) -> (r: String)
    ensures
        r@ == debank_id(chars_of(args@)),
{
    let data = join_parts(args);
    let digest = md5_digest(data.as_slice());
    id_of_digest(digest.as_slice())
}

} // verus!
