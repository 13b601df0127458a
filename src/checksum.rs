//! SHA-256 checksums of `.crate` files, in the lowercase hex form that index
//! entries record.

use vstd::prelude::*;

use crate::text::push_char;

verus! {

/// The SHA-256 digest of a byte string.
pub uninterp spec fn sha256_of(data: Seq<u8>) -> Seq<u8>;

/// Relies on `sha2::Sha256::digest` (through `digest::Digest`): the 32-byte
/// SHA-256 digest of the data.
#[verifier::external_body]
fn sha256_digest(data: &[u8]) -> (r: Vec<u8>)
    ensures
        r@ == sha256_of(data@),
        r@.len() == 32,
{
    <sha2::Sha256 as sha2::Digest>::digest(data).to_vec()
}

/// The lowercase hex digit of a value below 16.
pub open spec fn hex_digit(n: u8) -> char {
    if n < 10 {
        ((48 + n) as u8) as char
    } else {
        ((87 + n) as u8) as char
    }
}

/// Two lowercase hex digits per byte, high nibble first.
pub open spec fn hex_of(b: Seq<u8>) -> Seq<char>
    decreases b.len(),
{
    if b.len() == 0 {
        Seq::<char>::empty()
    } else {
        hex_of(b.drop_last()) + seq![hex_digit(b.last() / 16), hex_digit(b.last() % 16)]
    }
}

/// The checksum text of a `.crate` file's bytes.
pub open spec fn cksum_of(data: Seq<u8>) -> Seq<char> {
    hex_of(sha256_of(data))
}

/// Two lowercase hex digits per byte.
pub fn to_hex(b: &[u8]) -> (r: String)
    ensures
        r@ == hex_of(b@),
{
    let mut r = String::new();
    let mut i: usize = 0;
    while i < b.len()
        invariant
            i <= b.len(),
            r@ == hex_of(b@.take(i as int)),
        decreases b.len() - i,
    {
        let x = b[i];
        let hi: u8 = x / 16;
        let lo: u8 = x % 16;
        let c_hi: char = if hi < 10 { (48 + hi) as char } else { (87 + hi) as char };
        let c_lo: char = if lo < 10 { (48 + lo) as char } else { (87 + lo) as char };
        push_char(&mut r, c_hi);
        push_char(&mut r, c_lo);
        assert(b@.take(i + 1).drop_last() =~= b@.take(i as int));
        assert(r@ =~= hex_of(b@.take(i + 1)));
        i = i + 1;
    }
    assert(b@.take(i as int) =~= b@);
    r
}

/// The checksum that an index entry records for a `.crate` file.
pub fn crate_cksum(data: &[u8]) -> (r: String)
    ensures
        r@ == cksum_of(data@),
{
    let digest = sha256_digest(data);
    to_hex(digest.as_slice())
}

} // verus!
