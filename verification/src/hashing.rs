//! The cryptographic hash over byte sequences and its lowercase
//! hexadecimal rendering.

use vstd::prelude::*;

verus! {

/// The SHA-256 digest of a byte sequence. The digest is a function of the
/// bytes alone; its value is not axiomatized here, only named.
pub uninterp spec fn sha256_of(data: Seq<u8>) -> Seq<u8>;

/// Relies on sha2's `Sha256` (update then finalize): the digest is 32 bytes
/// and depends on the input bytes alone.
#[verifier::external_body]
pub(crate) fn sha256(data: &[u8]) -> (r: Vec<u8>)
    ensures
        r@ == sha256_of(data@),
        r@.len() == 32,
{
    let mut hasher = <sha2::Sha256 as sha2::Digest>::new();
    sha2::Digest::update(&mut hasher, data);
    sha2::Digest::finalize(hasher).to_vec()
}

/// The sixteen lowercase hexadecimal digits, in value order.
pub open spec fn hex_digits() -> Seq<char> {
    seq!['0', '1', '2', '3', '4', '5', '6', '7', '8', '9', 'a', 'b', 'c', 'd', 'e', 'f']
}

/// The digit standing for a value below sixteen.
pub open spec fn hex_digit(n: u8) -> char
    recommends
        n < 16,
{
    hex_digits()[n as int]
}

/// Lowercase hexadecimal encoding: two digits for each byte, high nibble
/// first.
pub open spec fn hex_of_bytes(s: Seq<u8>) -> Seq<char>
    decreases s.len(),
{
    if s.len() == 0 {
        Seq::<char>::empty()
    } else {
        seq![hex_digit(s[0] >> 4), hex_digit(s[0] & 0xf)] + hex_of_bytes(s.drop_first())
    }
}

/// Each byte contributes exactly its two digits at positions `2i` and
/// `2i + 1` of the encoding.
pub proof fn lemma_hex_of_bytes_index(s: Seq<u8>, i: int)
    requires
        0 <= i < s.len(),
    ensures
        hex_of_bytes(s).len() == 2 * s.len(),
        hex_of_bytes(s)[2 * i] == hex_digit(s[i] >> 4),
        hex_of_bytes(s)[2 * i + 1] == hex_digit(s[i] & 0xf),
    decreases s.len(),
{
    lemma_hex_of_bytes_len(s);
    if i > 0 {
        lemma_hex_of_bytes_index(s.drop_first(), i - 1);
    }
}

/// The encoding of `n` bytes has `2n` digits.
pub proof fn lemma_hex_of_bytes_len(s: Seq<u8>)
    ensures
        hex_of_bytes(s).len() == 2 * s.len(),
    decreases s.len(),
{
    if s.len() > 0 {
        lemma_hex_of_bytes_len(s.drop_first());
    }
}

/// Only the zero nibble is rendered as the digit `'0'`.
pub proof fn lemma_hex_digit_zero(n: u8)
    requires
        n < 16,
    ensures
        (hex_digit(n) == '0') <==> (n == 0),
{
    if n != 0 {
        assert(hex_digits()[n as int] != '0');
    }
}

/// Relies on hex's `encode`: lowercase hexadecimal, two digits per byte,
/// high nibble first.
#[verifier::external_body]
pub(crate) fn hex_encode(data: &[u8]) -> (r: String)
    ensures
        r@ == hex_of_bytes(data@),
{
    hex::encode(data)
}

/// Relies on data-encoding's `HEXLOWER.encode`: the same lowercase
/// hexadecimal rendering. Its length computation asserts that the input
/// is well below the address-space limit, which the bound below rules in.
#[verifier::external_body]
pub(crate) fn hex_lower_encode(data: &[u8]) -> (r: String)
    requires
        data@.len() <= usize::MAX / 512,
    ensures
        r@ == hex_of_bytes(data@),
{
    data_encoding::HEXLOWER.encode(data)
}

} // verus!
