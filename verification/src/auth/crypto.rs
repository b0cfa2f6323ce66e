//! Hexadecimal text, SHA-1 and random bytes, as the authentication
//! mechanisms use them.

use vstd::prelude::*;
use vstd::utf8::encode_utf8;

verus! {

/// The lowercase hexadecimal digit for `n` (below 16).
pub open spec fn hex_digit_char(n: int) -> char {
    if n < 10 {
        (48 + n) as char
    } else {
        (87 + n) as char
    }
}

/// The lowercase hexadecimal text of the bytes `bs`, two digits a byte.
pub open spec fn hex_text(bs: Seq<u8>) -> Seq<char>
    decreases bs.len(),
{
    if bs.len() == 0 {
        Seq::empty()
    } else {
        hex_text(bs.drop_last()) + seq![
            hex_digit_char((bs.last() / 16) as int),
            hex_digit_char((bs.last() % 16) as int),
        ]
    }
}

/// The value of a hexadecimal digit (either case).
pub open spec fn hex_nibble(b: u8) -> Option<u8> {
    if 65 <= b <= 70 {
        Some((b - 65 + 10) as u8)
    } else if 97 <= b <= 102 {
        Some((b - 97 + 10) as u8)
    } else if 48 <= b <= 57 {
        Some((b - 48) as u8)
    } else {
        None
    }
}

/// The bytes that the hexadecimal digits `b` stand for: `None` for an odd
/// number of digits or a byte that is no digit.
pub open spec fn hex_decode_spec(b: Seq<u8>) -> Option<Seq<u8>> {
    if b.len() % 2 != 0 {
        None
    } else if forall|i: int| 0 <= i < b.len() ==> #[trigger] hex_nibble(b[i]) is Some {
        Some(
            Seq::new(
                b.len() / 2,
                |i: int| (hex_nibble(b[2 * i])->0 * 16 + hex_nibble(b[2 * i + 1])->0) as u8,
            ),
        )
    } else {
        None
    }
}

/// The lowercase hexadecimal text of `data` (`hex::encode`).
#[verifier::external_body]
pub(crate) fn hex_encode(data: &[u8]) -> (s: String)
    ensures
        s@ == hex_text(data@),
{
    hex::encode(data)
}

/// The bytes that the hexadecimal text `s` stands for (`hex::decode`):
/// `None` for an odd number of bytes or a byte that is no digit.
#[verifier::external_body]
pub(crate) fn hex_decode(s: &str) -> (r: Option<Vec<u8>>)
    ensures
        match hex_decode_spec(encode_utf8(s@)) {
            Some(b) => r matches Some(v) && v@ == b,
            None => r is None,
        },
{
    match hex::decode(s) {
        Ok(v) => Some(v),
        Err(_) => None,
    }
}

/// The SHA-1 digest of some bytes.
pub uninterp spec fn sha1_of(data: Seq<u8>) -> Seq<u8>;

/// The SHA-1 digest of `data` (`Sha1::digest`): 20 bytes, a function of
/// the data alone.
#[verifier::external_body]
pub(crate) fn sha1_digest(data: &[u8]) -> (d: Vec<u8>)
    ensures
        d@ == sha1_of(data@),
        d@.len() == 20,
{
    <sha1::Sha1 as sha1::Digest>::digest(data).to_vec()
}

/// `n` random bytes from the thread's generator (`RngCore::fill_bytes`);
/// nothing is promised of their values.
#[verifier::external_body]
pub(crate) fn random_bytes(n: usize) -> (v: Vec<u8>)
    ensures
        v@.len() == n,
{
    let mut v = vec![0u8; n];
    rand::RngCore::fill_bytes(&mut rand::thread_rng(), &mut v);
    v
}

} // verus!
