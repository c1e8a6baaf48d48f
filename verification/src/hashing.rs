//! The content-hash primitive: a SHA-256 digest of the hash material, rendered
//! as lowercase hexadecimal. The digest itself is an outside computation with a
//! named result; the hex rendering is verified.
use vstd::prelude::*;

use crate::encoding::hex_char;
use sha2::Digest;

verus! {

/// The SHA-256 digest of the UTF-8 encoding of a character sequence.
/// The digest is a pure function of the material alone.
pub uninterp spec fn sha256_of(material: Seq<char>) -> Seq<u8>;

/// Relies on sha2's `Sha256::digest`: a 32-byte digest determined by the
/// input bytes alone, here the UTF-8 encoding of `material`.
#[verifier::external_body]
pub(crate) fn sha256_digest(material: &str) -> (r: Vec<u8>)
    ensures
        r@ == sha256_of(material@),
        r@.len() == 32,
{
    sha2::Sha256::digest(material.as_bytes()).to_vec()
}

/// Lowercase hexadecimal rendering of a byte sequence, two digits per byte.
pub open spec fn hex_of(bytes: Seq<u8>) -> Seq<char>
    decreases bytes.len(),
{
    if bytes.len() == 0 {
        Seq::empty()
    } else {
        hex_of(bytes.drop_last()) + seq![
            hex_char(bytes.last() as int / 16),
            hex_char(bytes.last() as int % 16),
        ]
    }
}

/// Renders `bytes` in lowercase hexadecimal, exactly as `hex_of` describes.
pub fn to_hex(bytes: &Vec<u8>) -> (s: String)
    ensures
        s@ == hex_of(bytes@),
{
    let mut s = String::new();
    let mut i: usize = 0;
    while i < bytes.len()
        invariant
            i <= bytes@.len(),
            s@ == hex_of(bytes@.take(i as int)),
        decreases bytes@.len() - i,
    {
        let b = bytes[i];
        s.append(crate::encoding::digit_str(b / 16));
        s.append(crate::encoding::digit_str(b % 16));
        proof {
            assert(bytes@.take(i + 1).drop_last() =~= bytes@.take(i as int));
            assert(bytes@.take(i + 1).last() == bytes@[i as int]);
        }
        i = i + 1;
    }
    proof {
        assert(bytes@.take(bytes@.len() as int) =~= bytes@);
    }
    s
}

} // verus!
