//! ROM validation: identifying a clean base image by its digest.

use vstd::prelude::*;

verus! {

/// The hex digest of a byte string under the MD5 algorithm. The algorithm
/// itself is not restated here; the digest is a fixed function of the input
/// bytes alone, computed by the `md5` crate.
pub uninterp spec fn md5_hex_of(data: Seq<u8>) -> Seq<char>;

/// The digest of the clean, headerless base ROM that patches apply to.
pub open spec fn spec_clean_rom_md5() -> Seq<char> {
    "cdd3c8c37322978ca8669b34bc89c804"@
}

pub struct RomValidator;

impl RomValidator {
    /// Relies on `md5::compute` and `md5::Digest`'s `LowerHex` rendering:
    /// the digest depends on the input bytes alone, and renders as exactly
    /// two lowercase hex characters per digest byte, 32 in all.
    #[verifier::external_body]
    pub fn calculate_md5(data: &Vec<u8>) -> (r: String)
        ensures
            r@ == md5_hex_of(data@),
            r@.len() == 32,
    {
        let digest = md5::compute(data.as_slice());
        format!("{:x}", digest)
    }

    /// Whether a digest is the clean base ROM's digest.
    pub fn is_clean_digest(hash: &String) -> (r: bool)
        ensures
            r == (hash@ == spec_clean_rom_md5()),
    {
        let expected: String = String::from_str("cdd3c8c37322978ca8669b34bc89c804");
        *hash == expected
    }

    /// Whether the given image bytes are the clean, headerless base ROM.
    pub fn is_clean_smw(data: &Vec<u8>) -> (r: bool)
        ensures
            r == (md5_hex_of(data@) == spec_clean_rom_md5()),
    {
        let hash = Self::calculate_md5(data);
        Self::is_clean_digest(&hash)
    }
}

} // verus!
