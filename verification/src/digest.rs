//! Content-addressed bundle identities: the digest a stored bundle is
//! named by. The identity covers the version, source, destination and
//! creation timestamp together with the payload bytes, so bundles that
//! differ in any of these are stored under different names.

use vstd::prelude::*;
use vstd::string::*;

use crate::bundle::{Bundle, BundleView};

verus! {

/// The SHA-256 digest of a byte sequence; a function of the bytes alone.
pub uninterp spec fn sha256_of(data: Seq<u8>) -> Seq<u8>;

/// Relies on `sha2::Sha256` (through `digest::Digest::digest`): a
/// 32-byte digest that depends on the input bytes alone.
#[verifier::external_body]
fn sha256(data: &Vec<u8>) -> (r: Vec<u8>)
    ensures
        r@ == sha256_of(data@),
        r@.len() == 32,
{
    let out = <sha2::Sha256 as sha2::Digest>::digest(data.as_slice());
    out.as_slice().to_vec()
}

/// The bytes a bundle's stored identity is computed over:
/// `{version}:{source}:{destination}:{creation_timestamp}` in UTF-8,
/// followed by the payload.
pub open spec fn bundle_identity_bytes(b: BundleView) -> Seq<u8> {
    crate::text::dec_bytes_of(b.version as nat) + seq![58u8] + vstd::utf8::encode_utf8(b.source)
        + seq![58u8] + vstd::utf8::encode_utf8(b.destination) + seq![58u8]
        + crate::text::dec_bytes_of(b.creation_timestamp as nat) + b.payload
}

/// A bundle's stored identity: the lowercase hex rendering of the
/// SHA-256 digest of its identity bytes.
pub open spec fn spec_bundle_id(b: BundleView) -> Seq<char> {
    crate::text::hex_chars_of(sha256_of(bundle_identity_bytes(b)))
}

/// Compute the identity a bundle is stored under.
pub fn bundle_id_for(bundle: &Bundle) -> (r: String)
    ensures
        r@ == spec_bundle_id(bundle@),
{
    let mut data: Vec<u8> = Vec::new();
    let mut version_digits = crate::text::u64_dec_bytes(bundle.primary.version as u64);
    data.append(&mut version_digits);
    data.push(58);
    crate::text::push_all(&mut data, bundle.primary.source.as_str().as_bytes());
    data.push(58);
    crate::text::push_all(&mut data, bundle.primary.destination.as_str().as_bytes());
    data.push(58);
    let mut stamp_digits = crate::text::u64_dec_bytes(bundle.primary.creation_timestamp);
    data.append(&mut stamp_digits);
    crate::text::push_all(&mut data, bundle.payload.as_slice());
    proof {
        assert(data@ =~= bundle_identity_bytes(bundle@));
    }
    let digest = sha256(&data);
    let hex = crate::text::hex_lower_bytes(&digest);
    proof {
        crate::text::lemma_hex_bytes_ascii(digest@);
    }
    crate::text::ascii_to_string(hex)
}

} // verus!
