use vstd::prelude::*;
use hmac::Mac;

verus! {

/// The HMAC-SHA256 tag of `msg` under `key`.
pub uninterp spec fn hmac_sha256_tag(key: Seq<u8>, msg: Seq<u8>) -> [u8; 32];

/// HMAC-SHA256 from the `hmac` and `sha2` crates: `Hmac::<Sha256>::new_from_slice`
/// accepts keys of every length, and the finalized tag is the 32-byte HMAC of the
/// message under the key.
#[verifier::external_body]
pub(crate) fn hmac_sha256(key: &[u8], msg: &[u8]) -> (tag: [u8; 32])
    ensures
        tag == hmac_sha256_tag(key@, msg@),
{
    let mut mac = <hmac::Hmac<sha2::Sha256> as hmac::Mac>::new_from_slice(key).unwrap();
    mac.update(msg);
    mac.finalize().into_bytes().into()
}

/// `subtle::ConstantTimeEq::ct_eq` on byte slices: true exactly when the
/// slices have the same length and the same bytes.
#[verifier::external_body]
pub(crate) fn ct_eq_bytes(a: &[u8], b: &[u8]) -> (eq: bool)
    ensures
        eq == (a@ == b@),
{
    bool::from(subtle::ConstantTimeEq::ct_eq(a, b))
}

/// `getrandom::getrandom` on a 32-byte buffer: bytes from the operating system's
/// random source, or its error as a `std::io::Error`. Nothing is claimed of the bytes.
#[verifier::external_body]
pub(crate) fn random_32() -> (res: Result<[u8; 32], std::io::Error>) {
    let mut buf = [0u8; 32];
    getrandom::getrandom(&mut buf).map(|()| buf).map_err(std::io::Error::from)
}

} // verus!
